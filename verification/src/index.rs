use vstd::prelude::*;

use crate::rule::{Rule, RuleId, Scope};
use crate::units::InstrumentId;

verus! {

/// The rules scoped to one instrument, in insertion order.
struct Bucket {
    instrument: InstrumentId,
    rules: Vec<Rule>,
}

/// A bucket holds at least one rule, and only rules scoped to its instrument.
spec fn bucket_ok(b: Bucket) -> bool {
    &&& b.rules@.len() > 0
    &&& forall|k: int|
        0 <= k < b.rules@.len() ==> (#[trigger] b.rules@[k]).scope.covers(b.instrument@)
            && b.rules@[k].scope is Instrument
}

/// Some bucket of `bs` belongs to the instrument named `x`.
spec fn has_key(bs: Seq<Bucket>, x: Seq<char>) -> bool {
    exists|i: int| 0 <= i < bs.len() && (#[trigger] bs[i]).instrument@ == x
}

/// The position of the bucket of `x` in `bs` (meaningful when `has_key`).
spec fn key_pos(bs: Seq<Bucket>, x: Seq<char>) -> int {
    choose|i: int| 0 <= i < bs.len() && (#[trigger] bs[i]).instrument@ == x
}

/// The rules `bs` holds for the instrument named `x` (none when it has no bucket).
spec fn rules_for(bs: Seq<Bucket>, x: Seq<char>) -> Seq<Rule> {
    if has_key(bs, x) {
        bs[key_pos(bs, x)].rules@
    } else {
        Seq::empty()
    }
}

/// No two buckets belong to the same instrument, and every bucket is sound.
spec fn buckets_ok(bs: Seq<Bucket>) -> bool {
    &&& forall|i: int, j: int|
        0 <= i < bs.len() && 0 <= j < bs.len() && i != j ==> (#[trigger] bs[i]).instrument@
            != (#[trigger] bs[j]).instrument@
    &&& forall|i: int| 0 <= i < bs.len() ==> bucket_ok(#[trigger] bs[i])
}

/// Total number of rules held by the buckets.
spec fn bucket_total(bs: Seq<Bucket>) -> nat
    decreases bs.len(),
{
    if bs.len() == 0 {
        0
    } else {
        bucket_total(bs.drop_last()) + bs.last().rules@.len()
    }
}

/// The rules of `s` whose id is not `id`, in order.
pub open spec fn drop_id(s: Seq<Rule>, id: RuleId) -> Seq<Rule>
    decreases s.len(),
{
    if s.len() == 0 {
        s
    } else if s.last().id == id {
        drop_id(s.drop_last(), id)
    } else {
        drop_id(s.drop_last(), id).push(s.last())
    }
}

/// The number of rules in `s` with id `id`.
pub open spec fn id_count(s: Seq<Rule>, id: RuleId) -> nat
    decreases s.len(),
{
    if s.len() == 0 {
        0
    } else {
        id_count(s.drop_last(), id) + if s.last().id == id { 1nat } else { 0nat }
    }
}

/// The number of rules with id `id` over all buckets.
spec fn bucket_id_count(bs: Seq<Bucket>, id: RuleId) -> nat
    decreases bs.len(),
{
    if bs.len() == 0 {
        0
    } else {
        bucket_id_count(bs.drop_last(), id) + id_count(bs.last().rules@, id)
    }
}

/// Dropping the rules with an id removes exactly those rules.
proof fn lemma_drop_id_count(s: Seq<Rule>, id: RuleId)
    ensures
        drop_id(s, id).len() + id_count(s, id) == s.len(),
    decreases s.len(),
{
    if s.len() > 0 {
        lemma_drop_id_count(s.drop_last(), id);
    }
}

/// With distinct keys, the rules for a bucket's instrument are that bucket's rules.
proof fn lemma_rules_for_at(bs: Seq<Bucket>, i: int)
    requires
        buckets_ok(bs),
        0 <= i < bs.len(),
    ensures
        has_key(bs, bs[i].instrument@),
        rules_for(bs, bs[i].instrument@) == bs[i].rules@,
{
    let x = bs[i].instrument@;
    assert(has_key(bs, x));
    let j = key_pos(bs, x);
    assert(bs[j].instrument@ == x);
    assert(j == i);
}

/// Replacing one bucket changes the total by the difference in sizes.
proof fn lemma_total_update(bs: Seq<Bucket>, i: int, b: Bucket)
    requires
        0 <= i < bs.len(),
    ensures
        bucket_total(bs.update(i, b)) == bucket_total(bs) - bs[i].rules@.len() + b.rules@.len(),
    decreases bs.len(),
{
    let u = bs.update(i, b);
    if i == bs.len() - 1 {
        assert(u.drop_last() =~= bs.drop_last());
    } else {
        assert(u.drop_last() =~= bs.drop_last().update(i, b));
        lemma_total_update(bs.drop_last(), i, b);
    }
}

/// Adding a bucket adds its size to the total.
proof fn lemma_total_push(bs: Seq<Bucket>, b: Bucket)
    ensures
        bucket_total(bs.push(b)) == bucket_total(bs) + b.rules@.len(),
{
    assert(bs.push(b).drop_last() =~= bs);
}

/// An index that has no bucket for `x` holds no rules for it.
proof fn lemma_rules_for_absent(bs: Seq<Bucket>, x: Seq<char>)
    requires
        !has_key(bs, x),
    ensures
        rules_for(bs, x) == Seq::<Rule>::empty(),
{
}

/// Replacing bucket `i` by one for the same instrument leaves the other
/// instruments' rules unchanged.
proof fn lemma_rules_for_update(bs: Seq<Bucket>, i: int, b: Bucket, x: Seq<char>)
    requires
        buckets_ok(bs),
        bucket_ok(b),
        0 <= i < bs.len(),
        b.instrument@ == bs[i].instrument@,
    ensures
        buckets_ok(bs.update(i, b)),
        rules_for(bs.update(i, b), x) == if x == b.instrument@ { b.rules@ } else { rules_for(bs, x) },
{
    let u = bs.update(i, b);
    assert forall|p: int, q: int|
        0 <= p < u.len() && 0 <= q < u.len() && p != q implies (#[trigger] u[p]).instrument@
        != (#[trigger] u[q]).instrument@ by {
        assert(u[p].instrument@ == bs[p].instrument@);
        assert(u[q].instrument@ == bs[q].instrument@);
        assert(bs[p].instrument@ != bs[q].instrument@);
    }
    assert forall|p: int| 0 <= p < u.len() implies bucket_ok(#[trigger] u[p]) by {
        if p != i {
            assert(u[p] == bs[p]);
        }
    }
    if x == b.instrument@ {
        lemma_rules_for_at(u, i);
    } else if has_key(bs, x) {
        let j = key_pos(bs, x);
        assert(j != i);
        assert(u[j] == bs[j]);
        lemma_rules_for_at(u, j);
        lemma_rules_for_at(bs, j);
    } else {
        assert(!has_key(u, x)) by {
            if has_key(u, x) {
                let j = key_pos(u, x);
                assert(u[j].instrument@ == x);
                assert(j != i);
                assert(bs[j].instrument@ == x);
            }
        }
    }
}

/// Adding a bucket for an instrument that had none leaves the others unchanged.
proof fn lemma_rules_for_push(bs: Seq<Bucket>, b: Bucket, x: Seq<char>)
    requires
        buckets_ok(bs),
        bucket_ok(b),
        !has_key(bs, b.instrument@),
    ensures
        buckets_ok(bs.push(b)),
        rules_for(bs.push(b), x) == if x == b.instrument@ { b.rules@ } else { rules_for(bs, x) },
{
    let u = bs.push(b);
    assert forall|p: int, q: int|
        0 <= p < u.len() && 0 <= q < u.len() && p != q implies (#[trigger] u[p]).instrument@
        != (#[trigger] u[q]).instrument@ by {
        if p == bs.len() {
            assert(bs[q].instrument@ != b.instrument@);
        } else if q == bs.len() {
            assert(bs[p].instrument@ != b.instrument@);
        } else {
            assert(u[p] == bs[p]);
            assert(u[q] == bs[q]);
        }
    }
    assert forall|p: int| 0 <= p < u.len() implies bucket_ok(#[trigger] u[p]) by {
        if p < bs.len() {
            assert(u[p] == bs[p]);
        }
    }
    if x == b.instrument@ {
        lemma_rules_for_at(u, bs.len() as int);
    } else if has_key(bs, x) {
        let j = key_pos(bs, x);
        assert(u[j] == bs[j]);
        lemma_rules_for_at(u, j);
        lemma_rules_for_at(bs, j);
    } else {
        assert(!has_key(u, x)) by {
            if has_key(u, x) {
                let j = key_pos(u, x);
                assert(u[j].instrument@ == x);
                assert(j < bs.len());
                assert(bs[j].instrument@ == x);
            }
        }
    }
}

/// A sequence with one more element contains exactly the old elements and it.
proof fn lemma_push_contains(t: Seq<Rule>, l: Rule, r: Rule)
    ensures
        t.push(l).contains(r) <==> (t.contains(r) || r == l),
{
    let s = t.push(l);
    if s.contains(r) {
        let k = choose|k: int| 0 <= k < s.len() && s[k] == r;
        if k < t.len() {
            assert(t[k] == r);
        }
    }
    if t.contains(r) {
        let k = choose|k: int| 0 <= k < t.len() && t[k] == r;
        assert(s[k] == r);
    }
    if r == l {
        assert(s[t.len() as int] == r);
    }
}

/// Dropping a rule id keeps exactly the other rules.
proof fn lemma_drop_id_members(s: Seq<Rule>, id: RuleId, r: Rule)
    ensures
        drop_id(s, id).contains(r) <==> (s.contains(r) && r.id != id),
    decreases s.len(),
{
    if s.len() > 0 {
        let t = s.drop_last();
        let l = s.last();
        assert(s == t.push(l));
        lemma_drop_id_members(t, id, r);
        lemma_push_contains(t, l, r);
        if l.id != id {
            lemma_push_contains(drop_id(t, id), l, r);
        }
    }
}

/// Dropping a rule id shrinks a list exactly when it held that id.
proof fn lemma_drop_id_len(s: Seq<Rule>, id: RuleId)
    ensures
        drop_id(s, id).len() <= s.len(),
        drop_id(s, id).len() < s.len() <==> exists|k: int| 0 <= k < s.len() && (#[trigger] s[k]).id == id,
    decreases s.len(),
{
    if s.len() > 0 {
        let t = s.drop_last();
        lemma_drop_id_len(t, id);
        if exists|k: int| 0 <= k < t.len() && (#[trigger] t[k]).id == id {
            let k = choose|k: int| 0 <= k < t.len() && (#[trigger] t[k]).id == id;
            assert(s[k].id == id);
        }
        if exists|k: int| 0 <= k < s.len() && (#[trigger] s[k]).id == id {
            let k = choose|k: int| 0 <= k < s.len() && (#[trigger] s[k]).id == id;
            if k < t.len() {
                assert(t[k].id == id);
            }
        }
    }
}

/// Remove every rule with id `id` from `v`, keeping the others in order.
fn retain_other_ids(v: &mut Vec<Rule>, id: RuleId)
    ensures
        final(v)@ == drop_id(old(v)@, id),
{
    let ghost orig = v@;
    let mut i: usize = 0;
    let ghost mut k: int = 0;
    proof {
        assert(orig.take(0) =~= Seq::<Rule>::empty());
        assert(v@ =~= drop_id(orig.take(0), id) + orig.skip(0));
    }
    while i < v.len()
        invariant
            0 <= k <= orig.len(),
            v@ == drop_id(orig.take(k), id) + orig.skip(k),
            i == drop_id(orig.take(k), id).len(),
            v@.len() - i == orig.len() - k,
        decreases orig.len() - k,
    {
        proof {
            assert(orig.take(k + 1).drop_last() =~= orig.take(k));
            assert(orig.take(k + 1).last() == orig[k]);
            assert(v@[i as int] == orig[k]);
        }
        if v[i].id == id {
            v.remove(i);
            proof {
                assert(v@ =~= drop_id(orig.take(k + 1), id) + orig.skip(k + 1));
            }
        } else {
            i = i + 1;
            proof {
                assert(v@ =~= drop_id(orig.take(k + 1), id) + orig.skip(k + 1));
            }
        }
        proof {
            k = k + 1;
        }
    }
    proof {
        assert(orig.take(k) =~= orig);
        assert(v@ =~= drop_id(orig, id));
    }
}

/// A bucket's rules are held for its instrument: a rule is in some bucket
/// exactly when it is scoped to an instrument whose rules contain it.
proof fn lemma_in_bucket(bs: Seq<Bucket>, r: Rule)
    requires
        buckets_ok(bs),
    ensures
        (exists|i: int| 0 <= i < bs.len() && (#[trigger] bs[i]).rules@.contains(r)) <==> (
        match r.scope {
            Scope::Any => false,
            Scope::Instrument(k) => rules_for(bs, k@).contains(r),
        }),
{
    if exists|i: int| 0 <= i < bs.len() && (#[trigger] bs[i]).rules@.contains(r) {
        let i = choose|i: int| 0 <= i < bs.len() && (#[trigger] bs[i]).rules@.contains(r);
        let q = choose|q: int| 0 <= q < bs[i].rules@.len() && bs[i].rules@[q] == r;
        assert(bucket_ok(bs[i]));
        assert(bs[i].rules@[q].scope.covers(bs[i].instrument@));
        lemma_rules_for_at(bs, i);
    }
    match r.scope {
        Scope::Any => {},
        Scope::Instrument(k) => {
            if rules_for(bs, k@).contains(r) {
                let p = key_pos(bs, k@);
                assert(has_key(bs, k@));
                assert(bs[p].rules@.contains(r));
            }
        },
    }
}

/// An in-memory, read-optimized index of rules for the hot evaluation path.
///
/// Rules are grouped so that a tick for instrument `X` only needs to look at
/// rules scoped to `X` plus the `Any`-scoped rules: per-tick work stays
/// proportional to the rules that could possibly fire, not the entire rule
/// base.
pub struct RuleIndex {
    by_instrument: Vec<Bucket>,
    any: Vec<Rule>,
}

impl RuleIndex {
    /// The `Any`-scoped rules, in insertion order.
    pub closed spec fn any_rules(&self) -> Seq<Rule> {
        self.any@
    }

    /// The rules scoped to the instrument named `x`, in insertion order.
    pub closed spec fn scoped_rules(&self, x: Seq<char>) -> Seq<Rule> {
        rules_for(self.by_instrument@, x)
    }

    /// The rules a tick for the instrument named `x` has to look at:
    /// the `Any`-scoped rules, then those scoped to `x`.
    pub open spec fn candidate_rules(&self, x: Seq<char>) -> Seq<Rule> {
        self.any_rules() + self.scoped_rules(x)
    }

    /// Whether `r` is held by the index.
    pub closed spec fn holds_rule(&self, r: Rule) -> bool {
        ||| self.any@.contains(r)
        ||| exists|i: int|
            0 <= i < self.by_instrument@.len() && (#[trigger] self.by_instrument@[i]).rules@.contains(r)
    }

    /// Total number of rules held.
    pub closed spec fn total(&self) -> nat {
        self.any@.len() + bucket_total(self.by_instrument@)
    }

    /// The number of held rules with id `id`.
    pub closed spec fn count_id(&self, id: RuleId) -> nat {
        id_count(self.any@, id) + bucket_id_count(self.by_instrument@, id)
    }

    /// The index is well formed: `Any`-scoped rules in one list, each other
    /// rule in the one bucket of its instrument, no empty bucket.
    pub closed spec fn wf(&self) -> bool {
        &&& forall|k: int| 0 <= k < self.any@.len() ==> (#[trigger] self.any@[k]).scope is Any
        &&& buckets_ok(self.by_instrument@)
    }

    /// Create an empty index.
    pub fn new() -> (idx: RuleIndex)
        ensures
            idx.wf(),
            idx.any_rules() == Seq::<Rule>::empty(),
            forall|x: Seq<char>| idx.scoped_rules(x) == Seq::<Rule>::empty(),
            idx.total() == 0,
    {
        let idx = RuleIndex { by_instrument: Vec::new(), any: Vec::new() };
        assert(bucket_total(idx.by_instrument@) == 0);
        idx
    }

    /// Insert a rule into the index: `Any`-scoped rules join the shared list,
    /// the others the list of their instrument.
    pub fn insert(&mut self, rule: Rule)
        requires
            old(self).wf(),
        ensures
            final(self).wf(),
            final(self).any_rules() == if rule.scope is Any {
                old(self).any_rules().push(rule)
            } else {
                old(self).any_rules()
            },
            forall|x: Seq<char>|
                #[trigger] final(self).scoped_rules(x) == if rule.scope is Instrument
                    && rule.scope.covers(x) {
                    old(self).scoped_rules(x).push(rule)
                } else {
                    old(self).scoped_rules(x)
                },
            final(self).total() == old(self).total() + 1,
            forall|r: Rule| #[trigger] final(self).holds_rule(r) <==> (old(self).holds_rule(r) || r == rule),
    {
        match &rule.scope {
            Scope::Any => {
                self.any.push(rule);
                assert forall|k: int| 0 <= k < self.any@.len() implies (#[trigger] self.any@[k]).scope is Any by {
                    if k < old(self).any@.len() {
                        assert(self.any@[k] == old(self).any@[k]);
                    }
                }
            },
            Scope::Instrument(id) => {
                let key = id.clone();
                let ghost bs = self.by_instrument@;
                match self.find_bucket(&key) {
                    Some(i) => {
                        let ghost old_b = bs[i as int];
                        self.by_instrument[i].rules.push(rule);
                        proof {
                            let nb = self.by_instrument@[i as int];
                            assert(self.by_instrument@ =~= bs.update(i as int, nb));
                            assert(nb.rules@ == old_b.rules@.push(rule));
                            assert(bucket_ok(old_b));
                            assert forall|k: int| 0 <= k < nb.rules@.len() implies
                                (#[trigger] nb.rules@[k]).scope.covers(nb.instrument@)
                                && nb.rules@[k].scope is Instrument by {
                                if k < old_b.rules@.len() {
                                    assert(nb.rules@[k] == old_b.rules@[k]);
                                }
                            }
                            assert(bucket_ok(nb));
                            lemma_total_update(bs, i as int, nb);
                            assert forall|x: Seq<char>| #[trigger] rules_for(self.by_instrument@, x)
                                == if rule.scope is Instrument && rule.scope.covers(x) {
                                    rules_for(bs, x).push(rule)
                                } else {
                                    rules_for(bs, x)
                                } by {
                                lemma_rules_for_update(bs, i as int, nb, x);
                                lemma_rules_for_at(bs, i as int);
                            }
                        }
                    },
                    None => {
                        let mut rules = Vec::new();
                        rules.push(rule);
                        let nb = Bucket { instrument: key, rules };
                        proof {
                            assert(nb.rules@[0] == rule);
                            assert(bucket_ok(nb));
                            lemma_total_push(bs, nb);
                        }
                        self.by_instrument.push(nb);
                        proof {
                            assert forall|x: Seq<char>| #[trigger] rules_for(self.by_instrument@, x)
                                == if rule.scope is Instrument && rule.scope.covers(x) {
                                    rules_for(bs, x).push(rule)
                                } else {
                                    rules_for(bs, x)
                                } by {
                                lemma_rules_for_push(bs, nb, x);
                                if x == nb.instrument@ {
                                    lemma_rules_for_absent(bs, x);
                                    assert(nb.rules@ =~= Seq::<Rule>::empty().push(rule));
                                }
                            }
                            lemma_rules_for_push(bs, nb, Seq::empty());
                        }
                    },
                }
            },
        }
        proof {
            assert forall|r: Rule| #[trigger] self.holds_rule(r) <==> (old(self).holds_rule(r) || r == rule) by {
                let x = covered_key(r);
                lemma_held_as_candidate(self, r);
                lemma_held_as_candidate(&*old(self), r);
                lemma_concat_contains(self.any_rules(), self.scoped_rules(x), r);
                lemma_concat_contains(old(self).any_rules(), old(self).scoped_rules(x), r);
                lemma_push_contains(old(self).any_rules(), rule, r);
                lemma_push_contains(old(self).scoped_rules(x), rule, r);
            }
        }
    }

    /// Rules that could fire for `instrument`: the `Any`-scoped rules, then
    /// those scoped to `instrument`.
    pub fn candidates(&self, instrument: &InstrumentId) -> (out: Vec<&Rule>)
        requires
            self.wf(),
        ensures
            out@.len() == self.candidate_rules(instrument@).len(),
            forall|k: int| 0 <= k < out@.len() ==> *(#[trigger] out@[k]) == self.candidate_rules(instrument@)[k],
    {
        let mut out: Vec<&Rule> = Vec::new();
        let n = self.any.len();
        let mut i: usize = 0;
        while i < n
            invariant
                n == self.any@.len(),
                i <= n,
                out@.len() == i,
                forall|k: int| 0 <= k < i ==> *(#[trigger] out@[k]) == self.any@[k],
            decreases n - i,
        {
            out.push(&self.any[i]);
            i = i + 1;
        }
        let ghost cands = self.candidate_rules(instrument@);
        match self.find_bucket(instrument) {
            Some(b) => {
                proof {
                    lemma_rules_for_at(self.by_instrument@, b as int);
                }
                let rules = &self.by_instrument[b].rules;
                let m = rules.len();
                let mut j: usize = 0;
                while j < m
                    invariant
                        m == rules@.len(),
                        rules@ == self.scoped_rules(instrument@),
                        cands == self.any@ + rules@,
                        j <= m,
                        out@.len() == n + j,
                        n == self.any@.len(),
                        forall|k: int| 0 <= k < n + j ==> *(#[trigger] out@[k]) == cands[k],
                    decreases m - j,
                {
                    out.push(&rules[j]);
                    j = j + 1;
                }
            },
            None => {
                proof {
                    lemma_rules_for_absent(self.by_instrument@, instrument@);
                    assert(cands =~= self.any@);
                }
            },
        }
        out
    }

    /// Visit every candidate rule for `instrument` in place, in the order of
    /// `candidate_rules`, without collecting them.
    pub fn for_each_candidate<F: FnMut(&Rule)>(&self, instrument: &InstrumentId, f: F)
        requires
            self.wf(),
            forall|g: F, r: &Rule| call_requires(g, (r,)),
    {
        let mut f = f;
        let n = self.any.len();
        let mut i: usize = 0;
        while i < n
            invariant
                n == self.any@.len(),
                i <= n,
                forall|g: F, r: &Rule| call_requires(g, (r,)),
            decreases n - i,
        {
            f(&self.any[i]);
            i = i + 1;
        }
        match self.find_bucket(instrument) {
            Some(b) => {
                let rules = &self.by_instrument[b].rules;
                let m = rules.len();
                let mut j: usize = 0;
                while j < m
                    invariant
                        m == rules@.len(),
                        j <= m,
                        forall|g: F, r: &Rule| call_requires(g, (r,)),
                    decreases m - j,
                {
                    f(&rules[j]);
                    j = j + 1;
                }
            },
            None => {},
        }
    }

    /// Whether some held rule has id `id`.
    pub open spec fn holds_id(&self, id: RuleId) -> bool {
        exists|r: Rule| self.holds_rule(r) && r.id == id
    }

    /// Remove every rule with id `id`, returning whether any was present.
    pub fn remove(&mut self, id: RuleId) -> (removed: bool)
        requires
            old(self).wf(),
        ensures
            final(self).wf(),
            final(self).any_rules() == drop_id(old(self).any_rules(), id),
            forall|x: Seq<char>|
                #[trigger] final(self).scoped_rules(x) == drop_id(old(self).scoped_rules(x), id),
            forall|r: Rule| #[trigger] final(self).holds_rule(r) <==> (old(self).holds_rule(r) && r.id != id),
            removed == old(self).holds_id(id),
            removed == (final(self).total() < old(self).total()),
            final(self).total() <= old(self).total(),
            final(self).total() == old(self).total() - old(self).count_id(id),
    {
        let ghost old_any = self.any@;
        let ghost orig = self.by_instrument@;
        let any_before = self.any.len();
        retain_other_ids(&mut self.any, id);
        let any_shrank = self.any.len() != any_before;
        proof {
            lemma_drop_id_len(old_any, id);
            assert forall|k: int| 0 <= k < self.any@.len() implies (#[trigger] self.any@[k]).scope is Any by {
                lemma_drop_id_members(old_any, id, self.any@[k]);
                assert(self.any@.contains(self.any@[k]));
                let m = choose|m: int| 0 <= m < old_any.len() && old_any[m] == self.any@[k];
            }
        }
        let mut rest: Vec<Bucket> = Vec::new();
        std::mem::swap(&mut rest, &mut self.by_instrument);
        let mut kept: Vec<Bucket> = Vec::new();
        let mut bucket_shrank = false;
        let ghost mut dropped: nat = 0;
        proof {
            assert(orig.take(orig.len() as int) =~= orig);
            assert(buckets_ok(kept@));
        }
        while rest.len() > 0
            invariant
                buckets_ok(orig),
                rest@.len() <= orig.len(),
                rest@ == orig.take(rest@.len() as int),
                buckets_ok(kept@),
                forall|i: int, j: int|
                    0 <= i < kept@.len() && 0 <= j < rest@.len() ==> (#[trigger] kept@[i]).instrument@
                        != (#[trigger] rest@[j]).instrument@,
                forall|x: Seq<char>|
                    #[trigger] rules_for(kept@, x) == if has_key(rest@, x) {
                        Seq::<Rule>::empty()
                    } else {
                        drop_id(rules_for(orig, x), id)
                    },
                bucket_total(kept@) + bucket_total(rest@) + dropped == bucket_total(orig),
                dropped + bucket_id_count(rest@, id) == bucket_id_count(orig, id),
                bucket_shrank == (dropped > 0),
                bucket_shrank <==> exists|i: int, q: int|
                    rest@.len() <= i < orig.len() && 0 <= q < orig[i].rules@.len() && (#[trigger] orig[i].rules@[q]).id == id,
            decreases rest@.len(),
        {
            let ghost pre_rest = rest@;
            let ghost pre_kept = kept@;
            let mut b = rest.pop().unwrap();
            let ghost p = pre_rest.len() - 1;
            let ghost y = b.instrument@;
            let ghost orig_rules = b.rules@;
            proof {
                assert(rest@ =~= pre_rest.drop_last());
                assert(orig[p] == b);
                assert(rest@ =~= orig.take(p));
                lemma_rules_for_at(orig, p);
                assert(pre_rest.drop_last() =~= rest@);
            }
            let before = b.rules.len();
            retain_other_ids(&mut b.rules, id);
            let shrank = b.rules.len() != before;
            proof {
                lemma_drop_id_len(orig_rules, id);
                lemma_drop_id_count(orig_rules, id);
                assert(bucket_total(pre_rest) == bucket_total(rest@) + orig_rules.len());
                assert(bucket_id_count(pre_rest, id) == bucket_id_count(rest@, id) + id_count(orig_rules, id));
            }
            if b.rules.len() > 0 {
                proof {
                    assert forall|k: int| 0 <= k < b.rules@.len() implies
                        (#[trigger] b.rules@[k]).scope.covers(b.instrument@) && b.rules@[k].scope is Instrument by {
                        lemma_drop_id_members(orig_rules, id, b.rules@[k]);
                        assert(b.rules@.contains(b.rules@[k]));
                        let m = choose|m: int| 0 <= m < orig_rules.len() && orig_rules[m] == b.rules@[k];
                        assert(bucket_ok(orig[p]));
                    }
                    assert(bucket_ok(b));
                    assert(!has_key(pre_kept, y)) by {
                        if has_key(pre_kept, y) {
                            let i = key_pos(pre_kept, y);
                            assert(pre_kept[i].instrument@ != pre_rest[p].instrument@);
                        }
                    }
                    lemma_total_push(pre_kept, b);
                }
                kept.push(b);
                proof {
                    assert forall|x: Seq<char>| #[trigger] rules_for(kept@, x) == if has_key(rest@, x) {
                        Seq::<Rule>::empty()
                    } else {
                        drop_id(rules_for(orig, x), id)
                    } by {
                        lemma_rules_for_push(pre_kept, b, x);
                        if x != y {
                            assert(has_key(rest@, x) == has_key(pre_rest, x)) by {
                                if has_key(pre_rest, x) {
                                    let j = key_pos(pre_rest, x);
                                    assert(j != p);
                                    assert(rest@[j] == pre_rest[j]);
                                }
                                if has_key(rest@, x) {
                                    let j = key_pos(rest@, x);
                                    assert(pre_rest[j] == rest@[j]);
                                }
                            }
                        } else {
                            assert(!has_key(rest@, y)) by {
                                if has_key(rest@, y) {
                                    let j = key_pos(rest@, y);
                                    assert(orig[j].instrument@ == y);
                                    assert(j != p);
                                }
                            }
                        }
                    }
                    assert forall|i: int, j: int|
                        0 <= i < kept@.len() && 0 <= j < rest@.len() implies (#[trigger] kept@[i]).instrument@
                            != (#[trigger] rest@[j]).instrument@ by {
                        assert(rest@[j] == pre_rest[j]);
                        if i < pre_kept.len() {
                            assert(kept@[i] == pre_kept[i]);
                        } else {
                            assert(orig[j].instrument@ != orig[p].instrument@);
                        }
                    }
                }
            } else {
                proof {
                    assert forall|x: Seq<char>| #[trigger] rules_for(kept@, x) == if has_key(rest@, x) {
                        Seq::<Rule>::empty()
                    } else {
                        drop_id(rules_for(orig, x), id)
                    } by {
                        if x != y {
                            assert(has_key(rest@, x) == has_key(pre_rest, x)) by {
                                if has_key(pre_rest, x) {
                                    let j = key_pos(pre_rest, x);
                                    assert(j != p);
                                    assert(rest@[j] == pre_rest[j]);
                                }
                                if has_key(rest@, x) {
                                    let j = key_pos(rest@, x);
                                    assert(pre_rest[j] == rest@[j]);
                                }
                            }
                        } else {
                            assert(!has_key(rest@, y)) by {
                                if has_key(rest@, y) {
                                    let j = key_pos(rest@, y);
                                    assert(orig[j].instrument@ == y);
                                    assert(j != p);
                                }
                            }
                            assert(has_key(pre_rest, y)) by {
                                assert(pre_rest[p].instrument@ == y);
                            }
                            assert(b.rules@.len() == 0);
                            assert(drop_id(rules_for(orig, y), id) =~= Seq::<Rule>::empty());
                        }
                    }
                    assert forall|i: int, j: int|
                        0 <= i < kept@.len() && 0 <= j < rest@.len() implies (#[trigger] kept@[i]).instrument@
                            != (#[trigger] rest@[j]).instrument@ by {
                        assert(rest@[j] == pre_rest[j]);
                    }
                }
            }
            if shrank {
                bucket_shrank = true;
            }
            proof {
                dropped = dropped + (orig_rules.len() - drop_id(orig_rules, id).len()) as nat;
                if exists|k: int| 0 <= k < orig_rules.len() && (#[trigger] orig_rules[k]).id == id {
                    let k = choose|k: int| 0 <= k < orig_rules.len() && (#[trigger] orig_rules[k]).id == id;
                    assert(orig[p].rules@[k].id == id);
                }
                if exists|i: int, q: int|
                    rest@.len() <= i < orig.len() && 0 <= q < orig[i].rules@.len() && (#[trigger] orig[i].rules@[q]).id == id {
                    let (i, q) = choose|i: int, q: int|
                        rest@.len() <= i < orig.len() && 0 <= q < orig[i].rules@.len() && (#[trigger] orig[i].rules@[q]).id == id;
                    if i == p {
                        assert(orig_rules[q].id == id);
                    }
                }
            }
        }
        self.by_instrument = kept;
        let removed = any_shrank || bucket_shrank;
        proof {
            assert(rest@.len() == 0);
            lemma_drop_id_count(old_any, id);
            assert(!has_key(rest@, Seq::<char>::empty()));
            assert forall|x: Seq<char>| #[trigger] self.scoped_rules(x) == drop_id(old(self).scoped_rules(x), id) by {
                assert(!has_key(rest@, x));
            }
            assert forall|r: Rule| #[trigger] self.holds_rule(r) <==> (old(self).holds_rule(r) && r.id != id) by {
                lemma_in_bucket(orig, r);
                lemma_in_bucket(self.by_instrument@, r);
                lemma_drop_id_members(old_any, id, r);
                match r.scope {
                    Scope::Any => {},
                    Scope::Instrument(k) => {
                        assert(!has_key(rest@, k@));
                        lemma_drop_id_members(rules_for(orig, k@), id, r);
                    },
                }
            }
            if old(self).holds_id(id) {
                let r = choose|r: Rule| old(self).holds_rule(r) && r.id == id;
                if old_any.contains(r) {
                    let k = choose|k: int| 0 <= k < old_any.len() && old_any[k] == r;
                    assert(old_any[k].id == id);
                } else {
                    let i = choose|i: int| 0 <= i < orig.len() && (#[trigger] orig[i]).rules@.contains(r);
                    let q = choose|q: int| 0 <= q < orig[i].rules@.len() && orig[i].rules@[q] == r;
                    assert(orig[i].rules@[q].id == id);
                }
            }
            if removed {
                if any_shrank {
                    let k = choose|k: int| 0 <= k < old_any.len() && (#[trigger] old_any[k]).id == id;
                    assert(old_any.contains(old_any[k]));
                    assert(old(self).holds_rule(old_any[k]));
                } else {
                    let (i, q) = choose|i: int, q: int|
                        0 <= i < orig.len() && 0 <= q < orig[i].rules@.len() && (#[trigger] orig[i].rules@[q]).id == id;
                    let r = orig[i].rules@[q];
                    assert(orig[i].rules@.contains(r));
                    assert(old(self).holds_rule(r));
                }
            }
        }
        removed
    }

    /// Total number of indexed rules (saturating at `usize::MAX`).
    pub fn len(&self) -> (n: usize)
        requires
            self.wf(),
        ensures
            n as nat == if self.total() > usize::MAX { usize::MAX as nat } else { self.total() },
    {
        let bs = &self.by_instrument;
        let mut acc: usize = self.any.len();
        let m = bs.len();
        let mut i: usize = 0;
        proof {
            assert(bs@.take(0) =~= Seq::<Bucket>::empty());
        }
        while i < m
            invariant
                m == bs@.len(),
                i <= m,
                acc as nat == if self.any@.len() + bucket_total(bs@.take(i as int)) > usize::MAX {
                    usize::MAX as nat
                } else {
                    self.any@.len() + bucket_total(bs@.take(i as int))
                },
            decreases m - i,
        {
            proof {
                assert(bs@.take(i + 1).drop_last() =~= bs@.take(i as int));
                assert(bs@.take(i + 1).last() == bs@[i as int]);
            }
            acc = acc.saturating_add(bs[i].rules.len());
            i = i + 1;
        }
        proof {
            assert(bs@.take(m as int) =~= bs@);
        }
        acc
    }

    /// Whether the index holds no rules.
    pub fn is_empty(&self) -> (b: bool)
        requires
            self.wf(),
        ensures
            b == (self.total() == 0),
    {
        self.len() == 0
    }

    /// Position of the bucket of `instrument`, if it has one.
    fn find_bucket(&self, instrument: &InstrumentId) -> (r: Option<usize>)
        requires
            self.wf(),
        ensures
            match r {
                Some(i) => i < self.by_instrument@.len() && self.by_instrument@[i as int].instrument@
                    == instrument@,
                None => !has_key(self.by_instrument@, instrument@),
            },
    {
        let n = self.by_instrument.len();
        let mut i: usize = 0;
        while i < n
            invariant
                n == self.by_instrument@.len(),
                i <= n,
                forall|j: int| 0 <= j < i ==> (#[trigger] self.by_instrument@[j]).instrument@ != instrument@,
            decreases n - i,
        {
            if self.by_instrument[i].instrument == *instrument {
                return Some(i);
            }
            i = i + 1;
        }
        None
    }
}

/// A rule held by the index is among the candidates of an instrument exactly
/// when the rule applies to that instrument: the index neither misses a rule
/// that could fire nor offers one scoped elsewhere.
pub proof fn lemma_candidates_are_applicable_rules(idx: &RuleIndex, r: Rule, x: Seq<char>)
    requires
        idx.wf(),
    ensures
        idx.candidate_rules(x).contains(r) <==> (idx.holds_rule(r) && r.scope.covers(x)),
{
    let bs = idx.by_instrument@;
    let c = idx.candidate_rules(x);
    if c.contains(r) {
        let k = choose|k: int| 0 <= k < c.len() && c[k] == r;
        if k < idx.any@.len() {
            assert(idx.any@[k] == r);
            assert(idx.any@.contains(r));
        } else {
            assert(has_key(bs, x));
            let p = key_pos(bs, x);
            let q = k - idx.any@.len();
            assert(bs[p].rules@[q] == r);
            assert(bucket_ok(bs[p]));
            assert(bs[p].rules@.contains(r));
        }
    }
    if idx.holds_rule(r) && r.scope.covers(x) {
        if idx.any@.contains(r) {
            let k = choose|k: int| 0 <= k < idx.any@.len() && idx.any@[k] == r;
            assert(c[k] == r);
        } else {
            let i = choose|i: int| 0 <= i < bs.len() && (#[trigger] bs[i]).rules@.contains(r);
            let q = choose|q: int| 0 <= q < bs[i].rules@.len() && bs[i].rules@[q] == r;
            assert(bucket_ok(bs[i]));
            assert(bs[i].rules@[q].scope.covers(bs[i].instrument@));
            assert(bs[i].instrument@ == x);
            lemma_rules_for_at(bs, i);
            assert(c[idx.any@.len() + q] == r);
        }
    }
}

/// An instrument that `r`'s scope covers: its own, or any for `Any`.
pub open spec fn covered_key(r: Rule) -> Seq<char> {
    match r.scope {
        Scope::Any => Seq::empty(),
        Scope::Instrument(k) => k@,
    }
}

/// A sequence joined to another contains exactly the elements of both.
proof fn lemma_concat_contains(a: Seq<Rule>, b: Seq<Rule>, r: Rule)
    ensures
        (a + b).contains(r) <==> (a.contains(r) || b.contains(r)),
{
    let s = a + b;
    if s.contains(r) {
        let k = choose|k: int| 0 <= k < s.len() && s[k] == r;
        if k < a.len() {
            assert(a[k] == r);
        } else {
            assert(b[k - a.len()] == r);
        }
    }
    if a.contains(r) {
        let k = choose|k: int| 0 <= k < a.len() && a[k] == r;
        assert(s[k] == r);
    }
    if b.contains(r) {
        let k = choose|k: int| 0 <= k < b.len() && b[k] == r;
        assert(s[a.len() + k] == r);
    }
}

/// A rule is held exactly when it is a candidate for the instrument its
/// scope covers.
proof fn lemma_held_as_candidate(idx: &RuleIndex, r: Rule)
    requires
        idx.wf(),
    ensures
        idx.holds_rule(r) <==> idx.candidate_rules(covered_key(r)).contains(r),
{
    lemma_candidates_are_applicable_rules(idx, r, covered_key(r));
}

/// A rule registered in the index is, from then on, a candidate for exactly
/// the instruments its scope covers (the state `after` holds what `before`
/// held and `rule`, as `RuleIndex::insert` and `ScanEngine::add_rule` leave
/// it).
pub proof fn lemma_added_rule_becomes_candidate(before: &RuleIndex, after: &RuleIndex, rule: Rule, x: Seq<char>)
    requires
        after.wf(),
        forall|r: Rule| #[trigger] after.holds_rule(r) <==> (before.holds_rule(r) || r == rule),
    ensures
        after.candidate_rules(x).contains(rule) <==> rule.scope.covers(x),
{
    lemma_candidates_are_applicable_rules(after, rule, x);
    assert(after.holds_rule(rule));
}

/// A removed rule is never a candidate again: once the index holds no rule
/// with id `id` (as `RuleIndex::remove` and `ScanEngine::remove_rule` leave
/// it), no tick evaluates a rule with that id.
pub proof fn lemma_removed_rule_never_candidate(before: &RuleIndex, after: &RuleIndex, id: RuleId, r: Rule, x: Seq<char>)
    requires
        after.wf(),
        forall|q: Rule| #[trigger] after.holds_rule(q) <==> (before.holds_rule(q) && q.id != id),
        r.id == id,
    ensures
        !after.candidate_rules(x).contains(r),
{
    lemma_candidates_are_applicable_rules(after, r, x);
    assert(!after.holds_rule(r));
}

} // verus!
