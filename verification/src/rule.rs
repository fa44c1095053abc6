use std::hash::{BuildHasher, DefaultHasher, Hasher, RandomState};

use vstd::prelude::*;

use crate::error::InvalidRule;
use crate::tick::InstrumentState;
use crate::units::InstrumentId;

verus! {

/// Lower-case hexadecimal digit for `d` (meant for `d < 16`).
pub open spec fn hex_digit(d: int) -> char {
    if d < 10 {
        (48 + d) as char
    } else {
        (87 + d) as char
    }
}

/// The `j`-th hexadecimal digit (most significant first) of a 128-bit value.
pub open spec fn nibble(v: u128, j: int) -> int {
    ((v >> ((124 - 4 * j) as u128)) & 0xf) as int
}

/// The hyphenated, lower-case form of a UUID with value `v`:
/// 8-4-4-4-12 hexadecimal digits, most significant first.
pub open spec fn uuid_hyphenated(v: u128) -> Seq<char> {
    Seq::new(
        36,
        |i: int|
            if i == 8 || i == 13 || i == 18 || i == 23 {
                '-'
            } else {
                let j = if i < 8 {
                    i
                } else if i < 13 {
                    i - 1
                } else if i < 18 {
                    i - 2
                } else if i < 23 {
                    i - 3
                } else {
                    i - 4
                };
                hex_digit(nibble(v, j))
            },
    )
}

/// The bits of `bits` with the version nibble set to 4 (random) and the
/// variant bits set to RFC 4122 (`10`), as `uuid::Builder` sets them.
pub open spec fn v4_bits(bits: u128) -> u128 {
    (bits & 0xffff_ffff_ffff_0fff_3fff_ffff_ffff_ffffu128) | 0x0000_0000_0000_4000_8000_0000_0000_0000u128
}

/// Whatever the bits, the version and variant fields read 4 and `10`.
proof fn lemma_v4_fields(bits: u128)
    ensures
        (v4_bits(bits) >> 76u128) & 0xfu128 == 4,
        (v4_bits(bits) >> 62u128) & 0x3u128 == 2,
{
    assert((((bits & 0xffff_ffff_ffff_0fff_3fff_ffff_ffff_ffffu128) | 0x0000_0000_0000_4000_8000_0000_0000_0000u128)
        >> 76u128) & 0xfu128 == 4) by (bit_vector);
    assert((((bits & 0xffff_ffff_ffff_0fff_3fff_ffff_ffff_ffffu128) | 0x0000_0000_0000_4000_8000_0000_0000_0000u128)
        >> 62u128) & 0x3u128 == 2) by (bit_vector);
}

/// A UUID of version 4 built from 128 random bits, with
/// `uuid::Builder::from_random_bytes` (the bits taken big-endian, as
/// `Uuid::as_u128` gives them back): the bits with the version and variant
/// fields overwritten.
#[verifier::external_body]
fn uuid_v4_from_bits(bits: u128) -> (v: u128)
    ensures
        v == v4_bits(bits),
{
    uuid::Builder::from_random_bytes(bits.to_be_bytes()).into_uuid().as_u128()
}

/// A fresh `std::hash::RandomState` (`RandomState::new`), whose hashers
/// std documents as unlikely to agree with those of any other instance.
///
/// Nothing is promised of it: its keys are random.
#[verifier::external_body]
fn fresh_random_state() -> RandomState {
    RandomState::new()
}

/// A hasher keyed by `s` (`BuildHasher::build_hasher`).
///
/// Nothing is promised of it: its keys are those of `s`.
#[verifier::external_body]
fn keyed_hasher(s: &RandomState) -> DefaultHasher {
    s.build_hasher()
}

/// 64 random bits: the digest of nothing under fresh random keys.
fn random_word() -> u64 {
    let h = keyed_hasher(&fresh_random_state());
    h.finish()
}

/// 128 random bits, from two random words.
fn random_bits() -> u128 {
    let hi = random_word() as u128;
    let lo = random_word() as u128;
    hi * 0x1_0000_0000_0000_0000u128 + lo
}

/// The `Display` text of the UUID with value `v`, from `uuid::Uuid`'s
/// formatting: the hyphenated lower-case form.
#[verifier::external_body]
fn uuid_text(v: u128) -> (s: String)
    ensures
        s@ == uuid_hyphenated(v),
{
    uuid::Uuid::from_u128(v).to_string()
}

/// `uuid::Error`, the reason a text is not a UUID.
#[verifier::external_type_specification]
#[verifier::external_body]
pub struct ExUuidError(uuid::Error);

/// The value of the UUID written as `text`, if it is one (in any of the
/// forms `uuid::Uuid::parse_str` accepts).
pub uninterp spec fn parsed_uuid(text: Seq<char>) -> Option<u128>;

/// Parse a UUID with `uuid::Uuid::parse_str`, giving its 128-bit value.
#[verifier::external_body]
fn uuid_parse(text: &str) -> (r: Result<u128, uuid::Error>)
    ensures
        match r {
            Ok(v) => parsed_uuid(text@) == Some(v),
            Err(_) => parsed_uuid(text@) is None,
        },
{
    match uuid::Uuid::parse_str(text) {
        Ok(u) => Ok(u.as_u128()),
        Err(e) => Err(e),
    }
}

/// Unique identifier for a rule: the 128-bit value of a UUID.
#[derive(Debug, Clone, Copy, PartialEq, Eq, Hash, PartialOrd, Ord, Structural)]
pub struct RuleId(pub u128);

impl RuleId {
    /// The value is a version-4 UUID: version nibble 4, RFC 4122 variant.
    pub open spec fn is_v4(self) -> bool {
        (self.0 >> 76u128) & 0xfu128 == 4 && (self.0 >> 62u128) & 0x3u128 == 2
    }

    /// Generate a fresh random rule id: a version-4 UUID over random bits.
    ///
    /// Which value comes out is not stated: it is random.
    pub fn new() -> (id: RuleId)
        ensures
            id.is_v4(),
    {
        let bits = random_bits();
        let v = uuid_v4_from_bits(bits);
        proof {
            lemma_v4_fields(bits);
        }
        RuleId(v)
    }

    /// The rule id written as `text` (a UUID); the parser's error otherwise.
    pub fn parse(text: &str) -> (r: Result<RuleId, uuid::Error>)
        ensures
            match r {
                Ok(id) => parsed_uuid(text@) == Some(id.0),
                Err(_) => parsed_uuid(text@) is None,
            },
    {
        match uuid_parse(text) {
            Ok(v) => Ok(RuleId(v)),
            Err(e) => Err(e),
        }
    }

    /// The id in the UUID's hyphenated lower-case form.
    pub fn to_string(&self) -> (s: String)
        ensures
            s@ == uuid_hyphenated(self.0),
    {
        uuid_text(self.0)
    }
}

impl Default for RuleId {
    fn default() -> (id: RuleId)
        ensures
            id.is_v4(),
    {
        RuleId::new()
    }
}

/// A readable field of per-instrument state that a condition can test.
#[derive(Debug, Clone, Copy, PartialEq, Eq, Structural)]
pub enum Field {
    /// Last traded price in ticks.
    LastPrice,
    /// Session high in ticks.
    High,
    /// Session low in ticks.
    Low,
    /// Cumulative volume.
    Volume,
    /// Percentage change from open in basis points.
    PctChangeBps,
}

impl Field {
    /// Current value of the field.
    pub open spec fn now(self, s: InstrumentState) -> int {
        match self {
            Field::LastPrice => s.last as int,
            Field::High => s.high as int,
            Field::Low => s.low as int,
            Field::Volume => (s.volume as i64) as int,
            Field::PctChangeBps => s.spec_pct_change_bps(),
        }
    }

    /// Value of the field before the current tick.
    pub open spec fn before(self, s: InstrumentState) -> int {
        match self {
            Field::LastPrice => s.prev_last as int,
            Field::High => s.high as int,
            Field::Low => s.low as int,
            Field::Volume => (s.volume as i64) as int,
            Field::PctChangeBps => s.spec_prev_pct_change_bps(),
        }
    }

    /// Current value of the field.
    pub fn current(self, s: &InstrumentState) -> (v: i64)
        ensures
            v == self.now(*s),
    {
        match self {
            Field::LastPrice => s.last,
            Field::High => s.high,
            Field::Low => s.low,
            Field::Volume => s.volume as i64,
            Field::PctChangeBps => s.pct_change_bps(),
        }
    }

    /// Previous value of the field (before the current tick).
    pub fn previous(self, s: &InstrumentState) -> (v: i64)
        ensures
            v == self.before(*s),
    {
        match self {
            Field::LastPrice => s.prev_last,
            Field::High => s.high,
            Field::Low => s.low,
            Field::Volume => s.volume as i64,
            Field::PctChangeBps => s.prev_pct_change_bps(),
        }
    }
}

/// How a field value is compared against a threshold.
#[derive(Debug, Clone, Copy, PartialEq, Eq, Structural)]
pub enum Comparator {
    /// Greater than.
    Gt,
    /// Greater than or equal.
    Gte,
    /// Less than.
    Lt,
    /// Less than or equal.
    Lte,
    /// Rising edge across the threshold (prev <= t and now > t).
    CrossAbove,
    /// Falling edge across the threshold (prev >= t and now < t).
    CrossBelow,
}

/// A single predicate over one field.
#[derive(Debug, Clone, Copy, PartialEq, Eq, Structural)]
pub struct Condition {
    /// Field being tested.
    pub field: Field,
    /// Comparison operator.
    pub comparator: Comparator,
    /// Threshold value (ticks, volume, or basis points depending on field).
    pub threshold: i64,
}

impl Condition {
    /// Whether the condition holds on `s`.
    pub open spec fn holds(self, s: InstrumentState) -> bool {
        let now = self.field.now(s);
        let prev = self.field.before(s);
        let t = self.threshold as int;
        match self.comparator {
            Comparator::Gt => now > t,
            Comparator::Gte => now >= t,
            Comparator::Lt => now < t,
            Comparator::Lte => now <= t,
            Comparator::CrossAbove => prev <= t && now > t,
            Comparator::CrossBelow => prev >= t && now < t,
        }
    }

    /// Evaluate this condition against instrument state.
    pub fn evaluate(&self, s: &InstrumentState) -> (b: bool)
        ensures
            b == self.holds(*s),
    {
        let now = self.field.current(s);
        let prev = self.field.previous(s);
        match self.comparator {
            Comparator::Gt => now > self.threshold,
            Comparator::Gte => now >= self.threshold,
            Comparator::Lt => now < self.threshold,
            Comparator::Lte => now <= self.threshold,
            Comparator::CrossAbove => prev <= self.threshold && now > self.threshold,
            Comparator::CrossBelow => prev >= self.threshold && now < self.threshold,
        }
    }
}

/// Which instruments a rule applies to.
#[derive(Debug, Clone, PartialEq, Eq)]
pub enum Scope {
    /// Applies to every instrument.
    Any,
    /// Applies only to one instrument.
    Instrument(InstrumentId),
}

impl Scope {
    /// Whether the scope takes in the instrument named `instrument`.
    pub open spec fn covers(&self, instrument: Seq<char>) -> bool {
        match self {
            Scope::Any => true,
            Scope::Instrument(id) => id@ == instrument,
        }
    }
}

/// A named rule: a conjunction (AND) of conditions over a scope.
#[derive(Debug, Clone, PartialEq, Eq)]
pub struct Rule {
    /// Unique identifier.
    pub id: RuleId,
    /// Human-readable name.
    pub name: String,
    /// Instrument scope.
    pub scope: Scope,
    /// Conditions, all of which must hold for the rule to fire.
    pub conditions: Vec<Condition>,
}

/// What validating a rule's parts gives: the error, if any, that the rule
/// is refused with.
pub open spec fn rule_check(name: Seq<char>, conditions: Seq<Condition>) -> Option<InvalidRule> {
    if name.len() == 0 {
        Some(InvalidRule::EmptyName)
    } else if conditions.len() == 0 {
        Some(InvalidRule::NoConditions)
    } else {
        None
    }
}

impl Rule {
    /// Every condition of the rule holds on `s`.
    pub open spec fn holds(&self, s: InstrumentState) -> bool {
        forall|i: int| 0 <= i < self.conditions@.len() ==> #[trigger] self.conditions@[i].holds(s)
    }

    /// Construct a validated rule from an owned name, with a fresh id.
    pub fn from_parts(name: String, scope: Scope, conditions: Vec<Condition>) -> (r: Result<Rule, InvalidRule>)
        ensures
            match r {
                Ok(rule) => {
                    &&& rule_check(name@, conditions@) is None
                    &&& rule.name@ == name@
                    &&& rule.scope == scope
                    &&& rule.conditions@ == conditions@
                    &&& rule.id.is_v4()
                },
                Err(e) => rule_check(name@, conditions@) == Some(e),
            },
    {
        if name.as_str().is_empty() {
            return Err(InvalidRule::EmptyName);
        }
        if conditions.len() == 0 {
            return Err(InvalidRule::NoConditions);
        }
        Ok(Rule { id: RuleId::new(), name, scope, conditions })
    }

    /// Construct and validate a rule. Fails with `InvalidRule::EmptyName` if
    /// the name is empty, else with `InvalidRule::NoConditions` if there are
    /// no conditions.
    pub fn new<N>(name: N, scope: Scope, conditions: Vec<Condition>) -> (r: Result<Rule, InvalidRule>)
        where String: From<N>,
        ensures
            exists|text: String|
                #[trigger] call_ensures(<String as From<N>>::from, (name,), text) && (match r {
                    Ok(rule) => {
                        &&& rule_check(text@, conditions@) is None
                        &&& rule.name@ == text@
                        &&& rule.scope == scope
                        &&& rule.conditions@ == conditions@
                        &&& rule.id.is_v4()
                    },
                    Err(e) => rule_check(text@, conditions@) == Some(e),
                }),
    {
        let text = String::from(name);
        let r = Self::from_parts(text, scope, conditions);
        r
    }

    /// True when this rule is in scope for `instrument`.
    pub fn applies_to(&self, instrument: &InstrumentId) -> (b: bool)
        ensures
            b == self.scope.covers(instrument@),
    {
        match &self.scope {
            Scope::Any => true,
            Scope::Instrument(id) => id == instrument,
        }
    }

    /// Evaluate all conditions (AND) against instrument state.
    pub fn matches(&self, s: &InstrumentState) -> (b: bool)
        ensures
            b == self.holds(*s),
    {
        let n = self.conditions.len();
        let mut i: usize = 0;
        while i < n
            invariant
                n == self.conditions@.len(),
                i <= n,
                forall|j: int| 0 <= j < i ==> #[trigger] self.conditions@[j].holds(*s),
            decreases n - i,
        {
            if !self.conditions[i].evaluate(s) {
                return false;
            }
            i = i + 1;
        }
        true
    }
}

/// What each field reads: the state's own last price (and, before the
/// tick, its previous last price), its session high and low, its latest
/// cumulative volume, and its change from open in basis points.
pub proof fn lemma_field_reads(s: InstrumentState)
    ensures
        Field::LastPrice.now(s) == s.last,
        Field::LastPrice.before(s) == s.prev_last,
        Field::High.now(s) == s.high,
        Field::High.before(s) == s.high,
        Field::Low.now(s) == s.low,
        Field::Low.before(s) == s.low,
        s.volume <= i64::MAX ==> Field::Volume.now(s) == s.volume,
        Field::PctChangeBps.now(s) == s.spec_pct_change_bps(),
        Field::PctChangeBps.before(s) == s.spec_prev_pct_change_bps(),
{
}

/// The condition testing field `f` with comparator `c` against `t`.
pub open spec fn cond(f: Field, c: Comparator, t: i64) -> Condition {
    Condition { field: f, comparator: c, threshold: t }
}

/// What each comparator tests, for any field, threshold and state: `Lte`
/// holds exactly when the field's current value is at most the threshold
/// and `Lt` when it is below it; `Gt` and `Gte` are their negations; a cross
/// above holds when `Gt` holds now and the value before the tick was at most
/// the threshold, a cross below when `Lt` holds now and the value before was
/// at least the threshold.
pub proof fn lemma_comparator_meaning(f: Field, t: i64, s: InstrumentState)
    ensures
        cond(f, Comparator::Lte, t).holds(s) <==> f.now(s) <= t,
        cond(f, Comparator::Lt, t).holds(s) <==> f.now(s) < t,
        cond(f, Comparator::Gt, t).holds(s) <==> !cond(f, Comparator::Lte, t).holds(s),
        cond(f, Comparator::Gte, t).holds(s) <==> !cond(f, Comparator::Lt, t).holds(s),
        cond(f, Comparator::CrossAbove, t).holds(s) <==> (cond(f, Comparator::Gt, t).holds(s) && f.before(s)
            <= t),
        cond(f, Comparator::CrossBelow, t).holds(s) <==> (cond(f, Comparator::Lt, t).holds(s) && f.before(s)
            >= t),
{
}

/// A rule holds exactly when each of its conditions does: dropping a
/// condition that fails cannot be the difference, and a rule with a failing
/// condition never holds.
pub proof fn lemma_rule_is_conjunction(r: Rule, s: InstrumentState, i: int)
    requires
        0 <= i < r.conditions@.len(),
    ensures
        r.holds(s) ==> r.conditions@[i].holds(s),
        !r.conditions@[i].holds(s) ==> !r.holds(s),
{
}

} // verus!
