use vstd::prelude::*;

use crate::error::InvalidTick;
use crate::explain::{explanation, Explainer, HeuristicExplainer};
use crate::rule::{uuid_hyphenated, Comparator, Condition, Field, Rule, Scope};
use crate::signal::Signal;
use crate::tick::{InstrumentState, MarketTick};
use crate::timestamp::Timestamp;
use crate::units::{instrument_check, InstrumentId};

verus! {

/// The RFC 3339 text of the UTC instant `secs` seconds and `nanos`
/// nanoseconds after the Unix epoch, as chrono writes it; `None` for an
/// instant chrono's `DateTime` cannot hold.
pub uninterp spec fn rfc3339(secs: i64, nanos: u32) -> Option<Seq<char>>;

/// RFC 3339 text of a timestamp, from `chrono::DateTime::from_timestamp`
/// followed by `chrono::DateTime::to_rfc3339`; `None` where
/// `from_timestamp` gives `None`. Verus refuses a declaration of
/// `chrono::DateTime` (its parameter is bound by chrono's `TimeZone` trait),
/// so the two calls stand in this one item.
#[verifier::external_body]
fn rfc3339_text(t: Timestamp) -> (r: Option<String>)
    ensures
        match r {
            Some(s) => rfc3339(t.secs, t.nanos) == Some(s@),
            None => rfc3339(t.secs, t.nanos) is None,
        },
{
    match chrono::DateTime::from_timestamp(t.secs, t.nanos) {
        Some(d) => Some(d.to_rfc3339()),
        None => None,
    }
}

/// How a signal's time reads in the API: its RFC 3339 text, or the empty
/// text for an instant chrono cannot represent.
pub open spec fn time_label(t: Timestamp) -> Seq<char> {
    match rfc3339(t.secs, t.nanos) {
        Some(text) => text,
        None => Seq::empty(),
    }
}

/// API enum mirroring [`Field`].
#[derive(Debug, Clone, Copy, PartialEq, Eq, Structural)]
pub enum FieldGql {
    /// Last traded price.
    LastPrice,
    /// Session high.
    High,
    /// Session low.
    Low,
    /// Cumulative volume.
    Volume,
    /// Percentage change from open in basis points.
    PctChangeBps,
}

/// The domain field an API field stands for.
pub open spec fn field_of(f: FieldGql) -> Field {
    match f {
        FieldGql::LastPrice => Field::LastPrice,
        FieldGql::High => Field::High,
        FieldGql::Low => Field::Low,
        FieldGql::Volume => Field::Volume,
        FieldGql::PctChangeBps => Field::PctChangeBps,
    }
}

impl From<FieldGql> for Field {
    fn from(f: FieldGql) -> (r: Field) {
        match f {
            FieldGql::LastPrice => Field::LastPrice,
            FieldGql::High => Field::High,
            FieldGql::Low => Field::Low,
            FieldGql::Volume => Field::Volume,
            FieldGql::PctChangeBps => Field::PctChangeBps,
        }
    }
}

impl vstd::std_specs::convert::FromSpecImpl<FieldGql> for Field {
    open spec fn obeys_from_spec() -> bool {
        true
    }

    open spec fn from_spec(f: FieldGql) -> Field {
        field_of(f)
    }
}

/// API enum mirroring [`Comparator`].
#[derive(Debug, Clone, Copy, PartialEq, Eq, Structural)]
pub enum ComparatorGql {
    /// Greater than.
    Gt,
    /// Greater than or equal.
    Gte,
    /// Less than.
    Lt,
    /// Less than or equal.
    Lte,
    /// Rising edge across threshold.
    CrossAbove,
    /// Falling edge across threshold.
    CrossBelow,
}

/// The domain comparator an API comparator stands for.
pub open spec fn comparator_of(c: ComparatorGql) -> Comparator {
    match c {
        ComparatorGql::Gt => Comparator::Gt,
        ComparatorGql::Gte => Comparator::Gte,
        ComparatorGql::Lt => Comparator::Lt,
        ComparatorGql::Lte => Comparator::Lte,
        ComparatorGql::CrossAbove => Comparator::CrossAbove,
        ComparatorGql::CrossBelow => Comparator::CrossBelow,
    }
}

impl From<ComparatorGql> for Comparator {
    fn from(c: ComparatorGql) -> (r: Comparator) {
        match c {
            ComparatorGql::Gt => Comparator::Gt,
            ComparatorGql::Gte => Comparator::Gte,
            ComparatorGql::Lt => Comparator::Lt,
            ComparatorGql::Lte => Comparator::Lte,
            ComparatorGql::CrossAbove => Comparator::CrossAbove,
            ComparatorGql::CrossBelow => Comparator::CrossBelow,
        }
    }
}

impl vstd::std_specs::convert::FromSpecImpl<ComparatorGql> for Comparator {
    open spec fn obeys_from_spec() -> bool {
        true
    }

    open spec fn from_spec(c: ComparatorGql) -> Comparator {
        comparator_of(c)
    }
}

/// A single predicate input.
#[derive(Debug, Clone, Copy, PartialEq, Eq, Structural)]
pub struct ConditionInput {
    /// Field to test.
    pub field: FieldGql,
    /// Comparison operator.
    pub comparator: ComparatorGql,
    /// Threshold value.
    pub threshold: i64,
}

/// The condition an input describes.
pub open spec fn condition_of(c: ConditionInput) -> Condition {
    Condition { field: field_of(c.field), comparator: comparator_of(c.comparator), threshold: c.threshold }
}

impl From<ConditionInput> for Condition {
    fn from(c: ConditionInput) -> (r: Condition) {
        Condition { field: Field::from(c.field), comparator: Comparator::from(c.comparator), threshold: c.threshold }
    }
}

impl vstd::std_specs::convert::FromSpecImpl<ConditionInput> for Condition {
    open spec fn obeys_from_spec() -> bool {
        true
    }

    open spec fn from_spec(c: ConditionInput) -> Condition {
        condition_of(c)
    }
}

/// Input to create a rule.
#[derive(Debug, Clone)]
pub struct RuleInput {
    /// Human-readable name.
    pub name: String,
    /// Instrument scope; `None` means all instruments.
    pub instrument: Option<String>,
    /// Conditions (AND).
    pub conditions: Vec<ConditionInput>,
}

impl RuleInput {
    /// Split the input into the rule's name, scope and conditions. Fails
    /// with the instrument's validation error when a scope instrument is
    /// given and invalid.
    pub fn into_parts(self) -> (r: Result<(String, Scope, Vec<Condition>), InvalidTick>)
        ensures
            match self.instrument {
                Some(text) => match instrument_check(text@) {
                    Err(e) => r == Err::<(String, Scope, Vec<Condition>), InvalidTick>(e),
                    Ok(_) => r matches Ok(parts) && parts.1 matches Scope::Instrument(id) && id@ == text@,
                },
                None => r matches Ok(parts) && parts.1 is Any,
            },
            r matches Ok(parts) ==> {
                &&& parts.0@ == self.name@
                &&& parts.2@.len() == self.conditions@.len()
                &&& forall|i: int| 0 <= i < parts.2@.len() ==> #[trigger] parts.2@[i] == condition_of(self.conditions@[i])
            },
    {
        let scope = match self.instrument {
            Some(text) => match InstrumentId::from_text(text) {
                Ok(id) => Scope::Instrument(id),
                Err(e) => return Err(e),
            },
            None => Scope::Any,
        };
        let mut conditions: Vec<Condition> = Vec::new();
        let n = self.conditions.len();
        let mut i: usize = 0;
        while i < n
            invariant
                n == self.conditions@.len(),
                i <= n,
                conditions@.len() == i,
                forall|k: int| 0 <= k < i ==> #[trigger] conditions@[k] == condition_of(self.conditions@[k]),
            decreases n - i,
        {
            conditions.push(Condition::from(self.conditions[i]));
            i = i + 1;
        }
        Ok((self.name, scope, conditions))
    }
}

/// Input to publish a tick.
#[derive(Debug, Clone)]
pub struct TickInput {
    /// Instrument identifier.
    pub instrument: String,
    /// Last traded price in ticks.
    pub last_price: i64,
    /// Cumulative volume.
    pub volume: u64,
}

impl TickInput {
    /// The tick the input describes, stamped with the current time; fails
    /// with the instrument's validation error.
    pub fn into_tick(self) -> (r: Result<MarketTick, InvalidTick>)
        ensures
            match instrument_check(self.instrument@) {
                Err(e) => r == Err::<MarketTick, InvalidTick>(e),
                Ok(_) => r matches Ok(t) && t.instrument@ == self.instrument@ && t.last_price == self.last_price
                    && t.volume == self.volume,
            },
    {
        let instrument = match InstrumentId::from_text(self.instrument) {
            Ok(id) => id,
            Err(e) => return Err(e),
        };
        Ok(MarketTick { instrument, last_price: self.last_price, volume: self.volume, exchange_time: Timestamp::now() })
    }
}

/// The `Debug` name of a field.
pub open spec fn field_label(f: Field) -> Seq<char> {
    match f {
        Field::LastPrice => "LastPrice"@,
        Field::High => "High"@,
        Field::Low => "Low"@,
        Field::Volume => "Volume"@,
        Field::PctChangeBps => "PctChangeBps"@,
    }
}

/// The `Debug` name of a comparator.
pub open spec fn comparator_label(c: Comparator) -> Seq<char> {
    match c {
        Comparator::Gt => "Gt"@,
        Comparator::Gte => "Gte"@,
        Comparator::Lt => "Lt"@,
        Comparator::Lte => "Lte"@,
        Comparator::CrossAbove => "CrossAbove"@,
        Comparator::CrossBelow => "CrossBelow"@,
    }
}

fn field_text(f: Field) -> (s: String)
    ensures
        s@ == field_label(f),
{
    let t = match f {
        Field::LastPrice => "LastPrice",
        Field::High => "High",
        Field::Low => "Low",
        Field::Volume => "Volume",
        Field::PctChangeBps => "PctChangeBps",
    };
    t.to_owned()
}

fn comparator_text(c: Comparator) -> (s: String)
    ensures
        s@ == comparator_label(c),
{
    let t = match c {
        Comparator::Gt => "Gt",
        Comparator::Gte => "Gte",
        Comparator::Lt => "Lt",
        Comparator::Lte => "Lte",
        Comparator::CrossAbove => "CrossAbove",
        Comparator::CrossBelow => "CrossBelow",
    };
    t.to_owned()
}

/// API view of a condition.
#[derive(Debug, Clone)]
pub struct ConditionObject {
    /// Field name.
    pub field: String,
    /// Comparator name.
    pub comparator: String,
    /// Threshold.
    pub threshold: i64,
}

/// API view of a rule.
#[derive(Debug, Clone)]
pub struct RuleObject {
    /// Rule id.
    pub id: String,
    /// Name.
    pub name: String,
    /// Scope: instrument id or `*` for any.
    pub scope: String,
    /// Conditions.
    pub conditions: Vec<ConditionObject>,
}

/// The scope as API text: `*` for any instrument, else the instrument.
pub open spec fn scope_label(s: Scope) -> Seq<char> {
    match s {
        Scope::Any => "*"@,
        Scope::Instrument(id) => id@,
    }
}

impl RuleObject {
    /// The API view of a rule.
    pub fn from_rule(r: Rule) -> (o: RuleObject)
        ensures
            o.id@ == uuid_hyphenated(r.id.0),
            o.name@ == r.name@,
            o.scope@ == scope_label(r.scope),
            o.conditions@.len() == r.conditions@.len(),
            forall|i: int|
                0 <= i < o.conditions@.len() ==> {
                    &&& (#[trigger] o.conditions@[i]).field@ == field_label(r.conditions@[i].field)
                    &&& o.conditions@[i].comparator@ == comparator_label(r.conditions@[i].comparator)
                    &&& o.conditions@[i].threshold == r.conditions@[i].threshold
                },
    {
        let scope = match &r.scope {
            Scope::Any => "*".to_owned(),
            Scope::Instrument(id) => id.as_str().to_owned(),
        };
        let mut conditions: Vec<ConditionObject> = Vec::new();
        let n = r.conditions.len();
        let mut i: usize = 0;
        while i < n
            invariant
                n == r.conditions@.len(),
                i <= n,
                conditions@.len() == i,
                forall|k: int|
                    0 <= k < i ==> {
                        &&& (#[trigger] conditions@[k]).field@ == field_label(r.conditions@[k].field)
                        &&& conditions@[k].comparator@ == comparator_label(r.conditions@[k].comparator)
                        &&& conditions@[k].threshold == r.conditions@[k].threshold
                    },
            decreases n - i,
        {
            let c = r.conditions[i];
            conditions.push(
                ConditionObject { field: field_text(c.field), comparator: comparator_text(c.comparator), threshold: c.threshold },
            );
            i = i + 1;
        }
        RuleObject { id: r.id.to_string(), name: r.name, scope, conditions }
    }
}

/// API view of an emitted signal, including a heuristic explanation.
#[derive(Debug, Clone)]
pub struct SignalObject {
    /// Rule id that fired.
    pub rule_id: String,
    /// Rule name.
    pub rule_name: String,
    /// Instrument that triggered.
    pub instrument: String,
    /// Sequence number.
    pub sequence: u64,
    /// Last price at trigger.
    pub last_price: i64,
    /// Percentage change from open in basis points.
    pub pct_change_bps: i64,
    /// Natural-language explanation.
    pub explanation: String,
    /// RFC 3339 trigger time.
    pub triggered_at: String,
}

impl SignalObject {
    /// The API view of a signal.
    pub fn from_signal(s: Signal) -> (o: SignalObject)
        ensures
            o.rule_id@ == uuid_hyphenated(s.rule_id.0),
            o.rule_name@ == s.rule_name@,
            o.instrument@ == s.instrument@,
            o.sequence == s.sequence,
            o.last_price == s.last_price,
            o.pct_change_bps == s.pct_change_bps,
            o.explanation@ == explanation(&s),
            o.triggered_at@ == time_label(s.triggered_at),
    {
        let explanation = HeuristicExplainer::new().explain(&s);
        let time = match rfc3339_text(s.triggered_at) {
            Some(text) => text,
            None => String::new(),
        };
        SignalObject {
            rule_id: s.rule_id.to_string(),
            rule_name: s.rule_name.clone(),
            instrument: s.instrument.as_str().to_owned(),
            sequence: s.sequence,
            last_price: s.last_price,
            pct_change_bps: s.pct_change_bps,
            explanation,
            triggered_at: time,
        }
    }
}

/// API view of instrument state.
#[derive(Debug, Clone, Copy, PartialEq, Eq, Structural)]
pub struct StateObject {
    /// Session open.
    pub open: i64,
    /// Last price.
    pub last: i64,
    /// Session high.
    pub high: i64,
    /// Session low.
    pub low: i64,
    /// Volume.
    pub volume: u64,
    /// Percentage change from open in basis points.
    pub pct_change_bps: i64,
}

impl StateObject {
    /// The API view of an instrument's state.
    pub fn from_state(s: InstrumentState) -> (o: StateObject)
        ensures
            o.open == s.open,
            o.last == s.last,
            o.high == s.high,
            o.low == s.low,
            o.volume == s.volume,
            o.pct_change_bps == s.spec_pct_change_bps(),
    {
        StateObject { open: s.open, last: s.last, high: s.high, low: s.low, volume: s.volume, pct_change_bps: s.pct_change_bps() }
    }
}

} // verus!
