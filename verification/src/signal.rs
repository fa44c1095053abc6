use vstd::prelude::*;

use crate::rule::RuleId;
use crate::timestamp::Timestamp;
use crate::units::InstrumentId;

verus! {

/// A signal emitted when a rule fires for an instrument (rising edge).
#[derive(Debug, Clone)]
pub struct Signal {
    /// Rule that fired.
    pub rule_id: RuleId,
    /// Human-readable rule name.
    pub rule_name: String,
    /// Instrument that triggered the rule.
    pub instrument: InstrumentId,
    /// Monotonic sequence number assigned by the engine.
    pub sequence: u64,
    /// Last price at trigger time.
    pub last_price: i64,
    /// Percentage change from open in basis points at trigger time.
    pub pct_change_bps: i64,
    /// Server time the signal was produced.
    pub triggered_at: Timestamp,
}

impl Signal {
    /// Whether a subscriber that asked for the rules `rules` receives this
    /// signal: every signal when the list is empty, else only those of a
    /// listed rule.
    pub fn selected_by(&self, rules: &Vec<RuleId>) -> (b: bool)
        ensures
            b == (rules@.len() == 0 || rules@.contains(self.rule_id)),
    {
        if rules.len() == 0 {
            return true;
        }
        let mut i: usize = 0;
        while i < rules.len()
            invariant
                i <= rules@.len(),
                forall|k: int| 0 <= k < i ==> rules@[k] != self.rule_id,
            decreases rules@.len() - i,
        {
            if rules[i] == self.rule_id {
                assert(rules@[i as int] == self.rule_id);
                return true;
            }
            i = i + 1;
        }
        false
    }
}

} // verus!
