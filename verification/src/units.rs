use vstd::prelude::*;
use vstd::utf8::encode_utf8;

use crate::error::InvalidTick;

verus! {

/// Maximum length of an instrument identifier in bytes.
pub const MAX_INSTRUMENT_LEN: usize = 64;

/// Length in bytes of the UTF-8 encoding of `text`, as `str::len` reports it.
pub open spec fn byte_len(text: Seq<char>) -> usize {
    encode_utf8(text).len() as usize
}

/// What validating `text` as an instrument identifier gives: the identifier
/// itself (by its text), or the error that refuses it.
pub open spec fn instrument_check(text: Seq<char>) -> Result<Seq<char>, InvalidTick> {
    if text.len() == 0 {
        Err(InvalidTick::EmptyInstrument)
    } else if byte_len(text) > MAX_INSTRUMENT_LEN {
        Err(InvalidTick::InstrumentTooLong(byte_len(text)))
    } else {
        Ok(text)
    }
}

/// `<String as From<&str>>::from`: an owned string holding the characters
/// of `s`, as std documents it.
pub assume_specification<'a>[ <String as From<&'a str>>::from ](s: &str) -> (r: String)
    ensures
        r@ == s@,
;

/// `<T as From<T>>::from`, std's reflexive conversion, which its
/// documentation says returns the argument unchanged.
pub assume_specification<T>[ <T as From<T>>::from ](t: T) -> (r: T)
    ensures
        r == t,
;

/// A validated instrument identifier.
#[derive(Debug, Eq, Hash, PartialOrd, Ord)]
pub struct InstrumentId(pub(crate) String);

impl View for InstrumentId {
    type V = Seq<char>;

    closed spec fn view(&self) -> Seq<char> {
        self.0@
    }
}

impl PartialEq for InstrumentId {
    fn eq(&self, other: &Self) -> (r: bool) {
        self.0 == other.0
    }
}

impl vstd::std_specs::cmp::PartialEqSpecImpl for InstrumentId {
    open spec fn obeys_eq_spec() -> bool {
        true
    }

    open spec fn eq_spec(&self, other: &Self) -> bool {
        self@ == other@
    }
}

impl Clone for InstrumentId {
    fn clone(&self) -> (r: Self)
        ensures
            r@ == self@,
    {
        proof {
            use_type_invariant(self);
        }
        InstrumentId(self.0.clone())
    }
}

impl InstrumentId {
    /// Every identifier is valid: its text passes `instrument_check`.
    #[verifier::type_invariant]
    spec fn valid_text(self) -> bool {
        instrument_check(self.0@) is Ok
    }

    /// The identifier is non-empty and at most `MAX_INSTRUMENT_LEN` bytes long.
    pub open spec fn is_valid(&self) -> bool {
        instrument_check(self@) is Ok
    }

    /// Create a validated instrument identifier.
    ///
    /// Fails with `InvalidTick::EmptyInstrument` or
    /// `InvalidTick::InstrumentTooLong` (carrying the byte length).
    pub fn new<S>(raw: S) -> (r: Result<InstrumentId, InvalidTick>)
        where String: From<S>,
        ensures
            exists|text: String|
                #[trigger] call_ensures(<String as From<S>>::from, (raw,), text) && (match r {
                    Ok(id) => instrument_check(text@) == Ok::<Seq<char>, InvalidTick>(id@),
                    Err(e) => instrument_check(text@) == Err::<Seq<char>, InvalidTick>(e),
                }),
    {
        let text = String::from(raw);
        let r = Self::from_text(text);
        r
    }

    /// Validate an owned string as an instrument identifier.
    pub fn from_text(raw: String) -> (r: Result<InstrumentId, InvalidTick>)
        ensures
            match r {
                Ok(id) => instrument_check(raw@) == Ok::<Seq<char>, InvalidTick>(id@),
                Err(e) => instrument_check(raw@) == Err::<Seq<char>, InvalidTick>(e),
            },
    {
        InstrumentId::try_from(raw)
    }

    /// Borrow the identifier as a string slice.
    pub fn as_str(&self) -> (s: &str)
        ensures
            s@ == self@,
    {
        self.0.as_str()
    }
}

/// The identifier validated from `raw`: the text itself when
/// `instrument_check` accepts it, else the error it names.
pub closed spec fn validated(raw: String) -> Result<InstrumentId, InvalidTick> {
    match instrument_check(raw@) {
        Ok(_) => Ok(InstrumentId(raw)),
        Err(e) => Err(e),
    }
}

impl TryFrom<String> for InstrumentId {
    type Error = InvalidTick;

    fn try_from(raw: String) -> (r: Result<InstrumentId, InvalidTick>)
        ensures
            match r {
                Ok(id) => instrument_check(raw@) == Ok::<Seq<char>, InvalidTick>(id@),
                Err(e) => instrument_check(raw@) == Err::<Seq<char>, InvalidTick>(e),
            },
    {
        let text = raw.as_str();
        if text.is_empty() {
            return Err(InvalidTick::EmptyInstrument);
        }
        let len = text.len();
        if len > MAX_INSTRUMENT_LEN {
            return Err(InvalidTick::InstrumentTooLong(len));
        }
        Ok(InstrumentId(raw))
    }
}

impl vstd::std_specs::convert::TryFromSpecImpl<String> for InstrumentId {
    open spec fn obeys_try_from_spec() -> bool {
        true
    }

    open spec fn try_from_spec(raw: String) -> Result<InstrumentId, InvalidTick> {
        validated(raw)
    }
}

/// The text of an identifier.
pub closed spec fn text_of(id: InstrumentId) -> String {
    id.0
}

impl From<InstrumentId> for String {
    fn from(id: InstrumentId) -> (s: String)
        ensures
            s@ == id@,
            instrument_check(s@) == Ok::<Seq<char>, InvalidTick>(s@),
    {
        proof {
            use_type_invariant(&id);
        }
        id.0
    }
}

impl vstd::std_specs::convert::FromSpecImpl<InstrumentId> for String {
    open spec fn obeys_from_spec() -> bool {
        true
    }

    open spec fn from_spec(id: InstrumentId) -> String {
        text_of(id)
    }
}

/// A non-negative integer price expressed in exchange ticks.
#[derive(Debug, Clone, Copy, PartialEq, Eq, PartialOrd, Ord)]
pub struct Price(i64);

impl Price {
    /// A price is never negative.
    #[verifier::type_invariant]
    spec fn non_negative(self) -> bool {
        self.0 >= 0
    }

    /// The price in ticks.
    pub closed spec fn spec_ticks(self) -> i64 {
        self.0
    }

    /// Create a non-negative price; a negative amount is refused with
    /// `InvalidTick::NegativePrice`.
    pub fn new(ticks: i64) -> (r: Result<Price, InvalidTick>)
        ensures
            ticks < 0 ==> r == Err::<Price, InvalidTick>(InvalidTick::NegativePrice(ticks)),
            ticks >= 0 ==> (r matches Ok(p) && p.spec_ticks() == ticks),
    {
        if ticks < 0 {
            return Err(InvalidTick::NegativePrice(ticks));
        }
        Ok(Price(ticks))
    }

    /// The price value in ticks.
    pub fn ticks(self) -> (t: i64)
        ensures
            t == self.spec_ticks(),
            t >= 0,
    {
        proof {
            use_type_invariant(&self);
        }
        self.0
    }
}

} // verus!
