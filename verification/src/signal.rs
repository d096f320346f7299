//! Named synchronisation signals and signal specifications of the form
//! `<signal>:<seconds>`.

use vstd::prelude::*;

use vstd::string::StringSliceAdditionalSpecFns;

use crate::text::{parse_u64, parse_u64_spec};

verus! {

/// Shortest accepted signal name, in UTF-8 bytes.
pub const SIGNAL_MIN_LEN: usize = 1;

/// Longest accepted signal name, in UTF-8 bytes.
pub const SIGNAL_MAX_LEN: usize = 64;

/// Whether `c` counts as a Unicode letter or digit. The value is fixed by
/// the character alone; `char::is_alphanumeric` computes it.
pub uninterp spec fn unicode_alphanumeric(c: char) -> bool;

/// Relies on `char::is_alphanumeric`: whether `c` is a Unicode letter or
/// digit, a function of the character alone.
#[verifier::external_body]
fn char_is_alphanumeric(c: char) -> (r: bool)
    ensures
        r == unicode_alphanumeric(c),
{
    c.is_alphanumeric()
}

/// Whether `c` may appear in a signal name.
pub open spec fn spec_valid_signal_char(c: char) -> bool {
    unicode_alphanumeric(c) || c == '_' || c == '-'
}

/// Whether `c` may appear in a signal name: a letter, a digit, `_` or `-`.
pub fn is_valid_signal_char(c: char) -> (r: bool)
    ensures
        r == spec_valid_signal_char(c),
{
    char_is_alphanumeric(c) || c == '_' || c == '-'
}

/// Whether `s` is a well-formed signal name: between one and sixty-four
/// UTF-8 bytes, all of its characters valid signal characters.
pub open spec fn spec_valid_signal(s: Seq<char>) -> bool {
    &&& vstd::utf8::encode_utf8(s).len() >= SIGNAL_MIN_LEN
    &&& vstd::utf8::encode_utf8(s).len() <= SIGNAL_MAX_LEN
    &&& forall|i: int| 0 <= i < s.len() ==> spec_valid_signal_char(#[trigger] s[i])
}

/// A validated signal name.
#[derive(Debug, Clone, Eq, Hash)]
pub struct Signal(String);

impl View for Signal {
    type V = Seq<char>;

    closed spec fn view(&self) -> Seq<char> {
        self.0@
    }
}

impl PartialEq for Signal {
    fn eq(&self, other: &Signal) -> (r: bool) {
        self.0 == other.0
    }
}

impl vstd::std_specs::cmp::PartialEqSpecImpl for Signal {
    open spec fn obeys_eq_spec() -> bool {
        true
    }

    open spec fn eq_spec(&self, other: &Signal) -> bool {
        self@ == other@
    }
}

/// A string that is not a well-formed signal name.
#[derive(Debug)]
pub struct InvalidSignal(String);

impl View for InvalidSignal {
    type V = Seq<char>;

    closed spec fn view(&self) -> Seq<char> {
        self.0@
    }
}

impl InvalidSignal {
    /// The offending text.
    pub fn text(&self) -> (r: &str)
        ensures
            r@ == self@,
    {
        self.0.as_str()
    }
}

/// A character sequence encodes to at least one and at most four bytes
/// per character.
proof fn lemma_encode_utf8_len(s: Seq<char>)
    ensures
        s.len() <= vstd::utf8::encode_utf8(s).len() <= 4 * s.len(),
    decreases s.len(),
{
    if s.len() > 0 {
        lemma_encode_utf8_len(s.drop_first());
        assert(1 <= vstd::utf8::encode_scalar(s[0] as u32).len() <= 4);
    }
}

impl Signal {
    /// The signal name as text.
    pub fn as_str(&self) -> (r: &str)
        ensures
            r@ == self@,
    {
        self.0.as_str()
    }

    /// Parses a signal name; rejected strings are returned in the error.
    #[verifier::loop_isolation(false)]
    pub fn parse(s: &str) -> (r: Result<Signal, InvalidSignal>)
        ensures
            spec_valid_signal(s@) ==> (r matches Ok(sig) && sig@ == s@),
            !spec_valid_signal(s@) ==> (r matches Err(e) && e@ == s@),
    {
        let len = s.unicode_len();
        proof {
            lemma_encode_utf8_len(s@);
        }
        if len == 0 || len > SIGNAL_MAX_LEN {
            return Err(InvalidSignal(s.to_owned()));
        }
        // the name is short in characters, so its true byte length fits and
        // the byte count read here is exact
        let byte_len = s.len();
        proof {
            assert(s.spec_bytes() == vstd::utf8::encode_utf8(s@));
            assert(byte_len == vstd::utf8::encode_utf8(s@).len());
        }
        if byte_len > SIGNAL_MAX_LEN {
            return Err(InvalidSignal(s.to_owned()));
        }
        let mut i: usize = 0;
        while i < len
            invariant
                len == s@.len(),
                i <= len,
                forall|j: int| 0 <= j < i ==> spec_valid_signal_char(#[trigger] s@[j]),
            decreases len - i,
        {
            if !is_valid_signal_char(s.get_char(i)) {
                return Err(InvalidSignal(s.to_owned()));
            }
            i += 1;
        }
        proof {
            assert(s.spec_bytes() == vstd::utf8::encode_utf8(s@));
            assert(spec_valid_signal(s@));
        }
        Ok(Signal(s.to_owned()))
    }
}

impl core::str::FromStr for Signal {
    type Err = InvalidSignal;

    fn from_str(s: &str) -> Result<Self, Self::Err> {
        Signal::parse(s)
    }
}

/// A signal together with the delay, in whole seconds, after which it fires.
#[derive(Debug, Clone, Eq, Hash)]
pub struct SignalSpec {
    pub signal: Signal,
    pub delay_secs: u64,
}

impl PartialEq for SignalSpec {
    fn eq(&self, other: &SignalSpec) -> (r: bool) {
        self.signal == other.signal && self.delay_secs == other.delay_secs
    }
}

impl vstd::std_specs::cmp::PartialEqSpecImpl for SignalSpec {
    open spec fn obeys_eq_spec() -> bool {
        true
    }

    open spec fn eq_spec(&self, other: &SignalSpec) -> bool {
        self.signal@ == other.signal@ && self.delay_secs == other.delay_secs
    }
}

/// A string that is not a well-formed signal specification.
#[derive(Debug)]
pub struct InvalidSignalSpec(String);

impl View for InvalidSignalSpec {
    type V = Seq<char>;

    closed spec fn view(&self) -> Seq<char> {
        self.0@
    }
}

impl InvalidSignalSpec {
    /// The offending text.
    pub fn text(&self) -> (r: &str)
        ensures
            r@ == self@,
    {
        self.0.as_str()
    }
}

/// The position of the first `:` in `s`, if any.
pub open spec fn spec_first_colon(s: Seq<char>) -> Option<int> {
    if exists|i: int| 0 <= i < s.len() && s[i] == ':' {
        Some(choose|i: int| 0 <= i < s.len() && s[i] == ':' && (forall|j: int|
            0 <= j < i ==> s[j] != ':'))
    } else {
        None
    }
}

/// The signal specification a string denotes: a signal name, a colon, and a
/// delay in whole decimal seconds.
pub open spec fn spec_parse_signal_spec(s: Seq<char>) -> Option<(Seq<char>, u64)> {
    match spec_first_colon(s) {
        Some(i) => {
            let lhs = s.subrange(0, i);
            let rhs = s.subrange(i + 1, s.len() as int);
            if spec_valid_signal(lhs) {
                match parse_u64_spec(rhs) {
                    Some(n) => Some((lhs, n)),
                    None => None,
                }
            } else {
                None
            }
        },
        None => None,
    }
}

impl SignalSpec {
    /// Parses `<signal>:<seconds>`; rejected strings are returned in the
    /// error.
    pub fn parse(s: &str) -> (r: Result<SignalSpec, InvalidSignalSpec>)
        ensures
            spec_parse_signal_spec(s@) matches Some(p) ==> (r matches Ok(sp) && sp.signal@ == p.0
                && sp.delay_secs == p.1),
            spec_parse_signal_spec(s@) is None ==> (r matches Err(e) && e@ == s@),
    {
        let len = s.unicode_len();
        let mut i: usize = 0;
        while i < len
            invariant
                len == s@.len(),
                i <= len,
                forall|j: int| 0 <= j < i ==> s@[j] != ':',
            decreases len - i,
        {
            if s.get_char(i) == ':' {
                proof {
                    let w = spec_first_colon(s@);
                    assert(0 <= i < s@.len() && s@[i as int] == ':');
                    assert(w is Some);
                    let c = w.unwrap();
                    assert(0 <= c < s@.len() && s@[c] == ':' && (forall|j: int|
                        0 <= j < c ==> s@[j] != ':'));
                    assert(c == i) by {
                        if c < i {
                            assert(s@[c] != ':');
                        }
                        if c > i {
                            assert(s@[i as int] != ':');
                        }
                    }
                }
                let lhs = s.substring_char(0, i);
                let rhs = s.substring_char(i + 1, len);
                let signal = match Signal::parse(lhs) {
                    Ok(signal) => signal,
                    Err(_) => {
                        return Err(InvalidSignalSpec(s.to_owned()));
                    },
                };
                let delay_secs = match parse_u64(rhs) {
                    Some(n) => n,
                    None => {
                        return Err(InvalidSignalSpec(s.to_owned()));
                    },
                };
                return Ok(SignalSpec { signal, delay_secs });
            }
            i += 1;
        }
        proof {
            assert(spec_first_colon(s@) is None) by {
                if exists|k: int| 0 <= k < s@.len() && s@[k] == ':' {
                    let k = choose|k: int| 0 <= k < s@.len() && s@[k] == ':';
                    assert(s@[k] != ':');
                }
            }
        }
        Err(InvalidSignalSpec(s.to_owned()))
    }
}

impl core::str::FromStr for SignalSpec {
    type Err = InvalidSignalSpec;

    fn from_str(s: &str) -> Result<Self, Self::Err> {
        SignalSpec::parse(s)
    }
}

} // verus!
