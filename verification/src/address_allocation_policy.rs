//! The address-allocation policy: how many overlay addresses every machine
//! receives, parsed from the forms `N/cpu`, `N/machine` and `N`.

use vstd::prelude::*;

use crate::text::{parse_u32, parse_u32_spec};

verus! {

/// How overlay addresses are apportioned across the reserved machines.
#[derive(Debug, Clone, PartialEq, Eq, Structural)]
pub enum AddressAllocationPolicy {
    /// Every machine gets this many addresses per CPU.
    PerCpu(u32),
    /// Every machine gets exactly this many addresses.
    PerMachine(u32),
    /// This many addresses in total, apportioned by ceiling division.
    Total(u32),
}

/// A policy string that matches none of the accepted forms.
#[derive(Debug)]
pub struct InvalidAddressAllocationPolicy(String);

impl View for InvalidAddressAllocationPolicy {
    type V = Seq<char>;

    closed spec fn view(&self) -> Seq<char> {
        self.0@
    }
}

impl InvalidAddressAllocationPolicy {
    /// The offending policy text.
    pub fn text(&self) -> (r: &str)
        ensures
            r@ == self@,
    {
        self.0.as_str()
    }
}

/// `rest` when `s` ends with `suffix`, with the suffix removed.
pub open spec fn strip_suffix_spec(s: Seq<char>, suffix: Seq<char>) -> Option<Seq<char>> {
    if s.len() >= suffix.len() && s.subrange(s.len() - suffix.len(), s.len() as int) == suffix {
        Some(s.subrange(0, s.len() - suffix.len()))
    } else {
        None
    }
}

/// Removes `suffix` from the end of `s`, if it stands there.
pub fn strip_suffix<'a>(s: &'a str, suffix: &str) -> (r: Option<&'a str>)
    ensures
        r is Some <==> strip_suffix_spec(s@, suffix@) is Some,
        r matches Some(rest) ==> Some(rest@) == strip_suffix_spec(s@, suffix@),
{
    let slen = s.unicode_len();
    let flen = suffix.unicode_len();
    if slen < flen {
        return None;
    }
    let start = slen - flen;
    let mut j: usize = 0;
    while j < flen
        invariant
            slen == s@.len(),
            flen == suffix@.len(),
            flen <= slen,
            start == slen - flen,
            j <= flen,
            forall|k: int| 0 <= k < j ==> s@[start + k] == suffix@[k],
        decreases flen - j,
    {
        if s.get_char(start + j) != suffix.get_char(j) {
            proof {
                let tail = s@.subrange(start as int, slen as int);
                assert(tail[j as int] == s@[start + j]);
                assert(tail != suffix@);
            }
            return None;
        }
        j += 1;
    }
    proof {
        assert(s@.subrange(start as int, slen as int) =~= suffix@);
    }
    let rest = s.substring_char(0, start);
    Some(rest)
}

/// The policy a string denotes: `N/cpu`, `N/machine`, or a bare total `N`,
/// with `N` a decimal `u32`.
pub open spec fn spec_parse_policy(s: Seq<char>) -> Option<AddressAllocationPolicy> {
    if strip_suffix_spec(s, "/cpu"@) is Some {
        match parse_u32_spec(strip_suffix_spec(s, "/cpu"@).unwrap()) {
            Some(n) => Some(AddressAllocationPolicy::PerCpu(n)),
            None => None,
        }
    } else if strip_suffix_spec(s, "/machine"@) is Some {
        match parse_u32_spec(strip_suffix_spec(s, "/machine"@).unwrap()) {
            Some(n) => Some(AddressAllocationPolicy::PerMachine(n)),
            None => None,
        }
    } else {
        match parse_u32_spec(s) {
            Some(n) => Some(AddressAllocationPolicy::Total(n)),
            None => None,
        }
    }
}

impl AddressAllocationPolicy {
    /// Parses a policy string; rejected strings are returned in the error.
    pub fn parse(s: &str) -> (r: Result<AddressAllocationPolicy, InvalidAddressAllocationPolicy>)
        ensures
            spec_parse_policy(s@) matches Some(p) ==> (r matches Ok(q) && q == p),
            spec_parse_policy(s@) is None ==> (r matches Err(e) && e@ == s@),
    {
        if let Some(rest) = strip_suffix(s, "/cpu") {
            match parse_u32(rest) {
                Some(n) => Ok(AddressAllocationPolicy::PerCpu(n)),
                None => Err(InvalidAddressAllocationPolicy(s.to_owned())),
            }
        } else if let Some(rest) = strip_suffix(s, "/machine") {
            match parse_u32(rest) {
                Some(n) => Ok(AddressAllocationPolicy::PerMachine(n)),
                None => Err(InvalidAddressAllocationPolicy(s.to_owned())),
            }
        } else {
            match parse_u32(s) {
                Some(n) => Ok(AddressAllocationPolicy::Total(n)),
                None => Err(InvalidAddressAllocationPolicy(s.to_owned())),
            }
        }
    }
}

impl core::str::FromStr for AddressAllocationPolicy {
    type Err = InvalidAddressAllocationPolicy;

    fn from_str(s: &str) -> Result<Self, Self::Err> {
        AddressAllocationPolicy::parse(s)
    }
}

} // verus!
