//! Reading the batch scheduler's answers: the machines assigned to a job
//! and the caller's running job ids, extracted from `oarstat` JSON output.
//!
//! The JSON itself is read through `serde_json`; every decision about what
//! the parsed values mean is made in verified code on plain values.

use vstd::prelude::*;

use crate::machine::Machine;
use crate::text::{parse_u32, parse_u32_spec, str_eq, u64_to_string};

verus! {

#[verifier::external_type_specification]
#[verifier::external_body]
pub struct ExJsonValue(serde_json::Value);

/// Relies on `serde_json::from_str::<Value>`: parses JSON text into a
/// value tree, `None` when the text is not valid JSON.
#[verifier::external_body]
fn json_parse(s: &str) -> (r: Option<serde_json::Value>) {
    serde_json::from_str::<serde_json::Value>(s).ok()
}

/// Relies on `serde_json::Value`: the entries of an `Object` value as
/// key/value pairs, `None` for any other kind of value.
#[verifier::external_body]
fn json_object_entries(v: serde_json::Value) -> (r: Option<Vec<(String, serde_json::Value)>>) {
    match v {
        serde_json::Value::Object(m) => Some(m.into_iter().collect()),
        _ => None,
    }
}

/// Relies on `serde_json::Value::get`: the value under a key of an
/// `Object`, `None` elsewhere.
#[verifier::external_body]
fn json_get<'a>(v: &'a serde_json::Value, key: &str) -> (r: Option<&'a serde_json::Value>) {
    v.get(key)
}

/// Relies on `serde_json::Value::as_str`: the text of a `String` value.
#[verifier::external_body]
fn json_as_str(v: &serde_json::Value) -> (r: Option<String>) {
    match v.as_str() {
        Some(s) => Some(s.to_owned()),
        None => None,
    }
}

/// Relies on `serde_json::Value::as_array`: the elements of an `Array`
/// value.
#[verifier::external_body]
fn json_as_array<'a>(v: &'a serde_json::Value) -> (r: Option<&'a Vec<serde_json::Value>>) {
    v.as_array()
}

/// A failure while reading scheduler output.
#[derive(Debug)]
pub enum OarStatError {
    /// The output is not valid JSON.
    InvalidJson,
    /// The output is not a JSON object.
    NotAnObject,
    /// The requested job id has no entry.
    MissingJobKey,
    /// A job entry misses an expected field or has it with the wrong type.
    InvalidStructure,
    /// An assigned hostname that no registry machine carries.
    UnknownHostname(String),
    /// A job key that is not a decimal `u32`.
    InvalidJobId(String),
}

/// Resolves every hostname through the registry; the first unknown one is
/// the error.
pub fn machines_from_hostnames(hostnames: &Vec<String>) -> (r: Result<Vec<Machine>, OarStatError>)
    ensures
        (forall|i: int|
            0 <= i < hostnames@.len() ==> Machine::spec_from_hostname(
                (#[trigger] hostnames@[i])@,
            ) is Some) <==> r is Ok,
        r matches Ok(ms) ==> ms@.len() == hostnames@.len() && (forall|i: int|
            0 <= i < hostnames@.len() ==> Some(#[trigger] ms@[i])
                == Machine::spec_from_hostname(hostnames@[i]@)),
        r matches Err(e) ==> (e matches OarStatError::UnknownHostname(h) && exists|i: int|
            0 <= i < hostnames@.len() && Machine::spec_from_hostname((#[trigger] hostnames@[i])@)
                is None && h@ == hostnames@[i]@),
{
    let mut out: Vec<Machine> = Vec::new();
    let mut i: usize = 0;
    while i < hostnames.len()
        invariant
            i <= hostnames@.len(),
            out@.len() == i,
            forall|j: int|
                0 <= j < i ==> Some(#[trigger] out@[j]) == Machine::spec_from_hostname(
                    hostnames@[j]@,
                ),
        decreases hostnames@.len() - i,
    {
        match Machine::from_hostname(hostnames[i].as_str()) {
            Some(m) => {
                out.push(m);
            },
            None => {
                proof {
                    assert(Machine::spec_from_hostname((hostnames@[i as int])@) is None);
                }
                return Err(OarStatError::UnknownHostname(hostnames[i].clone()));
            },
        }
        i += 1;
    }
    proof {
        assert forall|j: int|
            0 <= j < hostnames@.len() implies Machine::spec_from_hostname(
            (#[trigger] hostnames@[j])@,
        ) is Some by {
            assert(Some(out@[j]) == Machine::spec_from_hostname(hostnames@[j]@));
        }
    }
    Ok(out)
}

/// What a list of job entries, each a key with its optional state text,
/// yields: the ids of the running jobs in order, or the first failure.
pub open spec fn spec_job_ids(entries: Seq<(String, Option<String>)>) -> Result<
    Seq<u32>,
    (String, bool),
>
    decreases entries.len(),
{
    if entries.len() == 0 {
        Ok(Seq::empty())
    } else {
        let e0 = entries[0];
        match e0.1 {
            None => Err((e0.0, true)),
            Some(st) => {
                if st@ != "Running"@ {
                    spec_job_ids(entries.skip(1))
                } else {
                    match parse_u32_spec(e0.0@) {
                        None => Err((e0.0, false)),
                        Some(id) => match spec_job_ids(entries.skip(1)) {
                            Ok(rest) => Ok(seq![id] + rest),
                            Err(e) => Err(e),
                        },
                    }
                }
            },
        }
    }
}

/// Filters the running jobs out of the scheduler's entries and parses
/// their keys; a missing or non-string state, or an unparsable key of a
/// running job, is an error.
pub fn job_ids_from_entries(entries: &Vec<(String, Option<String>)>) -> (r: Result<
    Vec<u32>,
    OarStatError,
>)
    ensures
        spec_job_ids(entries@) matches Ok(ids) ==> (r matches Ok(v) && v@ == ids),
        spec_job_ids(entries@) matches Err(e) ==> (r matches Err(oe) && (e.1 ==> oe
            is InvalidStructure) && (!e.1 ==> (oe matches OarStatError::InvalidJobId(key) && key@
            == e.0@))),
{
    let ghost full = entries@;
    let mut out: Vec<u32> = Vec::new();
    let mut i: usize = 0;
    proof {
        assert(full.skip(0) =~= full);
        match spec_job_ids(full) {
            Ok(ids) => {
                assert(out@ + ids =~= ids);
            },
            Err(e) => {},
        }
    }
    while i < entries.len()
        invariant
            i <= entries@.len(),
            full == entries@,
            spec_job_ids(full) == (match spec_job_ids(entries@.skip(i as int)) {
                Ok(ids) => Ok::<Seq<u32>, (String, bool)>(out@ + ids),
                Err(e) => Err::<Seq<u32>, (String, bool)>(e),
            }),
        decreases entries@.len() - i,
    {
        let ghost rem = entries@.skip(i as int);
        proof {
            assert(rem[0] == entries@[i as int]);
            assert(rem.skip(1) =~= entries@.skip(i + 1));
        }
        let state = match &entries[i].1 {
            Some(st) => st,
            None => {
                return Err(OarStatError::InvalidStructure);
            },
        };
        if str_eq(state.as_str(), "Running") {
            let id = match parse_u32(entries[i].0.as_str()) {
                Some(id) => id,
                None => {
                    return Err(OarStatError::InvalidJobId(entries[i].0.clone()));
                },
            };
            let ghost old_out = out@;
            out.push(id);
            proof {
                match spec_job_ids(entries@.skip(i + 1)) {
                    Ok(rest) => {
                        assert(spec_job_ids(rem) == Ok::<Seq<u32>, (String, bool)>(
                            seq![id] + rest,
                        ));
                        assert(old_out + (seq![id] + rest) =~= out@ + rest);
                    },
                    Err(e) => {},
                }
            }
        }
        i += 1;
    }
    proof {
        assert(entries@.skip(i as int).len() == 0);
        assert(spec_job_ids(entries@.skip(i as int)) == Ok::<Seq<u32>, (String, bool)>(
            Seq::empty(),
        ));
        assert(out@ + Seq::<u32>::empty() =~= out@);
    }
    Ok(out)
}

/// The error text `oarstat -u -J` prints instead of an empty object when
/// the caller has no running job; it stands for `{}`.
pub fn normalize_oarstat_json(stdout: String) -> (r: String)
    ensures
        stdout@
            == "hash- or arrayref expected (not a simple scalar, use allow_nonref to allow this) at /usr/lib/oar/oarstat line 285."@
            ==> r@ == "{}"@,
        stdout@
            != "hash- or arrayref expected (not a simple scalar, use allow_nonref to allow this) at /usr/lib/oar/oarstat line 285."@
            ==> r@ == stdout@,
{
    if str_eq(
        stdout.as_str(),
        "hash- or arrayref expected (not a simple scalar, use allow_nonref to allow this) at /usr/lib/oar/oarstat line 285.",
    ) {
        String::from_str("{}")
    } else {
        stdout
    }
}

/// The machines assigned to `job_id`, read from `oarstat -j <id> -J`
/// output: the array under `assigned_network_address` of the entry keyed
/// by the id, each hostname resolved through the registry.
pub fn extract_machines_from_oar_stat_json(output: &str, job_id: u32) -> (r: Result<
    Vec<Machine>,
    OarStatError,
>) {
    let parsed = match json_parse(output) {
        Some(v) => v,
        None => {
            return Err(OarStatError::InvalidJson);
        },
    };
    let entries = match json_object_entries(parsed) {
        Some(e) => e,
        None => {
            return Err(OarStatError::NotAnObject);
        },
    };
    let key = u64_to_string(job_id as u64);
    // every entry must carry a well-formed address list, as the typed
    // reading demands, whether or not it is the requested job
    let mut found: Option<Vec<String>> = None;
    let mut i: usize = 0;
    while i < entries.len()
        decreases entries@.len() - i,
    {
        let addresses = match json_get(&entries[i].1, "assigned_network_address") {
            Some(a) => a,
            None => {
                return Err(OarStatError::InvalidStructure);
            },
        };
        let arr = match json_as_array(addresses) {
            Some(a) => a,
            None => {
                return Err(OarStatError::InvalidStructure);
            },
        };
        let mut hostnames: Vec<String> = Vec::new();
        let mut j: usize = 0;
        while j < arr.len()
            decreases arr@.len() - j,
        {
            match json_as_str(&arr[j]) {
                Some(s) => {
                    hostnames.push(s);
                },
                None => {
                    return Err(OarStatError::InvalidStructure);
                },
            }
            j += 1;
        }
        if crate::text::str_eq(entries[i].0.as_str(), key.as_str()) {
            found = Some(hostnames);
        }
        i += 1;
    }
    match found {
        Some(hostnames) => machines_from_hostnames(&hostnames),
        None => Err(OarStatError::MissingJobKey),
    }
}

/// The caller's running job ids, read from `oarstat -u -J` output: the
/// keys of the entries whose `state` is `Running`.
pub fn extract_job_ids_from_oarstat_output(output: &str) -> (r: Result<Vec<u32>, OarStatError>) {
    let parsed = match json_parse(output) {
        Some(v) => v,
        None => {
            return Err(OarStatError::InvalidJson);
        },
    };
    let obj = match json_object_entries(parsed) {
        Some(entries) => entries,
        None => {
            return Err(OarStatError::NotAnObject);
        },
    };
    let mut entries: Vec<(String, Option<String>)> = Vec::new();
    let mut i: usize = 0;
    while i < obj.len()
        decreases obj@.len() - i,
    {
        let state = match json_get(&obj[i].1, "state") {
            Some(st) => json_as_str(st),
            None => None,
        };
        entries.push((obj[i].0.clone(), state));
        i += 1;
    }
    job_ids_from_entries(&entries)
}


/// The distinct lines of a hostname list, first occurrence first: the
/// nodefile names a machine once per reserved core.
pub open spec fn first_seen_views(ss: Seq<String>) -> Seq<Seq<char>>
    decreases ss.len(),
{
    if ss.len() == 0 {
        Seq::empty()
    } else {
        let pre = first_seen_views(ss.drop_last());
        if pre.contains(ss.last()@) {
            pre
        } else {
            pre.push(ss.last()@)
        }
    }
}

/// Whether some element of `v` holds the text `s`.
fn contains_text(v: &Vec<String>, s: &str) -> (r: bool)
    ensures
        r == crate::config::views_of(v@).contains(s@),
{
    let mut i: usize = 0;
    while i < v.len()
        invariant
            i <= v@.len(),
            forall|j: int| 0 <= j < i ==> (#[trigger] v@[j])@ != s@,
        decreases v@.len() - i,
    {
        if str_eq(v[i].as_str(), s) {
            proof {
                assert(crate::config::views_of(v@)[i as int] == s@);
            }
            return true;
        }
        i += 1;
    }
    proof {
        assert(!crate::config::views_of(v@).contains(s@)) by {
            if crate::config::views_of(v@).contains(s@) {
                let j = choose|j: int|
                    0 <= j < crate::config::views_of(v@).len() && crate::config::views_of(v@)[j]
                        == s@;
                assert(v@[j]@ != s@);
            }
        }
    }
    false
}

/// Drops repeated hostnames, keeping the first occurrence of each in
/// order.
#[verifier::loop_isolation(false)]
pub fn unique_hostnames(lines: &Vec<String>) -> (r: Vec<String>)
    ensures
        crate::config::views_of(r@) == first_seen_views(lines@),
{
    let mut out: Vec<String> = Vec::new();
    let mut i: usize = 0;
    proof {
        assert(lines@.take(0) =~= Seq::<String>::empty());
        assert(crate::config::views_of(out@) =~= first_seen_views(lines@.take(0)));
    }
    while i < lines.len()
        invariant
            i <= lines@.len(),
            crate::config::views_of(out@) == first_seen_views(lines@.take(i as int)),
        decreases lines@.len() - i,
    {
        proof {
            assert(lines@.take(i + 1).drop_last() =~= lines@.take(i as int));
            assert(lines@.take(i + 1).last() == lines@[i as int]);
        }
        if !contains_text(&out, lines[i].as_str()) {
            let ghost pre = out@;
            out.push(lines[i].clone());
            proof {
                assert(out@[out@.len() - 1]@ == lines@[i as int]@);
                assert(crate::config::views_of(out@) =~= crate::config::views_of(pre).push(
                    lines@[i as int]@,
                ));
            }
        }
        i += 1;
    }
    proof {
        assert(lines@.take(lines@.len() as int) =~= lines@);
    }
    out
}

} // verus!
