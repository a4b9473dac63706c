//! Range-mode target enumeration.
//!
//! Given two boundary addresses, the enumerator lists every address from the
//! start to the end inclusive, in ascending numeric order, as canonical text.
//! A start above the end yields the empty enumeration rather than an error.

use vstd::prelude::*;

use crate::addr::{
    format_ipv4, ipv4_text, ipv4_value_of, is_ipv4_text, lemma_ipv4_text_injective, parse_ipv4,
    Ipv4Address,
};
use crate::errors::SweepError;

verus! {

/// How many targets the inclusive range from `start` to `end` holds.
pub open spec fn range_len(start: u32, end: u32) -> int {
    if start <= end {
        end - start + 1
    } else {
        0
    }
}

/// Every address from `start` to `end` inclusive, in ascending order, as
/// canonical text.
pub fn expand_range(start: Ipv4Address, end: Ipv4Address) -> (r: Vec<String>)
    ensures
        r@.len() == range_len(start.value, end.value),
        forall|i: int| 0 <= i < r@.len() ==> r@[i]@ == ipv4_text((start.value + i) as u32),
{
    let mut out: Vec<String> = Vec::new();
    if start.value > end.value {
        return out;
    }
    let mut v: u32 = start.value;
    loop
        invariant
            start.value <= v <= end.value,
            out@.len() == v - start.value,
            forall|i: int| 0 <= i < out@.len() ==> out@[i]@ == ipv4_text((start.value + i) as u32),
        decreases end.value - v,
    {
        out.push(format_ipv4(Ipv4Address { value: v }));
        if v == end.value {
            return out;
        }
        v = v + 1;
    }
}

/// Range mode of the target enumerator: parses both boundaries and expands
/// the inclusive range between them.
pub fn targets_in_range(from: &str, to: &str) -> (r: Result<Vec<String>, SweepError>)
    ensures
        r is Ok <==> is_ipv4_text(from@) && is_ipv4_text(to@),
        r matches Err(e) ==> e == SweepError::AddressParseError,
        r matches Ok(ts) ==> ({
            let a = ipv4_value_of(from@);
            let b = ipv4_value_of(to@);
            &&& ts@.len() == range_len(a, b)
            &&& forall|i: int| 0 <= i < ts@.len() ==> ts@[i]@ == ipv4_text((a + i) as u32)
        }),
{
    let start = match parse_ipv4(from) {
        Ok(ip) => ip,
        Err(e) => {
            return Err(e);
        },
    };
    let end = match parse_ipv4(to) {
        Ok(ip) => ip,
        Err(e) => {
            return Err(e);
        },
    };
    proof {
        let a = ipv4_value_of(from@);
        assert(from@ == ipv4_text(a));
        lemma_ipv4_text_injective(a, start.value);
        let b = ipv4_value_of(to@);
        assert(to@ == ipv4_text(b));
        lemma_ipv4_text_injective(b, end.value);
    }
    Ok(expand_range(start, end))
}

/// Range-mode law: for boundaries with `start <= end`, the enumeration holds
/// exactly `end - start + 1` entries, each a well-formed address text, in
/// ascending address order.
pub proof fn lemma_range_mode_properties(start: u32, end: u32, ts: Seq<Seq<char>>)
    requires
        start <= end,
        ts.len() == range_len(start, end),
        forall|i: int| 0 <= i < ts.len() ==> ts[i] == ipv4_text((start + i) as u32),
    ensures
        ts.len() == end - start + 1,
        forall|i: int| 0 <= i < ts.len() ==> is_ipv4_text(ts[i]),
        forall|i: int, j: int|
            0 <= i < j < ts.len() ==> ipv4_value_of(ts[i]) < ipv4_value_of(ts[j]),
{
    assert forall|i: int| 0 <= i < ts.len() implies is_ipv4_text(ts[i]) by {
        assert(ts[i] == ipv4_text((start + i) as u32));
    };
    assert forall|i: int| 0 <= i < ts.len() implies ipv4_value_of(ts[i]) == start + i by {
        let w = ipv4_value_of(ts[i]);
        assert(ts[i] == ipv4_text(w));
        lemma_ipv4_text_injective(w, (start + i) as u32);
    };
}

} // verus!
