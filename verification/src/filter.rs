//! Picking named values by their key.

use crate::text::{contains, lowercased, occurs_in, to_lowercase};
use vstd::prelude::*;

verus! {

/// Whether one of `needles` occurs in `key`, both taken as they stand.
pub open spec fn any_occurs_in(needles: Seq<String>, key: Seq<char>) -> bool {
    exists|i: int| 0 <= i < needles.len() && occurs_in((#[trigger] needles[i])@, key)
}

/// Whether one of `needles` occurs in `key`, both taken as they stand.
pub fn contains_any(key: &str, needles: &Vec<String>) -> (found: bool)
    ensures
        found == any_occurs_in(needles@, key@),
{
    let mut i: usize = 0;
    while i < needles.len()
        invariant
            i <= needles@.len(),
            forall|k: int| 0 <= k < i ==> !occurs_in((#[trigger] needles@[k])@, key@),
        decreases needles@.len() - i,
    {
        if contains(key, needles[i].as_str()) {
            return true;
        }
        i += 1;
    }
    false
}

/// Tells whether a value named `key` passes the filter `needles`: every key
/// passes an empty filter, and any other filter lets a key pass that holds
/// one of the needles, whatever the case of the letters.
pub fn key_contains(needles: &Vec<String>, key: &str) -> (passes: bool)
    ensures
        passes == (needles@.len() == 0 || exists|i: int|
            0 <= i < needles@.len() && occurs_in(
                lowercased((#[trigger] needles@[i])@),
                lowercased(key@),
            )),
{
    if needles.len() == 0 {
        return true;
    }
    let key = to_lowercase(key);
    let mut lower: Vec<String> = Vec::new();
    let mut i: usize = 0;
    while i < needles.len()
        invariant
            i <= needles@.len(),
            lower@.len() == i,
            forall|k: int| 0 <= k < i ==> (#[trigger] lower@[k])@ == lowercased(needles@[k]@),
        decreases needles@.len() - i,
    {
        lower.push(to_lowercase(needles[i].as_str()));
        i += 1;
    }
    let found = contains_any(key.as_str(), &lower);
    proof {
        if found {
            let i = choose|i: int| 0 <= i < lower@.len() && occurs_in((#[trigger] lower@[i])@, key@);
            assert(occurs_in(lowercased(needles@[i]@), key@));
        } else {
            assert forall|i: int| 0 <= i < needles@.len() implies !occurs_in(
                lowercased((#[trigger] needles@[i])@),
                key@,
            ) by {
                assert(!occurs_in(lower@[i]@, key@));
            }
        }
    }
    found
}

} // verus!
