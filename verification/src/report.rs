//! The last script error a session shows: each failed step (`_update`,
//! `_draw`, a reload) is recorded under its label, and a message that
//! repeats the one already shown is not reported again.

use vstd::prelude::*;
use crate::text::{chars_of, chars_eq, push_str, string_of};

verus! {

/// The message recorded for an error `err` of the step `label`.
pub open spec fn error_line(label: Seq<char>, err: Seq<char>) -> Seq<char> {
    label + ": "@ + err
}

/// Records the outcome of the step `label`: on `Err(err)` (the error's
/// text) the shown message becomes `label: err`, and the result says
/// whether it is new, so the caller reports it once; on `Ok` nothing
/// changes and nothing is new.
pub fn record_err(state: &mut Option<String>, label: &str, result: Result<(), String>) -> (logged: bool)
    ensures
        match result {
            Ok(()) => !logged && *final(state) == *old(state),
            Err(err) => {
                &&& logged == !(*old(state) matches Some(s) && s@ == error_line(label@, err@))
                &&& logged ==> (*final(state) matches Some(s) && s@ == error_line(label@, err@))
                &&& !logged ==> *final(state) == *old(state)
            },
        },
{
    match result {
        Ok(()) => false,
        Err(err) => {
            let mut m: Vec<char> = Vec::new();
            push_str(&mut m, label);
            push_str(&mut m, ": ");
            push_str(&mut m, err.as_str());
            let same = match state {
                Some(s) => {
                    let cur = chars_of(s.as_str());
                    chars_eq(cur.as_slice(), m.as_slice())
                },
                None => false,
            };
            if same {
                false
            } else {
                *state = Some(string_of(m.as_slice()));
                true
            }
        },
    }
}

} // verus!
