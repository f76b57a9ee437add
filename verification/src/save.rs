//! Rules for the identifiers that namespace save data on disk.

use vstd::prelude::*;
use crate::text::{chars_of, contains_char};
use crate::paths::{join, join_spec};

verus! {

/// `id` holds two consecutive dots somewhere.
pub open spec fn has_dot_dot(id: Seq<char>) -> bool {
    exists|i: int| 0 <= i && i + 1 < id.len() && #[trigger] id[i] == '.' && id[i + 1] == '.'
}

/// A game id is acceptable on disk: non-empty, with no path separator and
/// no parent-directory traversal.
pub open spec fn game_id_ok(id: Seq<char>) -> bool {
    &&& id.len() > 0
    &&& !id.contains('/')
    &&& !id.contains('\\')
    &&& !has_dot_dot(id)
}

/// The message for an id that holds a separator or `..`.
pub open spec fn illegal_id_message(id: Seq<char>) -> Seq<char> {
    "game_id '"@ + id + "' contains illegal characters (no '/', '\\', or '..')"@
}

fn contains_dot_dot(s: &[char]) -> (r: bool)
    ensures
        r == has_dot_dot(s@),
{
    let mut i: usize = 1;
    while i < s.len()
        invariant
            1 <= i,
            forall|k: int| 0 <= k && k + 1 < i && k + 1 < s.len() ==> !(#[trigger] s@[k] == '.' && s@[k + 1] == '.'),
        decreases s.len() - i,
    {
        if s[i - 1] == '.' && s[i] == '.' {
            return true;
        }
        i = i + 1;
    }
    false
}

/// Checks that a developer-supplied game id is safe to hand to the
/// filesystem: it must be non-empty and hold no `/`, `\` or `..`.
pub fn validate_game_id(id: &str) -> (r: Result<(), String>)
    ensures
        r is Ok <==> game_id_ok(id@),
        id@.len() == 0 ==> (r matches Err(m) && m@ == "game_id cannot be empty"@),
        id@.len() > 0 && !game_id_ok(id@) ==> (r matches Err(m) && m@ == illegal_id_message(id@)),
{
    let cs = chars_of(id);
    if cs.len() == 0 {
        return Err(String::from_str("game_id cannot be empty"));
    }
    if contains_char(cs.as_slice(), '/') || contains_char(cs.as_slice(), '\\')
        || contains_dot_dot(cs.as_slice()) {
        let mut m = String::from_str("game_id '");
        m.append(id);
        m.append("' contains illegal characters (no '/', '\\', or '..')");
        return Err(m);
    }
    Ok(())
}

/// The save file inside a game's data directory: `<dir>/save.json`.
pub fn save_file_path(save_dir: &str) -> (r: String)
    ensures
        r@ == join_spec(save_dir@, "save.json"@),
{
    join(save_dir, "save.json")
}

/// The file a save is written to before it is renamed over the save
/// file, so a crash mid-write leaves the previous save intact:
/// `<dir>/save.json.tmp`.
pub fn save_tmp_path(save_dir: &str) -> (r: String)
    ensures
        r@ == join_spec(save_dir@, "save.json.tmp"@),
{
    join(save_dir, "save.json.tmp")
}

} // verus!
