//! Where per-game settings are stored: `settings.json` next to the save
//! file in the game's data directory.

use vstd::prelude::*;
use crate::paths::{join, join_spec};

verus! {

/// The settings file of a game whose data directory is `save_dir`.
pub fn settings_path(save_dir: &str) -> (r: String)
    ensures
        r@ == join_spec(save_dir@, "settings.json"@),
{
    join(save_dir, "settings.json")
}

/// The file settings are written to before the rename that replaces the
/// settings file: `settings.json.tmp`.
pub fn settings_tmp_path(save_dir: &str) -> (r: String)
    ensures
        r@ == join_spec(save_dir@, "settings.json.tmp"@),
{
    join(save_dir, "settings.json.tmp")
}

} // verus!
