//! How `usagi run` / `usagi dev` start a game from their path argument.

use vstd::prelude::*;
use crate::error::{Error, error_message};
use crate::project::{extension, extension_spec};
use crate::vfs::ascii_lower_str;
use crate::text::chars_of;

verus! {

/// What a session is started from.
#[derive(Copy, Clone, Debug, PartialEq, Eq, Structural)]
pub enum Launch {
    /// A `.usagi` bundle file, run without live-reload.
    Bundle,
    /// A source project (a `.lua` file or a directory with `main.lua`).
    Source,
}

/// A path names a bundle when its extension is `usagi`, in any case.
pub open spec fn is_bundle_path(p: Seq<char>) -> bool {
    match extension_spec(crate::paths::file_name_spec(p).unwrap_or(Seq::empty())) {
        Some(e) => ascii_lower_str(e) == "usagi"@,
        None => false,
    }
}

/// The message for `usagi dev` on a bundle.
pub open spec fn dev_bundle_message() -> Seq<char> {
    "live-reload (`usagi dev`) only works on source projects, not .usagi bundles"@
}

/// Decides how to start a session for `path_arg`: a bundle path runs the
/// bundle (and cannot live-reload), anything else is a source project.
pub fn launch_kind(path_arg: &str, dev: bool) -> (r: Result<Launch, Error>)
    ensures
        is_bundle_path(path_arg@) && dev ==> (r matches Err(e) && error_message(e) == dev_bundle_message()),
        is_bundle_path(path_arg@) && !dev ==> r == Ok::<Launch, Error>(Launch::Bundle),
        !is_bundle_path(path_arg@) ==> r == Ok::<Launch, Error>(Launch::Source),
{
    let name = match crate::paths::file_name(path_arg) {
        Some(n) => n,
        None => String::new(),
    };
    let is_bundle = match extension(name.as_str()) {
        Some(e) => {
            let cs = chars_of(e.as_str());
            let low = crate::project::lower_chars(cs.as_slice());
            let u = chars_of("usagi");
            crate::text::chars_eq(low.as_slice(), u.as_slice())
        },
        None => false,
    };
    if is_bundle {
        if dev {
            return Err(Error::Cli(String::from_str(
                "live-reload (`usagi dev`) only works on source projects, not .usagi bundles",
            )));
        }
        Ok(Launch::Bundle)
    } else {
        Ok(Launch::Source)
    }
}

} // verus!
