//! The text of a macOS `.app` bundle: its `Info.plist` and the layout
//! paths under a staging directory. Writing the files is left to the
//! application.

use vstd::prelude::*;
use crate::paths::{join, join_spec};
use crate::text::{chars_of, string_of, push_str};

verus! {

/// The escape of one character inside a plist `<string>` value.
pub open spec fn xml_escape_char(c: char) -> Seq<char> {
    if c == '&' {
        "&amp;"@
    } else if c == '<' {
        "&lt;"@
    } else if c == '>' {
        "&gt;"@
    } else if c == '\'' {
        "&apos;"@
    } else if c == '"' {
        "&quot;"@
    } else {
        seq![c]
    }
}

/// `s` with each of `& < > ' "` replaced by its XML entity.
pub open spec fn xml_escape_spec(s: Seq<char>) -> Seq<char>
    decreases s.len(),
{
    if s.len() == 0 {
        Seq::empty()
    } else {
        xml_escape_spec(s.drop_last()) + xml_escape_char(s.last())
    }
}

/// Escapes the five characters that matter inside `<string>` values.
pub fn xml_escape(s: &str) -> (r: String)
    ensures
        r@ == xml_escape_spec(s@),
{
    let cs = chars_of(s);
    let mut out: Vec<char> = Vec::new();
    let mut i: usize = 0;
    while i < cs.len()
        invariant
            0 <= i <= cs.len(),
            cs@ == s@,
            out@ == xml_escape_spec(cs@.take(i as int)),
        decreases cs.len() - i,
    {
        let c = cs[i];
        let ghost before = out@;
        if c == '&' {
            push_str(&mut out, "&amp;");
        } else if c == '<' {
            push_str(&mut out, "&lt;");
        } else if c == '>' {
            push_str(&mut out, "&gt;");
        } else if c == '\'' {
            push_str(&mut out, "&apos;");
        } else if c == '"' {
            push_str(&mut out, "&quot;");
        } else {
            out.push(c);
        }
        proof {
            let t = cs@.take(i + 1);
            assert(t.drop_last() =~= cs@.take(i as int));
            assert(t.last() == c);
            assert(out@ =~= before + xml_escape_char(c));
        }
        i = i + 1;
    }
    assert(cs@.take(cs@.len() as int) =~= cs@);
    string_of(out.as_slice())
}

/// The plist text before the escaped display name.
pub open spec fn plist_head() -> Seq<char> {
    "<?xml version=\"1.0\" encoding=\"UTF-8\"?>\n<!DOCTYPE plist PUBLIC \"-//Apple//DTD PLIST 1.0//EN\" \"http://www.apple.com/DTDs/PropertyList-1.0.dtd\">\n<plist version=\"1.0\">\n<dict>\n    <key>CFBundleDevelopmentRegion</key>\n    <string>en</string>\n    <key>CFBundleDisplayName</key>\n    <string>"@
}

/// The plist text between the display name and the executable name.
pub open spec fn plist_exec_key() -> Seq<char> {
    "</string>\n    <key>CFBundleExecutable</key>\n    <string>"@
}

/// The plist text after the executable name, before the optional icon entry.
pub open spec fn plist_exec_end() -> Seq<char> {
    "</string>\n"@
}

/// The icon entry, present when the bundle ships `AppIcon.icns`.
pub open spec fn plist_icon_block() -> Seq<char> {
    "    <key>CFBundleIconFile</key>\n    <string>AppIcon</string>\n"@
}

/// The plist text before the escaped bundle identifier.
pub open spec fn plist_id_key() -> Seq<char> {
    "    <key>CFBundleIdentifier</key>\n    <string>"@
}

/// The plist text between the identifier and the bundle name.
pub open spec fn plist_name_key() -> Seq<char> {
    "</string>\n    <key>CFBundleInfoDictionaryVersion</key>\n    <string>6.0</string>\n    <key>CFBundleName</key>\n    <string>"@
}

/// The plist text after the bundle name, to the end.
pub open spec fn plist_tail() -> Seq<char> {
    "</string>\n    <key>CFBundlePackageType</key>\n    <string>APPL</string>\n    <key>CFBundleShortVersionString</key>\n    <string>1.0</string>\n    <key>CFBundleSignature</key>\n    <string>????</string>\n    <key>CFBundleVersion</key>\n    <string>1</string>\n    <key>LSApplicationCategoryType</key>\n    <string>public.app-category.games</string>\n    <key>LSMinimumSystemVersion</key>\n    <string>11.0</string>\n    <key>NSHighResolutionCapable</key>\n    <true/>\n</dict>\n</plist>\n"@
}

/// The whole `Info.plist` for a game named `name` with identifier `id`.
pub open spec fn info_plist_spec(name: Seq<char>, id: Seq<char>, with_icon: bool) -> Seq<char> {
    let n = xml_escape_spec(name);
    plist_head() + n + plist_exec_key() + n + plist_exec_end()
        + (if with_icon { plist_icon_block() } else { Seq::empty() })
        + plist_id_key() + xml_escape_spec(id) + plist_name_key() + n + plist_tail()
}

/// The `Info.plist` of the bundle: display name, executable and bundle
/// name are `name`, the identifier is `bundle_id` (both XML-escaped), and
/// `CFBundleIconFile = AppIcon` is present exactly when `with_icon`.
pub fn info_plist_xml(name: &str, bundle_id: &str, with_icon: bool) -> (r: String)
    ensures
        r@ == info_plist_spec(name@, bundle_id@, with_icon),
{
    let n = xml_escape(name);
    let id = xml_escape(bundle_id);
    let mut s = String::from_str(
        "<?xml version=\"1.0\" encoding=\"UTF-8\"?>\n<!DOCTYPE plist PUBLIC \"-//Apple//DTD PLIST 1.0//EN\" \"http://www.apple.com/DTDs/PropertyList-1.0.dtd\">\n<plist version=\"1.0\">\n<dict>\n    <key>CFBundleDevelopmentRegion</key>\n    <string>en</string>\n    <key>CFBundleDisplayName</key>\n    <string>",
    );
    s.append(n.as_str());
    s.append("</string>\n    <key>CFBundleExecutable</key>\n    <string>");
    s.append(n.as_str());
    s.append("</string>\n");
    let ghost before_icon = s@;
    if with_icon {
        s.append("    <key>CFBundleIconFile</key>\n    <string>AppIcon</string>\n");
    } else {
        assert(s@ =~= before_icon + Seq::<char>::empty());
    }
    s.append("    <key>CFBundleIdentifier</key>\n    <string>");
    s.append(id.as_str());
    s.append(
        "</string>\n    <key>CFBundleInfoDictionaryVersion</key>\n    <string>6.0</string>\n    <key>CFBundleName</key>\n    <string>",
    );
    s.append(n.as_str());
    s.append(
        "</string>\n    <key>CFBundlePackageType</key>\n    <string>APPL</string>\n    <key>CFBundleShortVersionString</key>\n    <string>1.0</string>\n    <key>CFBundleSignature</key>\n    <string>????</string>\n    <key>CFBundleVersion</key>\n    <string>1</string>\n    <key>LSApplicationCategoryType</key>\n    <string>public.app-category.games</string>\n    <key>LSMinimumSystemVersion</key>\n    <string>11.0</string>\n    <key>NSHighResolutionCapable</key>\n    <true/>\n</dict>\n</plist>\n",
    );
    s
}

/// The `.app` directory of a game staged under `stage`.
pub open spec fn app_dir_spec(stage: Seq<char>, name: Seq<char>) -> Seq<char> {
    join_spec(stage, name + ".app"@)
}

/// The `Contents` directory of the staged `.app`.
pub open spec fn contents_dir_spec(stage: Seq<char>, name: Seq<char>) -> Seq<char> {
    join_spec(app_dir_spec(stage, name), "Contents"@)
}

/// The paths of a staged `.app` bundle.
pub struct AppLayout {
    /// `<stage>/<name>.app/Contents`, where `Info.plist` and `PkgInfo` go.
    pub contents: String,
    /// `<stage>/<name>.app/Contents/MacOS`, the directory of the binary.
    pub macos_dir: String,
    /// `<stage>/<name>.app/Contents/Resources`, where the icon goes.
    pub resources: String,
    /// `<stage>/<name>.app/Contents/MacOS/<name>`, the binary to fuse onto.
    pub binary: String,
}

/// The layout of `<name>.app` staged under `stage`.
pub fn app_layout(stage: &str, name: &str) -> (r: AppLayout)
    ensures
        r.contents@ == contents_dir_spec(stage@, name@),
        r.macos_dir@ == join_spec(contents_dir_spec(stage@, name@), "MacOS"@),
        r.resources@ == join_spec(contents_dir_spec(stage@, name@), "Resources"@),
        r.binary@ == join_spec(join_spec(contents_dir_spec(stage@, name@), "MacOS"@), name@),
{
    let mut app_name = String::from_str(name);
    app_name.append(".app");
    let app = join(stage, app_name.as_str());
    let contents = join(app.as_str(), "Contents");
    let macos_dir = join(contents.as_str(), "MacOS");
    let resources = join(contents.as_str(), "Resources");
    let binary = join(macos_dir.as_str(), name);
    AppLayout { contents, macos_dir, resources, binary }
}

/// Escaped text holds none of `<`, `>`, `"` and `'`, so a name placed
/// in a plist `<string>` value cannot end the element or break the XML.
pub proof fn lemma_xml_escape_safe(s: Seq<char>)
    ensures
        forall|i: int| 0 <= i < xml_escape_spec(s).len() ==> {
            let c = #[trigger] xml_escape_spec(s)[i];
            c != '<' && c != '>' && c != '"' && c != '\''
        },
    decreases s.len(),
{
    if s.len() > 0 {
        lemma_xml_escape_safe(s.drop_last());
        reveal_strlit("&amp;");
        reveal_strlit("&lt;");
        reveal_strlit("&gt;");
        reveal_strlit("&apos;");
        reveal_strlit("&quot;");
        let a = xml_escape_spec(s.drop_last());
        let b = xml_escape_char(s.last());
        assert(xml_escape_spec(s) == a + b);
        assert forall|i: int| 0 <= i < (a + b).len() implies {
            let c = #[trigger] (a + b)[i];
            c != '<' && c != '>' && c != '"' && c != '\''
        } by {
            if i < a.len() {
                assert((a + b)[i] == a[i]);
            } else {
                assert((a + b)[i] == b[i - a.len()]);
            }
        }
    }
}

} // verus!
