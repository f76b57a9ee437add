//! The decisions of `usagi export`: which targets use runtime templates,
//! how the artifacts are named, and which runtime source an export of one
//! target draws on. The file work itself is done by the application.

use vstd::prelude::*;
use crate::error::{Error, error_message};
use crate::templates::{
    Target, template_url_spec, archive_file_name_spec, trim_slashes, target_platform, target_archive_ext,
    lemma_archive_file_kind,
};
use crate::paths::{parent_spec, file_name_spec, stem_of_name, parent, file_name, file_stem, last_index, lemma_last_index};
use crate::vfs::last_index_of;
use crate::text::{chars_of, string_of, sub_chars, ends_with, is_suffix, chars_eq};

verus! {

/// What `usagi export --target` asks for.
#[derive(Copy, Clone, Debug, PartialEq, Eq, Structural)]
pub enum ExportTarget {
    /// All four platform zips plus the portable `.usagi` bundle.
    All,
    /// Portable `.usagi` bundle file (run with `usagi run`).
    Bundle,
    /// Linux x86_64 fused exe, packaged as `<name>-linux.zip`.
    Linux,
    /// macOS aarch64 fused exe, packaged as `<name>-macos.zip`.
    Macos,
    /// Windows x86_64 fused exe, packaged as `<name>-windows.zip`.
    Windows,
    /// Web export packaged as `<name>-web.zip`.
    Web,
}

/// Whether an export of `target` produces the web build.
pub fn target_produces_web(target: ExportTarget) -> (r: bool)
    ensures
        r <==> (target == ExportTarget::All || target == ExportTarget::Web),
{
    match target {
        ExportTarget::All | ExportTarget::Web => true,
        _ => false,
    }
}

/// The runtime template an export target is built from; `None` for the
/// targets that use none (`all`, `bundle`).
pub open spec fn template_target_spec(t: ExportTarget) -> Option<Target> {
    match t {
        ExportTarget::Linux => Some(Target::Linux),
        ExportTarget::Macos => Some(Target::Macos),
        ExportTarget::Windows => Some(Target::Windows),
        ExportTarget::Web => Some(Target::Wasm),
        _ => None,
    }
}

/// Maps the command-line export target to the template target.
pub fn template_target_for(target: ExportTarget) -> (r: Option<Target>)
    ensures
        r == template_target_spec(target),
{
    match target {
        ExportTarget::Linux => Some(Target::Linux),
        ExportTarget::Macos => Some(Target::Macos),
        ExportTarget::Windows => Some(Target::Windows),
        ExportTarget::Web => Some(Target::Wasm),
        _ => None,
    }
}

/// The message for template flags given with a target that uses no template.
pub open spec fn template_flag_message() -> Seq<char> {
    "--template-path / --template-url only apply to --target {linux,macos,windows,web}"@
}

/// The message for `--web-shell` given with a target that builds no web export.
pub open spec fn web_shell_flag_message() -> Seq<char> {
    "--web-shell only applies to --target {web,all}"@
}

/// Checks the flag combination of an export: template flags need a
/// template target, `--web-shell` needs a web build. Gives the template
/// target on success.
pub fn check_export_flags(
    target: ExportTarget,
    has_template_path: bool,
    has_template_url: bool,
    has_web_shell: bool,
) -> (r: Result<Option<Target>, Error>)
    ensures
        template_target_spec(target) is None && (has_template_path || has_template_url)
            ==> (r matches Err(e) && error_message(e) == template_flag_message()),
        !(template_target_spec(target) is None && (has_template_path || has_template_url))
            && has_web_shell && !(target == ExportTarget::All || target == ExportTarget::Web)
            ==> (r matches Err(e) && error_message(e) == web_shell_flag_message()),
        r is Ok <==> !(template_target_spec(target) is None && (has_template_path || has_template_url))
            && !(has_web_shell && !(target == ExportTarget::All || target == ExportTarget::Web)),
        r matches Ok(t) ==> t == template_target_spec(target),
{
    let template_target = template_target_for(target);
    if template_target.is_none() && (has_template_path || has_template_url) {
        return Err(Error::Cli(String::from_str(
            "--template-path / --template-url only apply to --target {linux,macos,windows,web}",
        )));
    }
    if has_web_shell && !target_produces_web(target) {
        return Err(Error::Cli(String::from_str("--web-shell only applies to --target {web,all}")));
    }
    Ok(template_target)
}

/// The project name of a script: the stem of its file name, or `game`
/// when it has none; for `main.lua` the name of the directory holding it
/// (when that has a name).
pub open spec fn project_name_spec(p: Seq<char>) -> Seq<char> {
    let stem = match file_name_spec(p) {
        Some(n) => stem_of_name(n),
        None => "game"@,
    };
    if stem == "main"@ {
        match parent_spec(p) {
            Some(q) => match file_name_spec(q) {
                Some(n) => n,
                None => stem,
            },
            None => stem,
        }
    } else {
        stem
    }
}

/// Project base name from a script path: `examples/spr/main.lua` gives
/// `spr`, `examples/snake.lua` gives `snake`.
pub fn project_name(script_path: &str) -> (r: String)
    ensures
        r@ == project_name_spec(script_path@),
{
    let stem = match file_name(script_path) {
        Some(n) => file_stem(n.as_str()),
        None => String::from_str("game"),
    };
    let s = chars_of(stem.as_str());
    let main = chars_of("main");
    if chars_eq(s.as_slice(), main.as_slice()) {
        match parent(script_path) {
            Some(q) => match file_name(q.as_str()) {
                Some(n) => n,
                None => stem,
            },
            None => stem,
        }
    } else {
        stem
    }
}

/// Where an export lands when no `--output` is given.
pub open spec fn default_output_spec(name: Seq<char>, t: ExportTarget) -> Seq<char> {
    match t {
        ExportTarget::All => "export"@,
        ExportTarget::Bundle => name + ".usagi"@,
        ExportTarget::Linux => name + "-linux.zip"@,
        ExportTarget::Macos => name + "-macos.zip"@,
        ExportTarget::Windows => name + "-windows.zip"@,
        ExportTarget::Web => name + "-web.zip"@,
    }
}

/// The default output path of an export: `export` (a directory) for
/// `all`, otherwise a file named after the project and the target.
pub fn default_output_path(name: &str, target: ExportTarget) -> (r: String)
    ensures
        r@ == default_output_spec(name@, target),
{
    match target {
        ExportTarget::All => String::from_str("export"),
        _ => {
            let mut s = String::from_str(name);
            match target {
                ExportTarget::Bundle => s.append(".usagi"),
                ExportTarget::Linux => s.append("-linux.zip"),
                ExportTarget::Macos => s.append("-macos.zip"),
                ExportTarget::Windows => s.append("-windows.zip"),
                _ => s.append("-web.zip"),
            }
            s
        },
    }
}

/// The file name of one platform's zip inside the `all` export directory.
pub fn all_target_zip_name(name: &str, target: Target) -> (r: String)
    ensures
        r@ == name@ + "-"@ + crate::templates::target_name(target) + ".zip"@,
{
    let mut s = String::from_str(name);
    s.append("-");
    s.append(target.as_str());
    s.append(".zip");
    s
}

/// The file name of the portable bundle inside the `all` export directory.
pub fn all_bundle_name(name: &str) -> (r: String)
    ensures
        r@ == name@ + ".usagi"@,
{
    let mut s = String::from_str(name);
    s.append(".usagi");
    s
}

/// The name of the fused binary: `<name>.exe` on Windows, `<name>` elsewhere.
pub fn staged_exe_name(name: &str, target: Target) -> (r: String)
    ensures
        r@ == (if target == Target::Windows { name@ + ".exe"@ } else { name@ }),
{
    let mut s = String::from_str(name);
    if target == Target::Windows {
        s.append(".exe");
    }
    s
}

/// The index of the first `?` or `#` at or after `i`, or the length.
pub open spec fn query_start(s: Seq<char>, i: int) -> int
    decreases s.len() - i,
{
    if i >= s.len() {
        s.len() as int
    } else if s[i] == '?' || s[i] == '#' {
        i
    } else {
        query_start(s, i + 1)
    }
}

/// The last `/`-separated segment of a URL without its query and fragment.
pub open spec fn url_basename(url: Seq<char>) -> Seq<char> {
    let t = url.subrange(0, query_start(url, 0));
    match last_index_of(t, '/') {
        None => t,
        Some(k) => t.subrange(k + 1, t.len() as int),
    }
}

/// The local file name for a template downloaded from `url`.
pub open spec fn archive_name_spec(url: Seq<char>) -> Seq<char> {
    let last = url_basename(url);
    if is_suffix(".tar.gz"@, last) || is_suffix(".tgz"@, last) || is_suffix(".zip"@, last) {
        last
    } else {
        "template.tar.gz"@
    }
}

proof fn lemma_query_start_bounds(s: Seq<char>, i: int)
    requires
        0 <= i <= s.len(),
    ensures
        i <= query_start(s, i) <= s.len(),
    decreases s.len() - i,
{
    if i < s.len() && !(s[i] == '?' || s[i] == '#') {
        lemma_query_start_bounds(s, i + 1);
    }
}

/// Picks a local file name for a downloaded template that keeps the URL's
/// archive extension (`.tar.gz`, `.tgz`, `.zip`), or `template.tar.gz`
/// when the URL's last segment has none of them.
pub fn archive_name_from_url(url: &str) -> (r: String)
    ensures
        r@ == archive_name_spec(url@),
{
    let cs = chars_of(url);
    let mut i: usize = 0;
    while i < cs.len() && cs[i] != '?' && cs[i] != '#'
        invariant
            0 <= i <= cs.len(),
            query_start(cs@, 0) == query_start(cs@, i as int),
        decreases cs.len() - i,
    {
        i = i + 1;
    }
    let t = sub_chars(cs.as_slice(), 0, i);
    proof { lemma_last_index(t@, '/'); }
    let last = match last_index(t.as_slice(), '/') {
        None => t,
        Some(k) => sub_chars(t.as_slice(), k + 1, t.len()),
    };
    let tgz = chars_of(".tar.gz");
    let tgz2 = chars_of(".tgz");
    let zip = chars_of(".zip");
    if ends_with(last.as_slice(), tgz.as_slice()) || ends_with(last.as_slice(), tgz2.as_slice())
        || ends_with(last.as_slice(), zip.as_slice()) {
        string_of(last.as_slice())
    } else {
        String::from_str("template.tar.gz")
    }
}

/// Where the runtime for a one-target export comes from.
#[derive(Clone, Debug, PartialEq, Eq)]
pub enum RuntimeSource {
    /// A pre-extracted template directory given with `--template-path`.
    Dir(String),
    /// A template archive given with `--template-path`.
    Archive(String),
    /// A template archive to download from the `--template-url`.
    Url(String),
    /// The running binary, which already is the target's runtime.
    HostExe,
    /// The shared template cache, filled by version on first use.
    Cache,
}

/// Chooses the runtime source of a one-target export: an explicit
/// `--template-path` wins (a directory as is, a file as an archive), then
/// `--template-url`, then the running binary when the target is the
/// host's, else the cache.
pub fn runtime_source(
    template_path: Option<&str>,
    path_is_dir: bool,
    template_url: Option<&str>,
    host: Option<Target>,
    target: Target,
) -> (r: RuntimeSource)
    ensures
        match template_path {
            Some(p) => if path_is_dir {
                r matches RuntimeSource::Dir(d) && d@ == p@
            } else {
                r matches RuntimeSource::Archive(a) && a@ == p@
            },
            None => match template_url {
                Some(u) => r matches RuntimeSource::Url(v) && v@ == u@,
                None => if host == Some(target) {
                    r matches RuntimeSource::HostExe
                } else {
                    r matches RuntimeSource::Cache
                },
            },
        },
{
    if let Some(p) = template_path {
        if path_is_dir {
            return RuntimeSource::Dir(String::from_str(p));
        }
        return RuntimeSource::Archive(String::from_str(p));
    }
    if let Some(u) = template_url {
        return RuntimeSource::Url(String::from_str(u));
    }
    match host {
        Some(h) => if h == target {
            RuntimeSource::HostExe
        } else {
            RuntimeSource::Cache
        },
        None => RuntimeSource::Cache,
    }
}

/// The outcome of an `all` export from its per-target outcomes: it fails,
/// with the last error, only when every target failed.
pub fn all_export_outcome(results: Vec<Result<(), Error>>) -> (r: Result<(), Error>)
    ensures
        r is Ok <==> (results@.len() == 0 || exists|i: int| 0 <= i < results@.len() && results@[i] is Ok),
        r matches Err(e) ==> (results@.len() > 0 && (results@.last() matches Err(l)
            && error_message(e) == error_message(l))),
{
    let mut results = results;
    let n = results.len();
    let mut succeeded = false;
    let mut i: usize = 0;
    while i < n
        invariant
            n == results.len(),
            0 <= i <= n,
            succeeded <==> exists|k: int| 0 <= k < i && results@[k] is Ok,
        decreases n - i,
    {
        if results[i].is_ok() {
            succeeded = true;
        }
        i = i + 1;
    }
    if succeeded || n == 0 {
        return Ok(());
    }
    let ghost before = results@;
    let last = results.pop();
    match last {
        Some(Err(e)) => Err(e),
        _ => {
            assert(before[n - 1] is Ok);
            Ok(())
        },
    }
}

/// Whatever URL a template is downloaded from, the local file name picked
/// for it carries an extension that archive extraction recognizes.
pub proof fn lemma_archive_name_is_extractable(url: Seq<char>)
    ensures
        crate::templates::detect_spec(archive_name_spec(url)) is Some,
{
    let last = url_basename(url);
    if !(is_suffix(".tar.gz"@, last) || is_suffix(".tgz"@, last) || is_suffix(".zip"@, last)) {
        reveal_strlit("template.tar.gz");
        reveal_strlit(".tar.gz");
        let n = "template.tar.gz"@;
        assert(n.subrange(n.len() - 7, n.len() as int) =~= ".tar.gz"@);
    }
}

/// A project name is never empty and holds no `/`, so it can name the
/// files and directories of an export.
pub proof fn lemma_project_name_shape(p: Seq<char>)
    ensures
        project_name_spec(p).len() > 0,
        !project_name_spec(p).contains('/'),
{
    reveal_strlit("game");
    reveal_strlit("main");
    lemma_file_name_shape(p);
    let stem = match file_name_spec(p) {
        Some(n) => stem_of_name(n),
        None => "game"@,
    };
    match file_name_spec(p) {
        Some(n) => {
            lemma_stem_shape(n);
        },
        None => {
            assert(!"game"@.contains('/')) by {
                assert forall|k: int| 0 <= k < 4 implies "game"@[k] != '/' by {}
            }
        },
    }
    if stem == "main"@ {
        match parent_spec(p) {
            Some(q) => {
                lemma_file_name_shape(q);
            },
            None => {},
        }
    }
}

proof fn lemma_file_name_shape(p: Seq<char>)
    ensures
        file_name_spec(p) matches Some(n) ==> n.len() > 0 && !n.contains('/'),
{
    let q = crate::paths::strip_tail(p);
    crate::vfs::lemma_last_index_of_all(q, '/');
    let start = match last_index_of(q, '/') {
        None => 0,
        Some(k) => k + 1,
    };
    let seg = q.subrange(start, q.len() as int);
    if let Some(n) = file_name_spec(p) {
        assert(n == seg);
        assert forall|k: int| 0 <= k < seg.len() implies seg[k] != '/' by {
            assert(seg[k] == q[start + k]);
        }
    }
}

proof fn lemma_stem_shape(n: Seq<char>)
    requires
        n.len() > 0,
        !n.contains('/'),
    ensures
        stem_of_name(n).len() > 0,
        !stem_of_name(n).contains('/'),
{
    lemma_last_index(n, '.');
    match last_index_of(n, '.') {
        None => {},
        Some(k) => {
            if k != 0 {
                let s = n.subrange(0, k);
                assert forall|j: int| 0 <= j < s.len() implies s[j] != '/' by {
                    assert(s[j] == n[j]);
                }
            }
        },
    }
}

proof fn lemma_query_start_free(s: Seq<char>, i: int)
    requires
        0 <= i <= s.len(),
        !s.contains('?'),
        !s.contains('#'),
    ensures
        query_start(s, i) == s.len(),
    decreases s.len() - i,
{
    if i < s.len() {
        assert(s[i] != '?' && s[i] != '#');
        lemma_query_start_free(s, i + 1);
    }
}

proof fn lemma_last_index_concat_free(a: Seq<char>, b: Seq<char>, c: char)
    requires
        !b.contains(c),
    ensures
        last_index_of(a + b, c) == last_index_of(a, c),
    decreases b.len(),
{
    if b.len() == 0 {
        assert(a + b =~= a);
    } else {
        assert((a + b).last() == b.last());
        assert(b.last() == b[b.len() - 1]);
        assert((a + b).drop_last() =~= a + b.drop_last());
        assert forall|k: int| 0 <= k < b.drop_last().len() implies b.drop_last()[k] != c by {
            assert(b.drop_last()[k] == b[k]);
        }
        lemma_last_index_concat_free(a, b.drop_last(), c);
    }
}

proof fn lemma_free_concat(a: Seq<char>, b: Seq<char>, c: char)
    requires
        !a.contains(c),
        !b.contains(c),
    ensures
        !(a + b).contains(c),
{
    assert forall|k: int| 0 <= k < (a + b).len() implies (a + b)[k] != c by {
        if k < a.len() {
            assert((a + b)[k] == a[k]);
        } else {
            assert((a + b)[k] == b[k - a.len()]);
        }
    }
}

/// Downloading a release template through its URL (`--template-url`)
/// names the local archive as the template cache names it: the file name
/// of the URL is the release archive's, whenever the base URL and the
/// version hold no `?` or `#` and the version holds no `/`.
pub proof fn lemma_release_url_keeps_archive_name(base: Seq<char>, version: Seq<char>, t: Target)
    requires
        !base.contains('?'),
        !base.contains('#'),
        !version.contains('?'),
        !version.contains('#'),
        !version.contains('/'),
    ensures
        archive_name_spec(crate::templates::template_url_spec(base, version, t))
            == crate::templates::archive_file_name_spec(version, t),
{
    reveal_strlit("/v");
    reveal_strlit("/");
    reveal_strlit("/usagi-");
    reveal_strlit("usagi-");
    reveal_strlit("-");
    reveal_strlit(".");
    reveal_strlit("linux-x86_64");
    reveal_strlit("macos-aarch64");
    reveal_strlit("windows-x86_64");
    reveal_strlit("wasm");
    reveal_strlit("zip");
    reveal_strlit("tar.gz");
    let tb = trim_slashes(base);
    lemma_trim_slashes_prefix(base);
    let name = archive_file_name_spec(version, t);
    let head = tb + "/v"@ + version + "/"@;
    let url = template_url_spec(base, version, t);
    assert("/usagi-"@ =~= "/"@ + "usagi-"@);
    assert(url =~= head + name);
    // No `?`, `#` in the URL, and no `/` in the archive name.
    let p = target_platform(t);
    let e = target_archive_ext(t);
    assert forall|c: char| c == '?' || c == '#' || c == '/' implies !p.contains(c) && !e.contains(c) by {
        assert forall|k: int| 0 <= k < p.len() implies p[k] != c by {}
        assert forall|k: int| 0 <= k < e.len() implies e[k] != c by {}
    }
    assert forall|c: char| c == '?' || c == '#' || c == '/' implies
        !"usagi-"@.contains(c) && !"-"@.contains(c) && !"."@.contains(c) by {
        assert forall|k: int| 0 <= k < "usagi-"@.len() implies "usagi-"@[k] != c by {}
        assert forall|k: int| 0 <= k < "-"@.len() implies "-"@[k] != c by {}
        assert forall|k: int| 0 <= k < "."@.len() implies "."@[k] != c by {}
    }
    assert forall|c: char| c == '?' || c == '#' implies !"/"@.contains(c) && !"/v"@.contains(c) by {
        assert forall|k: int| 0 <= k < "/v"@.len() implies "/v"@[k] != c by {}
        assert forall|k: int| 0 <= k < "/"@.len() implies "/"@[k] != c by {}
    }
    assert forall|c: char| c == '?' || c == '#' || c == '/' implies !name.contains(c) by {
        lemma_free_concat("usagi-"@, version, c);
        lemma_free_concat("usagi-"@ + version, "-"@, c);
        lemma_free_concat("usagi-"@ + version + "-"@, p, c);
        lemma_free_concat("usagi-"@ + version + "-"@ + p, "."@, c);
        lemma_free_concat("usagi-"@ + version + "-"@ + p + "."@, e, c);
    }
    assert forall|c: char| c == '?' || c == '#' implies !url.contains(c) by {
        lemma_free_concat(tb, "/v"@, c);
        lemma_free_concat(tb + "/v"@, version, c);
        lemma_free_concat(tb + "/v"@ + version, "/"@, c);
        lemma_free_concat(head, name, c);
    }
    lemma_query_start_free(url, 0);
    assert(url.subrange(0, url.len() as int) =~= url);
    lemma_last_index_concat_free(head, name, '/');
    assert(head.last() == '/');
    assert(last_index_of(head, '/') == Some(head.len() - 1));
    assert(url.subrange(head.len() as int, url.len() as int) =~= name);
    lemma_archive_file_kind(version, t);
}

proof fn lemma_trim_slashes_prefix(s: Seq<char>)
    ensures
        !s.contains('?') ==> !crate::templates::trim_slashes(s).contains('?'),
        !s.contains('#') ==> !crate::templates::trim_slashes(s).contains('#'),
    decreases s.len(),
{
    if s.len() > 0 && s.last() == '/' {
        lemma_trim_slashes_prefix(s.drop_last());
        assert forall|c: char| !s.contains(c) implies !s.drop_last().contains(c) by {
            assert forall|k: int| 0 <= k < s.drop_last().len() implies s.drop_last()[k] != c by {
                assert(s.drop_last()[k] == s[k]);
            }
        }
    }
}

} // verus!
