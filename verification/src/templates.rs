//! Runtime templates for `usagi export`: naming, URLs, the `sha256`
//! sidecar format and archive detection.

use vstd::prelude::*;
use crate::error::{Error, error_message};
use crate::text::{chars_of, string_of, sub_chars, push_all, push_str, ends_with, is_suffix};
use crate::game_id::{sha256, sha256_digest, hex_lower};
use crate::paths::{join, join_spec};

verus! {

/// A platform that release artifacts are published for.
#[derive(Copy, Clone, Debug, PartialEq, Eq, Structural)]
pub enum Target {
    Linux,
    Macos,
    Windows,
    Wasm,
}

/// The user-facing name of a target.
pub open spec fn target_name(t: Target) -> Seq<char> {
    match t {
        Target::Linux => "linux"@,
        Target::Macos => "macos"@,
        Target::Windows => "windows"@,
        Target::Wasm => "web"@,
    }
}

/// The platform string in release file names.
pub open spec fn target_platform(t: Target) -> Seq<char> {
    match t {
        Target::Linux => "linux-x86_64"@,
        Target::Macos => "macos-aarch64"@,
        Target::Windows => "windows-x86_64"@,
        Target::Wasm => "wasm"@,
    }
}

/// The archive extension of a target's release artifact.
pub open spec fn target_archive_ext(t: Target) -> Seq<char> {
    match t {
        Target::Windows => "zip"@,
        _ => "tar.gz"@,
    }
}

impl Target {
    /// Every target, in the order `--target all` builds them.
    pub fn all() -> (r: [Target; 4])
        ensures
            r@ == seq![Target::Linux, Target::Macos, Target::Windows, Target::Wasm],
    {
        let r = [Target::Linux, Target::Macos, Target::Windows, Target::Wasm];
        assert(r@ =~= seq![Target::Linux, Target::Macos, Target::Windows, Target::Wasm]);
        r
    }

    /// Short, user-facing name: `linux`, `macos`, `windows`, `web`.
    pub fn as_str(self) -> (r: &'static str)
        ensures
            r@ == target_name(self),
    {
        match self {
            Target::Linux => "linux",
            Target::Macos => "macos",
            Target::Windows => "windows",
            Target::Wasm => "web",
        }
    }

    /// Platform string used in release file names and the download URL.
    pub fn platform_str(self) -> (r: &'static str)
        ensures
            r@ == target_platform(self),
    {
        match self {
            Target::Linux => "linux-x86_64",
            Target::Macos => "macos-aarch64",
            Target::Windows => "windows-x86_64",
            Target::Wasm => "wasm",
        }
    }

    /// `zip` for Windows, `tar.gz` otherwise.
    pub fn archive_ext(self) -> (r: &'static str)
        ensures
            r@ == target_archive_ext(self),
    {
        match self {
            Target::Windows => "zip",
            _ => "tar.gz",
        }
    }

    /// The target a binary built for `os` / `arch` (the values of
    /// `std::env::consts::{OS, ARCH}`) matches, if it is a shipped one:
    /// linux/x86_64, macos/aarch64 or windows/x86_64.
    pub fn host(os: &str, arch: &str) -> (r: Option<Target>)
        ensures
            r == (if os@ == "linux"@ && arch@ == "x86_64"@ {
                Some(Target::Linux)
            } else if os@ == "macos"@ && arch@ == "aarch64"@ {
                Some(Target::Macos)
            } else if os@ == "windows"@ && arch@ == "x86_64"@ {
                Some(Target::Windows)
            } else {
                None::<Target>
            }),
    {
        let o = chars_of(os);
        let a = chars_of(arch);
        let linux = chars_of("linux");
        let macos = chars_of("macos");
        let windows = chars_of("windows");
        let x86 = chars_of("x86_64");
        let arm = chars_of("aarch64");
        if crate::text::chars_eq(o.as_slice(), linux.as_slice()) && crate::text::chars_eq(a.as_slice(), x86.as_slice()) {
            Some(Target::Linux)
        } else if crate::text::chars_eq(o.as_slice(), macos.as_slice()) && crate::text::chars_eq(a.as_slice(), arm.as_slice()) {
            Some(Target::Macos)
        } else if crate::text::chars_eq(o.as_slice(), windows.as_slice()) && crate::text::chars_eq(a.as_slice(), x86.as_slice()) {
            Some(Target::Windows)
        } else {
            None
        }
    }
}

/// `base` without its trailing `/` characters.
pub open spec fn trim_slashes(s: Seq<char>) -> Seq<char>
    decreases s.len(),
{
    if s.len() > 0 && s.last() == '/' { trim_slashes(s.drop_last()) } else { s }
}

/// The download URL of a release template:
/// `<base>/v<version>/usagi-<version>-<platform>.<ext>`.
pub open spec fn template_url_spec(base: Seq<char>, version: Seq<char>, t: Target) -> Seq<char> {
    trim_slashes(base) + "/v"@ + version + "/usagi-"@ + version + "-"@ + target_platform(t) + "."@
        + target_archive_ext(t)
}

/// The download URL of the release template for `target`, with trailing
/// slashes of `base_url` dropped.
pub fn template_url(base_url: &str, version: &str, target: Target) -> (r: String)
    ensures
        r@ == template_url_spec(base_url@, version@, target),
{
    let b = chars_of(base_url);
    let mut n = b.len();
    assert(b@.subrange(0, n as int) =~= b@);
    while n > 0 && b[n - 1] == '/'
        invariant
            0 <= n <= b.len(),
            trim_slashes(b@.subrange(0, n as int)) == trim_slashes(b@),
        decreases n,
    {
        assert(b@.subrange(0, n as int).drop_last() =~= b@.subrange(0, n - 1));
        n = n - 1;
    }
    let mut out = sub_chars(b.as_slice(), 0, n);
    proof {
        let t = b@.subrange(0, n as int);
        assert(t.len() == 0 || t.last() != '/');
        assert(trim_slashes(t) == t);
    }
    push_str(&mut out, "/v");
    push_str(&mut out, version);
    push_str(&mut out, "/usagi-");
    push_str(&mut out, version);
    push_str(&mut out, "-");
    push_str(&mut out, target.platform_str());
    push_str(&mut out, ".");
    push_str(&mut out, target.archive_ext());
    string_of(out.as_slice())
}

/// The release page that templates are downloaded from by default.
pub open spec fn default_template_base() -> Seq<char> {
    "https://github.com/brettchalupa/usagi/releases/download"@
}

/// The template base URL: the configured override when there is one,
/// otherwise the project's release page.
pub fn template_base(configured: Option<String>) -> (r: String)
    ensures
        r@ == (match configured {
            Some(v) => v@,
            None => default_template_base(),
        }),
{
    match configured {
        Some(v) => v,
        None => String::from_str("https://github.com/brettchalupa/usagi/releases/download"),
    }
}

/// Root of cached template extractions: `<cache_dir>/templates`.
pub fn cache_templates_root(cache_dir: &str) -> (r: String)
    ensures
        r@ == join_spec(cache_dir@, "templates"@),
{
    join(cache_dir, "templates")
}

/// The cache directory of one template: `<root>/templates/<version>/<target>`.
pub fn template_cache_dir(cache_root: &str, version: &str, target: Target) -> (r: String)
    ensures
        r@ == join_spec(join_spec(join_spec(cache_root@, "templates"@), version@), target_name(target)),
{
    let t = join(cache_root, "templates");
    let v = join(t.as_str(), version);
    join(v.as_str(), target.as_str())
}

/// `usagi-<version>-<platform>.<ext>`, the name of a release archive.
pub open spec fn archive_file_name_spec(version: Seq<char>, t: Target) -> Seq<char> {
    "usagi-"@ + version + "-"@ + target_platform(t) + "."@ + target_archive_ext(t)
}

/// The file name a release archive is downloaded to:
/// `usagi-<version>-<platform>.<ext>`.
pub fn archive_file_name(version: &str, target: Target) -> (r: String)
    ensures
        r@ == archive_file_name_spec(version@, target),
{
    let mut s = String::from_str("usagi-");
    s.append(version);
    s.append("-");
    s.append(target.platform_str());
    s.append(".");
    s.append(target.archive_ext());
    s
}

/// The hint added to a failed template download.
pub open spec fn unpublished_hint() -> Seq<char> {
    ". If this version isn't published, pass --template-path or --template-url."@
}

/// A failed template download, with the hint that the version may not
/// be published.
pub fn with_unpublished_hint(e: Error) -> (r: Error)
    ensures
        error_message(r) == error_message(e) + unpublished_hint(),
{
    match e {
        Error::Cli(msg) => {
            let mut m = msg;
            m.append(". If this version isn't published, pass --template-path or --template-url.");
            Error::Cli(m)
        },
    }
}

/// Whether an existing cache entry can be used as is.
pub fn cache_entry_usable(no_cache: bool, dir_exists: bool, runtime_found: bool) -> (r: bool)
    ensures
        r == (!no_cache && dir_exists && runtime_found),
{
    !no_cache && dir_exists && runtime_found
}

/// The outcome of searching an extracted template for one runtime file:
/// the path found, or the message of the failure (a scan error, or the
/// file missing from `dir`).
pub open spec fn find_outcome(name: Seq<char>, dir: Seq<char>, f: Result<Option<String>, Error>) -> Result<Seq<char>, Seq<char>> {
    match f {
        Err(e) => Err(error_message(e)),
        Ok(None) => Err(name + " not found in extracted template at "@ + dir),
        Ok(Some(p)) => Ok(p@),
    }
}

/// The message when a web template lacks `shell.html` and the source
/// tree has none either.
pub open spec fn missing_shell_message() -> Seq<char> {
    "shell.html missing from wasm template and no fallback at web/shell.html"@
}

fn found_path(name: &str, dir: &str, f: Result<Option<String>, Error>) -> (r: Result<String, Error>)
    ensures
        match (r, find_outcome(name@, dir@, f)) {
            (Ok(p), Ok(q)) => p@ == q,
            (Err(e), Err(m)) => error_message(e) == m,
            _ => false,
        },
{
    match f {
        Err(e) => Err(e),
        Ok(None) => {
            let mut m = String::from_str(name);
            m.append(" not found in extracted template at ");
            m.append(dir);
            Err(Error::Cli(m))
        },
        Ok(Some(p)) => Ok(p),
    }
}

/// Assembles the runtime of `target` from the search results for its
/// runtime files (in the order of [`runtime_files`]) in the extracted
/// template `dir`. A web template without `shell.html` falls back to
/// `fallback_html`, the source tree's shell when it exists.
pub fn locate(
    dir: &str,
    target: Target,
    found: Vec<Result<Option<String>, Error>>,
    fallback_html: Option<String>,
) -> (r: Result<Runtime, Error>)
    requires
        found@.len() == runtime_files_spec(target).len(),
    ensures
        target != Target::Wasm ==> match find_outcome(runtime_files_spec(target)[0], dir@, found@[0]) {
            Ok(p) => r matches Ok(Runtime::Native { exe }) && exe@ == p,
            Err(m) => r matches Err(e) && error_message(e) == m,
        },
        target == Target::Wasm ==> match (
            find_outcome("usagi.js"@, dir@, found@[0]),
            find_outcome("usagi.wasm"@, dir@, found@[1]),
        ) {
            (Err(m), _) => r matches Err(e) && error_message(e) == m,
            (Ok(_), Err(m)) => r matches Err(e) && error_message(e) == m,
            (Ok(js), Ok(wasm)) => match find_outcome("shell.html"@, dir@, found@[2]) {
                Ok(h) => r matches Ok(Runtime::Web { js: a, wasm: b, html: c })
                    && a@ == js && b@ == wasm && c@ == h,
                Err(_) => match fallback_html {
                    Some(h) => r matches Ok(Runtime::Web { js: a, wasm: b, html: c })
                        && a@ == js && b@ == wasm && c@ == h@,
                    None => r matches Err(e) && error_message(e) == missing_shell_message(),
                },
            },
        },
{
    let mut found = found;
    let names = runtime_files(target);
    if target != Target::Wasm {
        let f0 = found.remove(0);
        let exe = found_path(names[0], dir, f0)?;
        return Ok(Runtime::Native { exe });
    }
    let ghost all = found@;
    let f0 = found.remove(0);
    let f1 = found.remove(0);
    let f2 = found.remove(0);
    assert(f0 == all[0] && f1 == all[1] && f2 == all[2]);
    let js = found_path(names[0], dir, f0)?;
    let wasm = found_path(names[1], dir, f1)?;
    let html = match found_path(names[2], dir, f2) {
        Ok(h) => h,
        Err(_) => match fallback_html {
            Some(h) => h,
            None => {
                return Err(Error::Cli(String::from_str(
                    "shell.html missing from wasm template and no fallback at web/shell.html",
                )));
            },
        },
    };
    Ok(Runtime::Web { js, wasm, html })
}

/// The URL of the `sha256` sidecar published next to an archive.
pub fn sidecar_url(archive_url: &str) -> (r: String)
    ensures
        r@ == archive_url@ + ".sha256"@,
{
    let mut s = String::from_str(archive_url);
    s.append(".sha256");
    s
}

/// An ASCII hex digit, either case.
pub open spec fn is_hex_char(c: char) -> bool {
    ('0' <= c <= '9') || ('a' <= c <= 'f') || ('A' <= c <= 'F')
}

/// The first white-space-separated token of `s` starting at `i`, as
/// `(start, end)`, or `None` when only white space remains.
pub open spec fn first_token_from(s: Seq<char>, i: int) -> Option<(int, int)> {
    let a = crate::vfs::first_non_ws(s, i);
    if a >= s.len() {
        None
    } else {
        Some((a, token_end(s, a)))
    }
}

/// The first white-space position at or after `i` (or the end).
pub open spec fn token_end(s: Seq<char>, i: int) -> int
    decreases s.len() - i,
{
    if 0 <= i < s.len() && !crate::vfs::is_unicode_ws(s[i]) {
        token_end(s, i + 1)
    } else {
        i
    }
}

proof fn lemma_token_end(s: Seq<char>, i: int)
    requires
        0 <= i <= s.len(),
    ensures
        i <= token_end(s, i) <= s.len(),
        forall|k: int| i <= k < token_end(s, i) ==> !crate::vfs::is_unicode_ws(#[trigger] s[k]),
    decreases s.len() - i,
{
    if i < s.len() && !crate::vfs::is_unicode_ws(s[i]) {
        lemma_token_end(s, i + 1);
    }
}

proof fn lemma_first_non_ws(s: Seq<char>, i: int)
    requires
        0 <= i <= s.len(),
    ensures
        i <= crate::vfs::first_non_ws(s, i) <= s.len(),
    decreases s.len() - i,
{
    if i < s.len() && crate::vfs::is_unicode_ws(s[i]) {
        lemma_first_non_ws(s, i + 1);
    }
}

/// The lower-case form of an ASCII hex token.
pub open spec fn lower_token(t: Seq<char>) -> Seq<char> {
    t.map_values(|c: char| crate::game_id::ascii_lower(c))
}

/// What a `sha256sum`-style sidecar (`<hex>  <file name>`) gives: the
/// first white-space-separated token, lower-cased, when it is 64 hex
/// digits; an error naming the problem otherwise.
pub open spec fn parse_sha256_spec(text: Seq<char>) -> Result<Seq<char>, Seq<char>> {
    match first_token_from(text, 0) {
        None => Err("empty sha256 sidecar"@),
        Some((a, b)) => {
            let tok = text.subrange(a, b);
            if tok.len() == 64 && forall|k: int| 0 <= k < 64 ==> is_hex_char(#[trigger] tok[k]) {
                Ok(lower_token(tok))
            } else {
                Err("malformed sha256 in sidecar: "@ + tok)
            }
        },
    }
}

/// Parses a `sha256sum`-style sidecar (`<hex>  <filename>`), tolerating
/// leading white space and any separator. Gives the digest in lower case.
pub fn parse_sha256_line(text: &str) -> (r: Result<String, Error>)
    ensures
        match (r, parse_sha256_spec(text@)) {
            (Ok(v), Ok(w)) => v@ == w,
            (Err(e), Err(m)) => error_message(e) == m,
            _ => false,
        },
{
    let cs = chars_of(text);
    let mut a: usize = 0;
    proof { lemma_first_non_ws(cs@, 0); }
    while a < cs.len() && crate::vfs::is_unicode_ws_exec(cs[a])
        invariant
            0 <= a <= cs.len(),
            crate::vfs::first_non_ws(cs@, a as int) == crate::vfs::first_non_ws(cs@, 0),
        decreases cs.len() - a,
    {
        a = a + 1;
    }
    if a >= cs.len() {
        return Err(Error::Cli(String::from_str("empty sha256 sidecar")));
    }
    let mut b = a;
    proof { lemma_token_end(cs@, a as int); }
    while b < cs.len() && !crate::vfs::is_unicode_ws_exec(cs[b])
        invariant
            a <= b <= cs.len(),
            token_end(cs@, b as int) == token_end(cs@, a as int),
        decreases cs.len() - b,
    {
        b = b + 1;
    }
    let tok = sub_chars(cs.as_slice(), a, b);
    let mut ok = tok.len() == 64;
    let mut i: usize = 0;
    while ok && i < tok.len()
        invariant
            ok ==> tok@.len() == 64,
            0 <= i <= tok.len(),
            ok ==> forall|k: int| 0 <= k < i ==> is_hex_char(#[trigger] tok@[k]),
            !ok ==> !(tok@.len() == 64 && forall|k: int| 0 <= k < 64 ==> is_hex_char(#[trigger] tok@[k])),
        decreases tok.len() - i,
    {
        let c = tok[i];
        if !(('0' <= c && c <= '9') || ('a' <= c && c <= 'f') || ('A' <= c && c <= 'F')) {
            ok = false;
        }
        i = i + 1;
    }
    if !ok {
        let mut m: Vec<char> = Vec::new();
        push_str(&mut m, "malformed sha256 in sidecar: ");
        push_all(&mut m, tok.as_slice());
        return Err(Error::Cli(string_of(m.as_slice())));
    }
    let mut low: Vec<char> = Vec::new();
    let mut j: usize = 0;
    while j < tok.len()
        invariant
            0 <= j <= tok.len(),
            low@ == lower_token(tok@.take(j as int)),
        decreases tok.len() - j,
    {
        let c = tok[j];
        let l = if 'A' <= c && c <= 'Z' { ((c as u8) + 32) as char } else { c };
        low.push(l);
        j = j + 1;
        assert(low@ =~= lower_token(tok@.take(j as int)));
    }
    assert(tok@.take(tok@.len() as int) =~= tok@);
    Ok(string_of(low.as_slice()))
}

/// The lower-case hex of the whole digest of `data`.
pub open spec fn sha256_hex_spec(data: Seq<u8>) -> Seq<char> {
    hex_lower(sha256_digest(data))
}

fn hex_of(b: &[u8]) -> (r: Vec<char>)
    ensures
        r@ == hex_lower(b@),
{
    let mut out: Vec<char> = Vec::new();
    let mut i: usize = 0;
    while i < b.len()
        invariant
            0 <= i <= b.len(),
            out@ == hex_lower(b@.take(i as int)),
        decreases b.len() - i,
    {
        let x = b[i];
        assert(x >> 4u8 < 16 && x & 0x0fu8 < 16) by (bit_vector);
        let hi = x >> 4u8;
        let lo = x & 0x0fu8;
        out.push(if hi < 10 { (0x30u8 + hi) as char } else { (0x61u8 + hi - 10) as char });
        out.push(if lo < 10 { (0x30u8 + lo) as char } else { (0x61u8 + lo - 10) as char });
        proof {
            let t = b@.take(i + 1);
            assert(t.drop_last() =~= b@.take(i as int));
            assert(t.last() == x);
            assert(out@ =~= hex_lower(t));
        }
        i = i + 1;
    }
    assert(b@.take(b@.len() as int) =~= b@);
    out
}

/// Whether `data` hashes to `expected_hex`, compared case-insensitively.
pub open spec fn sha256_matches(data: Seq<u8>, expected_hex: Seq<char>) -> bool {
    sha256_hex_spec(data) == lower_token(expected_hex)
}

/// Checks `data` against a hex SHA-256 digest (case-insensitive). On a
/// mismatch the error names `label`, the expected and the actual digest.
pub fn verify_sha256_bytes(data: &[u8], expected_hex: &str, label: &str) -> (r: Result<(), Error>)
    ensures
        r is Ok <==> sha256_matches(data@, expected_hex@),
        r matches Err(e) ==> error_message(e) == "sha256 mismatch for "@ + label@ + ": expected "@
            + expected_hex@ + ", got "@ + sha256_hex_spec(data@),
{
    let digest = sha256(data);
    let actual = hex_of(digest.as_slice());
    let exp = chars_of(expected_hex);
    let mut low: Vec<char> = Vec::new();
    let mut j: usize = 0;
    while j < exp.len()
        invariant
            0 <= j <= exp.len(),
            low@ == lower_token(exp@.take(j as int)),
        decreases exp.len() - j,
    {
        let c = exp[j];
        let l = if 'A' <= c && c <= 'Z' { ((c as u8) + 32) as char } else { c };
        low.push(l);
        j = j + 1;
        assert(low@ =~= lower_token(exp@.take(j as int)));
    }
    assert(exp@.take(exp@.len() as int) =~= exp@);
    if crate::text::chars_eq(actual.as_slice(), low.as_slice()) {
        Ok(())
    } else {
        let mut m: Vec<char> = Vec::new();
        push_str(&mut m, "sha256 mismatch for ");
        push_str(&mut m, label);
        push_str(&mut m, ": expected ");
        push_str(&mut m, expected_hex);
        push_str(&mut m, ", got ");
        push_all(&mut m, actual.as_slice());
        Err(Error::Cli(string_of(m.as_slice())))
    }
}

/// The error a failed sidecar fetch turns into.
pub fn sidecar_fetch_error(e: Error) -> (r: Error)
    ensures
        error_message(r) == "fetching sha256 sidecar: "@ + error_message(e),
{
    match e {
        Error::Cli(msg) => {
            let mut m = String::from_str("fetching sha256 sidecar: ");
            m.append(msg.as_str());
            Error::Cli(m)
        },
    }
}

/// The verification step of a download: parses the sidecar text and
/// checks the downloaded bytes against it; a mismatch names `label`, the
/// expected and the actual digest.
pub fn download_with_verify(sidecar_text: &str, archive: &[u8], label: &str) -> (r: Result<(), Error>)
    ensures
        match parse_sha256_spec(sidecar_text@) {
            Err(m) => r matches Err(e) && error_message(e) == m,
            Ok(h) => {
                &&& (r is Ok <==> sha256_hex_spec(archive@) == lower_token(h))
                &&& (r matches Err(e) ==> error_message(e) == "sha256 mismatch for "@ + label@
                    + ": expected "@ + h + ", got "@ + sha256_hex_spec(archive@))
            },
        },
{
    let expected = parse_sha256_line(sidecar_text)?;
    verify_sha256_bytes(archive, expected.as_str(), label)
}

/// The two archive formats templates ship as.
#[derive(Copy, Clone, Debug, PartialEq, Eq, Structural)]
pub enum ArchiveKind {
    TarGz,
    Zip,
}

/// The archive kind a file name's extension announces.
pub open spec fn detect_spec(name: Seq<char>) -> Option<ArchiveKind> {
    if is_suffix(".tar.gz"@, name) || is_suffix(".tgz"@, name) {
        Some(ArchiveKind::TarGz)
    } else if is_suffix(".zip"@, name) {
        Some(ArchiveKind::Zip)
    } else {
        None
    }
}

impl ArchiveKind {
    /// Detects tar.gz (`.tar.gz`, `.tgz`) or zip (`.zip`) from a file
    /// name; any other extension is an error naming `path`.
    pub fn detect(file_name: &str, path: &str) -> (r: Result<ArchiveKind, Error>)
        ensures
            match detect_spec(file_name@) {
                Some(k) => r == Ok::<ArchiveKind, Error>(k),
                None => r matches Err(e) && error_message(e)
                    == "unsupported archive extension (want .tar.gz, .tgz, or .zip): "@ + path@,
            },
    {
        let n = chars_of(file_name);
        let tgz = chars_of(".tar.gz");
        let tgz2 = chars_of(".tgz");
        let zip = chars_of(".zip");
        if ends_with(n.as_slice(), tgz.as_slice()) || ends_with(n.as_slice(), tgz2.as_slice()) {
            Ok(ArchiveKind::TarGz)
        } else if ends_with(n.as_slice(), zip.as_slice()) {
            Ok(ArchiveKind::Zip)
        } else {
            let mut m = String::from_str("unsupported archive extension (want .tar.gz, .tgz, or .zip): ");
            m.append(path);
            Err(Error::Cli(m))
        }
    }
}

/// The runtime files found in an extracted template.
#[derive(Debug)]
pub enum Runtime {
    /// Native target: one executable to fuse a bundle onto.
    Native { exe: String },
    /// Web target: separate runtime files written next to the bundle.
    Web { js: String, wasm: String, html: String },
}

/// The runtime file names a target's template must hold, in the order
/// they are looked up.
pub open spec fn runtime_files_spec(t: Target) -> Seq<Seq<char>> {
    match t {
        Target::Linux | Target::Macos => seq!["usagi"@],
        Target::Windows => seq!["usagi.exe"@],
        Target::Wasm => seq!["usagi.js"@, "usagi.wasm"@, "shell.html"@],
    }
}

/// The runtime file names to locate in a target's template.
pub fn runtime_files(t: Target) -> (r: Vec<&'static str>)
    ensures
        r@.len() == runtime_files_spec(t).len(),
        forall|i: int| 0 <= i < r@.len() ==> (#[trigger] r@[i])@ == runtime_files_spec(t)[i],
{
    match t {
        Target::Linux | Target::Macos => vec!["usagi"],
        Target::Windows => vec!["usagi.exe"],
        Target::Wasm => vec!["usagi.js", "usagi.wasm", "shell.html"],
    }
}

/// Whatever the version, the archive a target's template is downloaded
/// to is extracted as the format the target ships in: zip for Windows,
/// tar.gz for the others.
pub proof fn lemma_archive_file_kind(version: Seq<char>, t: Target)
    ensures
        detect_spec(archive_file_name_spec(version, t))
            == Some(if t == Target::Windows { ArchiveKind::Zip } else { ArchiveKind::TarGz }),
{
    reveal_strlit(".");
    reveal_strlit("zip");
    reveal_strlit("tar.gz");
    reveal_strlit(".tar.gz");
    reveal_strlit(".tgz");
    reveal_strlit(".zip");
    let n = archive_file_name_spec(version, t);
    let head = "usagi-"@ + version + "-"@ + target_platform(t);
    assert(n == head + "."@ + target_archive_ext(t));
    if t == Target::Windows {
        assert(n.subrange(n.len() - 4, n.len() as int) =~= ".zip"@);
        assert(n.last() == 'p');
        assert(!is_suffix(".tar.gz"@, n)) by {
            if is_suffix(".tar.gz"@, n) {
                assert(n.subrange(n.len() - 7, n.len() as int)[6] == n.last());
            }
        }
        assert(!is_suffix(".tgz"@, n)) by {
            if is_suffix(".tgz"@, n) {
                assert(n.subrange(n.len() - 4, n.len() as int)[3] == n.last());
            }
        }
    } else {
        assert(n.subrange(n.len() - 7, n.len() as int) =~= ".tar.gz"@);
    }
}

} // verus!
