//! What the virtual filesystem decides without touching a disk: which Lua
//! files are type stubs, how `require` names map to files, which bundle
//! entries are sound effects and music, and where a project's assets live.

use vstd::prelude::*;
use crate::bundle::{Bundle, Entry};
use crate::save::has_dot_dot;
use crate::text::{
    chars_of, string_of, str_from_utf8, starts_with, ends_with, contains_char, sub_chars,
    push_str, is_prefix, is_suffix,
};
use vstd::utf8::{valid_utf8, decode_utf8};
use std::collections::HashMap;
use std::time::SystemTime;

verus! {

/// `c` is white space in the sense of `char::is_whitespace` (the Unicode
/// `White_Space` property).
pub open spec fn is_unicode_ws(c: char) -> bool {
    ('\u{9}' <= c <= '\u{d}') || c == ' ' || c == '\u{85}' || c == '\u{a0}' || c == '\u{1680}'
        || ('\u{2000}' <= c <= '\u{200a}') || c == '\u{2028}' || c == '\u{2029}' || c == '\u{202f}'
        || c == '\u{205f}' || c == '\u{3000}'
}

pub(crate) fn is_unicode_ws_exec(c: char) -> (r: bool)
    ensures
        r == is_unicode_ws(c),
{
    ('\u{9}' <= c && c <= '\u{d}') || c == ' ' || c == '\u{85}' || c == '\u{a0}' || c == '\u{1680}'
        || ('\u{2000}' <= c && c <= '\u{200a}') || c == '\u{2028}' || c == '\u{2029}' || c == '\u{202f}'
        || c == '\u{205f}' || c == '\u{3000}'
}

/// The first position at or after `i` that is not white space.
pub open spec fn first_non_ws(s: Seq<char>, i: int) -> int
    decreases s.len() - i,
{
    if 0 <= i < s.len() && is_unicode_ws(s[i]) {
        first_non_ws(s, i + 1)
    } else {
        i
    }
}

/// The marker that lua-language-server stub files start with.
pub open spec fn meta_marker() -> Seq<char> {
    "---@meta"@
}

/// The first 256 bytes of `b` (or all of it).
pub open spec fn meta_head(b: Seq<u8>) -> Seq<u8> {
    if b.len() <= 256 { b } else { b.subrange(0, 256) }
}

/// The bytes of the first 256 that are decoded: all of them when they
/// are UTF-8; when the cut at 256 falls inside a character (at most three
/// bytes of it are before the cut), the bytes before that character;
/// `None` when the bytes are not UTF-8 otherwise.
pub open spec fn meta_text_bytes(b: Seq<u8>) -> Option<Seq<u8>> {
    let h = meta_head(b);
    if valid_utf8(h) {
        Some(h)
    } else if b.len() <= 256 {
        None
    } else if valid_utf8(h.take(255)) {
        Some(h.take(255))
    } else if valid_utf8(h.take(254)) {
        Some(h.take(254))
    } else if valid_utf8(h.take(253)) {
        Some(h.take(253))
    } else {
        None
    }
}

/// A Lua file is a type-stub file when its first non-blank line starts
/// (after leading white space) with `---@meta`, looking at the text of
/// its first 256 bytes only. Since the marker holds no line break, that
/// is: the text from its first non-white-space character starts with the
/// marker.
pub open spec fn is_meta_spec(b: Seq<u8>) -> bool {
    match meta_text_bytes(b) {
        None => false,
        Some(bytes) => {
            let text = decode_utf8(bytes);
            let k = first_non_ws(text, 0);
            k < text.len() && is_prefix(meta_marker(), text.subrange(k, text.len() as int))
        },
    }
}

fn decode_chars(b: &[u8]) -> (r: Option<Vec<char>>)
    ensures
        r is Some == valid_utf8(b@),
        r matches Some(v) ==> v@ == decode_utf8(b@),
{
    match str_from_utf8(b) {
        Some(t) => Some(chars_of(t)),
        None => None,
    }
}

/// True when a `.lua` file is a type-stub file (`---@meta` on its first
/// non-blank line). Such files are neither bundled nor loadable by
/// `require`.
pub fn is_meta_chunk(bytes: &[u8]) -> (r: bool)
    ensures
        r == is_meta_spec(bytes@),
{
    let n = if bytes.len() <= 256 { bytes.len() } else { 256 };
    let mut head: Vec<u8> = Vec::new();
    let mut i: usize = 0;
    while i < n
        invariant
            n <= bytes.len(),
            n == (if bytes.len() <= 256 { bytes.len() } else { 256 }),
            0 <= i <= n,
            head@ == bytes@.subrange(0, i as int),
        decreases n - i,
    {
        head.push(bytes[i]);
        i = i + 1;
        assert(head@ =~= bytes@.subrange(0, i as int));
    }
    assert(head@ =~= meta_head(bytes@));
    let ghost h = head@;
    let mut decoded = decode_chars(head.as_slice());
    if decoded.is_none() && bytes.len() > 256 {
        head.truncate(255);
        assert(head@ =~= h.take(255));
        decoded = decode_chars(head.as_slice());
        if decoded.is_none() {
            head.truncate(254);
            assert(head@ =~= h.take(254));
            decoded = decode_chars(head.as_slice());
            if decoded.is_none() {
                head.truncate(253);
                assert(head@ =~= h.take(253));
                decoded = decode_chars(head.as_slice());
            }
        }
    }
    let cs = match decoded {
        Some(v) => v,
        None => return false,
    };
    assert(meta_text_bytes(bytes@) == Some(head@));
    let mut k: usize = 0;
    while k < cs.len() && is_unicode_ws_exec(cs[k])
        invariant
            0 <= k <= cs.len(),
            first_non_ws(cs@, k as int) == first_non_ws(cs@, 0),
        decreases cs.len() - k,
    {
        k = k + 1;
    }
    if k >= cs.len() {
        return false;
    }
    let rest = sub_chars(cs.as_slice(), k, cs.len());
    let marker = chars_of("---@meta");
    starts_with(rest.as_slice(), marker.as_slice())
}

/// The file extensions accepted in `music/`, lower-case.
pub open spec fn is_music_ext_spec(ext: Seq<char>) -> bool {
    ext == "ogg"@ || ext == "mp3"@ || ext == "wav"@ || ext == "flac"@
}

/// True for `ogg`, `mp3`, `wav` and `flac`.
pub fn is_music_ext(ext: &str) -> (r: bool)
    ensures
        r == is_music_ext_spec(ext@),
{
    let e = chars_of(ext);
    let a = chars_of("ogg");
    let b = chars_of("mp3");
    let c = chars_of("wav");
    let d = chars_of("flac");
    crate::text::chars_eq(e.as_slice(), a.as_slice()) || crate::text::chars_eq(e.as_slice(), b.as_slice())
        || crate::text::chars_eq(e.as_slice(), c.as_slice()) || crate::text::chars_eq(e.as_slice(), d.as_slice())
}

/// A `require` name that may resolve to a file: non-empty, without path
/// separators, and without empty `.`-separated segments (so no leading or
/// trailing dot and no `..`).
pub open spec fn module_name_ok(name: Seq<char>) -> bool {
    &&& name.len() > 0
    &&& !name.contains('/')
    &&& !name.contains('\\')
    &&& name[0] != '.'
    &&& name.last() != '.'
    &&& !has_dot_dot(name)
}

/// The module name with every `.` replaced by `/`.
pub open spec fn module_rel(name: Seq<char>) -> Seq<char> {
    name.map_values(|c: char| if c == '.' { '/' } else { c })
}

/// The relative paths a module name resolves to, in the order tried.
pub open spec fn module_candidates_spec(name: Seq<char>) -> Option<Seq<Seq<char>>> {
    if module_name_ok(name) {
        Some(seq![module_rel(name) + ".lua"@, module_rel(name) + "/init.lua"@])
    } else {
        None
    }
}

/// Turns a dotted Lua module name into the relative paths to try:
/// `a.b` gives `a/b.lua` then `a/b/init.lua`. Names that could escape the
/// project root or have empty segments give `None`.
pub fn module_candidates(name: &str) -> (r: Option<Vec<String>>)
    ensures
        r is Some <==> module_name_ok(name@),
        r matches Some(v) ==> v@.len() == 2 && v@[0]@ == module_candidates_spec(name@)->0[0]
            && v@[1]@ == module_candidates_spec(name@)->0[1],
{
    let cs = chars_of(name);
    if cs.len() == 0 {
        return None;
    }
    if contains_char(cs.as_slice(), '/') || contains_char(cs.as_slice(), '\\') {
        return None;
    }
    let mut rel: Vec<char> = Vec::new();
    let mut i: usize = 0;
    while i < cs.len()
        invariant
            cs@ == name@,
            0 <= i <= cs.len(),
            rel@ == cs@.take(i as int).map_values(|c: char| if c == '.' { '/' } else { c }),
            forall|k: int| 0 <= k && k + 1 < i ==> !(#[trigger] cs@[k] == '.' && cs@[k + 1] == '.'),
            forall|k: int| 0 <= k < i && k + 1 == cs@.len() ==> #[trigger] cs@[k] != '.',
            i > 0 ==> cs@[0] != '.',
            cs@.len() > 0,
            !cs@.contains('/'),
            !cs@.contains('\\'),
        decreases cs.len() - i,
    {
        let c = cs[i];
        if c == '.' && (i == 0 || i + 1 == cs.len() || cs[i - 1] == '.') {
            proof {
                if i > 0 && i + 1 < cs.len() {
                    assert(cs@[i - 1] == '.' && cs@[i as int] == '.');
                }
            }
            return None;
        }
        rel.push(if c == '.' { '/' } else { c });
        i = i + 1;
        assert(rel@ =~= cs@.take(i as int).map_values(|c: char| if c == '.' { '/' } else { c }));
    }
    assert(cs@.take(cs.len() as int) =~= cs@);
    proof {
        if has_dot_dot(cs@) {
            let k = choose|k: int| 0 <= k && k + 1 < cs@.len() && #[trigger] cs@[k] == '.' && cs@[k + 1] == '.';
        }
        if cs@.last() == '.' {
            assert(cs@[cs@.len() - 1] == '.');
        }
    }
    let mut a = rel.clone();
    push_str(&mut a, ".lua");
    let mut b = rel.clone();
    push_str(&mut b, "/init.lua");
    assert(rel@ == module_rel(name@));
    let mut out: Vec<String> = Vec::new();
    out.push(string_of(a.as_slice()));
    out.push(string_of(b.as_slice()));
    assert(module_name_ok(name@));
    Some(out)
}

/// A module name that passes the check maps to a relative path that
/// stays inside the project: it is not empty, does not start or end with
/// `/`, has no empty segment, and holds neither `.` nor `\\`, so no
/// segment is `.` or `..`.
pub proof fn lemma_module_rel_stays_inside(name: Seq<char>)
    requires
        module_name_ok(name),
    ensures
        module_rel(name).len() > 0,
        module_rel(name)[0] != '/',
        module_rel(name).last() != '/',
        !module_rel(name).contains('.'),
        !module_rel(name).contains('\\'),
        forall|k: int| 0 <= k && k + 1 < module_rel(name).len()
            ==> !(#[trigger] module_rel(name)[k] == '/' && module_rel(name)[k + 1] == '/'),
{
    let rel = module_rel(name);
    assert(rel[0] == name[0]);
    assert(rel.last() == rel[rel.len() - 1]);
    assert(name.last() == name[name.len() - 1]);
    assert(!rel.contains('.')) by {
        if rel.contains('.') {
            let k = choose|k: int| 0 <= k < rel.len() && rel[k] == '.';
            assert(rel[k] == (if name[k] == '.' { '/' } else { name[k] }));
        }
    }
    assert(!rel.contains('\\')) by {
        if rel.contains('\\') {
            let k = choose|k: int| 0 <= k < rel.len() && rel[k] == '\\';
            assert(rel[k] == (if name[k] == '.' { '/' } else { name[k] }));
            assert(name[k] == '\\');
        }
    }
    assert forall|k: int| 0 <= k && k + 1 < rel.len() implies !(#[trigger] rel[k] == '/' && rel[k + 1] == '/') by {
        if rel[k] == '/' && rel[k + 1] == '/' {
            assert(rel[k] == (if name[k] == '.' { '/' } else { name[k] }));
            assert(rel[k + 1] == (if name[k + 1] == '.' { '/' } else { name[k + 1] }));
            assert(name[k] != '/' && name[k + 1] != '/');
            assert(name[k] == '.' && name[k + 1] == '.');
            assert(has_dot_dot(name));
        }
    }
}

/// The sound-effect stem a bundle entry name stands for: `sfx/<stem>.wav`.
pub open spec fn sfx_stem_of(n: Seq<char>) -> Option<Seq<char>> {
    let p = "sfx/"@;
    let x = ".wav"@;
    if is_prefix(p, n) && is_suffix(x, n.subrange(p.len() as int, n.len() as int)) {
        Some(n.subrange(p.len() as int, n.len() - x.len()))
    } else {
        None
    }
}

/// The sound-effect stems of a list of names, in order.
pub open spec fn sfx_stems_of(names: Seq<Seq<char>>) -> Seq<Seq<char>>
    decreases names.len(),
{
    if names.len() == 0 {
        Seq::empty()
    } else {
        let rest = sfx_stems_of(names.drop_last());
        match sfx_stem_of(names.last()) {
            Some(x) => rest.push(x),
            None => rest,
        }
    }
}

/// The names of a list of entries.
pub open spec fn entry_names(s: Seq<Entry>) -> Seq<Seq<char>> {
    s.map_values(|e: Entry| e.0)
}

/// The position of the last `c` in `s`.
pub open spec fn last_index_of(s: Seq<char>, c: char) -> Option<int>
    decreases s.len(),
{
    if s.len() == 0 {
        None
    } else if s.last() == c {
        Some(s.len() - 1)
    } else {
        last_index_of(s.drop_last(), c)
    }
}

/// The ASCII lower-case form of a string.
pub open spec fn ascii_lower_str(s: Seq<char>) -> Seq<char> {
    s.map_values(|c: char| crate::game_id::ascii_lower(c))
}

/// The `(stem, extension)` a bundle entry name stands for as music:
/// `music/<stem>.<ext>` split at the last dot, with the extension
/// lower-cased and one of the accepted music extensions.
pub open spec fn music_entry_of(n: Seq<char>) -> Option<(Seq<char>, Seq<char>)> {
    let p = "music/"@;
    if !is_prefix(p, n) {
        None
    } else {
        let rel = n.subrange(p.len() as int, n.len() as int);
        match last_index_of(rel, '.') {
            None => None,
            Some(dot) => {
                let ext = ascii_lower_str(rel.subrange(dot + 1, rel.len() as int));
                if is_music_ext_spec(ext) {
                    Some((rel.subrange(0, dot), ext))
                } else {
                    None
                }
            },
        }
    }
}

/// The music entries of a list of names, in order.
pub open spec fn music_entries_of(names: Seq<Seq<char>>) -> Seq<(Seq<char>, Seq<char>)>
    decreases names.len(),
{
    if names.len() == 0 {
        Seq::empty()
    } else {
        let rest = music_entries_of(names.drop_last());
        match music_entry_of(names.last()) {
            Some(x) => rest.push(x),
            None => rest,
        }
    }
}

pub proof fn lemma_last_index_of_all(s: Seq<char>, c: char)
    ensures
        last_index_of(s, c) matches Some(i) ==> 0 <= i < s.len() && s[i] == c
            && forall|k: int| i < k < s.len() ==> #[trigger] s[k] != c,
        last_index_of(s, c) is None ==> forall|k: int| 0 <= k < s.len() ==> #[trigger] s[k] != c,
    decreases s.len(),
{
    if s.len() > 0 && s.last() != c {
        lemma_last_index_of_all(s.drop_last(), c);
        assert forall|k: int| 0 <= k < s.len() - 1 implies #[trigger] s[k] == s.drop_last()[k] by {}
    }
}

fn sfx_stem(n: &str) -> (r: Option<String>)
    ensures
        r is Some <==> sfx_stem_of(n@) is Some,
        r matches Some(v) ==> v@ == sfx_stem_of(n@)->0,
{
    let cs = chars_of(n);
    let p = chars_of("sfx/");
    let x = chars_of(".wav");
    if !starts_with(cs.as_slice(), p.as_slice()) {
        return None;
    }
    let rest = sub_chars(cs.as_slice(), p.len(), cs.len());
    if !ends_with(rest.as_slice(), x.as_slice()) {
        return None;
    }
    let stem = sub_chars(cs.as_slice(), p.len(), cs.len() - x.len());
    Some(string_of(stem.as_slice()))
}

fn music_entry(n: &str) -> (r: Option<(String, String)>)
    ensures
        r is Some <==> music_entry_of(n@) is Some,
        r matches Some(v) ==> v.0@ == (music_entry_of(n@)->0).0 && v.1@ == (music_entry_of(n@)->0).1,
{
    let cs = chars_of(n);
    let p = chars_of("music/");
    if !starts_with(cs.as_slice(), p.as_slice()) {
        return None;
    }
    let rel = sub_chars(cs.as_slice(), p.len(), cs.len());
    let mut k: usize = rel.len();
    proof { lemma_last_index_of_all(rel@, '.'); }
    assert(rel@.subrange(0, rel@.len() as int) =~= rel@);
    while k > 0 && rel[k - 1] != '.'
        invariant
            0 <= k <= rel.len(),
            last_index_of(rel@.subrange(0, k as int), '.') == last_index_of(rel@, '.'),
        decreases k,
    {
        assert(rel@.subrange(0, k as int).drop_last() =~= rel@.subrange(0, k - 1));
        k = k - 1;
    }
    if k == 0 {
        return None;
    }
    let dot = k - 1;
    assert(rel@.subrange(0, k as int).last() == '.');
    let mut ext: Vec<char> = Vec::new();
    let mut i = dot + 1;
    while i < rel.len()
        invariant
            dot + 1 <= i <= rel.len(),
            ext@ == ascii_lower_str(rel@.subrange(dot + 1, i as int)),
        decreases rel.len() - i,
    {
        let c = rel[i];
        let l = if 'A' <= c && c <= 'Z' { ((c as u8) + 32) as char } else { c };
        ext.push(l);
        i = i + 1;
        assert(ext@ =~= ascii_lower_str(rel@.subrange(dot + 1, i as int)));
    }
    let ext_s = string_of(ext.as_slice());
    if !is_music_ext(ext_s.as_str()) {
        return None;
    }
    let stem = sub_chars(rel.as_slice(), 0, dot);
    Some((string_of(stem.as_slice()), ext_s))
}

fn get_vec(bundle: &Bundle, name: &str) -> (r: Option<Vec<u8>>)
    ensures
        r is Some <==> bundle@.contains_key(name@),
        r matches Some(d) ==> d@ == bundle@[name@],
{
    match bundle.get(name) {
        Some(d) => Some(vstd::slice::slice_to_vec(d)),
        None => None,
    }
}

/// Trusted declaration of `std::time::SystemTime`, the time a file was
/// last modified as the operating system reports it. The type is opaque:
/// nothing is claimed of its values.
#[verifier::external_type_specification]
#[verifier::external_body]
pub struct ExSystemTime(SystemTime);

/// Read access to a game's script and assets, wherever they live: a
/// project directory on disk or an in-memory bundle.
pub trait VirtualFs {
    /// A name for the script used in Lua stack traces and error messages.
    fn script_name(&self) -> String;

    /// The main script's bytes.
    fn read_script(&self) -> Option<Vec<u8>>;

    /// When the main script last changed, where that is known.
    fn script_mtime(&self) -> Option<SystemTime>;

    /// The sprite sheet's bytes.
    fn read_sprites(&self) -> Option<Vec<u8>>;

    /// When the sprite sheet last changed, where that is known.
    fn sprites_mtime(&self) -> Option<SystemTime>;

    /// The stems of the sound effects.
    fn sfx_stems(&self) -> Vec<String>;

    /// The bytes of the sound effect `stem`.
    fn read_sfx(&self, stem: &str) -> Option<Vec<u8>>;

    /// When each sound effect last changed, by stem.
    fn sfx_manifest(&self) -> HashMap<String, SystemTime>;

    /// `(stem, ext)` for every recognized music file; `ext` is lower case
    /// and without the dot.
    fn music_entries(&self) -> Vec<(String, String)>;

    /// The bytes of the music file `stem.ext`.
    fn read_music(&self, stem: &str, ext: &str) -> Option<Vec<u8>>;

    /// When each music file last changed, by stem.
    fn music_manifest(&self) -> HashMap<String, SystemTime>;

    /// Resolves a Lua module name (`enemies`, `world.tiles`) to its bytes
    /// and chunk name, trying `name.lua` and then `name/init.lua`.
    fn read_module(&self, mod_name: &str) -> Option<(Vec<u8>, String)>;

    /// When the file `read_module` would read last changed; `None` when
    /// the module does not resolve or the source keeps no times.
    fn module_mtime(&self, mod_name: &str) -> (r: Option<SystemTime>)
        default_ensures
            r is None,
    {
        None
    }

    /// Whether reload checks are meaningful for this source.
    fn supports_reload(&self) -> bool;
}

/// A virtual filesystem that reads everything from an in-memory bundle
/// (a fused or `.usagi` game). It never reloads.
pub struct BundleBacked {
    bundle: Bundle,
}

impl BundleBacked {
    /// The wrapped bundle is well formed.
    #[verifier::type_invariant]
    closed spec fn inv(self) -> bool {
        self.bundle.wf()
    }

    /// The bundle's files, by name.
    pub closed spec fn view(&self) -> Map<Seq<char>, Seq<u8>> {
        self.bundle@
    }

    /// The bundle's entries, in name order.
    pub closed spec fn entries(&self) -> Seq<Entry> {
        self.bundle.entries()
    }

    /// Wraps a bundle.
    pub fn new(bundle: Bundle) -> (r: BundleBacked)
        ensures
            r@ == bundle@,
            r.entries() == bundle.entries(),
    {
        proof { use_type_invariant(&bundle); }
        BundleBacked { bundle }
    }

}

impl VirtualFs for BundleBacked {
    /// The chunk name of the main script.
    fn script_name(&self) -> (r: String)
        ensures
            r@ == "main.lua"@,
    {
        String::from_str("main.lua")
    }

    /// The main script, stored as `main.lua`.
    fn read_script(&self) -> (r: Option<Vec<u8>>)
        ensures
            r is Some <==> self@.contains_key("main.lua"@),
            r matches Some(d) ==> d@ == self@["main.lua"@],
    {
        proof { use_type_invariant(self); }
        get_vec(&self.bundle, "main.lua")
    }

    /// The sprite sheet, stored as `sprites.png`.
    fn read_sprites(&self) -> (r: Option<Vec<u8>>)
        ensures
            r is Some <==> self@.contains_key("sprites.png"@),
            r matches Some(d) ==> d@ == self@["sprites.png"@],
    {
        proof { use_type_invariant(self); }
        get_vec(&self.bundle, "sprites.png")
    }

    /// The stems of the `sfx/<stem>.wav` entries, in name order.
    fn sfx_stems(&self) -> (r: Vec<String>)
        ensures
            r@.len() == sfx_stems_of(entry_names(self.entries())).len(),
            forall|i: int| 0 <= i < r@.len() ==> (#[trigger] r@[i])@ == sfx_stems_of(entry_names(self.entries()))[i],
    {
        proof { use_type_invariant(self); }
        let names = self.bundle.names();
        let ghost ns = entry_names(self.entries());
        assert(names@.len() == ns.len());
        let mut out: Vec<String> = Vec::new();
        let mut i: usize = 0;
        while i < names.len()
            invariant
                names@.len() == ns.len(),
                forall|j: int| 0 <= j < names@.len() ==> (#[trigger] names@[j])@ == ns[j],
                0 <= i <= names.len(),
                out@.len() == sfx_stems_of(ns.take(i as int)).len(),
                forall|j: int| 0 <= j < out@.len() ==> (#[trigger] out@[j])@ == sfx_stems_of(ns.take(i as int))[j],
            decreases names.len() - i,
        {
            let ghost t = ns.take(i + 1);
            assert(t.drop_last() =~= ns.take(i as int));
            assert(t.last() == names@[i as int]@);
            match sfx_stem(names[i].as_str()) {
                Some(x) => {
                    out.push(x);
                },
                None => {},
            }
            i = i + 1;
        }
        assert(ns.take(names.len() as int) =~= ns);
        out
    }

    /// The contents of `sfx/<stem>.wav`.
    fn read_sfx(&self, stem: &str) -> (r: Option<Vec<u8>>)
        ensures
            r is Some <==> self@.contains_key("sfx/"@ + stem@ + ".wav"@),
            r matches Some(d) ==> d@ == self@["sfx/"@ + stem@ + ".wav"@],
    {
        proof { use_type_invariant(self); }
        let mut name = String::from_str("sfx/");
        name.append(stem);
        name.append(".wav");
        get_vec(&self.bundle, name.as_str())
    }

    /// `(stem, extension)` for every `music/` entry with an accepted
    /// extension, in name order; the extension is lower-cased.
    fn music_entries(&self) -> (r: Vec<(String, String)>)
        ensures
            r@.len() == music_entries_of(entry_names(self.entries())).len(),
            forall|i: int| 0 <= i < r@.len() ==> (#[trigger] r@[i]).0@ == music_entries_of(entry_names(self.entries()))[i].0
                && r@[i].1@ == music_entries_of(entry_names(self.entries()))[i].1,
    {
        proof { use_type_invariant(self); }
        let names = self.bundle.names();
        let ghost ns = entry_names(self.entries());
        let mut out: Vec<(String, String)> = Vec::new();
        let mut i: usize = 0;
        while i < names.len()
            invariant
                names@.len() == ns.len(),
                forall|j: int| 0 <= j < names@.len() ==> (#[trigger] names@[j])@ == ns[j],
                0 <= i <= names.len(),
                out@.len() == music_entries_of(ns.take(i as int)).len(),
                forall|j: int| 0 <= j < out@.len() ==> (#[trigger] out@[j]).0@ == music_entries_of(ns.take(i as int))[j].0
                    && out@[j].1@ == music_entries_of(ns.take(i as int))[j].1,
            decreases names.len() - i,
        {
            let ghost t = ns.take(i + 1);
            assert(t.drop_last() =~= ns.take(i as int));
            assert(t.last() == names@[i as int]@);
            match music_entry(names[i].as_str()) {
                Some(x) => {
                    out.push(x);
                },
                None => {},
            }
            i = i + 1;
        }
        assert(ns.take(names.len() as int) =~= ns);
        out
    }

    /// The contents of `music/<stem>.<ext>`.
    fn read_music(&self, stem: &str, ext: &str) -> (r: Option<Vec<u8>>)
        ensures
            r is Some <==> self@.contains_key("music/"@ + stem@ + "."@ + ext@),
            r matches Some(d) ==> d@ == self@["music/"@ + stem@ + "."@ + ext@],
    {
        proof { use_type_invariant(self); }
        let mut name = String::from_str("music/");
        name.append(stem);
        name.append(".");
        name.append(ext);
        get_vec(&self.bundle, name.as_str())
    }

    /// Resolves a `require` name against the bundle: `<rel>.lua`, then
    /// `<rel>/init.lua`. Gives the bytes and the entry name used as the
    /// chunk name.
    fn read_module(&self, mod_name: &str) -> (r: Option<(Vec<u8>, String)>)
        ensures
            match module_candidates_spec(mod_name@) {
                None => r is None,
                Some(c) => if self@.contains_key(c[0]) {
                    r matches Some(v) && v.0@ == self@[c[0]] && v.1@ == c[0]
                } else if self@.contains_key(c[1]) {
                    r matches Some(v) && v.0@ == self@[c[1]] && v.1@ == c[1]
                } else {
                    r is None
                },
            },
    {
        proof { use_type_invariant(self); }
        let cands = match module_candidates(mod_name) {
            Some(c) => c,
            None => return None,
        };
        let a = cands[0].as_str();
        if let Some(d) = get_vec(&self.bundle, a) {
            return Some((d, cands[0].clone()));
        }
        let b = cands[1].as_str();
        if let Some(d) = get_vec(&self.bundle, b) {
            return Some((d, cands[1].clone()));
        }
        None
    }

    /// A bundle keeps no modification times.
    fn script_mtime(&self) -> (r: Option<SystemTime>)
        ensures
            r is None,
    {
        None
    }

    /// A bundle keeps no modification times.
    fn sprites_mtime(&self) -> (r: Option<SystemTime>)
        ensures
            r is None,
    {
        None
    }

    /// A bundle keeps no modification times.
    fn sfx_manifest(&self) -> (r: HashMap<String, SystemTime>)
        ensures
            r@.len() == 0,
    {
        HashMap::new()
    }

    /// A bundle keeps no modification times.
    fn music_manifest(&self) -> (r: HashMap<String, SystemTime>)
        ensures
            r@.len() == 0,
    {
        HashMap::new()
    }

    /// Bundled games never live-reload.
    fn supports_reload(&self) -> (r: bool)
        ensures
            !r,
    {
        false
    }
}

/// A virtual filesystem rooted at a project directory on disk. The
/// library decides where things live; the application reads them.
pub struct FsBacked {
    root: String,
    script_filename: Option<String>,
}

impl FsBacked {
    /// The directory that holds `sprites.png`, `sfx/` and `music/`.
    pub closed spec fn root_view(&self) -> Seq<char> {
        self.root@
    }

    /// The main script's file name inside the root, if any.
    pub closed spec fn script_view(&self) -> Option<Seq<char>> {
        match self.script_filename {
            Some(s) => Some(s@),
            None => None,
        }
    }

    /// The vfs for a game script: rooted at the script's directory (`.`
    /// when the path has no parent), with the script's file name.
    pub fn from_script_path(script_path: &str) -> (r: FsBacked)
        ensures
            r.root_view() == (match crate::paths::parent_spec(script_path@) {
                Some(p) => p,
                None => "."@,
            }),
            r.script_view() == crate::paths::file_name_spec(script_path@),
    {
        let root = match crate::paths::parent(script_path) {
            Some(p) => p,
            None => String::from_str("."),
        };
        let script_filename = crate::paths::file_name(script_path);
        FsBacked { root, script_filename }
    }

    /// The vfs for browsing a project's assets, with no script.
    pub fn from_project_dir(root: String) -> (r: FsBacked)
        ensures
            r.root_view() == root@,
            r.script_view() is None,
    {
        FsBacked { root, script_filename: None }
    }

    /// The root directory.
    pub fn root(&self) -> (r: &str)
        ensures
            r@ == self.root_view(),
    {
        self.root.as_str()
    }

    /// The path of the main script, if there is one.
    pub fn script_path(&self) -> (r: Option<String>)
        ensures
            r is Some <==> self.script_view() is Some,
            r matches Some(p) ==> p@ == crate::paths::join_spec(self.root_view(), self.script_view()->0),
    {
        match &self.script_filename {
            Some(n) => Some(crate::paths::join(self.root.as_str(), n.as_str())),
            None => None,
        }
    }

    /// `<root>/sprites.png`.
    pub fn sprites_path(&self) -> (r: String)
        ensures
            r@ == crate::paths::join_spec(self.root_view(), "sprites.png"@),
    {
        crate::paths::join(self.root.as_str(), "sprites.png")
    }

    /// `<root>/sfx`.
    pub fn sfx_dir(&self) -> (r: String)
        ensures
            r@ == crate::paths::join_spec(self.root_view(), "sfx"@),
    {
        crate::paths::join(self.root.as_str(), "sfx")
    }

    /// `<root>/music`.
    pub fn music_dir(&self) -> (r: String)
        ensures
            r@ == crate::paths::join_spec(self.root_view(), "music"@),
    {
        crate::paths::join(self.root.as_str(), "music")
    }

    /// Files on disk can change, so reload checks are meaningful.
    pub fn supports_reload(&self) -> (r: bool)
        ensures
            r,
    {
        true
    }
}

} // verus!
