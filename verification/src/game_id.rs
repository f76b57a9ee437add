//! Stable identifier for a game project. The same string namespaces save
//! data, the macOS bundle identifier and capture file names.
//!
//! Layered fallback, first match wins:
//!
//! 1. the explicit `_config().game_id`, when `validate_game_id` accepts it;
//! 2. `com.usagiengine.<sanitized name hint>`, when the hint sanitizes to
//!    something;
//! 3. `com.usagiengine.auto<hash>`, from the first eight bytes of the
//!    SHA-256 of the serialized bundle, in lower-case hex;
//! 4. `com.usagiengine.unknown`.

use vstd::prelude::*;
use sha2::{Digest, Sha256};
use crate::bundle::{Bundle, Entry, bundle_bytes};
use crate::save::{game_id_ok, validate_game_id, has_dot_dot};
use crate::text::{chars_of, string_of, chars_eq, push_str};

verus! {

/// The SHA-256 digest of `data`.
pub uninterp spec fn sha256_digest(data: Seq<u8>) -> Seq<u8>;

/// Trusted: calls `sha2::Sha256::digest`. The contract names the digest
/// and states that it is 32 bytes long (the output size of SHA-256).
#[verifier::external_body]
pub(crate) fn sha256(data: &[u8]) -> (r: Vec<u8>)
    ensures
        r@ == sha256_digest(data@),
        r@.len() == 32,
{
    Sha256::digest(data).to_vec()
}

/// The ASCII lower-case form of `c` (other characters are unchanged).
pub open spec fn ascii_lower(c: char) -> char {
    if 'A' <= c <= 'Z' {
        ((c as u32) + 32) as char
    } else {
        c
    }
}

/// `c` is kept by sanitizing: a lower-case ASCII letter, a digit, `-` or `_`.
pub open spec fn is_id_char(c: char) -> bool {
    ('a' <= c <= 'z') || ('0' <= c <= '9') || c == '-' || c == '_'
}

/// `c` is trimmed from the ends of a sanitized name.
pub open spec fn is_separator(c: char) -> bool {
    c == '-' || c == '_'
}

/// One character of a sanitized name: lower-cased, and `-` unless it is
/// an allowed character.
pub open spec fn sanitize_char(c: char) -> char {
    if is_id_char(ascii_lower(c)) { ascii_lower(c) } else { '-' }
}

/// Drops leading separators.
pub open spec fn trim_front(s: Seq<char>) -> Seq<char>
    decreases s.len(),
{
    if s.len() > 0 && is_separator(s[0]) { trim_front(s.drop_first()) } else { s }
}

/// Drops trailing separators.
pub open spec fn trim_back(s: Seq<char>) -> Seq<char>
    decreases s.len(),
{
    if s.len() > 0 && is_separator(s.last()) { trim_back(s.drop_last()) } else { s }
}

/// The sanitized form of a project name: every character mapped by
/// `sanitize_char`, then `-` and `_` trimmed from both ends.
pub open spec fn sanitize_spec(name: Seq<char>) -> Seq<char> {
    trim_back(trim_front(name.map_values(|c: char| sanitize_char(c))))
}

/// The lower-case hex digit for a nibble.
pub open spec fn hex_digit(n: u8) -> char {
    if n < 10 { (0x30 + n) as char } else { (0x61 + n - 10) as char }
}

/// The lower-case hex encoding of `b`, two digits per byte.
pub open spec fn hex_lower(b: Seq<u8>) -> Seq<char>
    decreases b.len(),
{
    if b.len() == 0 {
        Seq::empty()
    } else {
        hex_lower(b.drop_last()) + seq![hex_digit(b.last() >> 4u8), hex_digit(b.last() & 0x0fu8)]
    }
}

/// A lower-case hexadecimal digit.
pub open spec fn is_lower_hex_char(c: char) -> bool {
    ('0' <= c <= '9') || ('a' <= c <= 'f')
}

/// The id derived from a bundle digest.
pub open spec fn auto_id(digest: Seq<u8>) -> Seq<char> {
    "com.usagiengine.auto"@ + hex_lower(digest.take(8))
}

/// The id derived from a name hint, when it sanitizes to something.
pub open spec fn name_id(name: Seq<char>) -> Option<Seq<char>> {
    if sanitize_spec(name).len() == 0 {
        None
    } else {
        Some("com.usagiengine."@ + sanitize_spec(name))
    }
}

/// The layered fallback: explicit id, name hint, bundle hash, sentinel.
pub open spec fn resolve_spec(explicit: Option<Seq<char>>, name_hint: Option<Seq<char>>, bundle: Option<Seq<Entry>>) -> Seq<char> {
    if explicit is Some && game_id_ok(explicit->0) {
        explicit->0
    } else if name_hint is Some && name_id(name_hint->0) is Some {
        name_id(name_hint->0)->0
    } else if bundle is Some {
        auto_id(sha256_digest(bundle_bytes(bundle->0)))
    } else {
        "com.usagiengine.unknown"@
    }
}

/// The view of an optional string.
pub open spec fn opt_view(s: Option<&str>) -> Option<Seq<char>> {
    match s {
        Some(x) => Some(x@),
        None => None,
    }
}

/// The start of the last `.`-separated segment of `s` (0 when there is
/// no dot).
pub open spec fn last_segment_start(s: Seq<char>) -> int
    decreases s.len(),
{
    if s.len() == 0 {
        0
    } else if s.last() == '.' {
        s.len() as int
    } else {
        last_segment_start(s.drop_last())
    }
}

/// The friendly short name of an id: its last `.`-separated segment, or
/// `usagi` when that is empty or `unknown`.
pub open spec fn short_name_spec(id: Seq<char>) -> Seq<char> {
    let last = id.subrange(last_segment_start(id), id.len() as int);
    if last.len() == 0 || last == "unknown"@ { "usagi"@ } else { last }
}

proof fn lemma_last_segment_start(s: Seq<char>)
    ensures
        0 <= last_segment_start(s) <= s.len(),
        forall|k: int| last_segment_start(s) <= k < s.len() ==> #[trigger] s[k] != '.',
    decreases s.len(),
{
    if s.len() > 0 && s.last() != '.' {
        lemma_last_segment_start(s.drop_last());
        assert forall|k: int| last_segment_start(s) <= k < s.len() implies #[trigger] s[k] != '.' by {
            if k < s.len() - 1 {
                assert(s.drop_last()[k] == s[k]);
            }
        }
    }
}

fn hex_nibble(n: u8) -> (c: char)
    requires
        n < 16,
    ensures
        c == hex_digit(n),
{
    if n < 10 { (0x30u8 + n) as char } else { (0x61u8 + n - 10) as char }
}

/// `com.usagiengine.auto` followed by the lower-case hex of the first
/// eight bytes of `digest`.
pub fn auto_id_from_digest(digest: &[u8]) -> (r: String)
    requires
        digest.len() >= 8,
    ensures
        r@ == auto_id(digest@),
{
    let mut out: Vec<char> = Vec::new();
    push_str(&mut out, "com.usagiengine.auto");
    let ghost prefix = out@;
    let mut i: usize = 0;
    while i < 8
        invariant
            digest.len() >= 8,
            0 <= i <= 8,
            out@ == prefix + hex_lower(digest@.take(i as int)),
        decreases 8 - i,
    {
        let b = digest[i];
        assert(b >> 4u8 < 16 && b & 0x0fu8 < 16) by (bit_vector);
        out.push(hex_nibble(b >> 4u8));
        out.push(hex_nibble(b & 0x0fu8));
        proof {
            let t = digest@.take(i + 1);
            assert(t.drop_last() =~= digest@.take(i as int));
            assert(t.last() == b);
            assert(out@ =~= prefix + hex_lower(t));
        }
        i = i + 1;
    }
    string_of(out.as_slice())
}

fn sanitize_char_exec(c: char) -> (r: char)
    ensures
        r == sanitize_char(c),
{
    let lower = if 'A' <= c && c <= 'Z' { ((c as u8) + 32) as char } else { c };
    assert(lower == ascii_lower(c));
    if ('a' <= lower && lower <= 'z') || ('0' <= lower && lower <= '9') || lower == '-' || lower == '_' {
        lower
    } else {
        '-'
    }
}

proof fn lemma_trim_front(s: Seq<char>, i: int)
    requires
        0 <= i <= s.len(),
        forall|k: int| 0 <= k < i ==> is_separator(#[trigger] s[k]),
    ensures
        trim_front(s) == trim_front(s.subrange(i, s.len() as int)),
    decreases i,
{
    if i > 0 {
        lemma_trim_front(s.drop_first(), i - 1);
        assert(s.drop_first().subrange(i - 1, s.len() - 1) =~= s.subrange(i, s.len() as int));
    } else {
        assert(s.subrange(0, s.len() as int) =~= s);
    }
}

proof fn lemma_trim_back(s: Seq<char>, j: int)
    requires
        0 <= j <= s.len(),
        forall|k: int| j <= k < s.len() ==> is_separator(#[trigger] s[k]),
    ensures
        trim_back(s) == trim_back(s.subrange(0, j)),
    decreases s.len() - j,
{
    if j < s.len() {
        lemma_trim_back(s.drop_last(), j);
        assert(s.drop_last().subrange(0, j) =~= s.subrange(0, j));
    } else {
        assert(s.subrange(0, j) =~= s);
    }
}

/// Lower-cases `name` and rewrites every character outside `[a-z0-9-_]`
/// as `-`, then trims leading and trailing `-` and `_`.
pub fn sanitize(name: &str) -> (r: String)
    ensures
        r@ == sanitize_spec(name@),
{
    let cs = chars_of(name);
    let mut mapped: Vec<char> = Vec::new();
    let mut i: usize = 0;
    while i < cs.len()
        invariant
            cs@ == name@,
            0 <= i <= cs.len(),
            mapped@ == cs@.take(i as int).map_values(|c: char| sanitize_char(c)),
        decreases cs.len() - i,
    {
        let c = sanitize_char_exec(cs[i]);
        mapped.push(c);
        i = i + 1;
        assert(mapped@ =~= cs@.take(i as int).map_values(|c: char| sanitize_char(c)));
    }
    assert(cs@.take(cs.len() as int) =~= cs@);
    let m = mapped.as_slice();
    let mut a: usize = 0;
    while a < m.len() && (m[a] == '-' || m[a] == '_')
        invariant
            0 <= a <= m.len(),
            forall|k: int| 0 <= k < a ==> is_separator(#[trigger] m@[k]),
        decreases m.len() - a,
    {
        a = a + 1;
    }
    proof {
        lemma_trim_front(m@, a as int);
    }
    let mut b: usize = m.len();
    while b > a && (m[b - 1] == '-' || m[b - 1] == '_')
        invariant
            a <= b <= m.len(),
            forall|k: int| b <= k < m.len() ==> is_separator(#[trigger] m@[k]),
        decreases b,
    {
        b = b - 1;
    }
    proof {
        let tail = m@.subrange(a as int, m@.len() as int);
        assert(tail.len() == 0 || !is_separator(tail[0]));
        assert(trim_front(tail) == tail);
        lemma_trim_back(tail, b - a);
        assert(tail.subrange(0, b - a) =~= m@.subrange(a as int, b as int));
        let mid = m@.subrange(a as int, b as int);
        assert(mid.len() == 0 || !is_separator(mid.last()));
        assert(trim_back(mid) == mid);
    }
    let v = crate::text::sub_chars(m, a, b);
    string_of(v.as_slice())
}

/// The id for an explicit value, when `validate_game_id` accepts it.
pub fn from_explicit(id: Option<&str>) -> (r: Option<String>)
    ensures
        r is Some <==> (id is Some && game_id_ok(id->0@)),
        r matches Some(v) ==> v@ == id->0@,
{
    match id {
        None => None,
        Some(s) => {
            match validate_game_id(s) {
                Ok(()) => Some(String::from_str(s)),
                Err(_) => None,
            }
        },
    }
}

/// `com.usagiengine.<sanitized name>`, or `None` when the name sanitizes
/// to nothing.
pub fn from_name(name: &str) -> (r: Option<String>)
    ensures
        r is Some <==> name_id(name@) is Some,
        r matches Some(v) ==> v@ == name_id(name@)->0,
{
    let s = sanitize(name);
    if s.as_str().is_empty() {
        None
    } else {
        let mut out = String::from_str("com.usagiengine.");
        out.append(s.as_str());
        Some(out)
    }
}

/// `com.usagiengine.auto<hex>` from the SHA-256 of the serialized bundle.
pub fn from_bundle_hash(bundle: &Bundle) -> (r: String)
    ensures
        r@ == auto_id(sha256_digest(bundle_bytes(bundle.entries()))),
        r@.len() == 36,
        r@.subrange(0, 20) == "com.usagiengine.auto"@,
        forall|k: int| 20 <= k < 36 ==> is_lower_hex_char(#[trigger] r@[k]),
{
    proof { use_type_invariant(bundle); }
    let buf = bundle.serialize();
    let digest = sha256(buf.as_slice());
    let r = auto_id_from_digest(digest.as_slice());
    proof {
        reveal_strlit("com.usagiengine.auto");
        let p = "com.usagiengine.auto"@;
        let h = hex_lower(digest@.take(8));
        lemma_hex_lower_shape(digest@.take(8));
        assert(r@ == p + h);
        assert(r@.subrange(0, 20) =~= p);
        assert forall|k: int| 20 <= k < 36 implies is_lower_hex_char(#[trigger] r@[k]) by {
            assert(r@[k] == h[k - 20]);
        }
    }
    r
}

/// A stable per-game identifier.
pub struct GameId(String);

impl GameId {
    /// The identifier's characters.
    pub closed spec fn view(&self) -> Seq<char> {
        self.0@
    }

    /// Resolves the best available identifier from the inputs the caller
    /// has: the explicit id if valid, else the sanitized name hint, else
    /// the bundle hash, else `com.usagiengine.unknown`.
    pub fn resolve(explicit: Option<&str>, name_hint: Option<&str>, bundle: Option<&Bundle>) -> (r: GameId)
        ensures
            r@ == resolve_spec(opt_view(explicit), opt_view(name_hint),
                match bundle { Some(b) => Some(b.entries()), None => None }),
    {
        if let Some(id) = from_explicit(explicit) {
            return GameId(id);
        }
        if let Some(hint) = name_hint {
            if let Some(id) = from_name(hint) {
                return GameId(id);
            }
        }
        if let Some(b) = bundle {
            return GameId(from_bundle_hash(b));
        }
        GameId(String::from_str("com.usagiengine.unknown"))
    }

    /// Wraps an explicit id without the fallback chain, or `None` when
    /// `validate_game_id` rejects it.
    pub fn try_from_explicit(id: &str) -> (r: Option<GameId>)
        ensures
            r is Some <==> game_id_ok(id@),
            r matches Some(g) ==> g@ == id@,
    {
        match validate_game_id(id) {
            Ok(()) => Some(GameId(String::from_str(id))),
            Err(_) => None,
        }
    }

    /// The raw id string.
    pub fn as_str(&self) -> (r: &str)
        ensures
            r@ == self@,
    {
        self.0.as_str()
    }

    /// The last `.`-separated segment of the id, suitable as a file-name
    /// prefix; `usagi` when that segment is empty or `unknown`.
    pub fn short_name(&self) -> (r: &str)
        ensures
            r@ == short_name_spec(self@),
    {
        let cs = chars_of(self.0.as_str());
        let mut k: usize = cs.len();
        assert(cs@.subrange(0, cs@.len() as int) =~= cs@);
        while k > 0 && cs[k - 1] != '.'
            invariant
                cs@ == self@,
                0 <= k <= cs.len(),
                last_segment_start(cs@.subrange(0, k as int)) == last_segment_start(cs@),
            decreases k,
        {
            assert(cs@.subrange(0, k as int).drop_last() =~= cs@.subrange(0, k - 1));
            k = k - 1;
        }
        proof {
            assert(cs@.subrange(0, cs@.len() as int) =~= cs@);
            if k > 0 {
                assert(cs@.subrange(0, k as int).last() == '.');
            }
        }
        let last = crate::text::sub_chars(cs.as_slice(), k, cs.len());
        let unknown = chars_of("unknown");
        if last.len() == 0 || chars_eq(last.as_slice(), unknown.as_slice()) {
            "usagi"
        } else {
            self.0.as_str().substring_char(k, cs.len())
        }
    }
}

/// Resolves the id for `usagi export` from the explicit `_config().game_id`
/// (if any), the project name and the bundle.
pub fn resolve_for_export(explicit: Option<&str>, name: &str, bundle: &Bundle) -> (r: GameId)
    ensures
        r@ == resolve_spec(opt_view(explicit), Some(name@), Some(bundle.entries())),
{
    GameId::resolve(explicit, Some(name), Some(bundle))
}

proof fn lemma_trim_front_suffix(s: Seq<char>) -> (i: int)
    ensures
        0 <= i <= s.len(),
        trim_front(s) == s.subrange(i, s.len() as int),
        trim_front(s).len() > 0 ==> !is_separator(trim_front(s)[0]),
    decreases s.len(),
{
    if s.len() > 0 && is_separator(s[0]) {
        let j = lemma_trim_front_suffix(s.drop_first());
        assert(s.drop_first().subrange(j, s.len() - 1) =~= s.subrange(j + 1, s.len() as int));
        j + 1
    } else {
        assert(s.subrange(0, s.len() as int) =~= s);
        0
    }
}

proof fn lemma_trim_back_prefix(s: Seq<char>) -> (j: int)
    ensures
        0 <= j <= s.len(),
        trim_back(s) == s.subrange(0, j),
        trim_back(s).len() > 0 ==> !is_separator(trim_back(s).last()),
    decreases s.len(),
{
    if s.len() > 0 && is_separator(s.last()) {
        let j = lemma_trim_back_prefix(s.drop_last());
        assert(s.drop_last().subrange(0, j) =~= s.subrange(0, j));
        j
    } else {
        assert(s.subrange(0, s.len() as int) =~= s);
        s.len() as int
    }
}

/// A sanitized name holds only `[a-z0-9-_]`, and neither starts nor ends
/// with `-` or `_`.
pub proof fn lemma_sanitize_shape(name: Seq<char>)
    ensures
        forall|k: int| 0 <= k < sanitize_spec(name).len() ==> is_id_char(#[trigger] sanitize_spec(name)[k]),
        sanitize_spec(name).len() > 0 ==> !is_separator(sanitize_spec(name)[0]),
        sanitize_spec(name).len() > 0 ==> !is_separator(sanitize_spec(name).last()),
{
    let m = name.map_values(|c: char| sanitize_char(c));
    assert forall|k: int| 0 <= k < m.len() implies is_id_char(#[trigger] m[k]) by {
        assert(m[k] == sanitize_char(name[k]));
    }
    let f = trim_front(m);
    let i = lemma_trim_front_suffix(m);
    let j = lemma_trim_back_prefix(f);
    let r = sanitize_spec(name);
    assert(r == f.subrange(0, j));
    assert forall|k: int| 0 <= k < r.len() implies is_id_char(#[trigger] r[k]) by {
        assert(r[k] == f[k]);
        assert(f[k] == m[k + i]);
    }
    if r.len() > 0 {
        assert(r[0] == f[0]);
    }
}

/// Sanitizing is idempotent: a sanitized name sanitizes to itself.
pub proof fn lemma_sanitize_idempotent(name: Seq<char>)
    ensures
        sanitize_spec(sanitize_spec(name)) == sanitize_spec(name),
{
    let y = sanitize_spec(name);
    lemma_sanitize_shape(name);
    let m = y.map_values(|c: char| sanitize_char(c));
    assert(m =~= y) by {
        assert forall|k: int| 0 <= k < y.len() implies m[k] == y[k] by {
            assert(is_id_char(y[k]));
        }
    }
    assert(trim_front(y) == y);
    assert(trim_back(y) == y);
}

proof fn lemma_no_dot_dot_concat(a: Seq<char>, b: Seq<char>)
    requires
        !has_dot_dot(a),
        !has_dot_dot(b),
        !(a.len() > 0 && b.len() > 0 && a.last() == '.' && b[0] == '.'),
    ensures
        !has_dot_dot(a + b),
{
    let c = a + b;
    if has_dot_dot(c) {
        let i = choose|i: int| 0 <= i && i + 1 < c.len() && #[trigger] c[i] == '.' && c[i + 1] == '.';
        if i + 1 < a.len() {
            assert(a[i] == '.' && a[i + 1] == '.');
        } else if i >= a.len() {
            assert(b[i - a.len()] == '.' && b[i - a.len() + 1] == '.');
        } else {
            assert(a.last() == '.' && b[0] == '.');
        }
    }
}

proof fn lemma_hex_lower_shape(b: Seq<u8>)
    ensures
        hex_lower(b).len() == 2 * b.len(),
        forall|k: int| 0 <= k < hex_lower(b).len() ==> is_lower_hex_char(#[trigger] hex_lower(b)[k]),
    decreases b.len(),
{
    if b.len() > 0 {
        lemma_hex_lower_shape(b.drop_last());
        let x = b.last();
        assert(x >> 4u8 < 16 && x & 0x0fu8 < 16) by (bit_vector);
        let h = hex_lower(b);
        let p = hex_lower(b.drop_last());
        assert forall|k: int| 0 <= k < h.len() implies is_lower_hex_char(#[trigger] h[k]) by {
            if k < p.len() {
                assert(h[k] == p[k]);
            }
        }
    }
}

proof fn lemma_hex_lower_chars(b: Seq<u8>)
    ensures
        forall|k: int| 0 <= k < hex_lower(b).len() ==> is_id_char(#[trigger] hex_lower(b)[k]),
    decreases b.len(),
{
    if b.len() > 0 {
        lemma_hex_lower_chars(b.drop_last());
        let x = b.last();
        assert(x >> 4u8 < 16 && x & 0x0fu8 < 16) by (bit_vector);
        let h = hex_lower(b);
        let p = hex_lower(b.drop_last());
        assert forall|k: int| 0 <= k < h.len() implies is_id_char(#[trigger] h[k]) by {
            if k < p.len() {
                assert(h[k] == p[k]);
            }
        }
    }
}

proof fn lemma_id_chars_ok(s: Seq<char>)
    requires
        forall|k: int| 0 <= k < s.len() ==> is_id_char(#[trigger] s[k]),
    ensures
        !s.contains('/'),
        !s.contains('\\'),
        !has_dot_dot(s),
        s.len() > 0 ==> s[0] != '.',
{
    if s.contains('/') {
        let k = choose|k: int| 0 <= k < s.len() && s[k] == '/';
        assert(is_id_char(s[k]));
    }
    if s.contains('\\') {
        let k = choose|k: int| 0 <= k < s.len() && s[k] == '\\';
        assert(is_id_char(s[k]));
    }
    if has_dot_dot(s) {
        let k = choose|k: int| 0 <= k && k + 1 < s.len() && #[trigger] s[k] == '.' && s[k + 1] == '.';
        assert(is_id_char(s[k]));
    }
    if s.len() > 0 {
        assert(is_id_char(s[0]));
    }
}

proof fn lemma_prefix_then_id_chars_ok(p: Seq<char>, s: Seq<char>)
    requires
        p.len() > 0,
        !p.contains('/'),
        !p.contains('\\'),
        !has_dot_dot(p),
        forall|k: int| 0 <= k < s.len() ==> is_id_char(#[trigger] s[k]),
    ensures
        game_id_ok(p + s),
{
    lemma_id_chars_ok(s);
    lemma_no_dot_dot_concat(p, s);
    let c = p + s;
    if c.contains('/') {
        let k = choose|k: int| 0 <= k < c.len() && c[k] == '/';
        if k < p.len() {
            assert(p[k] == '/');
        } else {
            assert(s[k - p.len()] == '/');
        }
    }
    if c.contains('\\') {
        let k = choose|k: int| 0 <= k < c.len() && c[k] == '\\';
        if k < p.len() {
            assert(p[k] == '\\');
        } else {
            assert(s[k - p.len()] == '\\');
        }
    }
}

proof fn lemma_literal_ok(p: Seq<char>)
    requires
        p.len() > 0,
        forall|k: int| 0 <= k < p.len() ==> (#[trigger] p[k] == '.' || is_id_char(p[k])),
        forall|k: int| 0 <= k && k + 1 < p.len() ==> !(#[trigger] p[k] == '.' && p[k + 1] == '.'),
    ensures
        !p.contains('/'),
        !p.contains('\\'),
        !has_dot_dot(p),
{
    if p.contains('/') {
        let k = choose|k: int| 0 <= k < p.len() && p[k] == '/';
        assert(p[k] == '.' || is_id_char(p[k]));
    }
    if p.contains('\\') {
        let k = choose|k: int| 0 <= k < p.len() && p[k] == '\\';
        assert(p[k] == '.' || is_id_char(p[k]));
    }
}

/// Every resolved game id is accepted by `validate_game_id`: it is never
/// empty and holds no `/`, `\` or `..`, whatever the inputs.
pub proof fn lemma_resolve_valid(explicit: Option<Seq<char>>, name_hint: Option<Seq<char>>, bundle: Option<Seq<Entry>>)
    ensures
        game_id_ok(resolve_spec(explicit, name_hint, bundle)),
{
    reveal_strlit("com.usagiengine.");
    reveal_strlit("com.usagiengine.auto");
    reveal_strlit("com.usagiengine.unknown");
    if explicit is Some && game_id_ok(explicit->0) {
    } else if name_hint is Some && name_id(name_hint->0) is Some {
        let p = "com.usagiengine."@;
        lemma_literal_ok(p);
        lemma_sanitize_shape(name_hint->0);
        lemma_prefix_then_id_chars_ok(p, sanitize_spec(name_hint->0));
    } else if bundle is Some {
        let p = "com.usagiengine.auto"@;
        lemma_literal_ok(p);
        let d = sha256_digest(bundle_bytes(bundle->0)).take(8);
        lemma_hex_lower_chars(d);
        lemma_prefix_then_id_chars_ok(p, hex_lower(d));
    } else {
        let p = "com.usagiengine.unknown"@;
        lemma_literal_ok(p);
    }
}

/// The short name of any id is non-empty and holds no `.`.
pub proof fn lemma_short_name_shape(id: Seq<char>)
    ensures
        short_name_spec(id).len() > 0,
        !short_name_spec(id).contains('.'),
{
    reveal_strlit("usagi");
    lemma_last_segment_start(id);
    let st = last_segment_start(id);
    let last = id.subrange(st, id.len() as int);
    if last.len() > 0 && last != "unknown"@ {
        if last.contains('.') {
            let k = choose|k: int| 0 <= k < last.len() && last[k] == '.';
            assert(id[st + k] == '.');
        }
    } else {
        let u = "usagi"@;
        if u.contains('.') {
            let k = choose|k: int| 0 <= k < u.len() && u[k] == '.';
        }
    }
}

} // verus!
