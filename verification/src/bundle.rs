//! The bundle format that fused game binaries and `.usagi` files carry.
//!
//! A bundle is a flat collection of named byte blobs, written
//! sequentially so it can be read forward-only:
//!
//! ```text
//! [BUNDLE_MAGIC 8 bytes]
//! [version u32 LE]
//! [entry_count u32 LE]
//! repeated entry_count times, in byte order of the names:
//!   [name_len u32 LE] [name bytes] [data_len u64 LE] [data bytes]
//! ```
//!
//! A fused executable appends the bundle and then a 16-byte footer
//! `[bundle_size u64 LE][EXE_MAGIC 8 bytes]` to the base binary.

use vstd::prelude::*;
use vstd::utf8::*;
use crate::codec::{
    le_u32, le_u64, from_le_u32, from_le_u64, lex_lt, push_le_u32, push_le_u64, read_u32, read_u64,
    compare_bytes, lemma_lex_irreflexive, lemma_lex_transitive,
    lemma_le_u32_roundtrip, lemma_le_u64_roundtrip,
};
use crate::text::string_from_utf8;

verus! {

broadcast use {encode_utf8_decode_utf8, encode_utf8_valid_utf8};

/// `USAGIBND`: the first eight bytes of every bundle.
pub open spec fn bundle_magic() -> Seq<u8> {
    seq![0x55u8, 0x53u8, 0x41u8, 0x47u8, 0x49u8, 0x42u8, 0x4Eu8, 0x44u8]
}

/// `USAGIEXE`: the last eight bytes of a fused executable.
pub open spec fn exe_magic() -> Seq<u8> {
    seq![0x55u8, 0x53u8, 0x41u8, 0x47u8, 0x49u8, 0x45u8, 0x58u8, 0x45u8]
}

/// The only bundle format version this library reads and writes.
pub const VERSION: u32 = 1;

/// Why a byte string is not a bundle.
#[derive(PartialEq, Eq, Structural, Debug, Clone, Copy)]
pub enum BundleError {
    /// The bytes end before the structure they announce.
    Truncated,
    /// The first eight bytes are not `USAGIBND`.
    NotABundle,
    /// The version field holds another value than [`VERSION`].
    UnsupportedVersion(u32),
    /// A file name is not UTF-8.
    NonUtf8Name,
}

/// One file of a bundle: its name and its bytes.
pub type Entry = (Seq<char>, Seq<u8>);

/// The bytes a name is stored and ordered by.
pub open spec fn name_key(name: Seq<char>) -> Seq<u8> {
    encode_utf8(name)
}

/// Each name precedes the next in byte order (so no name occurs twice).
pub open spec fn sorted_by_name(s: Seq<Entry>) -> bool {
    forall|i: int, j: int| 0 <= i < j < s.len() ==> lex_lt(#[trigger] name_key(s[i].0), #[trigger] name_key(s[j].0))
}

/// No name occurs twice.
pub open spec fn distinct_names(s: Seq<Entry>) -> bool {
    forall|i: int, j: int| 0 <= i < s.len() && 0 <= j < s.len() && i != j ==> #[trigger] s[i].0 != #[trigger] s[j].0
}

/// Inserts the entries of `s` into `acc`, first to last.
pub open spec fn insert_all(acc: Map<Seq<char>, Seq<u8>>, s: Seq<Entry>) -> Map<Seq<char>, Seq<u8>>
    decreases s.len(),
{
    if s.len() == 0 {
        acc
    } else {
        insert_all(acc.insert(s[0].0, s[0].1), s.drop_first())
    }
}

/// The files of a list of entries, as a map from name to contents.
pub open spec fn entries_map(s: Seq<Entry>) -> Map<Seq<char>, Seq<u8>> {
    insert_all(Map::empty(), s)
}

/// The stored form of one entry.
pub open spec fn entry_bytes(e: Entry) -> Seq<u8> {
    le_u32(name_key(e.0).len() as u32) + name_key(e.0) + le_u64(e.1.len() as u64) + e.1
}

/// The stored form of a list of entries, first to last.
pub open spec fn entries_bytes(s: Seq<Entry>) -> Seq<u8>
    decreases s.len(),
{
    if s.len() == 0 {
        Seq::empty()
    } else {
        entry_bytes(s[0]) + entries_bytes(s.drop_first())
    }
}

/// The header that precedes the entries.
pub open spec fn header_bytes(count: nat) -> Seq<u8> {
    bundle_magic() + le_u32(VERSION) + le_u32(count as u32)
}

/// The stored form of a bundle whose files, in name order, are `s`.
pub open spec fn bundle_bytes(s: Seq<Entry>) -> Seq<u8> {
    header_bytes(s.len()) + entries_bytes(s)
}

/// Every length that the format stores in 32 bits fits there.
pub open spec fn fits_format(s: Seq<Entry>) -> bool {
    &&& s.len() <= u32::MAX
    &&& forall|i: int| 0 <= i < s.len() ==> (#[trigger] name_key(s[i].0)).len() <= u32::MAX && s[i].1.len() <= u64::MAX
}

/// Reads `n` entries starting at `pos`, inserting them into `acc` in the
/// order they are stored (a later entry with an earlier name replaces it).
pub open spec fn parse_entries(b: Seq<u8>, pos: int, n: nat, acc: Map<Seq<char>, Seq<u8>>) -> Result<Map<Seq<char>, Seq<u8>>, BundleError>
    decreases n,
{
    if n == 0 {
        Ok(acc)
    } else if pos < 0 || pos + 4 > b.len() {
        Err(BundleError::Truncated)
    } else {
        let name_len = from_le_u32(b.subrange(pos, pos + 4)) as int;
        let p1 = pos + 4;
        if p1 + name_len > b.len() {
            Err(BundleError::Truncated)
        } else {
            let name = b.subrange(p1, p1 + name_len);
            if !valid_utf8(name) {
                Err(BundleError::NonUtf8Name)
            } else {
                let p2 = p1 + name_len;
                if p2 + 8 > b.len() {
                    Err(BundleError::Truncated)
                } else {
                    let data_len = from_le_u64(b.subrange(p2, p2 + 8)) as int;
                    let p3 = p2 + 8;
                    if p3 + data_len > b.len() {
                        Err(BundleError::Truncated)
                    } else {
                        parse_entries(b, p3 + data_len, (n - 1) as nat,
                            acc.insert(decode_utf8(name), b.subrange(p3, p3 + data_len)))
                    }
                }
            }
        }
    }
}

/// What reading the bytes `b` as a bundle gives: its files, or why it is
/// not a bundle. Bytes after the last entry are not read.
pub open spec fn parse_bundle(b: Seq<u8>) -> Result<Map<Seq<char>, Seq<u8>>, BundleError> {
    if b.len() < 8 {
        Err(BundleError::Truncated)
    } else if b.subrange(0, 8) != bundle_magic() {
        Err(BundleError::NotABundle)
    } else if b.len() < 12 {
        Err(BundleError::Truncated)
    } else if from_le_u32(b.subrange(8, 12)) != VERSION {
        Err(BundleError::UnsupportedVersion(from_le_u32(b.subrange(8, 12))))
    } else if b.len() < 16 {
        Err(BundleError::Truncated)
    } else {
        parse_entries(b, 16, from_le_u32(b.subrange(12, 16)) as nat, Map::empty())
    }
}

/// The bytes a fused executable ends with: the bundle, its size and the
/// executable magic.
pub open spec fn fused_suffix_bytes(s: Seq<Entry>) -> Seq<u8> {
    bundle_bytes(s) + le_u64(bundle_bytes(s).len() as u64) + exe_magic()
}

/// What the footer of the executable image `b` points at: the bundle's
/// files, or `None` when the image carries no readable bundle.
pub open spec fn parse_fused(b: Seq<u8>) -> Option<Map<Seq<char>, Seq<u8>>> {
    let size = b.len() as int;
    if size < 16 {
        None
    } else if b.subrange(size - 8, size) != exe_magic() {
        None
    } else {
        let bundle_size = from_le_u64(b.subrange(size - 16, size - 8)) as int;
        if bundle_size >= size - 16 {
            None
        } else {
            match parse_bundle(b.subrange(size - 16 - bundle_size, size - 16)) {
                Ok(m) => Some(m),
                Err(_) => None,
            }
        }
    }
}

/// The entries a list of stored files stands for.
pub open spec fn entries_of(v: Seq<(String, Vec<u8>)>) -> Seq<Entry> {
    v.map_values(|e: (String, Vec<u8>)| (e.0@, e.1@))
}

/// A bundle of named files.
pub struct Bundle {
    files: Vec<(String, Vec<u8>)>,
}

impl Bundle {
    /// The files, in byte order of their names.
    pub closed spec fn entries(&self) -> Seq<Entry> {
        entries_of(self.files@)
    }

    /// The bundle is well formed: its entries are in byte order of their
    /// names. Every bundle is: this is the type's invariant.
    pub closed spec fn wf(&self) -> bool {
        sorted_by_name(self.entries())
    }

    /// Every bundle keeps its files in byte order of their names.
    #[verifier::type_invariant]
    pub(crate) open spec fn inv(self) -> bool {
        self.wf()
    }

    /// The files of the bundle, by name.
    pub closed spec fn view(&self) -> Map<Seq<char>, Seq<u8>> {
        entries_map(self.entries())
    }

    /// The entries are in byte order of their names, and they are the
    /// bundle's files.
    pub proof fn lemma_entries(&self)
        requires
            self.wf(),
        ensures
            sorted_by_name(self.entries()),
            distinct_names(self.entries()),
            self.view() == entries_map(self.entries()),
            self.view().dom().finite(),
            self.view().dom().len() == self.entries().len(),
            forall|k: Seq<char>| #[trigger] self.view().contains_key(k) == has_name(self.entries(), k),
            forall|i: int| 0 <= i < self.entries().len() ==> self.view().contains_key(#[trigger] self.entries()[i].0) && self.view()[self.entries()[i].0] == self.entries()[i].1,
    {
        lemma_sorted_distinct(self.entries());
        lemma_insert_all(Map::empty(), self.entries());
        lemma_entries_dom_len(self.entries());
    }
}

impl Bundle {
    /// An empty bundle.
    pub fn new() -> (b: Bundle)
        ensures
            b.wf(),
            b@ == Map::<Seq<char>, Seq<u8>>::empty(),
            b.entries().len() == 0,
    {
        let b = Bundle { files: Vec::new() };
        assert(b.entries() =~= Seq::<Entry>::empty());
        b
    }

    /// Adds the file `name` with contents `data`, replacing any file of
    /// that name.
    pub fn insert(&mut self, name: &str, data: Vec<u8>)
        ensures
            final(self).wf(),
            final(self)@ == old(self)@.insert(name@, data@),
    {
        proof { use_type_invariant(&*self); }
        let ghost s = old(self).entries();
        let mut files: Vec<(String, Vec<u8>)> = Vec::new();
        std::mem::swap(&mut files, &mut self.files);
        assert(entries_of(files@) == s);
        let key = name.as_bytes();
        let mut i: usize = 0;
        while i < files.len()
            invariant
                entries_of(files@) == s,
                s == old(self).entries(),
                sorted_by_name(s),
                key@ == name_key(name@),
                0 <= i <= files.len(),
                s.len() == files.len(),
                forall|j: int| 0 <= j < i ==> lex_lt(#[trigger] name_key(s[j].0), name_key(name@)),
            ensures
                entries_of(files@) == s,
                0 <= i <= files.len(),
                forall|j: int| 0 <= j < i ==> lex_lt(#[trigger] name_key(s[j].0), name_key(name@)),
                i < s.len() ==> lex_lt(name_key(name@), name_key(s[i as int].0)),
            decreases files.len() - i,
        {
            assert(s[i as int].0 == files@[i as int].0@);
            let c = compare_bytes(files[i].0.as_str().as_bytes(), key);
            if c == 0 {
                proof {
                    assert(name_key(s[i as int].0) == name_key(name@));
                    assert(decode_utf8(name_key(s[i as int].0)) == s[i as int].0);
                    assert(s[i as int].0 == name@);
                }
                files.set(i, (String::from_str(name), data));
                proof {
                    let s2 = entries_of(files@);
                    assert(s2 =~= s.update(i as int, (name@, data@)));
                    lemma_replace_entry(s, i as int, name@, data@);
                }
                self.files = files;
                return;
            }
            if c > 0 {
                break;
            }
            i = i + 1;
        }
        proof {
            if i < s.len() {
                assert(s[i as int].0 == files@[i as int].0@);
            }
        }
        files.insert(i, (String::from_str(name), data));
        proof {
            let s2 = entries_of(files@);
            assert(s2 =~= s.insert(i as int, (name@, data@)));
            lemma_insert_entry(s, i as int, name@, data@);
        }
        self.files = files;
    }
}

/// The total size of the contents of `s`.
pub open spec fn total_len(s: Seq<Entry>) -> nat
    decreases s.len(),
{
    if s.len() == 0 {
        0
    } else {
        total_len(s.drop_last()) + s.last().1.len()
    }
}

fn copy_range(b: &[u8], start: usize, end: usize) -> (r: Vec<u8>)
    requires
        start <= end <= b.len(),
    ensures
        r@ == b@.subrange(start as int, end as int),
{
    let mut r: Vec<u8> = Vec::new();
    let mut i = start;
    while i < end
        invariant
            start <= i <= end <= b.len(),
            r@ == b@.subrange(start as int, i as int),
        decreases end - i,
    {
        r.push(b[i]);
        i = i + 1;
        assert(r@ =~= b@.subrange(start as int, i as int));
    }
    r
}

fn push_bytes(out: &mut Vec<u8>, b: &[u8])
    ensures
        final(out)@ == old(out)@ + b@,
{
    let mut i: usize = 0;
    while i < b.len()
        invariant
            0 <= i <= b.len(),
            out@ == old(out)@ + b@.subrange(0, i as int),
        decreases b.len() - i,
    {
        out.push(b[i]);
        i = i + 1;
        assert(out@ =~= old(out)@ + b@.subrange(0, i as int));
    }
    assert(b@.subrange(0, b.len() as int) =~= b@);
}

fn push_bundle_magic(out: &mut Vec<u8>)
    ensures
        final(out)@ == old(out)@ + bundle_magic(),
{
    out.push(0x55u8);
    out.push(0x53u8);
    out.push(0x41u8);
    out.push(0x47u8);
    out.push(0x49u8);
    out.push(0x42u8);
    out.push(0x4Eu8);
    out.push(0x44u8);
    assert(out@ =~= old(out)@ + bundle_magic());
}

fn push_exe_magic(out: &mut Vec<u8>)
    ensures
        final(out)@ == old(out)@ + exe_magic(),
{
    out.push(0x55u8);
    out.push(0x53u8);
    out.push(0x41u8);
    out.push(0x47u8);
    out.push(0x49u8);
    out.push(0x45u8);
    out.push(0x58u8);
    out.push(0x45u8);
    assert(out@ =~= old(out)@ + exe_magic());
}

fn is_bundle_magic(b: &[u8], pos: usize) -> (r: bool)
    requires
        pos + 8 <= b.len(),
    ensures
        r == (b@.subrange(pos as int, pos + 8) == bundle_magic()),
{
    let r = b[pos] == 0x55u8 && b[pos + 1] == 0x53u8 && b[pos + 2] == 0x41u8 && b[pos + 3] == 0x47u8
        && b[pos + 4] == 0x49u8 && b[pos + 5] == 0x42u8 && b[pos + 6] == 0x4Eu8 && b[pos + 7] == 0x44u8;
    if r {
        assert(b@.subrange(pos as int, pos + 8) =~= bundle_magic());
    } else {
        assert(b@.subrange(pos as int, pos + 8) != bundle_magic()) by {
            if b@.subrange(pos as int, pos + 8) == bundle_magic() {
                assert(b@.subrange(pos as int, pos + 8)[0] == b@[pos as int]);
                assert(b@.subrange(pos as int, pos + 8)[1] == b@[pos + 1]);
                assert(b@.subrange(pos as int, pos + 8)[2] == b@[pos + 2]);
                assert(b@.subrange(pos as int, pos + 8)[3] == b@[pos + 3]);
                assert(b@.subrange(pos as int, pos + 8)[4] == b@[pos + 4]);
                assert(b@.subrange(pos as int, pos + 8)[5] == b@[pos + 5]);
                assert(b@.subrange(pos as int, pos + 8)[6] == b@[pos + 6]);
                assert(b@.subrange(pos as int, pos + 8)[7] == b@[pos + 7]);
            }
        }
    }
    r
}

fn is_exe_magic(b: &[u8], pos: usize) -> (r: bool)
    requires
        pos + 8 <= b.len(),
    ensures
        r == (b@.subrange(pos as int, pos + 8) == exe_magic()),
{
    let r = b[pos] == 0x55u8 && b[pos + 1] == 0x53u8 && b[pos + 2] == 0x41u8 && b[pos + 3] == 0x47u8
        && b[pos + 4] == 0x49u8 && b[pos + 5] == 0x45u8 && b[pos + 6] == 0x58u8 && b[pos + 7] == 0x45u8;
    if r {
        assert(b@.subrange(pos as int, pos + 8) =~= exe_magic());
    } else {
        assert(b@.subrange(pos as int, pos + 8) != exe_magic()) by {
            if b@.subrange(pos as int, pos + 8) == exe_magic() {
                assert(b@.subrange(pos as int, pos + 8)[0] == b@[pos as int]);
                assert(b@.subrange(pos as int, pos + 8)[1] == b@[pos + 1]);
                assert(b@.subrange(pos as int, pos + 8)[2] == b@[pos + 2]);
                assert(b@.subrange(pos as int, pos + 8)[3] == b@[pos + 3]);
                assert(b@.subrange(pos as int, pos + 8)[4] == b@[pos + 4]);
                assert(b@.subrange(pos as int, pos + 8)[5] == b@[pos + 5]);
                assert(b@.subrange(pos as int, pos + 8)[6] == b@[pos + 6]);
                assert(b@.subrange(pos as int, pos + 8)[7] == b@[pos + 7]);
            }
        }
    }
    r
}

impl Bundle {
    /// The contents of the file `name`, if the bundle has one.
    pub fn get(&self, name: &str) -> (r: Option<&[u8]>)
        ensures
            r.is_some() == self@.contains_key(name@),
            r matches Some(d) ==> d@ == self@[name@],
    {
        proof { use_type_invariant(self); }
        proof {
            self.lemma_entries();
        }
        let ghost s = self.entries();
        let key = name.as_bytes();
        let mut i: usize = 0;
        while i < self.files.len()
            invariant
                self.wf(),
                s == self.entries(),
                s.len() == self.files.len(),
                key@ == name_key(name@),
                0 <= i <= self.files.len(),
                forall|j: int| 0 <= j < i ==> #[trigger] s[j].0 != name@,
            decreases self.files.len() - i,
        {
            assert(s[i as int].0 == self.files@[i as int].0@);
            if compare_bytes(self.files[i].0.as_str().as_bytes(), key) == 0 {
                proof {
                    assert(decode_utf8(name_key(s[i as int].0)) == s[i as int].0);
                    self.lemma_entries();
                }
                return Some(self.files[i].1.as_slice());
            }
            i = i + 1;
        }
        proof {
            self.lemma_entries();
            if has_name(s, name@) {
                let j = choose|j: int| 0 <= j < s.len() && #[trigger] s[j].0 == name@;
                assert(s[j].0 != name@);
            }
        }
        None
    }

    /// The names of the files, in byte order.
    pub fn names(&self) -> (r: Vec<String>)
        ensures
            r@.len() == self.entries().len(),
            forall|i: int| 0 <= i < r@.len() ==> (#[trigger] r@[i])@ == self.entries()[i].0,
            forall|k: Seq<char>| self@.contains_key(k) <==> exists|i: int| 0 <= i < r@.len() && (#[trigger] r@[i])@ == k,
    {
        proof { use_type_invariant(self); }
        proof {
            self.lemma_entries();
        }
        let ghost s = self.entries();
        let mut r: Vec<String> = Vec::new();
        let mut i: usize = 0;
        while i < self.files.len()
            invariant
                s == self.entries(),
                s.len() == self.files.len(),
                0 <= i <= self.files.len(),
                r@.len() == i,
                forall|j: int| 0 <= j < i ==> (#[trigger] r@[j])@ == s[j].0,
            decreases self.files.len() - i,
        {
            assert(s[i as int].0 == self.files@[i as int].0@);
            r.push(self.files[i].0.clone());
            i = i + 1;
        }
        proof {
            assert forall|k: Seq<char>| self@.contains_key(k) implies exists|i: int| 0 <= i < r@.len() && (#[trigger] r@[i])@ == k by {
                let j = choose|j: int| 0 <= j < s.len() && #[trigger] s[j].0 == k;
                assert(r@[j]@ == k);
            }
            assert forall|k: Seq<char>| (exists|i: int| 0 <= i < r@.len() && (#[trigger] r@[i])@ == k) implies self@.contains_key(k) by {
                let j = choose|j: int| 0 <= j < r@.len() && (#[trigger] r@[j])@ == k;
                assert(s[j].0 == k);
            }
        }
        r
    }

    /// The number of files.
    pub fn file_count(&self) -> (r: usize)
        ensures
            r == self@.dom().len(),
    {
        proof { use_type_invariant(self); }
        proof {
            self.lemma_entries();
        }
        self.files.len()
    }

    /// The total size of the files' contents, or `usize::MAX` when that
    /// does not fit.
    pub fn total_bytes(&self) -> (r: usize)
        ensures
            total_len(self.entries()) <= usize::MAX ==> r == total_len(self.entries()),
            total_len(self.entries()) > usize::MAX ==> r == usize::MAX,
    {
        let ghost s = self.entries();
        let mut total: usize = 0;
        let mut i: usize = 0;
        while i < self.files.len()
            invariant
                s == self.entries(),
                s.len() == self.files.len(),
                0 <= i <= self.files.len(),
                total_len(s.take(i as int)) <= usize::MAX ==> total == total_len(s.take(i as int)),
                total_len(s.take(i as int)) > usize::MAX ==> total == usize::MAX,
            decreases self.files.len() - i,
        {
            assert(s[i as int].1 == self.files@[i as int].1@);
            assert(s.take(i + 1).drop_last() =~= s.take(i as int));
            total = total.saturating_add(self.files[i].1.len());
            i = i + 1;
        }
        assert(s.take(s.len() as int) =~= s);
        total
    }

    /// The bundle in its stored form.
    pub fn serialize(&self) -> (r: Vec<u8>)
        ensures
            r@ == bundle_bytes(self.entries()),
    {
        proof { use_type_invariant(self); }
        let ghost s = self.entries();
        let mut out: Vec<u8> = Vec::new();
        push_bundle_magic(&mut out);
        push_le_u32(&mut out, VERSION);
        push_le_u32(&mut out, self.files.len() as u32);
        assert(out@ =~= header_bytes(s.len()));
        assert(s.take(0) =~= Seq::<Entry>::empty());
        let mut i: usize = 0;
        while i < self.files.len()
            invariant
                s == self.entries(),
                s.len() == self.files.len(),
                0 <= i <= self.files.len(),
                out@ == header_bytes(s.len()) + entries_bytes(s.take(i as int)),
            decreases self.files.len() - i,
        {
            assert(s[i as int].0 == self.files@[i as int].0@);
            assert(s[i as int].1 == self.files@[i as int].1@);
            let name_bytes = self.files[i].0.as_str().as_bytes();
            push_le_u32(&mut out, name_bytes.len() as u32);
            push_bytes(&mut out, name_bytes);
            push_le_u64(&mut out, self.files[i].1.len() as u64);
            push_bytes(&mut out, self.files[i].1.as_slice());
            proof {
                lemma_entries_bytes_push(s.take(i as int), s[i as int]);
                assert(s.take(i + 1) =~= s.take(i as int).push(s[i as int]));
            }
            i = i + 1;
        }
        assert(s.take(s.len() as int) =~= s);
        out
    }

    /// Reads a bundle from its stored form. Bytes after the last entry
    /// are ignored; an entry whose name repeats an earlier one replaces it.
    pub fn deserialize(b: &[u8]) -> (r: Result<Bundle, BundleError>)
        ensures
            match (r, parse_bundle(b@)) {
                (Ok(bundle), Ok(m)) => bundle.wf() && bundle@ == m,
                (Err(e), Err(e2)) => e == e2,
                _ => false,
            },
    {
        if b.len() < 8 {
            return Err(BundleError::Truncated);
        }
        if !is_bundle_magic(b, 0) {
            return Err(BundleError::NotABundle);
        }
        let version = match read_u32(b, 8) {
            Some(v) => v,
            None => return Err(BundleError::Truncated),
        };
        if version != VERSION {
            return Err(BundleError::UnsupportedVersion(version));
        }
        let count = match read_u32(b, 12) {
            Some(c) => c,
            None => return Err(BundleError::Truncated),
        };
        let mut bundle = Bundle::new();
        let mut pos: usize = 16;
        let mut k: u32 = 0;
        while k < count
            invariant
                bundle.wf(),
                16 <= pos <= b.len(),
                k <= count,
                count == from_le_u32(b@.subrange(12, 16)),
                parse_bundle(b@) == parse_entries(b@, pos as int, (count - k) as nat, bundle@),
            decreases count - k,
        {
            let name_len = match read_u32(b, pos) {
                Some(n) => n as usize,
                None => return Err(BundleError::Truncated),
            };
            let p1 = pos + 4;
            if name_len > b.len() - p1 {
                return Err(BundleError::Truncated);
            }
            let p2 = p1 + name_len;
            let name_vec = copy_range(b, p1, p2);
            let name = match string_from_utf8(name_vec) {
                Some(n) => n,
                None => return Err(BundleError::NonUtf8Name),
            };
            let data_len = match read_u64(b, p2) {
                Some(n) => n,
                None => return Err(BundleError::Truncated),
            };
            let p3 = p2 + 8;
            if data_len > (b.len() - p3) as u64 {
                return Err(BundleError::Truncated);
            }
            let p4 = p3 + data_len as usize;
            let data = copy_range(b, p3, p4);
            bundle.insert(name.as_str(), data);
            pos = p4;
            k = k + 1;
        }
        Ok(bundle)
    }

    /// What a fused executable appends to its base binary: the bundle, its
    /// size as a little-endian `u64`, and `USAGIEXE`.
    pub fn fuse_suffix(&self) -> (r: Vec<u8>)
        ensures
            r@ == fused_suffix_bytes(self.entries()),
    {
        proof { use_type_invariant(self); }
        let mut out = self.serialize();
        let size = out.len() as u64;
        push_le_u64(&mut out, size);
        push_exe_magic(&mut out);
        out
    }

    /// Reads the bundle a fused executable image carries, or `None` when
    /// its footer does not point at a readable bundle.
    pub fn from_fused_exe(b: &[u8]) -> (r: Option<Bundle>)
        ensures
            match (r, parse_fused(b@)) {
                (Some(bundle), Some(m)) => bundle.wf() && bundle@ == m,
                (None, None) => true,
                _ => false,
            },
    {
        let size = b.len();
        if size < 16 {
            return None;
        }
        if !is_exe_magic(b, size - 8) {
            return None;
        }
        let bundle_size = match read_u64(b, size - 16) {
            Some(n) => n,
            None => return None,
        };
        if bundle_size >= (size - 16) as u64 {
            return None;
        }
        let start = size - 16 - bundle_size as usize;
        let bytes = copy_range(b, start, size - 16);
        match Bundle::deserialize(bytes.as_slice()) {
            Ok(bundle) => Some(bundle),
            Err(_) => None,
        }
    }
}

/// Where a fused executable of `size` bytes that ends with `footer` keeps
/// its bundle, as `(offset, length)`: the footer must be 16 bytes, end
/// with `USAGIEXE` and announce a bundle smaller than what precedes it.
pub open spec fn fused_span_spec(size: int, footer: Seq<u8>) -> Option<(int, int)> {
    if size < 16 || footer.len() != 16 || footer.subrange(8, 16) != exe_magic() {
        None
    } else {
        let n = from_le_u64(footer.subrange(0, 8)) as int;
        if n >= size - 16 {
            None
        } else {
            Some((size - 16 - n, n))
        }
    }
}

/// Locates the bundle of a fused executable from its size and its last
/// 16 bytes, so that only the bundle itself has to be read.
pub fn fused_bundle_span(size: u64, footer: &[u8]) -> (r: Option<(u64, u64)>)
    ensures
        match fused_span_spec(size as int, footer@) {
            None => r is None,
            Some((o, n)) => r == Some((o as u64, n as u64)),
        },
{
    if size < 16 || footer.len() != 16 {
        return None;
    }
    if !is_exe_magic(footer, 8) {
        return None;
    }
    let n = match read_u64(footer, 0) {
        Some(v) => v,
        None => return None,
    };
    if n >= size - 16 {
        return None;
    }
    Some((size - 16 - n, n))
}

/// Reading a fused image through its footer's span gives what reading the
/// whole image gives.
pub proof fn lemma_fused_span_agrees(b: Seq<u8>)
    requires
        b.len() >= 16,
    ensures
        parse_fused(b) == (match fused_span_spec(b.len() as int, b.subrange(b.len() - 16, b.len() as int)) {
            None => None,
            Some((o, n)) => match parse_bundle(b.subrange(o, o + n)) {
                Ok(m) => Some(m),
                Err(_) => None::<Map<Seq<char>, Seq<u8>>>,
            },
        }),
{
    let size = b.len() as int;
    let footer = b.subrange(size - 16, size);
    assert(footer.subrange(8, 16) =~= b.subrange(size - 8, size));
    assert(footer.subrange(0, 8) =~= b.subrange(size - 16, size - 8));
}

proof fn lemma_sorted_distinct(s: Seq<Entry>)
    requires
        sorted_by_name(s),
    ensures
        distinct_names(s),
{
    assert forall|i: int, j: int| 0 <= i < s.len() && 0 <= j < s.len() && i != j implies #[trigger] s[i].0 != #[trigger] s[j].0 by {
        if s[i].0 == s[j].0 {
            lemma_lex_irreflexive(name_key(s[i].0));
            if i < j {
                assert(lex_lt(name_key(s[i].0), name_key(s[j].0)));
            } else {
                assert(lex_lt(name_key(s[j].0), name_key(s[i].0)));
            }
        }
    }
}

/// Some entry of `s` is named `k`.
pub open spec fn has_name(s: Seq<Entry>, k: Seq<char>) -> bool {
    exists|i: int| 0 <= i < s.len() && #[trigger] s[i].0 == k
}

proof fn lemma_distinct_rest(s: Seq<Entry>)
    requires
        distinct_names(s),
        s.len() > 0,
    ensures
        distinct_names(s.drop_first()),
        !has_name(s.drop_first(), s[0].0),
{
    let rest = s.drop_first();
    assert forall|i: int, j: int| 0 <= i < rest.len() && 0 <= j < rest.len() && i != j implies #[trigger] rest[i].0 != #[trigger] rest[j].0 by {
        assert(rest[i] == s[i + 1]);
        assert(rest[j] == s[j + 1]);
    }
    if has_name(rest, s[0].0) {
        let i = choose|i: int| 0 <= i < rest.len() && #[trigger] rest[i].0 == s[0].0;
        assert(rest[i] == s[i + 1]);
    }
}

/// What inserting distinct entries into a map gives at one name.
proof fn lemma_insert_all_at(acc: Map<Seq<char>, Seq<u8>>, s: Seq<Entry>, k: Seq<char>)
    requires
        distinct_names(s),
    ensures
        insert_all(acc, s).contains_key(k) == (acc.contains_key(k) || has_name(s, k)),
        forall|i: int| 0 <= i < s.len() && #[trigger] s[i].0 == k ==> insert_all(acc, s)[k] == s[i].1,
        !has_name(s, k) ==> insert_all(acc, s)[k] == acc[k],
    decreases s.len(),
{
    if s.len() > 0 {
        let rest = s.drop_first();
        lemma_distinct_rest(s);
        let acc2 = acc.insert(s[0].0, s[0].1);
        lemma_insert_all_at(acc2, rest, k);
        assert(insert_all(acc, s) == insert_all(acc2, rest));
        if has_name(rest, k) {
            let i = choose|i: int| 0 <= i < rest.len() && #[trigger] rest[i].0 == k;
            assert(s[i + 1].0 == k);
        }
        if has_name(s, k) {
            let i = choose|i: int| 0 <= i < s.len() && #[trigger] s[i].0 == k;
            if i > 0 {
                assert(rest[i - 1].0 == k);
            }
        }
        assert forall|i: int| 0 <= i < s.len() && #[trigger] s[i].0 == k implies insert_all(acc, s)[k] == s[i].1 by {
            if i > 0 {
                assert(rest[i - 1] == s[i]);
            }
        }
    }
}

/// What inserting distinct entries into a map gives.
proof fn lemma_insert_all(acc: Map<Seq<char>, Seq<u8>>, s: Seq<Entry>)
    requires
        distinct_names(s),
    ensures
        forall|k: Seq<char>| #[trigger] insert_all(acc, s).contains_key(k) == (acc.contains_key(k) || has_name(s, k)),
        forall|i: int| 0 <= i < s.len() ==> #[trigger] insert_all(acc, s)[s[i].0] == s[i].1,
        forall|k: Seq<char>| !has_name(s, k) ==> #[trigger] insert_all(acc, s)[k] == acc[k],
{
    assert forall|k: Seq<char>| #[trigger] insert_all(acc, s).contains_key(k) == (acc.contains_key(k) || has_name(s, k)) by {
        lemma_insert_all_at(acc, s, k);
    }
    assert forall|i: int| 0 <= i < s.len() implies #[trigger] insert_all(acc, s)[s[i].0] == s[i].1 by {
        lemma_insert_all_at(acc, s, s[i].0);
    }
    assert forall|k: Seq<char>| !has_name(s, k) implies #[trigger] insert_all(acc, s)[k] == acc[k] by {
        lemma_insert_all_at(acc, s, k);
    }
}

proof fn lemma_entries_dom_len(s: Seq<Entry>)
    requires
        distinct_names(s),
    ensures
        entries_map(s).dom().finite(),
        entries_map(s).dom().len() == s.len(),
{
    lemma_insert_all(Map::empty(), s);
    let names = s.map_values(|e: Entry| e.0);
    assert(entries_map(s).dom() =~= names.to_set()) by {
        assert forall|k: Seq<char>| entries_map(s).dom().contains(k) implies names.to_set().contains(k) by {
            assert(entries_map(s).contains_key(k));
            let i = choose|i: int| 0 <= i < s.len() && #[trigger] s[i].0 == k;
            assert(names[i] == k);
        }
        assert forall|k: Seq<char>| names.to_set().contains(k) implies entries_map(s).dom().contains(k) by {
            assert(names.contains(k));
            let i = choose|i: int| 0 <= i < names.len() && names[i] == k;
            assert(s[i].0 == k);
            assert(has_name(s, k));
        }
    }
    assert(names.no_duplicates()) by {
        assert forall|i: int, j: int| 0 <= i < names.len() && 0 <= j < names.len() && i != j implies names[i] != names[j] by {
            assert(names[i] == s[i].0);
            assert(names[j] == s[j].0);
        }
    }
    names.unique_seq_to_set();
}

/// Inserting a new name at its place in name order keeps the order and
/// adds the file.
proof fn lemma_insert_entry(s: Seq<Entry>, p: int, k: Seq<char>, d: Seq<u8>)
    requires
        sorted_by_name(s),
        0 <= p <= s.len(),
        forall|j: int| 0 <= j < p ==> lex_lt(#[trigger] name_key(s[j].0), name_key(k)),
        p < s.len() ==> lex_lt(name_key(k), name_key(s[p].0)),
    ensures
        sorted_by_name(s.insert(p, (k, d))),
        entries_map(s.insert(p, (k, d))) == entries_map(s).insert(k, d),
{
    let s2 = s.insert(p, (k, d));
    assert forall|i: int, j: int| 0 <= i < j < s2.len() implies lex_lt(#[trigger] name_key(s2[i].0), #[trigger] name_key(s2[j].0)) by {
        if j < p {
        } else if j == p {
        } else if i < p {
            if j - 1 > p {
                lemma_lex_transitive(name_key(k), name_key(s[p].0), name_key(s[j - 1].0));
            }
            lemma_lex_transitive(name_key(s[i].0), name_key(k), name_key(s[j - 1].0));
        } else if i == p {
            if j - 1 > p {
                lemma_lex_transitive(name_key(k), name_key(s[p].0), name_key(s[j - 1].0));
            }
        } else {
        }
    }
    lemma_sorted_distinct(s);
    lemma_sorted_distinct(s2);
    lemma_insert_all(Map::empty(), s);
    lemma_insert_all(Map::empty(), s2);
    let m1 = entries_map(s2);
    let m2 = entries_map(s).insert(k, d);
    assert forall|n: Seq<char>| #[trigger] m1.contains_key(n) == m2.contains_key(n) by {
        if has_name(s2, n) {
            let i = choose|i: int| 0 <= i < s2.len() && #[trigger] s2[i].0 == n;
            if i < p {
                assert(s[i].0 == n);
            } else if i > p {
                assert(s[i - 1].0 == n);
            }
        }
        if has_name(s, n) {
            let i = choose|i: int| 0 <= i < s.len() && #[trigger] s[i].0 == n;
            if i < p {
                assert(s2[i].0 == n);
            } else {
                assert(s2[i + 1].0 == n);
            }
        }
        assert(s2[p].0 == k);
    }
    assert forall|n: Seq<char>| m1.contains_key(n) implies #[trigger] m1[n] == m2[n] by {
        let i = choose|i: int| 0 <= i < s2.len() && #[trigger] s2[i].0 == n;
        assert(m1[s2[i].0] == s2[i].1);
        if i < p {
            assert(s[i] == s2[i]);
            assert(s2[i].0 != s2[p].0);
            assert(entries_map(s)[s[i].0] == s[i].1);
        } else if i > p {
            assert(s[i - 1] == s2[i]);
            assert(s2[i].0 != s2[p].0);
            assert(entries_map(s)[s[i - 1].0] == s[i - 1].1);
        }
    }
    assert(m1 =~= m2);
}

/// Replacing the contents of an existing name keeps the order and
/// replaces the file.
proof fn lemma_replace_entry(s: Seq<Entry>, p: int, k: Seq<char>, d: Seq<u8>)
    requires
        sorted_by_name(s),
        0 <= p < s.len(),
        s[p].0 == k,
    ensures
        sorted_by_name(s.update(p, (k, d))),
        entries_map(s.update(p, (k, d))) == entries_map(s).insert(k, d),
{
    let s2 = s.update(p, (k, d));
    assert forall|i: int, j: int| 0 <= i < j < s2.len() implies lex_lt(#[trigger] name_key(s2[i].0), #[trigger] name_key(s2[j].0)) by {
        assert(s2[i].0 == s[i].0);
        assert(s2[j].0 == s[j].0);
    }
    lemma_sorted_distinct(s);
    lemma_sorted_distinct(s2);
    lemma_insert_all(Map::empty(), s);
    lemma_insert_all(Map::empty(), s2);
    let m1 = entries_map(s2);
    let m2 = entries_map(s).insert(k, d);
    assert forall|n: Seq<char>| #[trigger] m1.contains_key(n) == m2.contains_key(n) by {
        if has_name(s2, n) {
            let i = choose|i: int| 0 <= i < s2.len() && #[trigger] s2[i].0 == n;
            assert(s[i].0 == n);
        }
        if has_name(s, n) {
            let i = choose|i: int| 0 <= i < s.len() && #[trigger] s[i].0 == n;
            assert(s2[i].0 == n);
        }
        assert(s2[p].0 == k);
    }
    assert forall|n: Seq<char>| m1.contains_key(n) implies #[trigger] m1[n] == m2[n] by {
        let i = choose|i: int| 0 <= i < s2.len() && #[trigger] s2[i].0 == n;
        assert(m1[s2[i].0] == s2[i].1);
        if i != p {
            assert(s[i] == s2[i]);
            assert(s[i].0 != s[p].0);
            assert(entries_map(s)[s[i].0] == s[i].1);
        }
    }
    assert(m1 =~= m2);
}

proof fn lemma_entries_bytes_push(a: Seq<Entry>, e: Entry)
    ensures
        entries_bytes(a.push(e)) == entries_bytes(a) + entry_bytes(e),
    decreases a.len(),
{
    if a.len() == 0 {
        assert(a.push(e).drop_first() =~= Seq::<Entry>::empty());
        assert(entries_bytes(a.push(e).drop_first()) == Seq::<u8>::empty());
        assert(a.push(e)[0] == e);
        assert(entries_bytes(a.push(e)) =~= entry_bytes(e) + Seq::<u8>::empty());
        assert(entries_bytes(a) + entry_bytes(e) =~= entry_bytes(e));
    } else {
        lemma_entries_bytes_push(a.drop_first(), e);
        assert(a.push(e).drop_first() =~= a.drop_first().push(e));
        assert(entries_bytes(a.push(e)) =~= entry_bytes(a[0]) + (entries_bytes(a.drop_first()) + entry_bytes(e)));
    }
}

proof fn lemma_parse_entries_bytes(pre: Seq<u8>, s: Seq<Entry>, post: Seq<u8>, acc: Map<Seq<char>, Seq<u8>>)
    requires
        forall|i: int| 0 <= i < s.len() ==> (#[trigger] name_key(s[i].0)).len() <= u32::MAX && s[i].1.len() <= u64::MAX,
    ensures
        parse_entries(pre + entries_bytes(s) + post, pre.len() as int, s.len(), acc) == Ok::<Map<Seq<char>, Seq<u8>>, BundleError>(insert_all(acc, s)),
    decreases s.len(),
{
    let b = pre + entries_bytes(s) + post;
    if s.len() > 0 {
        let e = s[0];
        let rest = s.drop_first();
        let kb = name_key(e.0);
        assert(kb.len() <= u32::MAX && e.1.len() <= u64::MAX);
        let nl = kb.len();
        let dl = e.1.len();
        lemma_le_u32_roundtrip(nl as u32);
        lemma_le_u64_roundtrip(dl as u64);
        let p0 = pre.len() as int;
        let eb = entry_bytes(e);
        assert(b =~= pre + eb + entries_bytes(rest) + post);
        assert(eb =~= le_u32(nl as u32) + kb + le_u64(dl as u64) + e.1);
        assert(b.subrange(p0, p0 + 4) =~= le_u32(nl as u32));
        assert(b.subrange(p0 + 4, p0 + 4 + nl) =~= kb);
        assert(b.subrange(p0 + 4 + nl, p0 + 12 + nl) =~= le_u64(dl as u64));
        assert(b.subrange(p0 + 12 + nl, p0 + 12 + nl + dl) =~= e.1);
        assert(decode_utf8(kb) == e.0);
        assert(valid_utf8(kb));
        let pre2 = pre + eb;
        assert(pre2.len() == p0 + 12 + nl + dl);
        assert forall|i: int| 0 <= i < rest.len() implies (#[trigger] name_key(rest[i].0)).len() <= u32::MAX && rest[i].1.len() <= u64::MAX by {
            assert(rest[i] == s[i + 1]);
        }
        lemma_parse_entries_bytes(pre2, rest, post, acc.insert(e.0, e.1));
        assert(pre2 + entries_bytes(rest) + post =~= b);
    }
}

/// Reading back what `serialize` wrote gives the same files: for every
/// well-formed bundle whose counts fit the format's 32-bit fields,
/// `deserialize(serialize(b))` succeeds with `b`'s files.
pub proof fn lemma_serialize_roundtrip(b: &Bundle)
    requires
        b.wf(),
        fits_format(b.entries()),
    ensures
        parse_bundle(bundle_bytes(b.entries())) == Ok::<Map<Seq<char>, Seq<u8>>, BundleError>(b@),
{
    let s = b.entries();
    let bytes = bundle_bytes(s);
    let h = header_bytes(s.len());
    lemma_le_u32_roundtrip(VERSION);
    lemma_le_u32_roundtrip(s.len() as u32);
    assert(h =~= bundle_magic() + le_u32(VERSION) + le_u32(s.len() as u32));
    assert(bytes.subrange(0, 8) =~= bundle_magic());
    assert(bytes.subrange(8, 12) =~= le_u32(VERSION));
    assert(bytes.subrange(12, 16) =~= le_u32(s.len() as u32));
    assert(h.len() == 16);
    lemma_parse_entries_bytes(h, s, Seq::empty(), Map::empty());
    assert(h + entries_bytes(s) + Seq::<u8>::empty() =~= bytes);
}

/// A fused executable gives back its bundle: for any non-empty base
/// binary, the bundle read from `base ++ fuse_suffix(b)` holds `b`'s files.
pub proof fn lemma_fused_roundtrip(base: Seq<u8>, b: &Bundle)
    requires
        b.wf(),
        fits_format(b.entries()),
        base.len() > 0,
        bundle_bytes(b.entries()).len() <= u64::MAX,
    ensures
        parse_fused(base + fused_suffix_bytes(b.entries())) == Some(b@),
{
    let s = b.entries();
    let bb = bundle_bytes(s);
    let img = base + fused_suffix_bytes(s);
    let size = img.len() as int;
    lemma_le_u64_roundtrip(bb.len() as u64);
    assert(img =~= base + bb + le_u64(bb.len() as u64) + exe_magic());
    assert(img.subrange(size - 8, size) =~= exe_magic());
    assert(img.subrange(size - 16, size - 8) =~= le_u64(bb.len() as u64));
    assert(img.subrange(size - 16 - bb.len(), size - 16) =~= bb);
    lemma_serialize_roundtrip(b);
}

proof fn lemma_sorted_rest(s: Seq<Entry>)
    requires
        sorted_by_name(s),
        s.len() > 0,
    ensures
        sorted_by_name(s.drop_first()),
{
    let r = s.drop_first();
    assert forall|i: int, j: int| 0 <= i < j < r.len() implies lex_lt(#[trigger] name_key(r[i].0), #[trigger] name_key(r[j].0)) by {
        assert(r[i] == s[i + 1]);
        assert(r[j] == s[j + 1]);
    }
}

proof fn lemma_first_is_least(a: Seq<Entry>, b: Seq<Entry>)
    requires
        sorted_by_name(a),
        sorted_by_name(b),
        a.len() > 0,
        b.len() > 0,
        has_name(b, a[0].0),
        has_name(a, b[0].0),
    ensures
        a[0].0 == b[0].0,
{
    let x = a[0].0;
    let y = b[0].0;
    if x != y {
        let j = choose|j: int| 0 <= j < b.len() && #[trigger] b[j].0 == x;
        let i = choose|i: int| 0 <= i < a.len() && #[trigger] a[i].0 == y;
        assert(j > 0);
        assert(i > 0);
        assert(lex_lt(name_key(y), name_key(b[j].0)));
        assert(lex_lt(name_key(x), name_key(a[i].0)));
        lemma_lex_transitive(name_key(x), name_key(y), name_key(x));
        lemma_lex_irreflexive(name_key(x));
    }
}

proof fn lemma_sorted_same_map(a: Seq<Entry>, b: Seq<Entry>)
    requires
        sorted_by_name(a),
        sorted_by_name(b),
        entries_map(a) == entries_map(b),
    ensures
        a == b,
    decreases a.len(),
{
    lemma_sorted_distinct(a);
    lemma_sorted_distinct(b);
    lemma_insert_all(Map::empty(), a);
    lemma_insert_all(Map::empty(), b);
    let m = entries_map(a);
    if a.len() == 0 {
        if b.len() > 0 {
            assert(m.contains_key(b[0].0));
        }
        assert(a =~= b);
    } else if b.len() == 0 {
        assert(m.contains_key(a[0].0));
    } else {
        assert(m.contains_key(a[0].0));
        assert(m.contains_key(b[0].0));
        lemma_first_is_least(a, b);
        assert(m[a[0].0] == a[0].1);
        assert(m[b[0].0] == b[0].1);
        let ra = a.drop_first();
        let rb = b.drop_first();
        lemma_sorted_rest(a);
        lemma_sorted_rest(b);
        lemma_distinct_rest(a);
        lemma_distinct_rest(b);
        lemma_insert_all(Map::empty(), ra);
        lemma_insert_all(Map::empty(), rb);
        let x = a[0].0;
        assert forall|k: Seq<char>| #[trigger] entries_map(ra).contains_key(k) == entries_map(rb).contains_key(k) by {
            if has_name(ra, k) {
                let i = choose|i: int| 0 <= i < ra.len() && #[trigger] ra[i].0 == k;
                assert(a[i + 1].0 == k);
                assert(has_name(a, k));
                assert(k != x);
                assert(m.contains_key(k));
                assert(entries_map(b).contains_key(k));
                assert(has_name(b, k));
                let j = choose|j: int| 0 <= j < b.len() && #[trigger] b[j].0 == k;
                assert(j > 0);
                assert(rb[j - 1].0 == k);
            }
            if has_name(rb, k) {
                let i = choose|i: int| 0 <= i < rb.len() && #[trigger] rb[i].0 == k;
                assert(b[i + 1].0 == k);
                assert(has_name(b, k));
                assert(k != x);
                assert(entries_map(b).contains_key(k));
                assert(m.contains_key(k));
                assert(has_name(a, k));
                let j = choose|j: int| 0 <= j < a.len() && #[trigger] a[j].0 == k;
                assert(j > 0);
                assert(ra[j - 1].0 == k);
            }
        }
        assert forall|k: Seq<char>| entries_map(ra).contains_key(k) implies #[trigger] entries_map(ra)[k] == entries_map(rb)[k] by {
            let i = choose|i: int| 0 <= i < ra.len() && #[trigger] ra[i].0 == k;
            let j = choose|j: int| 0 <= j < rb.len() && #[trigger] rb[j].0 == k;
            assert(ra[i] == a[i + 1]);
            assert(rb[j] == b[j + 1]);
            assert(m[a[i + 1].0] == a[i + 1].1);
            assert(m[b[j + 1].0] == b[j + 1].1);
        }
        assert(entries_map(ra) =~= entries_map(rb));
        lemma_sorted_same_map(ra, rb);
        assert(a =~= seq![a[0]] + ra);
        assert(b =~= seq![b[0]] + rb);
    }
}

/// The stored form of a bundle depends only on its files: two
/// well-formed bundles with the same files serialize to the same bytes.
pub proof fn lemma_serialize_canonical(a: &Bundle, b: &Bundle)
    requires
        a.wf(),
        b.wf(),
        a@ == b@,
    ensures
        bundle_bytes(a.entries()) == bundle_bytes(b.entries()),
{
    lemma_sorted_same_map(a.entries(), b.entries());
}

/// The names of a list of entries, in order.
pub open spec fn names_of(s: Seq<Entry>) -> Seq<Seq<char>> {
    s.map_values(|e: Entry| e.0)
}

/// The sizes of the files `m` holds under `names`, summed in order.
pub open spec fn sizes_of(m: Map<Seq<char>, Seq<u8>>, names: Seq<Seq<char>>) -> nat
    decreases names.len(),
{
    if names.len() == 0 {
        0
    } else {
        sizes_of(m, names.drop_last()) + m[names.last()].len()
    }
}

proof fn lemma_sizes_prefix(m: Map<Seq<char>, Seq<u8>>, s: Seq<Entry>, i: int)
    requires
        0 <= i <= s.len(),
        forall|j: int| 0 <= j < s.len() ==> m[#[trigger] s[j].0] == s[j].1,
    ensures
        total_len(s.take(i)) == sizes_of(m, names_of(s).take(i)),
    decreases i,
{
    if i > 0 {
        lemma_sizes_prefix(m, s, i - 1);
        assert(s.take(i).drop_last() =~= s.take(i - 1));
        assert(names_of(s).take(i).drop_last() =~= names_of(s).take(i - 1));
        assert(names_of(s).take(i).last() == s[i - 1].0);
        assert(m[s[i - 1].0] == s[i - 1].1);
    }
}

/// What `names`, `get`, `file_count` and `total_bytes` report agree: the
/// names list every stored file exactly once, their number is the number
/// of files, and the total size is the sum, over the names, of the sizes
/// of the files stored under them.
pub proof fn lemma_names_agree(b: &Bundle)
    requires
        b.wf(),
    ensures
        names_of(b.entries()).len() == b@.dom().len(),
        forall|i: int, j: int| 0 <= i < j < names_of(b.entries()).len()
            ==> names_of(b.entries())[i] != names_of(b.entries())[j],
        forall|k: Seq<char>| b@.contains_key(k) <==> names_of(b.entries()).contains(k),
        total_len(b.entries()) == sizes_of(b@, names_of(b.entries())),
{
    b.lemma_entries();
    let s = b.entries();
    let ns = names_of(s);
    assert forall|i: int, j: int| 0 <= i < j < ns.len() implies ns[i] != ns[j] by {
        assert(ns[i] == s[i].0 && ns[j] == s[j].0);
    }
    assert forall|k: Seq<char>| b@.contains_key(k) <==> ns.contains(k) by {
        if b@.contains_key(k) {
            assert(has_name(s, k));
            let j = choose|j: int| 0 <= j < s.len() && #[trigger] s[j].0 == k;
            assert(ns[j] == k);
        }
        if ns.contains(k) {
            let j = choose|j: int| 0 <= j < ns.len() && ns[j] == k;
            assert(s[j].0 == k);
            assert(b@.contains_key(s[j].0));
        }
    }
    lemma_sizes_prefix(b@, s, s.len() as int);
    assert(s.take(s.len() as int) =~= s);
    assert(ns.take(ns.len() as int) =~= ns);
}

} // verus!
