//! Which files of a project directory go into its bundle, and under which
//! names. The application walks the directory and reads the files; the
//! library decides what to keep and assembles the bundle.

use vstd::prelude::*;
use crate::bundle::Bundle;
use crate::paths::{last_index, lemma_last_index};
use crate::text::{chars_of, string_of, sub_chars, is_prefix, starts_with, chars_eq};
use crate::vfs::{last_index_of, ascii_lower_str, is_music_ext_spec, is_music_ext, is_meta_spec, is_meta_chunk};

verus! {

/// The extension of a file name: what follows its last `.`, unless that
/// dot is the first character or there is none.
pub open spec fn extension_spec(name: Seq<char>) -> Option<Seq<char>> {
    match last_index_of(name, '.') {
        None => None,
        Some(k) => if k == 0 { None } else { Some(name.subrange(k + 1, name.len() as int)) },
    }
}

/// The extension of a file name (see [`extension_spec`]).
pub fn extension(name: &str) -> (r: Option<String>)
    ensures
        r is Some <==> extension_spec(name@) is Some,
        r matches Some(e) ==> e@ == extension_spec(name@)->0,
{
    let cs = chars_of(name);
    proof { lemma_last_index(cs@, '.'); }
    match last_index(cs.as_slice(), '.') {
        None => None,
        Some(k) => if k == 0 {
            None
        } else {
            let e = sub_chars(cs.as_slice(), k + 1, cs.len());
            Some(string_of(e.as_slice()))
        },
    }
}

/// Hidden entries (a name starting with `.`) are skipped by the walk.
pub fn is_hidden(name: &str) -> (r: bool)
    ensures
        r == is_prefix("."@, name@),
{
    let cs = chars_of(name);
    let dot = chars_of(".");
    starts_with(cs.as_slice(), dot.as_slice())
}

/// A Lua source file: its extension is exactly `lua`.
pub fn is_lua_file(name: &str) -> (r: bool)
    ensures
        r == (extension_spec(name@) == Some("lua"@)),
{
    match extension(name) {
        Some(e) => {
            let a = chars_of(e.as_str());
            let b = chars_of("lua");
            chars_eq(a.as_slice(), b.as_slice())
        },
        None => false,
    }
}

/// The bundle name of a file in `sfx/`: `sfx/<name>` for a `.wav` file.
pub open spec fn sfx_key_spec(name: Seq<char>) -> Option<Seq<char>> {
    if extension_spec(name) == Some("wav"@) {
        Some("sfx/"@ + name)
    } else {
        None
    }
}

/// The bundle name of a file in `sfx/`, when it is bundled.
pub fn sfx_key(file_name: &str) -> (r: Option<String>)
    ensures
        r is Some <==> sfx_key_spec(file_name@) is Some,
        r matches Some(k) ==> k@ == sfx_key_spec(file_name@)->0,
{
    match extension(file_name) {
        Some(e) => {
            let a = chars_of(e.as_str());
            let b = chars_of("wav");
            if chars_eq(a.as_slice(), b.as_slice()) {
                let mut k = String::from_str("sfx/");
                k.append(file_name);
                Some(k)
            } else {
                None
            }
        },
        None => None,
    }
}

/// The bundle name of a file in `music/`: `music/<name>` when its
/// extension, lower-cased, is an accepted music format.
pub open spec fn music_key_spec(name: Seq<char>) -> Option<Seq<char>> {
    match extension_spec(name) {
        Some(e) => if is_music_ext_spec(ascii_lower_str(e)) {
            Some("music/"@ + name)
        } else {
            None
        },
        None => None,
    }
}

pub(crate) fn lower_chars(s: &[char]) -> (r: Vec<char>)
    ensures
        r@ == ascii_lower_str(s@),
{
    let mut out: Vec<char> = Vec::new();
    let mut i: usize = 0;
    while i < s.len()
        invariant
            0 <= i <= s.len(),
            out@ == ascii_lower_str(s@.subrange(0, i as int)),
        decreases s.len() - i,
    {
        let c = s[i];
        let l = if 'A' <= c && c <= 'Z' { ((c as u8) + 32) as char } else { c };
        out.push(l);
        i = i + 1;
        assert(out@ =~= ascii_lower_str(s@.subrange(0, i as int)));
    }
    assert(s@.subrange(0, s@.len() as int) =~= s@);
    out
}

/// The bundle name of a file in `music/`, when it is bundled.
pub fn music_key(file_name: &str) -> (r: Option<String>)
    ensures
        r is Some <==> music_key_spec(file_name@) is Some,
        r matches Some(k) ==> k@ == music_key_spec(file_name@)->0,
{
    match extension(file_name) {
        Some(e) => {
            let a = chars_of(e.as_str());
            let low = lower_chars(a.as_slice());
            let ls = string_of(low.as_slice());
            if is_music_ext(ls.as_str()) {
                let mut k = String::from_str("music/");
                k.append(file_name);
                Some(k)
            } else {
                None
            }
        },
        None => None,
    }
}

/// The components of a relative path joined with `/`.
pub open spec fn join_components_spec(parts: Seq<Seq<char>>) -> Seq<char>
    decreases parts.len(),
{
    if parts.len() == 0 {
        Seq::empty()
    } else if parts.len() == 1 {
        parts[0]
    } else {
        join_components_spec(parts.drop_last()) + "/"@ + parts.last()
    }
}

/// The bundle name of a Lua file found under the project root: its
/// relative path's components joined with `/` on every platform.
pub fn join_components(parts: &Vec<String>) -> (r: String)
    ensures
        r@ == join_components_spec(parts@.map_values(|p: String| p@)),
{
    let ghost ps = parts@.map_values(|p: String| p@);
    let mut out = String::new();
    let mut i: usize = 0;
    while i < parts.len()
        invariant
            0 <= i <= parts.len(),
            ps == parts@.map_values(|p: String| p@),
            out@ == join_components_spec(ps.take(i as int)),
        decreases parts.len() - i,
    {
        if i > 0 {
            out.append("/");
        }
        out.append(parts[i].as_str());
        proof {
            let t = ps.take(i + 1);
            assert(t.drop_last() =~= ps.take(i as int));
            assert(t.last() == parts@[i as int]@);
            if i == 0 {
                assert(out@ =~= t[0]);
            }
        }
        i = i + 1;
    }
    assert(ps.take(parts.len() as int) =~= ps);
    out
}

/// The files read from a project directory, by kind and in the order
/// they were found. Every name is the bundle name the file goes under.
pub struct ProjectFiles {
    /// The game script, bundled as `main.lua`.
    pub script: Vec<u8>,
    /// The other `.lua` files, by relative path.
    pub lua: Vec<(String, Vec<u8>)>,
    /// `sprites.png`, when the project has one.
    pub sprites: Option<Vec<u8>>,
    /// The sound effects, named by [`sfx_key`].
    pub sfx: Vec<(String, Vec<u8>)>,
    /// The music files, named by [`music_key`].
    pub music: Vec<(String, Vec<u8>)>,
    /// `palette.png`, when the project has one.
    pub palette: Option<Vec<u8>>,
    /// Every file of the `data/` tree, named by [`data_key`].
    pub data: Vec<(String, Vec<u8>)>,
}

/// `acc` with the files of `s` inserted, first to last.
pub open spec fn insert_each(acc: Map<Seq<char>, Seq<u8>>, s: Seq<(String, Vec<u8>)>) -> Map<Seq<char>, Seq<u8>>
    decreases s.len(),
{
    if s.len() == 0 {
        acc
    } else {
        insert_each(acc, s.drop_last()).insert(s.last().0@, s.last().1@)
    }
}

/// `acc` with the Lua files of `s` inserted, first to last, leaving out
/// the type-stub files.
pub open spec fn insert_lua(acc: Map<Seq<char>, Seq<u8>>, s: Seq<(String, Vec<u8>)>) -> Map<Seq<char>, Seq<u8>>
    decreases s.len(),
{
    if s.len() == 0 {
        acc
    } else {
        let prev = insert_lua(acc, s.drop_last());
        if is_meta_spec(s.last().1@) {
            prev
        } else {
            prev.insert(s.last().0@, s.last().1@)
        }
    }
}

/// The files of a project's bundle: the script as `main.lua`, the Lua
/// files that are not type stubs, `sprites.png`, the sound effects, the
/// music, `palette.png` and the `data/` tree, inserted in that order.
pub open spec fn project_map(
    script: Seq<u8>,
    lua: Seq<(String, Vec<u8>)>,
    sprites: Option<Seq<u8>>,
    sfx: Seq<(String, Vec<u8>)>,
    music: Seq<(String, Vec<u8>)>,
    palette: Option<Seq<u8>>,
    data: Seq<(String, Vec<u8>)>,
) -> Map<Seq<char>, Seq<u8>> {
    let m0 = Map::<Seq<char>, Seq<u8>>::empty().insert("main.lua"@, script);
    let m1 = insert_lua(m0, lua);
    let m2 = match sprites {
        Some(s) => m1.insert("sprites.png"@, s),
        None => m1,
    };
    let m3 = insert_each(insert_each(m2, sfx), music);
    let m4 = match palette {
        Some(p) => m3.insert("palette.png"@, p),
        None => m3,
    };
    insert_each(m4, data)
}

/// The bundle name of a file of the `data/` tree, from the components of
/// its path relative to `data/`: `data/` and the components joined with `/`.
pub open spec fn data_key_spec(parts: Seq<Seq<char>>) -> Seq<char> {
    "data/"@ + join_components_spec(parts)
}

/// The bundle name of a file of the `data/` tree (see [`data_key_spec`]);
/// games read it by the same path relative to `data/` in development and
/// in a shipped build.
pub fn data_key(parts: &Vec<String>) -> (r: String)
    ensures
        r@ == data_key_spec(parts@.map_values(|p: String| p@)),
{
    let rel = join_components(parts);
    let mut k = String::from_str("data/");
    k.append(rel.as_str());
    k
}

fn insert_files(b: &mut Bundle, files: &Vec<(String, Vec<u8>)>, skip_meta: bool)
    ensures
        skip_meta ==> final(b)@ == insert_lua(old(b)@, files@),
        !skip_meta ==> final(b)@ == insert_each(old(b)@, files@),
{
    let ghost start = b@;
    let mut i: usize = 0;
    while i < files.len()
        invariant
            0 <= i <= files.len(),
            start == old(b)@,
            skip_meta ==> b@ == insert_lua(start, files@.take(i as int)),
            !skip_meta ==> b@ == insert_each(start, files@.take(i as int)),
        decreases files.len() - i,
    {
        proof {
            let t = files@.take(i + 1);
            assert(t.drop_last() =~= files@.take(i as int));
            assert(t.last() == files@[i as int]);
        }
        let data = files[i].1.as_slice();
        if !(skip_meta && is_meta_chunk(data)) {
            b.insert(files[i].0.as_str(), vstd::slice::slice_to_vec(data));
        }
        i = i + 1;
    }
    assert(files@.take(files.len() as int) =~= files@);
}

impl Bundle {
    /// Assembles the bundle of a project from the files read from it.
    pub fn from_project_files(files: ProjectFiles) -> (b: Bundle)
        ensures
            b.wf(),
            b@ == project_map(files.script@, files.lua@, match files.sprites {
                Some(s) => Some(s@),
                None => None,
            }, files.sfx@, files.music@, match files.palette {
                Some(p) => Some(p@),
                None => None,
            }, files.data@),
    {
        let mut b = Bundle::new();
        b.insert("main.lua", files.script);
        insert_files(&mut b, &files.lua, true);
        match files.sprites {
            Some(s) => b.insert("sprites.png", s),
            None => {},
        }
        insert_files(&mut b, &files.sfx, false);
        insert_files(&mut b, &files.music, false);
        match files.palette {
            Some(p) => b.insert("palette.png", p),
            None => {},
        }
        insert_files(&mut b, &files.data, false);
        proof { use_type_invariant(&b); }
        b
    }
}

proof fn lemma_insert_each_keeps(acc: Map<Seq<char>, Seq<u8>>, s: Seq<(String, Vec<u8>)>, k: Seq<char>)
    requires
        forall|i: int| 0 <= i < s.len() ==> (#[trigger] s[i]).0@ != k,
    ensures
        insert_each(acc, s).contains_key(k) == acc.contains_key(k),
        insert_each(acc, s)[k] == acc[k],
    decreases s.len(),
{
    if s.len() > 0 {
        lemma_insert_each_keeps(acc, s.drop_last(), k);
        assert(s.last() == s[s.len() - 1]);
    }
}

proof fn lemma_insert_lua_keeps(acc: Map<Seq<char>, Seq<u8>>, s: Seq<(String, Vec<u8>)>, k: Seq<char>)
    requires
        forall|i: int| 0 <= i < s.len() ==> (#[trigger] s[i]).0@ != k,
    ensures
        insert_lua(acc, s).contains_key(k) == acc.contains_key(k),
        insert_lua(acc, s)[k] == acc[k],
    decreases s.len(),
{
    if s.len() > 0 {
        lemma_insert_lua_keeps(acc, s.drop_last(), k);
        assert(s.last() == s[s.len() - 1]);
    }
}

/// A project's bundle runs the project's script: its `main.lua` is the
/// script, unless another file was read under that very name.
pub proof fn lemma_project_script_is_main(
    script: Seq<u8>,
    lua: Seq<(String, Vec<u8>)>,
    sprites: Option<Seq<u8>>,
    sfx: Seq<(String, Vec<u8>)>,
    music: Seq<(String, Vec<u8>)>,
    palette: Option<Seq<u8>>,
    data: Seq<(String, Vec<u8>)>,
)
    requires
        forall|i: int| 0 <= i < lua.len() ==> (#[trigger] lua[i]).0@ != "main.lua"@,
        forall|i: int| 0 <= i < sfx.len() ==> (#[trigger] sfx[i]).0@ != "main.lua"@,
        forall|i: int| 0 <= i < music.len() ==> (#[trigger] music[i]).0@ != "main.lua"@,
        forall|i: int| 0 <= i < data.len() ==> (#[trigger] data[i]).0@ != "main.lua"@,
    ensures
        project_map(script, lua, sprites, sfx, music, palette, data).contains_key("main.lua"@),
        project_map(script, lua, sprites, sfx, music, palette, data)["main.lua"@] == script,
{
    reveal_strlit("main.lua");
    reveal_strlit("sprites.png");
    reveal_strlit("palette.png");
    let k = "main.lua"@;
    let m0 = Map::<Seq<char>, Seq<u8>>::empty().insert(k, script);
    lemma_insert_lua_keeps(m0, lua, k);
    let m1 = insert_lua(m0, lua);
    assert("sprites.png"@ != k) by {
        assert("sprites.png"@[0] != k[0]);
    }
    let m2 = match sprites {
        Some(s) => m1.insert("sprites.png"@, s),
        None => m1,
    };
    lemma_insert_each_keeps(m2, sfx, k);
    lemma_insert_each_keeps(insert_each(m2, sfx), music, k);
    let m3 = insert_each(insert_each(m2, sfx), music);
    assert("palette.png"@ != k) by {
        assert("palette.png"@[0] != k[0]);
    }
    let m4 = match palette {
        Some(p) => m3.insert("palette.png"@, p),
        None => m3,
    };
    lemma_insert_each_keeps(m4, data, k);
}

/// A sound effect is bundled under `sfx/`, a music file under `music/`,
/// a data file under `data/`, so none can take the place of the script.
pub proof fn lemma_asset_keys_not_main(name: Seq<char>, parts: Seq<Seq<char>>)
    ensures
        sfx_key_spec(name) matches Some(k) ==> k != "main.lua"@,
        music_key_spec(name) matches Some(k) ==> k != "main.lua"@,
        data_key_spec(parts) != "main.lua"@,
{
    reveal_strlit("main.lua");
    reveal_strlit("data/");
    assert(data_key_spec(parts)[0] == 'd');
    assert("main.lua"@[0] == 'm');
    reveal_strlit("sfx/");
    reveal_strlit("music/");
    if let Some(k) = sfx_key_spec(name) {
        assert(k[1] == 'f');
        assert("main.lua"@[1] == 'a');
    }
    if let Some(k) = music_key_spec(name) {
        assert(k[0] == 'm');
        assert(k[1] == 'u');
        assert("main.lua"@[1] == 'a');
    }
}

} // verus!
