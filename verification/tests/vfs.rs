use usagi::bundle::Bundle;
use usagi::vfs::{is_meta_chunk, module_candidates, BundleBacked, FsBacked, VirtualFs};

#[test]
fn module_candidates_normalizes_dots() {
    assert_eq!(module_candidates("foo"), Some(vec!["foo.lua".into(), "foo/init.lua".into()]));
    assert_eq!(
        module_candidates("a.b.c"),
        Some(vec!["a/b/c.lua".into(), "a/b/c/init.lua".into()])
    );
}

#[test]
fn module_candidates_rejects_unsafe_names() {
    assert_eq!(module_candidates(""), None);
    assert_eq!(module_candidates("../escape"), None);
    assert_eq!(module_candidates("foo/bar"), None);
    assert_eq!(module_candidates("foo\\bar"), None);
    assert_eq!(module_candidates(".foo"), None);
    assert_eq!(module_candidates("foo."), None);
    assert_eq!(module_candidates("foo..bar"), None);
}

#[test]
fn is_meta_chunk_recognizes_lsp_marker() {
    assert!(is_meta_chunk(b"---@meta\ngfx = {}\n"));
    assert!(is_meta_chunk(b"\n---@meta\nstuff\n"));
    assert!(is_meta_chunk(b"  ---@meta\n"));
    assert!(!is_meta_chunk(b"-- normal comment\nlocal x = 1\n"));
    assert!(!is_meta_chunk(b"local M = {}\nreturn M\n"));
    assert!(!is_meta_chunk(b""));
}

#[test]
fn is_meta_chunk_decodes_up_to_a_character_cut_at_256_bytes() {
    let mut bytes = b"---@meta\n".to_vec();
    bytes.extend_from_slice(&[b'a'; 246]);
    bytes.extend_from_slice("é".as_bytes());
    assert_eq!(bytes.len(), 257);
    assert!(is_meta_chunk(&bytes));
    let mut plain = b"local x = 1\n".to_vec();
    plain.extend_from_slice(&[b'a'; 243]);
    plain.extend_from_slice("é".as_bytes());
    assert!(!is_meta_chunk(&plain));
    assert!(!is_meta_chunk(&[0xff, b'-', b'-']));
}

#[test]
fn bundle_backed_read_module_resolves_dots_and_init() {
    let mut b = Bundle::new();
    b.insert("main.lua", b"".to_vec());
    b.insert("enemies.lua", b"-- enemies".to_vec());
    b.insert("world/tiles.lua", b"-- tiles".to_vec());
    b.insert("ui/init.lua", b"-- ui init".to_vec());
    let vfs = BundleBacked::new(b);
    assert_eq!(vfs.read_module("enemies").map(|(b, _)| b), Some(b"-- enemies".to_vec()));
    assert_eq!(vfs.read_module("world.tiles").map(|(b, _)| b), Some(b"-- tiles".to_vec()));
    assert_eq!(vfs.read_module("ui").map(|(b, _)| b), Some(b"-- ui init".to_vec()));
    assert!(vfs.read_module("missing").is_none());
}

#[test]
fn bundle_backed_reads_mapped_paths() {
    let mut b = Bundle::new();
    b.insert("main.lua", b"-- bundled".to_vec());
    b.insert("sprites.png", vec![1, 2, 3]);
    b.insert("sfx/jump.wav", vec![4, 5, 6]);
    let vfs = BundleBacked::new(b);
    assert_eq!(vfs.read_script().as_deref(), Some(b"-- bundled".as_slice()));
    assert_eq!(vfs.read_sprites().as_deref(), Some([1, 2, 3].as_slice()));
    assert_eq!(vfs.read_sfx("jump").as_deref(), Some([4, 5, 6].as_slice()));
    assert_eq!(vfs.sfx_stems(), vec!["jump".to_string()]);
    assert!(!vfs.supports_reload());
    assert!(vfs.script_mtime().is_none());
}

#[test]
fn bundle_backed_music_and_chunk_names() {
    let mut b = Bundle::new();
    b.insert("music/Theme.OGG", vec![1]);
    b.insert("music/notes.txt", vec![2]);
    b.insert("music/boss.mp3", vec![3]);
    b.insert("lib/init.lua", vec![4]);
    let vfs = BundleBacked::new(b);
    assert_eq!(
        vfs.music_entries(),
        vec![("Theme".to_string(), "ogg".to_string()), ("boss".to_string(), "mp3".to_string())]
    );
    assert_eq!(vfs.read_music("boss", "mp3"), Some(vec![3]));
    assert_eq!(vfs.read_module("lib"), Some((vec![4], "lib/init.lua".to_string())));
    assert_eq!(vfs.script_name(), "main.lua");
    assert!(vfs.read_script().is_none());
    assert!(vfs.sfx_manifest().is_empty());
    assert!(vfs.module_mtime("lib").is_none());
}

#[test]
fn fs_backed_paths() {
    let vfs = FsBacked::from_script_path("games/snake/main.lua");
    assert_eq!(vfs.root(), "games/snake");
    assert_eq!(vfs.script_path().as_deref(), Some("games/snake/main.lua"));
    assert_eq!(vfs.sprites_path(), "games/snake/sprites.png");
    assert_eq!(vfs.sfx_dir(), "games/snake/sfx");
    assert_eq!(vfs.music_dir(), "games/snake/music");
    assert!(vfs.supports_reload());
    let flat = FsBacked::from_script_path("main.lua");
    assert_eq!(flat.root(), "");
    let dir = FsBacked::from_project_dir("proj".to_string());
    assert!(dir.script_path().is_none());
}
