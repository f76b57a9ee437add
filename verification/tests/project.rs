use usagi::bundle::Bundle;
use usagi::paths::{file_name, parent};
use usagi::launch::{launch_kind, Launch};
use usagi::error::Error;
use usagi::project::{data_key, extension, is_hidden, is_lua_file, join_components, music_key, sfx_key, ProjectFiles};

#[test]
fn extensions_follow_the_last_dot() {
    assert_eq!(extension("a.tar.gz").as_deref(), Some("gz"));
    assert_eq!(extension(".hidden"), None);
    assert_eq!(extension("noext"), None);
    assert_eq!(extension("trail."), Some(String::new()));
    assert!(is_lua_file("enemies.lua"));
    assert!(!is_lua_file("enemies.LUA"));
    assert!(is_hidden(".git"));
    assert!(!is_hidden("src"));
}

#[test]
fn asset_keys() {
    assert_eq!(sfx_key("jump.wav").as_deref(), Some("sfx/jump.wav"));
    assert_eq!(sfx_key("jump.WAV"), None);
    assert_eq!(music_key("theme.OGG").as_deref(), Some("music/theme.OGG"));
    assert_eq!(music_key("song.flac").as_deref(), Some("music/song.flac"));
    assert_eq!(music_key("notes.txt"), None);
    assert_eq!(join_components(&vec!["world".to_string(), "tiles.lua".to_string()]), "world/tiles.lua");
    assert_eq!(join_components(&vec![]), "");
    assert_eq!(data_key(&vec!["levels".to_string(), "01.json".to_string()]), "data/levels/01.json");
}

#[test]
fn project_bundle_skips_meta_stubs_and_keeps_the_script() {
    let files = ProjectFiles {
        script: b"function _init() end".to_vec(),
        lua: vec![
            ("enemies.lua".to_string(), b"-- enemies".to_vec()),
            ("meta/usagi.lua".to_string(), b"---@meta\ngfx = {}\n".to_vec()),
        ],
        sprites: Some(b"fake png".to_vec()),
        sfx: vec![("sfx/jump.wav".to_string(), b"wav".to_vec())],
        music: vec![("music/theme.ogg".to_string(), b"ogg".to_vec())],
        palette: Some(b"palette png".to_vec()),
        data: vec![("data/levels/01.json".to_string(), b"{}".to_vec())],
    };
    let b = Bundle::from_project_files(files);
    assert_eq!(b.get("main.lua"), Some(b"function _init() end".as_slice()));
    assert_eq!(b.get("enemies.lua"), Some(b"-- enemies".as_slice()));
    assert!(b.get("meta/usagi.lua").is_none());
    assert_eq!(b.get("sprites.png"), Some(b"fake png".as_slice()));
    assert_eq!(b.get("sfx/jump.wav"), Some(b"wav".as_slice()));
    assert_eq!(b.get("music/theme.ogg"), Some(b"ogg".as_slice()));
    assert_eq!(b.get("palette.png"), Some(b"palette png".as_slice()));
    assert_eq!(b.get("data/levels/01.json"), Some(b"{}".as_slice()));
    assert_eq!(b.file_count(), 7);
}

#[test]
fn launch_kind_recognizes_bundles() {
    assert_eq!(launch_kind("game.usagi", false).ok(), Some(Launch::Bundle));
    assert_eq!(launch_kind("dir/Game.USAGI", false).ok(), Some(Launch::Bundle));
    assert_eq!(launch_kind("main.lua", true).ok(), Some(Launch::Source));
    assert_eq!(launch_kind(".", false).ok(), Some(Launch::Source));
    match launch_kind("game.usagi", true) {
        Err(Error::Cli(m)) => assert_eq!(
            m,
            "live-reload (`usagi dev`) only works on source projects, not .usagi bundles"
        ),
        _ => panic!("expected the dev-on-bundle error"),
    }
}

#[test]
fn paths_ignore_trailing_separators_and_final_dot() {
    assert_eq!(file_name("a/b/").as_deref(), Some("b"));
    assert_eq!(file_name("a/.").as_deref(), Some("a"));
    assert_eq!(file_name("/"), None);
    assert_eq!(parent("a/b/").as_deref(), Some("a"));
    assert_eq!(parent("a//b").as_deref(), Some("a"));
    assert_eq!(parent("/x").as_deref(), Some("/"));
    assert_eq!(parent("x").as_deref(), Some(""));
    assert_eq!(parent("/"), None);
    assert!(launch_kind("game.usagi/", true).is_err());
    assert_eq!(usagi::export::project_name("examples/snake/main.lua/"), "snake");
}

#[test]
fn paths_agree_with_std_path() {
    let cases = [
        "", ".", "..", "/", "//", "/.", "./", "a", "a/", "a/.", "a/..", "a/b", "a//b", "a/./b",
        "a/../b", "./a", "../a", "/a", "//a", "/a/", "a/b/./", "a/./.", "a//b//c", "a/./b/c",
        "dir/./main.lua", "dir//main.lua", "examples/snake/main.lua", "game.usagi/", ".hidden",
        "a/.b", "a/b.", "a/..b", "/..", "a/b/..",
    ];
    for p in cases {
        let std_parent = std::path::Path::new(p).parent().map(|q| q.to_str().unwrap().to_string());
        assert_eq!(parent(p), std_parent, "parent of {:?}", p);
        let std_name = std::path::Path::new(p).file_name().map(|q| q.to_str().unwrap().to_string());
        assert_eq!(file_name(p), std_name, "file name of {:?}", p);
    }
}
