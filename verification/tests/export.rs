use usagi::export::{
    all_export_outcome, archive_name_from_url, check_export_flags, default_output_path,
    project_name, runtime_source, staged_exe_name, target_produces_web, template_target_for,
    ExportTarget, RuntimeSource,
};
use usagi::error::Error;
use usagi::templates::Target;

#[test]
fn target_produces_web_table() {
    assert!(target_produces_web(ExportTarget::All));
    assert!(target_produces_web(ExportTarget::Web));
    assert!(!target_produces_web(ExportTarget::Bundle));
    assert!(!target_produces_web(ExportTarget::Linux));
    assert!(!target_produces_web(ExportTarget::Macos));
    assert!(!target_produces_web(ExportTarget::Windows));
}

#[test]
fn project_name_uses_parent_for_main_lua() {
    assert_eq!(project_name("examples/snake/main.lua"), "snake");
}

#[test]
fn project_name_uses_stem_for_flat_script() {
    assert_eq!(project_name("examples/hello.lua"), "hello");
}

#[test]
fn project_name_edge_cases() {
    assert_eq!(project_name("main.lua"), "main");
    assert_eq!(project_name("/main.lua"), "main");
    assert_eq!(project_name(""), "game");
    assert_eq!(project_name("games/.hidden"), ".hidden");
    assert_eq!(project_name("a/b.tar.gz"), "b.tar");
}

#[test]
fn archive_name_from_url_preserves_known_extensions() {
    assert_eq!(
        archive_name_from_url("https://x.test/v1/usagi-1.0-linux-x86_64.tar.gz"),
        "usagi-1.0-linux-x86_64.tar.gz"
    );
    assert_eq!(
        archive_name_from_url("https://x.test/v1/usagi-1.0-windows-x86_64.zip"),
        "usagi-1.0-windows-x86_64.zip"
    );
}

#[test]
fn archive_name_from_url_falls_back_when_unrecognized() {
    assert_eq!(archive_name_from_url("https://x.test/blob"), "template.tar.gz");
}

#[test]
fn archive_name_from_url_drops_query_and_fragment() {
    assert_eq!(archive_name_from_url("https://x.test/a.tgz?token=1"), "a.tgz");
    assert_eq!(archive_name_from_url("https://x.test/a.zip#frag"), "a.zip");
    assert_eq!(archive_name_from_url("https://x.test/a?x=b.zip"), "template.tar.gz");
}

#[test]
fn template_targets_map_one_to_one() {
    assert_eq!(template_target_for(ExportTarget::Linux), Some(Target::Linux));
    assert_eq!(template_target_for(ExportTarget::Macos), Some(Target::Macos));
    assert_eq!(template_target_for(ExportTarget::Windows), Some(Target::Windows));
    assert_eq!(template_target_for(ExportTarget::Web), Some(Target::Wasm));
    assert_eq!(template_target_for(ExportTarget::All), None);
    assert_eq!(template_target_for(ExportTarget::Bundle), None);
}

#[test]
fn default_output_paths_follow_the_target() {
    assert_eq!(default_output_path("snake", ExportTarget::All), "export");
    assert_eq!(default_output_path("snake", ExportTarget::Bundle), "snake.usagi");
    assert_eq!(default_output_path("snake", ExportTarget::Linux), "snake-linux.zip");
    assert_eq!(default_output_path("snake", ExportTarget::Macos), "snake-macos.zip");
    assert_eq!(default_output_path("snake", ExportTarget::Windows), "snake-windows.zip");
    assert_eq!(default_output_path("snake", ExportTarget::Web), "snake-web.zip");
}

#[test]
fn staged_exe_gets_exe_suffix_only_on_windows() {
    assert_eq!(staged_exe_name("snake", Target::Windows), "snake.exe");
    assert_eq!(staged_exe_name("snake", Target::Linux), "snake");
    assert_eq!(staged_exe_name("snake", Target::Macos), "snake");
}

fn message(e: Error) -> String {
    match e {
        Error::Cli(m) => m,
    }
}

#[test]
fn export_flags_are_checked_against_the_target() {
    let e = check_export_flags(ExportTarget::Bundle, true, false, false).err().unwrap();
    assert_eq!(
        message(e),
        "--template-path / --template-url only apply to --target {linux,macos,windows,web}"
    );
    let e = check_export_flags(ExportTarget::Linux, false, false, true).err().unwrap();
    assert_eq!(message(e), "--web-shell only applies to --target {web,all}");
    assert_eq!(check_export_flags(ExportTarget::Web, true, false, true).ok(), Some(Some(Target::Wasm)));
    assert_eq!(check_export_flags(ExportTarget::All, false, false, true).ok(), Some(None));
}

#[test]
fn runtime_source_prefers_explicit_flags_then_host_then_cache() {
    assert_eq!(
        runtime_source(Some("t"), true, Some("u"), None, Target::Linux),
        RuntimeSource::Dir("t".to_string())
    );
    assert_eq!(
        runtime_source(Some("t.tar.gz"), false, None, None, Target::Linux),
        RuntimeSource::Archive("t.tar.gz".to_string())
    );
    assert_eq!(
        runtime_source(None, false, Some("https://x/a.zip"), Some(Target::Windows), Target::Windows),
        RuntimeSource::Url("https://x/a.zip".to_string())
    );
    assert_eq!(
        runtime_source(None, false, None, Some(Target::Linux), Target::Linux),
        RuntimeSource::HostExe
    );
    assert_eq!(
        runtime_source(None, false, None, Some(Target::Linux), Target::Wasm),
        RuntimeSource::Cache
    );
}

#[test]
fn all_export_fails_only_when_every_target_failed() {
    let ok = all_export_outcome(vec![Err(Error::Cli("a".into())), Ok(()), Err(Error::Cli("b".into()))]);
    assert!(ok.is_ok());
    let err = all_export_outcome(vec![Err(Error::Cli("a".into())), Err(Error::Cli("b".into()))]);
    assert_eq!(message(err.err().unwrap()), "b");
    assert!(all_export_outcome(vec![]).is_ok());
}
