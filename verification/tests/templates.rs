use sha2::{Digest, Sha256};
use usagi::error::Error;
use usagi::templates::{
    archive_file_name, cache_templates_root, download_with_verify, locate, parse_sha256_line,
    runtime_files, sidecar_fetch_error, sidecar_url, template_base, template_cache_dir, template_url,
    verify_sha256_bytes, with_unpublished_hint, ArchiveKind, Runtime, Target,
};

fn message(e: Error) -> String {
    match e {
        Error::Cli(m) => m,
    }
}

fn sha256_hex(bytes: &[u8]) -> String {
    Sha256::digest(bytes).iter().map(|b| format!("{b:02x}")).collect()
}

#[test]
fn host_matches_export_target() {
    for (os, arch, expected) in [
        ("linux", "x86_64", Some(Target::Linux)),
        ("macos", "aarch64", Some(Target::Macos)),
        ("windows", "x86_64", Some(Target::Windows)),
        ("freebsd", "x86_64", None),
    ] {
        assert_eq!(Target::host(os, arch), expected);
    }
}

#[test]
fn host_table_covers_the_shipped_platforms() {
    assert_eq!(Target::host("linux", "x86_64"), Some(Target::Linux));
    assert_eq!(Target::host("macos", "aarch64"), Some(Target::Macos));
    assert_eq!(Target::host("windows", "x86_64"), Some(Target::Windows));
    assert_eq!(Target::host("macos", "x86_64"), None);
    assert_eq!(Target::host("linux", "aarch64"), None);
}

#[test]
fn target_names() {
    let all = Target::all();
    let names: Vec<&str> = all.iter().map(|t| t.as_str()).collect();
    assert_eq!(names, vec!["linux", "macos", "windows", "web"]);
    assert_eq!(Target::Wasm.platform_str(), "wasm");
    assert_eq!(Target::Windows.archive_ext(), "zip");
    assert_eq!(Target::Macos.archive_ext(), "tar.gz");
}

#[test]
fn template_url_includes_architecture_in_filename() {
    let url = template_url("https://example.com/dl", "0.1.0", Target::Linux);
    assert_eq!(url, "https://example.com/dl/v0.1.0/usagi-0.1.0-linux-x86_64.tar.gz");
}

#[test]
fn template_url_strips_trailing_slash() {
    let url = template_url("https://example.com/dl/", "0.1.0", Target::Windows);
    assert_eq!(url, "https://example.com/dl/v0.1.0/usagi-0.1.0-windows-x86_64.zip");
}

#[test]
fn wasm_template_url_has_no_arch_suffix() {
    let url = template_url("https://example.com", "0.1.0", Target::Wasm);
    assert_eq!(url, "https://example.com/v0.1.0/usagi-0.1.0-wasm.tar.gz");
}

#[test]
fn parse_sha256_line_accepts_double_space_format() {
    let hex = "a".repeat(64);
    let line = format!("{hex}  some-file.tar.gz\n");
    assert_eq!(parse_sha256_line(&line).unwrap(), hex);
}

#[test]
fn parse_sha256_line_rejects_non_hex() {
    let line = "zzz  bogus";
    assert!(parse_sha256_line(line).is_err());
}

#[test]
fn parse_sha256_line_errors_and_lowercasing() {
    assert_eq!(message(parse_sha256_line("  \n").unwrap_err()), "empty sha256 sidecar");
    assert_eq!(message(parse_sha256_line("zzz  bogus").unwrap_err()), "malformed sha256 in sidecar: zzz");
    let upper = "AB".repeat(32);
    assert_eq!(parse_sha256_line(&format!("\t{upper} x")).unwrap(), "ab".repeat(32));
}

#[test]
fn verify_sha256_bytes_matches_expected_hex() {
    let expected = sha256_hex(b"hello");
    assert!(verify_sha256_bytes(b"hello", &expected, "data").is_ok());
    assert!(verify_sha256_bytes(b"hello", &expected.to_uppercase(), "data").is_ok());
}

#[test]
fn verify_sha256_bytes_errors_on_mismatch() {
    let zeros = "0".repeat(64);
    let err = verify_sha256_bytes(b"hello", &zeros, "data").unwrap_err();
    let msg = message(err);
    assert!(msg.contains("mismatch"), "got: {msg}");
    assert_eq!(msg, format!("sha256 mismatch for data: expected {zeros}, got {}", sha256_hex(b"hello")));
}

#[test]
fn verify_step_passes_when_sidecar_matches() {
    let payload = b"archive-bytes".to_vec();
    let sidecar = format!("{}  archive.tar.gz\n", sha256_hex(&payload));
    assert!(download_with_verify(&sidecar, &payload, "archive.tar.gz").is_ok());
}

#[test]
fn verify_step_errors_on_hash_mismatch() {
    let bad_sidecar = format!("{}  archive.tar.gz\n", "0".repeat(64));
    let err = download_with_verify(&bad_sidecar, b"actual bytes", "archive.tar.gz").unwrap_err();
    let msg = message(err);
    assert!(msg.contains("mismatch"), "got: {msg}");
}

#[test]
fn sidecar_helpers() {
    assert_eq!(sidecar_url("https://x/a.tar.gz"), "https://x/a.tar.gz.sha256");
    let e = sidecar_fetch_error(Error::Cli("downloading x: 404".into()));
    assert_eq!(message(e), "fetching sha256 sidecar: downloading x: 404");
    let e = with_unpublished_hint(Error::Cli("downloading y: 404".into()));
    assert_eq!(
        message(e),
        "downloading y: 404. If this version isn't published, pass --template-path or --template-url."
    );
}

#[test]
fn detect_accepts_tgz_short_form() {
    assert_eq!(ArchiveKind::detect("template.tgz", "/tmp/template.tgz").ok(), Some(ArchiveKind::TarGz));
    let rt = locate("/dest", Target::Linux, vec![Ok(Some("/dest/usagi".into()))], None).unwrap();
    assert!(matches!(rt, Runtime::Native { .. }));
}

#[test]
fn detect_by_file_name() {
    assert_eq!(ArchiveKind::detect("a.tar.gz", "a.tar.gz").ok(), Some(ArchiveKind::TarGz));
    assert_eq!(ArchiveKind::detect("a.zip", "a.zip").ok(), Some(ArchiveKind::Zip));
    let err = ArchiveKind::detect("a.rar", "/x/a.rar").unwrap_err();
    assert_eq!(message(err), "unsupported archive extension (want .tar.gz, .tgz, or .zip): /x/a.rar");
}

#[test]
fn cache_layout() {
    assert_eq!(cache_templates_root("/home/u/.cache/usagi"), "/home/u/.cache/usagi/templates");
    assert_eq!(
        template_cache_dir("/c", "1.2.0", Target::Wasm),
        "/c/templates/1.2.0/web"
    );
    assert_eq!(archive_file_name("1.2.0", Target::Windows), "usagi-1.2.0-windows-x86_64.zip");
    assert_eq!(archive_file_name("1.2.0", Target::Linux), "usagi-1.2.0-linux-x86_64.tar.gz");
    assert_eq!(template_base(None), "https://github.com/brettchalupa/usagi/releases/download");
    assert_eq!(template_base(Some("https://mirror".to_string())), "https://mirror");
}

#[test]
fn runtime_file_lists() {
    assert_eq!(runtime_files(Target::Linux), vec!["usagi"]);
    assert_eq!(runtime_files(Target::Windows), vec!["usagi.exe"]);
    assert_eq!(runtime_files(Target::Wasm), vec!["usagi.js", "usagi.wasm", "shell.html"]);
}

#[test]
fn locate_reports_missing_runtime_files() {
    let err = locate("/t", Target::Linux, vec![Ok(None)], None).err().unwrap();
    assert_eq!(message(err), "usagi not found in extracted template at /t");
    let err = locate("/t", Target::Wasm, vec![Ok(Some("/t/usagi.js".into())), Ok(None), Ok(None)], None)
        .err()
        .unwrap();
    assert_eq!(message(err), "usagi.wasm not found in extracted template at /t");
    let err = locate(
        "/t",
        Target::Wasm,
        vec![Ok(Some("/t/usagi.js".into())), Ok(Some("/t/usagi.wasm".into())), Ok(None)],
        None,
    )
    .err()
    .unwrap();
    assert_eq!(message(err), "shell.html missing from wasm template and no fallback at web/shell.html");
}

#[test]
fn locate_assembles_found_runtime_files() {
    match locate("/t", Target::Windows, vec![Ok(Some("/t/a/b/usagi.exe".into()))], None) {
        Ok(Runtime::Native { exe }) => assert_eq!(exe, "/t/a/b/usagi.exe"),
        _ => panic!("expected a native runtime"),
    }
    match locate(
        "/t",
        Target::Wasm,
        vec![Ok(Some("/t/usagi.js".into())), Ok(Some("/t/usagi.wasm".into())), Ok(None)],
        Some("web/shell.html".into()),
    ) {
        Ok(Runtime::Web { js, wasm, html }) => {
            assert_eq!(js, "/t/usagi.js");
            assert_eq!(wasm, "/t/usagi.wasm");
            assert_eq!(html, "web/shell.html");
        }
        _ => panic!("expected a web runtime"),
    }
    let scan = locate("/t", Target::Macos, vec![Err(Error::Cli("scanning /t for usagi: denied".into()))], None);
    assert_eq!(message(scan.err().unwrap()), "scanning /t for usagi: denied");
}
