use usagi::macos_app::{app_layout, info_plist_xml, xml_escape};

#[test]
fn info_plist_omits_icon_key_when_no_icns_supplied() {
    let xml = info_plist_xml("snake", "com.usagiengine.snake", false);
    assert!(!xml.contains("CFBundleIconFile"), "got: {xml}");
}

#[test]
fn info_plist_includes_required_keys_and_substituted_values() {
    let xml = info_plist_xml("snake", "com.usagiengine.snake", false);
    for key in [
        "CFBundleExecutable",
        "CFBundleIdentifier",
        "CFBundleName",
        "CFBundlePackageType",
        "CFBundleShortVersionString",
        "CFBundleVersion",
        "LSMinimumSystemVersion",
        "NSHighResolutionCapable",
    ] {
        assert!(xml.contains(key), "missing key {key} in plist");
    }
    assert!(xml.contains("<string>snake</string>"));
    assert!(xml.contains("<string>com.usagiengine.snake</string>"));
}

#[test]
fn info_plist_escapes_xml_special_chars_in_name() {
    let xml = info_plist_xml("R&D <demo>", "com.usagiengine.rd-demo", false);
    assert!(xml.contains("R&amp;D &lt;demo&gt;"), "got: {xml}");
    assert!(!xml.contains("R&D"), "raw ampersand should be escaped");
}

#[test]
fn info_plist_references_the_icon_when_supplied() {
    let xml = info_plist_xml("snake", "com.test.snake", true);
    assert!(xml.contains("    <key>CFBundleIconFile</key>\n    <string>AppIcon</string>\n    <key>CFBundleIdentifier</key>"));
}

#[test]
fn info_plist_starts_and_ends_as_a_plist() {
    let xml = info_plist_xml("x", "com.usagiengine.x", false);
    assert!(xml.starts_with("<?xml version=\"1.0\" encoding=\"UTF-8\"?>\n<!DOCTYPE plist"));
    assert!(xml.ends_with("    <true/>\n</dict>\n</plist>\n"));
}

#[test]
fn xml_escape_maps_the_five_characters() {
    assert_eq!(xml_escape("a&b<c>d'e\"f"), "a&amp;b&lt;c&gt;d&apos;e&quot;f");
    assert_eq!(xml_escape("plain"), "plain");
}

#[test]
fn app_layout_paths() {
    let l = app_layout("/stage", "snake");
    assert_eq!(l.contents, "/stage/snake.app/Contents");
    assert_eq!(l.macos_dir, "/stage/snake.app/Contents/MacOS");
    assert_eq!(l.resources, "/stage/snake.app/Contents/Resources");
    assert_eq!(l.binary, "/stage/snake.app/Contents/MacOS/snake");
}
