use proton_vdf::apps::{has_appid, ProtonApp};
use proton_vdf::decode::read_vdf;
use proton_vdf::icons::{icon_data_url, is_cache_icon_name, mime_from_extension, str_ends_with};
use proton_vdf::text::{str_eq, u32_digits};
use proton_vdf::value::VdfMap;

fn push_string_entry(out: &mut Vec<u8>, key: &str, value: &str) {
    out.push(0x01);
    out.extend_from_slice(key.as_bytes());
    out.push(0x00);
    out.extend_from_slice(value.as_bytes());
    out.push(0x00);
}

/// A shortcuts file with one complete entry and one that lacks `exe`.
fn sample_shortcuts() -> Vec<u8> {
    let mut b: Vec<u8> = Vec::new();
    b.push(0x00);
    b.extend_from_slice(b"shortcuts");
    b.push(0x00);
    // entry "0": complete
    b.push(0x00);
    b.extend_from_slice(b"0");
    b.push(0x00);
    push_string_entry(&mut b, "icon", "/tmp/icon.png");
    b.push(0x02);
    b.extend_from_slice(b"appid");
    b.push(0x00);
    b.extend_from_slice(&123u32.to_le_bytes());
    push_string_entry(&mut b, "AppName", "Great Game");
    push_string_entry(&mut b, "LastPlayTime", "99");
    push_string_entry(&mut b, "exe", "/bin/game");
    push_string_entry(&mut b, "StartDir", "/bin");
    b.push(0x08); // close entry "0"
    // entry "1": missing exe, must be skipped
    b.push(0x00);
    b.extend_from_slice(b"1");
    b.push(0x00);
    push_string_entry(&mut b, "icon", "");
    push_string_entry(&mut b, "appid", "77");
    push_string_entry(&mut b, "appname", "Broken");
    push_string_entry(&mut b, "lastplaytime", "0");
    push_string_entry(&mut b, "startdir", "/");
    b.push(0x08); // close entry "1"
    b.push(0x08); // close shortcuts
    b.push(0x08); // close root
    b
}

#[test]
fn from_vdf_shortcut_projects_complete_entries() {
    let vdf = read_vdf(sample_shortcuts()).unwrap();
    let apps = ProtonApp::from_vdf_shortcut(&vdf).unwrap();
    assert_eq!(apps.len(), 1);
    let app = &apps[0];
    assert_eq!(app.appname, "Great Game");
    assert_eq!(app.appid, "123");
    assert_eq!(app.icon, "/tmp/icon.png");
    assert_eq!(app.lastplaytime, "99");
    assert_eq!(app.exe, "/bin/game");
    assert_eq!(app.startdir, "/bin");
    assert_eq!(app.installdir, "");
}

#[test]
fn from_vdf_shortcut_without_shortcuts_key_fails() {
    let vdf = read_vdf(vec![0x01, b'x', 0x00, b'y', 0x00, 0x08]).unwrap();
    let err = ProtonApp::from_vdf_shortcut(&vdf).unwrap_err();
    assert_eq!(err, "Unable to parse shortcuts");
}

#[test]
fn from_vdf_shortcut_with_non_object_shortcuts_fails() {
    let vdf = read_vdf(vec![
        0x01, b's', b'h', b'o', b'r', b't', b'c', b'u', b't', b's', 0x00, b'v', 0x00, 0x08,
    ])
    .unwrap();
    let err = ProtonApp::from_vdf_shortcut(&vdf).unwrap_err();
    assert_eq!(err, "Unable to parse shortcuts");
}

fn sample_app() -> ProtonApp {
    ProtonApp {
        appname: String::from("Great Game"),
        appid: String::from("123"),
        icon: String::new(),
        lastplaytime: String::from("99"),
        exe: String::from("/bin/game"),
        startdir: String::from("/bin"),
        installdir: String::from("Great Game"),
    }
}

#[test]
fn prefix_path_joins_the_compatdata_layout() {
    let app = sample_app();
    assert_eq!(
        app.prefix_path("/home/u/.local/share/Steam"),
        "/home/u/.local/share/Steam/steamapps/compatdata/123/pfx"
    );
}

#[test]
fn install_path_requires_a_recorded_directory() {
    let app = sample_app();
    assert_eq!(
        app.install_path("/steam").unwrap(),
        "/steam/steamapps/common/Great Game"
    );
    let mut bare = sample_app();
    bare.installdir = String::new();
    assert!(bare.install_path("/steam").is_none());
}

#[test]
fn has_appid_finds_only_listed_identifiers() {
    let apps = vec![sample_app()];
    assert!(has_appid(&apps, "123"));
    assert!(!has_appid(&apps, "124"));
    assert!(!has_appid(&Vec::new(), "123"));
}

#[test]
fn mime_from_extension_maps_known_suffixes() {
    assert_eq!(mime_from_extension("a.png"), "image/png");
    assert_eq!(mime_from_extension("a.jpg"), "image/jpeg");
    assert_eq!(mime_from_extension("a.jpeg"), "image/jpeg");
    assert_eq!(mime_from_extension("a.ico"), "image/x-icon");
    assert_eq!(mime_from_extension("a.gif"), "image/gif");
    assert_eq!(mime_from_extension("a.txt"), "application/octet-stream");
    assert_eq!(mime_from_extension("png"), "application/octet-stream");
}

#[test]
fn icon_data_url_encodes_the_bytes() {
    let url = icon_data_url("x.png", b"abc");
    assert_eq!(url, "data:image/png;base64,YWJj");
    let empty = icon_data_url("x.bin", b"");
    assert_eq!(empty, "data:application/octet-stream;base64,");
}

#[test]
fn cache_icon_names_are_forty_hex_digits_then_jpg() {
    let good = "0123456789abcdef0123456789abcdef01234567.jpg";
    assert_eq!(good.len(), 44);
    assert!(is_cache_icon_name(good));
    assert!(!is_cache_icon_name("0123456789ABCDEF0123456789abcdef01234567.jpg"));
    assert!(!is_cache_icon_name("0123456789abcdef0123456789abcdef01234567.png"));
    assert!(!is_cache_icon_name("123_icon.jpg"));
    assert!(!is_cache_icon_name(""));
}

#[test]
fn str_helpers_compare_by_content() {
    assert!(str_eq("abc", "abc"));
    assert!(!str_eq("abc", "abd"));
    assert!(!str_eq("abc", "ab"));
    assert!(str_ends_with("hello.png", ".png"));
    assert!(!str_ends_with("hello.png", ".jpg"));
    assert!(!str_ends_with("g", ".png"));
}

#[test]
fn u32_digits_prints_base_ten() {
    assert_eq!(u32_digits(0), "0");
    assert_eq!(u32_digits(9), "9");
    assert_eq!(u32_digits(10), "10");
    assert_eq!(u32_digits(305419896), "305419896");
    assert_eq!(u32_digits(u32::MAX), "4294967295");
}

#[test]
fn shortcut_apps_respects_entry_order() {
    let mut b: Vec<u8> = Vec::new();
    for name in ["zzz", "aaa"] {
        b.push(0x00);
        b.extend_from_slice(name.as_bytes());
        b.push(0x00);
        push_string_entry(&mut b, "icon", "");
        push_string_entry(&mut b, "appid", name);
        push_string_entry(&mut b, "appname", name);
        push_string_entry(&mut b, "lastplaytime", "0");
        push_string_entry(&mut b, "exe", "/e");
        push_string_entry(&mut b, "startdir", "/");
        b.push(0x08);
    }
    b.push(0x08);
    let sc: VdfMap = read_vdf(b).unwrap();
    let apps = proton_vdf::apps::shortcut_apps(&sc);
    assert_eq!(apps.len(), 2);
    assert_eq!(apps[0].appname, "zzz");
    assert_eq!(apps[1].appname, "aaa");
}
