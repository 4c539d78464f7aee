use phone_agent::cli::{parse_lang, CliDeviceType};
use phone_agent::device::{
    inet_address, is_connected_in, route_source_word, select_device, DeviceInfo,
    app_for_focus_line, connect_reply_ok, device_from_words, get_package_name,
    list_supported_apps, needs_ime_switch, swipe_duration_ms, tcpip_reply_ok,
    connection_type_for, get_adb_prefix, normalize_address, screencap_refused, AdbConnection,
    ConnectionType, DeviceFactory, DeviceType, ScreenshotSaver,
};
use phone_agent::i18n::{get_message, Language};

#[test]
fn test_device_type_default() {
    let factory = DeviceFactory::default();
    assert_eq!(factory.device_type(), DeviceType::Adb);
}

#[test]
fn test_language_from_str() {
    assert_eq!(Language::from_str("en"), Language::English);
    assert_eq!(Language::from_str("English"), Language::English);
    assert_eq!(Language::from_str("cn"), Language::Chinese);
    assert_eq!(Language::from_str("zh"), Language::Chinese);
}

#[test]
fn test_get_message() {
    assert_eq!(get_message("thinking", Language::Chinese), "思考过程");
    assert_eq!(get_message("thinking", Language::English), "Thinking");
}

#[test]
fn unknown_message_key_is_returned() {
    assert_eq!(get_message("no_such_key", Language::English), "no_such_key");
    assert_eq!(get_message("done", Language::English), "Done");
}

#[test]
fn language_codes() {
    assert_eq!(Language::English.as_str(), "en");
    assert_eq!(Language::Chinese.as_str(), "cn");
    assert_eq!(Language::from_str("ENGLISH"), Language::English);
    assert_eq!(Language::default(), Language::Chinese);
}

#[test]
fn cli_choices() {
    assert_eq!(CliDeviceType::from_str("ADB"), Ok(CliDeviceType::Adb));
    assert_eq!(CliDeviceType::from_str("hdc"), Ok(CliDeviceType::Hdc));
    assert_eq!(CliDeviceType::from_str("iOS"), Ok(CliDeviceType::Ios));
    assert_eq!(CliDeviceType::from_str("win"), Err("Invalid device type: win".to_string()));
    assert_eq!(CliDeviceType::Ios.tool_name(), "libimobiledevice");
    assert_eq!(CliDeviceType::Hdc.tool_cmd(), "hdc");
    assert_eq!(CliDeviceType::Adb.tool_cmd(), "adb");
    assert_eq!(CliDeviceType::Adb.tool_name(), "ADB");
    assert_eq!(parse_lang("EN"), Language::English);
    assert_eq!(parse_lang("cn"), Language::Chinese);
    assert_eq!(parse_lang("english"), Language::Chinese);
}

#[test]
fn device_helpers() {
    assert_eq!(get_adb_prefix(None), vec!["adb".to_string()]);
    assert_eq!(
        get_adb_prefix(Some("emulator-5554")),
        vec!["adb".to_string(), "-s".to_string(), "emulator-5554".to_string()]
    );
    assert_eq!(normalize_address("192.168.1.2"), "192.168.1.2:5555");
    assert_eq!(normalize_address("192.168.1.2:7000"), "192.168.1.2:7000");
    assert_eq!(connection_type_for("10.0.0.1:5555"), ConnectionType::Remote);
    assert_eq!(connection_type_for("emulator-5554"), ConnectionType::Usb);
    assert!(screencap_refused("Status: -1"));
    assert!(screencap_refused("Failed to capture"));
    assert!(!screencap_refused("ok"));
    assert_eq!(AdbConnection::new().adb_path, "adb");
    assert_eq!(AdbConnection::with_path("/opt/adb".to_string()).adb_path, "/opt/adb");
    assert_eq!(DeviceFactory::new(DeviceType::Adb).device_type(), DeviceType::Adb);
}

#[test]
fn screenshot_files_numbered() {
    let mut s = ScreenshotSaver::with_session("/base".to_string(), "/base/s1".to_string());
    assert_eq!(s.step_count(), 0);
    assert_eq!(s.next_file_name("2024-01-01_00-00-00-000"), "step_001_2024-01-01_00-00-00-000.png");
    assert_eq!(s.step_count(), 1);
    for _ in 0..1000 {
        s.next_file_name("x");
    }
    assert_eq!(s.next_file_name("t"), "step_1002_t.png");
    s.reset_step_count();
    assert_eq!(s.step_count(), 0);
    s.start_session("/base/s2".to_string());
    assert_eq!(s.session_dir(), "/base/s2");
    assert_eq!(s.base_dir(), "/base");
}

#[test]
fn device_rules() {
    assert_eq!(swipe_duration_ms(0, 0, 0, 0), 1000);
    assert_eq!(swipe_duration_ms(0, 0, 1200, 1000), 2000);
    assert_eq!(swipe_duration_ms(0, 0, 1200, 0), 1440);
    assert_eq!(swipe_duration_ms(i32::MIN, i32::MIN, i32::MAX, i32::MAX), 2000);
    assert!(needs_ime_switch("com.google.android.inputmethod.latin/.LatinIME"));
    assert!(!needs_ime_switch("com.android.adbkeyboard/.AdbIME"));
    assert!(connect_reply_ok("Connected to 1.2.3.4:5555"));
    assert!(connect_reply_ok("already CONNECTED to x"));
    assert!(!connect_reply_ok("failed to connect"));
    assert!(tcpip_reply_ok("Restarting in TCP mode port: 5555", false));
    assert!(tcpip_reply_ok("", true));
    assert!(!tcpip_reply_ok("error", false));
    let words: Vec<String> = "emulator-5554 device product:sdk model:Pixel_7:x device:emu"
        .split_whitespace()
        .map(|w| w.to_string())
        .collect();
    let d = device_from_words(&words).unwrap();
    assert_eq!(d.device_id, "emulator-5554");
    assert_eq!(d.status, "device");
    assert_eq!(d.model, Some("Pixel_7".to_string()));
    assert_eq!(d.connection_type, ConnectionType::Usb);
    let short = vec!["abc".to_string()];
    assert!(device_from_words(&short).is_none());
    let plain = vec!["10.0.0.2:5555".to_string(), "offline".to_string()];
    let p = device_from_words(&plain).unwrap();
    assert_eq!(p.model, None);
    assert_eq!(p.connection_type, ConnectionType::Remote);
    assert_eq!(get_package_name("WeChat"), Some("com.tencent.mm"));
    assert_eq!(get_package_name("Nope"), None);
    assert_eq!(
        app_for_focus_line("  mCurrentFocus=Window{1 u0 com.tencent.mm/.ui.LauncherUI}"),
        Some("WeChat")
    );
    assert_eq!(app_for_focus_line("com.tencent.mm without marker"), None);
    assert_eq!(list_supported_apps().len(), 6);
}

#[test]
fn lowered_names() {
    assert_eq!(Language::from_lowered("english"), Language::English);
    assert_eq!(Language::from_lowered("English"), Language::Chinese);
    assert_eq!(CliDeviceType::from_lowered("ios"), Some(CliDeviceType::Ios));
    assert_eq!(CliDeviceType::from_lowered("IOS"), None);
    assert_eq!(phone_agent::cli::lang_from_lowered("en"), Language::English);
}

fn device(id: &str, status: &str) -> DeviceInfo {
    DeviceInfo {
        device_id: id.to_string(),
        status: status.to_string(),
        connection_type: ConnectionType::Usb,
        model: None,
        android_version: None,
    }
}

#[test]
fn device_selection() {
    let list = vec![device("a", "offline"), device("b", "device"), device("b", "x")];
    assert_eq!(select_device(&list, None), Some(0));
    assert_eq!(select_device(&list, Some("b")), Some(1));
    assert_eq!(select_device(&list, Some("z")), None);
    assert_eq!(select_device(&Vec::new(), None), None);
    assert!(is_connected_in(&list, None));
    assert!(is_connected_in(&list, Some("b")));
    assert!(!is_connected_in(&list, Some("a")));
    assert!(!is_connected_in(&Vec::new(), None));
}

#[test]
fn address_words() {
    let w = |s: &str| s.split_whitespace().map(|x| x.to_string()).collect::<Vec<String>>();
    let route = w("192.168.1.0/24 dev wlan0 proto kernel scope link src 192.168.1.7");
    assert_eq!(route_source_word(&route).map(|i| route[i].clone()), Some("192.168.1.7".to_string()));
    assert_eq!(route_source_word(&w("default via 1.1.1.1 src")), None);
    assert_eq!(inet_address(&w("inet 10.0.0.5/24 brd 10.0.0.255 scope global wlan0")), Some("10.0.0.5".to_string()));
    assert_eq!(inet_address(&w("inet6 fe80::1/64 scope link")), None);
    assert_eq!(inet_address(&w("inet /24")), None);
}
