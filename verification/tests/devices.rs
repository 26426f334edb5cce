use api_studio::devices::{format_android_version, parse_ios_runtime_version, AndroidDeviceProvider, IosDeviceProvider};
use api_studio::json::JsonValue;
use api_studio::model::DevicePlatform;

fn strs(v: &[String]) -> Vec<&str> {
    v.iter().map(|s| s.as_str()).collect()
}

#[test]
fn proxy_commands_target_the_emulator_serial() {
    let adb = AndroidDeviceProvider;
    assert_eq!(
        strs(&adb.set_http_proxy("android:emulator-5554", "10.0.2.2", 8181)),
        vec!["-s", "emulator-5554", "shell", "settings", "put", "global", "http_proxy", "10.0.2.2:8181"]
    );
    assert_eq!(
        strs(&adb.clear_http_proxy("emulator-5556")),
        vec!["-s", "emulator-5556", "shell", "settings", "delete", "global", "http_proxy"]
    );
    assert_eq!(
        strs(&adb.get_http_proxy_command("android:emulator-5554")),
        vec!["-s", "emulator-5554", "shell", "settings", "get", "global", "http_proxy"]
    );
}

#[test]
fn unset_proxy_values_read_as_none() {
    let adb = AndroidDeviceProvider;
    assert_eq!(adb.get_http_proxy("  10.0.2.2:8181\n").as_deref(), Some("10.0.2.2:8181"));
    assert_eq!(adb.get_http_proxy("null\n"), None);
    assert_eq!(adb.get_http_proxy(":0"), None);
    assert_eq!(adb.get_http_proxy("   "), None);
}

#[test]
fn adb_listing_keeps_emulators_in_listing_order() {
    let adb = AndroidDeviceProvider;
    let output = "List of devices attached\nemulator-5556 offline product:sdk model:Pixel_7 device:emu\nR58M12345 device model:Galaxy\nemulator-5554          device product:sdk_gphone64 model:Pixel_8_Pro transport_id:1\n\n";
    let entries = adb.device_entries(output);
    assert_eq!(entries.len(), 2);
    assert_eq!(entries[0].serial, "emulator-5556");
    assert_eq!(entries[0].state, "offline");
    assert_eq!(entries[0].model, "Pixel 7");
    assert_eq!(entries[1].model, "Pixel 8 Pro");
    let devices = adb.list_devices(
        entries,
        vec![(Some("15".into()), Some("35".into())), (Some("14".into()), Some("34".into()))],
    );
    assert_eq!(devices.len(), 2);
    assert_eq!(devices[0].id, "android:emulator-5554");
    assert_eq!(devices[0].os_version.as_deref(), Some("14 (API 34)"));
    assert!(devices[0].capabilities.can_auto_route_proxy);
    assert_eq!(devices[1].state, "offline");
    assert_eq!(devices[1].os_version, None);
    assert!(!devices[1].capabilities.can_auto_route_proxy);
    assert_eq!(devices[1].platform, DevicePlatform::Android);
}

#[test]
fn adb_lines_without_a_model_use_the_serial() {
    let adb = AndroidDeviceProvider;
    let entries = adb.device_entries("List of devices attached\nemulator-5554\n");
    assert_eq!(entries.len(), 1);
    assert_eq!(entries[0].state, "unknown");
    assert_eq!(entries[0].model, "emulator-5554");
    assert!(adb.device_entries("").is_empty());
}

#[test]
fn android_versions_use_what_was_reported() {
    assert_eq!(format_android_version(Some("14".into()), Some("34".into())).as_deref(), Some("14 (API 34)"));
    assert_eq!(format_android_version(Some("14".into()), Some(String::new())).as_deref(), Some("14"));
    assert_eq!(format_android_version(None, Some("34".into())).as_deref(), Some("API 34"));
    assert_eq!(format_android_version(Some(String::new()), None), None);
}

#[test]
fn ios_runtime_identifiers_name_versions() {
    assert_eq!(parse_ios_runtime_version("com.apple.CoreSimulator.SimRuntime.iOS-17-2").as_deref(), Some("17.2"));
    assert_eq!(parse_ios_runtime_version("com.apple.CoreSimulator.SimRuntime.iOS-"), None);
    assert_eq!(parse_ios_runtime_version("com.apple.CoreSimulator.SimRuntime.watchOS-10-0"), None);
}

fn sim(udid: &str, name: &str, state: Option<&str>) -> JsonValue {
    let mut members = vec![
        ("udid".to_string(), JsonValue::String(udid.into())),
        ("name".to_string(), JsonValue::String(name.into())),
    ];
    if let Some(state) = state {
        members.push(("state".to_string(), JsonValue::String(state.into())));
    }
    JsonValue::Object(members)
}

#[test]
fn simctl_listing_puts_booted_simulators_first() {
    let root = JsonValue::Object(vec![(
        "devices".to_string(),
        JsonValue::Object(vec![
            (
                "com.apple.CoreSimulator.SimRuntime.iOS-17-2".to_string(),
                JsonValue::Array(vec![
                    sim("B", "iPhone 15", Some("Shutdown")),
                    sim("A", "iPhone SE", Some("Booted")),
                    JsonValue::Object(vec![("udid".to_string(), JsonValue::String("X".into()))]),
                ]),
            ),
            (
                "com.apple.CoreSimulator.SimRuntime.watchOS-10-0".to_string(),
                JsonValue::Array(vec![sim("W", "Watch", Some("Booted"))]),
            ),
            (
                "com.apple.CoreSimulator.SimRuntime.iOS-16-4".to_string(),
                JsonValue::Array(vec![sim("C", "iPad", None)]),
            ),
        ]),
    )]);
    let devices = IosDeviceProvider.list_devices(&root).unwrap();
    let ids: Vec<&str> = devices.iter().map(|d| d.id.as_str()).collect();
    assert_eq!(ids, vec!["ios:A", "ios:C", "ios:B"]);
    assert_eq!(devices[0].os_version.as_deref(), Some("17.2"));
    assert_eq!(devices[1].state, "Unknown");
    assert_eq!(devices[1].os_version.as_deref(), Some("16.4"));
    assert!(devices[0].capabilities.can_install_ca);
}

#[test]
fn simctl_listing_without_devices_is_refused() {
    let error = IosDeviceProvider.list_devices(&JsonValue::Object(vec![])).unwrap_err();
    assert_eq!(error.code, "simctl_devices_missing");
    assert_eq!(error.message, "devices object missing");
}

#[test]
fn simctl_output_is_read_as_json() {
    let stdout = br#"{"devices": {"com.apple.CoreSimulator.SimRuntime.iOS-17-2": [{"udid": "A", "name": "iPhone SE", "state": "Booted"}]}}"#;
    let devices = IosDeviceProvider.devices_from_output(true, stdout, b"").unwrap();
    assert_eq!(devices.len(), 1);
    assert_eq!(devices[0].id, "ios:A");
    let invalid = IosDeviceProvider.devices_from_output(true, b"not json", b"").unwrap_err();
    assert_eq!(invalid.code, "simctl_json_invalid");
    assert!(!invalid.message.is_empty());
    let failed = IosDeviceProvider.devices_from_output(false, b"", b"  no runtime \n").unwrap_err();
    assert_eq!(failed.code, "simctl_list_failed");
    assert_eq!(failed.message, "no runtime");
    assert_eq!(
        strs(&IosDeviceProvider.list_devices_command()),
        vec!["simctl", "list", "--json", "devices", "available"]
    );
    assert!(IosDeviceProvider.devices_from_output(true, b"{}", b"").is_err());
}
