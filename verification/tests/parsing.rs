use m87::devices::{find_device_by_name, find_device_by_short_id, parse_devices_list};

#[test]
fn test_parse_devices_list() {
    // Test with actual CLI output format (fixed-width columns)
    let output = "DEVICE ID   NAME            STATUS   ARCH    OS                               IP              LAST SEEN            PENDING  REQUEST ID\nedc785      4d2b877982f8    online   arm64   Debian GNU/Linux 12              154.20.186.39   51 sec ago\n";
    let devices = parse_devices_list(output);
    assert_eq!(devices.len(), 1);
    assert_eq!(devices[0].short_id, "edc785");
    assert_eq!(devices[0].name, "4d2b877982f8");
    assert_eq!(devices[0].status, "online");
}

#[test]
fn test_parse_devices_list_pending() {
    // Test with pending device (no device ID)
    let output = "DEVICE ID   NAME            STATUS   ARCH    OS                               IP              LAST SEEN            PENDING  REQUEST ID\n            4d2b877982f8    pending  arm64   Debian GNU/Linux 12              154.20.186.39                        yes      4a1b6213-24ab-4742-a5d7-913be9ad61ec\n";
    let devices = parse_devices_list(output);
    // Pending devices without ID should be skipped
    assert_eq!(devices.len(), 0);
}

#[test]
fn test_parse_devices_list_narrow_fallback() {
    // narrow rows fall back to whitespace-separated fields
    let output = "abc123 mydevice online\n";
    let devices = parse_devices_list(output);
    assert_eq!(devices.len(), 1);
    assert_eq!(devices[0].short_id, "abc123");
    assert_eq!(devices[0].name, "mydevice");
    assert_eq!(devices[0].status, "online");
}

#[test]
fn test_find_device_helpers() {
    let output = "abc123 alpha online\ndef456 beta offline\n";
    let devices = parse_devices_list(output);
    assert_eq!(find_device_by_name(&devices, "beta").unwrap().short_id, "def456");
    assert!(find_device_by_name(&devices, "gamma").is_none());
    assert_eq!(find_device_by_short_id(&devices, "abc123").unwrap().name, "alpha");
    assert!(find_device_by_short_id(&devices, "zzz").is_none());
}
