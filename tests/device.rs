use sensor_audio::device::{check_device_support, find_name, select_device, DeviceError};

fn names() -> Vec<String> {
    vec!["Built-in Mic".to_string(), "USB Mic".to_string()]
}

#[test]
fn desired_name_matches_ignoring_case() {
    assert_eq!(select_device(&names(), "usb mic"), Some(1));
    assert_eq!(select_device(&names(), "BUILT-IN MIC"), Some(0));
}

#[test]
fn empty_or_unknown_name_falls_back_to_default() {
    assert_eq!(select_device(&names(), ""), None);
    assert_eq!(select_device(&names(), "Headset"), None);
    assert_eq!(select_device(&Vec::new(), "usb mic"), None);
}

#[test]
fn first_matching_device_wins() {
    let list = vec!["usb mic".to_string(), "USB MIC".to_string()];
    assert_eq!(select_device(&list, "Usb Mic"), Some(0));
}

#[test]
fn case_folding_compares_whole_names() {
    assert_eq!(select_device(&names(), "usb mi"), None);
    assert_eq!(select_device(&names(), "USB MIC"), Some(1));
}

#[test]
fn scan_of_lowered_names_finds_the_first_equal_one() {
    let lowered = vec!["built-in mic".to_string(), "usb mic".to_string(), "usb mic".to_string()];
    assert_eq!(find_name(&lowered, &"usb mic".to_string()), Some(1));
    assert_eq!(find_name(&lowered, &"USB Mic".to_string()), None);
    assert_eq!(find_name(&Vec::new(), &"usb mic".to_string()), None);
}

#[test]
fn capabilities_are_checked_in_order() {
    assert_eq!(check_device_support(false, false, false, 16384), Err(DeviceError::NoStereo));
    assert_eq!(check_device_support(true, false, false, 16384), Err(DeviceError::NoS16le));
    assert_eq!(check_device_support(true, true, true, 16384), Ok(()));
}

#[test]
fn unsupported_rate_is_fatal_and_names_the_rate() {
    assert_eq!(
        check_device_support(true, true, false, 16384),
        Err(DeviceError::UnsupportedRate(16384))
    );
}
