use relkit::device::{select_device, Device};
use relkit::Error;

fn listing() -> Vec<Device> {
    vec![
        Device {
            id: "emulator-5554".to_string(),
            name: "Android emulator".to_string(),
            target_platform: "android-x64".to_string(),
        },
        Device {
            id: "windows".to_string(),
            name: "Windows desktop".to_string(),
            target_platform: "Windows-x64".to_string(),
        },
        Device {
            id: "pixel-7".to_string(),
            name: "Pixel".to_string(),
            target_platform: "android-arm64".to_string(),
        },
    ]
}

#[test]
fn auto_select_without_filter_is_empty() {
    let ds = listing();
    assert_eq!(select_device(&ds, "", None).unwrap(), "");
}

#[test]
fn auto_select_with_filter_takes_first_match() {
    let ds = listing();
    let p = "android".to_string();
    assert_eq!(select_device(&ds, "", Some(&p)).unwrap(), "emulator-5554");
}

#[test]
fn platform_filter_is_case_insensitive() {
    let ds = listing();
    let p = "windows".to_string();
    assert_eq!(select_device(&ds, "", Some(&p)).unwrap(), "windows");
}

#[test]
fn index_selects_within_the_filtered_listing() {
    let ds = listing();
    let p = "android".to_string();
    assert_eq!(select_device(&ds, "1", Some(&p)).unwrap(), "pixel-7");
    assert_eq!(select_device(&ds, "1", None).unwrap(), "windows");
}

#[test]
fn out_of_range_index_is_an_error() {
    let ds = listing();
    assert_eq!(select_device(&ds, "3", None).unwrap_err(), Error::DeviceIndexOutOfRange);
}

#[test]
fn unmatched_platform_is_an_error() {
    let ds = listing();
    let p = "ios".to_string();
    assert_eq!(
        select_device(&ds, "", Some(&p)).unwrap_err(),
        Error::NoMatchingDevice("ios".to_string())
    );
}

#[test]
fn non_numeric_spec_is_taken_verbatim() {
    let ds = listing();
    assert_eq!(select_device(&ds, "emulator-5554", None).unwrap(), "emulator-5554");
    assert_eq!(select_device(&ds, "some-other-id", None).unwrap(), "some-other-id");
}
