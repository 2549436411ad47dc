use unity_fixtures::variant::{Flavor, Platform};
use unity_fixtures::version::{major_minor, resolve_version, version_from};

fn parts(path: &[&str]) -> Vec<String> {
    path.iter().map(|p| p.to_string()).collect()
}

#[test]
fn major_minor_reads_a_full_version() {
    assert_eq!(major_minor("2019.4.41f2"), (2019, 4));
    assert_eq!(major_minor("6000.5.10f1"), (6000, 5));
    assert_eq!(major_minor("5.6.7f1"), (5, 6));
    assert_eq!(major_minor("2017.3.0a1"), (2017, 3));
}

#[test]
fn major_minor_takes_missing_parts_as_zero() {
    assert_eq!(major_minor(""), (0, 0));
    assert_eq!(major_minor("2019"), (2019, 0));
    assert_eq!(major_minor("2019."), (2019, 0));
    assert_eq!(major_minor("2019f1"), (2019, 1));
}

#[test]
fn major_minor_takes_what_does_not_parse_as_zero() {
    assert_eq!(major_minor("abc"), (0, 0));
    assert_eq!(major_minor("x.7"), (0, 7));
    assert_eq!(major_minor("99999999999.3"), (0, 3));
    assert_eq!(major_minor("4294967295.1"), (4294967295, 1));
    assert_eq!(major_minor("4294967296.1"), (0, 1));
    assert_eq!(major_minor("-1.2"), (0, 2));
    assert_eq!(major_minor("2019.x4"), (2019, 0));
}

#[test]
fn major_minor_accepts_a_plus_sign_as_parse_does() {
    assert_eq!(major_minor("+5.+3"), (5, 3));
    assert_eq!(major_minor("+.3"), (0, 3));
    assert_eq!(major_minor("0007.08"), (7, 8));
}

#[test]
fn mac_target_was_renamed_in_2017_3() {
    assert_eq!(Platform::Mac.target("2017.2.5f1"), "StandaloneOSXUniversal");
    assert_eq!(Platform::Mac.target("5.6.7f1"), "StandaloneOSXUniversal");
    assert_eq!(Platform::Mac.target("2017.3.0f3"), "StandaloneOSX");
    assert_eq!(Platform::Mac.target("6000.5.10f1"), "StandaloneOSX");
    assert_eq!(Platform::WinX64.target("5.6.7f1"), "StandaloneWindows64");
    assert_eq!(Platform::WinX86.target("2019.4.1f1"), "StandaloneWindows");
    assert_eq!(Platform::LinuxX64.target("2019.4.1f1"), "StandaloneLinux64");
}

#[test]
fn mono_runtimes_by_version() {
    assert!(Flavor::MonoLegacy.offered_by("5.6.7f1"));
    assert!(!Flavor::MonoBdwgc.offered_by("5.6.7f1"));
    assert!(Flavor::MonoLegacy.offered_by("2018.4.36f1"));
    assert!(Flavor::MonoBdwgc.offered_by("2018.4.36f1"));
    assert!(Flavor::MonoBdwgc.offered_by("2017.1.0f3"));
    assert!(!Flavor::MonoLegacy.offered_by("2019.1.0f2"));
    assert!(Flavor::MonoBdwgc.offered_by("2019.1.0f2"));
    assert!(Flavor::Il2cppRelease.offered_by("5.6.7f1"));
    assert!(Flavor::Il2cppMaster.offered_by("6000.5.10f1"));
}

#[test]
fn runtime_toggle_from_2017_1_through_2018() {
    assert!(!Flavor::toggles_runtime("2016.4.40f1"));
    assert!(Flavor::toggles_runtime("2017.1.0f3"));
    assert!(Flavor::toggles_runtime("2018.4.36f1"));
    assert!(!Flavor::toggles_runtime("2019.1.0f2"));
}

#[test]
fn is_mono_holds_of_the_mono_flavors() {
    assert!(Flavor::MonoLegacy.is_mono());
    assert!(Flavor::MonoBdwgc.is_mono());
    assert!(!Flavor::Il2cppRelease.is_mono());
    assert!(!Flavor::Il2cppMaster.is_mono());
}

#[test]
fn version_from_a_hub_path() {
    let path = parts(&["/", "opt", "Hub", "Editor", "6000.5.8f1", "Editor", "Unity.exe"]);
    assert_eq!(version_from(&path), Some("6000.5.8f1".to_string()));
}

#[test]
fn version_from_takes_the_last_match() {
    let path = parts(&["2019.4.1f1", "x", "2020.3.2f1", "Unity"]);
    assert_eq!(version_from(&path), Some("2020.3.2f1".to_string()));
}

#[test]
fn version_from_needs_two_dots_a_letter_and_a_leading_digit() {
    assert_eq!(version_from(&parts(&["2019.4.1", "Unity"])), None);
    assert_eq!(version_from(&parts(&["2019.4f1", "Unity"])), None);
    assert_eq!(version_from(&parts(&["v2019.4.1f1", "Unity"])), None);
    assert_eq!(version_from(&parts(&["2019.4.1.f1"])), None);
    assert_eq!(version_from(&parts(&["1.2.3p4"])), Some("1.2.3p4".to_string()));
    assert_eq!(version_from(&parts(&[])), None);
}

#[test]
fn resolve_version_prefers_the_given_one() {
    let path = parts(&["Editor", "2019.4.1f1", "Unity"]);
    assert_eq!(resolve_version(Some("5.6.7f1".to_string()), &path), Some("5.6.7f1".to_string()));
    assert_eq!(resolve_version(None, &path), Some("2019.4.1f1".to_string()));
    assert_eq!(resolve_version(None, &parts(&["Unity"])), None);
}
