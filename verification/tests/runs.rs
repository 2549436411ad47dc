use unity_fixtures::manifest::{asset_digest, asset_url, manifest_entry, to_hex, RELEASES};
use unity_fixtures::run::{
    asset_file_name, build_log_name, editor_args, needs_runtime_switch, prepare,
    runtime_log_name, Run,
};
use unity_fixtures::variant::{Flavor, Platform, Variant};

fn strings(list: &[&str]) -> Vec<String> {
    list.iter().map(|p| p.to_string()).collect()
}

#[test]
fn create_project_args() {
    assert_eq!(Run::CreateProject.args("/w/project", "2019.4.1f1"), strings(&["-createProject", "/w/project"]));
}

#[test]
fn prepare_args() {
    assert_eq!(
        Run::Prepare.args("/w/project", "2019.4.1f1"),
        strings(&["-projectPath", "/w/project", "-executeMethod", "FixtureBuild.Prepare"])
    );
}

#[test]
fn set_runtime_args() {
    let v = Variant { platform: Platform::WinX86, flavor: Flavor::MonoLegacy };
    assert_eq!(
        Run::SetRuntime(v).args("/w/project", "2018.4.36f1"),
        strings(&[
            "-projectPath",
            "/w/project",
            "-executeMethod",
            "FixtureBuild.SetRuntime",
            "-fixtureVariant",
            "win-x86-mono-legacy",
        ])
    );
}

#[test]
fn build_args() {
    let v = Variant { platform: Platform::Mac, flavor: Flavor::Il2cppMaster };
    let run = Run::Build { variant: v, out: "/w/mac-il2cpp-master".to_string() };
    assert_eq!(
        run.args("/w/project", "2017.2.0f3"),
        strings(&[
            "-projectPath",
            "/w/project",
            "-executeMethod",
            "FixtureBuild.Build",
            "-buildTarget",
            "StandaloneOSXUniversal",
            "-fixtureOut",
            "/w/mac-il2cpp-master",
            "-fixtureVariant",
            "mac-il2cpp-master",
        ])
    );
}

#[test]
fn editor_runs_headless_with_a_log() {
    assert_eq!(
        editor_args("/w/prepare.log", &strings(&["-a", "b"])),
        strings(&["-batchmode", "-nographics", "-quit", "-logFile", "/w/prepare.log", "-a", "b"])
    );
}

#[test]
fn prepare_copies_assets_and_runs_the_preparation() {
    let p = prepare("/w/project", "6000.5.10f1");
    assert_eq!(p.assets_from, "assets");
    assert_eq!(p.assets_to, "Assets");
    assert_eq!(p.log, "prepare.log");
    assert_eq!(p.args, Run::Prepare.args("/w/project", "6000.5.10f1"));
}

#[test]
fn runtime_switch_only_where_the_editor_toggles() {
    assert!(needs_runtime_switch(Flavor::MonoBdwgc, "2018.4.36f1"));
    assert!(needs_runtime_switch(Flavor::MonoLegacy, "2017.1.0f3"));
    assert!(!needs_runtime_switch(Flavor::Il2cppRelease, "2018.4.36f1"));
    assert!(!needs_runtime_switch(Flavor::MonoBdwgc, "2019.4.1f1"));
    assert!(!needs_runtime_switch(Flavor::MonoLegacy, "5.6.7f1"));
}

#[test]
fn log_and_asset_names() {
    assert_eq!(runtime_log_name(Flavor::MonoBdwgc), "runtime-mono-bdwgc.log");
    assert_eq!(build_log_name("6000.5.10f1", "win-x64-mono-bdwgc"), "unity-6000.5.10f1-win-x64-mono-bdwgc.log");
    assert_eq!(asset_file_name("6000.5.10f1", "win-x64-mono-bdwgc"), "unity-6000.5.10f1-win-x64-mono-bdwgc.zip");
}

#[test]
fn asset_url_points_into_the_version_release() {
    assert_eq!(
        asset_url("6000.5.10f1", "win-x64-il2cpp-master"),
        format!("{}/unity-6000.5.10f1/unity-6000.5.10f1-win-x64-il2cpp-master.zip", RELEASES)
    );
    assert!(RELEASES.starts_with("https://github.com/"));
}

#[test]
fn hex_is_two_lowercase_digits_a_byte() {
    assert_eq!(to_hex(&[0x0a, 0x14, 0x1e, 0xff, 0x00]), "0a141eff00");
    assert_eq!(to_hex(&[]), "");
}

#[test]
fn digest_of_known_inputs() {
    let (size, digest) = asset_digest(b"abc");
    assert_eq!(size, 3);
    assert_eq!(digest, "ba7816bf8f01cfea414140de5dae2223b00361a396177a9cb410ff61f20015ad");
    let (size, digest) = asset_digest(b"");
    assert_eq!(size, 0);
    assert_eq!(digest, "e3b0c44298fc1c149afbf4c8996fb92427ae41e4649b934ca495991b7852b855");
}

#[test]
fn manifest_entry_fields() {
    let e = manifest_entry("6000.5.10f1", "linux-x64-mono-bdwgc", 42, "ab12");
    assert_eq!(e.engine, "unity");
    assert_eq!(e.version, "6000.5.10f1");
    assert_eq!(e.variant, "linux-x64-mono-bdwgc");
    assert_eq!(e.asset, asset_url("6000.5.10f1", "linux-x64-mono-bdwgc"));
    assert_eq!(e.size, 42);
    assert_eq!(e.sha256, "ab12");
}
