use unity_fixtures::variant::{offered_flavors, select_variants, variants, Flavor, Platform, Variant};

#[test]
fn names_are_kebab_case() {
    assert_eq!(Platform::WinX64.name(), "win-x64");
    assert_eq!(Platform::WinX86.name(), "win-x86");
    assert_eq!(Platform::LinuxX64.name(), "linux-x64");
    assert_eq!(Platform::Mac.name(), "mac");
    assert_eq!(Flavor::MonoLegacy.name(), "mono-legacy");
    assert_eq!(Flavor::MonoBdwgc.name(), "mono-bdwgc");
    assert_eq!(Flavor::Il2cppRelease.name(), "il2cpp-release");
    assert_eq!(Flavor::Il2cppMaster.name(), "il2cpp-master");
}

#[test]
fn variant_names_join_platform_and_flavor() {
    let v = Variant { platform: Platform::WinX64, flavor: Flavor::MonoBdwgc };
    assert_eq!(v.name(), "win-x64-mono-bdwgc");
    let v = Variant { platform: Platform::LinuxX64, flavor: Flavor::Il2cppRelease };
    assert_eq!(v.name(), "linux-x64-il2cpp-release");
}

#[test]
fn variant_names_are_all_different() {
    let mut names = Vec::new();
    for p in Platform::all() {
        for f in Flavor::all() {
            names.push(Variant { platform: p, flavor: f }.name());
        }
    }
    let count = names.len();
    names.sort();
    names.dedup();
    assert_eq!(count, 16);
    assert_eq!(names.len(), 16);
}

#[test]
fn all_lists_in_declaration_order() {
    assert_eq!(
        Platform::all(),
        vec![Platform::WinX64, Platform::WinX86, Platform::LinuxX64, Platform::Mac]
    );
    assert_eq!(
        Flavor::all(),
        vec![Flavor::MonoLegacy, Flavor::MonoBdwgc, Flavor::Il2cppRelease, Flavor::Il2cppMaster]
    );
}

fn v(platform: Platform, flavor: Flavor) -> Variant {
    Variant { platform, flavor }
}

#[test]
fn offered_flavors_by_version() {
    assert_eq!(
        offered_flavors("2018.4.36f1"),
        vec![Flavor::MonoLegacy, Flavor::MonoBdwgc, Flavor::Il2cppRelease, Flavor::Il2cppMaster]
    );
    assert_eq!(
        offered_flavors("6000.5.10f1"),
        vec![Flavor::MonoBdwgc, Flavor::Il2cppRelease, Flavor::Il2cppMaster]
    );
    assert_eq!(
        offered_flavors("5.6.7f1"),
        vec![Flavor::MonoLegacy, Flavor::Il2cppRelease, Flavor::Il2cppMaster]
    );
}

#[test]
fn no_variant_requested_means_every_offered_variant() {
    let all = select_variants(vec![], "6000.5.10f1").unwrap();
    assert_eq!(all.len(), 12);
    assert_eq!(all[0], v(Platform::WinX64, Flavor::MonoBdwgc));
    assert_eq!(all[1], v(Platform::WinX64, Flavor::Il2cppRelease));
    assert_eq!(all[3], v(Platform::WinX86, Flavor::MonoBdwgc));
    assert_eq!(all[11], v(Platform::Mac, Flavor::Il2cppMaster));
    assert_eq!(select_variants(vec![], "2018.4.36f1").unwrap().len(), 16);
}

#[test]
fn requested_variants_are_kept_in_their_order() {
    let requested = vec![
        v(Platform::LinuxX64, Flavor::Il2cppRelease),
        v(Platform::WinX64, Flavor::MonoBdwgc),
    ];
    assert_eq!(select_variants(requested.clone(), "2019.4.1f1"), Ok(requested));
}

#[test]
fn a_variant_the_editor_cannot_build_is_refused() {
    let requested = vec![
        v(Platform::WinX64, Flavor::Il2cppRelease),
        v(Platform::Mac, Flavor::MonoLegacy),
        v(Platform::WinX64, Flavor::MonoLegacy),
    ];
    assert_eq!(select_variants(requested, "2019.4.1f1"), Err(v(Platform::Mac, Flavor::MonoLegacy)));
    assert_eq!(
        select_variants(vec![v(Platform::WinX86, Flavor::MonoBdwgc)], "5.6.7f1"),
        Err(v(Platform::WinX86, Flavor::MonoBdwgc))
    );
}

#[test]
fn variant_names_read_back() {
    for p in Platform::all() {
        for f in Flavor::all() {
            let variant = v(p, f);
            assert_eq!(Variant::from_name(&variant.name()), Some(variant));
        }
    }
    assert_eq!(
        Variant::from_name("linux-x64-il2cpp-release"),
        Some(v(Platform::LinuxX64, Flavor::Il2cppRelease))
    );
    assert_eq!(Variant::from_name("win-x64"), None);
    assert_eq!(Variant::from_name("win-x64-mono"), None);
    assert_eq!(Variant::from_name("Win-x64-mono-bdwgc"), None);
    assert_eq!(Variant::from_name(""), None);
}

#[test]
fn variants_go_platform_by_platform() {
    let v = variants(
        &vec![Platform::WinX64, Platform::Mac],
        &vec![Flavor::MonoBdwgc, Flavor::Il2cppRelease, Flavor::Il2cppMaster],
    );
    let names: Vec<String> = v.iter().map(|v| v.name()).collect();
    assert_eq!(
        names,
        vec![
            "win-x64-mono-bdwgc",
            "win-x64-il2cpp-release",
            "win-x64-il2cpp-master",
            "mac-mono-bdwgc",
            "mac-il2cpp-release",
            "mac-il2cpp-master",
        ]
    );
    assert!(variants(&vec![], &vec![Flavor::MonoBdwgc]).is_empty());
    assert!(variants(&vec![Platform::Mac], &vec![]).is_empty());
}
