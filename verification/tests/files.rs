use unity_fixtures::files::{
    asset_files, build_is_complete, last_component, names_a_player, relative_path, shipped, stem,
    wanted_stem, wanted_symbols, NOT_SHIPPED,
};
use unity_fixtures::order::sort_paths;
use unity_fixtures::variant::Flavor;

fn paths(list: &[&str]) -> Vec<String> {
    list.iter().map(|p| p.to_string()).collect()
}

#[test]
fn stem_takes_off_the_platform_extension() {
    assert_eq!(stem("UnityPlayer.dll"), "UnityPlayer");
    assert_eq!(stem("libmono.so"), "libmono");
    assert_eq!(stem("UnityPlayer.dylib"), "UnityPlayer");
    assert_eq!(stem("fixture.exe"), "fixture");
    assert_eq!(stem("global-metadata.dat"), "global-metadata.dat");
    assert_eq!(stem("libmono.0.dylib"), "libmono.0");
}

#[test]
fn stem_takes_off_one_extension_only() {
    assert_eq!(stem("a.dll.exe"), "a.dll");
    assert_eq!(stem(".dll"), "");
    assert_eq!(stem("dll"), "dll");
    assert_eq!(stem("Ünïcode.so"), "Ünïcode");
}

#[test]
fn wanted_stems_by_backend() {
    for s in ["UnityPlayer", "mono", "mono-2.0-bdwgc", "libmono", "libmono.0", "libmonobdwgc-2.0"] {
        assert!(wanted_stem(Flavor::MonoLegacy, s));
        assert!(wanted_stem(Flavor::MonoBdwgc, s));
    }
    assert!(!wanted_stem(Flavor::MonoBdwgc, "GameAssembly"));
    for s in ["UnityPlayer", "GameAssembly", "global-metadata.dat"] {
        assert!(wanted_stem(Flavor::Il2cppRelease, s));
        assert!(wanted_stem(Flavor::Il2cppMaster, s));
    }
    assert!(!wanted_stem(Flavor::Il2cppMaster, "mono"));
    assert!(!wanted_stem(Flavor::Il2cppMaster, "unityplayer"));
}

#[test]
fn wanted_symbols_by_name() {
    assert!(wanted_symbols(Flavor::Il2cppRelease, "GameAssembly.pdb"));
    assert!(wanted_symbols(Flavor::Il2cppRelease, "GameAssembly.debug"));
    assert!(wanted_symbols(Flavor::Il2cppMaster, "UnityPlayer_s.debug"));
    assert!(wanted_symbols(Flavor::MonoBdwgc, "mono-2.0-bdwgc.pdb"));
    assert!(!wanted_symbols(Flavor::Il2cppRelease, "GameAssembly.dll"));
    assert!(!wanted_symbols(Flavor::Il2cppRelease, "mono.pdb"));
    assert!(!wanted_symbols(Flavor::Il2cppRelease, "Other.pdb"));
    assert!(wanted_symbols(Flavor::Il2cppRelease, "GameAssembly_s.pdb"));
}

#[test]
fn last_component_is_the_file_name() {
    assert_eq!(last_component("a/b/GameAssembly.dll"), "GameAssembly.dll");
    assert_eq!(last_component("fixture.exe"), "fixture.exe");
    assert_eq!(last_component("dir/"), "");
}

#[test]
fn relative_path_joins_with_a_slash() {
    assert_eq!(relative_path("", "fixture.exe"), "fixture.exe");
    assert_eq!(relative_path("fixture_Data", "globalgamemanagers"), "fixture_Data/globalgamemanagers");
}

#[test]
fn shipped_leaves_out_the_backup_directory() {
    assert!(shipped("fixture_Data/il2cpp_data/Metadata/global-metadata.dat"));
    assert!(!shipped(&format!("{}/GameAssembly.pdb", NOT_SHIPPED)));
    assert!(!shipped(&format!("fixture{}/x", NOT_SHIPPED)));
}

#[test]
fn players_by_stem() {
    assert!(names_a_player("UnityPlayer"));
    assert!(names_a_player("fixture"));
    assert!(!names_a_player("GameAssembly"));
}

#[test]
fn il2cpp_build_needs_player_assembly_and_metadata() {
    let built = paths(&[
        "GameAssembly.dll",
        "UnityPlayer.dll",
        "fixture.exe",
        "fixture_Data/il2cpp_data/Metadata/global-metadata.dat",
    ]);
    assert!(build_is_complete(Flavor::Il2cppRelease, &built));
    let missing = paths(&["GameAssembly.dll", "UnityPlayer.dll", "fixture.exe"]);
    assert!(!build_is_complete(Flavor::Il2cppRelease, &missing));
}

#[test]
fn a_duplicate_does_not_stand_in_for_a_missing_role() {
    let built = paths(&["UnityPlayer.dll", "fixture.exe", "GameAssembly.dll", "x/GameAssembly.so"]);
    assert!(!build_is_complete(Flavor::Il2cppMaster, &built));
}

#[test]
fn mono_build_needs_a_runtime_that_is_no_player() {
    let built = paths(&["UnityPlayer.dll", "fixture.exe"]);
    assert!(!build_is_complete(Flavor::MonoBdwgc, &built));
    let built = paths(&["UnityPlayer.dll", "MonoBleedingEdge/EmbedRuntime/mono-2.0-bdwgc.dll"]);
    assert!(build_is_complete(Flavor::MonoBdwgc, &built));
    let monolithic = paths(&["fixture.exe", "fixture_Data/Mono/mono.dll"]);
    assert!(build_is_complete(Flavor::MonoLegacy, &monolithic));
}

#[test]
fn files_outside_the_shipped_part_do_not_count() {
    let built = vec![
        "UnityPlayer.dll".to_string(),
        "GameAssembly.dll".to_string(),
        format!("{}/global-metadata.dat", NOT_SHIPPED),
    ];
    assert!(!build_is_complete(Flavor::Il2cppRelease, &built));
    assert!(!build_is_complete(Flavor::Il2cppRelease, &vec![]));
}

#[test]
fn asset_holds_the_shipped_files_then_the_symbols() {
    let built = vec![
        format!("{}/GameAssembly.pdb", NOT_SHIPPED),
        format!("{}/il2cppOutput/x.cpp", NOT_SHIPPED),
        "GameAssembly.dll".to_string(),
        "UnityPlayer.dll".to_string(),
        "UnityPlayer.pdb".to_string(),
    ];
    let files = asset_files(Flavor::Il2cppRelease, &built);
    assert_eq!(
        files,
        vec![
            "GameAssembly.dll".to_string(),
            "UnityPlayer.dll".to_string(),
            "UnityPlayer.pdb".to_string(),
            format!("{}/GameAssembly.pdb", NOT_SHIPPED),
            "UnityPlayer.pdb".to_string(),
        ]
    );
}

#[test]
fn sort_paths_orders_as_str_does() {
    let mut list = paths(&["b", "a/x", "a", "Z", "é", "a/X", "", "ab"]);
    let sorted = sort_paths(&list);
    list.sort();
    assert_eq!(sorted, list);
    assert!(sort_paths(&vec![]).is_empty());
}

#[test]
fn the_last_component_of_a_walked_path_is_the_file_name() {
    let nested = relative_path(&relative_path("fixture_Data", "Plugins"), "lib.so");
    assert_eq!(nested, "fixture_Data/Plugins/lib.so");
    assert_eq!(last_component(&nested), "lib.so");
    assert_eq!(last_component(&relative_path("", "fixture.exe")), "fixture.exe");
}

#[test]
fn a_complete_build_stays_complete_with_more_files() {
    let mut built = paths(&["UnityPlayer.so", "fixture_Data/MonoBleedingEdge/x86_64/libmonobdwgc-2.0.so"]);
    assert!(build_is_complete(Flavor::MonoBdwgc, &built));
    built.push("fixture_Data/globalgamemanagers".to_string());
    built.push(format!("{}/UnityPlayer_s.debug", NOT_SHIPPED));
    assert!(build_is_complete(Flavor::MonoBdwgc, &built));
}

#[test]
fn sorting_does_not_depend_on_the_walk_order() {
    let a = sort_paths(&paths(&["x/b", "a", "x/a", "b"]));
    let b = sort_paths(&paths(&["b", "x/a", "a", "x/b"]));
    assert_eq!(a, b);
    assert_eq!(a, paths(&["a", "b", "x/a", "x/b"]));
}
