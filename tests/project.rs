use spawn::build_system::{get_paths, Actions, BuildSystem};
use spawn::config::{merge_configs, root_coords, select_modules, Config, PackageInfo, SignInfo};
use spawn::error::ErrorKind;
use spawn::fingerprint::{fingerprint_input, generate_fingerprint, lock_is_current, to_hex};
use spawn::manifest::{decimal_string, transform_manifest, ManifestRewriter, TagAction};
use spawn::ninja::{generate_ninja, BuildLayout, ModuleLayout};
use spawn::unpack::entry_path;

fn s(x: &str) -> String {
    x.to_string()
}

fn file(deps: Vec<(&str, &str)>, repos: Vec<&str>, package: Option<&str>) -> Config {
    Config {
        package: package.map(|p| PackageInfo {
            package: Some(s(p)),
            version: None,
            version_code: None,
            label: None,
            icon: None,
            min_sdk: None,
            target_sdk: None,
        }),
        sign: None,
        repositories: Some(repos.into_iter().map(s).collect()),
        dependencies: Some(deps.into_iter().map(|(k, v)| (s(k), s(v))).collect()),
        base_path: String::new(),
        modules: vec![],
    }
}

#[test]
fn merge_takes_metadata_from_first_and_unions_deps() {
    let a = file(vec![("g:a", "1"), ("g:b", "1")], vec!["https://r1/"], Some("first"));
    let b = file(vec![("g:b", "2"), ("g:c", "3")], vec!["https://r2/"], Some("second"));
    let m = merge_configs(s("/p"), vec![s("/p/app.toml"), s("/p/m/module.toml")], vec![a, b]);
    assert_eq!(m.package.unwrap().package, Some(s("first")));
    assert_eq!(m.dependencies.unwrap(), vec![(s("g:a"), s("1")), (s("g:b"), s("2")), (s("g:c"), s("3"))]);
    assert_eq!(m.repositories.unwrap(), vec![s("https://r1/"), s("https://r2/")]);
    assert_eq!(m.base_path, "/p");
    assert_eq!(m.modules.len(), 2);
}

#[test]
fn merge_of_nothing_is_empty() {
    let m = merge_configs(s("."), vec![], vec![]);
    assert!(m.package.is_none());
    assert_eq!(m.dependencies.unwrap().len(), 0);
}

#[test]
fn module_discovery() {
    let walked = vec![s("/p/app.toml"), s("/p/feature/module.toml"), s("/p/x/other.toml"), s("/p/module.toml.bak"), s("/p/lib/module.toml")];
    assert_eq!(
        select_modules(&s("/p/app.toml"), &walked),
        vec![s("/p/app.toml"), s("/p/feature/module.toml"), s("/p/lib/module.toml")]
    );
    assert_eq!(select_modules(&s("/p/module.toml"), &vec![s("/p/module.toml")]), vec![s("/p/module.toml")]);
}

#[test]
fn fingerprint_of_nothing_is_digest_of_empty_text() {
    let c = file(vec![], vec![], None);
    assert_eq!(
        generate_fingerprint(&c),
        "e3b0c44298fc1c149afbf4c8996fb92427ae41e4649b934ca495991b7852b855"
    );
}

#[test]
fn fingerprint_text_layout() {
    let deps = vec![(s("z:z"), s("2")), (s("a:a"), s("1"))];
    let repos = vec![s("https://r/")];
    assert_eq!(fingerprint_input(&deps, &repos), "a:a\u{0}1\u{0}z:z\u{0}2\u{0}https://r/\u{0}");
}

#[test]
fn fingerprint_ignores_dependency_order() {
    let a = file(vec![("g:a", "1"), ("g:b", "2"), ("h:c", "3")], vec!["https://r1/", "https://r2/"], None);
    let b = file(vec![("h:c", "3"), ("g:a", "1"), ("g:b", "2")], vec!["https://r1/", "https://r2/"], None);
    assert_eq!(generate_fingerprint(&a), generate_fingerprint(&b));
    assert_eq!(generate_fingerprint(&a).len(), 64);
}

#[test]
fn fingerprint_follows_repository_order() {
    let a = file(vec![("g:a", "1")], vec!["https://r1/", "https://r2/"], None);
    let b = file(vec![("g:a", "1")], vec!["https://r2/", "https://r1/"], None);
    assert_ne!(generate_fingerprint(&a), generate_fingerprint(&b));
}

#[test]
fn hex_digits() {
    assert_eq!(to_hex(&vec![0, 15, 16, 255]), "000f10ff");
    assert_eq!(decimal_string(0), "0");
    assert_eq!(decimal_string(4294967295), "4294967295");
}

fn pkg() -> Option<PackageInfo> {
    Some(PackageInfo {
        package: Some(s("a.b")),
        version: Some(s("1.2")),
        version_code: Some(12),
        label: Some(s("App")),
        icon: None,
        min_sdk: Some(21),
        target_sdk: Some(34),
    })
}

#[test]
fn manifest_overlays_attributes() {
    let mut rw = ManifestRewriter::new();
    let attrs = vec![(s("xmlns:android"), s("http://schemas.android.com/apk/res/android")), (s("package"), s("old"))];
    match rw.on_tag("manifest", false, &attrs, &pkg()) {
        TagAction::Replace(a) => assert_eq!(
            a,
            vec![
                (s("xmlns:android"), s("http://schemas.android.com/apk/res/android")),
                (s("package"), s("a.b")),
                (s("android:versionName"), s("1.2")),
                (s("android:versionCode"), s("12")),
            ]
        ),
        other => panic!("{:?}", other),
    }
    match rw.on_tag("application", false, &vec![(s("android:label"), s("x")), (s("android:theme"), s("t"))], &pkg()) {
        TagAction::SdkThenReplace(sdk, app) => {
            assert_eq!(sdk, vec![(s("android:minSdkVersion"), s("21")), (s("android:targetSdkVersion"), s("34"))]);
            assert_eq!(app, vec![(s("android:theme"), s("t")), (s("android:label"), s("App"))]);
        }
        other => panic!("{:?}", other),
    }
    assert!(matches!(rw.on_tag("activity", false, &vec![], &pkg()), TagAction::Keep));
}

#[test]
fn existing_uses_sdk_is_overlaid_not_added() {
    let mut rw = ManifestRewriter::new();
    match rw.on_tag("uses-sdk", true, &vec![(s("android:minSdkVersion"), s("14"))], &pkg()) {
        TagAction::Replace(a) => assert_eq!(a, vec![(s("android:minSdkVersion"), s("21")), (s("android:targetSdkVersion"), s("34"))]),
        other => panic!("{:?}", other),
    }
    assert!(matches!(rw.on_tag("application", false, &vec![], &pkg()), TagAction::Replace(_)));
}

#[test]
fn manifest_without_overlays_is_unchanged() {
    let mut rw = ManifestRewriter::new();
    let attrs = vec![(s("package"), s("keep.me"))];
    for name in ["manifest", "uses-sdk", "application", "activity"] {
        assert!(matches!(rw.on_tag(name, false, &attrs, &None), TagAction::Keep));
    }
}

#[test]
fn package_only_sets_package() {
    let mut rw = ManifestRewriter::new();
    let only = Some(PackageInfo { package: Some(s("a.b")), version: None, version_code: None, label: None, icon: None, min_sdk: None, target_sdk: None });
    match rw.on_tag("manifest", false, &vec![], &only) {
        TagAction::Replace(a) => assert_eq!(a, vec![(s("package"), s("a.b"))]),
        other => panic!("{:?}", other),
    }
    assert!(matches!(rw.on_tag("application", false, &vec![], &only), TagAction::Keep));
}

fn layout(modules: Vec<ModuleLayout>, sign: Option<SignInfo>) -> BuildLayout {
    BuildLayout {
        build_dir: s("/p/.spawn/build"),
        cache_dir: s("/p/.spawn/cache"),
        target_sdk: None,
        classpath_jars: vec![s("/c/x/unpacked/classes.jar")],
        modules,
        linked_resources_exists: false,
        sign,
    }
}

#[test]
fn build_graph_without_sources() {
    let l = layout(vec![ModuleLayout { dir: s("/p"), name: s("p"), java_sources: vec![], kotlin_sources: vec![], has_res: false }], None);
    let text = generate_ninja(&l, "apk");
    assert!(text.starts_with("builddir = /p/.spawn/build\ncachedir = /p/.spawn/cache\n\nandroid_jar = $ANDROID_HOME/platforms/android-34/android.jar\n"));
    assert!(text.contains("classpath = $android_jar:/c/x/unpacked/classes.jar\n\n"));
    assert!(!text.contains(": javac "));
    assert!(!text.contains(": kotlinc "));
    assert!(!text.contains(": aapt2_compile "));
    assert!(!text.contains(": aapt2_link "));
    assert!(text.ends_with("default /p/.spawn/build/app.apk\n"));
}

#[test]
fn build_graph_with_module_steps() {
    let m = ModuleLayout {
        dir: s("/p/feature"),
        name: s("feature"),
        java_sources: vec![s("/p/feature/java/A.java"), s("/p/feature/java/B.java")],
        kotlin_sources: vec![],
        has_res: true,
    };
    let l = layout(vec![m], Some(SignInfo { keystore: s("k.jks"), alias: s("key") }));
    let text = generate_ninja(&l, "apk");
    assert!(text.contains("build /p/.spawn/build/feature_out/classes: javac /p/feature/java/A.java /p/feature/java/B.java\n  classpath = $classpath\n  outdir = /p/.spawn/build/feature_out/classes\n\n"));
    assert!(text.contains("build /p/.spawn/build/feature_flat.res: aapt2_compile /p/feature/res\n"));
    assert!(text.contains("build /p/.spawn/build/linked_resources.ap_: aapt2_link /p/.spawn/build/feature_flat.res\n  manifest = /p/.spawn/cache/AndroidManifest.xml\n\n"));
    assert!(text.contains("build /p/.spawn/build/dex: d8 /p/.spawn/build/feature_out/classes\n\n"));
    assert!(text.contains("  keystore = k.jks\n  alias = key\n"));
}

#[test]
fn build_graph_bundle() {
    let m = ModuleLayout { dir: s("/p"), name: s("p"), java_sources: vec![], kotlin_sources: vec![], has_res: false };
    let text = generate_ninja(&layout(vec![m], None), "aab");
    assert!(text.ends_with("build /p/.spawn/build/app.aab: build_aab /p\ndefault /p/.spawn/build/app.aab\n"));
    assert!(!text.contains(": apksigner "));
}

#[test]
fn zip_slip_is_rejected() {
    assert_eq!(entry_path("/c/lib/1.0/unpacked", "../../evil"), Err(ErrorKind::UnsafeArchivePath));
    assert_eq!(entry_path("/c/lib/1.0/unpacked", "/etc/passwd"), Err(ErrorKind::UnsafeArchivePath));
    assert_eq!(entry_path("/c/lib/1.0/unpacked", "a\\..\\..\\x"), Err(ErrorKind::UnsafeArchivePath));
}

#[test]
fn archive_entries_land_inside() {
    assert_eq!(entry_path("/u", "classes.jar"), Ok(s("/u/classes.jar")));
    assert_eq!(entry_path("/u", "res\\values\\v.xml"), Ok(s("/u/res/values/v.xml")));
    assert_eq!(entry_path("/u", "a/./b/../c"), Ok(s("/u/a/c")));
    assert_eq!(entry_path("/u", "res/"), Ok(s("/u/res")));
}

#[test]
fn command_line_actions() {
    let mut b = BuildSystem { args: vec![s("spawn"), s("apk"), s("a.toml")] };
    assert_eq!(b.get_action(), Actions::build_apk);
    let mut h = BuildSystem { args: vec![s("spawn")] };
    assert_eq!(h.get_action(), Actions::help);
    let mut u = BuildSystem { args: vec![s("spawn"), s("whatever")] };
    assert_eq!(u.get_action(), Actions::help);
    assert_eq!(get_paths(vec![s("spawn"), s("apk"), s("a.toml"), s("b.toml")]), vec![s("a.toml"), s("b.toml")]);
    assert!(get_paths(vec![s("spawn"), s("apk")]).is_empty());
}

#[test]
fn lock_and_roots() {
    assert!(lock_is_current("abc\n", "abc"));
    assert!(!lock_is_current("abd", "abc"));
    assert_eq!(root_coords(&vec![(s("com.example:lib"), s("1.0"))]), vec![s("com.example:lib:1.0")]);
}

const TEMPLATE: &str = "<?xml version=\"1.0\" encoding=\"utf-8\"?>\n<!-- app -->\n<manifest xmlns:android=\"http://schemas.android.com/apk/res/android\" package=\"old.pkg\">\n    <uses-permission android:name=\"android.permission.INTERNET\"/>\n    <application android:label=\"Old\" android:theme=\"@style/T\">\n        <activity android:name=\".Main\"/>\n    </application>\n</manifest>\n";

#[test]
fn manifest_round_trip_without_overlays() {
    assert_eq!(transform_manifest(TEMPLATE, &None).unwrap(), TEMPLATE);
}

#[test]
fn manifest_rewrite_of_a_document() {
    let out = transform_manifest(TEMPLATE, &pkg()).unwrap();
    assert!(out.contains("<manifest xmlns:android=\"http://schemas.android.com/apk/res/android\" package=\"a.b\" android:versionName=\"1.2\" android:versionCode=\"12\">"));
    assert!(out.contains("<uses-sdk android:minSdkVersion=\"21\" android:targetSdkVersion=\"34\"/><application android:theme=\"@style/T\" android:label=\"App\">"));
    assert!(out.contains("<!-- app -->"));
    assert!(out.contains("<activity android:name=\".Main\"/>"));
}

#[test]
fn manifest_package_scenario() {
    let only = Some(PackageInfo { package: Some(s("a.b")), version: None, version_code: None, label: None, icon: None, min_sdk: None, target_sdk: None });
    let out = transform_manifest("<manifest><application/></manifest>", &only).unwrap();
    assert_eq!(out, "<manifest package=\"a.b\"><application/></manifest>");
}

#[test]
fn malformed_manifest_is_an_error() {
    assert_eq!(transform_manifest("<manifest><a></b></manifest>", &None), Err(ErrorKind::ManifestParse));
}
