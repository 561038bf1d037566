use spawn::artifact::Artifact;
use spawn::cache::LocalCache;
use spawn::fetch::snapshot_path;
use spawn::metadata::resolve_snapshot;

fn art(g: &str, n: &str, v: &str) -> Artifact {
    Artifact::new(g, n, v).unwrap()
}

#[test]
fn bracketed_version_is_normalized() {
    let a = art("androidx.core", "core", "[1.6.1]");
    assert_eq!(a.version, "1.6.1");
}

#[test]
fn fields_are_trimmed() {
    let a = art("  com.example ", " lib\t", " 2.0 ");
    assert_eq!(a.group, "com.example");
    assert_eq!(a.name, "lib");
    assert_eq!(a.version, "2.0");
}

#[test]
fn wildcard_name_is_rejected() {
    assert!(Artifact::new("com.example", "*", "1.0").is_none());
    assert!(Artifact::from_coords("com.example:*:1.0").is_none());
}

#[test]
fn coords_round_trip() {
    let a = art(" com.example ", "lib", "[1.0]");
    let text = a.to_string();
    assert_eq!(text, "com.example:lib:1.0");
    assert_eq!(Artifact::from_coords(&text), Some(a));
}

#[test]
fn coords_need_three_parts() {
    assert!(Artifact::from_coords("com.example:lib").is_none());
    assert!(Artifact::from_coords("").is_none());
    let a = Artifact::from_coords("g:n:v:jar:sources").unwrap();
    assert_eq!(a.version, "v");
}

#[test]
fn id_joins_group_and_name() {
    assert_eq!(art("com.example", "lib", "1.0").id(), "com.example:lib");
}

#[test]
fn artifact_and_metadata_paths() {
    let a = art("com.example.sub", "lib", "1.0");
    assert_eq!(a.get_path("jar"), "com/example/sub/lib/1.0/lib-1.0.jar");
    assert_eq!(a.get_metadata_path(true), "com/example/sub/lib/1.0/maven-metadata.xml");
    assert_eq!(a.get_metadata_path(false), "com/example/sub/lib/maven-metadata.xml");
}

#[test]
fn snapshot_and_dynamic_predicates() {
    assert!(art("g", "n", "1.2-SNAPSHOT").is_snapshot());
    assert!(!art("g", "n", "1.2").is_snapshot());
    assert!(art("g", "n", "LATEST").is_dynamic());
    assert!(art("g", "n", "RELEASE").is_dynamic());
    assert!(art("g", "n", "[1.0,2.0)").is_dynamic());
    assert!(art("g", "n", "(,2.0]").is_dynamic());
    assert!(!art("g", "n", "1.0").is_dynamic());
    assert!(!art("g", "n", "[1.0]").is_dynamic());
}

#[test]
fn cache_paths() {
    let c = LocalCache::new("/home/u");
    assert_eq!(c.root, "/home/u/.spawn/repository");
    let a = art("com.example", "lib", "1.0");
    assert_eq!(c.get_artifact_path(&a, "aar"), "/home/u/.spawn/repository/com/example/lib/1.0/lib-1.0.aar");
}

#[test]
fn snapshot_file_is_pinned_by_metadata() {
    let xml = "<metadata><versioning><snapshotVersions>\
        <snapshotVersion><extension>pom</extension><value>1.2-20240101.110000-2</value></snapshotVersion>\
        <snapshotVersion><extension>jar</extension><value>1.2-20240101.120000-3</value></snapshotVersion>\
        </snapshotVersions></versioning></metadata>";
    let v = resolve_snapshot(xml, "jar").unwrap();
    assert_eq!(v, "1.2-20240101.120000-3");
    let a = art("com.example", "lib", "1.2-SNAPSHOT");
    assert_eq!(
        snapshot_path(&a, &v, "jar"),
        "com/example/lib/1.2-SNAPSHOT/lib-1.2-20240101.120000-3.jar"
    );
}

#[test]
fn snapshot_without_matching_extension_fails() {
    let xml = "<metadata><versioning><snapshotVersions><snapshotVersion>\
        <extension>pom</extension><value>1.2-1</value></snapshotVersion>\
        </snapshotVersions></versioning></metadata>";
    assert_eq!(resolve_snapshot(xml, "aar"), Err(spawn::error::ErrorKind::VersionResolution));
}
