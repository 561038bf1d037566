use spawn::artifact::Artifact;
use spawn::fetch::{all_present, CacheState, FetchStep, FetchWalk};
use spawn::pom::{merge_parent, parse, resolve_val, DependencyEntry, EffectivePom, ImportQueue, PomNeed};
use spawn::resolver::{normalize_url, Resolver};

fn art(g: &str, n: &str, v: &str) -> Artifact {
    Artifact::new(g, n, v).unwrap()
}

fn no_deps() -> spawn::pom::Pom {
    parse("<project><groupId>x</groupId></project>")
}

const POM: &str = r#"<?xml version="1.0"?>
<project xmlns="http://maven.apache.org/POM/4.0.0">
  <parent><groupId>com.example</groupId><artifactId>parent</artifactId><version>3</version></parent>
  <properties><lib.version>2.5</lib.version></properties>
  <repositories><repository><id>x</id><url>https://maven.example.org/repo</url></repository></repositories>
  <dependencies>
    <dependency><groupId>com.example</groupId><artifactId>a</artifactId><version>${lib.version}</version></dependency>
    <dependency><groupId></groupId><artifactId>nogroup</artifactId><version>1</version></dependency>
    <dependency><groupId>com.example</groupId><artifactId></artifactId><version>1</version></dependency>
    <dependency><groupId>com.example</groupId><artifactId>*</artifactId></dependency>
    <dependency><groupId>junit</groupId><artifactId>junit</artifactId><version>4</version><scope>test</scope></dependency>
    <dependency><groupId>com.example</groupId><artifactId>managed</artifactId></dependency>
  </dependencies>
  <dependencyManagement><dependencies>
    <dependency><groupId>com.example</groupId><artifactId>managed</artifactId><version>7.0</version></dependency>
    <dependency><groupId>com.example</groupId><artifactId>bom</artifactId><version>1</version><type>pom</type><scope>import</scope></dependency>
  </dependencies></dependencyManagement>
</project>"#;

#[test]
fn pom_reader_collects_sections() {
    let p = parse(POM);
    let parent = p.parent.as_ref().unwrap();
    assert_eq!(parent.to_string(), "com.example:parent:3");
    assert_eq!(p.properties, vec![("lib.version".to_string(), "2.5".to_string())]);
    assert_eq!(p.repositories, vec!["https://maven.example.org/repo".to_string()]);
    assert_eq!(p.dependencies.len(), 3);
    assert_eq!(p.dependencies[0].artifact.to_string(), "com.example:a:${lib.version}");
    assert_eq!(p.dependencies[1].scope, Some("test".to_string()));
    assert_eq!(p.dep_management.len(), 2);
    assert!(p.dep_management[1].is_import());
}

#[test]
fn dependency_without_group_or_name_is_dropped() {
    let p = parse(POM);
    for d in &p.dependencies {
        assert!(!d.artifact.group.is_empty());
        assert!(!d.artifact.name.is_empty());
        assert_ne!(d.artifact.name, "*");
    }
    assert!(p.dependencies.iter().all(|d| d.artifact.name != "nogroup"));
}

#[test]
fn interpolation() {
    let a = art("com.example", "lib", "1.0");
    let props = vec![("x".to_string(), "9".to_string())];
    assert_eq!(resolve_val("${project.version}", &props, &a), "1.0");
    assert_eq!(resolve_val("${groupId}", &props, &a), "com.example");
    assert_eq!(resolve_val("v${x}-${x}", &props, &a), "v9-9");
    assert_eq!(resolve_val("${missing}", &props, &a), "${missing}");
    assert_eq!(resolve_val("${unclosed", &props, &a), "${unclosed");
}

#[test]
fn parent_merge_child_wins() {
    let child = parse("<project><properties><k>child</k></properties><dependencyManagement><dependencies><dependency><groupId>g</groupId><artifactId>x</artifactId><version>1</version></dependency></dependencies></dependencyManagement></project>");
    let parent = parse("<project><properties><k>parent</k><p>only</p></properties><dependencyManagement><dependencies><dependency><groupId>g</groupId><artifactId>x</artifactId><version>2</version></dependency></dependencies></dependencyManagement><repositories><repository><url>https://p/</url></repository></repositories></project>");
    let m = merge_parent(child, parent);
    let a = art("g", "self", "0");
    assert_eq!(resolve_val("${k}", &m.properties, &a), "child");
    assert_eq!(resolve_val("${p}", &m.properties, &a), "only");
    assert_eq!(m.dep_management[0].artifact.version, "1");
    assert_eq!(m.dep_management[1].artifact.version, "2");
    assert_eq!(m.repositories, vec!["https://p/".to_string()]);
}

fn entry(g: &str, n: &str, v: &str, scope: Option<&str>, ty: Option<&str>) -> DependencyEntry {
    DependencyEntry { artifact: art(g, n, v), scope: scope.map(|s| s.to_string()), entry_type: ty.map(|s| s.to_string()) }
}

#[test]
fn bom_import_supplies_managed_version() {
    let dm = vec![entry("com.example", "bom", "1", Some("import"), Some("pom"))];
    let mut q = ImportQueue::new(dm);
    let wanted = q.next_import().unwrap();
    assert_eq!(wanted.to_string(), "com.example:bom:1");
    let bom = parse("<project><dependencyManagement><dependencies><dependency><groupId>com.example</groupId><artifactId>C</artifactId><version>3.1</version></dependency></dependencies></dependencyManagement></project>");
    q.supply(bom.dep_management);
    assert!(q.next_import().is_none());
    let expanded = q.finish();
    assert_eq!(expanded.len(), 1);

    let root = art("com.example", "app", "1");
    let pom = spawn::pom::Pom {
        properties: vec![],
        dependencies: vec![entry("com.example", "C", "", None, None)],
        dep_management: expanded,
        repositories: vec![],
        parent: None,
    };
    let mut r = Resolver::new(vec![], "/tmp/cache");
    let kids = r.visit(&root, &pom);
    assert_eq!(kids.len(), 1);
    assert_eq!(kids[0].to_string(), "com.example:C:3.1");
}

#[test]
fn visit_applies_properties_scopes_and_management() {
    let mut r = Resolver::new(vec![], "/tmp/cache");
    let root = art("com.example", "root", "1");
    let kids = r.visit(&root, &parse(POM));
    let texts: Vec<String> = kids.iter().map(|k| k.to_string()).collect();
    assert_eq!(texts, vec!["com.example:a:2.5".to_string(), "com.example:managed:7.0".to_string()]);
    assert!(r.repositories().contains(&"https://maven.example.org/repo/".to_string()));
}

#[test]
fn repositories_are_normalized_and_kept_once() {
    let mut r = Resolver::new(
        vec!["https://repo1.maven.org/maven2".to_string(), " https://x.org/m ".to_string(), "https://x.org/m/".to_string()],
        "/tmp/cache",
    );
    let repos = r.repositories();
    assert_eq!(repos.len(), 5);
    assert_eq!(repos[0], "https://dl.google.com/dl/android/maven2/");
    assert_eq!(repos[3], "https://repo.huaweicloud.com/repository/maven/");
    assert_eq!(repos[4], "https://x.org/m/");
    r.add_repository("https://x.org/m");
    r.add_repository("https://y.org");
    let repos = r.repositories();
    assert_eq!(repos.iter().filter(|u| *u == "https://x.org/m/").count(), 1);
    assert_eq!(repos.last().unwrap(), "https://y.org/");
    assert_eq!(normalize_url("  a/b  "), "a/b/");
    assert_eq!(r.cache_root, "/tmp/cache/repository");
}

#[test]
fn single_direct_jar() {
    let mut r = Resolver::new(vec![], "/c");
    r.start(&vec!["com.example:lib:1.0".to_string()]);
    let node = r.next_node().unwrap();
    assert_eq!(node.to_string(), "com.example:lib:1.0");
    let kids = r.visit(&node, &no_deps());
    assert!(kids.is_empty());
    assert!(r.next_node().is_none());
    let conflicts = r.finish();
    assert!(conflicts.is_empty());
    let got: Vec<String> = r.resolved_artifacts.iter().map(|a| a.to_string()).collect();
    assert_eq!(got, vec!["com.example:lib:1.0".to_string()]);
}

#[test]
fn version_conflict_takes_highest() {
    let mut r = Resolver::new(vec![], "/c");
    r.start(&vec!["com.example:A:1.0".to_string(), "com.example:B:2.0".to_string()]);
    while let Some(node) = r.next_node() {
        let pom = if node.name == "A" {
            parse("<project><dependencies><dependency><groupId>com.example</groupId><artifactId>B</artifactId><version>1.0</version></dependency></dependencies></project>")
        } else {
            no_deps()
        };
        for k in r.visit(&node, &pom) {
            r.enqueue(k);
        }
    }
    let conflicts = r.finish();
    assert_eq!(conflicts.len(), 1);
    assert_eq!(conflicts[0].id, "com.example:B");
    assert_eq!(conflicts[0].versions, 2);
    assert_eq!(conflicts[0].chosen, "2.0");
    let b = r.resolved_artifacts.iter().find(|a| a.name == "B").unwrap();
    assert_eq!(b.version, "2.0");
    assert_eq!(r.resolved_artifacts.len(), 2);
}

#[test]
fn root_order_does_not_change_result() {
    let run = |roots: Vec<&str>| {
        let mut r = Resolver::new(vec![], "/c");
        r.start(&roots.iter().map(|s| s.to_string()).collect::<Vec<String>>());
        while let Some(node) = r.next_node() {
            let _ = r.visit(&node, &no_deps());
        }
        r.finish();
        let mut v: Vec<String> = r.resolved_artifacts.iter().map(|a| a.to_string()).collect();
        v.sort();
        v
    };
    assert_eq!(run(vec!["g:a:1", "g:b:2", "h:c:3"]), run(vec!["h:c:3", "g:a:1", "g:b:2"]));
}

#[test]
fn cycles_are_broken() {
    let mut r = Resolver::new(vec![], "/c");
    assert!(r.enqueue(art("g", "a", "1")));
    assert!(!r.enqueue(art("g", "a", "1")));
    assert!(r.enqueue(art("g", "a", "2")));
    assert!(r.next_node().is_some());
    assert!(r.next_node().is_some());
    assert!(r.next_node().is_none());
}

#[test]
fn fetch_walk_tries_each_repository() {
    let repos = vec!["https://r1/".to_string(), "https://r2/".to_string()];
    let mut w = FetchWalk::new(&repos, "g/n/1/n-1.pom", false);
    match w.on_cache(CacheState::Missing) {
        FetchStep::Request(u) => assert_eq!(u, "https://r1/g/n/1/n-1.pom"),
        other => panic!("{:?}", other),
    }
    match w.on_response(false, false) {
        FetchStep::Request(u) => assert_eq!(u, "https://r2/g/n/1/n-1.pom"),
        other => panic!("{:?}", other),
    }
    assert!(matches!(w.on_response(false, false), FetchStep::NotFound));
}

#[test]
fn fetch_accepts_first_success() {
    let repos = vec!["https://r1/".to_string()];
    let mut w = FetchWalk::new(&repos, "p", false);
    assert!(matches!(w.on_cache(CacheState::Missing), FetchStep::Request(_)));
    assert!(matches!(w.on_response(true, true), FetchStep::Accept));
}

#[test]
fn cached_artifact_needs_no_network() {
    let repos = vec!["https://r1/".to_string()];
    let mut w = FetchWalk::new(&repos, "p", false);
    assert!(matches!(w.on_cache(CacheState::Present { len: 3, blank: false }), FetchStep::UseCached));
}

#[test]
fn corrupt_metadata_is_refetched() {
    let repos = vec!["https://r1/".to_string()];
    let mut w = FetchWalk::new(&repos, "g/n/maven-metadata.xml", true);
    assert!(matches!(w.on_cache(CacheState::Present { len: 100, blank: false }), FetchStep::DiscardCached));
    assert!(matches!(w.next_request(), FetchStep::Request(_)));
    assert!(matches!(w.on_response(true, true), FetchStep::NotFound));
    let mut ok = FetchWalk::new(&repos, "g/n/maven-metadata.xml", true);
    assert!(matches!(ok.on_cache(CacheState::Present { len: 300, blank: false }), FetchStep::UseCached));
}

#[test]
fn presence_check() {
    assert!(all_present(&vec![(Some(2048), None), (None, Some(1024))]));
    assert!(!all_present(&vec![(Some(1023), Some(10))]));
    assert!(all_present(&vec![]));
}

#[test]
fn effective_pom_inherits_through_parents() {
    let child = parse("<project><parent><groupId>g</groupId><artifactId>p</artifactId><version>1</version></parent><properties><a>child</a></properties><dependencyManagement><dependencies><dependency><groupId>g</groupId><artifactId>bom</artifactId><version>1</version><type>pom</type><scope>import</scope></dependency></dependencies></dependencyManagement></project>");
    let mut b = EffectivePom::new(child);
    match b.next() {
        PomNeed::Import(a) => assert_eq!(a.to_string(), "g:bom:1"),
        other => panic!("{:?}", other),
    }
    let bom = parse("<project><dependencyManagement><dependencies><dependency><groupId>g</groupId><artifactId>x</artifactId><version>5</version></dependency></dependencies></dependencyManagement></project>");
    b.supply_import(bom.dep_management);
    match b.next() {
        PomNeed::Parent(p) => assert_eq!(p.to_string(), "g:p:1"),
        other => panic!("{:?}", other),
    }
    b.supply_parent(Some(parse("<project><properties><a>parent</a><b>up</b></properties><repositories><repository><url>https://up/</url></repository></repositories></project>")));
    assert!(matches!(b.next(), PomNeed::Done));
    let pom = b.finish();
    let me = art("g", "c", "1");
    assert_eq!(resolve_val("${a}-${b}", &pom.properties, &me), "child-up");
    assert_eq!(pom.dep_management.len(), 1);
    assert_eq!(pom.dep_management[0].artifact.to_string(), "g:x:5");
    assert_eq!(pom.repositories, vec!["https://up/".to_string()]);
}

#[test]
fn imported_entries_take_the_import_place() {
    let dm = vec![
        entry("g", "a", "1", None, None),
        entry("g", "bom", "1", Some("import"), Some("pom")),
        entry("g", "b", "1", None, None),
    ];
    let mut q = ImportQueue::new(dm);
    assert_eq!(q.next_import().unwrap().to_string(), "g:bom:1");
    q.supply(vec![entry("g", "c", "3.1", None, None)]);
    assert!(q.next_import().is_none());
    let names: Vec<String> = q.finish().iter().map(|e| e.artifact.to_string()).collect();
    assert_eq!(names, vec!["g:a:1".to_string(), "g:c:3.1".to_string(), "g:b:1".to_string()]);
}
