use forge::error::ForgeError;
use forge::maven::MavenCoordinate;
use forge::pom::{collect_dependencies, parse_pom_dependencies, PomEvent};
use forge::pypi::{is_any_version, package_url, requirement, PypiInfo, PypiPackageInfo};
use forge::resolver::{resolution_key, MavenResolver, MAX_DEPTH};

fn coord(group: &str, artifact: &str, version: &str) -> MavenCoordinate {
    MavenCoordinate { group_id: group.to_string(), artifact_id: artifact.to_string(), version: version.to_string() }
}

#[test]
fn parse_splits_at_the_colon() {
    let c = MavenCoordinate::parse("com.google.guava:guava", "33.0.0").unwrap();
    assert_eq!(c, coord("com.google.guava", "guava", "33.0.0"));
    assert_eq!(MavenCoordinate::parse(":x", "1").unwrap(), coord("", "x", "1"));
    assert_eq!(MavenCoordinate::parse("x:", "").unwrap(), coord("x", "", ""));
}

#[test]
fn parse_refuses_keys_without_exactly_one_colon() {
    for key in ["guava", "a:b:c", "", "::"] {
        assert_eq!(
            MavenCoordinate::parse(key, "1.0"),
            Err(ForgeError::DependencyResolutionFailed {
                dependency: format!("'{}' — Formato esperado: 'groupId:artifactId'", key)
            })
        );
    }
}

#[test]
fn addresses_in_maven_central() {
    let c = coord("com.google.code.gson", "gson", "2.11.0");
    assert_eq!(
        c.jar_url(),
        "https://repo1.maven.org/maven2/com/google/code/gson/gson/2.11.0/gson-2.11.0.jar"
    );
    assert_eq!(
        c.pom_url(),
        "https://repo1.maven.org/maven2/com/google/code/gson/gson/2.11.0/gson-2.11.0.pom"
    );
    assert_eq!(c.jar_filename(), "gson-2.11.0.jar");
    assert_eq!(c.display(), "com.google.code.gson:gson:2.11.0");
}

fn start(name: &str) -> PomEvent {
    PomEvent::Start(name.to_string())
}

fn end(name: &str) -> PomEvent {
    PomEvent::End(name.to_string())
}

fn text(t: &str) -> PomEvent {
    PomEvent::Text(t.to_string())
}

fn dependency(group: &str, artifact: &str, version: &str, scope: Option<&str>) -> Vec<PomEvent> {
    let mut events = vec![
        start("dependency"),
        start("groupId"),
        text(group),
        end("groupId"),
        start("artifactId"),
        text(artifact),
        end("artifactId"),
        start("version"),
        text(version),
        end("version"),
    ];
    if let Some(s) = scope {
        events.extend([start("scope"), text(s), end("scope")]);
    }
    events.push(end("dependency"));
    events
}

#[test]
fn dependencies_of_compile_scope_are_collected() {
    let mut events = vec![start("project"), start("dependencies")];
    events.extend(dependency("g1", "a1", "1.0", None));
    events.extend(dependency("g2", "a2", "2.0", Some("compile")));
    events.extend(dependency("g3", "a3", "3.0", Some("test")));
    events.extend(dependency("g4", "a4", "${v}", None));
    events.extend(dependency("g5", "a5", "", None));
    events.extend(dependency("", "a6", "6.0", None));
    events.extend(dependency("g7", "a7", "7.0", Some("provided")));
    events.extend([end("dependencies"), end("project"), PomEvent::Stop]);
    assert_eq!(collect_dependencies(&events), vec![coord("g1", "a1", "1.0"), coord("g2", "a2", "2.0")]);
}

#[test]
fn managed_dependencies_do_not_count() {
    let mut events = vec![start("project"), start("dependencyManagement"), start("dependencies")];
    events.extend(dependency("managed", "m", "1.0", None));
    events.extend([end("dependencies"), end("dependencyManagement"), start("dependencies")]);
    events.extend(dependency("real", "r", "2.0", None));
    events.extend([end("dependencies"), end("project")]);
    assert_eq!(collect_dependencies(&events), vec![coord("real", "r", "2.0")]);
}

#[test]
fn events_after_a_stop_are_not_read() {
    let mut events = vec![start("dependencies")];
    events.extend(dependency("g1", "a1", "1.0", None));
    events.push(PomEvent::Stop);
    events.extend(dependency("g2", "a2", "2.0", None));
    assert_eq!(collect_dependencies(&events), vec![coord("g1", "a1", "1.0")]);
    assert!(collect_dependencies(&vec![]).is_empty());
    assert!(collect_dependencies(&vec![PomEvent::Stop]).is_empty());
}

#[test]
fn dependency_outside_the_list_does_not_count() {
    let mut events = vec![start("project")];
    events.extend(dependency("g1", "a1", "1.0", None));
    events.push(end("project"));
    assert!(collect_dependencies(&events).is_empty());
}

#[test]
fn text_counts_for_the_tag_that_is_open() {
    let events = vec![
        start("dependencies"),
        start("dependency"),
        start("groupId"),
        text("g"),
        end("groupId"),
        text("stray"),
        start("artifactId"),
        text("first"),
        text("a"),
        end("artifactId"),
        start("version"),
        text("1"),
        end("version"),
        PomEvent::Other,
        start("optional"),
        text("true"),
        end("optional"),
        end("dependency"),
    ];
    assert_eq!(collect_dependencies(&events), vec![coord("g", "a", "1")]);
}

#[test]
fn pom_text_is_read_as_xml() {
    let pom = r#"<?xml version="1.0" encoding="UTF-8"?>
<project>
  <modelVersion>4.0.0</modelVersion>
  <groupId>com.example</groupId>
  <artifactId>app</artifactId>
  <version>1.0</version>
  <!-- managed versions do not count -->
  <dependencyManagement>
    <dependencies>
      <dependency>
        <groupId>org.managed</groupId>
        <artifactId>bom</artifactId>
        <version>9</version>
      </dependency>
    </dependencies>
  </dependencyManagement>
  <dependencies>
    <dependency>
      <groupId>com.google.guava</groupId>
      <artifactId>guava</artifactId>
      <version>33.0.0</version>
    </dependency>
    <dependency>
      <groupId>org.junit</groupId>
      <artifactId>junit</artifactId>
      <version>5.0</version>
      <scope>test</scope>
    </dependency>
    <dependency>
      <groupId>org.slf4j</groupId>
      <artifactId>slf4j-api</artifactId>
      <version>${slf4j.version}</version>
    </dependency>
    <dependency>
      <groupId>a&amp;b</groupId>
      <artifactId>  spaced  </artifactId>
      <version>1.2</version>
      <scope>compile</scope>
    </dependency>
  </dependencies>
</project>
"#;
    assert_eq!(
        parse_pom_dependencies(pom),
        vec![coord("com.google.guava", "guava", "33.0.0"), coord("a&b", "spaced", "1.2")]
    );
}

#[test]
fn broken_pom_gives_what_was_read_before_the_error() {
    let pom = "<project><dependencies><dependency><groupId>g</groupId><artifactId>a</artifactId>\
               <version>1</version></dependency><dependency><groupId>h</groupId></wrong>";
    assert_eq!(parse_pom_dependencies(pom), vec![coord("g", "a", "1")]);
    assert!(parse_pom_dependencies("").is_empty());
    assert!(parse_pom_dependencies("not xml at all").is_empty());
}

#[test]
fn resolver_walks_depth_first_and_hands_out_each_coordinate_once() {
    let mut resolver = MavenResolver::new();
    let a = coord("g", "a", "1");
    let b = coord("g", "b", "1");
    let c = coord("g", "c", "1");
    let d = coord("g", "d", "1");
    resolver.begin("/deps", &vec![a.clone(), b.clone()]);
    let first = resolver.next().unwrap();
    assert_eq!((first.coordinate.clone(), first.depth), (a.clone(), 0));
    resolver.expand(&first, &vec![c.clone(), b.clone()]);
    let second = resolver.next().unwrap();
    assert_eq!((second.coordinate.clone(), second.depth), (c.clone(), 1));
    resolver.expand(&second, &vec![a.clone(), d.clone()]);
    let third = resolver.next().unwrap();
    assert_eq!((third.coordinate.clone(), third.depth), (d.clone(), 2));
    resolver.expand(&third, &vec![]);
    let fourth = resolver.next().unwrap();
    assert_eq!((fourth.coordinate.clone(), fourth.depth), (b.clone(), 1));
    resolver.expand(&fourth, &vec![]);
    assert!(resolver.next().is_none());
    assert!(resolver.is_resolved(&a) && resolver.is_resolved(&b));
    assert!(resolver.is_resolved(&c) && resolver.is_resolved(&d));
    assert!(!resolver.is_resolved(&coord("g", "e", "1")));
}

#[test]
fn resolver_stops_below_the_depth_bound() {
    let mut resolver = MavenResolver::new();
    resolver.begin("/deps", &vec![coord("g", "n0", "1")]);
    let mut handed_out = Vec::new();
    while let Some(item) = resolver.next() {
        assert!(item.depth <= MAX_DEPTH);
        handed_out.push(item.coordinate.artifact_id.clone());
        let child = coord("g", &format!("n{}", item.depth + 1), "1");
        resolver.expand(&item, &vec![child]);
    }
    assert_eq!(handed_out, vec!["n0", "n1", "n2", "n3", "n4", "n5"]);
}

#[test]
fn resolver_keeps_what_it_resolved_per_directory() {
    let mut resolver = MavenResolver::new();
    let a = coord("g", "a", "1");
    resolver.begin("/deps", &vec![a.clone()]);
    assert!(resolver.next().is_some());
    resolver.begin("/deps", &vec![a.clone()]);
    assert!(resolver.next().is_none());
    resolver.begin("/test-deps", &vec![a.clone(), a.clone()]);
    assert!(resolver.next().is_some());
    assert!(resolver.next().is_none());
    assert_eq!(resolution_key("/deps", &a), "/deps:g:a:1");
}

#[test]
fn pypi_addresses_and_requirements() {
    assert_eq!(package_url("flask", "*"), "https://pypi.org/pypi/flask/json");
    assert_eq!(package_url("flask", ""), "https://pypi.org/pypi/flask/json");
    assert_eq!(package_url("flask", "3.0.0"), "https://pypi.org/pypi/flask/3.0.0/json");
    assert_eq!(requirement("flask", "*"), "flask");
    assert_eq!(requirement("flask", ""), "flask");
    assert_eq!(requirement("flask", "3.0.0"), "flask==3.0.0");
    assert!(is_any_version("*") && is_any_version("") && !is_any_version("1") && !is_any_version("**"));
    let info = PypiPackageInfo {
        info: PypiInfo { name: "flask".to_string(), version: "3.0.0".to_string(), summary: None },
    };
    assert_eq!(info.info.name, "flask");
}

#[test]
fn fresh_resolver_has_nothing_resolved_and_nothing_pending() {
    let mut resolver = MavenResolver::new();
    assert!(!resolver.is_resolved(&coord("g", "a", "1")));
    assert!(resolver.next().is_none());
    assert!(!resolver.is_resolved(&coord("g", "a", "1")));
}
