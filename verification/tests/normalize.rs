use cpan_distribution_meta::convert::{guess_vcs_type, normalize, normalize_bugtracker, normalize_license_token, normalize_repository};
use cpan_distribution_meta::{parse, parse_json, Phase, Prereqs, ReleaseStatus, SortedMap, Value};

fn obj(entries: Vec<(&str, Value)>) -> Value {
    Value::Object(entries.into_iter().map(|(k, v)| (k.to_string(), v)).collect())
}

fn s(t: &str) -> Value {
    Value::String(t.to_string())
}

#[test]
fn license_tokens() {
    assert_eq!(normalize_license_token("perl"), "perl_5");
    assert_eq!(normalize_license_token(" PERL "), "perl_5");
    assert_eq!(normalize_license_token("Apache_2_0"), "apache_2_0");
    assert_eq!(normalize_license_token("apache"), "apache_2_0");
    assert_eq!(normalize_license_token("artistic"), "artistic_1");
    assert_eq!(normalize_license_token("mozilla"), "mozilla_1_0");
    assert_eq!(normalize_license_token("gpl"), "open_source");
    assert_eq!(normalize_license_token("LGPL"), "open_source");
    assert_eq!(normalize_license_token("restrictive"), "restricted");
    assert_eq!(normalize_license_token("mit"), "mit");
    assert_eq!(normalize_license_token("beerware"), "unknown");
}

#[test]
fn vcs_guesses() {
    assert_eq!(guess_vcs_type("https://GitHub.com/x/y").as_deref(), Some("git"));
    assert_eq!(guess_vcs_type("http://svn.example.com/x").as_deref(), Some("svn"));
    assert_eq!(guess_vcs_type("https://example.com/Subversion/x").as_deref(), Some("svn"));
    assert_eq!(guess_vcs_type("https://example.com/hg/x").as_deref(), Some("hg"));
    assert_eq!(guess_vcs_type("ssh://example.com/repoHG").as_deref(), Some("hg"));
    assert_eq!(guess_vcs_type("https://example.com/bazaar/x").as_deref(), Some("bzr"));
    assert_eq!(guess_vcs_type("https://example.com/darcs/x").as_deref(), Some("darcs"));
    assert_eq!(guess_vcs_type(":pserver:cvs.example.com").as_deref(), Some("cvs"));
    assert_eq!(guess_vcs_type("https://example.com/x"), None);
}

#[test]
fn bugtrackers() {
    assert_eq!(
        normalize_bugtracker(&s("bugs@example.com")),
        Some(obj(vec![("mailto", s("bugs@example.com"))]))
    );
    assert_eq!(
        normalize_bugtracker(&s("mailto://bugs@example.com")),
        Some(obj(vec![("web", s("mailto://bugs@example.com"))]))
    );
    assert_eq!(
        normalize_bugtracker(&obj(vec![("url", s("http://rt")), ("mailto", Value::Bool(true))])),
        Some(obj(vec![("web", s("http://rt")), ("mailto", s("1"))]))
    );
    // a non-scalar web does not fall back to url
    assert_eq!(
        normalize_bugtracker(&obj(vec![("web", Value::Null), ("url", s("http://rt"))])),
        None
    );
    assert_eq!(normalize_bugtracker(&Value::Null), None);
}

#[test]
fn repositories() {
    assert_eq!(
        normalize_repository(&s("git://github.com/x/y.git")),
        Some(obj(vec![("url", s("git://github.com/x/y.git")), ("type", s("git"))]))
    );
    assert_eq!(
        normalize_repository(&s("https://example.com/x")),
        Some(obj(vec![("url", s("https://example.com/x")), ("web", s("https://example.com/x"))]))
    );
    assert_eq!(
        normalize_repository(&obj(vec![("url", s("http://svn.x/y")), ("type", s("SVN"))])),
        Some(obj(vec![("url", s("http://svn.x/y")), ("type", s("svn"))]))
    );
    assert_eq!(
        normalize_repository(&obj(vec![("url", s("http://x/y.git"))])),
        Some(obj(vec![("url", s("http://x/y.git")), ("type", s("git"))]))
    );
    assert_eq!(normalize_repository(&obj(vec![("other", s("z"))])), None);
}

#[test]
fn dynamic_config_values() {
    let dc = |v: &str| parse(&format!("{{\"name\": \"A\", \"dynamic_config\": {}}}", v)).unwrap().dynamic_config;
    assert!(dc("null"));
    assert!(!dc("false"));
    assert!(!dc("0"));
    assert!(!dc("0.0"));
    assert!(dc("2"));
    assert!(dc("-0.5"));
    assert!(!dc("\" No \""));
    assert!(!dc("\"\""));
    assert!(dc("\"yes\""));
    assert!(dc("[]"));
}

#[test]
fn release_status_values() {
    let rs = |v: &str, ver: &str| {
        parse(&format!("{{\"name\": \"A\", \"version\": \"{}\", \"release_status\": {}}}", ver, v))
            .unwrap()
            .release_status
    };
    assert_eq!(rs("\" Unstable \"", "1"), ReleaseStatus::Unstable);
    assert_eq!(rs("\"beta\"", "1"), ReleaseStatus::Stable);
    assert_eq!(rs("\"beta\"", "1_01"), ReleaseStatus::Testing);
    assert_eq!(rs("null", "1.0-trial"), ReleaseStatus::Testing);
}

#[test]
fn prerequisites_merge_and_sanitize() {
    let json = r#"{
      "name": "A",
      "prereqs": {
        "runtime": { "requires": { "A": "1", "B": [1] }, "x_rel": { "Q": 2 }, "junk": 5 },
        "bad": 3,
        "x_phase": { "requires": { "Z": "0" } }
      },
      "requires": { "A": "2", "C": null, "D": 1.5 },
      "build_requires": {},
      "recommends": "nonsense",
      "conflicts": { "E": true }
    }"#;
    let m = parse_json(json).unwrap();
    let req = &m.prereqs.runtime.requires;
    assert_eq!(req.get("A").unwrap(), "1");
    assert_eq!(req.get("C").unwrap(), "0");
    assert_eq!(req.get("D").unwrap(), "1.5");
    assert!(req.get("B").is_none());
    assert_eq!(m.prereqs.runtime.conflicts.get("E").unwrap(), "1");
    assert!(m.prereqs.runtime.recommends.is_empty());
    assert_eq!(m.prereqs.runtime.relation("x_rel").unwrap().get("Q").unwrap(), "2");
    assert!(m.prereqs.runtime.relation("junk").is_none());
    assert!(m.prereqs.build.is_empty());
    assert!(m.prereqs.phase("bad").is_none());
    assert_eq!(
        m.prereqs.phase("x_phase").unwrap().relation("requires").unwrap().get("Z").unwrap(),
        "0"
    );
    assert!(m.prereqs.phase("runtime").is_some());
    assert!(!m.prereqs.is_empty());
    assert!(!m.custom.contains_key("requires"));
}

#[test]
fn optional_features_and_provides() {
    let json = r#"{
      "name": "A",
      "optional_features": {
        "sql": { "description": "SQL", "requires": { "DBI": "1.50" } },
        "bare": {},
        "skip": "not an object"
      },
      "provides": {
        "A::B": { "file": "lib/A/B.pm", "version": 1.2 },
        "A::C": "lib/A/C.pm",
        "A::D": { "version": "3" },
        "A::E": null
      }
    }"#;
    let m = parse_json(json).unwrap();
    let sql = m.optional_features.get("sql").unwrap();
    assert_eq!(sql.description.as_deref(), Some("SQL"));
    assert_eq!(sql.prereqs.runtime.requires.get("DBI").unwrap(), "1.50");
    assert!(m.optional_features.get("bare").unwrap().prereqs.is_empty());
    assert!(m.optional_features.get("skip").is_none());
    let b = m.provides.get("A::B").unwrap();
    assert_eq!(b.file, "lib/A/B.pm");
    assert_eq!(b.version.as_deref(), Some("1.2"));
    assert_eq!(m.provides.get("A::C").unwrap().file, "lib/A/C.pm");
    assert_eq!(m.provides.get("A::D").unwrap().file, "");
    assert!(m.provides.get("A::E").is_none());
    assert_eq!(m.provides.len(), 3);
}

#[test]
fn scalar_fields() {
    let m = parse_json(r#"{ "name": 42, "version": true, "abstract": [1], "keywords": ["a", 1, null], "author": "Me" }"#).unwrap();
    assert_eq!(m.name, "42");
    assert_eq!(m.version, "1");
    assert!(m.abstract_.is_none());
    assert_eq!(m.keywords, ["a", "1"]);
    assert_eq!(m.author, ["Me"]);
}

#[test]
fn licenses_become_v2_tokens() {
    let m = parse_json(r#"{ "name": "A", "license": ["MIT", "weird", "perl"] }"#).unwrap();
    assert_eq!(m.license, ["mit", "unknown", "perl_5"]);
}

#[test]
fn resources_values() {
    let json = r#"{
      "name": "A",
      "resources": {
        "homepage": [null, "http://h"],
        "license": "http://l",
        "bugtracker": { "web": "http://b" },
        "x_IRC": "irc://x"
      }
    }"#;
    let m = parse_json(json).unwrap();
    assert_eq!(m.resources.homepage.as_deref(), Some("http://h"));
    assert_eq!(m.resources.license, ["http://l"]);
    assert_eq!(m.resources.bugtracker.as_ref().unwrap().web.as_deref(), Some("http://b"));
    assert_eq!(m.resources.custom.get("x_IRC"), Some(&Value::String("irc://x".to_string())));
    assert!(!m.resources.is_empty());
    assert!(m.no_index.is_empty());
}

#[test]
fn prereqs_without_modules_are_empty() {
    let mut p = Prereqs::new();
    assert!(p.is_empty());
    assert!(Prereqs::default().is_empty());
    p.other.insert("x_phase".to_string(), Phase::new());
    assert!(p.is_empty());
    let mut ph = Phase::new();
    ph.other.insert("x_rel".to_string(), SortedMap::new());
    p.runtime = ph;
    assert!(p.is_empty());
    let mut full = Phase::new();
    full.requires.insert("A::B".to_string(), "1".to_string());
    p.other.insert("x_other".to_string(), full);
    assert!(!p.is_empty());
}

#[test]
fn license_tokens_normalise_to_themselves() {
    for t in ["  MIT ", "Perl", "weird", "GPL", "apache_2_0", "Restrictive"] {
        let r = normalize_license_token(t);
        assert_eq!(normalize_license_token(&r), r);
    }
    assert_eq!(normalize_license_token("  MIT "), "mit");
}

#[test]
fn normalized_document_shape() {
    let mut o: Vec<(String, Value)> = vec![
        ("name".to_string(), s("A")),
        ("distribution_type".to_string(), s("module")),
        ("license_uri".to_string(), s("http://l")),
        ("authors".to_string(), s("Me")),
        ("private".to_string(), obj(vec![("directory", s("t"))])),
        ("requires".to_string(), obj(vec![("Carp", s("0"))])),
        ("build_requires".to_string(), obj(vec![("Test::More", s("0"))])),
        ("x_custom".to_string(), obj(vec![("k", Value::Bool(true))])),
        ("release_status".to_string(), s("Weird")),
    ];
    normalize(&mut o);
    let keys: Vec<&str> = o.iter().map(|(k, _)| k.as_str()).collect();
    for gone in ["distribution_type", "license_uri", "authors", "private", "requires", "build_requires"] {
        assert!(!keys.contains(&gone), "{gone} is still there");
    }
    let get = |k: &str| o.iter().rev().find(|(x, _)| x == k).map(|(_, v)| v.clone());
    assert_eq!(get("x_custom"), Some(obj(vec![("k", Value::Bool(true))])));
    assert_eq!(get("version"), Some(s("0")));
    assert_eq!(get("dynamic_config"), Some(Value::Bool(true)));
    assert_eq!(get("release_status"), Some(s("stable")));
    match get("meta-spec") {
        Some(Value::Object(m)) => assert!(m.contains(&("version".to_string(), s("2")))),
        other => panic!("unexpected {:?}", other),
    }
    let mut sorted = keys.clone();
    sorted.sort();
    sorted.dedup();
    assert_eq!(sorted.len(), keys.len());
}

#[test]
fn objects_compare_as_maps() {
    let a = obj(vec![("x", s("1")), ("y", Value::Array(vec![s("a")]))]);
    let b = obj(vec![("y", Value::Array(vec![s("a")])), ("x", s("1"))]);
    assert_eq!(a, b);
    let dup = obj(vec![("x", s("0")), ("y", Value::Array(vec![s("a")])), ("x", s("1"))]);
    assert_eq!(dup, a);
    let other = obj(vec![("x", s("1")), ("y", Value::Array(vec![s("b")]))]);
    assert_ne!(a, other);
    assert_ne!(a, obj(vec![("x", s("1"))]));
    assert_ne!(Value::Number("1".to_string()), Value::String("1".to_string()));
}

#[test]
fn normalizing_adds_no_custom_key() {
    let mut o: Vec<(String, Value)> = vec![("name".to_string(), s("A")), ("x_here".to_string(), s("v"))];
    normalize(&mut o);
    assert!(o.iter().any(|(k, v)| k == "x_here" && *v == s("v")));
    assert!(!o.iter().any(|(k, _)| k.starts_with("x_") && k != "x_here"));
}
