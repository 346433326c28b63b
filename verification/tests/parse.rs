use cpan_distribution_meta::{parse, parse_json, parse_slice, parse_yaml, Error, ReleaseStatus, SpecVersion, Value};

#[test]
fn format_autodetection() {
    // JSON content parses even via the generic entry point
    let json = r#"{ "name": "X", "version": "1" }"#;
    assert_eq!(parse(json).unwrap().name, "X");

    // YAML content parses via the generic entry point
    let yaml = "name: Y\nversion: '2'\n";
    assert_eq!(parse(yaml).unwrap().name, "Y");

    // explicit parsers
    assert_eq!(parse_json(json).unwrap().version, "1");
    assert_eq!(parse_yaml(yaml).unwrap().version, "2");
}

#[test]
fn release_status_derived_from_trial_version() {
    let yaml = "name: Trial-Dist\nversion: '1.00-TRIAL'\n";
    let meta = parse(yaml).unwrap();
    assert_eq!(meta.release_status, ReleaseStatus::Testing);

    let yaml = "name: Dev-Dist\nversion: '1.00_01'\n";
    let meta = parse(yaml).unwrap();
    assert_eq!(meta.release_status, ReleaseStatus::Testing);
}

#[test]
fn errors() {
    // not a mapping
    assert!(matches!(
        parse("[1, 2, 3]").unwrap_err(),
        Error::NotAMapping
    ));

    // missing required `name`
    assert!(matches!(
        parse("version: '1.0'").unwrap_err(),
        Error::MissingField("name")
    ));

    // empty input
    assert!(matches!(parse("   ").unwrap_err(), Error::UnknownFormat));

    // malformed
    assert!(matches!(
        parse_json("{ not json").unwrap_err(),
        Error::Json(_)
    ));
}

const SPEC2_JSON: &str = r#"{
  "name": "Foo-Bar",
  "version": "1.23",
  "abstract": "a foo for bars",
  "author": ["Jane Doe <jane@example.com>"],
  "license": ["perl_5"],
  "dynamic_config": 0,
  "release_status": "stable",
  "meta-spec": { "version": 2 },
  "prereqs": {
    "runtime": { "requires": { "perl": "5.010", "Carp": "0" } }
  }
}"#;

const SPEC14_YAML: &str = r#"
---
name: Foo-Bar
version: 1.23
abstract: a foo for bars
author:
  - Jane Doe <jane@example.com>
license: perl
requires:
  perl: 5.006
  Carp: 0
build_requires:
  Test::More: 0
resources:
  repository: http://github.com/jane/foo-bar
meta-spec:
  version: 1.4
"#;

#[test]
fn doc_example_spec2_json() {
    let meta = parse(SPEC2_JSON).unwrap();
    assert_eq!(meta.name, "Foo-Bar");
    assert_eq!(meta.version, "1.23");
    assert_eq!(meta.spec_version(), &SpecVersion::V2);
    assert_eq!(meta.prereqs.runtime.requires.get("perl").unwrap(), "5.010");
    assert_eq!(meta.prereqs.runtime.requires.get("Carp").unwrap(), "0");
    assert!(!meta.dynamic_config);
    assert_eq!(meta.meta_spec.version, "2");
    // keys come out in order
    let keys: Vec<&str> = meta.prereqs.runtime.requires.entries().iter().map(|(k, _)| k.as_str()).collect();
    assert_eq!(keys, ["Carp", "perl"]);
}

#[test]
fn doc_example_spec1_4_yaml_is_upgraded() {
    let meta = parse(SPEC14_YAML).unwrap();
    assert_eq!(meta.license, ["perl_5"]);
    assert_eq!(meta.spec_version(), &SpecVersion::V1_4);
    assert!(meta.spec_version().is_legacy());
    assert_eq!(meta.prereqs.runtime.requires.get("Carp").unwrap(), "0");
    assert_eq!(meta.prereqs.runtime.requires.get("perl").unwrap(), "5.006");
    assert_eq!(meta.prereqs.build.requires.get("Test::More").unwrap(), "0");
    let repo = meta.resources.repository.as_ref().unwrap();
    assert_eq!(repo.web.as_deref(), Some("http://github.com/jane/foo-bar"));
    assert_eq!(repo.url.as_deref(), Some("http://github.com/jane/foo-bar"));
    assert_eq!(repo.type_.as_deref(), Some("git"));
    // an unquoted YAML number loses its trailing zero
    assert_eq!(meta.version, "1.23");
    assert_eq!(meta.meta_spec.version, "2");
}

#[test]
fn legacy_fields_are_upgraded() {
    let yaml = "name: Acme-Old\nversion: '0.01'\nlicense: gpl\nauthors: [A, B]\n\
private:\n  dir: [t, inc]\n  module: Acme::Old::Private\n\
resources:\n  homepage: http://example.com/acme-old\n  bugtracker: bugs@example.com\n  Repository: http://svn.example.com/acme-old/trunk\n\
distribution_type: module\nmeta-spec:\n  version: '1.2'\n  url: http://example.com/spec\n";
    let meta = parse(yaml).unwrap();
    assert_eq!(meta.spec_version(), &SpecVersion::V1_2);
    assert_eq!(meta.license, ["open_source"]);
    assert_eq!(meta.author, ["A", "B"]);
    assert_eq!(meta.no_index.directory, ["t", "inc"]);
    assert_eq!(meta.no_index.package, ["Acme::Old::Private"]);
    assert_eq!(meta.resources.homepage.as_deref(), Some("http://example.com/acme-old"));
    assert_eq!(
        meta.resources.bugtracker.as_ref().unwrap().mailto.as_deref(),
        Some("bugs@example.com")
    );
    assert!(meta.resources.repository.is_none());
    assert!(meta.resources.custom.contains_key("Repository"));
    assert!(!meta.custom.contains_key("distribution_type"));
    assert!(!meta.custom.contains_key("private"));
    assert_eq!(meta.meta_spec.url.as_deref(), Some("http://example.com/spec"));
}

#[test]
fn spec1_0_defaults() {
    let yaml = "name: Ancient-Dist\nversion: '1.00'\nlicense: perl\nrequires:\n  perl: 5.00503\n  Test::Harness: 0\nbuild_requires: {}\n";
    let meta = parse(yaml).unwrap();
    assert_eq!(meta.spec_version(), &SpecVersion::V1_0);
    assert_eq!(meta.prereqs.runtime.requires.get("perl").unwrap(), "5.00503");
    assert!(meta.prereqs.build.is_empty());
    assert!(meta.abstract_.is_none());
    assert!(meta.author.is_empty());
    assert!(meta.dynamic_config);
    assert_eq!(meta.release_status, ReleaseStatus::Stable);
}

#[test]
fn custom_keys_are_kept() {
    let json = r#"{ "name": "X", "version": "1", "x_thing": [1, {"a": true}], "x_num": 1.5 }"#;
    let meta = parse(json).unwrap();
    match meta.custom.get("x_thing").unwrap() {
        Value::Array(a) => assert_eq!(a.len(), 2),
        other => panic!("unexpected {:?}", other),
    }
    assert_eq!(meta.custom.get("x_num"), Some(&Value::Number("1.5".to_string())));
}

#[test]
fn name_that_is_not_a_scalar_fails_as_json() {
    let json = r#"{ "name": [1], "version": "1" }"#;
    assert!(matches!(parse(json).unwrap_err(), Error::Json(_)));
}

#[test]
fn byte_input() {
    let mut bytes = vec![0xef, 0xbb, 0xbf];
    bytes.extend_from_slice(b"{ \"name\": \"B\" }");
    let meta = parse_slice(&bytes).unwrap();
    assert_eq!(meta.name, "B");
    assert_eq!(meta.version, "0");
    match parse_slice(&[0xff, 0x00]).unwrap_err() {
        Error::Invalid(m) => assert!(m.starts_with("input is not valid UTF-8: ")),
        other => panic!("unexpected {:?}", other),
    }
}

#[test]
fn yaml_first_error_is_reported() {
    // looks like YAML, and is neither YAML nor JSON
    assert!(matches!(parse("a: [b\n").unwrap_err(), Error::Yaml(_)));
}

#[test]
fn every_legacy_dependency_field_is_upgraded() {
    let json = r#"{
      "name": "Legacy",
      "configure_requires": { "C::Mod": "1" },
      "build_requires": { "B::Mod": 2 },
      "test_requires": { "T::Mod": null },
      "requires": { "R::Mod": "3" },
      "recommends": { "Rec::Mod": true },
      "conflicts": { "Bad::Mod": "< 4" }
    }"#;
    let meta = parse(json).unwrap();
    let p = &meta.prereqs;
    assert_eq!(p.phase("configure").unwrap().relation("requires").unwrap().get("C::Mod").unwrap(), "1");
    assert_eq!(p.phase("build").unwrap().relation("requires").unwrap().get("B::Mod").unwrap(), "2");
    assert_eq!(p.phase("test").unwrap().relation("requires").unwrap().get("T::Mod").unwrap(), "0");
    assert_eq!(p.runtime.requires.get("R::Mod").unwrap(), "3");
    assert_eq!(p.runtime.recommends.get("Rec::Mod").unwrap(), "1");
    assert_eq!(p.runtime.conflicts.get("Bad::Mod").unwrap(), "< 4");
    assert!(!meta.custom.contains_key("requires"));
}

#[test]
fn private_reads_as_no_index() {
    let a = parse("name: A\nprivate:\n  directory: [t]\n  module: [A::B]\n").unwrap();
    let b = parse("name: A\nno_index:\n  directory: [t]\n  module: [A::B]\n").unwrap();
    assert_eq!(a.no_index, b.no_index);
    assert_eq!(a.no_index.directory, ["t"]);
    assert_eq!(a.no_index.package, ["A::B"]);
}

#[test]
fn string_resources_are_structured() {
    let m = parse("name: A\nresources:\n  repository: git://example.com/a.git\n  bugtracker: http://rt.example.com/a\n").unwrap();
    let r = m.resources.repository.as_ref().unwrap();
    assert_eq!(r.url.as_deref(), Some("git://example.com/a.git"));
    assert!(r.web.is_none());
    assert_eq!(r.type_.as_deref(), Some("git"));
    let b = m.resources.bugtracker.as_ref().unwrap();
    assert_eq!(b.web.as_deref(), Some("http://rt.example.com/a"));
    assert!(b.mailto.is_none());
}

#[test]
fn version_and_dynamic_config_defaults() {
    let m = parse_json(r#"{ "name": "A", "version": {"x": 1} }"#).unwrap();
    assert_eq!(m.version, "0");
    assert!(m.dynamic_config);
    let m = parse_json(r#"{ "name": "A", "version": 1.5, "dynamic_config": "No" }"#).unwrap();
    assert_eq!(m.version, "1.5");
    assert!(!m.dynamic_config);
}

#[test]
fn parsed_metadata_clones_equal() {
    let meta = parse(SPEC14_YAML).unwrap();
    let copy = meta.clone();
    assert_eq!(copy, meta);
    assert_eq!(copy.prereqs.runtime.requires.get("perl").unwrap(), "5.006");
}
