use cpan_distribution_meta::{parse, SpecVersion};

#[test]
fn major_of_each_revision() {
    assert_eq!(SpecVersion::V1_0.major(), 1);
    assert_eq!(SpecVersion::V1_4.major(), 1);
    assert_eq!(SpecVersion::V2.major(), 2);
    assert_eq!(SpecVersion::Other("3.1".to_string()).major(), 3);
    assert_eq!(SpecVersion::Other("vv7".to_string()).major(), 7);
    assert_eq!(SpecVersion::Other("+5.0".to_string()).major(), 5);
    assert_eq!(SpecVersion::Other("x.1".to_string()).major(), 2);
    assert_eq!(SpecVersion::Other("99999999999999999999".to_string()).major(), 2);
    assert!(SpecVersion::V1_2.is_legacy());
    assert!(!SpecVersion::V2.is_legacy());
    assert!(SpecVersion::Other("0.9".to_string()).is_legacy());
}

#[test]
fn version_texts() {
    assert_eq!(SpecVersion::parse("v1.4.0"), SpecVersion::V1_4);
    assert_eq!(SpecVersion::parse(" 2.0 "), SpecVersion::V2);
    assert_eq!(SpecVersion::parse("2"), SpecVersion::V2);
    assert_eq!(SpecVersion::parse("1"), SpecVersion::V1_0);
    assert_eq!(SpecVersion::parse("1.3"), SpecVersion::V1_3);
    assert_eq!(SpecVersion::parse(" 1.5 "), SpecVersion::Other("1.5".to_string()));
    assert_eq!(SpecVersion::V1_1.to_string(), "1.1");
    assert_eq!(SpecVersion::Other("7".to_string()).to_string(), "7");
    assert_eq!(SpecVersion::default(), SpecVersion::V2);
}

#[test]
fn detection_from_documents() {
    // a number in meta-spec
    let m = parse("{\"name\": \"A\", \"meta-spec\": {\"version\": 1.4}}").unwrap();
    assert_eq!(m.spec_version(), &SpecVersion::V1_4);
    // the underscore spelling, given directly
    let m = parse("name: A\nmeta_spec: '1.1'\n").unwrap();
    assert_eq!(m.spec_version(), &SpecVersion::V1_1);
    // version 2 fields without meta-spec
    let m = parse("name: A\nrelease_status: testing\n").unwrap();
    assert_eq!(m.spec_version(), &SpecVersion::V2);
    assert_eq!(m.release_status, cpan_distribution_meta::ReleaseStatus::Testing);
    // nothing: spec version 1.0
    let m = parse("name: A\n").unwrap();
    assert_eq!(m.spec_version(), &SpecVersion::V1_0);
    // a meta-spec version that is not a string or number is ignored
    let m = parse("name: A\nmeta-spec: [1]\nprereqs: {}\n").unwrap();
    assert_eq!(m.spec_version(), &SpecVersion::V2);
}

#[test]
fn spec_version_text_round_trip() {
    for v in [SpecVersion::V1_0, SpecVersion::V1_1, SpecVersion::V1_2, SpecVersion::V1_3, SpecVersion::V1_4, SpecVersion::V2] {
        assert_eq!(SpecVersion::parse(&v.to_string()), v);
    }
    for s in ["  v9.1 ", "1.4", " 2.0.1", "x"] {
        let v = SpecVersion::parse(s);
        assert_eq!(SpecVersion::parse(&v.to_string()), v);
    }
    assert_eq!(SpecVersion::parse("  v9.1 "), SpecVersion::Other("v9.1".to_string()));
}
