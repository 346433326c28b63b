use cpan_distribution_meta::version_range::{parse, Constraint, Op};

#[test]
fn bare_version_is_at_least() {
    assert_eq!(
        parse("1.5"),
        [Constraint {
            op: Op::GreaterEqual,
            version: "1.5".into()
        }]
    );
}

#[test]
fn any_version_marker_is_empty() {
    assert!(parse("0").is_empty());
    assert!(parse("").is_empty());
    assert!(parse("  ,  ").is_empty());
}

#[test]
fn all_operators() {
    let c = parse("< 1.0, <= 2.0, > 3.0, >= 4.0, == 5.0, != 6.0");
    assert_eq!(
        c,
        [
            Constraint {
                op: Op::Less,
                version: "1.0".into()
            },
            Constraint {
                op: Op::LessEqual,
                version: "2.0".into()
            },
            Constraint {
                op: Op::Greater,
                version: "3.0".into()
            },
            Constraint {
                op: Op::GreaterEqual,
                version: "4.0".into()
            },
            Constraint {
                op: Op::Equal,
                version: "5.0".into()
            },
            Constraint {
                op: Op::NotEqual,
                version: "6.0".into()
            },
        ]
    );
}

#[test]
fn tight_spacing_and_display() {
    let c = parse(">=1.2,!=1.5");
    assert_eq!(c.len(), 2);
    assert_eq!(c[0].to_string(), ">= 1.2");
    assert_eq!(c[1].to_string(), "!= 1.5");
}

#[test]
fn doc_example_range() {
    let c = parse(">= 1.2, != 1.5, < 2.0");
    assert_eq!(c.len(), 3);
    assert_eq!(c[0].op, Op::GreaterEqual);
    assert_eq!(c[0].version, "1.2");
    assert_eq!(c[2].op, Op::Less);
    assert_eq!(c[2].version, "2.0");
    assert_eq!(parse("1.10")[0].op, Op::GreaterEqual);
}

#[test]
fn operator_without_version_is_skipped() {
    let c = parse(">=, < 2, 0, ,3");
    assert_eq!(
        c,
        [
            Constraint {
                op: Op::Less,
                version: "2".into()
            },
            Constraint {
                op: Op::GreaterEqual,
                version: "3".into()
            },
        ]
    );
}

#[test]
fn operator_symbols() {
    assert_eq!(Op::LessEqual.to_string(), "<=");
    assert_eq!(Op::NotEqual.to_string(), "!=");
    assert_eq!(Op::Greater.to_string(), ">");
}

#[test]
fn comma_joined_ranges_combine() {
    let a = "> 1.0, != 1.5";
    let b = "<= 3";
    let mut both = parse(a);
    both.extend(parse(b));
    assert_eq!(parse("> 1.0, != 1.5,<= 3"), both);
    assert_eq!(both.len(), 3);
}

#[test]
fn constraint_text_reads_back() {
    for c in parse("< 1.0, >=2 ,3, != 4_01 , ==5") {
        assert!(!c.version.is_empty());
        assert_eq!(c.version.trim(), c.version);
        assert!(!c.version.contains(','));
        assert_eq!(parse(&c.to_string()), vec![c.clone()]);
    }
}
