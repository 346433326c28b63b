//! The revisions of the CPAN Meta Spec, and how a document's revision is found.
use vstd::prelude::*;
use crate::text::{
    chars_eq_str, chars_of, split_chars, split_on, string_of, text, trim, trim_chars,
    trim_start_char, trim_start_char_chars,
};
use crate::value::{obj_get, obj_contains, obj_view, JsonView, Value};

verus! {

/// A recognised version of the CPAN Meta Spec.
///
/// The `1.x` series describe `META.yml`; version `2` describes `META.json` (which may
/// also be written as YAML).
#[derive(Debug, Clone, PartialEq, Eq)]
#[non_exhaustive]
pub enum SpecVersion {
    /// Spec version 1.0 (March 2003).
    V1_0,
    /// Spec version 1.1 (May 2003).
    V1_1,
    /// Spec version 1.2 (August 2005).
    V1_2,
    /// Spec version 1.3 (November 2006).
    V1_3,
    /// Spec version 1.4 (June 2008).
    V1_4,
    /// Spec version 2 (April 2010), the current version.
    V2,
    /// A version string that is not one of the known revisions.
    Other(String),
}

/// The abstract form of a [`SpecVersion`].
pub ghost enum SpecVersionView {
    V1_0,
    V1_1,
    V1_2,
    V1_3,
    V1_4,
    V2,
    Other(Seq<char>),
}

impl View for SpecVersion {
    type V = SpecVersionView;

    open spec fn view(&self) -> SpecVersionView {
        match self {
            SpecVersion::V1_0 => SpecVersionView::V1_0,
            SpecVersion::V1_1 => SpecVersionView::V1_1,
            SpecVersion::V1_2 => SpecVersionView::V1_2,
            SpecVersion::V1_3 => SpecVersionView::V1_3,
            SpecVersion::V1_4 => SpecVersionView::V1_4,
            SpecVersion::V2 => SpecVersionView::V2,
            SpecVersion::Other(s) => SpecVersionView::Other(s@),
        }
    }
}

/// An ASCII decimal digit.
pub open spec fn is_digit(c: char) -> bool {
    '0' <= c <= '9'
}

/// Every character is a decimal digit.
pub open spec fn all_digits(s: Seq<char>) -> bool {
    forall|i: int| 0 <= i < s.len() ==> is_digit(#[trigger] s[i])
}

/// The number that a string of decimal digits writes.
pub open spec fn digits_value(s: Seq<char>) -> nat
    decreases s.len(),
{
    if s.len() == 0 {
        0
    } else {
        digits_value(s.drop_last()) * 10 + (s.last() as nat - '0' as nat) as nat
    }
}

/// What `str::parse::<u64>` accepts: an optional `+` and then one or more decimal
/// digits whose value fits in a `u64`.
pub open spec fn u64_of_text(s: Seq<char>) -> Option<u64> {
    let d = if s.len() > 0 && s[0] == '+' {
        s.drop_first()
    } else {
        s
    };
    if d.len() > 0 && all_digits(d) && digits_value(d) <= u64::MAX {
        Some(digits_value(d) as u64)
    } else {
        None
    }
}

/// The major component of a spec version: `1` for the `1.x` revisions, `2` for
/// version 2, and for another version string the number before its first `.`
/// (leading `v`s ignored), or `2` when that is not a number.
pub open spec fn major_of(v: SpecVersionView) -> u64 {
    match v {
        SpecVersionView::V2 => 2,
        SpecVersionView::Other(s) => match u64_of_text(trim_start_char(split_on(s, '.')[0], 'v')) {
            Some(n) => n,
            None => 2,
        },
        _ => 1,
    }
}

/// The revision that a `meta-spec` version text names. Only the major and minor
/// components count; leading white space and `v`s are ignored; a missing minor
/// component reads as `0`.
pub open spec fn version_of_text(value: Seq<char>) -> SpecVersionView {
    let t = trim(value);
    let parts = split_on(trim_start_char(t, 'v'), '.');
    let major = parts[0];
    let minor = if parts.len() > 1 {
        parts[1]
    } else {
        "0"@
    };
    if major == "1"@ && minor == "0"@ {
        SpecVersionView::V1_0
    } else if major == "1"@ && minor == "1"@ {
        SpecVersionView::V1_1
    } else if major == "1"@ && minor == "2"@ {
        SpecVersionView::V1_2
    } else if major == "1"@ && minor == "3"@ {
        SpecVersionView::V1_3
    } else if major == "1"@ && minor == "4"@ {
        SpecVersionView::V1_4
    } else if major == "2"@ {
        SpecVersionView::V2
    } else {
        SpecVersionView::Other(t)
    }
}

/// How a spec version is written: `1.0` to `1.4`, `2`, or the other version string.
pub open spec fn spec_version_text(v: SpecVersionView) -> Seq<char> {
    match v {
        SpecVersionView::V1_0 => "1.0"@,
        SpecVersionView::V1_1 => "1.1"@,
        SpecVersionView::V1_2 => "1.2"@,
        SpecVersionView::V1_3 => "1.3"@,
        SpecVersionView::V1_4 => "1.4"@,
        SpecVersionView::V2 => "2"@,
        SpecVersionView::Other(s) => s,
    }
}

/// The text of a version given as a string or a number.
pub open spec fn version_text(v: JsonView) -> Option<Seq<char>> {
    match v {
        JsonView::Str(s) => Some(s),
        JsonView::Number(n) => Some(n),
        _ => None,
    }
}

/// The `meta-spec` field's version value, if the document has one.
pub open spec fn declared_version(doc: Map<Seq<char>, JsonView>) -> Option<JsonView> {
    let field = if doc.contains_key("meta-spec"@) {
        Some(doc["meta-spec"@])
    } else if doc.contains_key("meta_spec"@) {
        Some(doc["meta_spec"@])
    } else {
        None
    };
    match field {
        Some(JsonView::Object(m)) => if m.contains_key("version"@) {
            Some(m["version"@])
        } else {
            None
        },
        Some(other) => Some(other),
        None => None,
    }
}

/// The spec version of a raw document: the one its `meta-spec` (or `meta_spec`)
/// field names, given as a string or a number; else version 2 when it has the
/// version 2 fields `prereqs` or `release_status`; else version 1.0, which had no
/// `meta-spec` field.
pub open spec fn detected_version(doc: Map<Seq<char>, JsonView>) -> SpecVersionView {
    match declared_version(doc) {
        Some(v) if version_text(v) is Some => version_of_text(version_text(v)->0),
        _ => if doc.contains_key("prereqs"@) || doc.contains_key("release_status"@) {
            SpecVersionView::V2
        } else {
            SpecVersionView::V1_0
        },
    }
}

proof fn lemma_digits_prefix(s: Seq<char>, i: int)
    requires
        0 <= i <= s.len(),
    ensures
        digits_value(s.take(i)) <= digits_value(s),
    decreases s.len() - i,
{
    if i < s.len() {
        lemma_digits_prefix(s, i + 1);
        assert(s.take(i + 1).drop_last() == s.take(i));
    } else {
        assert(s.take(i) == s);
    }
}

/// The value of an unsigned decimal number, as `str::parse::<u64>` reads it.
pub fn parse_u64(s: &[char]) -> (r: Option<u64>)
    ensures
        r == u64_of_text(s@),
{
    let start: usize = if s.len() > 0 && s[0] == '+' {
        1
    } else {
        0
    };
    let ghost d = if s@.len() > 0 && s@[0] == '+' {
        s@.drop_first()
    } else {
        s@
    };
    assert(d == s@.skip(start as int));
    if start == s.len() {
        return None;
    }
    let mut v: u64 = 0;
    let mut i = start;
    while i < s.len()
        invariant
            start <= i <= s.len(),
            d == s@.skip(start as int),
            d == (if s@.len() > 0 && s@[0] == '+' {
                s@.drop_first()
            } else {
                s@
            }),
            forall|k: int| 0 <= k < i - start ==> is_digit(#[trigger] d[k]),
            v == digits_value(d.take(i - start)),
        decreases s.len() - i,
    {
        let c = s[i];
        assert(d[i - start] == s@[i as int]);
        if !('0' <= c && c <= '9') {
            assert(!is_digit(d[i - start]));
            assert(!all_digits(d));
            return None;
        }
        assert(d.take(i - start + 1).drop_last() == d.take(i - start));
        let digit = (c as u32 - '0' as u32) as u64;
        assert(d.take(i - start + 1).last() == c);
        assert(digits_value(d.take(i - start + 1)) == v * 10 + digit);
        match v.checked_mul(10) {
            Some(t) => match t.checked_add(digit) {
                Some(n) => {
                    v = n;
                },
                None => {
                    proof {
                        lemma_digits_prefix(d, i - start + 1);
                        assert(digits_value(d) > u64::MAX);
                    }
                    return None;
                },
            },
            None => {
                proof {
                    lemma_digits_prefix(d, i - start + 1);
                }
                return None;
            },
        }
        i = i + 1;
    }
    assert(d.take(d.len() as int) == d);
    Some(v)
}

impl SpecVersion {
    /// The major component of the spec version (`1` or `2`, or what another version
    /// string starts with).
    pub fn major(&self) -> (r: u64)
        ensures
            r == major_of(self@),
    {
        match self {
            SpecVersion::V2 => 2,
            SpecVersion::Other(s) => {
                let cs = chars_of(s.as_str());
                let parts = split_chars(cs.as_slice(), '.');
                let m = trim_start_char_chars(parts[0].as_slice(), 'v');
                match parse_u64(m.as_slice()) {
                    Some(n) => n,
                    None => 2,
                }
            },
            _ => 1,
        }
    }

    /// Whether this is a `1.x` spec version, whose fields must be upgraded to the
    /// version 2 structure.
    pub fn is_legacy(&self) -> (r: bool)
        ensures
            r == (major_of(self@) < 2),
    {
        self.major() < 2
    }

    /// The revision that a version value from the `meta-spec` field names, such as
    /// `2`, `"1.4"` or `"v1.4.0"`.
    pub fn parse(value: &str) -> (r: SpecVersion)
        ensures
            r@ == version_of_text(value@),
    {
        let cs = chars_of(value);
        let t = trim_chars(cs.as_slice());
        let v = trim_start_char_chars(t.as_slice(), 'v');
        let parts = split_chars(v.as_slice(), '.');
        let major = parts[0].as_slice();
        let zero = chars_of("0");
        let minor = if parts.len() > 1 {
            parts[1].as_slice()
        } else {
            zero.as_slice()
        };
        if chars_eq_str(major, "1") && chars_eq_str(minor, "0") {
            SpecVersion::V1_0
        } else if chars_eq_str(major, "1") && chars_eq_str(minor, "1") {
            SpecVersion::V1_1
        } else if chars_eq_str(major, "1") && chars_eq_str(minor, "2") {
            SpecVersion::V1_2
        } else if chars_eq_str(major, "1") && chars_eq_str(minor, "3") {
            SpecVersion::V1_3
        } else if chars_eq_str(major, "1") && chars_eq_str(minor, "4") {
            SpecVersion::V1_4
        } else if chars_eq_str(major, "2") {
            SpecVersion::V2
        } else {
            SpecVersion::Other(string_of(t.as_slice()))
        }
    }

    /// How the version is written (see [`spec_version_text`]).
    pub fn to_string(&self) -> (r: String)
        ensures
            r@ == spec_version_text(self@),
    {
        match self {
            SpecVersion::V1_0 => text("1.0"),
            SpecVersion::V1_1 => text("1.1"),
            SpecVersion::V1_2 => text("1.2"),
            SpecVersion::V1_3 => text("1.3"),
            SpecVersion::V1_4 => text("1.4"),
            SpecVersion::V2 => text("2"),
            SpecVersion::Other(s) => text(s.as_str()),
        }
    }
}

impl Default for SpecVersion {
    /// The current spec version, [`SpecVersion::V2`].
    fn default() -> (r: SpecVersion)
        ensures
            r@ == SpecVersionView::V2,
    {
        SpecVersion::V2
    }
}

/// The text of a version value given as a string or a number.
fn value_version_text(v: &Value) -> (r: Option<String>)
    ensures
        match version_text(v@) {
            Some(t) => r matches Some(s) && s@ == t,
            None => r is None,
        },
{
    match v {
        Value::String(s) => Some(s.clone()),
        Value::Number(n) => Some(n.clone()),
        _ => None,
    }
}

/// The spec version of a raw document (see [`detected_version`]).
pub fn detect(doc: &Vec<(String, Value)>) -> (r: SpecVersion)
    ensures
        r@ == detected_version(obj_view(doc@)),
{
    let field = match obj_get(doc, "meta-spec") {
        Some(v) => Some(v),
        None => obj_get(doc, "meta_spec"),
    };
    let raw: Option<&Value> = match field {
        Some(Value::Object(m)) => {
            proof {
                crate::value::lemma_object_view(*m);
            }
            obj_get(m, "version")
        },
        Some(other) => Some(other),
        None => None,
    };
    match raw {
        Some(v) => match value_version_text(v) {
            Some(s) => {
                return SpecVersion::parse(s.as_str());
            },
            None => {},
        },
        None => {},
    }
    if obj_contains(doc, "prereqs") || obj_contains(doc, "release_status") {
        SpecVersion::V2
    } else {
        SpecVersion::V1_0
    }
}

} // verus!
