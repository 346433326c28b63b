//! Normalisation of a raw metadata document (any spec version) into the version 2
//! structure, following the rules of Perl's `CPAN::Meta::Converter`.
//!
//! Everything here is lenient: malformed or unexpected shapes are coerced or dropped
//! rather than rejected.
use vstd::prelude::*;
use crate::text::{
    chars_eq_str, chars_of, contains_char, contains_seq, contains_str, ends_with, ends_with_chars,
    lowercase, starts_with, starts_with_chars, text, to_lowercase, trim,
};
use crate::value::{
    clone_value, lemma_array_view, lemma_object_view, lemma_obj_view_empty, lemma_obj_view_take,
    keys_distinct, obj_contains, obj_get, obj_insert, obj_remove, obj_view, JsonView, Value,
};

verus! {

/// A document object: the map from its keys to their values.
pub type Obj = Map<Seq<char>, JsonView>;

/// The map has at least one key.
pub open spec fn has_entries<V>(m: Map<Seq<char>, V>) -> bool {
    exists|k: Seq<char>| m.contains_key(k)
}

/// The value of `k` in `m`, if it has one.
pub open spec fn field(m: Obj, k: Seq<char>) -> Option<JsonView> {
    if m.contains_key(k) {
        Some(m[k])
    } else {
        None
    }
}

/// The text of a scalar: a string as it is, a number as it is written, `true` as
/// `1` and `false` as `0`. Other values have none.
pub open spec fn scalar_text(v: JsonView) -> Option<Seq<char>> {
    match v {
        JsonView::Str(s) => Some(s),
        JsonView::Number(n) => Some(n),
        JsonView::Bool(b) => Some(
            if b {
                "1"@
            } else {
                "0"@
            },
        ),
        _ => None,
    }
}

/// The text of the scalar that `k` has in `m`.
pub open spec fn field_text(m: Obj, k: Seq<char>) -> Option<Seq<char>> {
    match field(m, k) {
        Some(v) => scalar_text(v),
        None => None,
    }
}

/// The object held by an optional value, or the empty object.
pub open spec fn object_or_empty(v: Option<JsonView>) -> Obj {
    match v {
        Some(JsonView::Object(m)) => m,
        _ => Map::empty(),
    }
}

/// The texts of the scalars in a list, in order.
pub open spec fn scalars(a: Seq<JsonView>) -> Seq<Seq<char>>
    decreases a.len(),
{
    if a.len() == 0 {
        Seq::empty()
    } else {
        match scalar_text(a.last()) {
            Some(s) => scalars(a.drop_last()).push(s),
            None => scalars(a.drop_last()),
        }
    }
}

/// A value read as a list of texts: the scalars of an array, or a single scalar.
pub open spec fn string_list(v: JsonView) -> Seq<Seq<char>> {
    match v {
        JsonView::Array(a) => scalars(a),
        _ => match scalar_text(v) {
            Some(s) => seq![s],
            None => Seq::empty(),
        },
    }
}

/// The first scalar of a list, as text.
pub open spec fn first_scalar(a: Seq<JsonView>) -> Option<Seq<char>>
    decreases a.len(),
{
    if a.len() == 0 {
        None
    } else {
        match scalar_text(a[0]) {
            Some(s) => Some(s),
            None => first_scalar(a.drop_first()),
        }
    }
}

/// A value read as one text: the first scalar of an array, or the scalar itself.
pub open spec fn first_text(v: JsonView) -> Option<Seq<char>> {
    match v {
        JsonView::Array(a) => first_scalar(a),
        _ => scalar_text(v),
    }
}

/// An array of strings.
pub open spec fn str_array(l: Seq<Seq<char>>) -> JsonView {
    JsonView::Array(Seq::new(l.len(), |i: int| JsonView::Str(l[i])))
}

/// A dependency map: module to version text, with `0` for a version that is not a
/// scalar. Only an object gives one.
pub open spec fn dep_map(v: JsonView) -> Map<Seq<char>, Seq<char>> {
    match v {
        JsonView::Object(m) => Map::new(
            |k: Seq<char>| m.contains_key(k),
            |k: Seq<char>|
                match scalar_text(m[k]) {
                    Some(s) => s,
                    None => "0"@,
                },
        ),
        _ => Map::empty(),
    }
}

/// The views of a list of texts.
pub open spec fn texts(v: Seq<String>) -> Seq<Seq<char>> {
    Seq::new(v.len(), |i: int| v[i]@)
}

/// The map that a list of pairs of texts stands for: later pairs replace earlier ones.
pub open spec fn pairs_map(s: Seq<(String, String)>) -> Map<Seq<char>, Seq<char>>
    decreases s.len(),
{
    if s.len() == 0 {
        Map::empty()
    } else {
        pairs_map(s.drop_last()).insert(s.last().0@, s.last().1@)
    }
}

/// The text of a scalar value (see [`scalar_text`]).
pub fn scalar_to_string(v: &Value) -> (r: Option<String>)
    ensures
        match scalar_text(v@) {
            Some(t) => r matches Some(s) && s@ == t,
            None => r is None,
        },
{
    match v {
        Value::String(s) => Some(s.clone()),
        Value::Number(n) => Some(n.clone()),
        Value::Bool(b) => Some(
            if *b {
                text("1")
            } else {
                text("0")
            },
        ),
        _ => None,
    }
}

/// The texts of the scalars in a list of values.
fn scalars_of(a: &Vec<Value>) -> (r: Vec<String>)
    ensures
        texts(r@) == scalars(crate::value::seq_view(a@)),
{
    let ghost av = crate::value::seq_view(a@);
    let mut out: Vec<String> = Vec::new();
    let mut i: usize = 0;
    while i < a.len()
        invariant
            i <= a.len(),
            av == crate::value::seq_view(a@),
            texts(out@) == scalars(av.take(i as int)),
        decreases a.len() - i,
    {
        assert(av.take(i + 1).drop_last() == av.take(i as int));
        assert(av.take(i + 1).last() == a@[i as int]@);
        match scalar_to_string(&a[i]) {
            Some(s) => {
                let ghost before = out@;
                out.push(s);
                assert(texts(out@) == texts(before).push(s@));
            },
            None => {},
        }
        i = i + 1;
    }
    assert(av.take(a.len() as int) == av);
    out
}

/// A value read as a list of texts (see [`string_list`]).
pub fn to_string_list(v: &Value) -> (r: Vec<String>)
    ensures
        texts(r@) == string_list(v@),
{
    match v {
        Value::Array(a) => {
            proof {
                lemma_array_view(*a);
            }
            scalars_of(a)
        },
        _ => match scalar_to_string(v) {
            Some(s) => {
                let mut out: Vec<String> = Vec::new();
                out.push(s);
                assert(texts(out@) == seq![s@]);
                out
            },
            None => {
                let out: Vec<String> = Vec::new();
                assert(texts(out@) == Seq::<Seq<char>>::empty());
                out
            },
        },
    }
}

/// A value read as one text (see [`first_text`]).
pub fn first_string(v: &Value) -> (r: Option<String>)
    ensures
        match first_text(v@) {
            Some(t) => r matches Some(s) && s@ == t,
            None => r is None,
        },
{
    match v {
        Value::Array(a) => {
            proof {
                lemma_array_view(*a);
            }
            let ghost av = crate::value::seq_view(a@);
            let mut i: usize = 0;
            assert(av.skip(0) == av);
            while i < a.len()
                invariant
                    i <= a.len(),
                    av == crate::value::seq_view(a@),
                    v@ == JsonView::Array(av),
                    first_scalar(av) == first_scalar(av.skip(i as int)),
                decreases a.len() - i,
            {
                assert(av.skip(i as int)[0] == a@[i as int]@);
                assert(av.skip(i as int).drop_first() == av.skip(i + 1));
                match scalar_to_string(&a[i]) {
                    Some(s) => {
                        return Some(s);
                    },
                    None => {},
                }
                i = i + 1;
            }
            assert(av.skip(i as int).len() == 0);
            None
        },
        _ => scalar_to_string(v),
    }
}

/// An array value of the given texts.
pub fn strings_value(l: Vec<String>) -> (r: Value)
    ensures
        r@ == str_array(texts(l@)),
{
    let ghost lv = texts(l@);
    let mut out: Vec<Value> = Vec::new();
    let mut l = l;
    let mut rest: Vec<String> = Vec::new();
    while l.len() > 0
        invariant
            lv.len() == l@.len() + rest@.len(),
            forall|k: int| 0 <= k < l@.len() ==> (#[trigger] l@[k])@ == lv[k],
            forall|k: int| 0 <= k < rest@.len() ==> (#[trigger] rest@[k])@ == lv[lv.len() - 1 - k],
        decreases l.len(),
    {
        let s = l.pop().unwrap();
        rest.push(s);
    }
    while rest.len() > 0
        invariant
            lv.len() == out@.len() + rest@.len(),
            forall|k: int| 0 <= k < rest@.len() ==> (#[trigger] rest@[k])@ == lv[lv.len() - 1 - k],
            forall|k: int| 0 <= k < out@.len() ==> (#[trigger] out@[k])@ == JsonView::Str(lv[k]),
        decreases rest.len(),
    {
        let s = rest.pop().unwrap();
        out.push(Value::String(s));
    }
    proof {
        lemma_array_view(out);
        assert(crate::value::seq_view(out@) =~= str_array(lv)->Array_0);
    }
    Value::Array(out)
}

/// A value read as a dependency map (see [`dep_map`]), as a list of pairs.
pub fn to_dep_map(v: &Value) -> (r: Vec<(String, String)>)
    ensures
        pairs_map(r@) == dep_map(v@),
{
    let mut out: Vec<(String, String)> = Vec::new();
    match v {
        Value::Object(m) => {
            proof {
                lemma_object_view(*m);
            }
            let mut i: usize = 0;
            while i < m.len()
                invariant
                    i <= m.len(),
                    pairs_map(out@) == dep_map(JsonView::Object(obj_view(m@.take(i as int)))),
                decreases m.len() - i,
            {
                proof {
                    lemma_obj_view_take(m@, i as int);
                }
                let ver = match scalar_to_string(&m[i].1) {
                    Some(s) => s,
                    None => text("0"),
                };
                let ghost before = out@;
                let pair = (m[i].0.clone(), ver);
                out.push(pair);
                proof {
                    assert(out@.drop_last() == before);
                    assert(pairs_map(out@) =~= dep_map(
                        JsonView::Object(obj_view(m@.take(i + 1))),
                    ));
                }
                i = i + 1;
            }
            assert(m@.take(m.len() as int) == m@);
        },
        _ => {
            assert(pairs_map(out@) =~= dep_map(v@));
        },
    }
    out
}

/// The license identifiers of spec version 2.
pub open spec fn is_v2_license(t: Seq<char>) -> bool {
    ||| t == "agpl_3"@
    ||| t == "apache_1_1"@
    ||| t == "apache_2_0"@
    ||| t == "artistic_1"@
    ||| t == "artistic_2"@
    ||| t == "bsd"@
    ||| t == "freebsd"@
    ||| t == "gfdl_1_2"@
    ||| t == "gfdl_1_3"@
    ||| t == "gpl_1"@
    ||| t == "gpl_2"@
    ||| t == "gpl_3"@
    ||| t == "lgpl_2_1"@
    ||| t == "lgpl_3_0"@
    ||| t == "mit"@
    ||| t == "mozilla_1_0"@
    ||| t == "mozilla_1_1"@
    ||| t == "openssl"@
    ||| t == "perl_5"@
    ||| t == "qpl_1_0"@
    ||| t == "ssleay"@
    ||| t == "sun"@
    ||| t == "zlib"@
    ||| t == "open_source"@
    ||| t == "restricted"@
    ||| t == "unrestricted"@
    ||| t == "unknown"@
}

/// A license token as a spec version 2 identifier. The token is trimmed and
/// lowercased; a version 2 identifier stays as it is, a known 1.x token is upgraded,
/// and anything else becomes `unknown`.
pub open spec fn license_token(token: Seq<char>) -> Seq<char> {
    let t = lowercase(trim(token));
    if is_v2_license(t) {
        t
    } else if t == "perl"@ {
        "perl_5"@
    } else if t == "apache"@ {
        "apache_2_0"@
    } else if t == "artistic"@ {
        "artistic_1"@
    } else if t == "mozilla"@ {
        "mozilla_1_0"@
    } else if t == "gpl"@ || t == "lgpl"@ {
        "open_source"@
    } else if t == "restrictive"@ {
        "restricted"@
    } else {
        "unknown"@
    }
}

/// The version control system that a repository location names: the first of `git`,
/// `svn`, `hg`, `bzr`, `darcs`, `cvs` whose marks occur in the lowercased text.
pub open spec fn vcs_guess(s: Seq<char>) -> Option<Seq<char>> {
    let l = lowercase(s);
    if contains_seq(l, "git"@) {
        Some("git"@)
    } else if contains_seq(l, "svn"@) || contains_seq(l, "subversion"@) {
        Some("svn"@)
    } else if contains_seq(l, "mercurial"@) || contains_seq(l, "/hg"@) || ends_with(l, "hg"@) {
        Some("hg"@)
    } else if contains_seq(l, "bzr"@) || contains_seq(l, "bazaar"@) {
        Some("bzr"@)
    } else if contains_seq(l, "darcs"@) {
        Some("darcs"@)
    } else if contains_seq(l, "cvs"@) {
        Some("cvs"@)
    } else {
        None
    }
}

fn is_v2_license_chars(t: &[char]) -> (r: bool)
    ensures
        r == is_v2_license(t@),
{
    chars_eq_str(t, "agpl_3") ||
    chars_eq_str(t, "apache_1_1") ||
    chars_eq_str(t, "apache_2_0") ||
    chars_eq_str(t, "artistic_1") ||
    chars_eq_str(t, "artistic_2") ||
    chars_eq_str(t, "bsd") ||
    chars_eq_str(t, "freebsd") ||
    chars_eq_str(t, "gfdl_1_2") ||
    chars_eq_str(t, "gfdl_1_3") ||
    chars_eq_str(t, "gpl_1") ||
    chars_eq_str(t, "gpl_2") ||
    chars_eq_str(t, "gpl_3") ||
    chars_eq_str(t, "lgpl_2_1") ||
    chars_eq_str(t, "lgpl_3_0") ||
    chars_eq_str(t, "mit") ||
    chars_eq_str(t, "mozilla_1_0") ||
    chars_eq_str(t, "mozilla_1_1") ||
    chars_eq_str(t, "openssl") ||
    chars_eq_str(t, "perl_5") ||
    chars_eq_str(t, "qpl_1_0") ||
    chars_eq_str(t, "ssleay") ||
    chars_eq_str(t, "sun") ||
    chars_eq_str(t, "zlib") ||
    chars_eq_str(t, "open_source") ||
    chars_eq_str(t, "restricted") ||
    chars_eq_str(t, "unrestricted") ||
    chars_eq_str(t, "unknown")
}

/// Map a license token to a spec version 2 identifier (see [`license_token`]).
pub fn normalize_license_token(token: &str) -> (r: String)
    ensures
        r@ == license_token(token@),
{
    let trimmed = crate::text::trim_str(token);
    let lower = to_lowercase(trimmed.as_str());
    let tv = chars_of(lower.as_str());
    let t = tv.as_slice();
    if is_v2_license_chars(t) {
        lower
    } else if chars_eq_str(t, "perl") {
        text("perl_5")
    } else if chars_eq_str(t, "apache") {
        text("apache_2_0")
    } else if chars_eq_str(t, "artistic") {
        text("artistic_1")
    } else if chars_eq_str(t, "mozilla") {
        text("mozilla_1_0")
    } else if chars_eq_str(t, "gpl") || chars_eq_str(t, "lgpl") {
        text("open_source")
    } else if chars_eq_str(t, "restrictive") {
        text("restricted")
    } else {
        text("unknown")
    }
}

/// Guess the version control system of a repository location (see [`vcs_guess`]).
pub fn guess_vcs_type(s: &str) -> (r: Option<String>)
    ensures
        match vcs_guess(s@) {
            Some(t) => r matches Some(x) && x@ == t,
            None => r is None,
        },
{
    let lower = to_lowercase(s);
    let lv = chars_of(lower.as_str());
    let l = lv.as_slice();
    if contains_str(l, "git") {
        Some(text("git"))
    } else if contains_str(l, "svn") || contains_str(l, "subversion") {
        Some(text("svn"))
    } else if contains_str(l, "mercurial") || contains_str(l, "/hg") || ends_with_chars(
        l,
        chars_of("hg").as_slice(),
    ) {
        Some(text("hg"))
    } else if contains_str(l, "bzr") || contains_str(l, "bazaar") {
        Some(text("bzr"))
    } else if contains_str(l, "darcs") {
        Some(text("darcs"))
    } else if contains_str(l, "cvs") {
        Some(text("cvs"))
    } else {
        None
    }
}

/// A relationship's dependencies with more added: what it has stays, and each new
/// module gets its version text.
pub open spec fn merged_relation(rm: Obj, deps: Map<Seq<char>, Seq<char>>) -> Obj {
    Map::new(
        |k: Seq<char>| rm.contains_key(k) || deps.contains_key(k),
        |k: Seq<char>|
            if rm.contains_key(k) {
                rm[k]
            } else {
                JsonView::Str(deps[k])
            },
    )
}

/// The prerequisites with a legacy dependency map merged in at `phase`/`rel`, never
/// replacing an entry that is already there. Nothing changes when the value gives no
/// dependency, or when the phase or the relationship holds something other than an
/// object.
pub open spec fn merged_prereqs(p: Obj, phase: Seq<char>, rel: Seq<char>, v: JsonView) -> Obj {
    let deps = dep_map(v);
    if !has_entries(deps) {
        p
    } else {
        match field(p, phase) {
            Some(JsonView::Object(pm)) => match field(pm, rel) {
                Some(JsonView::Object(rm)) => p.insert(
                    phase,
                    JsonView::Object(pm.insert(rel, JsonView::Object(merged_relation(rm, deps)))),
                ),
                Some(_) => p,
                None => p.insert(
                    phase,
                    JsonView::Object(
                        pm.insert(rel, JsonView::Object(merged_relation(Map::empty(), deps))),
                    ),
                ),
            },
            Some(_) => p,
            None => p.insert(
                phase,
                JsonView::Object(
                    Map::empty().insert(
                        rel,
                        JsonView::Object(merged_relation(Map::empty(), deps)),
                    ),
                ),
            ),
        }
    }
}

/// A relationship's entries that are scalars, as strings.
pub open spec fn clean_relation(rm: Obj) -> Obj {
    Map::new(
        |k: Seq<char>| rm.contains_key(k) && scalar_text(rm[k]) is Some,
        |k: Seq<char>| JsonView::Str(scalar_text(rm[k])->0),
    )
}

/// A relationship as kept: an object with at least one scalar entry.
pub open spec fn kept_relation(v: JsonView) -> Option<JsonView> {
    match v {
        JsonView::Object(rm) => if has_entries(clean_relation(rm)) {
            Some(JsonView::Object(clean_relation(rm)))
        } else {
            None
        },
        _ => None,
    }
}

/// A phase's relationships as kept.
pub open spec fn clean_phase(pm: Obj) -> Obj {
    Map::new(
        |k: Seq<char>| pm.contains_key(k) && kept_relation(pm[k]) is Some,
        |k: Seq<char>| kept_relation(pm[k])->0,
    )
}

/// A phase as kept: an object with at least one kept relationship.
pub open spec fn kept_phase(v: JsonView) -> Option<JsonView> {
    match v {
        JsonView::Object(pm) => if has_entries(clean_phase(pm)) {
            Some(JsonView::Object(clean_phase(pm)))
        } else {
            None
        },
        _ => None,
    }
}

/// Prerequisites forced into the `{ phase: { relationship: { module: version } } }`
/// shape, dropping whatever does not fit and whatever is left empty.
pub open spec fn sanitized(p: Obj) -> Obj {
    Map::new(
        |k: Seq<char>| p.contains_key(k) && kept_phase(p[k]) is Some,
        |k: Seq<char>| kept_phase(p[k])->0,
    )
}

proof fn lemma_pairs_map_empty(s: Seq<(String, String)>)
    ensures
        has_entries(pairs_map(s)) <==> s.len() > 0,
{
    if s.len() > 0 {
        assert(pairs_map(s).contains_key(s.last().0@));
    } else {
        assert(!has_entries(pairs_map(s)));
    }
}

/// An object value of the given dependencies, each version as a string.
fn deps_object(deps: &Vec<(String, String)>) -> (r: Vec<(String, Value)>)
    ensures
        obj_view(r@) == merged_relation(Map::empty(), pairs_map(deps@)),
{
    let mut out: Vec<(String, Value)> = Vec::new();
    let mut i: usize = 0;
    while i < deps.len()
        invariant
            i <= deps.len(),
            obj_view(out@) == merged_relation(Map::empty(), pairs_map(deps@.take(i as int))),
        decreases deps.len() - i,
    {
        assert(deps@.take(i + 1).drop_last() == deps@.take(i as int));
        obj_insert(&mut out, deps[i].0.clone(), Value::String(deps[i].1.clone()));
        assert(obj_view(out@) =~= merged_relation(Map::empty(), pairs_map(deps@.take(i + 1))));
        i = i + 1;
    }
    assert(deps@.take(deps.len() as int) == deps@);
    out
}

/// Merge a legacy dependency map into `prereqs` at `phase`/`rel` without overwriting
/// entries already present (see [`merged_prereqs`]).
pub fn merge_deps(prereqs: &mut Vec<(String, Value)>, phase: &str, rel: &str, value: &Value)
    ensures
        keys_distinct(old(prereqs)@) ==> keys_distinct(final(prereqs)@),
        obj_view(final(prereqs)@) == merged_prereqs(obj_view(old(prereqs)@), phase@, rel@, value@),
{
    let deps = to_dep_map(value);
    proof {
        lemma_pairs_map_empty(deps@);
    }
    if deps.len() == 0 {
        return;
    }
    let ghost p0 = obj_view(prereqs@);
    let mut phase_map: Vec<(String, Value)> = match obj_remove(prereqs, phase) {
        None => Vec::new(),
        Some(Value::Object(pm)) => {
            proof {
                lemma_object_view(pm);
            }
            pm
        },
        Some(other) => {
            obj_insert(prereqs, text(phase), other);
            assert(obj_view(prereqs@) =~= p0);
            return;
        },
    };
    let ghost pm0 = obj_view(phase_map@);
    let rel_map: Vec<(String, Value)> = match obj_remove(&mut phase_map, rel) {
        None => Vec::new(),
        Some(Value::Object(rm)) => {
            proof {
                lemma_object_view(rm);
            }
            rm
        },
        Some(other) => {
            obj_insert(&mut phase_map, text(rel), other);
            assert(obj_view(phase_map@) =~= pm0);
            obj_insert(prereqs, text(phase), Value::Object(phase_map));
            proof {
                lemma_object_view(phase_map);
                assert(obj_view(prereqs@) =~= p0);
            }
            return;
        },
    };
    let ghost rm0 = obj_view(rel_map@);
    let ghost dm = pairs_map(deps@);
    let mut merged = deps_object(&deps);
    let mut i: usize = 0;
    while i < rel_map.len()
        invariant
            i <= rel_map.len(),
            rm0 == obj_view(rel_map@),
            obj_view(merged@) == merged_relation(obj_view(rel_map@.take(i as int)), dm),
        decreases rel_map.len() - i,
    {
        proof {
            lemma_obj_view_take(rel_map@, i as int);
        }
        let v = clone_value(&rel_map[i].1);
        obj_insert(&mut merged, rel_map[i].0.clone(), v);
        assert(obj_view(merged@) =~= merged_relation(obj_view(rel_map@.take(i + 1)), dm));
        i = i + 1;
    }
    assert(rel_map@.take(rel_map.len() as int) == rel_map@);
    obj_insert(&mut phase_map, text(rel), Value::Object(merged));
    obj_insert(prereqs, text(phase), Value::Object(phase_map));
    proof {
        lemma_object_view(merged);
        lemma_object_view(phase_map);
        let inner = pm0.remove(rel@).insert(rel@, JsonView::Object(merged_relation(rm0, dm)));
        assert(obj_view(phase_map@) == inner);
        if p0.contains_key(phase@) {
            assert(p0[phase@] == JsonView::Object(pm0));
            if pm0.contains_key(rel@) {
                assert(pm0[rel@] == JsonView::Object(rm0));
                assert(inner =~= pm0.insert(rel@, JsonView::Object(merged_relation(rm0, dm))));
            } else {
                assert(rm0 =~= Map::<Seq<char>, JsonView>::empty());
                assert(inner =~= pm0.insert(rel@, JsonView::Object(merged_relation(rm0, dm))));
            }
        } else {
            assert(pm0 =~= Map::<Seq<char>, JsonView>::empty());
            assert(rm0 =~= Map::<Seq<char>, JsonView>::empty());
            assert(inner =~= Map::<Seq<char>, JsonView>::empty().insert(
                rel@,
                JsonView::Object(merged_relation(Map::empty(), dm)),
            ));
        }
        assert(obj_view(prereqs@) =~= merged_prereqs(p0, phase@, rel@, value@));
    }
}

/// The scalar entries of a relationship object, as strings.
fn clean_relation_of(rm: &Vec<(String, Value)>) -> (r: Vec<(String, Value)>)
    ensures
        obj_view(r@) == clean_relation(obj_view(rm@)),
{
    let mut out: Vec<(String, Value)> = Vec::new();
    let mut i: usize = 0;
    while i < rm.len()
        invariant
            i <= rm.len(),
            obj_view(out@) == clean_relation(obj_view(rm@.take(i as int))),
        decreases rm.len() - i,
    {
        proof {
            lemma_obj_view_take(rm@, i as int);
        }
        match scalar_to_string(&rm[i].1) {
            Some(s) => {
                obj_insert(&mut out, rm[i].0.clone(), Value::String(s));
            },
            None => {
                let _ = obj_remove(&mut out, rm[i].0.as_str());
            },
        }
        assert(obj_view(out@) =~= clean_relation(obj_view(rm@.take(i + 1))));
        i = i + 1;
    }
    assert(rm@.take(rm.len() as int) == rm@);
    out
}

/// A relationship as kept (see [`kept_relation`]).
fn kept_relation_of(v: &Value) -> (r: Option<Value>)
    ensures
        match kept_relation(v@) {
            Some(k) => r matches Some(x) && x@ == k,
            None => r is None,
        },
{
    match v {
        Value::Object(rm) => {
            proof {
                lemma_object_view(*rm);
            }
            let c = clean_relation_of(rm);
            proof {
                lemma_obj_view_empty(c@);
                lemma_object_view(c);
            }
            if c.len() > 0 {
                Some(Value::Object(c))
            } else {
                None
            }
        },
        _ => None,
    }
}

/// A phase's relationships as kept (see [`clean_phase`]).
fn clean_phase_of(pm: &Vec<(String, Value)>) -> (r: Vec<(String, Value)>)
    ensures
        obj_view(r@) == clean_phase(obj_view(pm@)),
{
    let mut out: Vec<(String, Value)> = Vec::new();
    let mut i: usize = 0;
    while i < pm.len()
        invariant
            i <= pm.len(),
            obj_view(out@) == clean_phase(obj_view(pm@.take(i as int))),
        decreases pm.len() - i,
    {
        proof {
            lemma_obj_view_take(pm@, i as int);
        }
        match kept_relation_of(&pm[i].1) {
            Some(c) => {
                obj_insert(&mut out, pm[i].0.clone(), c);
            },
            None => {
                let _ = obj_remove(&mut out, pm[i].0.as_str());
            },
        }
        assert(obj_view(out@) =~= clean_phase(obj_view(pm@.take(i + 1))));
        i = i + 1;
    }
    assert(pm@.take(pm.len() as int) == pm@);
    out
}

/// A phase as kept (see [`kept_phase`]).
fn kept_phase_of(v: &Value) -> (r: Option<Value>)
    ensures
        match kept_phase(v@) {
            Some(k) => r matches Some(x) && x@ == k,
            None => r is None,
        },
{
    match v {
        Value::Object(pm) => {
            proof {
                lemma_object_view(*pm);
            }
            let c = clean_phase_of(pm);
            proof {
                lemma_obj_view_empty(c@);
                lemma_object_view(c);
            }
            if c.len() > 0 {
                Some(Value::Object(c))
            } else {
                None
            }
        },
        _ => None,
    }
}

/// Force `prereqs` into the strict `{ phase: { relationship: { module:
/// version-string } } }` shape, dropping anything that does not fit (see
/// [`sanitized`]).
pub fn sanitize_prereqs(prereqs: &Vec<(String, Value)>) -> (r: Vec<(String, Value)>)
    ensures
        obj_view(r@) == sanitized(obj_view(prereqs@)),
{
    let mut out: Vec<(String, Value)> = Vec::new();
    let mut i: usize = 0;
    while i < prereqs.len()
        invariant
            i <= prereqs.len(),
            obj_view(out@) == sanitized(obj_view(prereqs@.take(i as int))),
        decreases prereqs.len() - i,
    {
        proof {
            lemma_obj_view_take(prereqs@, i as int);
        }
        match kept_phase_of(&prereqs[i].1) {
            Some(c) => {
                obj_insert(&mut out, prereqs[i].0.clone(), c);
            },
            None => {
                let _ = obj_remove(&mut out, prereqs[i].0.as_str());
            },
        }
        assert(obj_view(out@) =~= sanitized(obj_view(prereqs@.take(i + 1))));
        i = i + 1;
    }
    assert(prereqs@.take(prereqs.len() as int) == prereqs@);
    out
}

/// The legacy top-level prerequisite fields and the `(phase, relationship)` each
/// maps to in the version 2 `prereqs` structure, in the order they are merged.
pub open spec fn legacy_entry(i: int) -> (Seq<char>, Seq<char>, Seq<char>) {
    if i == 0 {
        ("configure_requires"@, "configure"@, "requires"@)
    } else if i == 1 {
        ("build_requires"@, "build"@, "requires"@)
    } else if i == 2 {
        ("test_requires"@, "test"@, "requires"@)
    } else if i == 3 {
        ("requires"@, "runtime"@, "requires"@)
    } else if i == 4 {
        ("recommends"@, "runtime"@, "recommends"@)
    } else {
        ("conflicts"@, "runtime"@, "conflicts"@)
    }
}

/// The number of legacy prerequisite fields.
pub open spec fn legacy_count() -> nat {
    6
}

fn legacy_prereq(i: usize) -> (r: (&'static str, &'static str, &'static str))
    requires
        i < 6,
    ensures
        r.0@ == legacy_entry(i as int).0,
        r.1@ == legacy_entry(i as int).1,
        r.2@ == legacy_entry(i as int).2,
{
    if i == 0 {
        ("configure_requires", "configure", "requires")
    } else if i == 1 {
        ("build_requires", "build", "requires")
    } else if i == 2 {
        ("test_requires", "test", "requires")
    } else if i == 3 {
        ("requires", "runtime", "requires")
    } else if i == 4 {
        ("recommends", "runtime", "recommends")
    } else {
        ("conflicts", "runtime", "conflicts")
    }
}

/// The prerequisites `p` with the first `n` legacy fields of `src` merged in.
pub open spec fn legacy_merged(p: Obj, src: Obj, n: nat) -> Obj
    decreases n,
{
    if n == 0 {
        p
    } else {
        let q = legacy_merged(p, src, (n - 1) as nat);
        let e = legacy_entry(n - 1);
        match field(src, e.0) {
            Some(v) => merged_prereqs(q, e.1, e.2, v),
            None => q,
        }
    }
}

/// The prerequisites that an object states: its `prereqs` object (if it has one),
/// with its legacy prerequisite fields merged in, sanitised.
pub open spec fn prereqs_of(src: Obj) -> Obj {
    sanitized(legacy_merged(object_or_empty(field(src, "prereqs"@)), src, legacy_count()))
}

/// The fields that prerequisites are read from.
pub open spec fn prereq_keys() -> Set<Seq<char>> {
    set![
        "prereqs"@,
        "configure_requires"@,
        "build_requires"@,
        "test_requires"@,
        "requires"@,
        "recommends"@,
        "conflicts"@,
    ]
}

/// A document with its prerequisites in the version 2 `prereqs` field, present only
/// when some prerequisite is left, and without the legacy prerequisite fields.
pub open spec fn with_prereqs(obj: Obj) -> Obj {
    let p = prereqs_of(obj);
    let rest = obj.remove_keys(prereq_keys());
    if has_entries(p) {
        rest.insert("prereqs"@, JsonView::Object(p))
    } else {
        rest
    }
}

/// The prerequisites that an object states (see [`prereqs_of`]), read without
/// changing the object.
fn prereqs_from(src: &Vec<(String, Value)>) -> (r: Vec<(String, Value)>)
    ensures
        obj_view(r@) == prereqs_of(obj_view(src@)),
{
    let ghost sv = obj_view(src@);
    let mut p: Vec<(String, Value)> = match obj_get(src, "prereqs") {
        Some(Value::Object(m)) => {
            proof {
                lemma_object_view(*m);
            }
            crate::value::clone_entries(m)
        },
        _ => Vec::new(),
    };
    assert(obj_view(p@) == object_or_empty(field(sv, "prereqs"@)));
    let mut i: usize = 0;
    while i < 6
        invariant
            i <= 6,
            sv == obj_view(src@),
            obj_view(p@) == legacy_merged(object_or_empty(field(sv, "prereqs"@)), sv, i as nat),
        decreases 6 - i,
    {
        let (k, ph, rel) = legacy_prereq(i);
        match obj_get(src, k) {
            Some(v) => {
                merge_deps(&mut p, ph, rel, v);
            },
            None => {},
        }
        i = i + 1;
    }
    sanitize_prereqs(&p)
}

proof fn lemma_prereq_keys_distinct()
    ensures
        forall|i: int, j: int|
            0 <= i < j < 6 ==> legacy_entry(i).0 != legacy_entry(j).0,
        forall|i: int| 0 <= i < 6 ==> legacy_entry(i).0 != "prereqs"@,
{
    reveal_strlit("prereqs");
    reveal_strlit("configure_requires");
    reveal_strlit("build_requires");
    reveal_strlit("test_requires");
    reveal_strlit("requires");
    reveal_strlit("recommends");
    reveal_strlit("conflicts");
    assert("prereqs"@.len() == 7);
    assert("configure_requires"@.len() == 18);
    assert("build_requires"@.len() == 14);
    assert("test_requires"@.len() == 13);
    assert("requires"@.len() == 8);
    assert("recommends"@.len() == 10);
    assert("conflicts"@.len() == 9);
    assert forall|i: int, j: int| 0 <= i < j < 6 implies legacy_entry(i).0 != legacy_entry(j).0 by {
        assert(legacy_entry(i).0.len() != legacy_entry(j).0.len());
    }
    assert forall|i: int| 0 <= i < 6 implies legacy_entry(i).0 != "prereqs"@ by {
        assert(legacy_entry(i).0.len() != "prereqs"@.len());
    }
}

/// The document without the first `n` legacy prerequisite fields and `prereqs`.
spec fn removed_upto(obj: Obj, n: nat) -> Obj
    decreases n,
{
    if n == 0 {
        obj.remove("prereqs"@)
    } else {
        removed_upto(obj, (n - 1) as nat).remove(legacy_entry(n - 1).0)
    }
}

proof fn lemma_removed_upto(obj: Obj, n: nat, k: Seq<char>)
    requires
        n <= 6,
    ensures
        removed_upto(obj, n).contains_key(k) <==> obj.contains_key(k) && k != "prereqs"@
            && forall|i: int| 0 <= i < n ==> legacy_entry(i).0 != k,
        removed_upto(obj, n).contains_key(k) ==> removed_upto(obj, n)[k] == obj[k],
    decreases n,
{
    if n > 0 {
        lemma_removed_upto(obj, (n - 1) as nat, k);
    }
}

/// Move the legacy prerequisite fields into `prereqs` (see [`with_prereqs`]).
pub fn normalize_prereqs(obj: &mut Vec<(String, Value)>)
    ensures
        keys_distinct(old(obj)@) ==> keys_distinct(final(obj)@),
        obj_view(final(obj)@) == with_prereqs(obj_view(old(obj)@)),
{
    let ghost src = obj_view(obj@);
    proof {
        lemma_prereq_keys_distinct();
    }
    let mut p: Vec<(String, Value)> = match obj_remove(obj, "prereqs") {
        Some(Value::Object(m)) => {
            proof {
                lemma_object_view(m);
            }
            m
        },
        _ => Vec::new(),
    };
    let mut i: usize = 0;
    while i < 6
        invariant
            i <= 6,
            keys_distinct(old(obj)@) ==> keys_distinct(obj@),
            forall|a: int, b: int|
                0 <= a < b < 6 ==> legacy_entry(a).0 != legacy_entry(b).0,
            forall|a: int| 0 <= a < 6 ==> legacy_entry(a).0 != "prereqs"@,
            obj_view(obj@) == removed_upto(src, i as nat),
            obj_view(p@) == legacy_merged(object_or_empty(field(src, "prereqs"@)), src, i as nat),
        decreases 6 - i,
    {
        let (k, ph, rel) = legacy_prereq(i);
        proof {
            lemma_removed_upto(src, i as nat, k@);
        }
        match obj_remove(obj, k) {
            Some(v) => {
                merge_deps(&mut p, ph, rel, &v);
            },
            None => {},
        }
        i = i + 1;
    }
    let s = sanitize_prereqs(&p);
    proof {
        lemma_obj_view_empty(s@);
        lemma_object_view(s);
        assert forall|k: Seq<char>| #[trigger] removed_upto(src, 6).contains_key(k) == src.remove_keys(prereq_keys()).contains_key(k) by {
            lemma_removed_upto(src, 6, k);
            assert(prereq_keys().contains(k) <==> (k == "prereqs"@ || k == legacy_entry(0).0
                || k == legacy_entry(1).0 || k == legacy_entry(2).0 || k == legacy_entry(3).0
                || k == legacy_entry(4).0 || k == legacy_entry(5).0));
            if !prereq_keys().contains(k) {
                assert forall|i: int| 0 <= i < 6 implies legacy_entry(i).0 != k by {
                    if i == 0 {} else if i == 1 {} else if i == 2 {} else if i == 3 {} else if i == 4 {} else {}
                }
            }
        }
        assert forall|k: Seq<char>| #[trigger] removed_upto(src, 6).contains_key(k) implies removed_upto(src, 6)[k] == src[k] by {
            lemma_removed_upto(src, 6, k);
        }
        assert(removed_upto(src, 6) =~= src.remove_keys(prereq_keys()));
    }
    if s.len() > 0 {
        obj_insert(obj, text("prereqs"), Value::Object(s));
    }
}

/// One optional feature as normalised: its description (when a scalar) and its
/// prerequisites (when any are left).
pub open spec fn feature_of(fm: Obj) -> Obj {
    let described = match field_text(fm, "description"@) {
        Some(d) => Map::empty().insert("description"@, JsonView::Str(d)),
        None => Map::empty(),
    };
    let p = prereqs_of(fm);
    if has_entries(p) {
        described.insert("prereqs"@, JsonView::Object(p))
    } else {
        described
    }
}

/// The optional features as normalised: those given as objects.
pub open spec fn features_of(m: Obj) -> Obj {
    Map::new(
        |k: Seq<char>| m.contains_key(k) && m[k] is Object,
        |k: Seq<char>| JsonView::Object(feature_of(m[k]->Object_0)),
    )
}

/// A document with its `optional_features` normalised; the field is dropped when it
/// is not an object or no feature is left.
pub open spec fn with_features(obj: Obj) -> Obj {
    let rest = obj.remove("optional_features"@);
    match field(obj, "optional_features"@) {
        Some(JsonView::Object(m)) => if has_entries(features_of(m)) {
            rest.insert("optional_features"@, JsonView::Object(features_of(m)))
        } else {
            rest
        },
        _ => rest,
    }
}

fn feature_from(fm: &Vec<(String, Value)>) -> (r: Vec<(String, Value)>)
    ensures
        obj_view(r@) == feature_of(obj_view(fm@)),
{
    let mut out: Vec<(String, Value)> = Vec::new();
    match obj_get(fm, "description") {
        Some(d) => match scalar_to_string(d) {
            Some(s) => {
                obj_insert(&mut out, text("description"), Value::String(s));
            },
            None => {},
        },
        None => {},
    }
    let p = prereqs_from(fm);
    proof {
        lemma_obj_view_empty(p@);
        lemma_object_view(p);
    }
    if p.len() > 0 {
        obj_insert(&mut out, text("prereqs"), Value::Object(p));
    }
    assert(obj_view(out@) =~= feature_of(obj_view(fm@)));
    out
}

/// Normalise `optional_features` (see [`with_features`]).
pub fn normalize_optional_features(obj: &mut Vec<(String, Value)>)
    ensures
        keys_distinct(old(obj)@) ==> keys_distinct(final(obj)@),
        obj_view(final(obj)@) == with_features(obj_view(old(obj)@)),
{
    let value = match obj_remove(obj, "optional_features") {
        Some(v) => v,
        None => {
            return;
        },
    };
    let features = match &value {
        Value::Object(m) => m,
        _ => {
            return;
        },
    };
    proof {
        lemma_object_view(*features);
    }
    let mut fixed: Vec<(String, Value)> = Vec::new();
    let mut i: usize = 0;
    while i < features.len()
        invariant
            i <= features.len(),
            obj_view(fixed@) == features_of(obj_view(features@.take(i as int))),
        decreases features.len() - i,
    {
        proof {
            lemma_obj_view_take(features@, i as int);
        }
        match &features[i].1 {
            Value::Object(fm) => {
                proof {
                    lemma_object_view(*fm);
                }
                let f = feature_from(fm);
                proof {
                    lemma_object_view(f);
                }
                obj_insert(&mut fixed, features[i].0.clone(), Value::Object(f));
            },
            _ => {
                let _ = obj_remove(&mut fixed, features[i].0.as_str());
            },
        }
        assert(obj_view(fixed@) =~= features_of(obj_view(features@.take(i + 1))));
        i = i + 1;
    }
    assert(features@.take(features.len() as int) == features@);
    proof {
        lemma_obj_view_empty(fixed@);
        lemma_object_view(fixed);
    }
    if fixed.len() > 0 {
        obj_insert(obj, text("optional_features"), Value::Object(fixed));
    }
}

/// One `provides` entry as normalised: an object gives its `file` (empty when not a
/// scalar) and its `version` (when a scalar); a scalar gives the file; anything else
/// is dropped.
pub open spec fn provide_of(v: JsonView) -> Option<JsonView> {
    match v {
        JsonView::Object(m) => {
            let file = match field_text(m, "file"@) {
                Some(f) => f,
                None => Seq::empty(),
            };
            let base = Map::empty().insert("file"@, JsonView::Str(file));
            Some(
                JsonView::Object(
                    match field_text(m, "version"@) {
                        Some(ver) => base.insert("version"@, JsonView::Str(ver)),
                        None => base,
                    },
                ),
            )
        },
        _ => match scalar_text(v) {
            Some(s) => Some(JsonView::Object(Map::empty().insert("file"@, JsonView::Str(s)))),
            None => None,
        },
    }
}

/// The `provides` entries as normalised.
pub open spec fn provides_of(m: Obj) -> Obj {
    Map::new(
        |k: Seq<char>| m.contains_key(k) && provide_of(m[k]) is Some,
        |k: Seq<char>| provide_of(m[k])->0,
    )
}

/// A document with its `provides` normalised; the field is dropped when it is not an
/// object or no entry is left.
pub open spec fn with_provides(obj: Obj) -> Obj {
    let rest = obj.remove("provides"@);
    match field(obj, "provides"@) {
        Some(JsonView::Object(m)) => if has_entries(provides_of(m)) {
            rest.insert("provides"@, JsonView::Object(provides_of(m)))
        } else {
            rest
        },
        _ => rest,
    }
}

fn provide_from(v: &Value) -> (r: Option<Value>)
    ensures
        match provide_of(v@) {
            Some(p) => r matches Some(x) && x@ == p,
            None => r is None,
        },
{
    match v {
        Value::Object(m) => {
            proof {
                lemma_object_view(*m);
            }
            let file = match obj_get(m, "file") {
                Some(f) => match scalar_to_string(f) {
                    Some(s) => s,
                    None => String::new(),
                },
                None => String::new(),
            };
            let mut o: Vec<(String, Value)> = Vec::new();
            obj_insert(&mut o, text("file"), Value::String(file));
            match obj_get(m, "version") {
                Some(ver) => match scalar_to_string(ver) {
                    Some(s) => {
                        obj_insert(&mut o, text("version"), Value::String(s));
                    },
                    None => {},
                },
                None => {},
            }
            proof {
                lemma_object_view(o);
                let pv = provide_of(v@)->0->Object_0;
                assert(obj_view(o@) =~= pv);
            }
            Some(Value::Object(o))
        },
        _ => match scalar_to_string(v) {
            Some(s) => {
                let mut o: Vec<(String, Value)> = Vec::new();
                obj_insert(&mut o, text("file"), Value::String(s));
                proof {
                    lemma_object_view(o);
                    let pv = provide_of(v@)->0->Object_0;
                    assert(obj_view(o@) =~= pv);
                }
                Some(Value::Object(o))
            },
            None => None,
        },
    }
}

/// Normalise `provides` (see [`with_provides`]).
pub fn normalize_provides(obj: &mut Vec<(String, Value)>)
    ensures
        keys_distinct(old(obj)@) ==> keys_distinct(final(obj)@),
        obj_view(final(obj)@) == with_provides(obj_view(old(obj)@)),
{
    let value = match obj_remove(obj, "provides") {
        Some(v) => v,
        None => {
            return;
        },
    };
    let provides = match &value {
        Value::Object(m) => m,
        _ => {
            return;
        },
    };
    proof {
        lemma_object_view(*provides);
    }
    let mut fixed: Vec<(String, Value)> = Vec::new();
    let mut i: usize = 0;
    while i < provides.len()
        invariant
            i <= provides.len(),
            obj_view(fixed@) == provides_of(obj_view(provides@.take(i as int))),
        decreases provides.len() - i,
    {
        proof {
            lemma_obj_view_take(provides@, i as int);
        }
        match provide_from(&provides[i].1) {
            Some(e) => {
                obj_insert(&mut fixed, provides[i].0.clone(), e);
            },
            None => {
                let _ = obj_remove(&mut fixed, provides[i].0.as_str());
            },
        }
        assert(obj_view(fixed@) =~= provides_of(obj_view(provides@.take(i + 1))));
        i = i + 1;
    }
    assert(provides@.take(provides.len() as int) == provides@);
    proof {
        lemma_obj_view_empty(fixed@);
        lemma_object_view(fixed);
    }
    if fixed.len() > 0 {
        obj_insert(obj, text("provides"), Value::Object(fixed));
    }
}

/// The texts of a field of `m` read as a list, or none when it is absent.
pub open spec fn list_field(m: Obj, k: Seq<char>) -> Seq<Seq<char>> {
    match field(m, k) {
        Some(v) => string_list(v),
        None => Seq::empty(),
    }
}

/// `o` with `k` set to the strings `l`, when there is at least one.
pub open spec fn put_list(o: Obj, k: Seq<char>, l: Seq<Seq<char>>) -> Obj {
    if l.len() > 0 {
        o.insert(k, str_array(l))
    } else {
        o
    }
}

/// The `no_index` object as normalised: `file`, `directory` (with the pre-1.3 `dir`
/// after it), `package` (with the pre-1.3 `module` after it) and `namespace`, each a
/// list of strings present when not empty.
pub open spec fn no_index_of(m: Obj) -> Obj {
    put_list(
        put_list(
            put_list(
                put_list(Map::empty(), "file"@, list_field(m, "file"@)),
                "directory"@,
                list_field(m, "directory"@) + list_field(m, "dir"@),
            ),
            "package"@,
            list_field(m, "package"@) + list_field(m, "module"@),
        ),
        "namespace"@,
        list_field(m, "namespace"@),
    )
}

/// A document with `no_index` (or the older `private`) normalised into `no_index`;
/// `private` is always dropped.
pub open spec fn with_no_index(obj: Obj) -> Obj {
    let source = if obj.contains_key("no_index"@) {
        field(obj, "no_index"@)
    } else {
        field(obj, "private"@)
    };
    let rest = obj.remove("no_index"@).remove("private"@);
    match source {
        Some(JsonView::Object(m)) => if has_entries(no_index_of(m)) {
            rest.insert("no_index"@, JsonView::Object(no_index_of(m)))
        } else {
            rest
        },
        _ => rest,
    }
}

/// The texts of `m`'s field `k` read as a list, or none.
fn list_from(m: &Vec<(String, Value)>, k: &str) -> (r: Vec<String>)
    ensures
        texts(r@) == list_field(obj_view(m@), k@),
{
    match obj_get(m, k) {
        Some(v) => to_string_list(v),
        None => {
            let r: Vec<String> = Vec::new();
            assert(texts(r@) == Seq::<Seq<char>>::empty());
            r
        },
    }
}

/// Appends the texts `b` to `a`.
fn append_texts(a: &mut Vec<String>, b: Vec<String>)
    ensures
        texts(final(a)@) == texts(old(a)@) + texts(b@),
{
    let mut b = b;
    let ghost a0 = a@;
    let ghost b0 = b@;
    a.append(&mut b);
    assert(texts(a@) =~= texts(a0) + texts(b0));
}

fn put_list_into(o: &mut Vec<(String, Value)>, k: &str, l: Vec<String>)
    ensures
        keys_distinct(old(o)@) ==> keys_distinct(final(o)@),
        obj_view(final(o)@) == put_list(obj_view(old(o)@), k@, texts(l@)),
{
    if l.len() > 0 {
        obj_insert(o, text(k), strings_value(l));
    }
}

/// Normalise `no_index` (see [`with_no_index`]).
pub fn normalize_no_index(obj: &mut Vec<(String, Value)>)
    ensures
        keys_distinct(old(obj)@) ==> keys_distinct(final(obj)@),
        obj_view(final(obj)@) == with_no_index(obj_view(old(obj)@)),
{
    proof {
        reveal_strlit("no_index");
        reveal_strlit("private");
    }
    let value = match obj_remove(obj, "no_index") {
        Some(v) => Some(v),
        None => obj_remove(obj, "private"),
    };
    let _ = obj_remove(obj, "private");
    let value = match value {
        Some(v) => v,
        None => {
            return;
        },
    };
    let m = match &value {
        Value::Object(m) => m,
        _ => {
            return;
        },
    };
    proof {
        lemma_object_view(*m);
    }
    let mut out: Vec<(String, Value)> = Vec::new();
    put_list_into(&mut out, "file", list_from(m, "file"));
    let mut dirs = list_from(m, "directory");
    append_texts(&mut dirs, list_from(m, "dir"));
    put_list_into(&mut out, "directory", dirs);
    let mut packages = list_from(m, "package");
    append_texts(&mut packages, list_from(m, "module"));
    put_list_into(&mut out, "package", packages);
    put_list_into(&mut out, "namespace", list_from(m, "namespace"));
    proof {
        lemma_obj_view_empty(out@);
        lemma_object_view(out);
    }
    if out.len() > 0 {
        obj_insert(obj, text("no_index"), Value::Object(out));
    }
}

/// `o` with `k` set to the string `t`, when there is one.
pub open spec fn put_text(o: Obj, k: Seq<char>, t: Option<Seq<char>>) -> Obj {
    match t {
        Some(s) => o.insert(k, JsonView::Str(s)),
        None => o,
    }
}

/// A bug tracker as normalised. A string is an address to write to when it has an
/// `@` and no `://`, and a web page otherwise; an object gives `web` (or, when it has
/// no `web`, its `url`) and `mailto`, when scalars. Nothing is kept when neither is
/// found.
pub open spec fn bugtracker_of(v: JsonView) -> Option<JsonView> {
    match v {
        JsonView::Str(s) => Some(
            JsonView::Object(
                if s.contains('@') && !contains_seq(s, "://"@) {
                    Map::empty().insert("mailto"@, JsonView::Str(s))
                } else {
                    Map::empty().insert("web"@, JsonView::Str(s))
                },
            ),
        ),
        JsonView::Object(m) => {
            let web = if m.contains_key("web"@) {
                scalar_text(m["web"@])
            } else {
                field_text(m, "url"@)
            };
            let mailto = field_text(m, "mailto"@);
            if web is Some || mailto is Some {
                Some(
                    JsonView::Object(
                        put_text(put_text(Map::empty(), "web"@, web), "mailto"@, mailto),
                    ),
                )
            } else {
                None
            }
        },
        _ => None,
    }
}

/// A repository as normalised. A string is the `url`, also the `web` page when it
/// starts with `http://` or `https://`, with the `type` guessed from it. An object
/// gives `url` and `web` when scalars, and its `type` lowercased, or when it has no
/// scalar `type`, the one guessed from its `url`. Nothing is kept when none is found.
pub open spec fn repository_of(v: JsonView) -> Option<JsonView> {
    match v {
        JsonView::Str(s) => {
            let web = if starts_with(s, "http://"@) || starts_with(s, "https://"@) {
                Some(s)
            } else {
                None
            };
            Some(
                JsonView::Object(
                    put_text(
                        put_text(Map::empty().insert("url"@, JsonView::Str(s)), "web"@, web),
                        "type"@,
                        vcs_guess(s),
                    ),
                ),
            )
        },
        JsonView::Object(m) => {
            let url = field_text(m, "url"@);
            let web = field_text(m, "web"@);
            let vcs = match field_text(m, "type"@) {
                Some(t) => Some(lowercase(t)),
                None => match url {
                    Some(u) => vcs_guess(u),
                    None => None,
                },
            };
            if url is Some || web is Some || vcs is Some {
                Some(
                    JsonView::Object(
                        put_text(
                            put_text(put_text(Map::empty(), "url"@, url), "web"@, web),
                            "type"@,
                            vcs,
                        ),
                    ),
                )
            } else {
                None
            }
        },
        _ => None,
    }
}

/// One `resources` entry as normalised: `homepage` becomes a single string,
/// `license` a list of strings, `bugtracker` and `repository` structured values;
/// any other (custom) entry is kept verbatim.
pub open spec fn resource_of(k: Seq<char>, v: JsonView) -> Option<JsonView> {
    if k == "homepage"@ {
        match first_text(v) {
            Some(h) => Some(JsonView::Str(h)),
            None => None,
        }
    } else if k == "license"@ {
        if string_list(v).len() > 0 {
            Some(str_array(string_list(v)))
        } else {
            None
        }
    } else if k == "bugtracker"@ {
        bugtracker_of(v)
    } else if k == "repository"@ {
        repository_of(v)
    } else {
        Some(v)
    }
}

/// The `resources` object as normalised.
pub open spec fn resources_of(m: Obj) -> Obj {
    Map::new(
        |k: Seq<char>| m.contains_key(k) && resource_of(k, m[k]) is Some,
        |k: Seq<char>| resource_of(k, m[k])->0,
    )
}

/// A document with its `resources` normalised; the field is dropped when it is not
/// an object or nothing is left.
pub open spec fn with_resources(obj: Obj) -> Obj {
    let rest = obj.remove("resources"@);
    match field(obj, "resources"@) {
        Some(JsonView::Object(m)) => if has_entries(resources_of(m)) {
            rest.insert("resources"@, JsonView::Object(resources_of(m)))
        } else {
            rest
        },
        _ => rest,
    }
}

fn put_text_into(o: &mut Vec<(String, Value)>, k: &str, t: Option<String>)
    ensures
        keys_distinct(old(o)@) ==> keys_distinct(final(o)@),
        obj_view(final(o)@) == put_text(
            obj_view(old(o)@),
            k@,
            match t {
                Some(s) => Some(s@),
                None => None,
            },
        ),
{
    match t {
        Some(s) => {
            obj_insert(o, text(k), Value::String(s));
        },
        None => {},
    }
}

/// The text of the scalar that `k` has in `m`, if any.
fn field_string(m: &Vec<(String, Value)>, k: &str) -> (r: Option<String>)
    ensures
        match field_text(obj_view(m@), k@) {
            Some(t) => r matches Some(s) && s@ == t,
            None => r is None,
        },
{
    match obj_get(m, k) {
        Some(v) => scalar_to_string(v),
        None => None,
    }
}

/// Normalise a bug tracker (see [`bugtracker_of`]).
pub fn normalize_bugtracker(value: &Value) -> (r: Option<Value>)
    ensures
        match bugtracker_of(value@) {
            Some(b) => r matches Some(x) && x@ == b,
            None => r is None,
        },
{
    let mut out: Vec<(String, Value)> = Vec::new();
    match value {
        Value::String(s) => {
            let cs = chars_of(s.as_str());
            if contains_char(cs.as_slice(), '@') && !contains_str(cs.as_slice(), "://") {
                obj_insert(&mut out, text("mailto"), Value::String(s.clone()));
            } else {
                obj_insert(&mut out, text("web"), Value::String(s.clone()));
            }
            proof {
                lemma_object_view(out);
                assert(obj_view(out@) =~= bugtracker_of(value@)->0->Object_0);
            }
            Some(Value::Object(out))
        },
        Value::Object(m) => {
            proof {
                lemma_object_view(*m);
            }
            let web = match obj_get(m, "web") {
                Some(w) => scalar_to_string(w),
                None => field_string(m, "url"),
            };
            let mailto = field_string(m, "mailto");
            let found = web.is_some() || mailto.is_some();
            put_text_into(&mut out, "web", web);
            put_text_into(&mut out, "mailto", mailto);
            proof {
                lemma_object_view(out);
            }
            if found {
                assert(obj_view(out@) =~= bugtracker_of(value@)->0->Object_0);
                Some(Value::Object(out))
            } else {
                None
            }
        },
        _ => None,
    }
}

/// Normalise a repository (see [`repository_of`]).
pub fn normalize_repository(value: &Value) -> (r: Option<Value>)
    ensures
        match repository_of(value@) {
            Some(b) => r matches Some(x) && x@ == b,
            None => r is None,
        },
{
    let mut out: Vec<(String, Value)> = Vec::new();
    match value {
        Value::String(s) => {
            obj_insert(&mut out, text("url"), Value::String(s.clone()));
            let cs = chars_of(s.as_str());
            if starts_with_chars(cs.as_slice(), chars_of("http://").as_slice())
                || starts_with_chars(cs.as_slice(), chars_of("https://").as_slice()) {
                obj_insert(&mut out, text("web"), Value::String(s.clone()));
            }
            put_text_into(&mut out, "type", guess_vcs_type(s.as_str()));
            proof {
                lemma_object_view(out);
                assert(obj_view(out@) =~= repository_of(value@)->0->Object_0);
            }
            Some(Value::Object(out))
        },
        Value::Object(m) => {
            proof {
                lemma_object_view(*m);
            }
            let url = field_string(m, "url");
            let web = field_string(m, "web");
            let vcs = match field_string(m, "type") {
                Some(t) => Some(to_lowercase(t.as_str())),
                None => match &url {
                    Some(u) => guess_vcs_type(u.as_str()),
                    None => None,
                },
            };
            let found = url.is_some() || web.is_some() || vcs.is_some();
            put_text_into(&mut out, "url", url);
            put_text_into(&mut out, "web", web);
            put_text_into(&mut out, "type", vcs);
            proof {
                lemma_object_view(out);
            }
            if found {
                assert(obj_view(out@) =~= repository_of(value@)->0->Object_0);
                Some(Value::Object(out))
            } else {
                None
            }
        },
        _ => None,
    }
}

/// One `resources` entry as normalised (see [`resource_of`]).
fn resource_from(k: &str, v: &Value) -> (r: Option<Value>)
    ensures
        match resource_of(k@, v@) {
            Some(x) => r matches Some(y) && y@ == x,
            None => r is None,
        },
{
    let kc = chars_of(k);
    if chars_eq_str(kc.as_slice(), "homepage") {
        match first_string(v) {
            Some(h) => Some(Value::String(h)),
            None => None,
        }
    } else if chars_eq_str(kc.as_slice(), "license") {
        let l = to_string_list(v);
        if l.len() > 0 {
            Some(strings_value(l))
        } else {
            None
        }
    } else if chars_eq_str(kc.as_slice(), "bugtracker") {
        normalize_bugtracker(v)
    } else if chars_eq_str(kc.as_slice(), "repository") {
        normalize_repository(v)
    } else {
        Some(clone_value(v))
    }
}

/// Normalise `resources` (see [`with_resources`]).
pub fn normalize_resources(obj: &mut Vec<(String, Value)>)
    ensures
        keys_distinct(old(obj)@) ==> keys_distinct(final(obj)@),
        obj_view(final(obj)@) == with_resources(obj_view(old(obj)@)),
{
    let value = match obj_remove(obj, "resources") {
        Some(v) => v,
        None => {
            return;
        },
    };
    let m = match &value {
        Value::Object(m) => m,
        _ => {
            return;
        },
    };
    proof {
        lemma_object_view(*m);
    }
    let mut out: Vec<(String, Value)> = Vec::new();
    let mut i: usize = 0;
    while i < m.len()
        invariant
            i <= m.len(),
            obj_view(out@) == resources_of(obj_view(m@.take(i as int))),
        decreases m.len() - i,
    {
        proof {
            lemma_obj_view_take(m@, i as int);
        }
        match resource_from(m[i].0.as_str(), &m[i].1) {
            Some(e) => {
                obj_insert(&mut out, m[i].0.clone(), e);
            },
            None => {
                let _ = obj_remove(&mut out, m[i].0.as_str());
            },
        }
        assert(obj_view(out@) =~= resources_of(obj_view(m@.take(i + 1))));
        i = i + 1;
    }
    assert(m@.take(m.len() as int) == m@);
    proof {
        lemma_obj_view_empty(out@);
        lemma_object_view(out);
    }
    if out.len() > 0 {
        obj_insert(obj, text("resources"), Value::Object(out));
    }
}

/// A number's text writes zero: it has no nonzero digit. (The document reader
/// renders a nonzero number with at least one nonzero digit, and zero as `0`,
/// `0.0` or `-0.0`.)
pub open spec fn number_is_zero(n: Seq<char>) -> bool {
    forall|i: int| 0 <= i < n.len() ==> !('1' <= #[trigger] n[i] <= '9')
}

/// Whether the build configuration is dynamic: yes when the field is absent or null;
/// a boolean as it is; a number when it is not zero; a string unless, trimmed and
/// lowercased, it is empty, `0`, `false` or `no`; yes for anything else.
pub open spec fn dynamic_config_of(obj: Obj) -> bool {
    match field(obj, "dynamic_config"@) {
        None => true,
        Some(JsonView::Null) => true,
        Some(JsonView::Bool(b)) => b,
        Some(JsonView::Number(n)) => !number_is_zero(n),
        Some(JsonView::Str(s)) => {
            let t = lowercase(trim(s));
            !(t.len() == 0 || t == "0"@ || t == "false"@ || t == "no"@)
        },
        Some(_) => true,
    }
}

/// A document with `dynamic_config` as a boolean.
pub open spec fn with_dynamic_config(obj: Obj) -> Obj {
    obj.insert("dynamic_config"@, JsonView::Bool(dynamic_config_of(obj)))
}

fn number_is_zero_chars(n: &[char]) -> (r: bool)
    ensures
        r == number_is_zero(n@),
{
    let mut i: usize = 0;
    while i < n.len()
        invariant
            i <= n.len(),
            forall|k: int| 0 <= k < i ==> !('1' <= #[trigger] n@[k] <= '9'),
        decreases n.len() - i,
    {
        if '1' <= n[i] && n[i] <= '9' {
            return false;
        }
        i = i + 1;
    }
    true
}

/// Normalise `dynamic_config` to a boolean (see [`dynamic_config_of`]).
pub fn normalize_dynamic_config(obj: &mut Vec<(String, Value)>)
    ensures
        keys_distinct(old(obj)@) ==> keys_distinct(final(obj)@),
        obj_view(final(obj)@) == with_dynamic_config(obj_view(old(obj)@)),
{
    let value = match obj_get(obj, "dynamic_config") {
        None => true,
        Some(Value::Null) => true,
        Some(Value::Bool(b)) => *b,
        Some(Value::Number(n)) => {
            let cs = chars_of(n.as_str());
            !number_is_zero_chars(cs.as_slice())
        },
        Some(Value::String(s)) => {
            let t = crate::text::trim_str(s.as_str());
            let l = to_lowercase(t.as_str());
            let lc = chars_of(l.as_str());
            let ls = lc.as_slice();
            !(lc.len() == 0 || chars_eq_str(ls, "0") || chars_eq_str(ls, "false") || chars_eq_str(
                ls,
                "no",
            ))
        },
        Some(_) => true,
    };
    obj_insert(obj, text("dynamic_config"), Value::Bool(value));
}

/// The release status that a version implies: `testing` for a developer release
/// (an underscore, or `-TRIAL` in any case, in the version string), else `stable`.
pub open spec fn derived_status(obj: Obj) -> Seq<char> {
    let version = match field(obj, "version"@) {
        Some(JsonView::Str(s)) => s,
        _ => Seq::empty(),
    };
    if version.contains('_') || contains_seq(lowercase(version), "-trial"@) {
        "testing"@
    } else {
        "stable"@
    }
}

/// The release status: the given one, trimmed and lowercased, when it is `stable`,
/// `testing` or `unstable`; otherwise the one the version implies.
pub open spec fn release_status_of(obj: Obj) -> Seq<char> {
    match field_text(obj, "release_status"@) {
        Some(s) => {
            let t = lowercase(trim(s));
            if t == "stable"@ || t == "testing"@ || t == "unstable"@ {
                t
            } else {
                derived_status(obj)
            }
        },
        None => derived_status(obj),
    }
}

/// A document with its `release_status` settled.
pub open spec fn with_release_status(obj: Obj) -> Obj {
    obj.insert("release_status"@, JsonView::Str(release_status_of(obj)))
}

/// The release status that the version implies (see [`derived_status`]).
pub fn derive_release_status(obj: &Vec<(String, Value)>) -> (r: String)
    ensures
        r@ == derived_status(obj_view(obj@)),
{
    let empty = String::new();
    let version: &String = match obj_get(obj, "version") {
        Some(Value::String(s)) => s,
        _ => &empty,
    };
    let vc = chars_of(version.as_str());
    let lower = to_lowercase(version.as_str());
    let lc = chars_of(lower.as_str());
    if contains_char(vc.as_slice(), '_') || contains_str(lc.as_slice(), "-trial") {
        text("testing")
    } else {
        text("stable")
    }
}

/// Settle `release_status` (see [`release_status_of`]).
pub fn normalize_release_status(obj: &mut Vec<(String, Value)>)
    ensures
        keys_distinct(old(obj)@) ==> keys_distinct(final(obj)@),
        obj_view(final(obj)@) == with_release_status(obj_view(old(obj)@)),
{
    let given = match obj_get(obj, "release_status") {
        Some(v) => scalar_to_string(v),
        None => None,
    };
    let status = match given {
        Some(s) => {
            let t = crate::text::trim_str(s.as_str());
            let l = to_lowercase(t.as_str());
            let lc = chars_of(l.as_str());
            let ls = lc.as_slice();
            if chars_eq_str(ls, "stable") || chars_eq_str(ls, "testing") || chars_eq_str(
                ls,
                "unstable",
            ) {
                l
            } else {
                derive_release_status(obj)
            }
        },
        None => derive_release_status(obj),
    };
    obj_insert(obj, text("release_status"), Value::String(status));
}

/// The fields that must hold a single string.
pub open spec fn is_scalar_field(k: Seq<char>) -> bool {
    k == "name"@ || k == "version"@ || k == "abstract"@ || k == "description"@ || k
        == "generated_by"@
}

/// The document with its single-string fields as strings: a scalar is kept as its
/// text, anything else is dropped.
pub open spec fn scalars_fixed(obj: Obj) -> Obj {
    Map::new(
        |k: Seq<char>| obj.contains_key(k) && (is_scalar_field(k) ==> scalar_text(obj[k]) is Some),
        |k: Seq<char>|
            if is_scalar_field(k) {
                JsonView::Str(scalar_text(obj[k])->0)
            } else {
                obj[k]
            },
    )
}

/// A document with its single-string fields as strings, and a `version` of `0` when
/// it has none.
pub open spec fn with_scalars(obj: Obj) -> Obj {
    let f = scalars_fixed(obj);
    if f.contains_key("version"@) {
        f
    } else {
        f.insert("version"@, JsonView::Str("0"@))
    }
}

fn scalar_field_name(i: usize) -> (r: &'static str)
    requires
        i < 5,
    ensures
        is_scalar_field(r@),
        i == 0 ==> r@ == "name"@,
        i == 1 ==> r@ == "version"@,
        i == 2 ==> r@ == "abstract"@,
        i == 3 ==> r@ == "description"@,
        i == 4 ==> r@ == "generated_by"@,
{
    if i == 0 {
        "name"
    } else if i == 1 {
        "version"
    } else if i == 2 {
        "abstract"
    } else if i == 3 {
        "description"
    } else {
        "generated_by"
    }
}

/// The document with the first `n` single-string fields fixed.
spec fn scalars_fixed_upto(obj: Obj, n: int) -> Obj {
    Map::new(
        |k: Seq<char>|
            obj.contains_key(k) && (scalar_field_before(k, n) ==> scalar_text(obj[k]) is Some),
        |k: Seq<char>|
            if scalar_field_before(k, n) {
                JsonView::Str(scalar_text(obj[k])->0)
            } else {
                obj[k]
            },
    )
}

spec fn scalar_field_before(k: Seq<char>, n: int) -> bool {
    (n > 0 && k == "name"@) || (n > 1 && k == "version"@) || (n > 2 && k == "abstract"@) || (n
        > 3 && k == "description"@) || (n > 4 && k == "generated_by"@)
}

/// Make the single-string fields strings (see [`with_scalars`]).
pub fn normalize_scalars(obj: &mut Vec<(String, Value)>)
    ensures
        keys_distinct(old(obj)@) ==> keys_distinct(final(obj)@),
        obj_view(final(obj)@) == with_scalars(obj_view(old(obj)@)),
{
    let ghost src = obj_view(obj@);
    let mut i: usize = 0;
    assert(scalars_fixed_upto(src, 0) =~= src);
    while i < 5
        invariant
            i <= 5,
            obj_view(obj@) == scalars_fixed_upto(src, i as int),
            keys_distinct(old(obj)@) ==> keys_distinct(obj@),
        decreases 5 - i,
    {
        let key = scalar_field_name(i);
        let fixed = match obj_get(obj, key) {
            Some(v) => Some(scalar_to_string(v)),
            None => None,
        };
        match fixed {
            Some(Some(s)) => {
                obj_insert(obj, text(key), Value::String(s));
            },
            Some(None) => {
                let _ = obj_remove(obj, key);
            },
            None => {},
        }
        proof {
            if i == 0 {
                reveal_strlit("name");
            }
            assert forall|k: Seq<char>| #[trigger] scalar_field_before(k, i + 1) == (scalar_field_before(k, i as int) || k == key@) by {}
            assert(obj_view(obj@) =~= scalars_fixed_upto(src, i + 1));
        }
        i = i + 1;
    }
    assert forall|k: Seq<char>| #[trigger] scalar_field_before(k, 5) == is_scalar_field(k) by {}
    assert(scalars_fixed_upto(src, 5) =~= scalars_fixed(src));
    let has_version = match obj_get(obj, "version") {
        Some(Value::String(_)) => true,
        _ => false,
    };
    if !has_version {
        obj_insert(obj, text("version"), Value::String(text("0")));
    }
}

/// A document with `author` (or the older `authors`) as a list of strings in
/// `author`, present when not empty; `authors` is always dropped.
pub open spec fn with_author(obj: Obj) -> Obj {
    let source = if obj.contains_key("author"@) {
        field(obj, "author"@)
    } else {
        field(obj, "authors"@)
    };
    let rest = obj.remove("author"@).remove("authors"@);
    match source {
        Some(v) => put_list(rest, "author"@, string_list(v)),
        None => rest,
    }
}

/// Normalise `author` (see [`with_author`]).
pub fn normalize_author(obj: &mut Vec<(String, Value)>)
    ensures
        keys_distinct(old(obj)@) ==> keys_distinct(final(obj)@),
        obj_view(final(obj)@) == with_author(obj_view(old(obj)@)),
{
    proof {
        reveal_strlit("author");
        reveal_strlit("authors");
    }
    let value = match obj_remove(obj, "author") {
        Some(v) => Some(v),
        None => obj_remove(obj, "authors"),
    };
    let _ = obj_remove(obj, "authors");
    match value {
        Some(v) => {
            put_list_into(obj, "author", to_string_list(&v));
        },
        None => {},
    }
}

/// The license tokens of a list, each normalised.
pub open spec fn license_tokens(l: Seq<Seq<char>>) -> Seq<Seq<char>> {
    Seq::new(l.len(), |i: int| license_token(l[i]))
}

/// A document with `license` as a list of version 2 license identifiers, present
/// when not empty.
pub open spec fn with_license(obj: Obj) -> Obj {
    let rest = obj.remove("license"@);
    match field(obj, "license"@) {
        Some(v) => put_list(rest, "license"@, license_tokens(string_list(v))),
        None => rest,
    }
}

/// Normalise `license` (see [`with_license`]).
pub fn normalize_license(obj: &mut Vec<(String, Value)>)
    ensures
        keys_distinct(old(obj)@) ==> keys_distinct(final(obj)@),
        obj_view(final(obj)@) == with_license(obj_view(old(obj)@)),
{
    match obj_remove(obj, "license") {
        Some(v) => {
            let tokens = to_string_list(&v);
            let mut mapped: Vec<String> = Vec::new();
            let mut i: usize = 0;
            while i < tokens.len()
                invariant
                    i <= tokens.len(),
                    mapped@.len() == i,
                    forall|k: int|
                        0 <= k < i ==> (#[trigger] mapped@[k])@ == license_token(tokens@[k]@),
                decreases tokens.len() - i,
            {
                mapped.push(normalize_license_token(tokens[i].as_str()));
                i = i + 1;
            }
            assert(texts(mapped@) =~= license_tokens(texts(tokens@)));
            put_list_into(obj, "license", mapped);
        },
        None => {},
    }
}

/// A document with `keywords` as a list of strings, present when not empty.
pub open spec fn with_keywords(obj: Obj) -> Obj {
    let rest = obj.remove("keywords"@);
    match field(obj, "keywords"@) {
        Some(v) => put_list(rest, "keywords"@, string_list(v)),
        None => rest,
    }
}

/// Normalise `keywords` (see [`with_keywords`]).
pub fn normalize_keywords(obj: &mut Vec<(String, Value)>)
    ensures
        keys_distinct(old(obj)@) ==> keys_distinct(final(obj)@),
        obj_view(final(obj)@) == with_keywords(obj_view(old(obj)@)),
{
    match obj_remove(obj, "keywords") {
        Some(v) => {
            put_list_into(obj, "keywords", to_string_list(&v));
        },
        None => {},
    }
}

/// A document whose `meta-spec` (taken from `meta_spec` when only that is present)
/// states version 2, keeping its `url` when that is a scalar.
pub open spec fn with_meta_spec(obj: Obj) -> Obj {
    let moved = if !obj.contains_key("meta-spec"@) && obj.contains_key("meta_spec"@) {
        obj.remove("meta_spec"@).insert("meta-spec"@, obj["meta_spec"@])
    } else {
        obj
    };
    let url = match field(moved, "meta-spec"@) {
        Some(JsonView::Object(m)) => field_text(m, "url"@),
        _ => None,
    };
    moved.insert(
        "meta-spec"@,
        JsonView::Object(
            put_text(Map::empty().insert("version"@, JsonView::Str("2"@)), "url"@, url),
        ),
    )
}

/// Normalise `meta-spec` (see [`with_meta_spec`]).
pub fn normalize_meta_spec(obj: &mut Vec<(String, Value)>)
    ensures
        keys_distinct(old(obj)@) ==> keys_distinct(final(obj)@),
        obj_view(final(obj)@) == with_meta_spec(obj_view(old(obj)@)),
{
    if !obj_contains(obj, "meta-spec") {
        match obj_remove(obj, "meta_spec") {
            Some(v) => {
                obj_insert(obj, text("meta-spec"), v);
            },
            None => {},
        }
    }
    let url = match obj_get(obj, "meta-spec") {
        Some(Value::Object(m)) => {
            proof {
                lemma_object_view(*m);
            }
            field_string(m, "url")
        },
        _ => None,
    };
    let mut m: Vec<(String, Value)> = Vec::new();
    obj_insert(&mut m, text("version"), Value::String(text("2")));
    put_text_into(&mut m, "url", url);
    proof {
        lemma_object_view(m);
    }
    obj_insert(obj, text("meta-spec"), Value::Object(m));
}

/// A document normalised to the spec version 2 structure: the obsolete
/// `distribution_type` and `license_uri` dropped, then each field brought to its
/// version 2 form in turn.
pub open spec fn normalized(obj: Obj) -> Obj {
    with_release_status(
        with_dynamic_config(
            with_resources(
                with_no_index(
                    with_provides(
                        with_features(
                            with_prereqs(
                                with_keywords(
                                    with_license(
                                        with_author(
                                            with_scalars(
                                                with_meta_spec(
                                                    obj.remove("distribution_type"@).remove(
                                                        "license_uri"@,
                                                    ),
                                                ),
                                            ),
                                        ),
                                    ),
                                ),
                            ),
                        ),
                    ),
                ),
            ),
        ),
    )
}

/// Normalise `obj` in place to the spec version 2 structure (see [`normalized`]).
pub fn normalize(obj: &mut Vec<(String, Value)>)
    ensures
        keys_distinct(old(obj)@) ==> keys_distinct(final(obj)@),
        obj_view(final(obj)@) == normalized(obj_view(old(obj)@)),
{
    let _ = obj_remove(obj, "distribution_type");
    let _ = obj_remove(obj, "license_uri");
    normalize_meta_spec(obj);
    normalize_scalars(obj);
    normalize_author(obj);
    normalize_license(obj);
    normalize_keywords(obj);
    normalize_prereqs(obj);
    normalize_optional_features(obj);
    normalize_provides(obj);
    normalize_no_index(obj);
    normalize_resources(obj);
    normalize_dynamic_config(obj);
    normalize_release_status(obj);
}

} // verus!
