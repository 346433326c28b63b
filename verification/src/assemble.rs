//! How a normalised document reads into [`Meta`]: each field from the value of its
//! key, with the defaults of absent fields.
use vstd::prelude::*;
use crate::convert::{field, object_or_empty, texts, Obj};
use crate::document::missing_field_error;
use crate::error::{Error, ErrorKind};
use crate::meta::{
    opt_text, Bugtracker, BugtrackerView, Meta, MetaSpec, MetaSpecView, MetaView, NoIndex, NoIndexView,
    OptionalFeature, OptionalFeatureView, Phase, PhaseView, Prereqs, PrereqsView, Provides,
    ProvidesView, ReleaseStatus, Repository, RepositoryView, Resources, ResourcesView,
};
use crate::smap::SortedMap;
use crate::spec::{SpecVersion, SpecVersionView};
use crate::text::{chars_eq_str, chars_of, text};
use crate::value::{
    clone_value, lemma_array_view, lemma_object_view, lemma_obj_view_take, obj_get, obj_view,
    seq_view, JsonView, Value,
};

verus! {

/// The view of an optional value.
pub open spec fn opt_view(v: Option<&Value>) -> Option<JsonView> {
    match v {
        Some(x) => Some(x@),
        None => None,
    }
}

/// A string value's text.
pub open spec fn str_of(v: Option<JsonView>) -> Option<Seq<char>> {
    match v {
        Some(JsonView::Str(s)) => Some(s),
        _ => None,
    }
}

/// The strings of a list, in order.
pub open spec fn str_items(a: Seq<JsonView>) -> Seq<Seq<char>>
    decreases a.len(),
{
    if a.len() == 0 {
        Seq::empty()
    } else {
        match a.last() {
            JsonView::Str(s) => str_items(a.drop_last()).push(s),
            _ => str_items(a.drop_last()),
        }
    }
}

/// The strings of an array value; none for anything else.
pub open spec fn strs_of(v: Option<JsonView>) -> Seq<Seq<char>> {
    match v {
        Some(JsonView::Array(a)) => str_items(a),
        _ => Seq::empty(),
    }
}

/// The string entries of an object value.
pub open spec fn str_map_of(v: Option<JsonView>) -> Map<Seq<char>, Seq<char>> {
    let m = object_or_empty(v);
    Map::new(|k: Seq<char>| m.contains_key(k) && m[k] is Str, |k: Seq<char>| m[k]->Str_0)
}

/// The four relationships that a phase names itself.
pub open spec fn is_relation_name(k: Seq<char>) -> bool {
    k == "requires"@ || k == "recommends"@ || k == "suggests"@ || k == "conflicts"@
}

/// The five phases that the prerequisites name themselves.
pub open spec fn is_phase_name(k: Seq<char>) -> bool {
    k == "configure"@ || k == "build"@ || k == "test"@ || k == "runtime"@ || k == "develop"@
}

/// A phase read from an object value: the four standard relationships, and every
/// other entry that is an object as a custom relationship.
pub open spec fn phase_of(v: Option<JsonView>) -> PhaseView {
    let m = object_or_empty(v);
    PhaseView {
        requires: str_map_of(field(m, "requires"@)),
        recommends: str_map_of(field(m, "recommends"@)),
        suggests: str_map_of(field(m, "suggests"@)),
        conflicts: str_map_of(field(m, "conflicts"@)),
        other: Map::new(
            |k: Seq<char>| m.contains_key(k) && !is_relation_name(k) && m[k] is Object,
            |k: Seq<char>| str_map_of(Some(m[k])),
        ),
    }
}

/// Prerequisites read from an object value: the five standard phases, and every other
/// entry that is an object as a custom phase.
pub open spec fn prereqs_of_value(v: Option<JsonView>) -> PrereqsView {
    let m = object_or_empty(v);
    PrereqsView {
        configure: phase_of(field(m, "configure"@)),
        build: phase_of(field(m, "build"@)),
        test: phase_of(field(m, "test"@)),
        runtime: phase_of(field(m, "runtime"@)),
        develop: phase_of(field(m, "develop"@)),
        other: Map::new(
            |k: Seq<char>| m.contains_key(k) && !is_phase_name(k) && m[k] is Object,
            |k: Seq<char>| phase_of(Some(m[k])),
        ),
    }
}

/// An optional feature read from an object value.
pub open spec fn feature_of_value(v: JsonView) -> OptionalFeatureView {
    let m = object_or_empty(Some(v));
    OptionalFeatureView {
        description: str_of(field(m, "description"@)),
        prereqs: prereqs_of_value(field(m, "prereqs"@)),
    }
}

/// The optional features: the entries that are objects.
pub open spec fn features_of_value(v: Option<JsonView>) -> Map<Seq<char>, OptionalFeatureView> {
    let m = object_or_empty(v);
    Map::new(
        |k: Seq<char>| m.contains_key(k) && m[k] is Object,
        |k: Seq<char>| feature_of_value(m[k]),
    )
}

/// A `provides` entry read from an object value; the file is empty when absent.
pub open spec fn provide_of_value(v: JsonView) -> ProvidesView {
    let m = object_or_empty(Some(v));
    ProvidesView {
        file: match str_of(field(m, "file"@)) {
            Some(f) => f,
            None => Seq::empty(),
        },
        version: str_of(field(m, "version"@)),
    }
}

/// The `provides` entries: those that are objects.
pub open spec fn provides_of_value(v: Option<JsonView>) -> Map<Seq<char>, ProvidesView> {
    let m = object_or_empty(v);
    Map::new(
        |k: Seq<char>| m.contains_key(k) && m[k] is Object,
        |k: Seq<char>| provide_of_value(m[k]),
    )
}

/// The `no_index` field read from an object value.
pub open spec fn no_index_of_value(v: Option<JsonView>) -> NoIndexView {
    let m = object_or_empty(v);
    NoIndexView {
        file: strs_of(field(m, "file"@)),
        directory: strs_of(field(m, "directory"@)),
        package: strs_of(field(m, "package"@)),
        namespace: strs_of(field(m, "namespace"@)),
    }
}

/// The bug tracker read from an object value, when there is one.
pub open spec fn bugtracker_of_value(v: Option<JsonView>) -> Option<BugtrackerView> {
    match v {
        Some(JsonView::Object(m)) => Some(
            BugtrackerView { web: str_of(field(m, "web"@)), mailto: str_of(field(m, "mailto"@)) },
        ),
        _ => None,
    }
}

/// The repository read from an object value, when there is one.
pub open spec fn repository_of_value(v: Option<JsonView>) -> Option<RepositoryView> {
    match v {
        Some(JsonView::Object(m)) => Some(
            RepositoryView {
                url: str_of(field(m, "url"@)),
                web: str_of(field(m, "web"@)),
                type_: str_of(field(m, "type"@)),
            },
        ),
        _ => None,
    }
}

/// The four resources that [`Resources`](crate::Resources) names itself.
pub open spec fn is_resource_name(k: Seq<char>) -> bool {
    k == "homepage"@ || k == "license"@ || k == "bugtracker"@ || k == "repository"@
}

/// The resources read from an object value; every entry other than the four known
/// ones is kept as a custom resource.
pub open spec fn resources_of_value(v: Option<JsonView>) -> ResourcesView {
    let m = object_or_empty(v);
    ResourcesView {
        homepage: str_of(field(m, "homepage"@)),
        license: strs_of(field(m, "license"@)),
        bugtracker: bugtracker_of_value(field(m, "bugtracker"@)),
        repository: repository_of_value(field(m, "repository"@)),
        custom: Map::new(|k: Seq<char>| m.contains_key(k) && !is_resource_name(k), |k: Seq<char>| m[k]),
    }
}

/// The `meta-spec` field read from an object value; the version is `2` when absent.
pub open spec fn meta_spec_of_value(v: Option<JsonView>) -> MetaSpecView {
    let m = object_or_empty(v);
    MetaSpecView {
        version: match str_of(field(m, "version"@)) {
            Some(s) => s,
            None => "2"@,
        },
        url: str_of(field(m, "url"@)),
    }
}

/// The release status that a value names; `stable` when it names none.
pub open spec fn release_status_of_value(v: Option<JsonView>) -> ReleaseStatus {
    match str_of(v) {
        Some(s) => if s == "testing"@ {
            ReleaseStatus::Testing
        } else if s == "unstable"@ {
            ReleaseStatus::Unstable
        } else {
            ReleaseStatus::Stable
        },
        None => ReleaseStatus::Stable,
    }
}

/// The keys that [`Meta`] has a field for.
pub open spec fn is_meta_field(k: Seq<char>) -> bool {
    ||| k == "name"@
    ||| k == "version"@
    ||| k == "abstract"@
    ||| k == "author"@
    ||| k == "license"@
    ||| k == "generated_by"@
    ||| k == "dynamic_config"@
    ||| k == "release_status"@
    ||| k == "meta-spec"@
    ||| k == "description"@
    ||| k == "keywords"@
    ||| k == "prereqs"@
    ||| k == "optional_features"@
    ||| k == "provides"@
    ||| k == "no_index"@
    ||| k == "resources"@
}

/// The metadata that a normalised document reads as, with the spec version `sv` of
/// the input. Every field has a default but `name` and `version`, which must be
/// strings; without them there is nothing.
pub open spec fn meta_of(obj: Obj, sv: SpecVersionView) -> Option<MetaView> {
    match (str_of(field(obj, "name"@)), str_of(field(obj, "version"@))) {
        (Some(name), Some(version)) => Some(
            MetaView {
                name,
                version,
                abstract_: str_of(field(obj, "abstract"@)),
                author: strs_of(field(obj, "author"@)),
                license: strs_of(field(obj, "license"@)),
                generated_by: str_of(field(obj, "generated_by"@)),
                dynamic_config: match field(obj, "dynamic_config"@) {
                    Some(JsonView::Bool(b)) => b,
                    _ => true,
                },
                release_status: release_status_of_value(field(obj, "release_status"@)),
                meta_spec: meta_spec_of_value(field(obj, "meta-spec"@)),
                description: str_of(field(obj, "description"@)),
                keywords: strs_of(field(obj, "keywords"@)),
                prereqs: prereqs_of_value(field(obj, "prereqs"@)),
                optional_features: features_of_value(field(obj, "optional_features"@)),
                provides: provides_of_value(field(obj, "provides"@)),
                no_index: no_index_of_value(field(obj, "no_index"@)),
                resources: resources_of_value(field(obj, "resources"@)),
                custom: Map::new(
                    |k: Seq<char>| obj.contains_key(k) && !is_meta_field(k),
                    |k: Seq<char>| obj[k],
                ),
                spec_version: sv,
            },
        ),
        _ => None,
    }
}

/// The text of a string value.
fn str_from(v: Option<&Value>) -> (r: Option<String>)
    ensures
        opt_text(r) == str_of(opt_view(v)),
{
    match v {
        Some(Value::String(s)) => Some(s.clone()),
        _ => None,
    }
}

/// The strings of an array value.
fn strs_from(v: Option<&Value>) -> (r: Vec<String>)
    ensures
        texts(r@) == strs_of(opt_view(v)),
{
    let mut out: Vec<String> = Vec::new();
    match v {
        Some(Value::Array(a)) => {
            proof {
                lemma_array_view(*a);
            }
            let ghost av = seq_view(a@);
            let mut i: usize = 0;
            while i < a.len()
                invariant
                    i <= a.len(),
                    av == seq_view(a@),
                    texts(out@) == str_items(av.take(i as int)),
                decreases a.len() - i,
            {
                assert(av.take(i + 1).drop_last() == av.take(i as int));
                assert(av.take(i + 1).last() == a@[i as int]@);
                match &a[i] {
                    Value::String(s) => {
                        let ghost before = out@;
                        out.push(s.clone());
                        assert(texts(out@) == texts(before).push(s@));
                    },
                    _ => {},
                }
                i = i + 1;
            }
            assert(av.take(a.len() as int) == av);
        },
        _ => {
            assert(texts(out@) == Seq::<Seq<char>>::empty());
        },
    }
    out
}

/// The string entries of an object value.
fn str_map_from(v: Option<&Value>) -> (r: SortedMap<String>)
    ensures
        r@ == str_map_of(opt_view(v)),
{
    let mut out: SortedMap<String> = SortedMap::new();
    match v {
        Some(Value::Object(o)) => {
            proof {
                lemma_object_view(*o);
            }
            let mut i: usize = 0;
            while i < o.len()
                invariant
                    i <= o.len(),
                    out@ == str_map_of(Some(JsonView::Object(obj_view(o@.take(i as int))))),
                decreases o.len() - i,
            {
                proof {
                    lemma_obj_view_take(o@, i as int);
                }
                match &o[i].1 {
                    Value::String(s) => {
                        out.insert(o[i].0.clone(), s.clone());
                    },
                    _ => {
                        out.remove(o[i].0.as_str());
                    },
                }
                assert(out@ =~= str_map_of(Some(JsonView::Object(obj_view(o@.take(i + 1))))));
                i = i + 1;
            }
            assert(o@.take(o.len() as int) == o@);
        },
        _ => {
            assert(out@ =~= str_map_of(opt_view(v)));
        },
    }
    out
}

fn is_relation_name_str(k: &str) -> (r: bool)
    ensures
        r == is_relation_name(k@),
{
    let c = chars_of(k);
    chars_eq_str(c.as_slice(), "requires") || chars_eq_str(c.as_slice(), "recommends")
        || chars_eq_str(c.as_slice(), "suggests") || chars_eq_str(c.as_slice(), "conflicts")
}

fn is_phase_name_str(k: &str) -> (r: bool)
    ensures
        r == is_phase_name(k@),
{
    let c = chars_of(k);
    chars_eq_str(c.as_slice(), "configure") || chars_eq_str(c.as_slice(), "build")
        || chars_eq_str(c.as_slice(), "test") || chars_eq_str(c.as_slice(), "runtime")
        || chars_eq_str(c.as_slice(), "develop")
}

/// A phase read from an object value (see [`phase_of`]).
fn phase_from(v: Option<&Value>) -> (r: Phase)
    ensures
        r@ == phase_of(opt_view(v)),
{
    let empty: Vec<(String, Value)> = Vec::new();
    let m: &Vec<(String, Value)> = match v {
        Some(Value::Object(o)) => {
            proof {
                lemma_object_view(*o);
            }
            o
        },
        _ => &empty,
    };
    assert(obj_view(m@) == object_or_empty(opt_view(v)));
    let mut other: SortedMap<SortedMap<String>> = SortedMap::new();
    let mut i: usize = 0;
    while i < m.len()
        invariant
            i <= m.len(),
            other@ == phase_of(Some(JsonView::Object(obj_view(m@.take(i as int))))).other,
        decreases m.len() - i,
    {
        proof {
            lemma_obj_view_take(m@, i as int);
        }
        let is_obj = match &m[i].1 {
            Value::Object(_) => true,
            _ => false,
        };
        if !is_relation_name_str(m[i].0.as_str()) && is_obj {
            other.insert(m[i].0.clone(), str_map_from(Some(&m[i].1)));
        } else {
            other.remove(m[i].0.as_str());
        }
        assert(other@ =~= phase_of(Some(JsonView::Object(obj_view(m@.take(i + 1))))).other);
        i = i + 1;
    }
    assert(m@.take(m.len() as int) == m@);
    Phase {
        requires: str_map_from(obj_get(m, "requires")),
        recommends: str_map_from(obj_get(m, "recommends")),
        suggests: str_map_from(obj_get(m, "suggests")),
        conflicts: str_map_from(obj_get(m, "conflicts")),
        other,
    }
}

/// Prerequisites read from an object value (see [`prereqs_of_value`]).
fn prereqs_from_value(v: Option<&Value>) -> (r: Prereqs)
    ensures
        r@ == prereqs_of_value(opt_view(v)),
{
    let empty: Vec<(String, Value)> = Vec::new();
    let m: &Vec<(String, Value)> = match v {
        Some(Value::Object(o)) => {
            proof {
                lemma_object_view(*o);
            }
            o
        },
        _ => &empty,
    };
    assert(obj_view(m@) == object_or_empty(opt_view(v)));
    let mut other: SortedMap<Phase> = SortedMap::new();
    let mut i: usize = 0;
    while i < m.len()
        invariant
            i <= m.len(),
            other@ == prereqs_of_value(Some(JsonView::Object(obj_view(m@.take(i as int))))).other,
        decreases m.len() - i,
    {
        proof {
            lemma_obj_view_take(m@, i as int);
        }
        let is_obj = match &m[i].1 {
            Value::Object(_) => true,
            _ => false,
        };
        if !is_phase_name_str(m[i].0.as_str()) && is_obj {
            other.insert(m[i].0.clone(), phase_from(Some(&m[i].1)));
        } else {
            other.remove(m[i].0.as_str());
        }
        assert(other@ =~= prereqs_of_value(Some(JsonView::Object(obj_view(m@.take(i + 1))))).other);
        i = i + 1;
    }
    assert(m@.take(m.len() as int) == m@);
    Prereqs {
        configure: phase_from(obj_get(m, "configure")),
        build: phase_from(obj_get(m, "build")),
        test: phase_from(obj_get(m, "test")),
        runtime: phase_from(obj_get(m, "runtime")),
        develop: phase_from(obj_get(m, "develop")),
        other,
    }
}

/// The optional features read from an object value (see [`features_of_value`]).
fn features_from(v: Option<&Value>) -> (r: SortedMap<OptionalFeature>)
    ensures
        r@ == features_of_value(opt_view(v)),
{
    let empty: Vec<(String, Value)> = Vec::new();
    let m: &Vec<(String, Value)> = match v {
        Some(Value::Object(o)) => {
            proof {
                lemma_object_view(*o);
            }
            o
        },
        _ => &empty,
    };
    assert(obj_view(m@) == object_or_empty(opt_view(v)));
    let mut out: SortedMap<OptionalFeature> = SortedMap::new();
    let mut i: usize = 0;
    while i < m.len()
        invariant
            i <= m.len(),
            out@ == features_of_value(Some(JsonView::Object(obj_view(m@.take(i as int))))),
        decreases m.len() - i,
    {
        proof {
            lemma_obj_view_take(m@, i as int);
        }
        match &m[i].1 {
            Value::Object(fm) => {
                proof {
                    lemma_object_view(*fm);
                }
                let f = OptionalFeature {
                    description: str_from(obj_get(fm, "description")),
                    prereqs: prereqs_from_value(obj_get(fm, "prereqs")),
                };
                out.insert(m[i].0.clone(), f);
            },
            _ => {
                out.remove(m[i].0.as_str());
            },
        }
        assert(out@ =~= features_of_value(Some(JsonView::Object(obj_view(m@.take(i + 1))))));
        i = i + 1;
    }
    assert(m@.take(m.len() as int) == m@);
    out
}

/// The `provides` entries read from an object value (see [`provides_of_value`]).
fn provides_from(v: Option<&Value>) -> (r: SortedMap<Provides>)
    ensures
        r@ == provides_of_value(opt_view(v)),
{
    let empty: Vec<(String, Value)> = Vec::new();
    let m: &Vec<(String, Value)> = match v {
        Some(Value::Object(o)) => {
            proof {
                lemma_object_view(*o);
            }
            o
        },
        _ => &empty,
    };
    assert(obj_view(m@) == object_or_empty(opt_view(v)));
    let mut out: SortedMap<Provides> = SortedMap::new();
    let mut i: usize = 0;
    while i < m.len()
        invariant
            i <= m.len(),
            out@ == provides_of_value(Some(JsonView::Object(obj_view(m@.take(i as int))))),
        decreases m.len() - i,
    {
        proof {
            lemma_obj_view_take(m@, i as int);
        }
        match &m[i].1 {
            Value::Object(pm) => {
                proof {
                    lemma_object_view(*pm);
                }
                let file = match str_from(obj_get(pm, "file")) {
                    Some(f) => f,
                    None => String::new(),
                };
                let p = Provides { file, version: str_from(obj_get(pm, "version")) };
                out.insert(m[i].0.clone(), p);
            },
            _ => {
                out.remove(m[i].0.as_str());
            },
        }
        assert(out@ =~= provides_of_value(Some(JsonView::Object(obj_view(m@.take(i + 1))))));
        i = i + 1;
    }
    assert(m@.take(m.len() as int) == m@);
    out
}

fn object_entries<'a>(v: Option<&'a Value>, empty: &'a Vec<(String, Value)>) -> (r: &'a Vec<(String, Value)>)
    requires
        empty@.len() == 0,
    ensures
        obj_view(r@) == object_or_empty(opt_view(v)),
{
    match v {
        Some(Value::Object(o)) => {
            proof {
                lemma_object_view(*o);
            }
            o
        },
        _ => {
            assert(obj_view(empty@) =~= Map::<Seq<char>, JsonView>::empty());
            empty
        },
    }
}

fn no_index_from(v: Option<&Value>) -> (r: NoIndex)
    ensures
        r@ == no_index_of_value(opt_view(v)),
{
    let empty: Vec<(String, Value)> = Vec::new();
    let m = object_entries(v, &empty);
    NoIndex {
        file: strs_from(obj_get(m, "file")),
        directory: strs_from(obj_get(m, "directory")),
        package: strs_from(obj_get(m, "package")),
        namespace: strs_from(obj_get(m, "namespace")),
    }
}

fn bugtracker_from(v: Option<&Value>) -> (r: Option<Bugtracker>)
    ensures
        match r {
            Some(b) => Some(b@),
            None => None,
        } == bugtracker_of_value(opt_view(v)),
{
    match v {
        Some(Value::Object(m)) => {
            proof {
                lemma_object_view(*m);
            }
            Some(Bugtracker { web: str_from(obj_get(m, "web")), mailto: str_from(obj_get(m, "mailto")) })
        },
        _ => None,
    }
}

fn repository_from(v: Option<&Value>) -> (r: Option<Repository>)
    ensures
        match r {
            Some(b) => Some(b@),
            None => None,
        } == repository_of_value(opt_view(v)),
{
    match v {
        Some(Value::Object(m)) => {
            proof {
                lemma_object_view(*m);
            }
            Some(
                Repository {
                    url: str_from(obj_get(m, "url")),
                    web: str_from(obj_get(m, "web")),
                    type_: str_from(obj_get(m, "type")),
                },
            )
        },
        _ => None,
    }
}

fn is_resource_name_str(k: &str) -> (r: bool)
    ensures
        r == is_resource_name(k@),
{
    let c = chars_of(k);
    chars_eq_str(c.as_slice(), "homepage") || chars_eq_str(c.as_slice(), "license")
        || chars_eq_str(c.as_slice(), "bugtracker") || chars_eq_str(c.as_slice(), "repository")
}

fn resources_from(v: Option<&Value>) -> (r: Resources)
    ensures
        r@ == resources_of_value(opt_view(v)),
{
    let empty: Vec<(String, Value)> = Vec::new();
    let m = object_entries(v, &empty);
    let mut custom: SortedMap<Value> = SortedMap::new();
    let mut i: usize = 0;
    while i < m.len()
        invariant
            i <= m.len(),
            custom@ == resources_of_value(Some(JsonView::Object(obj_view(m@.take(i as int))))).custom,
        decreases m.len() - i,
    {
        proof {
            lemma_obj_view_take(m@, i as int);
        }
        if !is_resource_name_str(m[i].0.as_str()) {
            custom.insert(m[i].0.clone(), clone_value(&m[i].1));
        } else {
            custom.remove(m[i].0.as_str());
        }
        assert(custom@ =~= resources_of_value(
            Some(JsonView::Object(obj_view(m@.take(i + 1)))),
        ).custom);
        i = i + 1;
    }
    assert(m@.take(m.len() as int) == m@);
    Resources {
        homepage: str_from(obj_get(m, "homepage")),
        license: strs_from(obj_get(m, "license")),
        bugtracker: bugtracker_from(obj_get(m, "bugtracker")),
        repository: repository_from(obj_get(m, "repository")),
        custom,
    }
}

fn meta_spec_from(v: Option<&Value>) -> (r: MetaSpec)
    ensures
        r@ == meta_spec_of_value(opt_view(v)),
{
    let empty: Vec<(String, Value)> = Vec::new();
    let m = object_entries(v, &empty);
    let version = match str_from(obj_get(m, "version")) {
        Some(s) => s,
        None => text("2"),
    };
    MetaSpec { version, url: str_from(obj_get(m, "url")) }
}

fn release_status_from(v: Option<&Value>) -> (r: ReleaseStatus)
    ensures
        r == release_status_of_value(opt_view(v)),
{
    match v {
        Some(Value::String(s)) => {
            let c = chars_of(s.as_str());
            if chars_eq_str(c.as_slice(), "testing") {
                ReleaseStatus::Testing
            } else if chars_eq_str(c.as_slice(), "unstable") {
                ReleaseStatus::Unstable
            } else {
                ReleaseStatus::Stable
            }
        },
        _ => ReleaseStatus::Stable,
    }
}

fn is_meta_field_str(k: &str) -> (r: bool)
    ensures
        r == is_meta_field(k@),
{
    let c = chars_of(k);
    let s = c.as_slice();
    chars_eq_str(s, "name") || chars_eq_str(s, "version") || chars_eq_str(s, "abstract")
        || chars_eq_str(s, "author") || chars_eq_str(s, "license") || chars_eq_str(
        s,
        "generated_by",
    ) || chars_eq_str(s, "dynamic_config") || chars_eq_str(s, "release_status") || chars_eq_str(
        s,
        "meta-spec",
    ) || chars_eq_str(s, "description") || chars_eq_str(s, "keywords") || chars_eq_str(
        s,
        "prereqs",
    ) || chars_eq_str(s, "optional_features") || chars_eq_str(s, "provides") || chars_eq_str(
        s,
        "no_index",
    ) || chars_eq_str(s, "resources")
}

/// Read a normalised document into [`Meta`] (see [`meta_of`]). Without a string
/// `name`, or else without a string `version`, the error is the JSON reader's
/// "missing field" error for it.
pub fn meta_from(obj: &Vec<(String, Value)>, spec_version: SpecVersion) -> (r: Result<
    Meta,
    Error,
>)
    ensures
        match meta_of(obj_view(obj@), spec_version@) {
            Some(m) => r matches Ok(x) && x@ == m,
            None => r matches Err(e) && e.kind() == ErrorKind::Json,
        },
{
    let name = match str_from(obj_get(obj, "name")) {
        Some(s) => s,
        None => {
            return Err(Error::Json(missing_field_error("name")));
        },
    };
    let version = match str_from(obj_get(obj, "version")) {
        Some(s) => s,
        None => {
            return Err(Error::Json(missing_field_error("version")));
        },
    };
    let mut custom: SortedMap<Value> = SortedMap::new();
    let mut i: usize = 0;
    while i < obj.len()
        invariant
            i <= obj.len(),
            custom@ == Map::new(
                |k: Seq<char>| obj_view(obj@.take(i as int)).contains_key(k) && !is_meta_field(k),
                |k: Seq<char>| obj_view(obj@.take(i as int))[k],
            ),
        decreases obj.len() - i,
    {
        proof {
            lemma_obj_view_take(obj@, i as int);
        }
        if !is_meta_field_str(obj[i].0.as_str()) {
            custom.insert(obj[i].0.clone(), clone_value(&obj[i].1));
        } else {
            custom.remove(obj[i].0.as_str());
        }
        assert(custom@ =~= Map::new(
            |k: Seq<char>| obj_view(obj@.take(i + 1)).contains_key(k) && !is_meta_field(k),
            |k: Seq<char>| obj_view(obj@.take(i + 1))[k],
        ));
        i = i + 1;
    }
    assert(obj@.take(obj.len() as int) == obj@);
    let dynamic_config = match obj_get(obj, "dynamic_config") {
        Some(Value::Bool(b)) => *b,
        _ => true,
    };
    let meta = Meta {
        name,
        version,
        abstract_: str_from(obj_get(obj, "abstract")),
        author: strs_from(obj_get(obj, "author")),
        license: strs_from(obj_get(obj, "license")),
        generated_by: str_from(obj_get(obj, "generated_by")),
        dynamic_config,
        release_status: release_status_from(obj_get(obj, "release_status")),
        meta_spec: meta_spec_from(obj_get(obj, "meta-spec")),
        description: str_from(obj_get(obj, "description")),
        keywords: strs_from(obj_get(obj, "keywords")),
        prereqs: prereqs_from_value(obj_get(obj, "prereqs")),
        optional_features: features_from(obj_get(obj, "optional_features")),
        provides: provides_from(obj_get(obj, "provides")),
        no_index: no_index_from(obj_get(obj, "no_index")),
        resources: resources_from(obj_get(obj, "resources")),
        custom,
        spec_version,
    };
    Ok(meta)
}

} // verus!
