//! Properties of the library that span its functions.
use vstd::prelude::*;
use crate::assemble::{is_meta_field, is_resource_name, no_index_of_value, str_items, strs_of};
use crate::built;
use crate::convert::{
    clean_phase, clean_relation, has_entries, is_scalar_field, is_v2_license, license_token,
    license_tokens, merged_prereqs, normalized, release_status_of, resources_of, sanitized,
    dynamic_config_of, no_index_of, vcs_guess, field_text, legacy_entry, legacy_merged, legacy_count, dep_map, field, object_or_empty, prereqs_of, kept_phase,
    kept_relation, scalar_text,
    str_array, string_list, with_author, with_dynamic_config, with_features, with_keywords,
    with_license, with_meta_spec, with_no_index, with_prereqs, with_provides, with_release_status,
    with_resources, with_scalars, Obj,
};
use crate::spec::{detected_version, spec_version_text, version_of_text, SpecVersionView};
use crate::text::{
    ascii_lowercase, contains_seq, trim_start_char, is_ascii_text, is_white, lemma_trim_fixed, lowercase, split_on,
    starts_with, trim,
};
use crate::value::JsonView;
use crate::meta::{
    phase_named, relation_named, BugtrackerView, NoIndexView, ReleaseStatus, RepositoryView,
};
use crate::version_range::{clause_meaning, clauses_meaning, op_symbol, range_meaning, Op};

verus! {

/// The length and first characters of the field names, by which they are told apart.
proof fn lemma_name_shapes()
    ensures
        "distribution_type"@.len() == 17,
        "license_uri"@.len() == 11,
        "meta-spec"@.len() == 9,
        "meta_spec"@.len() == 9,
        "name"@.len() == 4,
        "version"@.len() == 7,
        "abstract"@.len() == 8,
        "description"@.len() == 11,
        "generated_by"@.len() == 12,
        "author"@.len() == 6,
        "authors"@.len() == 7,
        "license"@.len() == 7,
        "keywords"@.len() == 8,
        "prereqs"@.len() == 7,
        "configure_requires"@.len() == 18,
        "build_requires"@.len() == 14,
        "test_requires"@.len() == 13,
        "requires"@.len() == 8,
        "recommends"@.len() == 10,
        "conflicts"@.len() == 9,
        "optional_features"@.len() == 17,
        "provides"@.len() == 8,
        "no_index"@.len() == 8,
        "private"@.len() == 7,
        "resources"@.len() == 9,
        "dynamic_config"@.len() == 14,
        "release_status"@.len() == 14,
        "configure"@.len() == 9,
        "build"@.len() == 5,
        "test"@.len() == 4,
        "runtime"@.len() == 7,
        "develop"@.len() == 7,
        "suggests"@.len() == 8,
        "url"@.len() == 3,
        "web"@.len() == 3,
        "type"@.len() == 4,
        "mailto"@.len() == 6,
        "homepage"@.len() == 8,
        "bugtracker"@.len() == 10,
        "repository"@.len() == 10,
        "distribution_type"@[0] == 'd',
        "license_uri"@[0] == 'l',
        "meta-spec"@[0] == 'm',
        "meta_spec"@[0] == 'm',
        "name"@[0] == 'n',
        "version"@[0] == 'v',
        "abstract"@[0] == 'a',
        "description"@[0] == 'd',
        "generated_by"@[0] == 'g',
        "author"@[0] == 'a',
        "authors"@[0] == 'a',
        "license"@[0] == 'l',
        "keywords"@[0] == 'k',
        "prereqs"@[0] == 'p',
        "configure_requires"@[0] == 'c',
        "build_requires"@[0] == 'b',
        "test_requires"@[0] == 't',
        "requires"@[0] == 'r',
        "recommends"@[0] == 'r',
        "conflicts"@[0] == 'c',
        "optional_features"@[0] == 'o',
        "provides"@[0] == 'p',
        "no_index"@[0] == 'n',
        "private"@[0] == 'p',
        "resources"@[0] == 'r',
        "dynamic_config"@[0] == 'd',
        "release_status"@[0] == 'r',
        "configure"@[0] == 'c',
        "build"@[0] == 'b',
        "test"@[0] == 't',
        "runtime"@[0] == 'r',
        "develop"@[0] == 'd',
        "suggests"@[0] == 's',
        "url"@[0] == 'u',
        "web"@[0] == 'w',
        "type"@[0] == 't',
        "mailto"@[0] == 'm',
        "homepage"@[0] == 'h',
        "bugtracker"@[0] == 'b',
        "repository"@[0] == 'r',
        "prereqs"@[2] == 'e',
        "private"@[2] == 'i',
        "meta-spec"@[4] == '-',
        "meta_spec"@[4] == '_',
        "conflicts"@[4] == 'l',
        "configure"@[4] == 'i',
        "repository"@[2] == 'p',
        "recommends"@[2] == 'c',
        "type"@[1] == 'y',
        "test"@[1] == 'e',
        "file"@.len() == 4,
        "directory"@.len() == 9,
        "package"@.len() == 7,
        "namespace"@.len() == 9,
        "dir"@.len() == 3,
        "module"@.len() == 6,
        "file"@[0] == 'f',
        "directory"@[0] == 'd',
        "package"@[0] == 'p',
        "namespace"@[0] == 'n',
        "dir"@[0] == 'd',
        "module"@[0] == 'm',
        "module"@[1] == 'o',
        "mailto"@[1] == 'a',
{
    reveal_strlit("file");
    reveal_strlit("directory");
    reveal_strlit("package");
    reveal_strlit("namespace");
    reveal_strlit("dir");
    reveal_strlit("module");
    reveal_strlit("distribution_type");
    reveal_strlit("license_uri");
    reveal_strlit("meta-spec");
    reveal_strlit("meta_spec");
    reveal_strlit("name");
    reveal_strlit("version");
    reveal_strlit("abstract");
    reveal_strlit("description");
    reveal_strlit("generated_by");
    reveal_strlit("author");
    reveal_strlit("authors");
    reveal_strlit("license");
    reveal_strlit("keywords");
    reveal_strlit("prereqs");
    reveal_strlit("configure_requires");
    reveal_strlit("build_requires");
    reveal_strlit("test_requires");
    reveal_strlit("requires");
    reveal_strlit("recommends");
    reveal_strlit("conflicts");
    reveal_strlit("optional_features");
    reveal_strlit("provides");
    reveal_strlit("no_index");
    reveal_strlit("private");
    reveal_strlit("resources");
    reveal_strlit("dynamic_config");
    reveal_strlit("release_status");
    reveal_strlit("configure");
    reveal_strlit("build");
    reveal_strlit("test");
    reveal_strlit("runtime");
    reveal_strlit("develop");
    reveal_strlit("suggests");
    reveal_strlit("url");
    reveal_strlit("web");
    reveal_strlit("type");
    reveal_strlit("mailto");
    reveal_strlit("homepage");
    reveal_strlit("bugtracker");
    reveal_strlit("repository");
}

/// Every license token is normalised to a spec version 2 license identifier;
/// unrecognised tokens become `unknown`.
pub proof fn law_license_token_is_v2(token: Seq<char>)
    ensures
        is_v2_license(license_token(token)),
{
}

/// Sanitised prerequisites have the strict `{ phase: { relationship: { module:
/// version } } }` shape: every phase and every relationship is a non-empty object,
/// and every version is a string.
pub proof fn law_sanitized_shape(p: Obj)
    ensures
        forall|ph: Seq<char>| #[trigger]
            sanitized(p).contains_key(ph) ==> ({
                &&& sanitized(p)[ph] is Object
                &&& has_entries(sanitized(p)[ph]->Object_0)
                &&& forall|rel: Seq<char>| #[trigger]
                    sanitized(p)[ph]->Object_0.contains_key(rel) ==> ({
                        &&& sanitized(p)[ph]->Object_0[rel] is Object
                        &&& has_entries(sanitized(p)[ph]->Object_0[rel]->Object_0)
                        &&& forall|m: Seq<char>| #[trigger]
                            sanitized(p)[ph]->Object_0[rel]->Object_0.contains_key(m)
                                ==> sanitized(p)[ph]->Object_0[rel]->Object_0[m] is Str
                    })
            }),
{
    assert forall|ph: Seq<char>| #[trigger] sanitized(p).contains_key(ph) implies ({
        &&& sanitized(p)[ph] is Object
        &&& has_entries(sanitized(p)[ph]->Object_0)
        &&& forall|rel: Seq<char>| #[trigger]
            sanitized(p)[ph]->Object_0.contains_key(rel) ==> ({
                &&& sanitized(p)[ph]->Object_0[rel] is Object
                &&& has_entries(sanitized(p)[ph]->Object_0[rel]->Object_0)
                &&& forall|m: Seq<char>| #[trigger]
                    sanitized(p)[ph]->Object_0[rel]->Object_0.contains_key(m)
                        ==> sanitized(p)[ph]->Object_0[rel]->Object_0[m] is Str
            })
    }) by {
        let pm = p[ph]->Object_0;
        assert(sanitized(p)[ph] == JsonView::Object(clean_phase(pm)));
        assert forall|rel: Seq<char>| #[trigger] clean_phase(pm).contains_key(rel) implies ({
            &&& clean_phase(pm)[rel] is Object
            &&& has_entries(clean_phase(pm)[rel]->Object_0)
            &&& forall|m: Seq<char>| #[trigger]
                clean_phase(pm)[rel]->Object_0.contains_key(m)
                    ==> clean_phase(pm)[rel]->Object_0[m] is Str
        }) by {
            let rm = pm[rel]->Object_0;
            assert(clean_phase(pm)[rel] == JsonView::Object(clean_relation(rm)));
        }
    }
}

/// Merging legacy dependencies never replaces an entry that is already there.
pub proof fn law_merge_keeps_existing(
    p: Obj,
    phase: Seq<char>,
    rel: Seq<char>,
    v: JsonView,
    module: Seq<char>,
)
    requires
        p.contains_key(phase),
        p[phase] is Object,
        p[phase]->Object_0.contains_key(rel),
        p[phase]->Object_0[rel] is Object,
        p[phase]->Object_0[rel]->Object_0.contains_key(module),
    ensures
        merged_prereqs(p, phase, rel, v)[phase]->Object_0[rel]->Object_0[module]
            == p[phase]->Object_0[rel]->Object_0[module],
{
}

/// The release status always comes out as `stable`, `testing` or `unstable`.
pub proof fn law_release_status_is_known(obj: Obj)
    ensures
        release_status_of(obj) == "stable"@ || release_status_of(obj) == "testing"@
            || release_status_of(obj) == "unstable"@,
{
}

proof fn lemma_split_without_separator(s: Seq<char>, sep: char)
    requires
        !s.contains(sep),
    ensures
        split_on(s, sep) == seq![s],
    decreases s.len(),
{
    if s.len() > 0 {
        assert(!s.drop_last().contains(sep)) by {
            if s.drop_last().contains(sep) {
                let i = choose|i: int| 0 <= i < s.drop_last().len() && s.drop_last()[i] == sep;
                assert(s[i] == sep);
            }
        }
        lemma_split_without_separator(s.drop_last(), sep);
        assert(s.last() != sep) by {
            if s.last() == sep {
                assert(s[s.len() - 1] == sep);
            }
        }
        assert(s.drop_last().push(s.last()) == s);
        let rest = split_on(s.drop_last(), sep);
        assert(rest.drop_last() =~= Seq::<Seq<char>>::empty());
        assert(rest.last() == s.drop_last());
        assert(split_on(s, sep) =~= seq![s]);
    } else {
        assert(s =~= Seq::<char>::empty());
    }
}

/// A bare version (one clause that starts with no operator and is not the "any
/// version" marker `0`) means "at least" that version.
pub proof fn law_bare_version_is_at_least(range: Seq<char>)
    requires
        !range.contains(','),
        trim(range).len() > 0,
        trim(range) != "0"@,
        trim(range)[0] != '<',
        trim(range)[0] != '>',
        !starts_with(trim(range), "=="@),
        !starts_with(trim(range), "!="@),
    ensures
        range_meaning(range) == seq![(Op::GreaterEqual, trim(range))],
{
    reveal_strlit("<=");
    reveal_strlit(">=");
    reveal_strlit("<");
    reveal_strlit(">");
    lemma_split_without_separator(range, ',');
    let t = trim(range);
    assert(!starts_with(t, "<="@)) by {
        if starts_with(t, "<="@) {
            assert(t.take(2)[0] == '<');
        }
    }
    assert(!starts_with(t, ">="@)) by {
        if starts_with(t, ">="@) {
            assert(t.take(2)[0] == '>');
        }
    }
    assert(!starts_with(t, "<"@)) by {
        if starts_with(t, "<"@) {
            assert(t.take(1)[0] == '<');
        }
    }
    assert(!starts_with(t, ">"@)) by {
        if starts_with(t, ">"@) {
            assert(t.take(1)[0] == '>');
        }
    }
    assert(clause_meaning(range) == Some((Op::GreaterEqual, t)));
    let s = seq![range];
    assert(s.drop_last() == Seq::<Seq<char>>::empty());
    assert(clauses_meaning(Seq::<Seq<char>>::empty()) == Seq::<(Op, Seq<char>)>::empty());
    assert(clauses_meaning(s) =~= seq![(Op::GreaterEqual, t)]);
}

/// The "any version" marker `0` states no constraint.
pub proof fn law_any_version_is_unconstrained()
    ensures
        range_meaning("0"@) == Seq::<(Op, Seq<char>)>::empty(),
{
    reveal_strlit("0");
    reveal_strlit("<=");
    reveal_strlit(">=");
    reveal_strlit("==");
    reveal_strlit("!=");
    reveal_strlit("<");
    reveal_strlit(">");
    let s = "0"@;
    assert(!s.contains(',')) by {
        if s.contains(',') {
            let i = choose|i: int| 0 <= i < s.len() && s[i] == ',';
            assert(s[0] == '0');
        }
    }
    lemma_split_without_separator(s, ',');
    assert(trim(s) == s) by {
        assert(s.len() == 1 && s[0] == '0');
        assert(crate::text::trim_start(s) == s);
        assert(crate::text::trim_end(s) == s);
    }
    assert(clause_meaning(s) is None) by {
        assert(!starts_with(s, "<="@));
        assert(!starts_with(s, ">="@));
        assert(!starts_with(s, "=="@));
        assert(!starts_with(s, "!="@));
        assert(!starts_with(s, "<"@)) by {
            if starts_with(s, "<"@) {
                assert(s.take(1)[0] == '<');
            }
        }
        assert(!starts_with(s, ">"@)) by {
            if starts_with(s, ">"@) {
                assert(s.take(1)[0] == '>');
            }
        }
    }
    assert(seq![s].drop_last() == Seq::<Seq<char>>::empty());
    assert(seq![s].last() == s);
    assert(clauses_meaning(seq![s]) == clauses_meaning(Seq::<Seq<char>>::empty()));
}

/// The key is none of those that the steps before `resources` is normalised write.
spec fn resources_untouched_before(k: Seq<char>) -> bool {
    &&& k != "distribution_type"@
    &&& k != "license_uri"@
    &&& k != "meta-spec"@
    &&& k != "meta_spec"@
    &&& !is_scalar_field(k)
    &&& k != "author"@
    &&& k != "authors"@
    &&& k != "license"@
    &&& k != "keywords"@
    &&& !crate::convert::prereq_keys().contains(k)
    &&& k != "optional_features"@
    &&& k != "provides"@
    &&& k != "no_index"@
    &&& k != "private"@
}

/// The normalisation steps after the license is normalised.
spec fn after_license(o: Obj) -> Obj {
    with_release_status(
        with_dynamic_config(
            with_resources(with_no_index(with_provides(with_features(with_prereqs(with_keywords(o)))))),
        ),
    )
}

/// The normalisation steps after the single-string fields are fixed.
spec fn after_scalars(o: Obj) -> Obj {
    after_license(with_license(with_author(o)))
}

/// The normalisation steps after `meta-spec` is settled.
spec fn after_meta_spec(o: Obj) -> Obj {
    after_scalars(with_scalars(o))
}

/// `f` leaves key `k` of `o` as it is.
spec fn keeps(before: Obj, after: Obj, k: Seq<char>) -> bool {
    &&& after.contains_key(k) == before.contains_key(k)
    &&& before.contains_key(k) ==> after[k] == before[k]
}

/// The keys that the steps after the license is normalised write.
spec fn written_after_license(k: Seq<char>) -> bool {
    ||| k == "keywords"@
    ||| k == "prereqs"@
    ||| k == "configure_requires"@
    ||| k == "build_requires"@
    ||| k == "test_requires"@
    ||| k == "requires"@
    ||| k == "recommends"@
    ||| k == "conflicts"@
    ||| k == "optional_features"@
    ||| k == "provides"@
    ||| k == "no_index"@
    ||| k == "private"@
    ||| k == "resources"@
    ||| k == "dynamic_config"@
    ||| k == "release_status"@
}

proof fn lemma_after_license_keeps(o: Obj, k: Seq<char>)
    requires
        !written_after_license(k),
    ensures
        keeps(o, after_license(o), k),
{
    let o1 = with_keywords(o);
    let o2 = with_prereqs(o1);
    assert(!crate::convert::prereq_keys().contains(k));
    let o3 = with_features(o2);
    let o4 = with_provides(o3);
    let o5 = with_no_index(o4);
    let o6 = with_resources(o5);
    let o7 = with_dynamic_config(o6);
    assert(keeps(o, o1, k));
    assert(keeps(o1, o2, k));
    assert(keeps(o2, o3, k));
    assert(keeps(o3, o4, k));
    assert(keeps(o4, o5, k));
    assert(keeps(o5, o6, k));
    assert(keeps(o6, o7, k));
    assert(keeps(o7, with_release_status(o7), k));
}

proof fn lemma_after_scalars_keeps(o: Obj, k: Seq<char>)
    requires
        !written_after_license(k),
        k != "author"@,
        k != "authors"@,
        k != "license"@,
    ensures
        keeps(o, after_scalars(o), k),
{
    let o1 = with_author(o);
    let o2 = with_license(o1);
    assert(keeps(o, o1, k));
    assert(keeps(o1, o2, k));
    lemma_after_license_keeps(o2, k);
}

proof fn lemma_after_meta_spec_keeps(o: Obj, k: Seq<char>)
    requires
        !written_after_license(k),
        k != "author"@,
        k != "authors"@,
        k != "license"@,
        !is_scalar_field(k),
    ensures
        keeps(o, after_meta_spec(o), k),
{
    assert(keeps(o, with_scalars(o), k));
    lemma_after_scalars_keeps(with_scalars(o), k);
}

proof fn lemma_normalized_steps(m: Obj)
    ensures
        normalized(m) == after_meta_spec(
            with_meta_spec(m.remove("distribution_type"@).remove("license_uri"@)),
        ),
{
}

proof fn lemma_literals_distinct()
    ensures
        !written_after_license("name"@),
        !written_after_license("version"@),
        !written_after_license("license"@),
        !written_after_license("meta-spec"@),
        "name"@ != "author"@ && "name"@ != "authors"@ && "name"@ != "license"@,
        "version"@ != "author"@ && "version"@ != "authors"@ && "version"@ != "license"@,
        "meta-spec"@ != "author"@ && "meta-spec"@ != "authors"@ && "meta-spec"@ != "license"@,
        !is_scalar_field("meta-spec"@),
        "name"@ != "version"@,
        "name"@ != "distribution_type"@ && "name"@ != "license_uri"@,
        "version"@ != "distribution_type"@ && "version"@ != "license_uri"@,
        "license"@ != "distribution_type"@ && "license"@ != "license_uri"@,
        "name"@ != "meta-spec"@ && "name"@ != "meta_spec"@,
        "version"@ != "meta-spec"@ && "version"@ != "meta_spec"@,
        "license"@ != "meta-spec"@ && "license"@ != "meta_spec"@,
        "url"@ != "version"@,
        "meta-spec"@ != "distribution_type"@ && "meta-spec"@ != "license_uri"@,
{
    lemma_name_shapes();
    assert(!written_after_license("name"@));
}

/// `resources` is none of the keys that the steps before it write.
proof fn lemma_resources_untouched()
    ensures
        resources_untouched_before("resources"@),
        "resources"@ != "dynamic_config"@,
        "resources"@ != "release_status"@,
{
    lemma_name_shapes();
}

/// A list of strings reads back as the texts it was made of.
proof fn lemma_str_items_of_array(l: Seq<Seq<char>>)
    ensures
        strs_of(Some(str_array(l))) == l,
    decreases l.len(),
{
    let a = str_array(l)->Array_0;
    if l.len() > 0 {
        lemma_str_items_of_array(l.drop_last());
        assert(a.drop_last() == str_array(l.drop_last())->Array_0);
        assert(str_items(a) =~= l);
    } else {
        assert(str_items(a) =~= l);
    }
}

/// A document gives metadata just when it is an object whose `name` is a scalar
/// (a string, number or boolean). The metadata then has that name's text, the spec
/// version detected in the document as it was given, and the normalised `meta-spec`
/// version `2`.
pub proof fn law_built_succeeds_with_a_scalar_name(v: JsonView)
    ensures
        built(v) is Ok <==> (v is Object && v->Object_0.contains_key("name"@) && scalar_text(
            v->Object_0["name"@],
        ) is Some),
        built(v) matches Ok(mv) ==> ({
            &&& mv.name == scalar_text(v->Object_0["name"@])->0
            &&& mv.spec_version == detected_version(v->Object_0)
            &&& mv.meta_spec.version == "2"@
        }),
{
    lemma_literals_distinct();
    if let JsonView::Object(m) = v {
        lemma_normalized_steps(m);
        let o0 = m.remove("distribution_type"@).remove("license_uri"@);
        let o1 = with_meta_spec(o0);
        let o2 = with_scalars(o1);
        assert(keeps(m, o0, "name"@));
        assert(keeps(o0, o1, "name"@));
        lemma_after_scalars_keeps(o2, "name"@);
        lemma_after_scalars_keeps(o2, "version"@);
        lemma_after_scalars_keeps(o2, "meta-spec"@);
        assert(keeps(o1, o2, "meta-spec"@));
        assert(o2.contains_key("version"@) && o2["version"@] is Str);
        let ms = o1["meta-spec"@]->Object_0;
        assert(ms["version"@] == JsonView::Str("2"@));
    }
}

/// The licenses of the metadata that a document gives are all spec version 2 license
/// identifiers.
pub proof fn law_built_licenses_are_v2(v: JsonView)
    ensures
        built(v) matches Ok(mv) ==> forall|i: int|
            0 <= i < mv.license.len() ==> is_v2_license(#[trigger] mv.license[i]),
{
    lemma_literals_distinct();
    if let JsonView::Object(m) = v {
        lemma_normalized_steps(m);
        let o0 = m.remove("distribution_type"@).remove("license_uri"@);
        let o1 = with_meta_spec(o0);
        let o2 = with_scalars(o1);
        let o3 = with_author(o2);
        let o4 = with_license(o3);
        lemma_after_license_keeps(o4, "license"@);
        if o4.contains_key("license"@) {
            let l = license_tokens(string_list(o3["license"@]));
            assert(o4["license"@] == str_array(l));
            lemma_str_items_of_array(l);
            assert forall|i: int| 0 <= i < l.len() implies is_v2_license(#[trigger] l[i]) by {
                law_license_token_is_v2(string_list(o3["license"@])[i]);
            }
        }
    }
}

/// The fields that normalisation reads and then drops or renames.
pub open spec fn consumed_by_normalizing(k: Seq<char>) -> bool {
    ||| k == "meta_spec"@
    ||| k == "authors"@
    ||| k == "private"@
    ||| k == "distribution_type"@
    ||| k == "license_uri"@
    ||| k == "configure_requires"@
    ||| k == "build_requires"@
    ||| k == "test_requires"@
    ||| k == "requires"@
    ||| k == "recommends"@
    ||| k == "conflicts"@
}

/// Normalising leaves custom (`x_*`) keys, and any other key that the spec does not
/// define and normalisation does not read, as they were: such a key is there after
/// just when it was there before, with the same value.
pub proof fn law_normalize_keeps_unknown_keys(m: Obj, k: Seq<char>)
    requires
        !is_meta_field(k),
        !consumed_by_normalizing(k),
    ensures
        normalized(m).contains_key(k) == m.contains_key(k),
        m.contains_key(k) ==> normalized(m)[k] == m[k],
{
    lemma_normalized_steps(m);
    let o0 = m.remove("distribution_type"@).remove("license_uri"@);
    let o1 = with_meta_spec(o0);
    assert(keeps(m, o0, k));
    assert(keeps(o0, o1, k));
    lemma_after_meta_spec_keeps(o1, k);
}

/// Custom (`x_*`) keys and any other keys that the spec does not define are kept
/// verbatim in [`Meta::custom`](crate::Meta), and no such key is there that the
/// document did not have.
pub proof fn law_unknown_keys_kept(v: JsonView, k: Seq<char>)
    requires
        v is Object,
        !is_meta_field(k),
        !consumed_by_normalizing(k),
    ensures
        built(v) matches Ok(mv) ==> mv.custom.contains_key(k) == v->Object_0.contains_key(k),
        built(v) matches Ok(mv) ==> (v->Object_0.contains_key(k) ==> mv.custom[k]
            == v->Object_0[k]),
{
    law_normalize_keeps_unknown_keys(v->Object_0, k);
}

/// The legacy fields that normalising takes out of a document.
pub open spec fn dropped_by_normalizing(k: Seq<char>) -> bool {
    ||| k == "distribution_type"@
    ||| k == "license_uri"@
    ||| k == "authors"@
    ||| k == "private"@
    ||| k == "configure_requires"@
    ||| k == "build_requires"@
    ||| k == "test_requires"@
    ||| k == "requires"@
    ||| k == "recommends"@
    ||| k == "conflicts"@
}

/// A normalised document has the version 2 shape: the legacy fields are gone,
/// `meta-spec` is an object whose `version` is `2`, `version` is a string,
/// `dynamic_config` is a boolean, and `release_status` is `stable`, `testing` or
/// `unstable`.
pub proof fn law_normalized_shape(m: Obj)
    ensures
        forall|k: Seq<char>| dropped_by_normalizing(k) ==> !#[trigger] normalized(m).contains_key(k),
        normalized(m).contains_key("meta-spec"@),
        normalized(m)["meta-spec"@] is Object,
        normalized(m)["meta-spec"@]->Object_0.contains_key("version"@),
        normalized(m)["meta-spec"@]->Object_0["version"@] == JsonView::Str("2"@),
        normalized(m).contains_key("version"@),
        normalized(m)["version"@] is Str,
        normalized(m).contains_key("dynamic_config"@),
        normalized(m)["dynamic_config"@] is Bool,
        normalized(m).contains_key("release_status"@),
        normalized(m)["release_status"@] == JsonView::Str("stable"@) || normalized(m)["release_status"@]
            == JsonView::Str("testing"@) || normalized(m)["release_status"@] == JsonView::Str(
            "unstable"@,
        ),
{
    lemma_name_shapes();
    lemma_literals_distinct();
    lemma_normalized_steps(m);
    let o0 = m.remove("distribution_type"@).remove("license_uri"@);
    let o1 = with_meta_spec(o0);
    let o2 = with_scalars(o1);
    let o3 = with_author(o2);
    let o4 = with_license(o3);
    let o5 = with_keywords(o4);
    let o6 = with_prereqs(o5);
    let o7 = with_features(o6);
    let o8 = with_provides(o7);
    let o9 = with_no_index(o8);
    let o10 = with_resources(o9);
    let o11 = with_dynamic_config(o10);
    let n = with_release_status(o11);
    assert(normalized(m) == n);
    assert forall|k: Seq<char>| dropped_by_normalizing(k) implies !#[trigger] n.contains_key(k) by {
        if k == "distribution_type"@ || k == "license_uri"@ {
            assert(!o0.contains_key(k));
            assert(!o1.contains_key(k));
            assert(!o2.contains_key(k));
            lemma_after_scalars_keeps(o2, k);
        } else if k == "authors"@ {
            assert(!o3.contains_key(k));
            assert(!o4.contains_key(k));
            lemma_after_license_keeps(o4, k);
        } else if k == "private"@ {
            assert(!o9.contains_key(k));
            assert(!o10.contains_key(k));
            assert(!o11.contains_key(k));
        } else {
            assert(crate::convert::prereq_keys().contains(k));
            assert(!o6.contains_key(k));
            assert(!o7.contains_key(k));
            assert(!o8.contains_key(k));
            assert(!o9.contains_key(k));
            assert(!o10.contains_key(k));
            assert(!o11.contains_key(k));
        }
    }
    let ms = "meta-spec"@;
    assert(o1.contains_key(ms));
    assert(o1[ms]->Object_0["version"@] == JsonView::Str("2"@));
    lemma_after_meta_spec_keeps(o1, ms);
    lemma_after_scalars_keeps(o2, "version"@);
    assert(o2.contains_key("version"@) && o2["version"@] is Str);
    assert(n["dynamic_config"@] == o11["dynamic_config"@]);
    law_release_status_is_known(o11);
}

/// The license identifiers of spec version 2 are made of lowercase ASCII letters,
/// digits and `_`.
proof fn lemma_v2_license_plain(t: Seq<char>)
    requires
        is_v2_license(t),
    ensures
        t.len() > 0,
        forall|i: int| 0 <= i < t.len() ==> ('a' <= #[trigger] t[i] <= 'z' || '0' <= t[i] <= '9'
            || t[i] == '_'),
{
    reveal_strlit("agpl_3");
    reveal_strlit("apache_1_1");
    reveal_strlit("apache_2_0");
    reveal_strlit("artistic_1");
    reveal_strlit("artistic_2");
    reveal_strlit("bsd");
    reveal_strlit("freebsd");
    reveal_strlit("gfdl_1_2");
    reveal_strlit("gfdl_1_3");
    reveal_strlit("gpl_1");
    reveal_strlit("gpl_2");
    reveal_strlit("gpl_3");
    reveal_strlit("lgpl_2_1");
    reveal_strlit("lgpl_3_0");
    reveal_strlit("mit");
    reveal_strlit("mozilla_1_0");
    reveal_strlit("mozilla_1_1");
    reveal_strlit("openssl");
    reveal_strlit("perl_5");
    reveal_strlit("qpl_1_0");
    reveal_strlit("ssleay");
    reveal_strlit("sun");
    reveal_strlit("zlib");
    reveal_strlit("open_source");
    reveal_strlit("restricted");
    reveal_strlit("unrestricted");
    reveal_strlit("unknown");
}

/// Normalising a license token gives a spec version 2 identifier that normalises to
/// itself; a token that trims and lowercases to a version 2 identifier gives that
/// identifier.
pub proof fn law_license_token_idempotent(token: Seq<char>)
    ensures
        is_v2_license(license_token(token)),
        license_token(license_token(token)) == license_token(token),
        is_v2_license(lowercase(trim(token))) ==> license_token(token) == lowercase(trim(token)),
{
    let r = license_token(token);
    law_license_token_is_v2(token);
    lemma_v2_license_plain(r);
    assert(!is_white(r[0]) && !is_white(r.last())) by {
        assert('a' <= r[0] <= 'z' || '0' <= r[0] <= '9' || r[0] == '_');
        assert('a' <= r[r.len() - 1] <= 'z' || '0' <= r[r.len() - 1] <= '9' || r[r.len() - 1] == '_');
    }
    lemma_trim_fixed(r);
    assert(is_ascii_text(r));
    assert(ascii_lowercase(r) =~= r);
    assert(lowercase(trim(r)) == r);
}

/// A document whose `resources` is an object with something left after normalising
/// it comes out with those normalised resources.
proof fn lemma_normalized_resources(m: Obj)
    requires
        m.contains_key("resources"@),
        m["resources"@] is Object,
        has_entries(resources_of(m["resources"@]->Object_0)),
    ensures
        normalized(m).contains_key("resources"@),
        normalized(m)["resources"@] == JsonView::Object(resources_of(m["resources"@]->Object_0)),
{
    lemma_resources_untouched();
    lemma_normalized_steps(m);
    let r = "resources"@;
    let o0 = m.remove("distribution_type"@).remove("license_uri"@);
    let o1 = with_meta_spec(o0);
    let o2 = with_scalars(o1);
    let o3 = with_author(o2);
    let o4 = with_license(o3);
    let o5 = with_keywords(o4);
    let o6 = with_prereqs(o5);
    let o7 = with_features(o6);
    let o8 = with_provides(o7);
    let o9 = with_no_index(o8);
    assert(keeps(m, o0, r));
    assert(keeps(o0, o1, r));
    assert(keeps(o1, o2, r));
    assert(keeps(o2, o3, r));
    assert(keeps(o3, o4, r));
    assert(keeps(o4, o5, r));
    assert(keeps(o5, o6, r));
    assert(keeps(o6, o7, r));
    assert(keeps(o7, o8, r));
    assert(keeps(o8, o9, r));
    let o10 = with_resources(o9);
    let o11 = with_dynamic_config(o10);
    let n = with_release_status(o11);
    assert(normalized(m) == n);
    let rm = m[r]->Object_0;
    assert(o9[r] == JsonView::Object(rm));
    assert(o10[r] == JsonView::Object(resources_of(rm)));
}

/// Custom (`x_*` or capitalised) keys of `resources` are kept verbatim in
/// [`Resources::custom`](crate::Resources).
pub proof fn law_unknown_resources_kept(v: JsonView, k: Seq<char>)
    requires
        v is Object,
        v->Object_0.contains_key("resources"@),
        v->Object_0["resources"@] is Object,
        v->Object_0["resources"@]->Object_0.contains_key(k),
        !is_resource_name(k),
    ensures
        built(v) matches Ok(mv) ==> mv.resources.custom.contains_key(k)
            && mv.resources.custom[k] == v->Object_0["resources"@]->Object_0[k],
{
    let m = v->Object_0;
    let rm = m["resources"@]->Object_0;
    assert(resources_of(rm).contains_key(k));
    lemma_normalized_resources(m);
    assert(resources_of(rm)[k] == rm[k]);
}

/// A repository given as a string becomes a structured repository: the string is its
/// URL, also its web page when it is an `http://` or `https://` address, and the
/// version control system is guessed from it.
pub proof fn law_repository_string_structured(v: JsonView, s: Seq<char>)
    requires
        v is Object,
        v->Object_0.contains_key("resources"@),
        v->Object_0["resources"@] is Object,
        v->Object_0["resources"@]->Object_0.contains_key("repository"@),
        v->Object_0["resources"@]->Object_0["repository"@] == JsonView::Str(s),
    ensures
        built(v) matches Ok(mv) ==> mv.resources.repository == Some(
            RepositoryView {
                url: Some(s),
                web: if starts_with(s, "http://"@) || starts_with(s, "https://"@) {
                    Some(s)
                } else {
                    None
                },
                type_: vcs_guess(s),
            },
        ),
{
    lemma_name_shapes();
    let m = v->Object_0;
    let rm = m["resources"@]->Object_0;
    assert(resources_of(rm).contains_key("repository"@));
    lemma_normalized_resources(m);
    assert(resources_of(rm)["repository"@] == crate::convert::repository_of(JsonView::Str(s))->0);
}

/// A bug tracker given as a string becomes a structured bug tracker: an address to
/// write to when the string has an `@` and no `://`, and a web page otherwise.
pub proof fn law_bugtracker_string_structured(v: JsonView, s: Seq<char>)
    requires
        v is Object,
        v->Object_0.contains_key("resources"@),
        v->Object_0["resources"@] is Object,
        v->Object_0["resources"@]->Object_0.contains_key("bugtracker"@),
        v->Object_0["resources"@]->Object_0["bugtracker"@] == JsonView::Str(s),
    ensures
        built(v) matches Ok(mv) ==> mv.resources.bugtracker == Some(
            if s.contains('@') && !contains_seq(s, "://"@) {
                BugtrackerView { web: None, mailto: Some(s) }
            } else {
                BugtrackerView { web: Some(s), mailto: None }
            },
        ),
{
    lemma_name_shapes();
    let m = v->Object_0;
    let rm = m["resources"@]->Object_0;
    assert(resources_of(rm).contains_key("bugtracker"@));
    lemma_normalized_resources(m);
    assert(resources_of(rm)["bugtracker"@] == crate::convert::bugtracker_of(JsonView::Str(s))->0);
}

/// The `license` comes out as the document's license value read as a list of texts
/// (a single scalar is a list of one), each normalised to a spec version 2
/// identifier.
pub proof fn law_license_list(v: JsonView)
    requires
        v is Object,
    ensures
        built(v) matches Ok(mv) ==> mv.license == match field(v->Object_0, "license"@) {
            Some(x) => license_tokens(string_list(x)),
            None => Seq::<Seq<char>>::empty(),
        },
        built(v) matches Ok(mv) ==> (v->Object_0.get("license"@) matches Some(JsonView::Str(s))
            ==> mv.license == seq![license_token(s)]),
{
    lemma_literals_distinct();
    lemma_name_shapes();
    let m = v->Object_0;
    let k = "license"@;
    lemma_normalized_steps(m);
    let o0 = m.remove("distribution_type"@).remove("license_uri"@);
    let o1 = with_meta_spec(o0);
    let o2 = with_scalars(o1);
    let o3 = with_author(o2);
    let o4 = with_license(o3);
    assert(keeps(m, o0, k));
    assert(keeps(o0, o1, k));
    assert(keeps(o1, o2, k));
    assert(keeps(o2, o3, k));
    lemma_after_license_keeps(o4, k);
    if m.contains_key(k) {
        let l = license_tokens(string_list(m[k]));
        lemma_str_items_of_array(l);
        if l.len() == 0 {
            assert(!o4.contains_key(k));
        } else {
            assert(o4[k] == str_array(l));
        }
        if let JsonView::Str(s) = m[k] {
            assert(string_list(m[k]) == seq![s]);
            assert(l =~= seq![license_token(s)]);
        }
    } else {
        assert(!o4.contains_key(k));
    }
}

/// Read as `no_index`: the normalised lists of an object, or nothing.
pub open spec fn no_index_read(x: JsonView) -> NoIndexView {
    no_index_of_value(
        match x {
            JsonView::Object(y) => if has_entries(no_index_of(y)) {
                Some(JsonView::Object(no_index_of(y)))
            } else {
                None
            },
            _ => None,
        },
    )
}

/// The keys `no_index` and `private` are none of those that the steps before
/// `no_index` is normalised write, and `no_index` none of those that the steps after
/// write.
proof fn lemma_no_index_keys_untouched(k: Seq<char>)
    requires
        k == "no_index"@ || k == "private"@,
    ensures
        k != "distribution_type"@,
        k != "license_uri"@,
        k != "meta-spec"@,
        k != "meta_spec"@,
        !is_scalar_field(k),
        k != "author"@,
        k != "authors"@,
        k != "license"@,
        k != "keywords"@,
        !crate::convert::prereq_keys().contains(k),
        k != "optional_features"@,
        k != "provides"@,
        "no_index"@ != "resources"@,
        "no_index"@ != "dynamic_config"@,
        "no_index"@ != "release_status"@,
        "no_index"@ != "private"@,
{
    lemma_name_shapes();
}

/// The older `private` field is read exactly as `no_index` is: the metadata's
/// `no_index` is what the `no_index` field gives, or, when the document has none,
/// what `private` gives.
pub proof fn law_private_read_as_no_index(v: JsonView, k: Seq<char>)
    requires
        v is Object,
        k == "no_index"@ || k == "private"@,
        v->Object_0.contains_key(k),
        k == "private"@ ==> !v->Object_0.contains_key("no_index"@),
    ensures
        built(v) matches Ok(mv) ==> mv.no_index == no_index_read(v->Object_0[k]),
{
    let m = v->Object_0;
    let ni = "no_index"@;
    lemma_no_index_keys_untouched(k);
    lemma_no_index_keys_untouched(ni);
    lemma_normalized_steps(m);
    let o0 = m.remove("distribution_type"@).remove("license_uri"@);
    let o1 = with_meta_spec(o0);
    let o2 = with_scalars(o1);
    let o3 = with_author(o2);
    let o4 = with_license(o3);
    let o5 = with_keywords(o4);
    let o6 = with_prereqs(o5);
    let o7 = with_features(o6);
    let o8 = with_provides(o7);
    assert(keeps(m, o0, k) && keeps(m, o0, ni));
    assert(keeps(o0, o1, k) && keeps(o0, o1, ni));
    assert(keeps(o1, o2, k) && keeps(o1, o2, ni));
    assert(keeps(o2, o3, k) && keeps(o2, o3, ni));
    assert(keeps(o3, o4, k) && keeps(o3, o4, ni));
    assert(keeps(o4, o5, k) && keeps(o4, o5, ni));
    assert(keeps(o5, o6, k) && keeps(o5, o6, ni));
    assert(keeps(o6, o7, k) && keeps(o6, o7, ni));
    assert(keeps(o7, o8, k) && keeps(o7, o8, ni));
    let o9 = with_no_index(o8);
    let o10 = with_resources(o9);
    let o11 = with_dynamic_config(o10);
    let n = with_release_status(o11);
    assert(keeps(o9, o10, ni));
    assert(keeps(o10, o11, ni));
    assert(keeps(o11, n, ni));
    assert(normalized(m) == n);
    assert(field(n, ni) == field(o9, ni));
}

proof fn lemma_split_concat(a: Seq<char>, b: Seq<char>, sep: char)
    ensures
        split_on(a + seq![sep] + b, sep) == split_on(a, sep) + split_on(b, sep),
    decreases b.len(),
{
    let s = a + seq![sep] + b;
    if b.len() == 0 {
        assert(s.drop_last() == a);
        assert(split_on(b, sep) == seq![Seq::<char>::empty()]);
    } else {
        lemma_split_concat(a, b.drop_last(), sep);
        assert(s.drop_last() == a + seq![sep] + b.drop_last());
        assert(s.last() == b.last());
        let x = split_on(a, sep);
        let y = split_on(b.drop_last(), sep);
        assert(y.len() > 0) by {
            lemma_split_nonempty(b.drop_last(), sep);
        }
        if b.last() == sep {
            assert(split_on(s, sep) =~= x + y.push(Seq::empty()));
            assert((x + y).push(Seq::<char>::empty()) =~= x + y.push(Seq::empty()));
        } else {
            assert((x + y).drop_last() =~= x + y.drop_last());
            assert((x + y).last() == y.last());
            assert(split_on(s, sep) =~= x + y.drop_last().push(y.last().push(b.last())));
        }
    }
}

proof fn lemma_split_nonempty(s: Seq<char>, sep: char)
    ensures
        split_on(s, sep).len() > 0,
    decreases s.len(),
{
    if s.len() > 0 {
        lemma_split_nonempty(s.drop_last(), sep);
    }
}

proof fn lemma_clauses_concat(x: Seq<Seq<char>>, y: Seq<Seq<char>>)
    ensures
        clauses_meaning(x + y) == clauses_meaning(x) + clauses_meaning(y),
    decreases y.len(),
{
    if y.len() == 0 {
        assert(x + y == x);
        assert(clauses_meaning(x) + clauses_meaning(y) == clauses_meaning(x));
    } else {
        lemma_clauses_concat(x, y.drop_last());
        assert((x + y).drop_last() == x + y.drop_last());
        assert((x + y).last() == y.last());
        match clause_meaning(y.last()) {
            Some(c) => {
                assert(clauses_meaning(x + y) =~= clauses_meaning(x) + clauses_meaning(y));
            },
            None => {},
        }
    }
}

/// The clauses of a range separated by a comma all hold together: the constraints of
/// `a,b` are those of `a` followed by those of `b`.
pub proof fn law_range_clauses_combine(a: Seq<char>, b: Seq<char>)
    ensures
        range_meaning(a + seq![','] + b) == range_meaning(a) + range_meaning(b),
{
    lemma_split_concat(a, b, ',');
    lemma_clauses_concat(split_on(a, ','), split_on(b, ','));
}

/// The phase `ph` of `q` is absent or an object without relationship `rel`.
spec fn no_relation_yet(q: Obj, ph: Seq<char>, rel: Seq<char>) -> bool {
    q.contains_key(ph) ==> (q[ph] is Object && !q[ph]->Object_0.contains_key(rel))
}

/// `q` lists `module` at `d` under phase `ph` and relationship `rel`.
spec fn lists_module(q: Obj, ph: Seq<char>, rel: Seq<char>, module: Seq<char>, d: Seq<char>) -> bool {
    &&& q.contains_key(ph)
    &&& q[ph] is Object
    &&& q[ph]->Object_0.contains_key(rel)
    &&& q[ph]->Object_0[rel] is Object
    &&& q[ph]->Object_0[rel]->Object_0.contains_key(module)
    &&& q[ph]->Object_0[rel]->Object_0[module] == JsonView::Str(d)
}

/// No two legacy fields are merged at the same phase and relationship.
proof fn lemma_legacy_targets_distinct(i: int, j: int)
    requires
        0 <= i < 6,
        0 <= j < 6,
        i != j,
    ensures
        legacy_entry(i).1 != legacy_entry(j).1 || legacy_entry(i).2 != legacy_entry(j).2,
{
    lemma_name_shapes();
}

/// Merging at another phase or relationship keeps what is at `ph`/`rel`.
proof fn lemma_merge_elsewhere(
    q: Obj,
    ph: Seq<char>,
    rel: Seq<char>,
    ph2: Seq<char>,
    rel2: Seq<char>,
    v: JsonView,
    module: Seq<char>,
    d: Seq<char>,
)
    requires
        ph != ph2 || rel != rel2,
    ensures
        no_relation_yet(q, ph, rel) ==> no_relation_yet(merged_prereqs(q, ph2, rel2, v), ph, rel),
        lists_module(q, ph, rel, module, d) ==> lists_module(
            merged_prereqs(q, ph2, rel2, v),
            ph,
            rel,
            module,
            d,
        ),
{
}

/// Before legacy field `i` is merged, nothing stands at its phase and relationship.
proof fn lemma_legacy_before(src: Obj, i: int, n: nat)
    requires
        0 <= n <= i < 6,
    ensures
        no_relation_yet(
            legacy_merged(Map::empty(), src, n),
            legacy_entry(i).1,
            legacy_entry(i).2,
        ),
    decreases n,
{
    if n > 0 {
        lemma_legacy_before(src, i, (n - 1) as nat);
        lemma_legacy_targets_distinct(i, n - 1);
        let e = legacy_entry(n - 1);
        match field(src, e.0) {
            Some(v) => lemma_merge_elsewhere(
                legacy_merged(Map::empty(), src, (n - 1) as nat),
                legacy_entry(i).1,
                legacy_entry(i).2,
                e.1,
                e.2,
                v,
                Seq::empty(),
                Seq::empty(),
            ),
            None => {},
        }
    }
}

/// Once legacy field `i` is merged, each of its modules stands at its phase and
/// relationship with its version text.
proof fn lemma_legacy_after(src: Obj, i: int, n: nat, module: Seq<char>)
    requires
        0 <= i < n <= 6,
        src.contains_key(legacy_entry(i).0),
        src[legacy_entry(i).0] is Object,
        src[legacy_entry(i).0]->Object_0.contains_key(module),
    ensures
        lists_module(
            legacy_merged(Map::empty(), src, n),
            legacy_entry(i).1,
            legacy_entry(i).2,
            module,
            dep_map(src[legacy_entry(i).0])[module],
        ),
    decreases n,
{
    let e = legacy_entry(i);
    let deps = dep_map(src[e.0]);
    if n == i + 1 {
        lemma_legacy_before(src, i, i as nat);
        assert(deps.contains_key(module));
    } else {
        lemma_legacy_after(src, i, (n - 1) as nat, module);
        lemma_legacy_targets_distinct(i, n - 1);
        let e2 = legacy_entry(n - 1);
        match field(src, e2.0) {
            Some(v) => lemma_merge_elsewhere(
                legacy_merged(Map::empty(), src, (n - 1) as nat),
                e.1,
                e.2,
                e2.1,
                e2.2,
                v,
                module,
                deps[module],
            ),
            None => {},
        }
    }
}

/// The keys that prerequisites are read from are none of those that the steps
/// before prerequisites are normalised write, and `prereqs` is none of those that
/// the steps after write.
proof fn lemma_prereq_keys_untouched(k: Seq<char>)
    requires
        crate::convert::prereq_keys().contains(k),
    ensures
        k != "distribution_type"@,
        k != "license_uri"@,
        k != "meta-spec"@,
        k != "meta_spec"@,
        !is_scalar_field(k),
        k != "author"@,
        k != "authors"@,
        k != "license"@,
        k != "keywords"@,
        k == "prereqs"@ ==> ({
            &&& k != "optional_features"@
            &&& k != "provides"@
            &&& k != "no_index"@
            &&& k != "private"@
            &&& k != "resources"@
            &&& k != "dynamic_config"@
            &&& k != "release_status"@
        }),
{
    lemma_name_shapes();
}

/// The legacy dependency fields of a document without `prereqs` are upgraded: each
/// module of `configure_requires`, `build_requires`, `test_requires`, `requires`,
/// `recommends` or `conflicts` is listed, with its version text (`0` when it has
/// none), under the phase and relationship that the field stands for (`configure`,
/// `build` and `test` requirements; `runtime` requirements, recommendations and
/// conflicts).
pub proof fn law_legacy_prereqs_upgraded(v: JsonView, i: int, module: Seq<char>)
    requires
        0 <= i < 6,
        v is Object,
        !v->Object_0.contains_key("prereqs"@),
        v->Object_0.contains_key(legacy_entry(i).0),
        v->Object_0[legacy_entry(i).0] is Object,
        v->Object_0[legacy_entry(i).0]->Object_0.contains_key(module),
    ensures
        built(v) matches Ok(mv) ==> ({
            &&& phase_named(mv.prereqs, legacy_entry(i).1) matches Some(ph)
            &&& relation_named(ph, legacy_entry(i).2) matches Some(deps)
            &&& deps.contains_key(module)
            &&& deps[module] == dep_map(v->Object_0[legacy_entry(i).0])[module]
        }),
{
    let m = v->Object_0;
    let e = legacy_entry(i);
    let k = e.0;
    let pk = "prereqs"@;
    assert(crate::convert::prereq_keys().contains(k));
    assert(crate::convert::prereq_keys().contains(pk));
    lemma_prereq_keys_untouched(k);
    lemma_prereq_keys_untouched(pk);
    lemma_normalized_steps(m);
    let o0 = m.remove("distribution_type"@).remove("license_uri"@);
    let o1 = with_meta_spec(o0);
    let o2 = with_scalars(o1);
    let o3 = with_author(o2);
    let o4 = with_license(o3);
    let o5 = with_keywords(o4);
    assert(keeps(m, o0, k) && keeps(m, o0, pk));
    assert(keeps(o0, o1, k) && keeps(o0, o1, pk));
    assert(keeps(o1, o2, k) && keeps(o1, o2, pk));
    assert(keeps(o2, o3, k) && keeps(o2, o3, pk));
    assert(keeps(o3, o4, k) && keeps(o3, o4, pk));
    assert(keeps(o4, o5, k) && keeps(o4, o5, pk));
    let d = dep_map(m[k])[module];
    let merged = legacy_merged(Map::empty(), o5, legacy_count());
    assert(object_or_empty(field(o5, pk)) == Map::<Seq<char>, JsonView>::empty());
    lemma_legacy_after(o5, i, legacy_count(), module);
    assert(lists_module(merged, e.1, e.2, module, d));
    let pm = merged[e.1]->Object_0;
    let rm = pm[e.2]->Object_0;
    let p = prereqs_of(o5);
    assert(clean_relation(rm).contains_key(module));
    assert(kept_relation(pm[e.2]) == Some(JsonView::Object(clean_relation(rm))));
    assert(clean_phase(pm).contains_key(e.2));
    assert(kept_phase(merged[e.1]) == Some(JsonView::Object(clean_phase(pm))));
    assert(p.contains_key(e.1));
    assert(has_entries(p));
    let o6 = with_prereqs(o5);
    assert(o6[pk] == JsonView::Object(p));
    let o7 = with_features(o6);
    let o8 = with_provides(o7);
    let o9 = with_no_index(o8);
    let o10 = with_resources(o9);
    let o11 = with_dynamic_config(o10);
    let n = with_release_status(o11);
    assert(keeps(o6, o7, pk));
    assert(keeps(o7, o8, pk));
    assert(keeps(o8, o9, pk));
    assert(keeps(o9, o10, pk));
    assert(keeps(o10, o11, pk));
    assert(keeps(o11, n, pk));
    assert(normalized(m) == n);
    assert(n[pk] == JsonView::Object(p));
    lemma_name_shapes();
    let cp = clean_phase(pm);
    assert(p[e.1] == JsonView::Object(cp));
    assert(cp[e.2] == JsonView::Object(clean_relation(rm)));
    assert(clean_relation(rm)[module] == JsonView::Str(d));
}

/// The normalisation steps up to and including `resources`.
spec fn until_resources(m: Obj) -> Obj {
    with_resources(
        with_no_index(
            with_provides(
                with_features(
                    with_prereqs(
                        with_keywords(
                            with_license(
                                with_author(
                                    with_scalars(
                                        with_meta_spec(
                                            m.remove("distribution_type"@).remove("license_uri"@),
                                        ),
                                    ),
                                ),
                            ),
                        ),
                    ),
                ),
            ),
        ),
    )
}

/// The steps up to `resources` leave every key that none of them writes as it is.
proof fn lemma_until_resources_keeps(m: Obj, k: Seq<char>)
    requires
        resources_untouched_before(k),
        k != "resources"@,
    ensures
        keeps(m, until_resources(m), k),
        normalized(m) == with_release_status(with_dynamic_config(until_resources(m))),
{
    lemma_normalized_steps(m);
    let o0 = m.remove("distribution_type"@).remove("license_uri"@);
    let o1 = with_meta_spec(o0);
    let o2 = with_scalars(o1);
    let o3 = with_author(o2);
    let o4 = with_license(o3);
    let o5 = with_keywords(o4);
    let o6 = with_prereqs(o5);
    let o7 = with_features(o6);
    let o8 = with_provides(o7);
    let o9 = with_no_index(o8);
    assert(keeps(m, o0, k));
    assert(keeps(o0, o1, k));
    assert(keeps(o1, o2, k));
    assert(keeps(o2, o3, k));
    assert(keeps(o3, o4, k));
    assert(keeps(o4, o5, k));
    assert(keeps(o5, o6, k));
    assert(keeps(o6, o7, k));
    assert(keeps(o7, o8, k));
    assert(keeps(o8, o9, k));
    assert(keeps(o9, with_resources(o9), k));
}

/// `dynamic_config` is none of the keys that the steps before it write.
proof fn lemma_dynamic_config_untouched()
    ensures
        resources_untouched_before("dynamic_config"@),
        "dynamic_config"@ != "resources"@,
        "dynamic_config"@ != "release_status"@,
{
    lemma_name_shapes();
}

/// `dynamic_config` comes out as the document's own value read as a boolean (see
/// [`dynamic_config_of`](crate::convert::dynamic_config_of)); it is `true` when the
/// document has none.
pub proof fn law_dynamic_config_read(v: JsonView)
    requires
        v is Object,
    ensures
        built(v) matches Ok(mv) ==> mv.dynamic_config == dynamic_config_of(v->Object_0),
        built(v) matches Ok(mv) ==> (!v->Object_0.contains_key("dynamic_config"@)
            ==> mv.dynamic_config),
{
    let m = v->Object_0;
    let k = "dynamic_config"@;
    lemma_dynamic_config_untouched();
    lemma_until_resources_keeps(m, k);
    let u = until_resources(m);
    assert(field(u, k) == field(m, k));
    assert(dynamic_config_of(u) == dynamic_config_of(m));
    let o = with_dynamic_config(u);
    assert(o[k] == JsonView::Bool(dynamic_config_of(m)));
    assert(with_release_status(o)[k] == o[k]);
}

/// `version` comes out as the text of the document's version when that is a scalar,
/// and as `0` otherwise.
pub proof fn law_version_text(v: JsonView)
    requires
        v is Object,
    ensures
        built(v) matches Ok(mv) ==> mv.version == match field(v->Object_0, "version"@) {
            Some(x) => match scalar_text(x) {
                Some(t) => t,
                None => "0"@,
            },
            None => "0"@,
        },
{
    let m = v->Object_0;
    let k = "version"@;
    lemma_literals_distinct();
    lemma_normalized_steps(m);
    let o0 = m.remove("distribution_type"@).remove("license_uri"@);
    let o1 = with_meta_spec(o0);
    let o2 = with_scalars(o1);
    assert(keeps(m, o0, k));
    assert(keeps(o0, o1, k));
    lemma_after_scalars_keeps(o2, k);
    reveal_strlit("0");
    assert(is_scalar_field(k));
}

/// The `author` comes out as the document's `author` read as a list of texts (a
/// single scalar is a list of one), or, when it has none, its older `authors`.
pub proof fn law_author_list(v: JsonView)
    requires
        v is Object,
    ensures
        built(v) matches Ok(mv) ==> mv.author == match (
            if v->Object_0.contains_key("author"@) {
                field(v->Object_0, "author"@)
            } else {
                field(v->Object_0, "authors"@)
            }
        ) {
            Some(x) => string_list(x),
            None => Seq::<Seq<char>>::empty(),
        },
{
    lemma_name_shapes();
    let m = v->Object_0;
    let k = "author"@;
    let k2 = "authors"@;
    lemma_normalized_steps(m);
    let o0 = m.remove("distribution_type"@).remove("license_uri"@);
    let o1 = with_meta_spec(o0);
    let o2 = with_scalars(o1);
    let o3 = with_author(o2);
    let o4 = with_license(o3);
    assert(keeps(m, o0, k) && keeps(m, o0, k2));
    assert(keeps(o0, o1, k) && keeps(o0, o1, k2));
    assert(keeps(o1, o2, k) && keeps(o1, o2, k2));
    assert(keeps(o3, o4, k));
    assert(!written_after_license(k));
    lemma_after_license_keeps(o4, k);
    let src = if m.contains_key(k) {
        field(m, k)
    } else {
        field(m, k2)
    };
    match src {
        Some(x) => {
            let l = string_list(x);
            lemma_str_items_of_array(l);
            if l.len() > 0 {
                assert(o3[k] == str_array(l));
            } else {
                assert(!o3.contains_key(k));
            }
        },
        None => {
            assert(!o3.contains_key(k));
        },
    }
}

/// A single character other than `.` splits into itself.
proof fn lemma_split_single(a: Seq<char>)
    requires
        a.len() == 1,
        a[0] != '.',
    ensures
        split_on(a, '.') == seq![a],
{
    let e = Seq::<char>::empty();
    assert(a.drop_last() =~= e);
    assert(split_on(e, '.') == seq![e]);
    assert(a.last() == a[0]);
    let rest = split_on(a.drop_last(), '.');
    assert(rest.drop_last() =~= Seq::<Seq<char>>::empty());
    assert(rest.last().push(a.last()) =~= a);
    assert(split_on(a, '.') =~= seq![a]);
}

/// A `1.x` revision written as its major digit, a dot and its minor digit reads back
/// as that revision.
proof fn lemma_minor_text_reads(s: Seq<char>, minor: char)
    requires
        s =~= seq!['1', '.', minor],
        '0' <= minor <= '4',
    ensures
        version_of_text(s) == (if minor == '0' {
            SpecVersionView::V1_0
        } else if minor == '1' {
            SpecVersionView::V1_1
        } else if minor == '2' {
            SpecVersionView::V1_2
        } else if minor == '3' {
            SpecVersionView::V1_3
        } else {
            SpecVersionView::V1_4
        }),
{
    reveal_strlit("0");
    reveal_strlit("1");
    reveal_strlit("2");
    reveal_strlit("3");
    reveal_strlit("4");
    lemma_trim_fixed(s);
    assert(trim_start_char(s, 'v') == s);
    let a = seq!['1'];
    let b = seq!['1', '.'];
    lemma_split_single(a);
    assert(b.drop_last() =~= a);
    assert(split_on(b, '.') =~= seq![a, Seq::<char>::empty()]);
    assert(s.drop_last() =~= b);
    assert(split_on(s, '.') =~= seq![a, seq![minor]]);
    assert(trim(s) == s);
    assert("1"@ =~= a);
    let m = seq![minor];
    assert("0"@ =~= seq!['0'] && "1"@ =~= seq!['1'] && "2"@ =~= seq!['2'] && "3"@ =~= seq!['3']
        && "4"@ =~= seq!['4']);
    assert(m == "0"@ <==> minor == '0') by {
        if m == "0"@ {
            assert(m[0] == "0"@[0]);
        }
    }
    assert(m == "1"@ <==> minor == '1') by {
        if m == "1"@ {
            assert(m[0] == "1"@[0]);
        }
    }
    assert(m == "2"@ <==> minor == '2') by {
        if m == "2"@ {
            assert(m[0] == "2"@[0]);
        }
    }
    assert(m == "3"@ <==> minor == '3') by {
        if m == "3"@ {
            assert(m[0] == "3"@[0]);
        }
    }
}

/// Each known spec version reads back from its text.
pub proof fn law_known_spec_versions_read_back(v: SpecVersionView)
    requires
        !(v is Other),
    ensures
        version_of_text(spec_version_text(v)) == v,
{
    reveal_strlit("1.0");
    reveal_strlit("1.1");
    reveal_strlit("1.2");
    reveal_strlit("1.3");
    reveal_strlit("1.4");
    reveal_strlit("2");
    reveal_strlit("1");
    reveal_strlit("0");
    match v {
        SpecVersionView::V1_0 => lemma_minor_text_reads("1.0"@, '0'),
        SpecVersionView::V1_1 => lemma_minor_text_reads("1.1"@, '1'),
        SpecVersionView::V1_2 => lemma_minor_text_reads("1.2"@, '2'),
        SpecVersionView::V1_3 => lemma_minor_text_reads("1.3"@, '3'),
        SpecVersionView::V1_4 => lemma_minor_text_reads("1.4"@, '4'),
        SpecVersionView::V2 => {
            let s = "2"@;
            lemma_trim_fixed(s);
            assert(trim_start_char(s, 'v') == s);
            assert(s =~= seq!['2']);
            lemma_split_single(s);
        },
        _ => {},
    }
}

/// A spec version read from a text reads the same again from its own text; a version
/// that is none of the known ones keeps the text trimmed.
pub proof fn law_spec_version_text_round_trip(s: Seq<char>)
    ensures
        version_of_text(spec_version_text(version_of_text(s))) == version_of_text(s),
        version_of_text(s) matches SpecVersionView::Other(t) ==> t == trim(s),
{
    match version_of_text(s) {
        SpecVersionView::Other(t) => {
            crate::text::lemma_trim_shape(s);
            assert(trim(t) == t);
        },
        v => law_known_spec_versions_read_back(v),
    }
}

/// A constraint as the range language gives it: its version is not empty, has no
/// white space at either end, and holds no comma.
pub open spec fn well_formed_constraint(c: (Op, Seq<char>)) -> bool {
    &&& c.1.len() > 0
    &&& trim(c.1) == c.1
    &&& !c.1.contains(',')
}

/// A piece of a text without `ch` holds no `ch` either.
proof fn lemma_piece_lacks(p: Seq<char>, a: int, b: int, ch: char)
    requires
        !p.contains(ch),
        0 <= a <= b <= p.len(),
    ensures
        !p.subrange(a, b).contains(ch),
{
    if p.subrange(a, b).contains(ch) {
        let i = choose|i: int| 0 <= i < b - a && p.subrange(a, b)[i] == ch;
        assert(p[a + i] == ch);
    }
}

/// Trimming a text without `ch` leaves a text without `ch`.
proof fn lemma_trim_lacks(p: Seq<char>, ch: char)
    requires
        !p.contains(ch),
    ensures
        !trim(p).contains(ch),
{
    crate::text::lemma_trim_shape(p);
    let a = choose|a: int| 0 <= a && a + trim(p).len() <= p.len() && #[trigger] p.subrange(
        a,
        a + trim(p).len(),
    ) == trim(p);
    lemma_piece_lacks(p, a, a + trim(p).len(), ch);
}

/// The pieces of a split hold no separator.
proof fn lemma_split_pieces_lack(s: Seq<char>, sep: char)
    ensures
        forall|j: int| 0 <= j < split_on(s, sep).len() ==> !(#[trigger] split_on(s, sep)[j]).contains(
            sep,
        ),
    decreases s.len(),
{
    if s.len() > 0 {
        lemma_split_pieces_lack(s.drop_last(), sep);
        lemma_split_nonempty(s.drop_last(), sep);
        let rest = split_on(s.drop_last(), sep);
        if s.last() != sep {
            let l = rest.last().push(s.last());
            assert(!rest[rest.len() - 1].contains(sep));
            assert(!l.contains(sep)) by {
                if l.contains(sep) {
                    let i = choose|i: int| 0 <= i < l.len() && l[i] == sep;
                    if i < l.len() - 1 {
                        assert(rest.last()[i] == sep);
                    }
                }
            }
            let r = rest.drop_last().push(l);
            assert forall|j: int| 0 <= j < r.len() implies !(#[trigger] r[j]).contains(sep) by {
                if j < r.len() - 1 {
                    assert(r[j] == rest[j]);
                }
            }
        } else {
            let e = Seq::<char>::empty();
            assert(!e.contains(sep));
            let r = rest.push(e);
            assert forall|j: int| 0 <= j < r.len() implies !(#[trigger] r[j]).contains(sep) by {
                if j < r.len() - 1 {
                    assert(r[j] == rest[j]);
                }
            }
        }
    }
}

/// What follows the first `k` characters of a comma-free text, trimmed, holds no
/// comma and is its own trim.
proof fn lemma_rest_trimmed(t: Seq<char>, k: int)
    requires
        !t.contains(','),
        0 <= k <= t.len(),
    ensures
        !trim(t.skip(k)).contains(','),
        trim(trim(t.skip(k))) == trim(t.skip(k)),
{
    assert(t.skip(k) == t.subrange(k, t.len() as int));
    lemma_piece_lacks(t, k, t.len() as int, ',');
    lemma_trim_lacks(t.skip(k), ',');
    crate::text::lemma_trim_shape(t.skip(k));
}

/// What a clause without a comma states is a well-formed constraint.
proof fn lemma_clause_well_formed(p: Seq<char>)
    requires
        !p.contains(','),
    ensures
        clause_meaning(p) matches Some(c) ==> well_formed_constraint(c),
{
    reveal_strlit("<=");
    reveal_strlit(">=");
    reveal_strlit("==");
    reveal_strlit("!=");
    reveal_strlit("<");
    reveal_strlit(">");
    let t = trim(p);
    lemma_trim_lacks(p, ',');
    crate::text::lemma_trim_shape(p);
    if t.len() == 0 {
    } else if starts_with(t, "<="@) || starts_with(t, ">="@) || starts_with(t, "=="@)
        || starts_with(t, "!="@) {
        lemma_rest_trimmed(t, 2);
    } else if starts_with(t, "<"@) || starts_with(t, ">"@) {
        lemma_rest_trimmed(t, 1);
    }
}

/// What a list of comma-free clauses states is a list of well-formed constraints.
proof fn lemma_clauses_well_formed(cs: Seq<Seq<char>>)
    requires
        forall|j: int| 0 <= j < cs.len() ==> !(#[trigger] cs[j]).contains(','),
    ensures
        forall|i: int| 0 <= i < clauses_meaning(cs).len() ==> well_formed_constraint(
            #[trigger] clauses_meaning(cs)[i],
        ),
    decreases cs.len(),
{
    if cs.len() > 0 {
        let t = cs.drop_last();
        assert forall|j: int| 0 <= j < t.len() implies !(#[trigger] t[j]).contains(',') by {
            assert(t[j] == cs[j]);
        }
        lemma_clauses_well_formed(t);
        assert(!cs[cs.len() - 1].contains(','));
        lemma_clause_well_formed(cs.last());
        let prior = clauses_meaning(t);
        let r = clauses_meaning(cs);
        assert forall|i: int| 0 <= i < r.len() implies well_formed_constraint(#[trigger] r[i]) by {
            if i < prior.len() {
                assert(r[i] == prior[i]);
            }
        }
    }
}

/// Whether a text starts with a two-character operator, by its characters.
proof fn lemma_starts_with_two(x: Seq<char>, p: Seq<char>)
    requires
        p.len() == 2,
        x.len() >= 2,
    ensures
        starts_with(x, p) <==> (x[0] == p[0] && x[1] == p[1]),
{
    if x[0] == p[0] && x[1] == p[1] {
        assert(x.take(2) =~= p);
    }
    if starts_with(x, p) {
        assert(x.take(2)[0] == x[0] && x.take(2)[1] == x[1]);
    }
}

/// Whether a text starts with a one-character operator, by its first character.
proof fn lemma_starts_with_one(x: Seq<char>, p: Seq<char>)
    requires
        p.len() == 1,
        x.len() >= 1,
    ensures
        starts_with(x, p) <==> x[0] == p[0],
{
    if x[0] == p[0] {
        assert(x.take(1) =~= p);
    }
    if starts_with(x, p) {
        assert(x.take(1)[0] == x[0]);
    }
}

/// After an operator and a space, a trimmed version reads back as itself.
proof fn lemma_version_after_space(o: Seq<char>, v: Seq<char>)
    requires
        v.len() > 0,
        trim(v) == v,
    ensures
        trim((o + " "@ + v).skip(o.len() as int)) == v,
{
    reveal_strlit(" ");
    crate::text::lemma_trim_shape(v);
    let r = seq![' '] + v;
    assert((o + " "@ + v).skip(o.len() as int) =~= r);
    assert(r.drop_first() =~= v);
    assert(r[0] == ' ');
    assert(is_white(r[0]));
    assert(crate::text::trim_start(r) == crate::text::trim_start(v));
    assert(crate::text::trim_start(v) == v);
}

/// Two texts without `ch` make a text without `ch`.
proof fn lemma_concat_lacks(a: Seq<char>, b: Seq<char>, ch: char)
    requires
        !a.contains(ch),
        !b.contains(ch),
    ensures
        !(a + b).contains(ch),
{
    if (a + b).contains(ch) {
        let i = choose|i: int| 0 <= i < (a + b).len() && (a + b)[i] == ch;
        if i < a.len() {
            assert(a[i] == ch);
        } else {
            assert(b[i - a.len()] == ch);
        }
    }
}

/// A trimmed text that starts with an operator's symbol and then a space, whose
/// version after the operator trims to `v`, means the operator with `v`.
proof fn lemma_operator_clause(op: Op, x: Seq<char>, v: Seq<char>)
    requires
        x.len() >= op_symbol(op).len() + 2,
        x.take(op_symbol(op).len() as int) == op_symbol(op),
        x[op_symbol(op).len() as int] == ' ',
        trim(x) == x,
        trim(x.skip(op_symbol(op).len() as int)) == v,
        v.len() > 0,
    ensures
        clause_meaning(x) == Some((op, v)),
{
    reveal_strlit("<=");
    reveal_strlit(">=");
    reveal_strlit("==");
    reveal_strlit("!=");
    reveal_strlit("<");
    reveal_strlit(">");
    let o = op_symbol(op);
    assert(x[0] == o[0]) by {
        assert(x.take(o.len() as int)[0] == x[0]);
    }
    if o.len() == 2 {
        assert(x[1] == o[1]) by {
            assert(x.take(2)[1] == x[1]);
        }
    }
    lemma_starts_with_two(x, "<="@);
    lemma_starts_with_two(x, ">="@);
    lemma_starts_with_two(x, "=="@);
    lemma_starts_with_two(x, "!="@);
    lemma_starts_with_one(x, "<"@);
    lemma_starts_with_one(x, ">"@);
}

/// The text of a constraint whose version has no comma has no comma.
proof fn lemma_constraint_text_lacks_comma(op: Op, v: Seq<char>)
    requires
        !v.contains(','),
    ensures
        !(op_symbol(op) + " "@ + v).contains(','),
{
    reveal_strlit("<=");
    reveal_strlit(">=");
    reveal_strlit("==");
    reveal_strlit("!=");
    reveal_strlit("<");
    reveal_strlit(">");
    reveal_strlit(" ");
    let o = op_symbol(op);
    assert(!o.contains(',')) by {
        if o.contains(',') {
            let i = choose|i: int| 0 <= i < o.len() && o[i] == ',';
        }
    }
    assert(!" "@.contains(',')) by {
        if " "@.contains(',') {
            let i = choose|i: int| 0 <= i < " "@.len() && " "@[i] == ',';
        }
    }
    lemma_concat_lacks(o, " "@, ',');
    lemma_concat_lacks(o + " "@, v, ',');
}

/// An operator's symbol is one or two characters and starts with no white space.
proof fn lemma_op_symbol_shape(op: Op)
    ensures
        1 <= op_symbol(op).len() <= 2,
        !is_white(op_symbol(op)[0]),
{
    reveal_strlit("<=");
    reveal_strlit(">=");
    reveal_strlit("==");
    reveal_strlit("!=");
    reveal_strlit("<");
    reveal_strlit(">");
    match op {
        Op::Less => assert(op_symbol(op)[0] == '<'),
        Op::LessEqual => assert(op_symbol(op)[0] == '<'),
        Op::Greater => assert(op_symbol(op)[0] == '>'),
        Op::GreaterEqual => assert(op_symbol(op)[0] == '>'),
        Op::Equal => assert(op_symbol(op)[0] == '='),
        Op::NotEqual => assert(op_symbol(op)[0] == '!'),
    }
}

/// A text that starts with no white space, then a space, then a trimmed non-empty
/// version, is its own trim, and starts with its first part and the space.
proof fn lemma_constraint_text_trimmed(o: Seq<char>, v: Seq<char>)
    requires
        o.len() >= 1,
        !is_white(o[0]),
        v.len() > 0,
        trim(v) == v,
    ensures
        trim(o + " "@ + v) == o + " "@ + v,
        (o + " "@ + v).take(o.len() as int) == o,
        (o + " "@ + v)[o.len() as int] == ' ',
        (o + " "@ + v).len() >= o.len() + 2,
{
    reveal_strlit(" ");
    let x = o + " "@ + v;
    crate::text::lemma_trim_shape(v);
    assert(x.last() == v.last());
    assert(x[0] == o[0]);
    assert(x.take(o.len() as int) =~= o);
    lemma_trim_fixed(x);
}

/// The text of a well-formed constraint is what the clause means, and has no comma.
proof fn lemma_constraint_clause(c: (Op, Seq<char>), x: Seq<char>)
    requires
        well_formed_constraint(c),
        x == op_symbol(c.0) + " "@ + c.1,
    ensures
        clause_meaning(x) == Some(c),
        !x.contains(','),
{
    lemma_constraint_text_lacks_comma(c.0, c.1);
    lemma_op_symbol_shape(c.0);
    lemma_constraint_text_trimmed(op_symbol(c.0), c.1);
    lemma_version_after_space(op_symbol(c.0), c.1);
    lemma_operator_clause(c.0, x, c.1);
}

/// The text of a well-formed constraint (its operator, a space, its version) reads
/// back as that constraint alone.
pub proof fn law_constraint_text_reads_back(c: (Op, Seq<char>))
    requires
        well_formed_constraint(c),
    ensures
        range_meaning(op_symbol(c.0) + " "@ + c.1) == seq![c],
{
    let x = op_symbol(c.0) + " "@ + c.1;
    lemma_constraint_clause(c, x);
    lemma_split_without_separator(x, ',');
    let s = seq![x];
    assert(s.drop_last() =~= Seq::<Seq<char>>::empty());
    assert(clauses_meaning(s.drop_last()) =~= Seq::<(Op, Seq<char>)>::empty());
    assert(s.last() == x);
    assert(clauses_meaning(s) =~= seq![c]);
}

/// Every constraint that a range states is well formed: its version is not empty, is
/// trimmed and holds no comma; and the constraint's text reads back as it alone.
pub proof fn law_range_constraints_read_back(range: Seq<char>, i: int)
    requires
        0 <= i < range_meaning(range).len(),
    ensures
        well_formed_constraint(range_meaning(range)[i]),
        range_meaning(op_symbol(range_meaning(range)[i].0) + " "@ + range_meaning(range)[i].1)
            == seq![range_meaning(range)[i]],
{
    lemma_split_pieces_lack(range, ',');
    lemma_clauses_well_formed(split_on(range, ','));
    law_constraint_text_reads_back(range_meaning(range)[i]);
}

/// The strings that field `k` of an object lists: a list's scalars, or a single
/// scalar, as text; nothing when the field is absent.
pub open spec fn listed(m: Obj, k: Seq<char>) -> Seq<Seq<char>> {
    match field(m, k) {
        Some(x) => string_list(x),
        None => Seq::<Seq<char>>::empty(),
    }
}

/// The strings of a list put under a key read back as that list, whether or not it
/// was put (it is not when empty).
proof fn lemma_put_list_reads(o: Obj, k: Seq<char>, l: Seq<Seq<char>>)
    requires
        !o.contains_key(k),
    ensures
        strs_of(field(crate::convert::put_list(o, k, l), k)) == l,
{
    lemma_str_items_of_array(l);
    if l.len() == 0 {
        assert(l =~= Seq::<Seq<char>>::empty());
    }
}

/// The metadata's `no_index` lists are the document's: `file`; `directory` followed by
/// the pre-1.3 `dir`; `package` followed by the pre-1.3 `module`; and `namespace`,
/// each read as a list of strings. This holds of a `no_index` object, and of an older
/// `private` object when the document has no `no_index`.
pub proof fn law_no_index_lists(v: JsonView, k: Seq<char>)
    requires
        v is Object,
        k == "no_index"@ || k == "private"@,
        v->Object_0.contains_key(k),
        v->Object_0[k] is Object,
        k == "private"@ ==> !v->Object_0.contains_key("no_index"@),
    ensures
        built(v) matches Ok(mv) ==> ({
            let ni = v->Object_0[k]->Object_0;
            &&& mv.no_index.file == listed(ni, "file"@)
            &&& mv.no_index.directory == listed(ni, "directory"@) + listed(ni, "dir"@)
            &&& mv.no_index.package == listed(ni, "package"@) + listed(ni, "module"@)
            &&& mv.no_index.namespace == listed(ni, "namespace"@)
        }),
{
    lemma_name_shapes();
    law_private_read_as_no_index(v, k);
    let ni = v->Object_0[k]->Object_0;
    let l0 = listed(ni, "file"@);
    let l1 = listed(ni, "directory"@) + listed(ni, "dir"@);
    let l2 = listed(ni, "package"@) + listed(ni, "module"@);
    let l3 = listed(ni, "namespace"@);
    let e = Map::<Seq<char>, JsonView>::empty();
    let p0 = crate::convert::put_list(e, "file"@, l0);
    let p1 = crate::convert::put_list(p0, "directory"@, l1);
    let p2 = crate::convert::put_list(p1, "package"@, l2);
    let p3 = crate::convert::put_list(p2, "namespace"@, l3);
    assert(no_index_of(ni) == p3);
    lemma_put_list_reads(e, "file"@, l0);
    lemma_put_list_reads(p0, "directory"@, l1);
    lemma_put_list_reads(p1, "package"@, l2);
    lemma_put_list_reads(p2, "namespace"@, l3);
    assert(field(p3, "file"@) == field(p0, "file"@));
    assert(field(p3, "directory"@) == field(p1, "directory"@));
    assert(field(p3, "package"@) == field(p2, "package"@));
    if !has_entries(p3) {
        assert(!p3.contains_key("file"@) && !p3.contains_key("directory"@)
            && !p3.contains_key("package"@) && !p3.contains_key("namespace"@));
        assert(l0 =~= Seq::<Seq<char>>::empty());
        assert(l1 =~= Seq::<Seq<char>>::empty());
        assert(l2 =~= Seq::<Seq<char>>::empty());
        assert(l3 =~= Seq::<Seq<char>>::empty());
    }
}

/// `provides` is none of the keys that the steps before it write, nor of those that
/// the steps after write.
proof fn lemma_provides_untouched()
    ensures
        "provides"@ != "distribution_type"@,
        "provides"@ != "license_uri"@,
        "provides"@ != "meta-spec"@,
        "provides"@ != "meta_spec"@,
        !is_scalar_field("provides"@),
        "provides"@ != "author"@,
        "provides"@ != "authors"@,
        "provides"@ != "license"@,
        "provides"@ != "keywords"@,
        !crate::convert::prereq_keys().contains("provides"@),
        "provides"@ != "optional_features"@,
        "provides"@ != "no_index"@,
        "provides"@ != "private"@,
        "provides"@ != "resources"@,
        "provides"@ != "dynamic_config"@,
        "provides"@ != "release_status"@,
{
    lemma_name_shapes();
}

/// A document whose `provides` is an object comes out with the normalised entries.
proof fn lemma_normalized_provides(m: Obj)
    requires
        m.contains_key("provides"@),
        m["provides"@] is Object,
        has_entries(crate::convert::provides_of(m["provides"@]->Object_0)),
    ensures
        normalized(m).contains_key("provides"@),
        normalized(m)["provides"@] == JsonView::Object(
            crate::convert::provides_of(m["provides"@]->Object_0),
        ),
{
    lemma_provides_untouched();
    lemma_normalized_steps(m);
    let r = "provides"@;
    let o0 = m.remove("distribution_type"@).remove("license_uri"@);
    let o1 = with_meta_spec(o0);
    let o2 = with_scalars(o1);
    let o3 = with_author(o2);
    let o4 = with_license(o3);
    let o5 = with_keywords(o4);
    let o6 = with_prereqs(o5);
    let o7 = with_features(o6);
    assert(keeps(m, o0, r));
    assert(keeps(o0, o1, r));
    assert(keeps(o1, o2, r));
    assert(keeps(o2, o3, r));
    assert(keeps(o3, o4, r));
    assert(keeps(o4, o5, r));
    assert(keeps(o5, o6, r));
    assert(keeps(o6, o7, r));
    let o8 = with_provides(o7);
    let o9 = with_no_index(o8);
    let o10 = with_resources(o9);
    let o11 = with_dynamic_config(o10);
    let n = with_release_status(o11);
    assert(normalized(m) == n);
    assert(keeps(o8, o9, r));
    assert(keeps(o9, o10, r));
    assert(keeps(o10, o11, r));
    assert(keeps(o11, n, r));
}

/// A `provides` entry given as an object keeps its file (empty when it has none) and
/// its version, each as the text of the scalar given.
pub proof fn law_provides_object_entry(v: JsonView, pkg: Seq<char>)
    requires
        v is Object,
        v->Object_0.contains_key("provides"@),
        v->Object_0["provides"@] is Object,
        v->Object_0["provides"@]->Object_0.contains_key(pkg),
        v->Object_0["provides"@]->Object_0[pkg] is Object,
    ensures
        built(v) matches Ok(mv) ==> ({
            let e = v->Object_0["provides"@]->Object_0[pkg]->Object_0;
            &&& mv.provides.contains_key(pkg)
            &&& mv.provides[pkg].file == match field_text(e, "file"@) {
                Some(f) => f,
                None => Seq::<char>::empty(),
            }
            &&& mv.provides[pkg].version == field_text(e, "version"@)
        }),
{
    lemma_name_shapes();
    reveal_strlit("file");
    reveal_strlit("version");
    assert("file"@.len() == 4);
    let m = v->Object_0;
    let pm = m["provides"@]->Object_0;
    assert(crate::convert::provides_of(pm).contains_key(pkg));
    lemma_normalized_provides(m);
}

/// A `provides` entry given as a single scalar is the file of the package, with no
/// version.
pub proof fn law_provides_scalar_entry(v: JsonView, pkg: Seq<char>, f: Seq<char>)
    requires
        v is Object,
        v->Object_0.contains_key("provides"@),
        v->Object_0["provides"@] is Object,
        v->Object_0["provides"@]->Object_0.contains_key(pkg),
        scalar_text(v->Object_0["provides"@]->Object_0[pkg]) == Some(f),
    ensures
        built(v) matches Ok(mv) ==> mv.provides.contains_key(pkg) && mv.provides[pkg].file == f
            && mv.provides[pkg].version is None,
{
    reveal_strlit("file");
    reveal_strlit("version");
    assert("file"@.len() == 4);
    let m = v->Object_0;
    let pm = m["provides"@]->Object_0;
    assert(crate::convert::provides_of(pm).contains_key(pkg));
    lemma_normalized_provides(m);
}

/// A repository given as an object keeps its `url` and its `web` page, each as the
/// text of the scalar given, and its version control system is its `type` lowercased
/// or, without one, what its URL names; nothing is kept when none of these is found.
pub proof fn law_repository_object_read(v: JsonView)
    requires
        v is Object,
        v->Object_0.contains_key("resources"@),
        v->Object_0["resources"@] is Object,
        v->Object_0["resources"@]->Object_0.contains_key("repository"@),
        v->Object_0["resources"@]->Object_0["repository"@] is Object,
    ensures
        built(v) matches Ok(mv) ==> ({
            let rp = v->Object_0["resources"@]->Object_0["repository"@]->Object_0;
            let vcs = match field_text(rp, "type"@) {
                Some(t) => Some(lowercase(t)),
                None => match field_text(rp, "url"@) {
                    Some(u) => vcs_guess(u),
                    None => None,
                },
            };
            if field_text(rp, "url"@) is Some || field_text(rp, "web"@) is Some || vcs is Some {
                mv.resources.repository == Some(
                    RepositoryView { url: field_text(rp, "url"@), web: field_text(rp, "web"@), type_: vcs },
                )
            } else {
                mv.resources.repository is None
            }
        }),
{
    lemma_name_shapes();
    let m = v->Object_0;
    let rm = m["resources"@]->Object_0;
    let rp = rm["repository"@]->Object_0;
    let url = field_text(rp, "url"@);
    let web = field_text(rp, "web"@);
    let vcs = match field_text(rp, "type"@) {
        Some(t) => Some(lowercase(t)),
        None => match url {
            Some(u) => vcs_guess(u),
            None => None,
        },
    };
    if url is Some || web is Some || vcs is Some {
        assert(resources_of(rm).contains_key("repository"@));
        lemma_normalized_resources(m);
        assert(resources_of(rm)["repository"@] == crate::convert::repository_of(
            JsonView::Object(rp),
        )->0);
    } else {
        assert(!resources_of(rm).contains_key("repository"@));
        if has_entries(resources_of(rm)) {
            lemma_normalized_resources(m);
        } else {
            lemma_no_resources_left(m);
        }
    }
}

/// A document whose `resources` leaves nothing after normalising comes out without
/// `resources`.
proof fn lemma_no_resources_left(m: Obj)
    requires
        m.contains_key("resources"@),
        m["resources"@] is Object,
        !has_entries(resources_of(m["resources"@]->Object_0)),
    ensures
        !normalized(m).contains_key("resources"@),
{
    lemma_resources_untouched();
    lemma_normalized_steps(m);
    let r = "resources"@;
    let o0 = m.remove("distribution_type"@).remove("license_uri"@);
    let o1 = with_meta_spec(o0);
    let o2 = with_scalars(o1);
    let o3 = with_author(o2);
    let o4 = with_license(o3);
    let o5 = with_keywords(o4);
    let o6 = with_prereqs(o5);
    let o7 = with_features(o6);
    let o8 = with_provides(o7);
    let o9 = with_no_index(o8);
    assert(keeps(m, o0, r));
    assert(keeps(o0, o1, r));
    assert(keeps(o1, o2, r));
    assert(keeps(o2, o3, r));
    assert(keeps(o3, o4, r));
    assert(keeps(o4, o5, r));
    assert(keeps(o5, o6, r));
    assert(keeps(o6, o7, r));
    assert(keeps(o7, o8, r));
    assert(keeps(o8, o9, r));
    let o10 = with_resources(o9);
    let o11 = with_dynamic_config(o10);
    let n = with_release_status(o11);
    assert(normalized(m) == n);
    assert(!o10.contains_key(r));
}

/// `abstract`, `description` and `generated_by` come out as the text of the
/// document's own field of that name when it is a scalar, and as nothing otherwise.
pub proof fn law_text_fields_read(v: JsonView)
    requires
        v is Object,
    ensures
        built(v) matches Ok(mv) ==> mv.abstract_ == field_text(v->Object_0, "abstract"@),
        built(v) matches Ok(mv) ==> mv.description == field_text(v->Object_0, "description"@),
        built(v) matches Ok(mv) ==> mv.generated_by == field_text(v->Object_0, "generated_by"@),
{
    lemma_name_shapes();
    let m = v->Object_0;
    lemma_normalized_steps(m);
    let o0 = m.remove("distribution_type"@).remove("license_uri"@);
    let o1 = with_meta_spec(o0);
    let o2 = with_scalars(o1);
    let a = "abstract"@;
    let d = "description"@;
    let g = "generated_by"@;
    assert(keeps(m, o0, a) && keeps(m, o0, d) && keeps(m, o0, g));
    assert(keeps(o0, o1, a) && keeps(o0, o1, d) && keeps(o0, o1, g));
    assert(!written_after_license(a) && !written_after_license(d) && !written_after_license(g));
    lemma_after_scalars_keeps(o2, a);
    lemma_after_scalars_keeps(o2, d);
    lemma_after_scalars_keeps(o2, g);
    assert(is_scalar_field(a) && is_scalar_field(d) && is_scalar_field(g));
}

/// `dynamic_config` by what the document gives: absent or null means yes; a boolean
/// is itself; a number means yes just when some digit of it is not zero; a string
/// means no just when, trimmed and lowercased, it is empty, `0`, `false` or `no`; any
/// other value means yes.
pub proof fn law_dynamic_config_cases(v: JsonView)
    requires
        v is Object,
    ensures
        built(v) matches Ok(mv) ==> match field(v->Object_0, "dynamic_config"@) {
            None => mv.dynamic_config,
            Some(JsonView::Null) => mv.dynamic_config,
            Some(JsonView::Bool(b)) => mv.dynamic_config == b,
            Some(JsonView::Number(n)) => mv.dynamic_config == exists|i: int|
                0 <= i < n.len() && '1' <= #[trigger] n[i] <= '9',
            Some(JsonView::Str(s)) => mv.dynamic_config == !({
                let t = lowercase(trim(s));
                t.len() == 0 || t == "0"@ || t == "false"@ || t == "no"@
            }),
            Some(_) => mv.dynamic_config,
        },
{
    law_dynamic_config_read(v);
}

/// A bug tracker given as an object keeps its `web` page (or, when it has no `web`,
/// its `url`) and its `mailto` address, each as the text of the scalar given; nothing
/// is kept when neither is found.
pub proof fn law_bugtracker_object_read(v: JsonView)
    requires
        v is Object,
        v->Object_0.contains_key("resources"@),
        v->Object_0["resources"@] is Object,
        v->Object_0["resources"@]->Object_0.contains_key("bugtracker"@),
        v->Object_0["resources"@]->Object_0["bugtracker"@] is Object,
    ensures
        built(v) matches Ok(mv) ==> ({
            let bt = v->Object_0["resources"@]->Object_0["bugtracker"@]->Object_0;
            let web = if bt.contains_key("web"@) {
                scalar_text(bt["web"@])
            } else {
                field_text(bt, "url"@)
            };
            let mailto = field_text(bt, "mailto"@);
            if web is Some || mailto is Some {
                mv.resources.bugtracker == Some(BugtrackerView { web, mailto })
            } else {
                mv.resources.bugtracker is None
            }
        }),
{
    lemma_name_shapes();
    let m = v->Object_0;
    let rm = m["resources"@]->Object_0;
    let bt = rm["bugtracker"@]->Object_0;
    let web = if bt.contains_key("web"@) {
        scalar_text(bt["web"@])
    } else {
        field_text(bt, "url"@)
    };
    let mailto = field_text(bt, "mailto"@);
    if web is Some || mailto is Some {
        assert(resources_of(rm).contains_key("bugtracker"@));
        lemma_normalized_resources(m);
        assert(resources_of(rm)["bugtracker"@] == crate::convert::bugtracker_of(
            JsonView::Object(bt),
        )->0);
    } else {
        assert(!resources_of(rm).contains_key("bugtracker"@));
        if has_entries(resources_of(rm)) {
            lemma_normalized_resources(m);
        } else {
            lemma_no_resources_left(m);
        }
    }
}

/// The homepage is the first scalar of the document's `homepage` resource (the value
/// itself when it is not a list), as text; the license resource is the strings that
/// the document's `license` resource lists.
pub proof fn law_homepage_and_license_resources(v: JsonView)
    requires
        v is Object,
        v->Object_0.contains_key("resources"@),
        v->Object_0["resources"@] is Object,
    ensures
        built(v) matches Ok(mv) ==> ({
            let rm = v->Object_0["resources"@]->Object_0;
            &&& mv.resources.homepage == match field(rm, "homepage"@) {
                Some(h) => crate::convert::first_text(h),
                None => None,
            }
            &&& mv.resources.license == listed(rm, "license"@)
        }),
{
    lemma_name_shapes();
    let m = v->Object_0;
    let rm = m["resources"@]->Object_0;
    let ro = resources_of(rm);
    lemma_str_items_of_array(listed(rm, "license"@));
    if has_entries(ro) {
        lemma_normalized_resources(m);
        if rm.contains_key("license"@) && string_list(rm["license"@]).len() > 0 {
            assert(ro["license"@] == str_array(string_list(rm["license"@])));
        } else {
            assert(!ro.contains_key("license"@));
            assert(listed(rm, "license"@) =~= Seq::<Seq<char>>::empty());
        }
        if rm.contains_key("homepage"@) {
            if crate::convert::first_text(rm["homepage"@]) is Some {
                assert(ro.contains_key("homepage"@));
            } else {
                assert(!ro.contains_key("homepage"@));
            }
        } else {
            assert(!ro.contains_key("homepage"@));
        }
    } else {
        lemma_no_resources_left(m);
        if rm.contains_key("license"@) && string_list(rm["license"@]).len() > 0 {
            assert(ro.contains_key("license"@));
        }
        assert(listed(rm, "license"@) =~= Seq::<Seq<char>>::empty());
        if rm.contains_key("homepage"@) && crate::convert::first_text(rm["homepage"@]) is Some {
            assert(ro.contains_key("homepage"@));
        }
    }
}

/// The keywords are the strings that the document's `keywords` lists.
pub proof fn law_keywords_list(v: JsonView)
    requires
        v is Object,
    ensures
        built(v) matches Ok(mv) ==> mv.keywords == listed(v->Object_0, "keywords"@),
{
    lemma_name_shapes();
    let m = v->Object_0;
    let k = "keywords"@;
    lemma_normalized_steps(m);
    let o0 = m.remove("distribution_type"@).remove("license_uri"@);
    let o1 = with_meta_spec(o0);
    let o2 = with_scalars(o1);
    let o3 = with_author(o2);
    let o4 = with_license(o3);
    let o5 = with_keywords(o4);
    assert(keeps(m, o0, k));
    assert(keeps(o0, o1, k));
    assert(keeps(o1, o2, k));
    assert(keeps(o2, o3, k));
    assert(keeps(o3, o4, k));
    let o6 = with_prereqs(o5);
    let o7 = with_features(o6);
    let o8 = with_provides(o7);
    let o9 = with_no_index(o8);
    let o10 = with_resources(o9);
    let o11 = with_dynamic_config(o10);
    let n = with_release_status(o11);
    assert(normalized(m) == n);
    assert(!crate::convert::prereq_keys().contains(k));
    assert(keeps(o5, o6, k));
    assert(keeps(o6, o7, k));
    assert(keeps(o7, o8, k));
    assert(keeps(o8, o9, k));
    assert(keeps(o9, o10, k));
    assert(keeps(o10, o11, k));
    assert(keeps(o11, n, k));
    let l = listed(m, k);
    lemma_str_items_of_array(l);
    if l.len() > 0 {
        assert(o5[k] == str_array(l));
    } else {
        assert(!o5.contains_key(k));
        assert(l =~= Seq::<Seq<char>>::empty());
    }
}

/// The `meta-spec` URL is the text of the `url` of the document's `meta-spec` object
/// (or of its older `meta_spec`, when it has no `meta-spec`), when that is a scalar.
pub proof fn law_meta_spec_url(v: JsonView)
    requires
        v is Object,
    ensures
        built(v) matches Ok(mv) ==> mv.meta_spec.url == match (
            if v->Object_0.contains_key("meta-spec"@) {
                field(v->Object_0, "meta-spec"@)
            } else {
                field(v->Object_0, "meta_spec"@)
            }
        ) {
            Some(JsonView::Object(x)) => field_text(x, "url"@),
            _ => None,
        },
{
    lemma_name_shapes();
    lemma_literals_distinct();
    reveal_strlit("url");
    reveal_strlit("version");
    let m = v->Object_0;
    let ms = "meta-spec"@;
    lemma_normalized_steps(m);
    let o0 = m.remove("distribution_type"@).remove("license_uri"@);
    let o1 = with_meta_spec(o0);
    assert(keeps(m, o0, ms) && keeps(m, o0, "meta_spec"@));
    lemma_after_meta_spec_keeps(o1, ms);
}

/// The release status is the document's own, trimmed and lowercased, when that is
/// `stable`, `testing` or `unstable`; otherwise it is testing when the version (`0`
/// when there is none) has an underscore or, lowercased, holds `-trial`, and stable
/// otherwise.
pub proof fn law_release_status_cases(v: JsonView)
    requires
        v is Object,
    ensures
        built(v) matches Ok(mv) ==> ({
            let ver = match field_text(v->Object_0, "version"@) {
                Some(t) => t,
                None => "0"@,
            };
            let derived = if ver.contains('_') || contains_seq(lowercase(ver), "-trial"@) {
                ReleaseStatus::Testing
            } else {
                ReleaseStatus::Stable
            };
            mv.release_status == match field_text(v->Object_0, "release_status"@) {
                Some(s) => {
                    let t = lowercase(trim(s));
                    if t == "stable"@ {
                        ReleaseStatus::Stable
                    } else if t == "testing"@ {
                        ReleaseStatus::Testing
                    } else if t == "unstable"@ {
                        ReleaseStatus::Unstable
                    } else {
                        derived
                    }
                },
                None => derived,
            }
        }),
{
    lemma_name_shapes();
    lemma_literals_distinct();
    reveal_strlit("stable");
    reveal_strlit("testing");
    reveal_strlit("unstable");
    reveal_strlit("0");
    assert("stable"@.len() == 6 && "testing"@.len() == 7 && "unstable"@.len() == 8);
    let m = v->Object_0;
    let rs = "release_status"@;
    let k = "version"@;
    assert(resources_untouched_before(rs) && rs != "resources"@ && rs != "dynamic_config"@);
    lemma_until_resources_keeps(m, rs);
    let u = until_resources(m);
    let o11 = with_dynamic_config(u);
    assert(field_text(o11, rs) == field_text(m, rs));
    lemma_normalized_steps(m);
    let o0 = m.remove("distribution_type"@).remove("license_uri"@);
    let o1 = with_meta_spec(o0);
    let o2 = with_scalars(o1);
    assert(keeps(m, o0, k));
    assert(keeps(o0, o1, k));
    lemma_after_scalars_keeps(o2, k);
    assert(is_scalar_field(k));
    assert(keeps(o2, u, k)) by {
        let o3 = with_author(o2);
        let o4 = with_license(o3);
        let o5 = with_keywords(o4);
        let o6 = with_prereqs(o5);
        let o7 = with_features(o6);
        let o8 = with_provides(o7);
        let o9 = with_no_index(o8);
        assert(keeps(o2, o3, k));
        assert(keeps(o3, o4, k));
        assert(keeps(o4, o5, k));
        assert(!crate::convert::prereq_keys().contains(k));
        assert(keeps(o5, o6, k));
        assert(keeps(o6, o7, k));
        assert(keeps(o7, o8, k));
        assert(keeps(o8, o9, k));
        assert(keeps(o9, u, k));
    }
    assert(o11[k] == u[k]);
    assert(o11[k] == JsonView::Str(match field_text(m, k) {
        Some(t) => t,
        None => "0"@,
    }));
}

/// An optional feature given as an object is kept, with the text of its
/// `description` when that is a scalar.
pub proof fn law_feature_description(v: JsonView, name: Seq<char>)
    requires
        v is Object,
        v->Object_0.contains_key("optional_features"@),
        v->Object_0["optional_features"@] is Object,
        v->Object_0["optional_features"@]->Object_0.contains_key(name),
        v->Object_0["optional_features"@]->Object_0[name] is Object,
    ensures
        built(v) matches Ok(mv) ==> mv.optional_features.contains_key(name)
            && mv.optional_features[name].description == field_text(
            v->Object_0["optional_features"@]->Object_0[name]->Object_0,
            "description"@,
        ),
{
    lemma_name_shapes();
    let m = v->Object_0;
    let r = "optional_features"@;
    let fm = m[r]->Object_0;
    lemma_normalized_steps(m);
    let o0 = m.remove("distribution_type"@).remove("license_uri"@);
    let o1 = with_meta_spec(o0);
    let o2 = with_scalars(o1);
    let o3 = with_author(o2);
    let o4 = with_license(o3);
    let o5 = with_keywords(o4);
    let o6 = with_prereqs(o5);
    assert(keeps(m, o0, r));
    assert(keeps(o0, o1, r));
    assert(keeps(o1, o2, r));
    assert(keeps(o2, o3, r));
    assert(keeps(o3, o4, r));
    assert(keeps(o4, o5, r));
    assert(!crate::convert::prereq_keys().contains(r));
    assert(keeps(o5, o6, r));
    let o7 = with_features(o6);
    assert(crate::convert::features_of(fm).contains_key(name));
    let o8 = with_provides(o7);
    let o9 = with_no_index(o8);
    let o10 = with_resources(o9);
    let o11 = with_dynamic_config(o10);
    let n = with_release_status(o11);
    assert(normalized(m) == n);
    assert(keeps(o7, o8, r));
    assert(keeps(o8, o9, r));
    assert(keeps(o9, o10, r));
    assert(keeps(o10, o11, r));
    assert(keeps(o11, n, r));
    let f = crate::convert::feature_of(fm[name]->Object_0);
    assert(f.contains_key("description"@) == (field_text(fm[name]->Object_0, "description"@) is Some));
}

} // verus!
