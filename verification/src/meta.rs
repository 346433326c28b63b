//! The data model for a CPAN distribution meta file, normalised to spec version 2,
//! and how a normalised document reads into it.
use vstd::prelude::*;
use crate::convert::texts;
use crate::smap::SortedMap;
use crate::spec::{SpecVersion, SpecVersionView};
use crate::text::{chars_eq_str, chars_of, text};
use crate::value::{JsonView, Value};

verus! {

/// The views of an optional text.
pub open spec fn opt_text(o: Option<String>) -> Option<Seq<char>> {
    match o {
        Some(s) => Some(s@),
        None => None,
    }
}

/// Release maturity of the distribution.
#[derive(Debug, Clone, Copy, PartialEq, Eq, Structural)]
pub enum ReleaseStatus {
    /// A normal public release.
    Stable,
    /// A release for testing only (e.g. a developer / `-TRIAL` release).
    Testing,
    /// An unstable release not intended for general testing.
    Unstable,
}

impl Default for ReleaseStatus {
    fn default() -> (r: ReleaseStatus)
        ensures
            r == ReleaseStatus::Stable,
    {
        ReleaseStatus::Stable
    }
}

/// The `meta-spec` field.
#[derive(Debug, Clone, PartialEq)]
pub struct MetaSpec {
    /// Spec version. Always `"2"` for the normalised structure.
    pub version: String,
    /// URL of the CPAN Meta Spec text, if the input gave one.
    pub url: Option<String>,
}

/// The view of a [`MetaSpec`].
pub ghost struct MetaSpecView {
    pub version: Seq<char>,
    pub url: Option<Seq<char>>,
}

impl View for MetaSpec {
    type V = MetaSpecView;

    open spec fn view(&self) -> MetaSpecView {
        MetaSpecView { version: self.version@, url: opt_text(self.url) }
    }
}

/// The spec version that a `meta-spec` field without one states.
fn default_spec_version() -> (r: String)
    ensures
        r@ == "2"@,
{
    text("2")
}

/// Whether the configuration is dynamic when the field is absent.
fn default_true() -> (r: bool)
    ensures
        r,
{
    true
}

impl Default for MetaSpec {
    fn default() -> (r: MetaSpec)
        ensures
            r@ == (MetaSpecView { version: "2"@, url: None }),
    {
        MetaSpec { version: default_spec_version(), url: None }
    }
}

/// The relationships within a single prerequisite phase. Values are version range
/// strings (see [`crate::version_range`]).
#[derive(Debug, Clone, PartialEq)]
pub struct Phase {
    /// Modules that must be installed.
    pub requires: SortedMap<String>,
    /// Modules that are strongly encouraged.
    pub recommends: SortedMap<String>,
    /// Modules that are optional enhancements.
    pub suggests: SortedMap<String>,
    /// Modules that must *not* be installed.
    pub conflicts: SortedMap<String>,
    /// Any other (non-standard) relationships.
    pub other: SortedMap<SortedMap<String>>,
}

/// The view of a [`Phase`]: each relationship as a map from module to version range.
pub ghost struct PhaseView {
    pub requires: Map<Seq<char>, Seq<char>>,
    pub recommends: Map<Seq<char>, Seq<char>>,
    pub suggests: Map<Seq<char>, Seq<char>>,
    pub conflicts: Map<Seq<char>, Seq<char>>,
    pub other: Map<Seq<char>, Map<Seq<char>, Seq<char>>>,
}

impl View for Phase {
    type V = PhaseView;

    open spec fn view(&self) -> PhaseView {
        PhaseView {
            requires: self.requires@,
            recommends: self.recommends@,
            suggests: self.suggests@,
            conflicts: self.conflicts@,
            other: self.other@,
        }
    }
}

/// A phase with no relationship.
pub open spec fn empty_phase() -> PhaseView {
    PhaseView {
        requires: Map::empty(),
        recommends: Map::empty(),
        suggests: Map::empty(),
        conflicts: Map::empty(),
        other: Map::empty(),
    }
}

/// Prerequisites organised by phase.
///
/// Each phase (`configure`, `build`, `test`, `runtime`, `develop`) holds a set of
/// relationships. Legacy `requires` / `build_requires` / `configure_requires` /
/// `recommends` / `conflicts` fields from spec 1.x are mapped into this structure.
#[derive(Debug, Clone, PartialEq)]
pub struct Prereqs {
    /// Requirements for configuring the distribution (running `Build.PL`).
    pub configure: Phase,
    /// Requirements for building the distribution.
    pub build: Phase,
    /// Requirements for running the test suite.
    pub test: Phase,
    /// Requirements for normal runtime use.
    pub runtime: Phase,
    /// Requirements for authoring / developing the distribution.
    pub develop: Phase,
    /// Any other (non-standard) phases.
    pub other: SortedMap<Phase>,
}

/// The view of [`Prereqs`].
pub ghost struct PrereqsView {
    pub configure: PhaseView,
    pub build: PhaseView,
    pub test: PhaseView,
    pub runtime: PhaseView,
    pub develop: PhaseView,
    pub other: Map<Seq<char>, PhaseView>,
}

impl View for Prereqs {
    type V = PrereqsView;

    open spec fn view(&self) -> PrereqsView {
        PrereqsView {
            configure: self.configure@,
            build: self.build@,
            test: self.test@,
            runtime: self.runtime@,
            develop: self.develop@,
            other: self.other@,
        }
    }
}

/// A phase has no relationship.
pub open spec fn phase_is_empty(p: PhaseView) -> bool {
    p.requires == Map::<Seq<char>, Seq<char>>::empty() && p.recommends == Map::<
        Seq<char>,
        Seq<char>,
    >::empty() && p.suggests == Map::<Seq<char>, Seq<char>>::empty() && p.conflicts == Map::<
        Seq<char>,
        Seq<char>,
    >::empty() && p.other == Map::<Seq<char>, Map<Seq<char>, Seq<char>>>::empty()
}

/// Prerequisites with every phase empty and no custom phase.
pub open spec fn empty_prereqs() -> PrereqsView {
    PrereqsView {
        configure: empty_phase(),
        build: empty_phase(),
        test: empty_phase(),
        runtime: empty_phase(),
        develop: empty_phase(),
        other: Map::empty(),
    }
}

/// No relationship of the phase, standard or custom, lists a module.
pub open spec fn phase_holds_no_module(p: PhaseView) -> bool {
    &&& p.requires == Map::<Seq<char>, Seq<char>>::empty()
    &&& p.recommends == Map::<Seq<char>, Seq<char>>::empty()
    &&& p.suggests == Map::<Seq<char>, Seq<char>>::empty()
    &&& p.conflicts == Map::<Seq<char>, Seq<char>>::empty()
    &&& forall|k: Seq<char>| #[trigger]
        p.other.contains_key(k) ==> p.other[k] == Map::<Seq<char>, Seq<char>>::empty()
}

/// There is no prerequisite at all: no phase, standard or custom, lists a module in
/// any relationship.
pub open spec fn holds_no_prerequisite(p: PrereqsView) -> bool {
    &&& phase_holds_no_module(p.configure)
    &&& phase_holds_no_module(p.build)
    &&& phase_holds_no_module(p.test)
    &&& phase_holds_no_module(p.runtime)
    &&& phase_holds_no_module(p.develop)
    &&& forall|k: Seq<char>| #[trigger]
        p.other.contains_key(k) ==> phase_holds_no_module(p.other[k])
}

/// The relationship of a phase by name: the four standard ones, or a custom one.
pub open spec fn relation_named(p: PhaseView, name: Seq<char>) -> Option<Map<Seq<char>, Seq<char>>> {
    if name == "requires"@ {
        Some(p.requires)
    } else if name == "recommends"@ {
        Some(p.recommends)
    } else if name == "suggests"@ {
        Some(p.suggests)
    } else if name == "conflicts"@ {
        Some(p.conflicts)
    } else if p.other.contains_key(name) {
        Some(p.other[name])
    } else {
        None
    }
}

/// The phase of the prerequisites by name: the five standard ones, or a custom one.
pub open spec fn phase_named(p: PrereqsView, name: Seq<char>) -> Option<PhaseView> {
    if name == "configure"@ {
        Some(p.configure)
    } else if name == "build"@ {
        Some(p.build)
    } else if name == "test"@ {
        Some(p.test)
    } else if name == "runtime"@ {
        Some(p.runtime)
    } else if name == "develop"@ {
        Some(p.develop)
    } else if p.other.contains_key(name) {
        Some(p.other[name])
    } else {
        None
    }
}

impl Phase {
    /// A phase with no relationship.
    pub fn new() -> (r: Phase)
        ensures
            r@ == empty_phase(),
    {
        Phase {
            requires: SortedMap::new(),
            recommends: SortedMap::new(),
            suggests: SortedMap::new(),
            conflicts: SortedMap::new(),
            other: SortedMap::new(),
        }
    }

    /// Whether no relationship of this phase, standard or custom, lists a module.
    pub(crate) fn holds_no_module(&self) -> (r: bool)
        ensures
            r == phase_holds_no_module(self@),
    {
        if !(self.requires.is_empty() && self.recommends.is_empty() && self.suggests.is_empty()
            && self.conflicts.is_empty()) {
            return false;
        }
        let es = self.other.entries();
        assert forall|j: int| 0 <= j < es@.len() implies self@.other.contains_key(
            (#[trigger] es@[j]).0@,
        ) && self@.other[es@[j].0@] == es@[j].1@ by {}
        let mut i: usize = 0;
        while i < es.len()
            invariant
                i <= es.len(),
                forall|j: int| 0 <= j < es@.len() ==> self@.other.contains_key((#[trigger] es@[j]).0@)
                    && self@.other[es@[j].0@] == es@[j].1@,
                forall|j: int| 0 <= j < i ==> (#[trigger] es@[j]).1@ == Map::<Seq<char>, Seq<char>>::empty(),
            decreases es.len() - i,
        {
            if !es[i].1.is_empty() {
                assert(self@.other.contains_key(es@[i as int].0@));
                return false;
            }
            i = i + 1;
        }
        proof {
            assert forall|k: Seq<char>| #[trigger] self@.other.contains_key(k) implies
                self@.other[k] == Map::<Seq<char>, Seq<char>>::empty() by {
                let j = choose|j: int| 0 <= j < es@.len() && (#[trigger] es@[j]).0@ == k;
                assert(es@[j].1@ == Map::<Seq<char>, Seq<char>>::empty());
            }
        }
        true
    }

    /// Whether this phase has no relationships.
    pub fn is_empty(&self) -> (r: bool)
        ensures
            r == phase_is_empty(self@),
    {
        self.requires.is_empty() && self.recommends.is_empty() && self.suggests.is_empty()
            && self.conflicts.is_empty() && self.other.is_empty()
    }

    /// Look up a relationship by name (`"requires"`, `"recommends"`, `"suggests"`,
    /// `"conflicts"`, or a custom relationship).
    pub fn relation(&self, name: &str) -> (r: Option<&SortedMap<String>>)
        ensures
            match relation_named(self@, name@) {
                Some(m) => r matches Some(x) && x@ == m,
                None => r is None,
            },
    {
        let n = chars_of(name);
        if chars_eq_str(n.as_slice(), "requires") {
            Some(&self.requires)
        } else if chars_eq_str(n.as_slice(), "recommends") {
            Some(&self.recommends)
        } else if chars_eq_str(n.as_slice(), "suggests") {
            Some(&self.suggests)
        } else if chars_eq_str(n.as_slice(), "conflicts") {
            Some(&self.conflicts)
        } else {
            self.other.get(name)
        }
    }
}

impl Prereqs {
    /// No prerequisites.
    pub fn new() -> (r: Prereqs)
        ensures
            r@ == empty_prereqs(),
    {
        Prereqs {
            configure: Phase::new(),
            build: Phase::new(),
            test: Phase::new(),
            runtime: Phase::new(),
            develop: Phase::new(),
            other: SortedMap::new(),
        }
    }

    /// Whether there are no prerequisites at all: no phase, standard or custom, lists
    /// a module in any relationship.
    pub fn is_empty(&self) -> (r: bool)
        ensures
            r == holds_no_prerequisite(self@),
    {
        if !(self.configure.holds_no_module() && self.build.holds_no_module()
            && self.test.holds_no_module() && self.runtime.holds_no_module()
            && self.develop.holds_no_module()) {
            return false;
        }
        let es = self.other.entries();
        assert forall|j: int| 0 <= j < es@.len() implies self@.other.contains_key(
            (#[trigger] es@[j]).0@,
        ) && self@.other[es@[j].0@] == es@[j].1@ by {}
        let mut i: usize = 0;
        while i < es.len()
            invariant
                i <= es.len(),
                forall|j: int| 0 <= j < es@.len() ==> self@.other.contains_key((#[trigger] es@[j]).0@)
                    && self@.other[es@[j].0@] == es@[j].1@,
                forall|j: int| 0 <= j < i ==> phase_holds_no_module((#[trigger] es@[j]).1@),
            decreases es.len() - i,
        {
            if !es[i].1.holds_no_module() {
                assert(self@.other.contains_key(es@[i as int].0@));
                return false;
            }
            i = i + 1;
        }
        proof {
            assert forall|k: Seq<char>| #[trigger] self@.other.contains_key(k) implies
                phase_holds_no_module(self@.other[k]) by {
                let j = choose|j: int| 0 <= j < es@.len() && (#[trigger] es@[j]).0@ == k;
                assert(phase_holds_no_module(es@[j].1@));
            }
        }
        true
    }

    /// Look up a phase by name (`"configure"`, `"build"`, `"test"`, `"runtime"`,
    /// `"develop"`, or a custom phase).
    pub fn phase(&self, name: &str) -> (r: Option<&Phase>)
        ensures
            match phase_named(self@, name@) {
                Some(p) => r matches Some(x) && x@ == p,
                None => r is None,
            },
    {
        let n = chars_of(name);
        if chars_eq_str(n.as_slice(), "configure") {
            Some(&self.configure)
        } else if chars_eq_str(n.as_slice(), "build") {
            Some(&self.build)
        } else if chars_eq_str(n.as_slice(), "test") {
            Some(&self.test)
        } else if chars_eq_str(n.as_slice(), "runtime") {
            Some(&self.runtime)
        } else if chars_eq_str(n.as_slice(), "develop") {
            Some(&self.develop)
        } else {
            self.other.get(name)
        }
    }
}

/// An entry in [`Meta::optional_features`].
#[derive(Debug, Clone, PartialEq)]
pub struct OptionalFeature {
    /// Human-readable description of the feature.
    pub description: Option<String>,
    /// Prerequisites this feature adds.
    pub prereqs: Prereqs,
}

/// The view of an [`OptionalFeature`].
pub ghost struct OptionalFeatureView {
    pub description: Option<Seq<char>>,
    pub prereqs: PrereqsView,
}

impl View for OptionalFeature {
    type V = OptionalFeatureView;

    open spec fn view(&self) -> OptionalFeatureView {
        OptionalFeatureView { description: opt_text(self.description), prereqs: self.prereqs@ }
    }
}

/// An entry in [`Meta::provides`].
#[derive(Debug, Clone, PartialEq)]
pub struct Provides {
    /// Unix-style relative path to the file that contains the package.
    pub file: String,
    /// Version of the package, if known.
    pub version: Option<String>,
}

/// The view of a [`Provides`] entry.
pub ghost struct ProvidesView {
    pub file: Seq<char>,
    pub version: Option<Seq<char>>,
}

impl View for Provides {
    type V = ProvidesView;

    open spec fn view(&self) -> ProvidesView {
        ProvidesView { file: self.file@, version: opt_text(self.version) }
    }
}

/// The `no_index` field: things a CPAN indexer should ignore.
#[derive(Debug, Clone, PartialEq)]
pub struct NoIndex {
    /// Individual files (relative, Unix-style paths).
    pub file: Vec<String>,
    /// Directory trees (relative, Unix-style paths).
    pub directory: Vec<String>,
    /// Exact package names.
    pub package: Vec<String>,
    /// Namespaces (descendants excluded, the namespace itself is not).
    pub namespace: Vec<String>,
}

/// The view of a [`NoIndex`].
pub ghost struct NoIndexView {
    pub file: Seq<Seq<char>>,
    pub directory: Seq<Seq<char>>,
    pub package: Seq<Seq<char>>,
    pub namespace: Seq<Seq<char>>,
}

impl View for NoIndex {
    type V = NoIndexView;

    open spec fn view(&self) -> NoIndexView {
        NoIndexView {
            file: texts(self.file@),
            directory: texts(self.directory@),
            package: texts(self.package@),
            namespace: texts(self.namespace@),
        }
    }
}

impl NoIndex {
    /// Whether nothing is excluded from indexing.
    pub fn is_empty(&self) -> (r: bool)
        ensures
            r == (self@.file.len() == 0 && self@.directory.len() == 0 && self@.package.len() == 0
                && self@.namespace.len() == 0),
    {
        self.file.len() == 0 && self.directory.len() == 0 && self.package.len() == 0
            && self.namespace.len() == 0
    }
}

/// The `resources.bugtracker` field.
#[derive(Debug, Clone, PartialEq)]
pub struct Bugtracker {
    /// Web interface URL.
    pub web: Option<String>,
    /// Email address for reporting bugs.
    pub mailto: Option<String>,
}

/// The view of a [`Bugtracker`].
pub ghost struct BugtrackerView {
    pub web: Option<Seq<char>>,
    pub mailto: Option<Seq<char>>,
}

impl View for Bugtracker {
    type V = BugtrackerView;

    open spec fn view(&self) -> BugtrackerView {
        BugtrackerView { web: opt_text(self.web), mailto: opt_text(self.mailto) }
    }
}

/// The `resources.repository` field.
#[derive(Debug, Clone, PartialEq)]
pub struct Repository {
    /// URL for anonymous checkout / clone.
    pub url: Option<String>,
    /// Web interface URL.
    pub web: Option<String>,
    /// Version control system type (`git`, `svn`, `hg`, ...).
    pub type_: Option<String>,
}

/// The view of a [`Repository`].
pub ghost struct RepositoryView {
    pub url: Option<Seq<char>>,
    pub web: Option<Seq<char>>,
    pub type_: Option<Seq<char>>,
}

impl View for Repository {
    type V = RepositoryView;

    open spec fn view(&self) -> RepositoryView {
        RepositoryView { url: opt_text(self.url), web: opt_text(self.web), type_: opt_text(self.type_) }
    }
}

/// The `resources` field.
#[derive(Debug, Clone, PartialEq)]
pub struct Resources {
    /// Project homepage.
    pub homepage: Option<String>,
    /// URLs of license documents.
    pub license: Vec<String>,
    /// Bug tracker information.
    pub bugtracker: Option<Bugtracker>,
    /// Source repository information.
    pub repository: Option<Repository>,
    /// Custom (`x_*` / capitalised) resource keys, preserved verbatim.
    pub custom: SortedMap<Value>,
}

/// The view of [`Resources`].
pub ghost struct ResourcesView {
    pub homepage: Option<Seq<char>>,
    pub license: Seq<Seq<char>>,
    pub bugtracker: Option<BugtrackerView>,
    pub repository: Option<RepositoryView>,
    pub custom: Map<Seq<char>, JsonView>,
}

impl View for Resources {
    type V = ResourcesView;

    open spec fn view(&self) -> ResourcesView {
        ResourcesView {
            homepage: opt_text(self.homepage),
            license: texts(self.license@),
            bugtracker: match self.bugtracker {
                Some(b) => Some(b@),
                None => None,
            },
            repository: match self.repository {
                Some(r) => Some(r@),
                None => None,
            },
            custom: self.custom@,
        }
    }
}

impl Resources {
    /// Whether no resources are recorded.
    pub fn is_empty(&self) -> (r: bool)
        ensures
            r == (self@.homepage is None && self@.license.len() == 0 && self@.bugtracker is None
                && self@.repository is None && self@.custom == Map::<Seq<char>, JsonView>::empty()),
    {
        self.homepage.is_none() && self.license.len() == 0 && self.bugtracker.is_none()
            && self.repository.is_none() && self.custom.is_empty()
    }
}

/// A parsed CPAN distribution meta file, normalised to spec version 2.
#[derive(Debug, Clone, PartialEq)]
pub struct Meta {
    /// Distribution name, e.g. `Module-Build`. Required by every spec version.
    pub name: String,
    /// Distribution version. Kept verbatim as a string; `"0"` if the input had no
    /// version (only valid in spec 1.0).
    pub version: String,
    /// Short description of the distribution's purpose.
    pub abstract_: Option<String>,
    /// Contact author(s), each conventionally `"Name <email>"`.
    pub author: Vec<String>,
    /// License identifier(s), normalised to spec version 2 tokens.
    pub license: Vec<String>,
    /// The tool that generated the metadata.
    pub generated_by: Option<String>,
    /// Whether `Build.PL` / `Makefile.PL` must be executed to determine prerequisites.
    pub dynamic_config: bool,
    /// Release maturity.
    pub release_status: ReleaseStatus,
    /// The `meta-spec` field of the normalised structure.
    pub meta_spec: MetaSpec,
    /// Extended description of the distribution.
    pub description: Option<String>,
    /// Free-form keywords describing the distribution.
    pub keywords: Vec<String>,
    /// Prerequisites, organised by phase and relationship.
    pub prereqs: Prereqs,
    /// Optional features the distribution can provide.
    pub optional_features: SortedMap<OptionalFeature>,
    /// Packages provided by this distribution, keyed by package name.
    pub provides: SortedMap<Provides>,
    /// Files, directories, packages and namespaces that should not be indexed.
    pub no_index: NoIndex,
    /// Related resources (homepage, repository, bug tracker, ...).
    pub resources: Resources,
    /// Custom `x_*` keys and any other keys not defined by the spec, preserved
    /// verbatim.
    pub custom: SortedMap<Value>,
    /// The spec version of the *input* document (before normalisation).
    pub spec_version: SpecVersion,
}

/// The view of a [`Meta`]: every field by its view.
pub ghost struct MetaView {
    pub name: Seq<char>,
    pub version: Seq<char>,
    pub abstract_: Option<Seq<char>>,
    pub author: Seq<Seq<char>>,
    pub license: Seq<Seq<char>>,
    pub generated_by: Option<Seq<char>>,
    pub dynamic_config: bool,
    pub release_status: ReleaseStatus,
    pub meta_spec: MetaSpecView,
    pub description: Option<Seq<char>>,
    pub keywords: Seq<Seq<char>>,
    pub prereqs: PrereqsView,
    pub optional_features: Map<Seq<char>, OptionalFeatureView>,
    pub provides: Map<Seq<char>, ProvidesView>,
    pub no_index: NoIndexView,
    pub resources: ResourcesView,
    pub custom: Map<Seq<char>, JsonView>,
    pub spec_version: SpecVersionView,
}

impl View for Meta {
    type V = MetaView;

    open spec fn view(&self) -> MetaView {
        MetaView {
            name: self.name@,
            version: self.version@,
            abstract_: opt_text(self.abstract_),
            author: texts(self.author@),
            license: texts(self.license@),
            generated_by: opt_text(self.generated_by),
            dynamic_config: self.dynamic_config,
            release_status: self.release_status,
            meta_spec: self.meta_spec@,
            description: opt_text(self.description),
            keywords: texts(self.keywords@),
            prereqs: self.prereqs@,
            optional_features: self.optional_features@,
            provides: self.provides@,
            no_index: self.no_index@,
            resources: self.resources@,
            custom: self.custom@,
            spec_version: self.spec_version@,
        }
    }
}

impl Meta {
    /// The spec version the input document declared (or was inferred to use).
    pub fn spec_version(&self) -> (r: &SpecVersion)
        ensures
            r@ == self@.spec_version,
    {
        &self.spec_version
    }
}

impl Default for Phase {
    fn default() -> (r: Phase)
        ensures
            r@ == empty_phase(),
    {
        Phase::new()
    }
}

impl Default for Prereqs {
    fn default() -> (r: Prereqs)
        ensures
            r@ == empty_prereqs(),
    {
        Prereqs::new()
    }
}

impl Default for OptionalFeature {
    fn default() -> (r: OptionalFeature)
        ensures
            r@.description is None,
            r@.prereqs == empty_prereqs(),
    {
        OptionalFeature { description: None, prereqs: Prereqs::new() }
    }
}

impl Default for NoIndex {
    fn default() -> (r: NoIndex)
        ensures
            r@.file.len() == 0 && r@.directory.len() == 0 && r@.package.len() == 0
                && r@.namespace.len() == 0,
    {
        NoIndex { file: Vec::new(), directory: Vec::new(), package: Vec::new(), namespace: Vec::new() }
    }
}

impl Default for Bugtracker {
    fn default() -> (r: Bugtracker)
        ensures
            r@ == (BugtrackerView { web: None, mailto: None }),
    {
        Bugtracker { web: None, mailto: None }
    }
}

impl Default for Repository {
    fn default() -> (r: Repository)
        ensures
            r@ == (RepositoryView { url: None, web: None, type_: None }),
    {
        Repository { url: None, web: None, type_: None }
    }
}

impl Default for Resources {
    fn default() -> (r: Resources)
        ensures
            r@.homepage is None && r@.license.len() == 0 && r@.bugtracker is None
                && r@.repository is None && r@.custom == Map::<Seq<char>, JsonView>::empty(),
    {
        Resources {
            homepage: None,
            license: Vec::new(),
            bugtracker: None,
            repository: None,
            custom: SortedMap::new(),
        }
    }
}

} // verus!
