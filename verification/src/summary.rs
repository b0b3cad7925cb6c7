//! Summaries: the identity of a package with its dependencies and
//! features, checked once when the summary is made.

use vstd::prelude::*;
use vstd::string::*;
use vstd::std_specs::cmp::{PartialEqSpec, PartialEqSpecImpl};
use crate::dependency::{Dependency, DependencyView};
use crate::errors::{ValidationError, ValidationErrorView};
use crate::features::{has_name, FeatureMap, FeatureView};
use crate::package_id::{PackageId, PackageIdView, SourceId};
use crate::paths::same_text;
use crate::text::{before_first, split_first};
use crate::version::Version;

verus! {

/// A table of features, as contracts see it.
pub type Features = Seq<(Seq<char>, FeatureView)>;

/// Whether a dependency is both optional and limited to development,
/// which no summary allows.
pub open spec fn optional_dev(d: DependencyView) -> bool {
    d.optional && !d.transitive
}

/// The first dependency at or after `from` that is called `name`.
pub open spec fn find_dependency(deps: Seq<DependencyView>, name: Seq<char>, from: int) -> Option<
    DependencyView,
>
    decreases deps.len() - from,
{
    if from < 0 || from >= deps.len() {
        None
    } else if deps[from].name == name {
        Some(deps[from])
    } else {
        find_dependency(deps, name, from + 1)
    }
}

/// The name that a feature's dependency token speaks of: the token up to
/// its first `/`.
pub open spec fn token_base(token: Seq<char>) -> Seq<char> {
    before_first(token, '/')
}

/// Whether a token has the form `name/feature`, which turns on a feature
/// of a dependency.
pub open spec fn is_reexport(token: Seq<char>) -> bool {
    token.contains('/')
}

/// Whether a feature may list `token`: the dependency that it speaks of
/// exists, and is optional unless the token is a reexport.
pub open spec fn token_allowed(deps: Seq<DependencyView>, token: Seq<char>) -> bool {
    match find_dependency(deps, token_base(token), 0) {
        Some(d) => d.optional || is_reexport(token),
        None => false,
    }
}

/// Whether the dependencies and features make a valid summary.
pub open spec fn summary_valid(deps: Seq<DependencyView>, table: Features) -> bool {
    &&& forall|i: int| 0 <= i < deps.len() ==> !optional_dev(#[trigger] deps[i])
    &&& forall|f: int, t: int|
        0 <= f < table.len() && 0 <= t < table[f].1.dependencies.len() ==> token_allowed(
            deps,
            #[trigger] table[f].1.dependencies[t],
        )
    &&& forall|f: int, g: int|
        0 <= f < table.len() && 0 <= g < table[f].1.features.len() ==> has_name(
            table,
            #[trigger] table[f].1.features[g],
        )
}

/// What is wrong with `token` in the feature called `feature`, if
/// anything.
pub open spec fn token_violation(
    deps: Seq<DependencyView>,
    feature: Seq<char>,
    token: Seq<char>,
) -> Option<ValidationErrorView> {
    match find_dependency(deps, token_base(token), 0) {
        Some(d) => if d.optional || is_reexport(token) {
            None
        } else {
            Some(ValidationErrorView::NotOptional { feature, dependency: token_base(token) })
        },
        None => Some(ValidationErrorView::NotADependency { feature, dependency: token_base(token) }),
    }
}

/// The first fault among the dependencies at or after `from`.
pub open spec fn scan_dependencies(deps: Seq<DependencyView>, from: int) -> Option<
    ValidationErrorView,
>
    decreases deps.len() - from,
{
    if from < 0 || from >= deps.len() {
        None
    } else if optional_dev(deps[from]) {
        Some(ValidationErrorView::OptionalDevDependency { dependency: deps[from].name })
    } else {
        scan_dependencies(deps, from + 1)
    }
}

/// The first fault among the tokens at or after `from`.
pub open spec fn scan_tokens(
    deps: Seq<DependencyView>,
    feature: Seq<char>,
    tokens: Seq<Seq<char>>,
    from: int,
) -> Option<ValidationErrorView>
    decreases tokens.len() - from,
{
    if from < 0 || from >= tokens.len() {
        None
    } else {
        match token_violation(deps, feature, tokens[from]) {
            Some(e) => Some(e),
            None => scan_tokens(deps, feature, tokens, from + 1),
        }
    }
}

/// The first of the required features at or after `from` that is missing
/// from the table.
pub open spec fn scan_required(
    table: Features,
    feature: Seq<char>,
    required: Seq<Seq<char>>,
    from: int,
) -> Option<ValidationErrorView>
    decreases required.len() - from,
{
    if from < 0 || from >= required.len() {
        None
    } else if !has_name(table, required[from]) {
        Some(ValidationErrorView::NotAFeature { feature, required: required[from] })
    } else {
        scan_required(table, feature, required, from + 1)
    }
}

/// The first fault of one feature: its tokens come before the features
/// that it requires.
pub open spec fn feature_violation(
    deps: Seq<DependencyView>,
    table: Features,
    entry: (Seq<char>, FeatureView),
) -> Option<ValidationErrorView> {
    match scan_tokens(deps, entry.0, entry.1.dependencies, 0) {
        Some(e) => Some(e),
        None => scan_required(table, entry.0, entry.1.features, 0),
    }
}

/// The first fault among the features at or after `from`.
pub open spec fn scan_features(deps: Seq<DependencyView>, table: Features, from: int) -> Option<
    ValidationErrorView,
>
    decreases table.len() - from,
{
    if from < 0 || from >= table.len() {
        None
    } else {
        match feature_violation(deps, table, table[from]) {
            Some(e) => Some(e),
            None => scan_features(deps, table, from + 1),
        }
    }
}

/// The first fault of the whole: the dependencies are looked at before
/// the features, each list in its order.
pub open spec fn first_violation(deps: Seq<DependencyView>, table: Features) -> Option<
    ValidationErrorView,
> {
    match scan_dependencies(deps, 0) {
        Some(e) => Some(e),
        None => scan_features(deps, table, 0),
    }
}

proof fn lemma_scan_dependencies(deps: Seq<DependencyView>, from: int)
    requires
        0 <= from,
    ensures
        scan_dependencies(deps, from) is None <==> forall|i: int|
            from <= i < deps.len() ==> !optional_dev(#[trigger] deps[i]),
    decreases deps.len() - from,
{
    if from < deps.len() {
        lemma_scan_dependencies(deps, from + 1);
    }
}

proof fn lemma_scan_tokens(
    deps: Seq<DependencyView>,
    feature: Seq<char>,
    tokens: Seq<Seq<char>>,
    from: int,
)
    requires
        0 <= from,
    ensures
        scan_tokens(deps, feature, tokens, from) is None <==> forall|t: int|
            from <= t < tokens.len() ==> token_allowed(deps, #[trigger] tokens[t]),
    decreases tokens.len() - from,
{
    if from < tokens.len() {
        lemma_scan_tokens(deps, feature, tokens, from + 1);
    }
}

proof fn lemma_scan_required(
    table: Features,
    feature: Seq<char>,
    required: Seq<Seq<char>>,
    from: int,
)
    requires
        0 <= from,
    ensures
        scan_required(table, feature, required, from) is None <==> forall|g: int|
            from <= g < required.len() ==> has_name(table, #[trigger] required[g]),
    decreases required.len() - from,
{
    if from < required.len() {
        lemma_scan_required(table, feature, required, from + 1);
    }
}

/// Whether the feature at `f` has no fault.
pub open spec fn feature_allowed(deps: Seq<DependencyView>, table: Features, f: int) -> bool {
    &&& forall|t: int|
        0 <= t < table[f].1.dependencies.len() ==> token_allowed(
            deps,
            #[trigger] table[f].1.dependencies[t],
        )
    &&& forall|g: int|
        0 <= g < table[f].1.features.len() ==> has_name(table, #[trigger] table[f].1.features[g])
}

proof fn lemma_scan_features(deps: Seq<DependencyView>, table: Features, from: int)
    requires
        0 <= from,
    ensures
        scan_features(deps, table, from) is None <==> forall|f: int|
            from <= f < table.len() ==> #[trigger] feature_allowed(deps, table, f),
    decreases table.len() - from,
{
    if from < table.len() {
        lemma_scan_features(deps, table, from + 1);
        lemma_scan_tokens(deps, table[from].0, table[from].1.dependencies, 0);
        lemma_scan_required(table, table[from].0, table[from].1.features, 0);
        if scan_features(deps, table, from) is None {
            assert(feature_allowed(deps, table, from));
            assert forall|f: int| from <= f < table.len() implies #[trigger] feature_allowed(
                deps,
                table,
                f,
            ) by {
                if f > from {
                }
            }
        } else if feature_violation(deps, table, table[from]) is Some {
            assert(!feature_allowed(deps, table, from));
        }
    }
}

/// There is a first fault exactly when the summary is not valid.
pub proof fn lemma_valid_iff_no_violation(deps: Seq<DependencyView>, table: Features)
    ensures
        first_violation(deps, table) is None <==> summary_valid(deps, table),
{
    lemma_scan_dependencies(deps, 0);
    lemma_scan_features(deps, table, 0);
    if first_violation(deps, table) is None {
        assert forall|f: int, t: int|
            0 <= f < table.len() && 0 <= t < table[f].1.dependencies.len() implies token_allowed(
            deps,
            #[trigger] table[f].1.dependencies[t],
        ) by {
            assert(feature_allowed(deps, table, f));
        }
        assert forall|f: int, g: int|
            0 <= f < table.len() && 0 <= g < table[f].1.features.len() implies has_name(
            table,
            #[trigger] table[f].1.features[g],
        ) by {
            assert(feature_allowed(deps, table, f));
        }
    }
    if summary_valid(deps, table) {
        assert forall|f: int| 0 <= f < table.len() implies #[trigger] feature_allowed(
            deps,
            table,
            f,
        ) by {}
    }
}

/// A summary is refused where a dependency is both optional and limited
/// to development.
pub proof fn lemma_optional_dev_dependency_refused(
    deps: Seq<DependencyView>,
    table: Features,
    i: int,
)
    requires
        0 <= i < deps.len(),
        deps[i].optional,
        !deps[i].transitive,
    ensures
        !summary_valid(deps, table),
        first_violation(deps, table) is Some,
{
    assert(optional_dev(deps[i]));
    lemma_valid_iff_no_violation(deps, table);
}

/// The search finds nothing exactly when no dependency at or after `from`
/// is called `name`.
pub proof fn lemma_find_none(deps: Seq<DependencyView>, name: Seq<char>, from: int)
    requires
        0 <= from,
    ensures
        find_dependency(deps, name, from) is None <==> forall|i: int|
            from <= i < deps.len() ==> (#[trigger] deps[i]).name != name,
    decreases deps.len() - from,
{
    if from < deps.len() {
        lemma_find_none(deps, name, from + 1);
    }
}

/// The search finds the dependency at `i` where that is the first one
/// called `name` at or after `from`.
pub proof fn lemma_find_first(deps: Seq<DependencyView>, name: Seq<char>, from: int, i: int)
    requires
        0 <= from <= i < deps.len(),
        deps[i].name == name,
        forall|j: int| from <= j < i ==> (#[trigger] deps[j]).name != name,
    ensures
        find_dependency(deps, name, from) == Some(deps[i]),
    decreases i - from,
{
    if from < i {
        assert(deps[from].name != name);
        lemma_find_first(deps, name, from + 1, i);
    }
}

/// A summary is refused where a feature lists a token that speaks of no
/// dependency.
pub proof fn lemma_unknown_dependency_refused(
    deps: Seq<DependencyView>,
    table: Features,
    f: int,
    t: int,
)
    requires
        0 <= f < table.len(),
        0 <= t < table[f].1.dependencies.len(),
        forall|i: int|
            0 <= i < deps.len() ==> (#[trigger] deps[i]).name != token_base(
                table[f].1.dependencies[t],
            ),
    ensures
        !summary_valid(deps, table),
        first_violation(deps, table) is Some,
{
    let token = table[f].1.dependencies[t];
    lemma_find_none(deps, token_base(token), 0);
    assert(!token_allowed(deps, token));
    lemma_valid_iff_no_violation(deps, table);
}

/// A summary is refused where a feature lists, in plain form, a
/// dependency that is not optional; the form `name/feature` is exempt.
pub proof fn lemma_plain_token_needs_optional(
    deps: Seq<DependencyView>,
    table: Features,
    f: int,
    t: int,
    i: int,
)
    requires
        0 <= f < table.len(),
        0 <= t < table[f].1.dependencies.len(),
        0 <= i < deps.len(),
        deps[i].name == token_base(table[f].1.dependencies[t]),
        forall|j: int| 0 <= j < i ==> (#[trigger] deps[j]).name != deps[i].name,
    ensures
        token_allowed(deps, table[f].1.dependencies[t]) <==> deps[i].optional || is_reexport(
            table[f].1.dependencies[t],
        ),
        !deps[i].optional && !is_reexport(table[f].1.dependencies[t]) ==> !summary_valid(
            deps,
            table,
        ) && first_violation(deps, table) is Some,
{
    let token = table[f].1.dependencies[t];
    lemma_find_first(deps, token_base(token), 0, i);
    lemma_valid_iff_no_violation(deps, table);
}

/// A summary is refused where a feature requires a feature that the
/// table does not hold.
pub proof fn lemma_unknown_feature_refused(
    deps: Seq<DependencyView>,
    table: Features,
    f: int,
    g: int,
)
    requires
        0 <= f < table.len(),
        0 <= g < table[f].1.features.len(),
        !has_name(table, table[f].1.features[g]),
    ensures
        !summary_valid(deps, table),
        first_violation(deps, table) is Some,
{
    lemma_valid_iff_no_violation(deps, table);
}

/// The identity, dependencies and features of one package.
#[derive(Debug)]
pub struct Summary {
    package_id: PackageId,
    dependencies: Vec<Dependency>,
    features: FeatureMap,
}

/// What a `Summary` stands for.
pub struct SummaryView {
    pub package_id: PackageIdView,
    pub dependencies: Seq<DependencyView>,
    pub features: Features,
}

impl View for Summary {
    type V = SummaryView;

    closed spec fn view(&self) -> SummaryView {
        SummaryView {
            package_id: self.package_id@,
            dependencies: self.dependencies.deep_view(),
            features: self.features@,
        }
    }
}

impl DeepView for Summary {
    type V = SummaryView;

    open spec fn deep_view(&self) -> SummaryView {
        self.view()
    }
}

/// Duplicates a list of dependencies.
pub fn clone_dependencies(v: &Vec<Dependency>) -> (r: Vec<Dependency>)
    ensures
        r.deep_view() == v.deep_view(),
{
    let mut r: Vec<Dependency> = Vec::new();
    let mut i: usize = 0;
    while i < v.len()
        invariant
            i <= v.len(),
            r.deep_view() == v.deep_view().take(i as int),
        decreases v.len() - i,
    {
        let ghost before = r.deep_view();
        r.push(v[i].clone());
        assert(r.deep_view() =~= before.push(v[i as int]@));
        assert(r.deep_view() =~= v.deep_view().take(i as int + 1));
        i += 1;
    }
    assert(v.deep_view().take(i as int) =~= v.deep_view());
    r
}

impl Clone for Summary {
    fn clone(&self) -> (r: Self)
        ensures
            r@ == self@,
    {
        Summary {
            package_id: self.package_id.clone(),
            dependencies: clone_dependencies(&self.dependencies),
            features: self.features.clone(),
        }
    }
}

/// Equality of summaries is equality of their identities: what they hold
/// besides is not compared.
impl PartialEq for Summary {
    fn eq(&self, other: &Summary) -> (r: bool) {
        self.package_id.same(&other.package_id)
    }
}

impl PartialEqSpecImpl for Summary {
    open spec fn obeys_eq_spec() -> bool {
        true
    }

    open spec fn eq_spec(&self, other: &Summary) -> bool {
        self@.package_id == other@.package_id
    }
}

/// Two summaries are equal exactly when their identities are: summaries
/// of one identity are equal whatever else they hold, and summaries of
/// two identities differ even where all else agrees.
pub proof fn lemma_equal_by_identity(a: Summary, b: Summary)
    ensures
        PartialEqSpec::eq_spec(&a, &b) <==> a@.package_id == b@.package_id,
{
}

/// The index of the first dependency called `name`.
fn find_by_name(deps: &Vec<Dependency>, name: &str) -> (r: Option<usize>)
    ensures
        match r {
            Some(i) => i < deps.len() && find_dependency(deps.deep_view(), name@, 0) == Some(
                deps[i as int]@,
            ),
            None => find_dependency(deps.deep_view(), name@, 0) is None,
        },
{
    let mut i: usize = 0;
    while i < deps.len()
        invariant
            i <= deps.len(),
            find_dependency(deps.deep_view(), name@, 0) == find_dependency(
                deps.deep_view(),
                name@,
                i as int,
            ),
        decreases deps.len() - i,
    {
        if same_text(deps[i].name(), name) {
            return Some(i);
        }
        i += 1;
    }
    None
}

/// Looks at one token of a feature.
fn check_token(deps: &Vec<Dependency>, feature: &str, token: &str) -> (r: Option<ValidationError>)
    ensures
        r is Some == token_violation(deps.deep_view(), feature@, token@) is Some,
        r matches Some(e) ==> Some(e@) == token_violation(deps.deep_view(), feature@, token@),
{
    let (base, reexport) = split_first(token, '/');
    match find_by_name(deps, base.as_str()) {
        Some(i) => {
            if deps[i].is_optional() || reexport {
                None
            } else {
                Some(ValidationError::NotOptional { feature: feature.to_owned(), dependency: base })
            }
        },
        None => Some(
            ValidationError::NotADependency { feature: feature.to_owned(), dependency: base },
        ),
    }
}

/// Looks at one feature: first at its tokens, then at the features that
/// it requires.
fn check_feature(deps: &Vec<Dependency>, table: &FeatureMap, index: usize) -> (r: Option<
    ValidationError,
>)
    requires
        index < table@.len(),
    ensures
        r is Some == feature_violation(deps.deep_view(), table@, table@[index as int]) is Some,
        r matches Some(e) ==> Some(e@) == feature_violation(
            deps.deep_view(),
            table@,
            table@[index as int],
        ),
{
    let name = table.name_at(index);
    let feature = table.feature_at(index);
    let tokens = feature.dependencies();
    let mut t: usize = 0;
    while t < tokens.len()
        invariant
            t <= tokens.len(),
            name@ == table@[index as int].0,
            tokens.deep_view() == table@[index as int].1.dependencies,
            scan_tokens(deps.deep_view(), name@, tokens.deep_view(), 0) == scan_tokens(
                deps.deep_view(),
                name@,
                tokens.deep_view(),
                t as int,
            ),
        decreases tokens.len() - t,
    {
        assert(tokens.deep_view()[t as int] == tokens[t as int]@);
        match check_token(deps, name, tokens[t].as_str()) {
            Some(e) => {
                return Some(e);
            },
            None => {},
        }
        t += 1;
    }
    let required = feature.features();
    let mut g: usize = 0;
    while g < required.len()
        invariant
            g <= required.len(),
            name@ == table@[index as int].0,
            required.deep_view() == table@[index as int].1.features,
            scan_tokens(
                deps.deep_view(),
                table@[index as int].0,
                table@[index as int].1.dependencies,
                0,
            ) is None,
            scan_required(table@, name@, required.deep_view(), 0) == scan_required(
                table@,
                name@,
                required.deep_view(),
                g as int,
            ),
        decreases required.len() - g,
    {
        assert(required.deep_view()[g as int] == required[g as int]@);
        if !table.contains_key(required[g].as_str()) {
            return Some(
                ValidationError::NotAFeature {
                    feature: name.to_owned(),
                    required: required[g].clone(),
                },
            );
        }
        g += 1;
    }
    None
}

impl Summary {
    /// Makes the summary of the package `pkg_id`, or says what is wrong
    /// with its dependencies and features. The dependencies are looked at
    /// first, then the features in the order of the table, in each its
    /// dependency tokens before the features that it requires; the first
    /// fault found is the one reported.
    pub fn new(pkg_id: PackageId, dependencies: Vec<Dependency>, features: FeatureMap) -> (r:
        Result<Summary, ValidationError>)
        ensures
            r is Ok <==> summary_valid(dependencies.deep_view(), features@),
            match r {
                Ok(s) => s@ == (SummaryView {
                    package_id: pkg_id@,
                    dependencies: dependencies.deep_view(),
                    features: features@,
                }),
                Err(e) => Some(e@) == first_violation(dependencies.deep_view(), features@),
            },
    {
        proof {
            lemma_valid_iff_no_violation(dependencies.deep_view(), features@);
        }
        let mut i: usize = 0;
        while i < dependencies.len()
            invariant
                i <= dependencies.len(),
                first_violation(dependencies.deep_view(), features@) is None <==> summary_valid(
                    dependencies.deep_view(),
                    features@,
                ),
                scan_dependencies(dependencies.deep_view(), 0) == scan_dependencies(
                    dependencies.deep_view(),
                    i as int,
                ),
            decreases dependencies.len() - i,
        {
            assert(dependencies.deep_view()[i as int] == dependencies[i as int]@);
            if dependencies[i].is_optional() && !dependencies[i].is_transitive() {
                return Err(
                    ValidationError::OptionalDevDependency {
                        dependency: dependencies[i].name().to_owned(),
                    },
                );
            }
            i += 1;
        }
        let mut f: usize = 0;
        while f < features.len()
            invariant
                f <= features@.len(),
                first_violation(dependencies.deep_view(), features@) is None <==> summary_valid(
                    dependencies.deep_view(),
                    features@,
                ),
                scan_dependencies(dependencies.deep_view(), 0) is None,
                scan_features(dependencies.deep_view(), features@, 0) == scan_features(
                    dependencies.deep_view(),
                    features@,
                    f as int,
                ),
            decreases features@.len() - f,
        {
            match check_feature(&dependencies, &features, f) {
                Some(e) => {
                    return Err(e);
                },
                None => {},
            }
            f += 1;
        }
        Ok(Summary { package_id: pkg_id, dependencies, features })
    }

    /// The identity of the package.
    pub fn package_id(&self) -> (r: &PackageId)
        ensures
            r@ == self@.package_id,
    {
        &self.package_id
    }

    /// The name of the package.
    pub fn name(&self) -> (r: &str)
        ensures
            r@ == self@.package_id.name,
    {
        self.package_id.name()
    }

    /// The version of the package.
    pub fn version(&self) -> (r: &Version)
        ensures
            r@ == self@.package_id.version,
    {
        self.package_id.version()
    }

    /// The source of the package.
    pub fn source_id(&self) -> (r: &SourceId)
        ensures
            r@ == self@.package_id.source_id,
    {
        self.package_id.source_id()
    }

    /// The dependencies, in the order in which they were given.
    pub fn dependencies(&self) -> (r: &[Dependency])
        ensures
            r.deep_view() == self@.dependencies,
    {
        let r = self.dependencies.as_slice();
        assert(r.deep_view() =~= self.dependencies.deep_view());
        r
    }

    /// The features by name.
    pub fn features(&self) -> (r: &FeatureMap)
        ensures
            r@ == self@.features,
    {
        &self.features
    }

    /// The same summary under another identity. Dependencies and features
    /// stay as they are and are not checked again.
    pub fn override_id(self, id: PackageId) -> (r: Summary)
        ensures
            r@ == (SummaryView { package_id: id@, ..self@ }),
    {
        Summary { package_id: id, dependencies: self.dependencies, features: self.features }
    }

    /// The dependencies as the values that `map_dependencies` hands to
    /// its function.
    pub closed spec fn dependency_values(&self) -> Seq<Dependency> {
        self.dependencies@
    }

    /// The dependencies of a summary are the views of its dependency
    /// values.
    pub proof fn lemma_dependency_values(&self)
        ensures
            self@.dependencies == self.dependency_values().map_values(|d: Dependency| d@),
    {
        assert(self@.dependencies =~= self.dependency_values().map_values(|d: Dependency| d@));
    }

    /// The summary with each dependency replaced by what `f` makes of it.
    /// `f` is called once for each dependency, from the first to the last,
    /// and the results stand in the same order. Nothing is checked again.
    pub fn map_dependencies<F: Fn(Dependency) -> Dependency>(self, f: F) -> (r: Summary)
        requires
            forall|i: int|
                0 <= i < self.dependency_values().len() ==> f.requires(
                    (#[trigger] self.dependency_values()[i],),
                ),
        ensures
            r@.package_id == self@.package_id,
            r@.features == self@.features,
            r.dependency_values().len() == self.dependency_values().len(),
            forall|i: int|
                0 <= i < self.dependency_values().len() ==> f.ensures(
                    (self.dependency_values()[i],),
                    #[trigger] r.dependency_values()[i],
                ),
    {
        let ghost given = self.dependencies@;
        assert forall|i: int| 0 <= i < given.len() implies f.requires(
            (#[trigger] given[i],),
        ) by {
            assert(given[i] == self.dependency_values()[i]);
        }
        let mut rest = self.dependencies;
        let mut reversed: Vec<Dependency> = Vec::new();
        while rest.len() > 0
            invariant
                rest@.len() + reversed@.len() == given.len(),
                rest@ == given.take(rest@.len() as int),
                forall|k: int|
                    0 <= k < reversed@.len() ==> #[trigger] reversed@[k] == given[given.len()
                        - 1 - k],
                forall|i: int| 0 <= i < given.len() ==> f.requires((#[trigger] given[i],)),
            decreases rest@.len(),
        {
            let d = rest.pop().unwrap();
            reversed.push(d);
            assert(rest@ =~= given.take(rest@.len() as int));
        }
        let mut mapped: Vec<Dependency> = Vec::new();
        while reversed.len() > 0
            invariant
                mapped@.len() + reversed@.len() == given.len(),
                forall|k: int|
                    0 <= k < reversed@.len() ==> #[trigger] reversed@[k] == given[given.len()
                        - 1 - k],
                forall|k: int|
                    0 <= k < mapped@.len() ==> f.ensures((given[k],), #[trigger] mapped@[k]),
                forall|i: int| 0 <= i < given.len() ==> f.requires((#[trigger] given[i],)),
            decreases reversed@.len(),
        {
            let ghost at = mapped@.len() as int;
            let d = reversed.pop().unwrap();
            assert(d == given[at]);
            let m = f(d);
            mapped.push(m);
        }
        Summary { package_id: self.package_id, dependencies: mapped, features: self.features }
    }
}

/// What can be asked of a list of summaries.
pub trait SummaryVec {
    /// The summaries of the list, in its order.
    spec fn summaries(&self) -> Seq<SummaryView>;

    /// The names of the packages, in the order of the list.
    fn names(&self) -> (r: Vec<String>)
        ensures
            r.deep_view() == self.summaries().map_values(|s: SummaryView| s.package_id.name),
    ;
}

impl SummaryVec for Vec<Summary> {
    open spec fn summaries(&self) -> Seq<SummaryView> {
        self.deep_view()
    }

    fn names(&self) -> (r: Vec<String>) {
        let mut r: Vec<String> = Vec::new();
        let mut i: usize = 0;
        while i < self.len()
            invariant
                i <= self.len(),
                r.deep_view() == self.deep_view().take(i as int).map_values(
                    |s: SummaryView| s.package_id.name,
                ),
            decreases self.len() - i,
        {
            let ghost before = r.deep_view();
            r.push(self[i].name().to_owned());
            assert(r.deep_view() =~= before.push(self[i as int]@.package_id.name));
            assert(r.deep_view() =~= self.deep_view().take(i as int + 1).map_values(
                |s: SummaryView| s.package_id.name,
            ));
            i += 1;
        }
        assert(self.deep_view().take(i as int) =~= self.deep_view());
        r
    }
}

} // verus!
