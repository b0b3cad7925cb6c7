//! Features of a package, and the table that holds them by name.

use vstd::prelude::*;
use vstd::string::*;
use crate::paths::{clone_strings, same_text};

verus! {

/// A switch that users of a package may turn on. It lists the
/// dependencies that it needs, each as a plain name or as `name/feature`,
/// and the other features that it turns on.
#[derive(Debug, PartialEq, Eq)]
pub struct Feature {
    pub dependencies: Vec<String>,
    pub features: Vec<String>,
}

/// What a `Feature` stands for.
pub struct FeatureView {
    pub dependencies: Seq<Seq<char>>,
    pub features: Seq<Seq<char>>,
}

impl View for Feature {
    type V = FeatureView;

    open spec fn view(&self) -> FeatureView {
        FeatureView {
            dependencies: self.dependencies.deep_view(),
            features: self.features.deep_view(),
        }
    }
}

impl DeepView for Feature {
    type V = FeatureView;

    open spec fn deep_view(&self) -> FeatureView {
        self.view()
    }
}

impl Clone for Feature {
    fn clone(&self) -> (r: Self)
        ensures
            r@ == self@,
    {
        Feature {
            dependencies: clone_strings(&self.dependencies),
            features: clone_strings(&self.features),
        }
    }
}

impl Feature {
    /// The feature with the given lists.
    pub fn new(dependencies: Vec<String>, features: Vec<String>) -> (r: Self)
        ensures
            r@ == (FeatureView {
                dependencies: dependencies.deep_view(),
                features: features.deep_view(),
            }),
    {
        Feature { dependencies, features }
    }

    /// The dependencies that the feature needs.
    pub fn dependencies(&self) -> (r: &Vec<String>)
        ensures
            r.deep_view() == self@.dependencies,
    {
        &self.dependencies
    }

    /// The features that the feature turns on.
    pub fn features(&self) -> (r: &Vec<String>)
        ensures
            r.deep_view() == self@.features,
    {
        &self.features
    }
}

/// The index of the first entry of `table` under `name`, or the length of
/// `table` if there is none.
pub open spec fn position(table: Seq<(Seq<char>, FeatureView)>, name: Seq<char>) -> int
    decreases table.len(),
{
    if table.len() == 0 || table[0].0 == name {
        0
    } else {
        1 + position(table.drop_first(), name)
    }
}

/// Whether `table` has an entry under `name`.
pub open spec fn has_name(table: Seq<(Seq<char>, FeatureView)>, name: Seq<char>) -> bool {
    exists|k: int| 0 <= k < table.len() && (#[trigger] table[k]).0 == name
}

/// Whether no two entries of `table` stand under one name.
pub open spec fn distinct_names(table: Seq<(Seq<char>, FeatureView)>) -> bool {
    forall|i: int, j: int|
        0 <= i < j < table.len() ==> (#[trigger] table[i]).0 != (#[trigger] table[j]).0
}

/// `position` is the least index under `name`.
pub proof fn lemma_position(table: Seq<(Seq<char>, FeatureView)>, name: Seq<char>)
    ensures
        0 <= position(table, name) <= table.len(),
        forall|k: int| 0 <= k < position(table, name) ==> (#[trigger] table[k]).0 != name,
        position(table, name) < table.len() ==> table[position(table, name)].0 == name,
        has_name(table, name) <==> position(table, name) < table.len(),
    decreases table.len(),
{
    if table.len() == 0 || table[0].0 == name {
    } else {
        let rest = table.drop_first();
        lemma_position(rest, name);
        let p = position(rest, name);
        assert forall|k: int| 0 <= k < p + 1 implies (#[trigger] table[k]).0 != name by {
            if k > 0 {
                assert(rest[k - 1] == table[k]);
            }
        }
        if p < rest.len() {
            assert(rest[p] == table[p + 1]);
        }
        if has_name(table, name) {
            let k = choose|k: int| 0 <= k < table.len() && (#[trigger] table[k]).0 == name;
            assert(rest[k - 1] == table[k]);
        }
    }
}

/// A table of features by name. No name occurs twice; the entries keep
/// the order in which their names first came in.
#[derive(Debug)]
pub struct FeatureMap {
    entries: Vec<(String, Feature)>,
}

impl View for FeatureMap {
    type V = Seq<(Seq<char>, FeatureView)>;

    closed spec fn view(&self) -> Seq<(Seq<char>, FeatureView)> {
        Seq::new(self.entries@.len(), |i: int| (self.entries@[i].0@, self.entries@[i].1@))
    }
}

impl DeepView for FeatureMap {
    type V = Seq<(Seq<char>, FeatureView)>;

    open spec fn deep_view(&self) -> Seq<(Seq<char>, FeatureView)> {
        self.view()
    }
}

impl Clone for FeatureMap {
    fn clone(&self) -> (r: Self)
        ensures
            r@ == self@,
    {
        proof {
            use_type_invariant(self);
        }
        let mut entries: Vec<(String, Feature)> = Vec::new();
        let mut i: usize = 0;
        while i < self.entries.len()
            invariant
                i <= self.entries.len(),
                entries@.len() == i,
                forall|k: int|
                    0 <= k < i ==> (#[trigger] entries@[k]).0@ == self.entries@[k].0@
                        && entries@[k].1@ == self.entries@[k].1@,
            decreases self.entries.len() - i,
        {
            entries.push((self.entries[i].0.clone(), self.entries[i].1.clone()));
            i += 1;
        }
        proof {
            let copied = Seq::new(entries@.len(), |k: int| (entries@[k].0@, entries@[k].1@));
            assert(copied =~= self@);
        }
        FeatureMap { entries }
    }
}

impl FeatureMap {
    #[verifier::type_invariant]
    closed spec fn distinct(&self) -> bool {
        distinct_names(self@)
    }

    /// The table without entries.
    pub fn new() -> (r: Self)
        ensures
            r@ == Seq::<(Seq<char>, FeatureView)>::empty(),
    {
        let r = FeatureMap { entries: Vec::new() };
        assert(r@ =~= Seq::<(Seq<char>, FeatureView)>::empty());
        r
    }

    /// The number of entries. No two of them stand under one name.
    pub fn len(&self) -> (r: usize)
        ensures
            r == self@.len(),
            distinct_names(self@),
    {
        proof {
            use_type_invariant(self);
        }
        self.entries.len()
    }

    /// The name of the entry at `index`.
    pub fn name_at(&self, index: usize) -> (r: &str)
        requires
            index < self@.len(),
        ensures
            r@ == self@[index as int].0,
    {
        self.entries[index].0.as_str()
    }

    /// The feature of the entry at `index`.
    pub fn feature_at(&self, index: usize) -> (r: &Feature)
        requires
            index < self@.len(),
        ensures
            r@ == self@[index as int].1,
    {
        &self.entries[index].1
    }

    /// The index of the entry under `name`, if there is one.
    pub fn index_of(&self, name: &str) -> (r: Option<usize>)
        ensures
            match r {
                Some(i) => i < self@.len() && i == position(self@, name@),
                None => position(self@, name@) == self@.len(),
            },
    {
        let mut i: usize = 0;
        while i < self.entries.len()
            invariant
                i <= self.entries.len(),
                forall|k: int| 0 <= k < i ==> (#[trigger] self@[k]).0 != name@,
            decreases self.entries.len() - i,
        {
            if same_text(self.entries[i].0.as_str(), name) {
                proof {
                    lemma_position(self@, name@);
                    let p = position(self@, name@);
                    assert(self@[i as int].0 == name@);
                    if p < i {
                        assert(self@[p].0 == name@);
                    }
                }
                return Some(i);
            }
            i += 1;
        }
        proof {
            lemma_position(self@, name@);
            let p = position(self@, name@);
            if p < self@.len() {
                assert(self@[p].0 == name@);
            }
        }
        None
    }

    /// Whether there is an entry under `name`.
    pub fn contains_key(&self, name: &str) -> (r: bool)
        ensures
            r == has_name(self@, name@),
    {
        proof {
            lemma_position(self@, name@);
        }
        self.index_of(name).is_some()
    }

    /// The feature under `name`, if there is one.
    pub fn get(&self, name: &str) -> (r: Option<&Feature>)
        ensures
            match r {
                Some(f) => has_name(self@, name@) && f@ == self@[position(self@, name@)].1,
                None => !has_name(self@, name@),
            },
    {
        proof {
            lemma_position(self@, name@);
        }
        match self.index_of(name) {
            Some(i) => Some(&self.entries[i].1),
            None => None,
        }
    }

    /// Puts `feature` under `name`. An entry that stood under `name` is
    /// replaced in its place; otherwise the new entry comes last.
    pub fn insert(&mut self, name: String, feature: Feature)
        ensures
            final(self)@ == if has_name(old(self)@, name@) {
                old(self)@.update(position(old(self)@, name@), (name@, feature@))
            } else {
                old(self)@.push((name@, feature@))
            },
    {
        proof {
            use_type_invariant(&*self);
            lemma_position(self@, name@);
        }
        let ghost before = self@;
        let found = self.index_of(name.as_str());
        let mut taken = FeatureMap::new();
        std::mem::swap(self, &mut taken);
        let mut entries = taken.entries;
        match found {
            Some(i) => {
                entries.set(i, (name, feature));
            },
            None => {
                entries.push((name, feature));
            },
        }
        let ghost after = Seq::new(entries@.len(), |k: int| (entries@[k].0@, entries@[k].1@));
        proof {
            if found is Some {
                assert(after =~= before.update(found->0 as int, (name@, feature@)));
            } else {
                assert(after =~= before.push((name@, feature@)));
                assert forall|k: int| 0 <= k < before.len() implies (#[trigger] before[k]).0
                    != name@ by {}
            }
            assert(distinct_names(after));
        }
        *self = FeatureMap { entries };
    }
}

} // verus!
