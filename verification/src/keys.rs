//! The keys of a document that its schema does not know: their dotted
//! paths, and the ordered set that collects them.

use vstd::prelude::*;
use vstd::string::*;
use crate::text::{decimal, to_decimal};

verus! {

/// One step on the way from the root of a document to a value in it.
#[derive(Debug, PartialEq, Eq)]
pub enum Segment {
    /// An element of a sequence, by its position.
    Index { index: usize },
    /// An entry of a table, by its key.
    Key { key: String },
    /// The content of an optional value.
    Optional,
    /// The content of a newtype struct.
    NewtypeStruct,
    /// The content of a newtype variant.
    NewtypeVariant,
}

/// What a `Segment` stands for.
pub enum SegmentView {
    Index { index: usize },
    Key { key: Seq<char> },
    Optional,
    NewtypeStruct,
    NewtypeVariant,
}

impl View for Segment {
    type V = SegmentView;

    open spec fn view(&self) -> SegmentView {
        match self {
            Segment::Index { index } => SegmentView::Index { index: *index },
            Segment::Key { key } => SegmentView::Key { key: key@ },
            Segment::Optional => SegmentView::Optional,
            Segment::NewtypeStruct => SegmentView::NewtypeStruct,
            Segment::NewtypeVariant => SegmentView::NewtypeVariant,
        }
    }
}

impl DeepView for Segment {
    type V = SegmentView;

    open spec fn deep_view(&self) -> SegmentView {
        self.view()
    }
}

/// `text`, followed by a dot where it is not empty.
pub open spec fn with_dot(text: Seq<char>) -> Seq<char> {
    if text.len() == 0 {
        text
    } else {
        text.push('.')
    }
}

/// `text` with one segment written behind it: a key or a position is
/// set off by a dot from what stands before it, and the other segments
/// leave no mark.
pub open spec fn with_segment(text: Seq<char>, segment: SegmentView) -> Seq<char> {
    match segment {
        SegmentView::Index { index } => with_dot(text) + decimal(index as nat),
        SegmentView::Key { key } => with_dot(text) + key,
        _ => text,
    }
}

/// `text` with the segments of `path` written behind it, from the root
/// on.
pub open spec fn with_path(text: Seq<char>, path: Seq<SegmentView>) -> Seq<char>
    decreases path.len(),
{
    if path.len() == 0 {
        text
    } else {
        with_segment(with_path(text, path.drop_last()), path.last())
    }
}

/// The dotted form of a path, such as `package.metadata.foo`.
pub open spec fn dotted(path: Seq<SegmentView>) -> Seq<char> {
    with_path(Seq::empty(), path)
}

/// Writes the dotted form of `path` behind what `dst` holds: the keys
/// and positions on the way from the root, with dots between them.
pub fn stringify(dst: &mut String, path: &Vec<Segment>)
    ensures
        final(dst)@ == with_path(old(dst)@, path.deep_view()),
{
    let mut i: usize = 0;
    while i < path.len()
        invariant
            i <= path.len(),
            dst@ == with_path(old(dst)@, path.deep_view().take(i as int)),
        decreases path.len() - i,
    {
        proof {
            assert(path.deep_view().take(i as int + 1).drop_last() =~= path.deep_view().take(
                i as int,
            ));
            assert(path.deep_view().take(i as int + 1).last() == path[i as int]@);
            reveal_strlit(".");
        }
        let ghost before = dst@;
        match &path[i] {
            Segment::Index { index } => {
                if !dst.as_str().is_empty() {
                    dst.append(".");
                    assert(dst@ =~= before.push('.'));
                }
                dst.append(to_decimal(*index as u64).as_str());
            },
            Segment::Key { key } => {
                if !dst.as_str().is_empty() {
                    dst.append(".");
                    assert(dst@ =~= before.push('.'));
                }
                dst.append(key.as_str());
            },
            _ => {},
        }
        i += 1;
    }
    assert(path.deep_view().take(i as int) =~= path.deep_view());
}

/// Whether `a` comes before `b` in the order of a dictionary, going by
/// the numbers of the characters from the position `from` on. The texts
/// are taken to agree before `from`.
pub open spec fn before_from(a: Seq<char>, b: Seq<char>, from: int) -> bool
    decreases a.len() - from,
{
    if from < 0 || from >= b.len() {
        false
    } else if from >= a.len() {
        true
    } else if a[from] != b[from] {
        (a[from] as int) < (b[from] as int)
    } else {
        before_from(a, b, from + 1)
    }
}

/// Whether `a` comes before `b` in the order of a dictionary.
pub open spec fn text_before(a: Seq<char>, b: Seq<char>) -> bool {
    before_from(a, b, 0)
}

/// Of two texts that agree before `from`, either one comes before the
/// other or they are the same, and only one of the three holds.
pub proof fn lemma_order_total(a: Seq<char>, b: Seq<char>, from: int)
    requires
        0 <= from <= a.len(),
        from <= b.len(),
        forall|j: int| 0 <= j < from ==> a[j] == b[j],
    ensures
        before_from(a, b, from) || before_from(b, a, from) || a == b,
        !(before_from(a, b, from) && before_from(b, a, from)),
        a == b ==> !before_from(a, b, from),
    decreases a.len() - from,
{
    if from >= a.len() || from >= b.len() {
        if a.len() == b.len() {
            assert(a =~= b);
        }
    } else if a[from] == b[from] {
        lemma_order_total(a, b, from + 1);
    }
}

/// The order passes on: what comes before something that comes before a
/// third comes before the third.
pub proof fn lemma_order_transitive(a: Seq<char>, b: Seq<char>, c: Seq<char>, from: int)
    requires
        0 <= from,
        before_from(a, b, from),
        before_from(b, c, from),
    ensures
        before_from(a, c, from),
    decreases a.len() - from,
{
    if from < a.len() && a[from] == b[from] && b[from] == c[from] {
        lemma_order_transitive(a, b, c, from + 1);
    }
}

/// Whether the texts of `keys` stand in rising order, none twice.
pub open spec fn rising(keys: Seq<Seq<char>>) -> bool {
    forall|i: int, j: int|
        0 <= i < j < keys.len() ==> text_before(#[trigger] keys[i], #[trigger] keys[j])
}

/// How two texts stand to each other in the order of a dictionary.
#[derive(Clone, Copy, Debug, PartialEq, Eq, Structural)]
pub enum Place {
    Before,
    Same,
    After,
}

/// Tells how `a` stands to `b` in the order of a dictionary.
pub fn place_of(a: &str, b: &str) -> (r: Place)
    ensures
        r == Place::Before <==> text_before(a@, b@),
        r == Place::Same <==> a@ == b@,
        r == Place::After <==> text_before(b@, a@),
{
    let n = a.unicode_len();
    let m = b.unicode_len();
    let mut i: usize = 0;
    while i < n && i < m
        invariant
            n == a@.len(),
            m == b@.len(),
            i <= n,
            i <= m,
            forall|j: int| 0 <= j < i ==> a@[j] == b@[j],
            text_before(a@, b@) == before_from(a@, b@, i as int),
            text_before(b@, a@) == before_from(b@, a@, i as int),
        decreases n - i,
    {
        let x = a.get_char(i);
        let y = b.get_char(i);
        if x != y {
            proof {
                lemma_order_total(a@, b@, i as int);
            }
            if (x as u32) < (y as u32) {
                return Place::Before;
            } else {
                return Place::After;
            }
        }
        i += 1;
    }
    proof {
        lemma_order_total(a@, b@, i as int);
    }
    if n < m {
        Place::Before
    } else if n > m {
        Place::After
    } else {
        Place::Same
    }
}

/// A set of keys, held in the order of a dictionary.
#[derive(Debug)]
pub struct KeySet {
    keys: Vec<String>,
}

impl View for KeySet {
    type V = Seq<Seq<char>>;

    closed spec fn view(&self) -> Seq<Seq<char>> {
        self.keys.deep_view()
    }
}

impl KeySet {
    #[verifier::type_invariant]
    closed spec fn ordered(&self) -> bool {
        rising(self@)
    }

    /// The set without keys.
    pub fn new() -> (r: Self)
        ensures
            r@ == Seq::<Seq<char>>::empty(),
    {
        let keys: Vec<String> = Vec::new();
        assert(keys.deep_view() =~= Seq::<Seq<char>>::empty());
        KeySet { keys }
    }

    /// The number of keys. They stand in rising order.
    pub fn len(&self) -> (r: usize)
        ensures
            r == self@.len(),
            rising(self@),
    {
        proof {
            use_type_invariant(self);
        }
        self.keys.len()
    }

    /// The key at `index`.
    pub fn key_at(&self, index: usize) -> (r: &str)
        requires
            index < self@.len(),
        ensures
            r@ == self@[index as int],
    {
        self.keys[index].as_str()
    }

    /// Whether `key` is in the set.
    pub fn contains(&self, key: &str) -> (r: bool)
        ensures
            r == self@.contains(key@),
    {
        let mut i: usize = 0;
        while i < self.keys.len()
            invariant
                i <= self.keys.len(),
                forall|j: int| 0 <= j < i ==> self@[j] != key@,
            decreases self.keys.len() - i,
        {
            assert(self@[i as int] == self.keys[i as int]@);
            if place_of(self.keys[i].as_str(), key) == Place::Same {
                return true;
            }
            i += 1;
        }
        false
    }

    /// Puts `key` into the set, at its place in the order, and tells
    /// whether it was new.
    pub fn insert(&mut self, key: String) -> (r: bool)
        ensures
            r == !old(self)@.contains(key@),
            final(self)@.to_set() == old(self)@.to_set().insert(key@),
            rising(final(self)@),
            final(self)@.len() == old(self)@.len() + if r { 1int } else { 0int },
    {
        proof {
            use_type_invariant(&*self);
        }
        let ghost before = self@;
        let mut at: usize = 0;
        while at < self.keys.len() && place_of(self.keys[at].as_str(), key.as_str())
            == Place::Before
            invariant
                at <= self.keys.len(),
                self@ == before,
                rising(before),
                forall|j: int| 0 <= j < at ==> text_before(#[trigger] before[j], key@),
            decreases self.keys.len() - at,
        {
            assert(before[at as int] == self.keys[at as int]@);
            at += 1;
        }
        if at < self.keys.len() && place_of(self.keys[at].as_str(), key.as_str()) == Place::Same {
            proof {
                assert(before[at as int] == self.keys[at as int]@);
                assert(before.to_set() =~= before.to_set().insert(key@));
            }
            return false;
        }
        proof {
            if at < before.len() {
                assert(before[at as int] == self.keys[at as int]@);
                lemma_order_total(before[at as int], key@, 0);
                assert(text_before(key@, before[at as int]));
            }
            assert forall|j: int| at <= j < before.len() implies text_before(
                key@,
                #[trigger] before[j],
            ) by {
                if j > at {
                    lemma_order_transitive(key@, before[at as int], before[j], 0);
                }
            }
            assert forall|j: int| 0 <= j < before.len() implies before[j] != key@ by {
                if j >= at {
                    lemma_order_total(key@, before[j], 0);
                } else {
                    lemma_order_total(before[j], key@, 0);
                }
            }
        }
        let ghost added = key@;
        let mut taken = KeySet::new();
        std::mem::swap(self, &mut taken);
        let mut keys = taken.keys;
        keys.insert(at, key);
        proof {
            let after = keys.deep_view();
            assert(after =~= before.insert(at as int, added));
            assert forall|i: int, j: int| 0 <= i < j < after.len() implies text_before(
                #[trigger] after[i],
                #[trigger] after[j],
            ) by {
                if i < at && j > at {
                    assert(after[i] == before[i]);
                    assert(after[j] == before[j - 1]);
                } else if i < at && j == at {
                    assert(after[i] == before[i]);
                } else if i < at && j < at {
                    assert(after[i] == before[i]);
                    assert(after[j] == before[j]);
                } else if i == at {
                    assert(after[j] == before[j - 1]);
                } else {
                    assert(after[i] == before[i - 1]);
                    assert(after[j] == before[j - 1]);
                }
            }
            assert forall|x: Seq<char>| after.to_set().contains(x) <==> before.to_set().insert(
                added,
            ).contains(x) by {
                if after.contains(x) {
                    let k = choose|k: int| 0 <= k < after.len() && after[k] == x;
                    if k < at {
                        assert(before[k] == x);
                    } else if k > at {
                        assert(before[k - 1] == x);
                    }
                }
                if before.contains(x) {
                    let k = choose|k: int| 0 <= k < before.len() && before[k] == x;
                    if k < at {
                        assert(after[k] == x);
                    } else {
                        assert(after[k + 1] == x);
                    }
                }
                if x == added {
                    assert(after[at as int] == x);
                }
            }
            assert(after.to_set() =~= before.to_set().insert(added));
        }
        *self = KeySet { keys };
        true
    }
}

} // verus!
