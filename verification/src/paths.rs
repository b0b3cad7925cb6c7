//! Paths as sequences of components.
//!
//! A path is modelled by the sequence of its components, so that "lies
//! under" is the prefix relation and the file name is the last component.

use vstd::prelude::*;
use vstd::string::*;
use crate::text::{join, joined};

verus! {

/// A path, held as its components from the outermost to the innermost.
#[derive(Debug, PartialEq, Eq)]
pub struct FilePath {
    pub parts: Vec<String>,
}

impl View for FilePath {
    type V = Seq<Seq<char>>;

    open spec fn view(&self) -> Seq<Seq<char>> {
        self.parts.deep_view()
    }
}

impl DeepView for FilePath {
    type V = Seq<Seq<char>>;

    open spec fn deep_view(&self) -> Seq<Seq<char>> {
        self.view()
    }
}

/// The text of a path: its components with `/` between them.
pub open spec fn path_text(p: Seq<Seq<char>>) -> Seq<char> {
    joined(p, seq!['/'])
}

/// Duplicates a list of strings.
pub fn clone_strings(v: &Vec<String>) -> (r: Vec<String>)
    ensures
        r.deep_view() == v.deep_view(),
        r@ == v@,
{
    let mut r: Vec<String> = Vec::new();
    let mut i: usize = 0;
    while i < v.len()
        invariant
            i <= v.len(),
            r@ == v@.take(i as int),
        decreases v.len() - i,
    {
        r.push(v[i].clone());
        assert(r@ =~= v@.take(i as int + 1));
        i += 1;
    }
    assert(v@.take(i as int) =~= v@);
    assert(r.deep_view() =~= v.deep_view());
    r
}

impl Clone for FilePath {
    fn clone(&self) -> (r: Self)
        ensures
            r@ == self@,
    {
        FilePath { parts: clone_strings(&self.parts) }
    }
}

impl FilePath {
    /// The path with the given components.
    pub fn new(parts: Vec<String>) -> (r: Self)
        ensures
            r@ == parts.deep_view(),
    {
        FilePath { parts }
    }

    /// The number of components.
    pub fn depth(&self) -> (r: usize)
        ensures
            r == self@.len(),
    {
        self.parts.len()
    }

    /// The last component, if there is one.
    pub fn file_name(&self) -> (r: Option<&String>)
        ensures
            match r {
                Some(name) => self@.len() > 0 && name@ == self@.last(),
                None => self@.len() == 0,
            },
    {
        let n = self.parts.len();
        if n == 0 {
            None
        } else {
            Some(&self.parts[n - 1])
        }
    }

    /// Whether the last component is `name`.
    pub fn is_named(&self, name: &str) -> (r: bool)
        ensures
            r == (self@.len() > 0 && self@.last() == name@),
    {
        let n = self.parts.len();
        n > 0 && same_text(self.parts[n - 1].as_str(), name)
    }

    /// The directory that holds this path: the path without its last
    /// component. The empty path is its own parent.
    pub fn parent(&self) -> (r: Self)
        ensures
            r@ == if self@.len() > 0 { self@.drop_last() } else { self@ },
    {
        let mut parts = clone_strings(&self.parts);
        if parts.len() > 0 {
            parts.pop();
        }
        let r = FilePath { parts };
        assert(r@ =~= if self@.len() > 0 { self@.drop_last() } else { self@ });
        r
    }

    /// This path extended by one component.
    pub fn join(&self, name: &str) -> (r: Self)
        ensures
            r@ == self@.push(name@),
    {
        let mut parts = clone_strings(&self.parts);
        parts.push(name.to_owned());
        let r = FilePath { parts };
        assert(r@ =~= self@.push(name@));
        r
    }

    /// This path extended by all the components of `rest`.
    pub fn concat(&self, rest: &FilePath) -> (r: Self)
        ensures
            r@ == self@ + rest@,
    {
        let mut parts = clone_strings(&self.parts);
        let mut i: usize = 0;
        while i < rest.parts.len()
            invariant
                i <= rest.parts.len(),
                parts.deep_view() == self@ + rest@.take(i as int),
            decreases rest.parts.len() - i,
        {
            let ghost before = parts.deep_view();
            parts.push(rest.parts[i].clone());
            assert(parts.deep_view() =~= before.push(rest.parts[i as int]@));
            assert(rest@.take(i as int + 1) =~= rest@.take(i as int).push(rest@[i as int]));
            assert(parts.deep_view() =~= self@ + rest@.take(i as int + 1));
            i += 1;
        }
        assert(rest@.take(i as int) =~= rest@);
        FilePath { parts }
    }

    /// Whether this path is `base` or lies under it.
    pub fn starts_with(&self, base: &FilePath) -> (r: bool)
        ensures
            r == base@.is_prefix_of(self@),
    {
        if base.parts.len() > self.parts.len() {
            return false;
        }
        let mut i: usize = 0;
        while i < base.parts.len()
            invariant
                i <= base.parts.len() <= self.parts.len(),
                forall|j: int| 0 <= j < i ==> self@[j] == base@[j],
            decreases base.parts.len() - i,
        {
            if self.parts[i] != base.parts[i] {
                assert(self@[i as int] != base@[i as int]);
                assert(self@.subrange(0, base@.len() as int)[i as int] == self@[i as int]);
                return false;
            }
            i += 1;
        }
        assert(base@ =~= self@.subrange(0, base@.len() as int));
        true
    }

    /// What is left of this path after `base`, where it is `base` or lies
    /// under it.
    pub fn strip_prefix(&self, base: &FilePath) -> (r: Option<FilePath>)
        ensures
            match r {
                Some(rest) => base@.is_prefix_of(self@) && rest@ == self@.skip(base@.len() as int),
                None => !base@.is_prefix_of(self@),
            },
    {
        if !self.starts_with(base) {
            return None;
        }
        let mut parts: Vec<String> = Vec::new();
        let mut i: usize = base.parts.len();
        while i < self.parts.len()
            invariant
                base.parts.len() <= i <= self.parts.len(),
                parts.deep_view() == self@.subrange(base@.len() as int, i as int),
            decreases self.parts.len() - i,
        {
            let ghost before = parts.deep_view();
            parts.push(self.parts[i].clone());
            assert(parts.deep_view() =~= before.push(self.parts[i as int]@));
            assert(parts.deep_view() =~= self@.subrange(base@.len() as int, i as int + 1));
            i += 1;
        }
        assert(self@.subrange(base@.len() as int, i as int) =~= self@.skip(base@.len() as int));
        Some(FilePath { parts })
    }

    /// Whether two paths have the same components.
    pub fn same(&self, other: &FilePath) -> (r: bool)
        ensures
            r == (self@ == other@),
    {
        let r = self.parts.len() == other.parts.len() && self.starts_with(other);
        proof {
            if r {
                assert(other@ =~= self@.subrange(0, other@.len() as int));
                assert(self@ =~= other@);
            }
            if self@ == other@ {
                assert(other@ =~= self@.subrange(0, other@.len() as int));
            }
        }
        r
    }

    /// The text of the path: its components with `/` between them.
    pub fn to_text(&self) -> (r: String)
        ensures
            r@ == path_text(self@),
    {
        proof {
            reveal_strlit("/");
            assert("/"@ =~= seq!['/']);
        }
        join(&self.parts, "/")
    }
}

/// Whether two strings hold the same text.
pub fn same_text(a: &str, b: &str) -> (r: bool)
    ensures
        r == (a@ == b@),
{
    let x = a.as_bytes();
    let y = b.as_bytes();
    proof {
        vstd::utf8::encode_utf8_decode_utf8(a@);
        vstd::utf8::encode_utf8_decode_utf8(b@);
    }
    if x.len() != y.len() {
        return false;
    }
    let mut i: usize = 0;
    while i < x.len()
        invariant
            i <= x.len(),
            x.len() == y.len(),
            x@ == a.spec_bytes(),
            y@ == b.spec_bytes(),
            forall|j: int| 0 <= j < i ==> x@[j] == y@[j],
        decreases x.len() - i,
    {
        if x[i] != y[i] {
            return false;
        }
        i += 1;
    }
    assert(x@ =~= y@);
    true
}

} // verus!
