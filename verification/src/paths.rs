//! Paths as the library sees them: the sequence of their components.

use vstd::prelude::*;
use vstd::string::*;

verus! {

/// A path, held as its components in order: a root or prefix where there is
/// one, then each directory, then the final name. Joining a name to a path
/// adds one component, so nothing here depends on a platform's separator.
#[derive(Debug, PartialEq, Eq)]
pub struct FilePath {
    pub components: Vec<String>,
}

impl View for FilePath {
    type V = Seq<Seq<char>>;

    open spec fn view(&self) -> Seq<Seq<char>> {
        Seq::new(self.components@.len(), |i: int| self.components@[i]@)
    }
}

/// The name of the parent directory entry, `..`.
pub open spec fn parent_marker() -> Seq<char> {
    seq!['.', '.']
}

/// The final component of a path, where it names something: `None` for the
/// empty path and for one that ends in `..`.
pub open spec fn file_name_of(path: Seq<Seq<char>>) -> Option<Seq<char>> {
    if path.len() == 0 || path.last() == parent_marker() {
        None
    } else {
        Some(path.last())
    }
}

impl Clone for FilePath {
    fn clone(&self) -> (copy: Self)
        ensures
            copy@ == self@,
    {
        let mut components: Vec<String> = Vec::new();
        let mut i: usize = 0;
        while i < self.components.len()
            invariant
                i <= self.components@.len(),
                components@.len() == i,
                forall|k: int| 0 <= k < i ==> components@[k]@ == self.components@[k]@,
            decreases self.components@.len() - i,
        {
            components.push(self.components[i].clone());
            i = i + 1;
        }
        let copy = FilePath { components };
        assert(copy@ =~= self@);
        copy
    }
}

impl FilePath {
    /// The path made of the given components.
    pub fn new(components: Vec<String>) -> (path: Self)
        ensures
            path.components == components,
    {
        FilePath { components }
    }

    /// This path with `name` added as its final component.
    pub fn join(&self, name: &str) -> (joined: Self)
        ensures
            joined@ == self@.push(name@),
    {
        let mut joined = self.clone();
        joined.components.push(String::from_str(name));
        assert(joined@ =~= self@.push(name@));
        joined
    }

    /// The final component, where it names something.
    pub fn file_name(&self) -> (name: Option<&str>)
        ensures
            name is Some <==> file_name_of(self@) is Some,
            name is Some ==> Some(name->0@) == file_name_of(self@),
    {
        let n: usize = self.components.len();
        if n == 0 {
            return None;
        }
        let last = self.components[n - 1].as_str();
        assert(self@.last() == last@);
        if last.unicode_len() == 2 && last.get_char(0) == '.' && last.get_char(1) == '.' {
            assert(last@ =~= parent_marker());
            None
        } else {
            Some(last)
        }
    }
}

} // verus!
