//! Places in the file system.

use crate::native::{
    file_name_in, file_name_of, is_plain, join_text, joined, law_a_plain_name_is_the_file_name,
    starts_doubly,
};
use crate::paths::Platform;
use vstd::prelude::*;

verus! {

/// A place in the file system: a path to start at, and what is joined to it, text by text.
///
/// How the texts are joined differs from platform to platform.
#[derive(Debug, PartialEq, Eq)]
pub struct Location {
    /// The path to start at.
    pub base: String,
    /// What is joined to it, in order; mostly names, each of one file or directory.
    pub names: Vec<String>,
}

/// What a [`Location`] says.
#[verifier::ext_equal]
pub struct Place {
    pub base: Seq<char>,
    pub names: Seq<Seq<char>>,
}

impl Place {
    /// The place called `name` in this directory.
    pub open spec fn join(self, name: Seq<char>) -> Place {
        Place { base: self.base, names: self.names.push(name) }
    }

    /// The path as it is written on `platform`.
    pub open spec fn path(self, platform: Platform) -> Seq<char>
        decreases self.names.len(),
    {
        if self.names.len() == 0 {
            self.base
        } else {
            joined(
                platform,
                Place { base: self.base, names: self.names.drop_last() }.path(platform),
                self.names.last(),
            )
        }
    }

    /// The name that the path ends in on `platform`, if it ends in one.
    #[verifier::opaque]
    pub open spec fn file_name(self, platform: Platform) -> Option<Seq<char>> {
        file_name_in(platform, self.path(platform))
    }

    /// Whether the place lies directly in `directory`.
    pub open spec fn lies_in(self, directory: Place) -> bool {
        self.names.len() > 0 && self == directory.join(self.names.last())
    }

    /// Whether the place is `directory`, or lies below it.
    pub open spec fn lies_under(self, directory: Place) -> bool {
        self.base == directory.base && directory.names.is_prefix_of(self.names)
    }
}

/// A place called by a plain name in a directory ends in that name. On Windows the directory's
/// path must not start with two separators.
pub proof fn law_a_file_is_called_by_its_plain_name(
    platform: Platform,
    directory: Place,
    name: Seq<char>,
)
    requires
        is_plain(platform, name),
        platform is Windows ==> !starts_doubly(directory.path(platform)),
    ensures
        directory.join(name).file_name(platform) == Some(name),
{
    reveal(Place::file_name);
    assert(directory.join(name).names.drop_last() =~= directory.names);
    law_a_plain_name_is_the_file_name(platform, directory.path(platform), name);
}

impl View for Location {
    type V = Place;

    open spec fn view(&self) -> Place {
        Place { base: self.base@, names: self.names@.map_values(|name: String| name@) }
    }
}

impl Clone for Location {
    fn clone(&self) -> (r: Location)
        ensures
            r@ == self@,
    {
        let r = Location { base: self.base.clone(), names: self.names.clone() };
        proof {
            assert forall|i: int| 0 <= i < self.names@.len() implies r.names@[i]@
                == self.names@[i]@ by {
                assert(cloned(self.names@[i], r.names@[i]));
            }
            assert(r@.names =~= self@.names);
        }
        r
    }
}

impl Location {
    /// The place that `path` leads to.
    pub fn new(path: &str) -> (r: Location)
        ensures
            r@ == (Place { base: path@, names: Seq::empty() }),
    {
        let r = Location { base: path.to_owned(), names: Vec::new() };
        proof {
            assert(r@.names =~= Seq::empty());
        }
        r
    }

    /// The place called `name` in this directory.
    pub fn join(&self, name: &str) -> (r: Location)
        ensures
            r@ == self@.join(name@),
    {
        let mut r = self.clone();
        r.names.push(name.to_owned());
        proof {
            assert(r@.names =~= self@.names.push(name@));
        }
        r
    }

    /// The path as it is written on `platform`.
    pub fn path(&self, platform: Platform) -> (r: String)
        ensures
            r@ == self@.path(platform),
    {
        let ghost all = self@.names;
        let mut r = self.base.clone();
        let mut i: usize = 0;
        while i < self.names.len()
            invariant
                i <= self.names@.len(),
                all == self@.names,
                r@ == (Place { base: self@.base, names: all.take(i as int) }).path(platform),
            decreases self.names@.len() - i,
        {
            proof {
                assert(all.take(i + 1).drop_last() =~= all.take(i as int));
                assert(all.take(i + 1).last() == self.names@[i as int]@);
            }
            r = join_text(platform, r.as_str(), self.names[i].as_str());
            i = i + 1;
        }
        proof {
            assert(all.take(all.len() as int) == all);
        }
        r
    }

    /// The name that the path ends in on `platform`, if it ends in one.
    pub fn file_name(&self, platform: Platform) -> (r: Option<String>)
        ensures
            match r {
                Some(name) => self@.file_name(platform) == Some(name@),
                None => self@.file_name(platform) is None,
            },
    {
        proof {
            reveal(Place::file_name);
        }
        file_name_of(platform, self.path(platform).as_str())
    }
}

} // verus!
