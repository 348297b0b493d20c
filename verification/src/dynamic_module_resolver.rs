//! The name-to-file lookup the sandbox resolves module references through.
//!
//! One module may reference another by bare name; the name is the other
//! module's file stem. The table is built once from the profile's resolved
//! module paths; when two modules share a stem, the later one wins, as an
//! insertion into a map keyed by stem would have it.
use vstd::prelude::*;

use crate::error::Error;
use crate::paths::{file_stem, file_stem_of};

verus! {

/// The stems of a module list paired with the paths they stand for.
pub open spec fn stems_view(v: Seq<(String, String)>) -> Seq<(Seq<char>, Seq<char>)> {
    v.map_values(|p: (String, String)| (p.0@, p.1@))
}

/// The path registered under `name`: that of the last pair whose stem is
/// `name`, or nothing when no pair's stem is.
pub open spec fn lookup_spec(stems: Seq<(Seq<char>, Seq<char>)>, name: Seq<char>) -> Option<
    Seq<char>,
>
    decreases stems.len(),
{
    if stems.len() == 0 {
        None
    } else if stems.last().0 == name {
        Some(stems.last().1)
    } else {
        lookup_spec(stems.drop_last(), name)
    }
}

/// Resolves bare module names to the module files of one profile.
pub struct DynamicModuleResolver {
    stems: Vec<(String, String)>,
}

impl DynamicModuleResolver {
    /// The (stem, path) pairs this resolver holds, one per module, in the
    /// modules' listed order.
    pub closed spec fn stems(&self) -> Seq<(Seq<char>, Seq<char>)> {
        stems_view(self.stems@)
    }

    /// Builds the lookup table for the given resolved module paths: each
    /// module is known by its file stem. A module path with an empty file
    /// name has no stem and is refused.
    pub fn new(modules: &Vec<String>) -> (r: Result<DynamicModuleResolver, Error>)
        ensures
            r matches Ok(res) ==> ({
                &&& res.stems().len() == modules@.len()
                &&& forall|i: int|
                    0 <= i < modules@.len() ==> file_stem_of(modules@[i]@) == Some(
                        #[trigger] res.stems()[i].0,
                    ) && res.stems()[i].1 == modules@[i]@
            }),
            r is Ok <==> (forall|i: int|
                0 <= i < modules@.len() ==> #[trigger] file_stem_of(modules@[i]@) is Some),
            r matches Err(e) ==> e matches Error::NoEmptyFileName,
    {
        let n = modules.len();
        let mut stems: Vec<(String, String)> = Vec::new();
        let mut i: usize = 0;
        while i < n
            invariant
                i <= n,
                n == modules@.len(),
                stems@.len() == i,
                forall|j: int|
                    0 <= j < i ==> file_stem_of(modules@[j]@) == Some(#[trigger] stems@[j].0@)
                        && stems@[j].1@ == modules@[j]@,
            decreases n - i,
        {
            match file_stem(modules[i].as_str()) {
                None => {
                    return Err(Error::NoEmptyFileName);
                },
                Some(stem) => {
                    let owned_stem = String::from_str(stem);
                    let owned_path = String::from_str(modules[i].as_str());
                    stems.push((owned_stem, owned_path));
                },
            }
            i += 1;
        }
        let res = DynamicModuleResolver { stems };
        proof {
            assert(forall|i: int|
                0 <= i < modules@.len() ==> file_stem_of(modules@[i]@) == Some(
                    #[trigger] res.stems()[i].0,
                ) && res.stems()[i].1 == modules@[i]@);
            assert forall|i: int|
                0 <= i < modules@.len() implies #[trigger] file_stem_of(modules@[i]@) is Some by {
                assert(file_stem_of(modules@[i]@) == Some(res.stems()[i].0));
            }
        }
        Ok(res)
    }

    /// The module file registered under the bare name `name`, when one is:
    /// an unknown name resolves to nothing, which the sandbox reports as a
    /// missing module.
    pub fn lookup(&self, name: &str) -> (r: Option<&String>)
        ensures
            match r {
                Some(p) => lookup_spec(self.stems(), name@) == Some(p@),
                None => lookup_spec(self.stems(), name@) is None,
            },
    {
        let n = self.stems.len();
        let mut i: usize = n;
        proof {
            assert(self.stems().take(n as int) =~= self.stems());
        }
        while i > 0
            invariant
                i <= n,
                n == self.stems@.len(),
                n == self.stems().len(),
                lookup_spec(self.stems(), name@) == lookup_spec(
                    self.stems().take(i as int),
                    name@,
                ),
            decreases i,
        {
            proof {
                assert(self.stems().take(i as int).drop_last() =~= self.stems().take(i - 1));
                assert(self.stems().take(i as int).last() == self.stems()[i - 1]);
                assert(self.stems()[i - 1] == (self.stems@[i - 1].0@, self.stems@[i - 1].1@));
            }
            if crate::paths::str_eq(self.stems[i - 1].0.as_str(), name) {
                return Some(&self.stems[i - 1].1);
            }
            i -= 1;
        }
        proof {
            assert(self.stems().take(0) =~= Seq::<(Seq<char>, Seq<char>)>::empty());
        }
        None
    }
}

} // verus!
