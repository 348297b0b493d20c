//! Maintenance of a profile's component lists.
//!
//! Entries of one list must designate distinct files: two spellings that
//! resolve to the same absolute path are a duplicate, not two components.
//! Adding checks the new reference's resolved path against every existing
//! entry's; removing matches by resolved path as well. Two existing entries
//! that already collide are profile corruption and are reported before
//! anything else is decided.
use vstd::prelude::*;

use crate::error::Error;
use crate::paths::str_eq;
use crate::profile::ProfileDataInner;
use crate::relative_path::{dir_component_spec, Dir};

verus! {

/// The stored references of the category `dir`, viewed as strings.
pub open spec fn component_list(d: ProfileDataInner, dir: Dir) -> Seq<Seq<char>> {
    match dir {
        Dir::Helpers => d.helpers.deep_view(),
        Dir::Modules => d.modules.deep_view(),
        Dir::Templates => d.templates.deep_view(),
        _ => Seq::empty(),
    }
}

/// The categories that a profile stores component lists for.
pub open spec fn is_component_dir(dir: Dir) -> bool {
    dir is Helpers || dir is Modules || dir is Templates
}

/// Everything of the profile except the list of the category `dir` is the
/// same in `d1` and `d2`.
pub open spec fn same_but_list(d1: ProfileDataInner, d2: ProfileDataInner, dir: Dir) -> bool {
    &&& d2.name == d1.name
    &&& (dir != Dir::Helpers ==> d2.helpers == d1.helpers)
    &&& (dir != Dir::Modules ==> d2.modules == d1.modules)
    &&& (dir != Dir::Templates ==> d2.templates == d1.templates)
}

/// Position `j` holds a value some earlier position also holds.
pub open spec fn has_earlier_equal(rs: Seq<Seq<char>>, j: int) -> bool {
    exists|i: int| 0 <= i < j && rs[i] == rs[j]
}

/// The first position whose value a strictly earlier position also holds,
/// if any two positions collide at all.
pub open spec fn first_dupe(rs: Seq<Seq<char>>) -> Option<int>
    decreases rs.len(),
{
    if rs.len() == 0 {
        None
    } else {
        match first_dupe(rs.drop_last()) {
            Some(j) => Some(j),
            None => if has_earlier_equal(rs, rs.len() - 1) {
                Some(rs.len() - 1)
            } else {
                None
            },
        }
    }
}

/// Whether position `k` repeats an earlier value does not depend on the
/// positions after `k`.
proof fn lemma_has_earlier_equal_prefix(rs: Seq<Seq<char>>, k: int)
    requires
        0 <= k < rs.len() - 1,
    ensures
        has_earlier_equal(rs, k) == has_earlier_equal(rs.drop_last(), k),
{
    if has_earlier_equal(rs, k) {
        let i = choose|i: int| 0 <= i < k && rs[i] == rs[k];
        assert(rs.drop_last()[i] == rs.drop_last()[k]);
    }
    if has_earlier_equal(rs.drop_last(), k) {
        let i = choose|i: int| 0 <= i < k && rs.drop_last()[i] == rs.drop_last()[k];
        assert(rs[i] == rs[k]);
    }
}

/// `first_dupe` names the least position that repeats an earlier value,
/// and `None` means all positions hold distinct values.
pub proof fn lemma_first_dupe(rs: Seq<Seq<char>>)
    ensures
        match first_dupe(rs) {
            Some(j) => 0 <= j < rs.len() && has_earlier_equal(rs, j) && (forall|k: int|
                0 <= k < j ==> !has_earlier_equal(rs, k)),
            None => forall|k: int| 0 <= k < rs.len() ==> !has_earlier_equal(rs, k),
        },
    decreases rs.len(),
{
    if rs.len() > 0 {
        lemma_first_dupe(rs.drop_last());
        assert forall|k: int| 0 <= k < rs.len() - 1 implies has_earlier_equal(rs, k)
            == has_earlier_equal(rs.drop_last(), k) by {
            lemma_has_earlier_equal_prefix(rs, k);
        }
    }
}

/// Scans resolved paths for two that collide: the first position that
/// repeats an earlier resolved path is reported as profile corruption.
pub fn check_no_dupes(resolved: &Vec<String>, dir: Dir, profile_path: &String) -> (r: Result<
    (),
    Error,
>)
    ensures
        match first_dupe(resolved.deep_view()) {
            Some(j) => r matches Err(e) && (e matches Error::DupeProfVal(k, v, pf) && k@
                == dir_component_spec(dir) && v@ == resolved.deep_view()[j] && pf@
                == profile_path@),
            None => r is Ok,
        },
{
    let ghost rv = resolved.deep_view();
    proof {
        assert(rv.len() == resolved@.len());
        assert(forall|i: int| 0 <= i < rv.len() ==> rv[i] == resolved@[i]@);
    }
    let n = resolved.len();
    let mut j: usize = 1;
    while j < n
        invariant
            1 <= j || n == 0,
            j <= n || n == 0,
            n == rv.len(),
            rv == resolved.deep_view(),
            n == resolved@.len(),
            forall|k: int| 0 <= k < j ==> !has_earlier_equal(rv, k),
        decreases n - j,
    {
        let mut i: usize = 0;
        while i < j
            invariant
                0 <= i <= j < n,
                n == rv.len(),
                rv == resolved.deep_view(),
                n == resolved@.len(),
                forall|k: int| 0 <= k < j ==> !has_earlier_equal(rv, k),
                forall|k: int| 0 <= k < i ==> rv[k] != rv[j as int],
            decreases j - i,
        {
            if str_eq(resolved[i].as_str(), resolved[j].as_str()) {
                proof {
                    assert(rv[i as int] == rv[j as int]);
                    assert(has_earlier_equal(rv, j as int));
                    lemma_first_dupe(rv);
                    assert(first_dupe(rv) == Some(j as int));
                }
                return Err(
                    Error::DupeProfVal(
                        String::from_str(dir.component_str()),
                        String::from_str(resolved[j].as_str()),
                        String::from_str(profile_path.as_str()),
                    ),
                );
            }
            i += 1;
        }
        j += 1;
    }
    proof {
        lemma_first_dupe(rv);
        if first_dupe(rv) is Some {
            let jj = first_dupe(rv)->Some_0;
            assert(has_earlier_equal(rv, jj));
        }
    }
    Ok(())
}

/// Appends a new component reference to the profile's list of the category
/// `dir`. `resolved` holds the resolved paths of the existing entries, in
/// order; `new_resolved` the resolved path of `reference`. The reference is
/// refused when two existing entries already collide (corruption), or when
/// its resolved path is already in use; otherwise the original spelling is
/// appended.
pub fn add(
    data: &mut ProfileDataInner,
    dir: Dir,
    resolved: &Vec<String>,
    reference: &String,
    new_resolved: &String,
    profile_path: &String,
) -> (r: Result<(), Error>)
    requires
        is_component_dir(dir),
    ensures
        same_but_list(*old(data), *final(data), dir),
        final(data).name == old(data).name,
        ({
            let rv = resolved.deep_view();
            match first_dupe(rv) {
                Some(j) => ({
                    &&& r matches Err(e)
                    &&& e matches Error::DupeProfVal(k, v, pf) && k@ == dir_component_spec(dir)
                        && v@ == rv[j] && pf@ == profile_path@
                    &&& component_list(*final(data), dir) == component_list(*old(data), dir)
                }),
                None => if rv.contains(new_resolved@) {
                    &&& r matches Err(e)
                    &&& e matches Error::UsedProfVal(k, v, pf) && k@ == dir_component_spec(dir)
                        && v@ == new_resolved@ && pf@ == profile_path@
                    &&& component_list(*final(data), dir) == component_list(*old(data), dir)
                } else {
                    &&& r is Ok
                    &&& component_list(*final(data), dir) =~= component_list(
                        *old(data),
                        dir,
                    ).push(reference@)
                },
            }
        }),
{
    let ghost rv = resolved.deep_view();
    proof {
        assert(forall|i: int| 0 <= i < rv.len() ==> rv[i] == resolved@[i]@);
    }
    match check_no_dupes(resolved, dir, profile_path) {
        Err(e) => {
            return Err(e);
        },
        Ok(_) => {},
    }
    let n = resolved.len();
    let mut i: usize = 0;
    while i < n
        invariant
            i <= n,
            n == rv.len(),
            rv == resolved.deep_view(),
            n == resolved@.len(),
            first_dupe(rv) is None,
            *data == *old(data),
            forall|k: int| 0 <= k < i ==> rv[k] != new_resolved@,
        decreases n - i,
    {
        if str_eq(resolved[i].as_str(), new_resolved.as_str()) {
            proof {
                assert(rv[i as int] == new_resolved@);
                assert(rv.contains(new_resolved@));
            }
            return Err(
                Error::UsedProfVal(
                    String::from_str(dir.component_str()),
                    String::from_str(new_resolved.as_str()),
                    String::from_str(profile_path.as_str()),
                ),
            );
        }
        i += 1;
    }
    proof {
        if rv.contains(new_resolved@) {
            let k = choose|k: int| 0 <= k < rv.len() && rv[k] == new_resolved@;
            assert(rv[k] != new_resolved@);
        }
    }
    let refc = String::from_str(reference.as_str());
    match dir {
        Dir::Helpers => data.helpers.push(refc),
        Dir::Modules => data.modules.push(refc),
        Dir::Templates => data.templates.push(refc),
        _ => {
            proof {
                assert(false);
            }
        },
    }
    Ok(())
}

/// Removes the component whose resolved path is `target_resolved` from the
/// profile's list of the category `dir`. `resolved` holds the resolved
/// paths of the existing entries, in order. Removal is refused when two
/// existing entries collide (corruption) or when no entry's resolved path
/// matches; otherwise the matching entry is taken out by position.
pub fn rm(
    data: &mut ProfileDataInner,
    dir: Dir,
    resolved: &Vec<String>,
    target_resolved: &String,
    profile_path: &String,
) -> (r: Result<(), Error>)
    requires
        is_component_dir(dir),
        resolved@.len() == component_list(*old(data), dir).len(),
    ensures
        same_but_list(*old(data), *final(data), dir),
        final(data).name == old(data).name,
        ({
            let rv = resolved.deep_view();
            match first_dupe(rv) {
                Some(j) => ({
                    &&& r matches Err(e)
                    &&& e matches Error::DupeProfVal(k, v, pf) && k@ == dir_component_spec(dir)
                        && v@ == rv[j] && pf@ == profile_path@
                    &&& component_list(*final(data), dir) == component_list(*old(data), dir)
                }),
                None => if rv.contains(target_resolved@) {
                    &&& r is Ok
                    &&& exists|i: int|
                        0 <= i < rv.len() && #[trigger] rv[i] == target_resolved@
                            && component_list(*final(data), dir) =~= component_list(
                            *old(data),
                            dir,
                        ).remove(i)
                } else {
                    &&& r matches Err(e)
                    &&& e matches Error::NotInProfile(k, v, pf) && k@ == dir_component_spec(dir)
                        && v@ == target_resolved@ && pf@ == profile_path@
                    &&& component_list(*final(data), dir) == component_list(*old(data), dir)
                },
            }
        }),
{
    let ghost rv = resolved.deep_view();
    proof {
        assert(forall|i: int| 0 <= i < rv.len() ==> rv[i] == resolved@[i]@);
    }
    match check_no_dupes(resolved, dir, profile_path) {
        Err(e) => {
            return Err(e);
        },
        Ok(_) => {},
    }
    let n = resolved.len();
    let mut i: usize = 0;
    while i < n
        invariant
            i <= n,
            n == rv.len(),
            rv == resolved.deep_view(),
            n == resolved@.len(),
            first_dupe(rv) is None,
            *data == *old(data),
            n == component_list(*data, dir).len(),
            is_component_dir(dir),
            forall|k: int| 0 <= k < i ==> rv[k] != target_resolved@,
        decreases n - i,
    {
        if str_eq(resolved[i].as_str(), target_resolved.as_str()) {
            proof {
                assert(rv[i as int] == target_resolved@);
                assert(rv.contains(target_resolved@));
            }
            match dir {
                Dir::Helpers => {
                    data.helpers.remove(i);
                },
                Dir::Modules => {
                    data.modules.remove(i);
                },
                Dir::Templates => {
                    data.templates.remove(i);
                },
                _ => {
                    proof {
                        assert(false);
                    }
                },
            }
            proof {
                assert(component_list(*data, dir) =~= component_list(*old(data), dir).remove(
                    i as int,
                ));
            }
            return Ok(());
        }
        i += 1;
    }
    proof {
        if rv.contains(target_resolved@) {
            let k = choose|k: int| 0 <= k < rv.len() && rv[k] == target_resolved@;
            assert(rv[k] != target_resolved@);
        }
    }
    Err(
        Error::NotInProfile(
            String::from_str(dir.component_str()),
            String::from_str(target_resolved.as_str()),
            String::from_str(profile_path.as_str()),
        ),
    )
}

/// Add uniqueness: once a reference resolving to the path `p` has been
/// added to a duplicate-free list, any further reference resolving to `p`
/// — whatever its spelling — finds `p` already in use, and the grown list
/// is still free of duplicates, so the "already used" refusal is what
/// adding it reports.
pub proof fn lemma_add_uniqueness(rv: Seq<Seq<char>>, p: Seq<char>)
    requires
        first_dupe(rv) is None,
        !rv.contains(p),
    ensures
        first_dupe(rv.push(p)) is None,
        rv.push(p).contains(p),
{
    let grown = rv.push(p);
    lemma_first_dupe(rv);
    assert(grown[rv.len() as int] == p);
    assert(grown.contains(p));
    assert forall|k: int| 0 <= k < grown.len() implies !has_earlier_equal(grown, k) by {
        if k < rv.len() {
            assert(grown.drop_last() =~= rv);
            lemma_has_earlier_equal_prefix(grown, k);
        } else {
            if has_earlier_equal(grown, k) {
                let i = choose|i: int| 0 <= i < k && grown[i] == grown[k];
                assert(rv[i] == p);
                assert(rv.contains(p));
            }
        }
    }
    lemma_first_dupe(grown);
    if first_dupe(grown) is Some {
        let j = first_dupe(grown)->Some_0;
        assert(has_earlier_equal(grown, j));
    }
}

/// Removal matches by resolved path, but corruption is detected first:
/// when any two entries resolve to the same path, the list has a first
/// duplicate, so removal reports corruption and applies no match.
pub proof fn lemma_remove_detects_corruption(rv: Seq<Seq<char>>, i: int, j: int)
    requires
        0 <= i < j < rv.len(),
        rv[i] == rv[j],
    ensures
        first_dupe(rv) is Some,
{
    lemma_first_dupe(rv);
    assert(has_earlier_equal(rv, j));
}

} // verus!
