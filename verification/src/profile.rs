//! A profile's persisted data: its name, its component reference lists, and
//! its settings table.
use vstd::prelude::*;

use crate::error::Error;
use crate::paths::{file_stem, file_stem_of};
use crate::settings::{SettingValue, SettingsTable};

verus! {

/// The names under which resolved helper and template files are registered
/// with the template engine: each file's stem, paired with its path, in
/// list order. A path with an empty file name has no stem and is refused.
pub fn registration_stems(paths: &Vec<String>) -> (r: Result<Vec<(String, String)>, Error>)
    ensures
        r matches Ok(pairs) ==> ({
            &&& pairs@.len() == paths@.len()
            &&& forall|i: int|
                0 <= i < paths@.len() ==> file_stem_of(paths@[i]@) == Some(
                    #[trigger] pairs@[i].0@,
                ) && pairs@[i].1@ == paths@[i]@
        }),
        r is Ok <==> (forall|i: int|
            0 <= i < paths@.len() ==> #[trigger] file_stem_of(paths@[i]@) is Some),
        r matches Err(e) ==> e matches Error::NoEmptyFileName,
{
    let n = paths.len();
    let mut pairs: Vec<(String, String)> = Vec::new();
    let mut i: usize = 0;
    while i < n
        invariant
            i <= n,
            n == paths@.len(),
            pairs@.len() == i,
            forall|j: int|
                0 <= j < i ==> file_stem_of(paths@[j]@) == Some(#[trigger] pairs@[j].0@)
                    && pairs@[j].1@ == paths@[j]@,
        decreases n - i,
    {
        match file_stem(paths[i].as_str()) {
            None => {
                return Err(Error::NoEmptyFileName);
            },
            Some(stem) => {
                let owned_stem = String::from_str(stem);
                let owned_path = String::from_str(paths[i].as_str());
                pairs.push((owned_stem, owned_path));
            },
        }
        i += 1;
    }
    proof {
        assert forall|i: int|
            0 <= i < paths@.len() implies #[trigger] file_stem_of(paths@[i]@) is Some by {
            assert(file_stem_of(paths@[i]@) == Some(pairs@[i].0@));
        }
    }
    Ok(pairs)
}

/// The `profile` table of a profile file: the profile's name and its
/// ordered lists of module, helper and template references.
#[derive(Debug)]
pub struct ProfileDataInner {
    pub name: String,
    pub modules: Vec<String>,
    pub helpers: Vec<String>,
    pub templates: Vec<String>,
}

/// A whole profile file: the `profile` table and the settings table.
#[derive(Debug)]
pub struct ProfileData {
    pub inner: ProfileDataInner,
    pub settings: SettingsTable,
}

/// Stores `value` under `name` in the profile's settings; an entry already
/// so named has its value replaced. Nothing else of the profile changes.
pub fn set_setting(data: &mut ProfileData, name: String, value: SettingValue)
    requires
        old(data).settings.wf(),
    ensures
        final(data).settings.wf(),
        final(data).settings.contains_key(name@),
        final(data).inner == old(data).inner,
        old(data).settings.contains_key(name@) ==> exists|i: int|
            {
                &&& 0 <= i < old(data).settings.entries@.len()
                &&& old(data).settings.entries@[i].0@ == name@
                &&& final(data).settings.entries@ =~= old(data).settings.entries@.update(
                    i,
                    (name, value),
                )
            },
        !old(data).settings.contains_key(name@) ==> final(data).settings.entries@ =~= old(
            data,
        ).settings.entries@.push((name, value)),
{
    data.settings.set(name, value);
}

/// Takes the setting named `name` out of the profile, or fails with the
/// name and the profile file when no such setting exists. Nothing else of
/// the profile changes.
pub fn rm_setting(data: &mut ProfileData, name: &str, profile_path: &String) -> (r: Result<
    (),
    Error,
>)
    requires
        old(data).settings.wf(),
    ensures
        final(data).settings.wf(),
        final(data).inner == old(data).inner,
        old(data).settings.contains_key(name@) ==> r is Ok && exists|i: int|
            {
                &&& 0 <= i < old(data).settings.entries@.len()
                &&& old(data).settings.entries@[i].0@ == name@
                &&& final(data).settings.entries@ =~= old(data).settings.entries@.remove(i)
            },
        !old(data).settings.contains_key(name@) ==> ({
            &&& final(data).settings.entries@ =~= old(data).settings.entries@
            &&& r matches Err(e)
            &&& e matches Error::SettingNotFound(n, pf) && n@ == name@ && pf@ == profile_path@
        }),
{
    data.settings.remove(name, profile_path)
}

} // verus!
