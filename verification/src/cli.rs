//! The actions a command line can ask for, as already-parsed values.
use vstd::prelude::*;

use crate::relative_path::RelativePath;
use crate::settings::SettingValue;

verus! {

/// One parsed invocation: what to do, and to which profile.
pub enum Action {
    AddHelper { profile: RelativePath, helper: RelativePath },
    AddModule { profile: RelativePath, module: RelativePath },
    AddTemplate { profile: RelativePath, template: RelativePath },
    ApplyProfile { profile: RelativePath },
    ChangeSetting { profile: RelativePath, name: String, value: Option<SettingValue> },
    Nothing,
    Restore,
    RmHelper { profile: RelativePath, helper: RelativePath },
    RmModule { profile: RelativePath, module: RelativePath },
    RmTemplate { profile: RelativePath, template: RelativePath },
}

} // verus!
