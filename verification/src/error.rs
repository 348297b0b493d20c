//! The library's error values. Each variant carries the strings that name
//! what went wrong: a component kind, the path attempted, and, where one is
//! involved, the profile file.
use vstd::prelude::*;

verus! {

/// What can go wrong while resolving paths or editing a profile.
#[derive(Debug, PartialEq, Eq)]
pub enum Error {
    /// The platform offers no configuration directory.
    NoConfigDir,
    /// A path whose file name is empty was given where a file is needed.
    NoEmptyFileName,
    /// No file was found for a reference: the component kind and the last
    /// path attempted.
    NotFound(String, String),
    /// A reference to remove resolves to no entry of the profile: the
    /// component kind, the resolved path, and the profile file.
    NotInProfile(String, String, String),
    /// A reference to add resolves to a path an entry already holds: the
    /// component kind, the resolved path, and the profile file.
    UsedProfVal(String, String, String),
    /// Two entries of the profile resolve to the same path: the component
    /// kind, that path, and the profile file.
    DupeProfVal(String, String, String),
    /// A second template registration named a target path already taken.
    TemplateTwice(String),
    /// No setting of the given name exists: the name and the profile file.
    SettingNotFound(String, String),
}

/// The wording of each error, ready to show to the user.
pub open spec fn message_spec(e: Error) -> Seq<char> {
    match e {
        Error::NoConfigDir => "could not find config directory with XDG lookup"@,
        Error::NoEmptyFileName => "file names must not be empty"@,
        Error::NotFound(k, p) => "could not find "@ + k@ + " "@ + p@,
        Error::NotInProfile(k, v, pf) => k@ + " "@ + v@ + " is not in profile "@ + pf@,
        Error::UsedProfVal(k, v, pf) => k@ + " "@ + v@ + " is already used in profile "@ + pf@,
        Error::DupeProfVal(k, v, pf) => k@ + " "@ + v@ + " is used twice in profile "@ + pf@,
        Error::TemplateTwice(p) => "attempted to template "@ + p@ + " after already templating"@,
        Error::SettingNotFound(n, pf) => "there is no setting with the name "@ + n@
            + " in the profile "@ + pf@,
    }
}

impl Error {
    /// The error's wording, for reports and warnings.
    pub fn message(&self) -> (r: String)
        ensures
            r@ == message_spec(*self),
    {
        match self {
            Error::NoConfigDir => String::from_str(
                "could not find config directory with XDG lookup",
            ),
            Error::NoEmptyFileName => String::from_str("file names must not be empty"),
            Error::NotFound(k, p) => {
                let mut r = String::from_str("could not find ");
                r.append(k.as_str());
                r.append(" ");
                r.append(p.as_str());
                proof {
                    assert(r@ =~= message_spec(*self));
                }
                r
            },
            Error::NotInProfile(k, v, pf) => {
                let mut r = String::from_str(k.as_str());
                r.append(" ");
                r.append(v.as_str());
                r.append(" is not in profile ");
                r.append(pf.as_str());
                proof {
                    assert(r@ =~= message_spec(*self));
                }
                r
            },
            Error::UsedProfVal(k, v, pf) => {
                let mut r = String::from_str(k.as_str());
                r.append(" ");
                r.append(v.as_str());
                r.append(" is already used in profile ");
                r.append(pf.as_str());
                proof {
                    assert(r@ =~= message_spec(*self));
                }
                r
            },
            Error::DupeProfVal(k, v, pf) => {
                let mut r = String::from_str(k.as_str());
                r.append(" ");
                r.append(v.as_str());
                r.append(" is used twice in profile ");
                r.append(pf.as_str());
                proof {
                    assert(r@ =~= message_spec(*self));
                }
                r
            },
            Error::TemplateTwice(p) => {
                let mut r = String::from_str("attempted to template ");
                r.append(p.as_str());
                r.append(" after already templating");
                proof {
                    assert(r@ =~= message_spec(*self));
                }
                r
            },
            Error::SettingNotFound(n, pf) => {
                let mut r = String::from_str("there is no setting with the name ");
                r.append(n.as_str());
                r.append(" in the profile ");
                r.append(pf.as_str());
                proof {
                    assert(r@ =~= message_spec(*self));
                }
                r
            },
        }
    }
}

} // verus!
