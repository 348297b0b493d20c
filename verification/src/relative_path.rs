//! Resolution of stored path references.
//!
//! A stored reference is a possibly-relative, possibly-extension-less path.
//! Resolving it against a category of the configuration tree first makes it
//! absolute (joining it under the category's base directory), then looks for
//! the file itself and, failing that, for the file with the category's
//! canonical extension appended. Which paths exist is taken from an
//! [`FsView`], so the decision itself is pure.
use vstd::prelude::*;

use crate::error::Error;
use crate::paths::{
    append_ext, extension, extension_of, is_absolute, join_under, joined, path_is_absolute,
    str_eq, with_appended_ext, FsView,
};

verus! {

/// A category of the configuration tree: each one has its own subdirectory,
/// canonical file extension, and user-facing component name.
#[derive(Copy, Clone, PartialEq, Eq, Structural, Debug)]
pub enum Dir {
    Helpers,
    Modules,
    Profiles,
    Templates,
    Config,
}

/// The subdirectory name of a category.
pub open spec fn dir_path_spec(d: Dir) -> Seq<char> {
    match d {
        Dir::Helpers => "helpers"@,
        Dir::Modules => "modules"@,
        Dir::Profiles => "profiles"@,
        Dir::Templates => "templates"@,
        Dir::Config => "."@,
    }
}

/// The canonical file extension of a category.
pub open spec fn dir_ext_spec(d: Dir) -> Seq<char> {
    match d {
        Dir::Helpers => "rhai"@,
        Dir::Modules => "rhai"@,
        Dir::Profiles => "toml"@,
        Dir::Templates => "hbs"@,
        Dir::Config => ""@,
    }
}

/// The user-facing component name of a category.
pub open spec fn dir_component_spec(d: Dir) -> Seq<char> {
    match d {
        Dir::Helpers => "helper"@,
        Dir::Modules => "module"@,
        Dir::Profiles => "profile"@,
        Dir::Templates => "template"@,
        Dir::Config => "internal"@,
    }
}

/// The base directory of a category under a configuration root: the root,
/// then `reconf`, then the category's subdirectory.
pub open spec fn base_of(root: Seq<char>, d: Dir) -> Seq<char> {
    joined(joined(root, "reconf"@), dir_path_spec(d))
}

impl Dir {
    /// The subdirectory this category's files live in.
    pub fn path_str(&self) -> (r: &str)
        ensures
            r@ == dir_path_spec(*self),
    {
        match self {
            Dir::Helpers => "helpers",
            Dir::Modules => "modules",
            Dir::Profiles => "profiles",
            Dir::Templates => "templates",
            Dir::Config => ".",
        }
    }

    /// The canonical extension of this category's files.
    pub fn ext_str(&self) -> (r: &str)
        ensures
            r@ == dir_ext_spec(*self),
    {
        match self {
            Dir::Helpers => "rhai",
            Dir::Modules => "rhai",
            Dir::Profiles => "toml",
            Dir::Templates => "hbs",
            Dir::Config => "",
        }
    }

    /// How this category's components are named in error messages.
    pub fn component_str(&self) -> (r: &str)
        ensures
            r@ == dir_component_spec(*self),
    {
        match self {
            Dir::Helpers => "helper",
            Dir::Modules => "module",
            Dir::Profiles => "profile",
            Dir::Templates => "template",
            Dir::Config => "internal",
        }
    }

    /// The category's base directory on this machine, from the platform's
    /// configuration root; fails when the platform defines none.
    pub fn as_base(&self) -> (r: Result<String, Error>)
        ensures
            r matches Err(e) ==> e == Error::NoConfigDir,
            r matches Ok(b) ==> exists|root: Seq<char>| b@ == base_of(root, *self),
    {
        match config_dir_string() {
            None => Err(Error::NoConfigDir),
            Some(root) => {
                let b = base_for_root(root.as_str(), *self);
                proof {
                    assert(b@ == base_of(root@, *self));
                }
                Ok(b)
            },
        }
    }
}

/// Relies on dirs::config_dir: the platform's configuration directory, if
/// the platform defines one; nothing can be promised of its value.
#[verifier::external_body]
fn config_dir_string() -> (r: Option<String>) {
    dirs::config_dir().map(|p| p.to_string_lossy().into_owned())
}

/// The base directory of a category under the given configuration root.
pub fn base_for_root(root: &str, d: Dir) -> (r: String)
    ensures
        r@ == base_of(root@, d),
{
    let under_reconf = join_under(root, "reconf");
    join_under(under_reconf.as_str(), d.path_str())
}

/// A stored path reference, as the profile file spells it.
pub struct RelativePath(String);

impl View for RelativePath {
    type V = Seq<char>;

    closed spec fn view(&self) -> Seq<char> {
        self.0@
    }
}

/// The path a reference designates before any existence check: the
/// reference itself when absolute, else the reference joined under the base.
pub open spec fn first_candidate(p: Seq<char>, base: Seq<char>) -> Seq<char> {
    if is_absolute(p) {
        p
    } else {
        joined(base, p)
    }
}

/// What resolving a reference yields over a given set of existing paths:
/// the resolved path on success, the last path attempted on failure.
pub open spec fn resolve_spec(
    p: Seq<char>,
    base: Seq<char>,
    ext: Seq<char>,
    fs: Set<Seq<char>>,
) -> Result<Seq<char>, Seq<char>> {
    let first = first_candidate(p, base);
    if fs.contains(first) {
        Ok(first)
    } else if extension_of(first) == Some(ext) {
        Err(first)
    } else if fs.contains(with_appended_ext(first, ext)) {
        Ok(with_appended_ext(first, ext))
    } else {
        Err(with_appended_ext(first, ext))
    }
}

/// When the reference itself or the base directory is absolute, whatever
/// resolution returns is absolute too: the bare candidate starts as one of
/// them starts, and appending an extension keeps the first character.
pub proof fn lemma_resolved_is_absolute(
    p: Seq<char>,
    base: Seq<char>,
    ext: Seq<char>,
    fs: Set<Seq<char>>,
)
    requires
        is_absolute(p) || is_absolute(base),
    ensures
        resolve_spec(p, base, ext, fs) matches Ok(q) ==> is_absolute(q),
{
    let first = first_candidate(p, base);
    if is_absolute(p) {
        assert(first == p);
    } else {
        assert(first == joined(base, p));
        assert(first[0] == base[0]);
    }
    assert(is_absolute(first));
    assert(with_appended_ext(first, ext)[0] == first[0]);
}

/// Resolves the reference `p` for the category `dir` with canonical
/// extension `ext`, under the base directory `base`, consulting `fs` for
/// which paths exist. A reference that is absolute, or one joined under an
/// absolute base, resolves to an absolute path.
pub fn resolve_ref(p: &str, dir: Dir, ext: &str, base: &str, fs: &FsView) -> (r: Result<
    String,
    Error,
>)
    ensures
        r matches Ok(q) ==> resolve_spec(p@, base@, ext@, fs@) == Ok::<Seq<char>, Seq<char>>(q@),
        (is_absolute(p@) || is_absolute(base@)) ==> (r matches Ok(q) ==> is_absolute(q@)),
        r matches Err(e) ==> ({
            &&& e matches Error::NotFound(k, a)
            &&& k@ == dir_component_spec(dir)
            &&& resolve_spec(p@, base@, ext@, fs@) == Err::<Seq<char>, Seq<char>>(a@)
        }),
{
    proof {
        if is_absolute(p@) || is_absolute(base@) {
            lemma_resolved_is_absolute(p@, base@, ext@, fs@);
        }
    }
    let first: String = if path_is_absolute(p) {
        String::from_str(p)
    } else {
        join_under(base, p)
    };
    if fs.contains(first.as_str()) {
        return Ok(first);
    }
    let ext_is_canonical = match extension(first.as_str()) {
        Some(e) => str_eq(e, ext),
        None => false,
    };
    if ext_is_canonical {
        return Err(Error::NotFound(String::from_str(dir.component_str()), first));
    }
    let second = append_ext(first.as_str(), ext);
    if fs.contains(second.as_str()) {
        return Ok(second);
    }
    Err(Error::NotFound(String::from_str(dir.component_str()), second))
}

impl RelativePath {
    /// Wraps a stored reference string.
    pub fn new(path: String) -> (r: RelativePath)
        ensures
            r@ == path@,
    {
        RelativePath(path)
    }

    /// The stored reference string itself, unresolved.
    pub fn path(&self) -> (r: &String)
        ensures
            r@ == self@,
    {
        &self.0
    }

    /// Resolves this reference; see [`resolve_ref`].
    pub fn resolve(&self, dir: Dir, ext: &str, base: &str, fs: &FsView) -> (r: Result<
        String,
        Error,
    >)
        ensures
            r matches Ok(q) ==> resolve_spec(self@, base@, ext@, fs@) == Ok::<
                Seq<char>,
                Seq<char>,
            >(q@),
            (is_absolute(self@) || is_absolute(base@)) ==> (r matches Ok(q) ==> is_absolute(
                q@,
            )),
            r matches Err(e) ==> ({
                &&& e matches Error::NotFound(k, a)
                &&& k@ == dir_component_spec(dir)
                &&& resolve_spec(self@, base@, ext@, fs@) == Err::<Seq<char>, Seq<char>>(a@)
            }),
    {
        resolve_ref(self.0.as_str(), dir, ext, base, fs)
    }
}

/// Resolves every reference of a list, in order, stopping at the first that
/// fails.
pub fn resolve_path_vec(vec: &Vec<String>, dir: Dir, ext: &str, base: &str, fs: &FsView) -> (r:
    Result<Vec<String>, Error>)
    ensures
        r matches Ok(paths) ==> ({
            &&& paths@.len() == vec@.len()
            &&& forall|i: int|
                0 <= i < vec@.len() ==> resolve_spec(vec@[i]@, base@, ext@, fs@) == Ok::<
                    Seq<char>,
                    Seq<char>,
                >(paths@[i]@)
        }),
        r matches Err(e) ==> exists|i: int|
            {
                &&& 0 <= i < vec@.len()
                &&& (forall|j: int|
                    0 <= j < i ==> #[trigger] resolve_spec(vec@[j]@, base@, ext@, fs@) is Ok)
                &&& e matches Error::NotFound(k, a) && k@ == dir_component_spec(dir)
                    && #[trigger] resolve_spec(vec@[i]@, base@, ext@, fs@) == Err::<
                    Seq<char>,
                    Seq<char>,
                >(a@)
            },
{
    let n = vec.len();
    let mut out: Vec<String> = Vec::new();
    let mut i: usize = 0;
    while i < n
        invariant
            i <= n,
            n == vec@.len(),
            out@.len() == i,
            forall|j: int|
                0 <= j < i ==> resolve_spec(vec@[j]@, base@, ext@, fs@) == Ok::<
                    Seq<char>,
                    Seq<char>,
                >(out@[j]@),
        decreases n - i,
    {
        match resolve_ref(vec[i].as_str(), dir, ext, base, fs) {
            Ok(p) => out.push(p),
            Err(e) => {
                return Err(e);
            },
        }
        i += 1;
    }
    Ok(out)
}

/// Resolving an already-absolute, existing path returns it unchanged,
/// whatever the base directory and canonical extension.
pub proof fn lemma_resolution_idempotent(
    p: Seq<char>,
    base: Seq<char>,
    ext: Seq<char>,
    fs: Set<Seq<char>>,
)
    requires
        is_absolute(p),
        fs.contains(p),
    ensures
        resolve_spec(p, base, ext, fs) == Ok::<Seq<char>, Seq<char>>(p),
{
}

/// Extension fallback: when the bare candidate does not exist and does not
/// already carry the canonical extension, resolution stands or falls with
/// the extension-appended candidate alone.
pub proof fn lemma_extension_fallback(
    p: Seq<char>,
    base: Seq<char>,
    ext: Seq<char>,
    fs: Set<Seq<char>>,
)
    requires
        !fs.contains(first_candidate(p, base)),
        extension_of(first_candidate(p, base)) != Some(ext),
    ensures
        fs.contains(with_appended_ext(first_candidate(p, base), ext)) ==> resolve_spec(
            p,
            base,
            ext,
            fs,
        ) == Ok::<Seq<char>, Seq<char>>(with_appended_ext(first_candidate(p, base), ext)),
        !fs.contains(with_appended_ext(first_candidate(p, base), ext)) ==> resolve_spec(
            p,
            base,
            ext,
            fs,
        ) == Err::<Seq<char>, Seq<char>>(with_appended_ext(first_candidate(p, base), ext)),
{
}

/// No double append: a missing candidate that already carries the canonical
/// extension fails as it stands; the extension is never appended again.
pub proof fn lemma_no_double_append(
    p: Seq<char>,
    base: Seq<char>,
    ext: Seq<char>,
    fs: Set<Seq<char>>,
)
    requires
        !fs.contains(first_candidate(p, base)),
        extension_of(first_candidate(p, base)) == Some(ext),
    ensures
        resolve_spec(p, base, ext, fs) == Err::<Seq<char>, Seq<char>>(first_candidate(p, base)),
{
}

} // verus!
