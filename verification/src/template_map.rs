//! The shared collection of template registrations one apply run gathers.
//!
//! While modules run, each `template` host call registers a target path with
//! the name of the template that is to produce it. A target may be
//! registered at most once per run: a second registration for the same path
//! is refused, never silently overwritten. The collection is backed by a
//! concurrency-safe map, so host functions may insert from any evaluation
//! context without external locking.
use vstd::prelude::*;

use crate::error::Error;
use crate::paths::is_absolute;

verus! {

/// The registrations of one apply run: target path to template name.
#[verifier::external_body]
pub struct TemplateMap {
    inner: dashmap::DashMap<String, String>,
}

/// What a [`TemplateMap`] holds: each registered target path with the name
/// of the template registered for it.
pub uninterp spec fn template_entries(m: TemplateMap) -> Map<Seq<char>, Seq<char>>;

impl View for TemplateMap {
    type V = Map<Seq<char>, Seq<char>>;

    open spec fn view(&self) -> Map<Seq<char>, Seq<char>> {
        template_entries(*self)
    }
}

impl TemplateMap {
    /// Relies on dashmap::DashMap::new: a freshly created map holds nothing.
    #[verifier::external_body]
    pub fn new() -> (r: TemplateMap)
        ensures
            forall|k: Seq<char>| !r@.dom().contains(k),
    {
        TemplateMap { inner: dashmap::DashMap::new() }
    }

    /// Relies on dashmap::DashMap::contains_key: whether the given target
    /// path is registered.
    #[verifier::external_body]
    pub fn contains(&self, path: &String) -> (r: bool)
        ensures
            r == self@.dom().contains(path@),
    {
        self.inner.contains_key(path)
    }

    /// Relies on dashmap::DashMap::insert: registers the template name
    /// under the target path, replacing a registration already there.
    #[verifier::external_body]
    pub fn insert(&mut self, path: String, name: String)
        ensures
            template_entries(*final(self)) =~= template_entries(*old(self)).insert(path@, name@),
    {
        self.inner.insert(path, name);
    }

    /// Relies on dashmap::DashMap::len: how many targets are registered.
    #[verifier::external_body]
    pub fn len(&self) -> (r: usize)
        ensures
            r == self@.dom().len(),
    {
        self.inner.len()
    }

    /// Relies on dashmap::DashMap::iter: every registration, each exactly
    /// once, in no promised order.
    #[verifier::external_body]
    pub fn entries(&self) -> (r: Vec<(String, String)>)
        ensures
            r@.len() == self@.dom().len(),
            forall|i: int|
                0 <= i < r@.len() ==> #[trigger] self@.contains_pair(r@[i].0@, r@[i].1@),
            forall|i: int, j: int| 0 <= i < j < r@.len() ==> r@[i].0@ != r@[j].0@,
            forall|k: Seq<char>|
                self@.dom().contains(k) ==> exists|i: int| 0 <= i < r@.len() && #[trigger] r@[i].0@
                    == k,
    {
        self.inner.iter().map(|entry| (entry.key().clone(), entry.value().clone())).collect()
    }
}

/// Registers the template `name` for the absolute target `path`, or
/// refuses the registration when the target is already taken: a second
/// module templating to the same file would race the first, so the run
/// must fail instead. The map is unchanged by a refusal.
pub fn try_register(map: &mut TemplateMap, path: String, name: String) -> (r: Result<(), Error>)
    requires
        is_absolute(path@),
    ensures
        old(map)@.dom().contains(path@) ==> ({
            &&& r matches Err(e)
            &&& e matches Error::TemplateTwice(p) && p@ == path@
            &&& final(map)@ == old(map)@
        }),
        !old(map)@.dom().contains(path@) ==> ({
            &&& r is Ok
            &&& final(map)@ =~= old(map)@.insert(path@, name@)
        }),
{
    if map.contains(&path) {
        Err(Error::TemplateTwice(path))
    } else {
        map.insert(path, name);
        Ok(())
    }
}

} // verus!
