//! The render step of one apply run.
//!
//! Every target registered during module execution is rendered through the
//! template engine's registry, with the template name its registration
//! recorded and the render data kept for that target. What a render
//! produces depends on the registry — template and helper files read from
//! disk — so nothing can be promised of the produced text; what is
//! verified is the step's shape: exactly one output per registered target,
//! each target exactly once, and the first failing render aborts the whole
//! step.
use vstd::prelude::*;

use crate::paths::str_eq;
use crate::template_map::TemplateMap;

verus! {

/// The template engine's registry, as an opaque outside value.
#[verifier::external_type_specification]
#[verifier::external_body]
pub struct ExHandlebars<'reg>(handlebars::Handlebars<'reg>);

/// A script value carried from a module's `template` call to the render,
/// as an opaque outside value.
#[verifier::external_type_specification]
#[verifier::external_body]
pub struct ExDynamic(rhai::Dynamic);

/// The template engine's render failure, as an opaque outside value.
#[verifier::external_type_specification]
#[verifier::external_body]
pub struct ExRenderError(handlebars::RenderError);

/// Relies on handlebars::Handlebars::render: renders the registered
/// template of the given name with the given data. The text depends on the
/// registry's template and helper files, so nothing is promised of it.
#[verifier::external_body]
fn render_one(
    registry: &handlebars::Handlebars<'_>,
    name: &String,
    data: &rhai::Dynamic,
) -> (r: Result<String, handlebars::RenderError>) {
    registry.render(name.as_str(), data)
}

/// Relies on rhai::Dynamic::UNIT: the script engine's value of nothing,
/// rendered for a target whose registration kept no data.
#[verifier::external_body]
fn dynamic_unit() -> (r: rhai::Dynamic) {
    rhai::Dynamic::UNIT
}

/// The render data kept for the given target, when any is: the data of the
/// first pair whose key is the target's path, or nothing when no key
/// matches.
fn data_for<'a>(data: &'a Vec<(String, rhai::Dynamic)>, target: &String) -> (r: Option<
    &'a rhai::Dynamic,
>)
    ensures
        match r {
            Some(v) => exists|i: int|
                {
                    &&& 0 <= i < data@.len()
                    &&& #[trigger] data@[i].0@ == target@
                    &&& *v == data@[i].1
                    &&& forall|j: int| 0 <= j < i ==> data@[j].0@ != target@
                },
            None => forall|i: int| 0 <= i < data@.len() ==> data@[i].0@ != target@,
        },
{
    let n = data.len();
    let mut i: usize = 0;
    while i < n
        invariant
            i <= n,
            n == data@.len(),
            forall|j: int| 0 <= j < i ==> data@[j].0@ != target@,
        decreases n - i,
    {
        if str_eq(data[i].0.as_str(), target.as_str()) {
            return Some(&data[i].1);
        }
        i += 1;
    }
    None
}

/// Renders every registered target: each target of the map, exactly once,
/// through the template name its registration recorded, with the render
/// data kept under the target's path. On success there is exactly one
/// rendered content per registered target; the first render that fails
/// aborts the step with the engine's error. With nothing registered there
/// is nothing to render, so nothing can fail.
pub fn render_registrations(
    registry: &handlebars::Handlebars<'_>,
    map: &TemplateMap,
    data: &Vec<(String, rhai::Dynamic)>,
) -> (r: Result<Vec<(String, String)>, handlebars::RenderError>)
    ensures
        map@.dom().len() == 0 ==> r is Ok,
        r matches Ok(out) ==> ({
            &&& out@.len() == map@.dom().len()
            &&& forall|i: int| 0 <= i < out@.len() ==> map@.dom().contains(#[trigger] out@[i].0@)
            &&& forall|i: int, j: int| 0 <= i < j < out@.len() ==> out@[i].0@ != out@[j].0@
            &&& forall|k: Seq<char>|
                map@.dom().contains(k) ==> exists|i: int|
                    0 <= i < out@.len() && #[trigger] out@[i].0@ == k
        }),
{
    let entries = map.entries();
    let n = entries.len();
    proof {
        assert forall|j: int| 0 <= j < n implies #[trigger] map@.dom().contains(
            entries@[j].0@,
        ) by {
            assert(map@.contains_pair(entries@[j].0@, entries@[j].1@));
        }
    }
    let mut out: Vec<(String, String)> = Vec::new();
    let mut i: usize = 0;
    while i < n
        invariant
            i <= n,
            n == entries@.len(),
            n == map@.dom().len(),
            forall|a: int, b: int| 0 <= a < b < n ==> entries@[a].0@ != entries@[b].0@,
            forall|j: int|
                0 <= j < n ==> #[trigger] map@.dom().contains(entries@[j].0@),
            forall|k: Seq<char>|
                map@.dom().contains(k) ==> exists|j: int|
                    0 <= j < n && #[trigger] entries@[j].0@ == k,
            out@.len() == i,
            forall|j: int| 0 <= j < i ==> #[trigger] out@[j].0@ == entries@[j].0@,
        decreases n - i,
    {
        let content = match data_for(data, &entries[i].0) {
            Some(value) => render_one(registry, &entries[i].1, value),
            None => {
                let unit = dynamic_unit();
                render_one(registry, &entries[i].1, &unit)
            },
        };
        match content {
            Ok(text) => {
                let target = String::from_str(entries[i].0.as_str());
                out.push((target, text));
            },
            Err(e) => {
                return Err(e);
            },
        }
        i += 1;
    }
    proof {
        assert forall|k: Seq<char>| map@.dom().contains(k) implies exists|j: int|
            0 <= j < out@.len() && #[trigger] out@[j].0@ == k by {
            let w = choose|w: int| 0 <= w < n && entries@[w].0@ == k;
            assert(out@[w].0@ == k);
        }
    }
    Ok(out)
}

} // verus!
