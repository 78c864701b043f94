use vstd::prelude::*;
use crate::component::{Component, Event};
use crate::config::RemapTransformConfig;
use crate::json::JsonValue;
use crate::pipeline::copy_strings;

verus! {

broadcast use vstd::string::group_string_axioms;

/// A transform that runs a remap program over each event's data.
pub struct VrlTransform {
    pub name: String,
    pub inputs: Vec<String>,
    /// The program text, compiled by the runtime.
    pub source: String,
}

impl VrlTransform {
    pub fn new(name: String, config: &RemapTransformConfig) -> (r: VrlTransform)
        ensures
            r.name == name,
            r.inputs@ == config.inputs@,
            r.source == config.source,
    {
        VrlTransform { name, inputs: copy_strings(&config.inputs), source: config.source.clone() }
    }

    /// The event a transform emits: the input event's id and metadata with
    /// the program's result as data.
    pub fn output_event(&self, input: Event, result: JsonValue) -> (r: Event)
        ensures
            r.id == input.id,
            r.metadata == input.metadata,
            r.data == result,
    {
        Event { id: input.id, data: result, metadata: input.metadata }
    }
}

impl Component for VrlTransform {
    fn name(&self) -> (r: &str)
        ensures
            r@ == self.name@,
    {
        self.name.as_str()
    }

    fn type_(&self) -> (r: &str)
        ensures
            r@ == "remap"@,
    {
        "remap"
    }

    fn inputs(&self) -> (r: &[String])
        ensures
            r@ == self.inputs@,
    {
        self.inputs.as_slice()
    }
}

/// The channel key of a named route of a routing transform: `transform.route`.
pub fn route_output_key(transform: &String, route: &String) -> (r: String)
    ensures
        r@ == transform@ + "."@ + route@,
{
    let mut s = transform.clone();
    s.append(".");
    s.append(route.as_str());
    s
}

/// The channel key for events that no route of a routing transform matched.
pub fn unmatched_output_key(transform: &String) -> (r: String)
    ensures
        r@ == transform@ + "._unmatched"@,
{
    let mut s = transform.clone();
    s.append("._unmatched");
    s
}

/// The channel keys an event is sent to, given each route's name and whether
/// its condition held: one key per matching route, in route order.
pub fn route_targets(transform: &String, outcomes: &Vec<(String, bool)>) -> (r: Vec<String>)
    ensures
        r@.map_values(|k: String| k@) == outcomes@.filter(|o: (String, bool)| o.1).map_values(
            |o: (String, bool)| transform@ + "."@ + o.0@,
        ),
{
    let ghost f = |o: (String, bool)| o.1;
    let ghost g = |o: (String, bool)| transform@ + "."@ + o.0@;
    let mut out: Vec<String> = Vec::new();
    let mut i: usize = 0;
    while i < outcomes.len()
        invariant
            i <= outcomes@.len(),
            f == (|o: (String, bool)| o.1),
            g == (|o: (String, bool)| transform@ + "."@ + o.0@),
            out@.map_values(|k: String| k@) == outcomes@.take(i as int).filter(f).map_values(g),
        decreases outcomes@.len() - i,
    {
        let ghost before = out@.map_values(|k: String| k@);
        proof {
            let t = outcomes@.take(i + 1);
            assert(t.drop_last() =~= outcomes@.take(i as int));
            assert(t.last() == outcomes@[i as int]);
            reveal_with_fuel(Seq::filter, 1);
        }
        if outcomes[i].1 {
            let key = route_output_key(transform, &outcomes[i].0);
            let ghost old_out = out@;
            out.push(key);
            assert(out@ == old_out.push(key));
            assert(out@.map_values(|k: String| k@) =~= before.push(g(outcomes@[i as int])));
            assert(outcomes@.take(i + 1).filter(f) == outcomes@.take(i as int).filter(f).push(outcomes@[i as int]));
            assert(outcomes@.take(i + 1).filter(f).map_values(g) =~= outcomes@.take(i as int).filter(f).map_values(g).push(g(outcomes@[i as int])));
        } else {
            assert(outcomes@.take(i + 1).filter(f) == outcomes@.take(i as int).filter(f));
        }
        i += 1;
    }
    assert(outcomes@.take(i as int) =~= outcomes@);
    out
}

/// Whether an event goes to the unmatched channel: only when no route took
/// it and rerouting of unmatched events is on.
pub fn send_to_unmatched(routed: bool, reroute_unmatched: bool) -> (r: bool)
    ensures
        r == (!routed && reroute_unmatched),
{
    !routed && reroute_unmatched
}

} // verus!
