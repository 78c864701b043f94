use vstd::prelude::*;
use crate::config::{validation_issue, Config, SourceConfig, TransformConfig, SinkConfig, transform_inputs, sink_inputs, output_names};
use crate::error::RuntimeError;

verus! {

broadcast use vstd::string::group_string_axioms;

/// The role a component plays in the pipeline.
#[derive(Debug, Clone, Copy, PartialEq, Eq, Structural)]
pub enum ComponentKind {
    Source,
    Transform,
    Sink,
}

/// A component as the runtime wires it: its name, role and inputs.
#[derive(Debug, Clone)]
pub struct ComponentSpec {
    pub name: String,
    pub kind: ComponentKind,
    pub inputs: Vec<String>,
}

pub struct ComponentView {
    pub name: Seq<char>,
    pub kind: ComponentKind,
    pub inputs: Seq<Seq<char>>,
}

impl View for ComponentSpec {
    type V = ComponentView;

    open spec fn view(&self) -> ComponentView {
        ComponentView {
            name: self.name@,
            kind: self.kind,
            inputs: self.inputs@.map_values(|s: String| s@),
        }
    }
}

pub open spec fn spec_views(s: Seq<ComponentSpec>) -> Seq<ComponentView> {
    s.map_values(|c: ComponentSpec| c@)
}

pub open spec fn names_of(s: Seq<ComponentView>) -> Seq<Seq<char>> {
    s.map_values(|c: ComponentView| c.name)
}

/// Registers `c` in a table: a component with the same name is replaced in
/// place, otherwise `c` is added at the end.
pub open spec fn register(table: Seq<ComponentView>, c: ComponentView) -> Seq<ComponentView>
    decreases table.len(),
{
    if table.len() == 0 {
        seq![c]
    } else if table[0].name == c.name {
        table.update(0, c)
    } else {
        seq![table[0]] + register(table.drop_first(), c)
    }
}

proof fn lemma_register_at(table: Seq<ComponentView>, c: ComponentView, i: int)
    requires
        0 <= i <= table.len(),
        forall|j: int| 0 <= j < i ==> (#[trigger] table[j]).name != c.name,
        i < table.len() ==> table[i].name == c.name,
    ensures
        register(table, c) == if i < table.len() { table.update(i, c) } else { table.push(c) },
    decreases i,
{
    if i > 0 {
        let t = table.drop_first();
        assert forall|j: int| 0 <= j < i - 1 implies (#[trigger] t[j]).name != c.name by {
            assert(t[j] == table[j + 1]);
        }
        if i < table.len() {
            assert(t[i - 1] == table[i]);
        }
        lemma_register_at(t, c, i - 1);
        assert(table[0].name != c.name);
        if i < table.len() {
            assert(seq![table[0]] + t.update(i - 1, c) =~= table.update(i, c));
        } else {
            assert(seq![table[0]] + t.push(c) =~= table.push(c));
        }
    } else if table.len() == 0 {
        assert(seq![c] =~= table.push(c));
    }
}

pub open spec fn register_all(table: Seq<ComponentView>, cs: Seq<ComponentView>) -> Seq<ComponentView>
    decreases cs.len(),
{
    if cs.len() == 0 {
        table
    } else {
        register(register_all(table, cs.drop_last()), cs.last())
    }
}

pub open spec fn source_view(e: (String, SourceConfig)) -> ComponentView {
    ComponentView { name: e.0@, kind: ComponentKind::Source, inputs: seq![] }
}

pub open spec fn transform_view(e: (String, TransformConfig)) -> ComponentView {
    ComponentView {
        name: e.0@,
        kind: ComponentKind::Transform,
        inputs: transform_inputs(e.1).map_values(|s: String| s@),
    }
}

pub open spec fn sink_view(e: (String, SinkConfig)) -> ComponentView {
    ComponentView {
        name: e.0@,
        kind: ComponentKind::Sink,
        inputs: sink_inputs(e.1).map_values(|s: String| s@),
    }
}

/// Every component of `c` in the order the runtime registers them: sources,
/// then transforms, then sinks.
pub open spec fn declared_components(c: Config) -> Seq<ComponentView> {
    c.sources@.map_values(|e: (String, SourceConfig)| source_view(e))
        + c.transforms@.map_values(|e: (String, TransformConfig)| transform_view(e))
        + c.sinks@.map_values(|e: (String, SinkConfig)| sink_view(e))
}

/// The component table of `c`: each name once, a later registration
/// replacing an earlier one under the same name.
pub open spec fn component_table_spec(c: Config) -> Seq<ComponentView> {
    register_all(seq![], declared_components(c))
}

/// One connection the runtime makes: `consumer` reads from `input`.
#[derive(Debug, Clone)]
pub struct Connection {
    pub consumer: String,
    pub kind: ComponentKind,
    pub input: String,
}

pub struct ConnectionView {
    pub consumer: Seq<char>,
    pub kind: ComponentKind,
    pub input: Seq<char>,
}

impl View for Connection {
    type V = ConnectionView;

    open spec fn view(&self) -> ConnectionView {
        ConnectionView { consumer: self.consumer@, kind: self.kind, input: self.input@ }
    }
}

/// The connections a component asks for: one per input, in order; none for a source.
pub open spec fn component_steps(c: ComponentView) -> Seq<ConnectionView> {
    if c.kind == ComponentKind::Source {
        seq![]
    } else {
        c.inputs.map_values(|i: Seq<char>| ConnectionView { consumer: c.name, kind: c.kind, input: i })
    }
}

/// The connections all of `table` asks for, component by component.
pub open spec fn wiring_steps(table: Seq<ComponentView>) -> Seq<ConnectionView>
    decreases table.len(),
{
    if table.len() == 0 {
        seq![]
    } else {
        wiring_steps(table.drop_last()) + component_steps(table.last())
    }
}

/// Why a connection cannot be made.
pub enum WiringFailure {
    UnknownInput(Seq<char>, Seq<char>),
    MissingOutputChannel(Seq<char>),
    MissingInputChannel(Seq<char>),
}

/// Whether `step` can be made, given the component names and channel names.
pub open spec fn step_failure(step: ConnectionView, names: Seq<Seq<char>>, channels: Seq<Seq<char>>) -> Option<WiringFailure> {
    if !names.contains(step.input) {
        Some(WiringFailure::UnknownInput(step.consumer, step.input))
    } else if step.kind == ComponentKind::Transform && !channels.contains(step.consumer) {
        Some(WiringFailure::MissingOutputChannel(step.consumer))
    } else if !channels.contains(step.input) {
        Some(WiringFailure::MissingInputChannel(step.input))
    } else {
        None
    }
}

/// The first failing step of `steps` from position `k` on, with its index.
pub open spec fn first_failure(steps: Seq<ConnectionView>, names: Seq<Seq<char>>, channels: Seq<Seq<char>>, k: int) -> Option<(int, WiringFailure)>
    decreases steps.len() - k,
{
    if k < 0 || k >= steps.len() {
        None
    } else {
        match step_failure(steps[k], names, channels) {
            Some(f) => Some((k, f)),
            None => first_failure(steps, names, channels, k + 1),
        }
    }
}

/// The text of the runtime error reporting a wiring failure.
pub open spec fn failure_matches(e: RuntimeError, f: WiringFailure) -> bool {
    match f {
        WiringFailure::UnknownInput(consumer, input) => {
            &&& e matches RuntimeError::InvalidInput(c, m) && c@ == consumer && m@ == "Input "@ + input + " not found"@
        },
        WiringFailure::MissingOutputChannel(name) => {
            &&& e matches RuntimeError::ChannelError(m) && m@ == "Channel not found for "@ + name
        },
        WiringFailure::MissingInputChannel(input) => {
            &&& e matches RuntimeError::ChannelError(m) && m@ == "Channel not found for input "@ + input
        },
    }
}

/// The runtime's wiring of a component table: the connections it makes, in
/// order, and the error that stopped it, if any.
pub struct WiringPlan {
    pub connections: Vec<Connection>,
    pub error: Option<RuntimeError>,
}


/// A copy of `v`.
pub fn copy_strings(v: &Vec<String>) -> (r: Vec<String>)
    ensures
        r@ == v@,
{
    let mut out: Vec<String> = Vec::new();
    let mut i: usize = 0;
    while i < v.len()
        invariant
            i <= v@.len(),
            out@ == v@.take(i as int),
        decreases v@.len() - i,
    {
        out.push(v[i].clone());
        assert(out@ =~= v@.take(i + 1));
        i += 1;
    }
    assert(out@ =~= v@);
    out
}

/// The first position of the component named `name` in `table`, if any.
fn find_component(table: &Vec<ComponentSpec>, name: &String) -> (r: Option<usize>)
    ensures
        r is None ==> forall|j: int| 0 <= j < table@.len() ==> (#[trigger] table@[j]).name@ != name@,
        r matches Some(i) ==> i < table@.len() && table@[i as int].name@ == name@
            && forall|j: int| 0 <= j < i ==> (#[trigger] table@[j]).name@ != name@,
{
    let ghost names = names_of(spec_views(table@));
    let mut i: usize = 0;
    while i < table.len()
        invariant
            i <= table@.len(),
            names == names_of(spec_views(table@)),
            names.len() == table@.len(),
            forall|j: int| 0 <= j < i ==> (#[trigger] table@[j]).name@ != name@,
        decreases table@.len() - i,
    {
        if table[i].name == *name {
            return Some(i);
        }
        i += 1;
    }
    None
}

/// Adds `c` to `table` the way the runtime's component map does.
fn register_exec(table: &mut Vec<ComponentSpec>, c: ComponentSpec)
    ensures
        spec_views(final(table)@) == register(spec_views(old(table)@), c@),
{
    let ghost before = spec_views(table@);
    let r = find_component(table, &c.name);
    proof {
        let i = match r { Some(i) => i as int, None => before.len() as int };
        assert forall|j: int| 0 <= j < i implies (#[trigger] before[j]).name != c@.name by {
            assert(before[j].name == table@[j].name@);
        }
        lemma_register_at(before, c@, i);
    }
    match r {
        Some(i) => {
            table.set(i, c);
            assert(spec_views(table@) =~= before.update(i as int, c@));
        },
        None => {
            table.push(c);
            assert(spec_views(table@) =~= before.push(c@));
        },
    }
}

/// The runtime's component table for `config`: sources, then transforms,
/// then sinks, each name once, a later component replacing an earlier one.
pub fn component_table(config: &Config) -> (r: Vec<ComponentSpec>)
    ensures
        spec_views(r@) == component_table_spec(*config),
{
    let ghost decl = declared_components(*config);
    let ghost ns = config.sources@.len();
    let ghost nt = config.transforms@.len();
    let mut table: Vec<ComponentSpec> = Vec::new();
    let mut i: usize = 0;
    assert(decl.take(0) =~= Seq::<ComponentView>::empty());
    while i < config.sources.len()
        invariant
            i <= config.sources@.len(),
            decl == declared_components(*config),
            spec_views(table@) == register_all(seq![], decl.take(i as int)),
        decreases config.sources@.len() - i,
    {
        let c = ComponentSpec { name: config.sources[i].0.clone(), kind: ComponentKind::Source, inputs: Vec::new() };
        assert(c@.inputs =~= Seq::<Seq<char>>::empty());
        assert(decl[i as int] == source_view(config.sources@[i as int]));
        assert(c@ == decl[i as int]);
        assert(decl.take(i + 1).drop_last() =~= decl.take(i as int));
        register_exec(&mut table, c);
        i += 1;
    }
    let mut i: usize = 0;
    while i < config.transforms.len()
        invariant
            i <= config.transforms@.len(),
            decl == declared_components(*config),
            ns == config.sources@.len(),
            spec_views(table@) == register_all(seq![], decl.take(ns + i)),
        decreases config.transforms@.len() - i,
    {
        let inputs = match &config.transforms[i].1 {
            TransformConfig::Remap(r) => copy_strings(&r.inputs),
        };
        let c = ComponentSpec { name: config.transforms[i].0.clone(), kind: ComponentKind::Transform, inputs };
        assert(decl[ns + i] == transform_view(config.transforms@[i as int]));
        assert(c@.inputs =~= decl[ns + i].inputs);
        assert(c@ == decl[ns + i]);
        assert(decl.take(ns + i + 1).drop_last() =~= decl.take(ns + i));
        register_exec(&mut table, c);
        i += 1;
    }
    let mut i: usize = 0;
    while i < config.sinks.len()
        invariant
            i <= config.sinks@.len(),
            decl == declared_components(*config),
            ns == config.sources@.len(),
            nt == config.transforms@.len(),
            spec_views(table@) == register_all(seq![], decl.take(ns + nt + i)),
        decreases config.sinks@.len() - i,
    {
        let inputs = match &config.sinks[i].1 {
            SinkConfig::Http(h) => copy_strings(&h.inputs),
            SinkConfig::Console(k) => copy_strings(&k.inputs),
        };
        let c = ComponentSpec { name: config.sinks[i].0.clone(), kind: ComponentKind::Sink, inputs };
        assert(decl[ns + nt + i] == sink_view(config.sinks@[i as int]));
        assert(c@.inputs =~= decl[ns + nt + i].inputs);
        assert(c@ == decl[ns + nt + i]);
        assert(decl.take(ns + nt + i + 1).drop_last() =~= decl.take(ns + nt + i));
        register_exec(&mut table, c);
        i += 1;
    }
    assert(decl.take(ns + nt + i) =~= decl);
    table
}


fn contains_text(v: &Vec<String>, x: &String) -> (r: bool)
    ensures
        r == v@.map_values(|s: String| s@).contains(x@),
{
    let ghost vs = v@.map_values(|s: String| s@);
    let mut i: usize = 0;
    while i < v.len()
        invariant
            i <= v@.len(),
            vs == v@.map_values(|s: String| s@),
            forall|j: int| 0 <= j < i ==> vs[j] != x@,
        decreases v@.len() - i,
    {
        if v[i] == *x {
            assert(vs[i as int] == x@);
            return true;
        }
        i += 1;
    }
    false
}

proof fn lemma_push_contains<A>(s: Seq<A>, a: A, x: A)
    ensures
        s.push(a).contains(x) <==> (s.contains(x) || x == a),
{
    if s.contains(x) {
        let k = choose|k: int| 0 <= k < s.len() && #[trigger] s[k] == x;
        assert(s.push(a)[k] == x);
    }
    if x == a {
        assert(s.push(a)[s.len() as int] == x);
    }
    if s.push(a).contains(x) && x != a {
        let k = choose|k: int| 0 <= k < s.push(a).len() && #[trigger] s.push(a)[k] == x;
        assert(s[k] == x);
    }
}

/// The names the runtime opens a channel for: every source and transform name, once each.
pub fn channel_names(config: &Config) -> (r: Vec<String>)
    ensures
        forall|x: Seq<char>| r@.map_values(|s: String| s@).contains(x) <==> output_names(*config).contains(x),
        r@.map_values(|s: String| s@).no_duplicates(),
{
    let all = config.available_outputs();
    let ghost av = all@.map_values(|s: String| s@);
    let mut out: Vec<String> = Vec::new();
    let mut i: usize = 0;
    while i < all.len()
        invariant
            i <= all@.len(),
            av == all@.map_values(|s: String| s@),
            av == output_names(*config),
            forall|x: Seq<char>| out@.map_values(|s: String| s@).contains(x) <==> av.take(i as int).contains(x),
            out@.map_values(|s: String| s@).no_duplicates(),
        decreases all@.len() - i,
    {
        let ghost before = out@.map_values(|s: String| s@);
        assert(av.take(i + 1) =~= av.take(i as int).push(av[i as int]));
        if !contains_text(&out, &all[i]) {
            out.push(all[i].clone());
            assert(out@.map_values(|s: String| s@) =~= before.push(av[i as int]));
            let ghost now = out@.map_values(|s: String| s@);
            assert forall|x: Seq<char>| #[trigger] now.contains(x) <==> av.take(i + 1).contains(x) by {
                lemma_push_contains(before, av[i as int], x);
                lemma_push_contains(av.take(i as int), av[i as int], x);
            }
        } else {
            assert forall|x: Seq<char>| #[trigger] av.take(i + 1).contains(x) <==> before.contains(x) by {
                lemma_push_contains(av.take(i as int), av[i as int], x);
            }
        }
        i += 1;
    }
    assert(av.take(i as int) =~= av);
    out
}

/// The connections a table asks for, component by component and input by input.
pub fn wiring_steps_exec(table: &Vec<ComponentSpec>) -> (r: Vec<Connection>)
    ensures
        r@.map_values(|c: Connection| c@) == wiring_steps(spec_views(table@)),
{
    let ghost tv = spec_views(table@);
    let mut out: Vec<Connection> = Vec::new();
    let mut i: usize = 0;
    assert(tv.take(0) =~= Seq::<ComponentView>::empty());
    while i < table.len()
        invariant
            i <= table@.len(),
            tv == spec_views(table@),
            out@.map_values(|c: Connection| c@) == wiring_steps(tv.take(i as int)),
        decreases table@.len() - i,
    {
        let ghost before = out@.map_values(|c: Connection| c@);
        let ghost cv = tv[i as int];
        assert(tv.take(i + 1).drop_last() =~= tv.take(i as int));
        assert(tv.take(i + 1).last() == cv);
        if table[i].kind != ComponentKind::Source {
            let mut k: usize = 0;
            while k < table[i].inputs.len()
                invariant
                    k <= table@[i as int].inputs@.len(),
                    i < table@.len(),
                    cv == tv[i as int],
                    tv == spec_views(table@),
                    cv.kind != ComponentKind::Source,
                    out@.map_values(|c: Connection| c@) == before + component_steps(cv).take(k as int),
                decreases table@[i as int].inputs@.len() - k,
            {
                let conn = Connection {
                    consumer: table[i].name.clone(),
                    kind: table[i].kind,
                    input: table[i].inputs[k].clone(),
                };
                let ghost mid = out@.map_values(|c: Connection| c@);
                out.push(conn);
                proof {
                    assert(out@.map_values(|c: Connection| c@) =~= mid.push(conn@));
                    assert(component_steps(cv)[k as int] == conn@);
                    assert(component_steps(cv).take(k + 1) =~= component_steps(cv).take(k as int).push(conn@));
                }
                k += 1;
            }
            assert(component_steps(cv).take(k as int) =~= component_steps(cv));
        } else {
            assert(component_steps(cv) =~= Seq::<ConnectionView>::empty());
            assert(before + component_steps(cv) =~= before);
        }
        i += 1;
    }
    assert(tv.take(i as int) =~= tv);
    out
}


pub open spec fn plan_matches(plan: WiringPlan, table: Seq<ComponentView>, channels: Seq<Seq<char>>) -> bool {
    let steps = wiring_steps(table);
    let made = plan.connections@.map_values(|c: Connection| c@);
    match first_failure(steps, names_of(table), channels, 0) {
        None => made == steps && plan.error is None,
        Some((k, f)) => {
            &&& made == steps.take(k)
            &&& plan.error matches Some(e) && failure_matches(e, f)
        },
    }
}

proof fn lemma_first_failure_skip(steps: Seq<ConnectionView>, names: Seq<Seq<char>>, channels: Seq<Seq<char>>, k: int)
    requires
        0 <= k <= steps.len(),
        forall|j: int| 0 <= j < k ==> step_failure(#[trigger] steps[j], names, channels) is None,
    ensures
        first_failure(steps, names, channels, 0) == first_failure(steps, names, channels, k),
    decreases k,
{
    if k > 0 {
        lemma_first_failure_skip(steps, names, channels, k - 1);
    }
}

fn text_with(prefix: &str, x: &String, suffix: &str) -> (r: String)
    ensures
        r@ == prefix@ + x@ + suffix@,
{
    let mut s = String::from_str(prefix);
    s.append(x.as_str());
    s.append(suffix);
    s
}

/// Wires a component table the way the runtime does: every transform and sink
/// input, component by component, is checked and connected; the first input
/// that cannot be connected stops the wiring with an error, and the
/// connections made before it stay made.
pub fn plan_wiring(table: &Vec<ComponentSpec>, channels: &Vec<String>) -> (plan: WiringPlan)
    ensures
        plan_matches(plan, spec_views(table@), channels@.map_values(|s: String| s@)),
{
    let ghost tv = spec_views(table@);
    let ghost names = names_of(tv);
    let ghost chans = channels@.map_values(|s: String| s@);
    let steps = wiring_steps_exec(table);
    let ghost sv = wiring_steps(tv);
    let mut made: Vec<Connection> = Vec::new();
    let mut i: usize = 0;
    while i < steps.len()
        invariant
            i <= steps@.len(),
            steps@.map_values(|c: Connection| c@) == sv,
            sv == wiring_steps(tv),
            tv == spec_views(table@),
            names == names_of(tv),
            chans == channels@.map_values(|s: String| s@),
            made@.map_values(|c: Connection| c@) == sv.take(i as int),
            forall|j: int| 0 <= j < i ==> step_failure(#[trigger] sv[j], names, chans) is None,
        decreases steps@.len() - i,
    {
        let step = &steps[i];
        assert(sv[i as int] == step@);
        proof {
            lemma_first_failure_skip(sv, names, chans, i as int);
        }
        let known = match find_component(table, &step.input) {
            Some(_) => true,
            None => false,
        };
        proof {
            if known {
                let k = choose|k: int| 0 <= k < table@.len() && table@[k].name@ == step.input@;
                assert(names[k] == step.input@);
            } else if names.contains(step.input@) {
                let k = choose|k: int| 0 <= k < names.len() && names[k] == step.input@;
                assert(table@[k].name@ == names[k]);
            }
        }
        if !known {
            let msg = text_with("Input ", &step.input, " not found");
            let e = RuntimeError::invalid_input(step.consumer.clone(), msg);
            return WiringPlan { connections: made, error: Some(e) };
        }
        if step.kind == ComponentKind::Transform && !contains_text(channels, &step.consumer) {
            let e = RuntimeError::channel_error(text_with("Channel not found for ", &step.consumer, ""));
            proof {
                assert(("Channel not found for "@ + step.consumer@ + ""@) =~= ("Channel not found for "@ + step.consumer@)) by {
                    reveal_strlit("");
                }
            }
            return WiringPlan { connections: made, error: Some(e) };
        }
        if !contains_text(channels, &step.input) {
            let e = RuntimeError::channel_error(text_with("Channel not found for input ", &step.input, ""));
            proof {
                assert(("Channel not found for input "@ + step.input@ + ""@) =~= ("Channel not found for input "@ + step.input@)) by {
                    reveal_strlit("");
                }
            }
            return WiringPlan { connections: made, error: Some(e) };
        }
        let ghost before = made@.map_values(|c: Connection| c@);
        made.push(Connection { consumer: step.consumer.clone(), kind: step.kind, input: step.input.clone() });
        proof {
            assert(made@.map_values(|c: Connection| c@) =~= before.push(sv[i as int]));
            assert(sv.take(i + 1) =~= sv.take(i as int).push(sv[i as int]));
        }
        i += 1;
    }
    proof {
        lemma_first_failure_skip(sv, names, chans, i as int);
        assert(sv.take(i as int) =~= sv);
    }
    WiringPlan { connections: made, error: None }
}


proof fn lemma_register_names(t: Seq<ComponentView>, c: ComponentView, x: Seq<char>)
    ensures
        names_of(register(t, c)).contains(x) <==> (names_of(t).contains(x) || x == c.name),
        register(t, c).len() >= t.len(),
        forall|i: int| 0 <= i < register(t, c).len() ==> (#[trigger] register(t, c)[i] == c || t.contains(register(t, c)[i])),
    decreases t.len(),
{
    let r = register(t, c);
    if t.len() == 0 {
        assert(names_of(r)[0] == c.name);
    } else if t[0].name == c.name {
        assert forall|i: int| 0 <= i < r.len() implies (#[trigger] r[i] == c || t.contains(r[i])) by {
            if i > 0 {
                assert(r[i] == t[i]);
            }
        }
        if names_of(t).contains(x) {
            let k = choose|k: int| 0 <= k < names_of(t).len() && #[trigger] names_of(t)[k] == x;
            assert(names_of(r)[k] == x);
        }
        if x == c.name {
            assert(names_of(r)[0] == x);
        }
        if names_of(r).contains(x) {
            let k = choose|k: int| 0 <= k < names_of(r).len() && #[trigger] names_of(r)[k] == x;
            assert(names_of(t)[k] == x);
        }
    } else {
        let rest = t.drop_first();
        lemma_register_names(rest, c, x);
        assert(r == seq![t[0]] + register(rest, c));
        assert forall|i: int| 0 <= i < r.len() implies (#[trigger] r[i] == c || t.contains(r[i])) by {
            if i == 0 {
                assert(t[0] == r[0]);
            } else {
                assert(r[i] == register(rest, c)[i - 1]);
                if rest.contains(r[i]) {
                    let k = choose|k: int| 0 <= k < rest.len() && #[trigger] rest[k] == r[i];
                    assert(t[k + 1] == r[i]);
                }
            }
        }
        let rn = names_of(register(rest, c));
        assert(names_of(r) =~= seq![t[0].name] + rn);
        assert(names_of(t) =~= seq![t[0].name] + names_of(rest));
        if names_of(t).contains(x) {
            let k = choose|k: int| 0 <= k < names_of(t).len() && #[trigger] names_of(t)[k] == x;
            if k > 0 {
                assert(names_of(rest)[k - 1] == x);
            } else {
                assert(names_of(r)[0] == x);
            }
        }
        if rn.contains(x) {
            let k = choose|k: int| 0 <= k < rn.len() && #[trigger] rn[k] == x;
            assert(names_of(r)[k + 1] == x);
        }
        if names_of(rest).contains(x) {
            let k = choose|k: int| 0 <= k < names_of(rest).len() && #[trigger] names_of(rest)[k] == x;
            assert(names_of(t)[k + 1] == x);
        }
        if names_of(r).contains(x) {
            let k = choose|k: int| 0 <= k < names_of(r).len() && #[trigger] names_of(r)[k] == x;
            if k > 0 {
                assert(rn[k - 1] == x);
            } else {
                assert(names_of(t)[0] == x);
            }
        }
    }
}

proof fn lemma_register_all_facts(t: Seq<ComponentView>, cs: Seq<ComponentView>, x: Seq<char>)
    ensures
        names_of(register_all(t, cs)).contains(x) <==> (names_of(t).contains(x) || names_of(cs).contains(x)),
        forall|i: int| 0 <= i < register_all(t, cs).len() ==>
            (t.contains(#[trigger] register_all(t, cs)[i]) || cs.contains(register_all(t, cs)[i])),
    decreases cs.len(),
{
    if cs.len() > 0 {
        let prev = register_all(t, cs.drop_last());
        let c = cs.last();
        lemma_register_all_facts(t, cs.drop_last(), x);
        lemma_register_names(prev, c, x);
        let r = register_all(t, cs);
        assert(r == register(prev, c));
        assert(names_of(cs) =~= names_of(cs.drop_last()).push(c.name));
        lemma_push_contains(names_of(cs.drop_last()), c.name, x);
        assert forall|i: int| 0 <= i < r.len() implies (t.contains(#[trigger] r[i]) || cs.contains(r[i])) by {
            if r[i] == c {
                assert(cs[cs.len() - 1] == c);
            } else {
                assert(prev.contains(r[i]));
                let k = choose|k: int| 0 <= k < prev.len() && #[trigger] prev[k] == r[i];
                assert(t.contains(prev[k]) || cs.drop_last().contains(prev[k]));
                if cs.drop_last().contains(prev[k]) {
                    let m = choose|m: int| 0 <= m < cs.drop_last().len() && #[trigger] cs.drop_last()[m] == prev[k];
                    assert(cs[m] == r[i]);
                }
            }
        }
    } else {
        assert(names_of(cs) =~= Seq::<Seq<char>>::empty());
    }
}

/// Every connection a table asks for comes from one of its transforms or
/// sinks, and reads from one of that component's inputs.
proof fn lemma_step_origin(table: Seq<ComponentView>, k: int)
    requires
        0 <= k < wiring_steps(table).len(),
    ensures
        exists|i: int| 0 <= i < table.len() && (#[trigger] table[i]).kind != ComponentKind::Source
            && table[i].name == wiring_steps(table)[k].consumer
            && table[i].kind == wiring_steps(table)[k].kind
            && table[i].inputs.contains(wiring_steps(table)[k].input),
    decreases table.len(),
{
    let prev = table.drop_last();
    let last = table.last();
    let steps = wiring_steps(table);
    assert(steps == wiring_steps(prev) + component_steps(last));
    if k < wiring_steps(prev).len() {
        lemma_step_origin(prev, k);
        let i = choose|i: int| 0 <= i < prev.len() && (#[trigger] prev[i]).kind != ComponentKind::Source
            && prev[i].name == wiring_steps(prev)[k].consumer
            && prev[i].kind == wiring_steps(prev)[k].kind
            && prev[i].inputs.contains(wiring_steps(prev)[k].input);
        assert(table[i] == prev[i]);
        assert(steps[k] == wiring_steps(prev)[k]);
    } else {
        let j = k - wiring_steps(prev).len();
        assert(steps[k] == component_steps(last)[j]);
        assert(last.kind != ComponentKind::Source);
        assert(component_steps(last)[j].input == last.inputs[j]);
        assert(table[table.len() - 1] == last);
    }
}

proof fn lemma_output_names_declared(c: Config, x: Seq<char>)
    requires
        output_names(c).contains(x),
    ensures
        names_of(declared_components(c)).contains(x),
{
    let k = choose|k: int| 0 <= k < output_names(c).len() && #[trigger] output_names(c)[k] == x;
    let d = declared_components(c);
    let ns = c.sources@.len() as int;
    if k < ns {
        assert(d[k] == source_view(c.sources@[k]));
        assert(names_of(d)[k] == x);
    } else {
        assert(d[k] == transform_view(c.transforms@[k - ns]));
        assert(names_of(d)[k] == x);
    }
}

/// An accepted configuration wires completely: every input of every
/// transform and sink in its component table names a component, and every
/// channel the wiring needs is among the channels opened for it.
pub proof fn lemma_accepted_config_wires_completely(c: Config, channels: Seq<Seq<char>>)
    requires
        validation_issue(c) is None,
        forall|x: Seq<char>| #[trigger] channels.contains(x) <==> output_names(c).contains(x),
    ensures
        first_failure(
            wiring_steps(component_table_spec(c)),
            names_of(component_table_spec(c)),
            channels,
            0,
        ) is None,
{
    crate::config::lemma_validation_accepts_exactly(c);
    let table = component_table_spec(c);
    let steps = wiring_steps(table);
    let names = names_of(table);
    let d = declared_components(c);
    let ns = c.sources@.len() as int;
    let nt = c.transforms@.len() as int;
    assert forall|k: int| 0 <= k < steps.len() implies step_failure(#[trigger] steps[k], names, channels) is None by {
        lemma_step_origin(table, k);
        let i = choose|i: int| 0 <= i < table.len() && (#[trigger] table[i]).kind != ComponentKind::Source
            && table[i].name == steps[k].consumer
            && table[i].kind == steps[k].kind
            && table[i].inputs.contains(steps[k].input);
        let e = table[i];
        lemma_register_all_facts(seq![], d, steps[k].input);
        assert(d.contains(e));
        let m = choose|m: int| 0 <= m < d.len() && #[trigger] d[m] == e;
        let q = choose|q: int| 0 <= q < e.inputs.len() && #[trigger] e.inputs[q] == steps[k].input;
        if m < ns {
            assert(d[m] == source_view(c.sources@[m]));
        } else if m < ns + nt {
            let t = m - ns;
            assert(d[m] == transform_view(c.transforms@[t]));
            assert(e.inputs[q] == transform_inputs(c.transforms@[t].1)[q]@);
            assert(output_names(c).contains(transform_inputs(c.transforms@[t].1)[q]@));
            assert(output_names(c)[ns + t] == e.name);
            assert(output_names(c).contains(e.name));
            assert(channels.contains(e.name));
        } else {
            let t = m - ns - nt;
            assert(d[m] == sink_view(c.sinks@[t]));
            assert(e.inputs[q] == sink_inputs(c.sinks@[t].1)[q]@);
            assert(output_names(c).contains(sink_inputs(c.sinks@[t].1)[q]@));
        }
        assert(output_names(c).contains(steps[k].input));
        assert(channels.contains(steps[k].input));
        lemma_output_names_declared(c, steps[k].input);
    }
    lemma_first_failure_skip(steps, names, channels, steps.len() as int);
}


/// The sources of a table, in order, each of which the runtime starts with
/// the channel opened under its name; the first source without a channel
/// stops the start with a channel error.
pub fn plan_sources(table: &Vec<ComponentSpec>, channels: &Vec<String>) -> (r: Result<Vec<String>, RuntimeError>)
    ensures
        r matches Ok(names) ==> names@.map_values(|s: String| s@) == spec_views(table@).filter(
            |c: ComponentView| c.kind == ComponentKind::Source,
        ).map_values(|c: ComponentView| c.name),
        r matches Ok(_) ==> forall|i: int| 0 <= i < table@.len() && (#[trigger] table@[i]).kind == ComponentKind::Source
            ==> channels@.map_values(|s: String| s@).contains(table@[i].name@),
        r matches Err(e) ==> exists|i: int| 0 <= i < table@.len() && (#[trigger] table@[i]).kind == ComponentKind::Source
            && !channels@.map_values(|s: String| s@).contains(table@[i].name@)
            && (e matches RuntimeError::ChannelError(m) && m@ == "Channel not found for "@ + table@[i].name@),
{
    let ghost tv = spec_views(table@);
    let ghost f = |c: ComponentView| c.kind == ComponentKind::Source;
    let ghost g = |c: ComponentView| c.name;
    let mut out: Vec<String> = Vec::new();
    let mut i: usize = 0;
    while i < table.len()
        invariant
            i <= table@.len(),
            tv == spec_views(table@),
            f == (|c: ComponentView| c.kind == ComponentKind::Source),
            g == (|c: ComponentView| c.name),
            out@.map_values(|s: String| s@) == tv.take(i as int).filter(f).map_values(g),
            forall|j: int| 0 <= j < i && (#[trigger] table@[j]).kind == ComponentKind::Source
                ==> channels@.map_values(|s: String| s@).contains(table@[j].name@),
        decreases table@.len() - i,
    {
        proof {
            let t = tv.take(i + 1);
            assert(t.drop_last() =~= tv.take(i as int));
            assert(t.last() == tv[i as int]);
            reveal_with_fuel(Seq::filter, 1);
        }
        if table[i].kind == ComponentKind::Source {
            if !contains_text(channels, &table[i].name) {
                let e = RuntimeError::channel_error(text_with("Channel not found for ", &table[i].name, ""));
                proof {
                    assert(("Channel not found for "@ + table@[i as int].name@ + ""@) =~= ("Channel not found for "@ + table@[i as int].name@)) by {
                        reveal_strlit("");
                    }
                }
                return Err(e);
            }
            let ghost before = out@;
            out.push(table[i].name.clone());
            proof {
                assert(out@ == before.push(table@[i as int].name));
                assert(tv.take(i + 1).filter(f) == tv.take(i as int).filter(f).push(tv[i as int]));
                assert(out@.map_values(|s: String| s@) =~= before.map_values(|s: String| s@).push(table@[i as int].name@));
                assert(g(tv[i as int]) == table@[i as int].name@);
                assert(tv.take(i + 1).filter(f).map_values(g) =~= tv.take(i as int).filter(f).map_values(g).push(g(tv[i as int])));
            }
        } else {
            assert(tv.take(i + 1).filter(f) == tv.take(i as int).filter(f));
        }
        i += 1;
    }
    assert(tv.take(i as int) =~= tv);
    Ok(out)
}

/// The component table of a configuration names exactly the components the
/// configuration declares.
pub proof fn lemma_component_table_names(c: Config, x: Seq<char>)
    ensures
        names_of(component_table_spec(c)).contains(x) <==> names_of(declared_components(c)).contains(x),
{
    lemma_register_all_facts(seq![], declared_components(c), x);
    assert(names_of(Seq::<ComponentView>::empty()) =~= Seq::<Seq<char>>::empty());
}

proof fn lemma_register_contains_new(t: Seq<ComponentView>, c: ComponentView)
    ensures
        register(t, c).contains(c),
    decreases t.len(),
{
    if t.len() == 0 {
        assert(register(t, c)[0] == c);
    } else if t[0].name == c.name {
        assert(register(t, c)[0] == c);
    } else {
        lemma_register_contains_new(t.drop_first(), c);
        let r = register(t.drop_first(), c);
        let k = choose|k: int| 0 <= k < r.len() && r[k] == c;
        assert(register(t, c)[k + 1] == c);
    }
}

proof fn lemma_register_keeps_other(t: Seq<ComponentView>, c: ComponentView, x: ComponentView)
    requires
        t.contains(x),
        x.name != c.name,
    ensures
        register(t, c).contains(x),
    decreases t.len(),
{
    let k = choose|k: int| 0 <= k < t.len() && t[k] == x;
    if t[0].name == c.name {
        assert(k != 0);
        assert(register(t, c)[k] == x);
    } else if k == 0 {
        assert(register(t, c)[0] == x);
    } else {
        assert(t.drop_first()[k - 1] == x);
        lemma_register_keeps_other(t.drop_first(), c, x);
        let r = register(t.drop_first(), c);
        let j = choose|j: int| 0 <= j < r.len() && r[j] == x;
        assert(register(t, c)[j + 1] == x);
    }
}

/// A component registered after every other one of its name stays in the table.
proof fn lemma_register_all_keeps_last(t: Seq<ComponentView>, cs: Seq<ComponentView>, m: int)
    requires
        0 <= m < cs.len(),
        forall|j: int| m < j < cs.len() ==> (#[trigger] cs[j]).name != cs[m].name,
    ensures
        register_all(t, cs).contains(cs[m]),
    decreases cs.len(),
{
    let prev = cs.drop_last();
    if m == cs.len() - 1 {
        lemma_register_contains_new(register_all(t, prev), cs.last());
    } else {
        assert forall|j: int| m < j < prev.len() implies (#[trigger] prev[j]).name != prev[m].name by {
            assert(prev[j] == cs[j]);
        }
        lemma_register_all_keeps_last(t, prev, m);
        assert(prev[m] == cs[m]);
        assert(cs[cs.len() - 1].name != cs[m].name);
        lemma_register_keeps_other(register_all(t, prev), cs.last(), cs[m]);
    }
}

/// A transform or sink in a table asks for one connection per input.
proof fn lemma_steps_of_component(table: Seq<ComponentView>, x: ComponentView, q: int)
    requires
        table.contains(x),
        x.kind != ComponentKind::Source,
        0 <= q < x.inputs.len(),
    ensures
        wiring_steps(table).contains(ConnectionView { consumer: x.name, kind: x.kind, input: x.inputs[q] }),
    decreases table.len(),
{
    let step = ConnectionView { consumer: x.name, kind: x.kind, input: x.inputs[q] };
    let prev = table.drop_last();
    assert(wiring_steps(table) == wiring_steps(prev) + component_steps(table.last()));
    if table.last() == x {
        let own = component_steps(x);
        assert(own[q] == step);
        assert(wiring_steps(table)[wiring_steps(prev).len() + q] == step);
    } else {
        let k = choose|k: int| 0 <= k < table.len() && table[k] == x;
        assert(k < prev.len());
        assert(prev[k] == x);
        lemma_steps_of_component(prev, x, q);
        let j = choose|j: int| 0 <= j < wiring_steps(prev).len() && wiring_steps(prev)[j] == step;
        assert(wiring_steps(table)[j] == step);
    }
}

/// Every transform is registered with its full list of inputs, and each of
/// its inputs yields a connection from that input to the transform, unless a
/// later transform or a sink takes over its name. For an accepted
/// configuration with every output channel open, the wiring plan makes each
/// of those connections.
pub proof fn lemma_transform_wired_to_all_inputs(c: Config, i: int, channels: Seq<Seq<char>>, plan: WiringPlan)
    requires
        0 <= i < c.transforms@.len(),
        forall|j: int| i < j < c.transforms@.len() ==> (#[trigger] c.transforms@[j]).0@ != c.transforms@[i].0@,
        forall|j: int| 0 <= j < c.sinks@.len() ==> (#[trigger] c.sinks@[j]).0@ != c.transforms@[i].0@,
    ensures
        component_table_spec(c).contains(ComponentView {
            name: c.transforms@[i].0@,
            kind: ComponentKind::Transform,
            inputs: transform_inputs(c.transforms@[i].1).map_values(|s: String| s@),
        }),
        forall|q: int| 0 <= q < transform_inputs(c.transforms@[i].1).len() ==> wiring_steps(component_table_spec(c)).contains(
            ConnectionView {
                consumer: c.transforms@[i].0@,
                kind: ComponentKind::Transform,
                input: (#[trigger] transform_inputs(c.transforms@[i].1)[q])@,
            },
        ),
        validation_issue(c) is None && (forall|x: Seq<char>| #[trigger] channels.contains(x) <==> output_names(c).contains(x))
            && plan_matches(plan, component_table_spec(c), channels) ==> forall|q: int|
            0 <= q < transform_inputs(c.transforms@[i].1).len() ==> plan.connections@.map_values(|k: Connection| k@).contains(
            ConnectionView {
                consumer: c.transforms@[i].0@,
                kind: ComponentKind::Transform,
                input: (#[trigger] transform_inputs(c.transforms@[i].1)[q])@,
            },
        ),
{
    let d = declared_components(c);
    let ns = c.sources@.len() as int;
    let nt = c.transforms@.len() as int;
    let m = ns + i;
    let x = transform_view(c.transforms@[i]);
    assert(d[m] == x);
    assert forall|j: int| m < j < d.len() implies (#[trigger] d[j]).name != d[m].name by {
        if j < ns + nt {
            assert(d[j] == transform_view(c.transforms@[j - ns]));
        } else {
            assert(d[j] == sink_view(c.sinks@[j - ns - nt]));
        }
    }
    lemma_register_all_keeps_last(seq![], d, m);
    let table = component_table_spec(c);
    assert forall|q: int| 0 <= q < transform_inputs(c.transforms@[i].1).len() implies wiring_steps(table).contains(
        ConnectionView {
            consumer: c.transforms@[i].0@,
            kind: ComponentKind::Transform,
            input: (#[trigger] transform_inputs(c.transforms@[i].1)[q])@,
        },
    ) by {
        lemma_steps_of_component(table, x, q);
    }
    if validation_issue(c) is None && (forall|x: Seq<char>| #[trigger] channels.contains(x) <==> output_names(c).contains(x))
        && plan_matches(plan, table, channels) {
        lemma_accepted_config_wires_completely(c, channels);
    }
}

/// Every sink is registered with its full list of inputs, and each of its
/// inputs yields a connection from that input to the sink, unless a later
/// sink takes over its name. For an accepted configuration with every output
/// channel open, the wiring plan makes each of those connections.
pub proof fn lemma_sink_wired_to_all_inputs(c: Config, i: int, channels: Seq<Seq<char>>, plan: WiringPlan)
    requires
        0 <= i < c.sinks@.len(),
        forall|j: int| i < j < c.sinks@.len() ==> (#[trigger] c.sinks@[j]).0@ != c.sinks@[i].0@,
    ensures
        component_table_spec(c).contains(ComponentView {
            name: c.sinks@[i].0@,
            kind: ComponentKind::Sink,
            inputs: sink_inputs(c.sinks@[i].1).map_values(|s: String| s@),
        }),
        forall|q: int| 0 <= q < sink_inputs(c.sinks@[i].1).len() ==> wiring_steps(component_table_spec(c)).contains(
            ConnectionView {
                consumer: c.sinks@[i].0@,
                kind: ComponentKind::Sink,
                input: (#[trigger] sink_inputs(c.sinks@[i].1)[q])@,
            },
        ),
        validation_issue(c) is None && (forall|x: Seq<char>| #[trigger] channels.contains(x) <==> output_names(c).contains(x))
            && plan_matches(plan, component_table_spec(c), channels) ==> forall|q: int|
            0 <= q < sink_inputs(c.sinks@[i].1).len() ==> plan.connections@.map_values(|k: Connection| k@).contains(
            ConnectionView {
                consumer: c.sinks@[i].0@,
                kind: ComponentKind::Sink,
                input: (#[trigger] sink_inputs(c.sinks@[i].1)[q])@,
            },
        ),
{
    let d = declared_components(c);
    let ns = c.sources@.len() as int;
    let nt = c.transforms@.len() as int;
    let m = ns + nt + i;
    let x = sink_view(c.sinks@[i]);
    assert(d[m] == x);
    assert forall|j: int| m < j < d.len() implies (#[trigger] d[j]).name != d[m].name by {
        assert(d[j] == sink_view(c.sinks@[j - ns - nt]));
    }
    lemma_register_all_keeps_last(seq![], d, m);
    let table = component_table_spec(c);
    assert forall|q: int| 0 <= q < sink_inputs(c.sinks@[i].1).len() implies wiring_steps(table).contains(
        ConnectionView {
            consumer: c.sinks@[i].0@,
            kind: ComponentKind::Sink,
            input: (#[trigger] sink_inputs(c.sinks@[i].1)[q])@,
        },
    ) by {
        lemma_steps_of_component(table, x, q);
    }
    if validation_issue(c) is None && (forall|x: Seq<char>| #[trigger] channels.contains(x) <==> output_names(c).contains(x))
        && plan_matches(plan, table, channels) {
        lemma_accepted_config_wires_completely(c, channels);
    }
}

} // verus!
