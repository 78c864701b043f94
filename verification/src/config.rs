use vstd::prelude::*;
use crate::text::str_eq;

verus! {

/// The dispatcher's configuration. Each named collection holds its entries as
/// `(name, settings)` pairs; a configuration read from a file holds each name
/// at most once per collection (see `Config::well_formed`).
#[derive(Debug, Clone)]
pub struct Config {
    pub channel_capacity: usize,
    pub sources: Vec<(String, SourceConfig)>,
    pub transforms: Vec<(String, TransformConfig)>,
    pub sinks: Vec<(String, SinkConfig)>,
}

#[derive(Debug, Clone)]
pub enum SourceConfig {
    Http(HttpSourceConfig),
}

#[derive(Debug, Clone)]
pub struct HttpSourceConfig {
    pub address: String,
    pub port: Option<u16>,
    pub path: String,
    pub max_body_size_bytes: Option<usize>,
    pub enable_echo: Option<bool>,
    pub basic_auth: Option<String>,
}

#[derive(Debug, Clone)]
pub enum TransformConfig {
    Remap(RemapTransformConfig),
}

#[derive(Debug, Clone)]
pub struct RemapTransformConfig {
    pub inputs: Vec<String>,
    pub source: String,
}

#[derive(Debug, Clone)]
pub enum SinkConfig {
    Http(HttpSinkConfig),
    Console(ConsoleSinkConfig),
}

#[derive(Debug, Clone)]
pub struct HttpSinkConfig {
    pub inputs: Vec<String>,
    pub uri: String,
    pub encoding: Option<String>,
    pub template: Option<String>,
    pub method: Option<String>,
    pub headers: Option<Vec<(String, String)>>,
    pub query_params: Option<Vec<(String, String)>>,
    pub timeout_ms: Option<u64>,
    pub retry_attempts: Option<u32>,
    pub retry_interval_ms: Option<u64>,
    pub basic_auth: Option<String>,
    pub authorization: Option<String>,
    pub proxy_url: Option<String>,
    pub proxy_from_environment: bool,
    pub proxy_connect_headers: Option<Vec<(String, String)>>,
    pub follow_redirects: bool,
    pub tls: Option<TlsConfig>,
}

#[derive(Debug, Clone)]
pub struct ConsoleSinkConfig {
    pub inputs: Vec<String>,
    pub encoding: Option<String>,
    pub template: Option<String>,
}

#[derive(Debug, Clone)]
pub struct TlsConfig {
    pub ca_file: Option<String>,
    pub client_cert: Option<String>,
    pub client_key: Option<String>,
    pub verify: bool,
}

pub fn default_address() -> (r: String)
    ensures
        r@ == "0.0.0.0"@,
{
    String::from_str("0.0.0.0")
}

pub fn default_port() -> (r: Option<u16>)
    ensures
        r == Some(3000u16),
{
    Some(3000)
}

pub fn default_path() -> (r: String)
    ensures
        r@ == "/ingest"@,
{
    String::from_str("/ingest")
}

pub fn default_max_body_size() -> (r: Option<usize>)
    ensures
        r == Some(1048576usize),
{
    Some(1048576)
}

pub fn default_enable_echo() -> (r: Option<bool>)
    ensures
        r == Some(true),
{
    Some(true)
}

pub fn default_method() -> (r: Option<String>)
    ensures
        r is Some && r->0@ == "POST"@,
{
    Some(String::from_str("POST"))
}

pub fn default_timeout() -> (r: Option<u64>)
    ensures
        r == Some(30000u64),
{
    Some(30000)
}

pub fn default_retry_attempts() -> (r: Option<u32>)
    ensures
        r == Some(3u32),
{
    Some(3)
}

pub fn default_retry_interval() -> (r: Option<u64>)
    ensures
        r == Some(1000u64),
{
    Some(1000)
}

pub fn default_follow_redirects() -> (r: bool)
    ensures
        r,
{
    true
}

pub fn default_verify() -> (r: bool)
    ensures
        r,
{
    true
}

pub fn default_channel_capacity() -> (r: usize)
    ensures
        r == 100,
{
    100
}

impl Default for TlsConfig {
    fn default() -> (r: Self)
        ensures
            r.ca_file is None,
            r.client_cert is None,
            r.client_key is None,
            !r.verify,
    {
        TlsConfig { ca_file: None, client_cert: None, client_key: None, verify: false }
    }
}

/// True when no two entries share a name.
pub open spec fn names_distinct<T>(entries: Seq<(String, T)>) -> bool {
    forall|i: int, j: int| #![trigger entries[i], entries[j]]
        0 <= i < j < entries.len() ==> entries[i].0@ != entries[j].0@
}

/// True when an optional list of named entries names each entry once.
pub open spec fn opt_names_distinct(entries: Option<Vec<(String, String)>>) -> bool {
    match entries {
        Some(p) => names_distinct(p@),
        None => true,
    }
}

/// True when a sink's headers, query parameters and proxy headers each name
/// every entry once.
pub open spec fn sink_well_formed(s: SinkConfig) -> bool {
    match s {
        SinkConfig::Http(h) => opt_names_distinct(h.headers) && opt_names_distinct(h.query_params)
            && opt_names_distinct(h.proxy_connect_headers),
        SinkConfig::Console(_) => true,
    }
}

impl Config {
    /// The shape a configuration read from a file has: its sources,
    /// transforms and sinks each name every entry once, and so do the
    /// headers, query parameters and proxy headers of every sink.
    pub open spec fn well_formed(self) -> bool {
        &&& names_distinct(self.sources@)
        &&& names_distinct(self.transforms@)
        &&& names_distinct(self.sinks@)
        &&& forall|i: int| 0 <= i < self.sinks@.len() ==> sink_well_formed(#[trigger] self.sinks@[i].1)
    }
}

/// Whether no two entries share a name.
fn names_distinct_exec<T>(entries: &Vec<(String, T)>) -> (r: bool)
    ensures
        r == names_distinct(entries@),
{
    let n = entries.len();
    let mut i: usize = 0;
    while i < n
        invariant
            i <= n,
            n == entries@.len(),
            forall|a: int, b: int| #![trigger entries@[a], entries@[b]]
                0 <= a < b < n && a < i ==> entries@[a].0@ != entries@[b].0@,
        decreases n - i,
    {
        let mut j: usize = i + 1;
        while j < n
            invariant
                i < n,
                i < j <= n,
                n == entries@.len(),
                forall|a: int, b: int| #![trigger entries@[a], entries@[b]]
                    0 <= a < b < n && a < i ==> entries@[a].0@ != entries@[b].0@,
                forall|b: int| i < b < j ==> entries@[i as int].0@ != (#[trigger] entries@[b]).0@,
            decreases n - j,
        {
            if str_eq(entries[i].0.as_str(), entries[j].0.as_str()) {
                return false;
            }
            j += 1;
        }
        i += 1;
    }
    true
}

fn opt_names_distinct_exec(entries: &Option<Vec<(String, String)>>) -> (r: bool)
    ensures
        r == opt_names_distinct(*entries),
{
    match entries {
        Some(p) => names_distinct_exec(p),
        None => true,
    }
}

impl Config {
    /// Whether the configuration has the shape of one read from a file
    /// (`well_formed`): the test to make before `validate` on a configuration
    /// built by hand.
    pub fn is_well_formed(&self) -> (r: bool)
        ensures
            r == self.well_formed(),
    {
        if !names_distinct_exec(&self.sources) || !names_distinct_exec(&self.transforms)
            || !names_distinct_exec(&self.sinks) {
            return false;
        }
        let mut i: usize = 0;
        while i < self.sinks.len()
            invariant
                i <= self.sinks@.len(),
                forall|k: int| 0 <= k < i ==> sink_well_formed(#[trigger] self.sinks@[k].1),
            decreases self.sinks@.len() - i,
        {
            let ok = match &self.sinks[i].1 {
                SinkConfig::Http(h) => opt_names_distinct_exec(&h.headers) && opt_names_distinct_exec(&h.query_params)
                    && opt_names_distinct_exec(&h.proxy_connect_headers),
                SinkConfig::Console(_) => true,
            };
            if !ok {
                return false;
            }
            i += 1;
        }
        true
    }
}

impl Default for Config {
    fn default() -> (r: Self)
        ensures
            r.well_formed(),
            r.channel_capacity == 100,
            r.sources@.len() == 0,
            r.transforms@.len() == 0,
            r.sinks@.len() == 0,
    {
        Config {
            sources: Vec::new(),
            transforms: Vec::new(),
            sinks: Vec::new(),
            channel_capacity: default_channel_capacity(),
        }
    }
}


/// The first reason a configuration is refused, with the names involved.
#[derive(Debug, Clone)]
pub enum ConfigIssue {
    InvalidSourcePort(String),
    TransformWithoutInputs(String),
    EmptyVrlSource(String),
    SinkWithoutInputs(String),
    EmptySinkUri(String),
    UnknownTransformInput(String, String),
    UnknownSinkInput(String, String),
}

/// The first element of `s` for which `f` reports an issue, in order.
pub open spec fn first_issue<T>(s: Seq<T>, f: spec_fn(T) -> Option<ConfigIssue>) -> Option<ConfigIssue>
    decreases s.len(),
{
    if s.len() == 0 {
        None
    } else if f(s[0]) is Some {
        f(s[0])
    } else {
        first_issue(s.drop_first(), f)
    }
}

pub open spec fn or_else(a: Option<ConfigIssue>, b: Option<ConfigIssue>) -> Option<ConfigIssue> {
    if a is Some { a } else { b }
}

pub open spec fn source_issue(e: (String, SourceConfig)) -> Option<ConfigIssue> {
    match e.1 {
        SourceConfig::Http(h) => if h.port is None || h.port->0 == 0 {
            Some(ConfigIssue::InvalidSourcePort(e.0))
        } else {
            None
        },
    }
}

pub open spec fn transform_issue(e: (String, TransformConfig)) -> Option<ConfigIssue> {
    match e.1 {
        TransformConfig::Remap(r) => if r.inputs@.len() == 0 {
            Some(ConfigIssue::TransformWithoutInputs(e.0))
        } else if r.source@.len() == 0 {
            Some(ConfigIssue::EmptyVrlSource(e.0))
        } else {
            None
        },
    }
}

pub open spec fn sink_inputs(s: SinkConfig) -> Seq<String> {
    match s {
        SinkConfig::Http(h) => h.inputs@,
        SinkConfig::Console(c) => c.inputs@,
    }
}

pub open spec fn transform_inputs(t: TransformConfig) -> Seq<String> {
    match t {
        TransformConfig::Remap(r) => r.inputs@,
    }
}

pub open spec fn sink_issue(e: (String, SinkConfig)) -> Option<ConfigIssue> {
    match e.1 {
        SinkConfig::Http(h) => if h.inputs@.len() == 0 {
            Some(ConfigIssue::SinkWithoutInputs(e.0))
        } else if h.uri@.len() == 0 {
            Some(ConfigIssue::EmptySinkUri(e.0))
        } else {
            None
        },
        SinkConfig::Console(c) => if c.inputs@.len() == 0 {
            Some(ConfigIssue::SinkWithoutInputs(e.0))
        } else {
            None
        },
    }
}

/// Names that a transform or sink may read from: every source and every transform.
pub open spec fn output_names(c: Config) -> Seq<Seq<char>> {
    c.sources@.map_values(|e: (String, SourceConfig)| e.0@) + c.transforms@.map_values(
        |e: (String, TransformConfig)| e.0@,
    )
}

pub open spec fn unknown_transform_input(outputs: Seq<Seq<char>>, name: String) -> spec_fn(String) -> Option<ConfigIssue> {
    |input: String| if outputs.contains(input@) {
        None
    } else {
        Some(ConfigIssue::UnknownTransformInput(name, input))
    }
}

pub open spec fn unknown_sink_input(outputs: Seq<Seq<char>>, name: String) -> spec_fn(String) -> Option<ConfigIssue> {
    |input: String| if outputs.contains(input@) {
        None
    } else {
        Some(ConfigIssue::UnknownSinkInput(name, input))
    }
}

pub open spec fn transform_connection_issue(outputs: Seq<Seq<char>>) -> spec_fn((String, TransformConfig)) -> Option<ConfigIssue> {
    |e: (String, TransformConfig)| first_issue(transform_inputs(e.1), unknown_transform_input(outputs, e.0))
}

pub open spec fn sink_connection_issue(outputs: Seq<Seq<char>>) -> spec_fn((String, SinkConfig)) -> Option<ConfigIssue> {
    |e: (String, SinkConfig)| first_issue(sink_inputs(e.1), unknown_sink_input(outputs, e.0))
}

/// The first broken pipeline connection: transforms are checked before sinks,
/// each in order, and each one's inputs in order.
pub open spec fn connection_issue(c: Config) -> Option<ConfigIssue> {
    or_else(
        first_issue(c.transforms@, transform_connection_issue(output_names(c))),
        first_issue(c.sinks@, sink_connection_issue(output_names(c))),
    )
}

/// The first reason `c` is refused: sources, then transforms, then sinks, then
/// the pipeline connections; `None` when `c` is accepted.
pub open spec fn validation_issue(c: Config) -> Option<ConfigIssue> {
    or_else(
        first_issue(c.sources@, source_check()),
        or_else(
            first_issue(c.transforms@, transform_check()),
            or_else(first_issue(c.sinks@, sink_check()), connection_issue(c)),
        ),
    )
}

pub open spec fn source_check() -> spec_fn((String, SourceConfig)) -> Option<ConfigIssue> {
    |e: (String, SourceConfig)| source_issue(e)
}

pub open spec fn transform_check() -> spec_fn((String, TransformConfig)) -> Option<ConfigIssue> {
    |e: (String, TransformConfig)| transform_issue(e)
}

pub open spec fn sink_check() -> spec_fn((String, SinkConfig)) -> Option<ConfigIssue> {
    |e: (String, SinkConfig)| sink_issue(e)
}

pub open spec fn as_result(i: Option<ConfigIssue>) -> Result<(), ConfigIssue> {
    match i {
        Some(i) => Err(i),
        None => Ok(()),
    }
}

/// Skipping a prefix on which `f` reports nothing leaves the first issue unchanged.
pub proof fn lemma_first_issue_skip<T>(s: Seq<T>, f: spec_fn(T) -> Option<ConfigIssue>, i: int)
    requires
        0 <= i <= s.len(),
        forall|j: int| 0 <= j < i ==> (#[trigger] f(s[j])) is None,
    ensures
        first_issue(s, f) == first_issue(s.skip(i), f),
    decreases i,
{
    if i > 0 {
        assert(s.skip(0) =~= s);
        lemma_first_issue_skip(s.drop_first(), f, i - 1);
        assert(s.drop_first().skip(i - 1) =~= s.skip(i));
        assert forall|j: int| 0 <= j < i - 1 implies (#[trigger] f(s.drop_first()[j])) is None by {
            assert(s.drop_first()[j] == s[j + 1]);
        }
        assert(f(s[0]) is None);
    } else {
        assert(s.skip(0) =~= s);
    }
}

/// `first_issue` finds nothing exactly when `f` reports nothing for every element.
pub proof fn lemma_first_issue_none<T>(s: Seq<T>, f: spec_fn(T) -> Option<ConfigIssue>)
    ensures
        first_issue(s, f) is None <==> forall|j: int| 0 <= j < s.len() ==> (#[trigger] f(s[j])) is None,
    decreases s.len(),
{
    if s.len() > 0 {
        lemma_first_issue_none(s.drop_first(), f);
        if first_issue(s, f) is None {
            assert forall|j: int| 0 <= j < s.len() implies (#[trigger] f(s[j])) is None by {
                if j > 0 {
                    assert(s[j] == s.drop_first()[j - 1]);
                }
            }
        }
        if forall|j: int| 0 <= j < s.len() ==> (#[trigger] f(s[j])) is None {
            assert forall|j: int| 0 <= j < s.drop_first().len() implies (#[trigger] f(s.drop_first()[j])) is None by {
                assert(s.drop_first()[j] == s[j + 1]);
            }
            assert(f(s[0]) is None);
        }
    }
}

/// True when one of `names` has the same text as `name`.
fn contains_name(names: &Vec<String>, name: &String) -> (r: bool)
    ensures
        r == names@.map_values(|s: String| s@).contains(name@),
{
    let ghost views = names@.map_values(|s: String| s@);
    let mut i: usize = 0;
    while i < names.len()
        invariant
            i <= names.len(),
            views == names@.map_values(|s: String| s@),
            forall|j: int| 0 <= j < i ==> views[j] != name@,
        decreases names.len() - i,
    {
        if names[i] == *name {
            assert(views[i as int] == name@);
            return true;
        }
        i += 1;
    }
    proof {
        if views.contains(name@) {
            let k = choose|k: int| 0 <= k < views.len() && views[k] == name@;
            assert(views[k] == name@);
        }
    }
    false
}


/// The text of a validation issue.
pub open spec fn issue_text(i: ConfigIssue) -> Seq<char> {
    match i {
        ConfigIssue::InvalidSourcePort(n) => "Source "@ + n@ + " has invalid port configuration"@,
        ConfigIssue::TransformWithoutInputs(n) => "Transform "@ + n@ + " has no inputs configured"@,
        ConfigIssue::EmptyVrlSource(n) => "Transform "@ + n@ + " has empty VRL source"@,
        ConfigIssue::SinkWithoutInputs(n) => "Sink "@ + n@ + " has no inputs configured"@,
        ConfigIssue::EmptySinkUri(n) => "Sink "@ + n@ + " has empty URI"@,
        ConfigIssue::UnknownTransformInput(n, i) => "Transform "@ + n@ + " references unknown input "@ + i@,
        ConfigIssue::UnknownSinkInput(n, i) => "Sink "@ + n@ + " references unknown input "@ + i@,
    }
}

fn text_around(prefix: &str, name: &String, suffix: &str) -> (r: String)
    ensures
        r@ == prefix@ + name@ + suffix@,
{
    let mut s = String::from_str(prefix);
    s.append(name.as_str());
    s.append(suffix);
    s
}

impl ConfigIssue {
    /// The message that reports this issue.
    pub fn message(&self) -> (r: String)
        ensures
            r@ == issue_text(*self),
    {
        match self {
            ConfigIssue::InvalidSourcePort(n) => text_around("Source ", n, " has invalid port configuration"),
            ConfigIssue::TransformWithoutInputs(n) => text_around("Transform ", n, " has no inputs configured"),
            ConfigIssue::EmptyVrlSource(n) => text_around("Transform ", n, " has empty VRL source"),
            ConfigIssue::SinkWithoutInputs(n) => text_around("Sink ", n, " has no inputs configured"),
            ConfigIssue::EmptySinkUri(n) => text_around("Sink ", n, " has empty URI"),
            ConfigIssue::UnknownTransformInput(n, i) => {
                let mut s = text_around("Transform ", n, " references unknown input ");
                s.append(i.as_str());
                s
            },
            ConfigIssue::UnknownSinkInput(n, i) => {
                let mut s = text_around("Sink ", n, " references unknown input ");
                s.append(i.as_str());
                s
            },
        }
    }
}

/// Every source listens on a port other than zero.
pub open spec fn sources_have_ports(c: Config) -> bool {
    forall|i: int| 0 <= i < c.sources@.len() ==> match (#[trigger] c.sources@[i]).1 {
        SourceConfig::Http(h) => h.port is Some && h.port->0 != 0,
    }
}

/// Every transform has at least one input and a non-empty program.
pub open spec fn transforms_complete(c: Config) -> bool {
    forall|i: int| 0 <= i < c.transforms@.len() ==> match (#[trigger] c.transforms@[i]).1 {
        TransformConfig::Remap(r) => r.inputs@.len() > 0 && r.source@.len() > 0,
    }
}

/// Every sink has at least one input, and every HTTP sink a target URI.
pub open spec fn sinks_complete(c: Config) -> bool {
    forall|i: int| 0 <= i < c.sinks@.len() ==> match (#[trigger] c.sinks@[i]).1 {
        SinkConfig::Http(h) => h.inputs@.len() > 0 && h.uri@.len() > 0,
        SinkConfig::Console(k) => k.inputs@.len() > 0,
    }
}

/// Every input of every transform and sink names a source or a transform.
pub open spec fn inputs_connected(c: Config) -> bool {
    &&& forall|i: int, j: int|
        0 <= i < c.transforms@.len() && 0 <= j < transform_inputs(c.transforms@[i].1).len()
            ==> output_names(c).contains((#[trigger] transform_inputs(c.transforms@[i].1)[j])@)
    &&& forall|i: int, j: int|
        0 <= i < c.sinks@.len() && 0 <= j < sink_inputs(c.sinks@[i].1).len()
            ==> output_names(c).contains((#[trigger] sink_inputs(c.sinks@[i].1)[j])@)
}

proof fn lemma_sources_part(c: Config)
    ensures
        first_issue(c.sources@, source_check()) is None <==> sources_have_ports(c),
{
    lemma_first_issue_none(c.sources@, source_check());
    if first_issue(c.sources@, source_check()) is None {
        assert forall|i: int| 0 <= i < c.sources@.len() implies match (#[trigger] c.sources@[i]).1 {
            SourceConfig::Http(h) => h.port is Some && h.port->0 != 0,
        } by {
            assert(source_check()(c.sources@[i]) is None);
        }
    }
    if sources_have_ports(c) {
        assert forall|i: int| 0 <= i < c.sources@.len() implies (#[trigger] source_check()(c.sources@[i])) is None by {
            let e = c.sources@[i];
        }
    }
}

proof fn lemma_transforms_part(c: Config)
    ensures
        first_issue(c.transforms@, transform_check()) is None <==> transforms_complete(c),
{
    lemma_first_issue_none(c.transforms@, transform_check());
    if first_issue(c.transforms@, transform_check()) is None {
        assert forall|i: int| 0 <= i < c.transforms@.len() implies match (#[trigger] c.transforms@[i]).1 {
            TransformConfig::Remap(r) => r.inputs@.len() > 0 && r.source@.len() > 0,
        } by {
            assert(transform_check()(c.transforms@[i]) is None);
        }
    }
    if transforms_complete(c) {
        assert forall|i: int| 0 <= i < c.transforms@.len() implies (#[trigger] transform_check()(c.transforms@[i])) is None by {
            let e = c.transforms@[i];
        }
    }
}

proof fn lemma_sinks_part(c: Config)
    ensures
        first_issue(c.sinks@, sink_check()) is None <==> sinks_complete(c),
{
    lemma_first_issue_none(c.sinks@, sink_check());
    if first_issue(c.sinks@, sink_check()) is None {
        assert forall|i: int| 0 <= i < c.sinks@.len() implies match (#[trigger] c.sinks@[i]).1 {
            SinkConfig::Http(h) => h.inputs@.len() > 0 && h.uri@.len() > 0,
            SinkConfig::Console(k) => k.inputs@.len() > 0,
        } by {
            assert(sink_check()(c.sinks@[i]) is None);
        }
    }
    if sinks_complete(c) {
        assert forall|i: int| 0 <= i < c.sinks@.len() implies (#[trigger] sink_check()(c.sinks@[i])) is None by {
            let e = c.sinks@[i];
        }
    }
}

proof fn lemma_known_inputs(outs: Seq<Seq<char>>, inputs: Seq<String>, f: spec_fn(String) -> Option<ConfigIssue>)
    requires
        forall|x: String| (#[trigger] f(x)) is None <==> outs.contains(x@),
    ensures
        first_issue(inputs, f) is None <==> forall|j: int| 0 <= j < inputs.len() ==> outs.contains((#[trigger] inputs[j])@),
{
    lemma_first_issue_none(inputs, f);
    if first_issue(inputs, f) is None {
        assert forall|j: int| 0 <= j < inputs.len() implies outs.contains((#[trigger] inputs[j])@) by {
            assert(f(inputs[j]) is None);
        }
    }
}

proof fn lemma_connections_part(c: Config)
    ensures
        connection_issue(c) is None <==> inputs_connected(c),
{
    let outs = output_names(c);
    let ft = transform_connection_issue(outs);
    let fk = sink_connection_issue(outs);
    lemma_first_issue_none(c.transforms@, ft);
    lemma_first_issue_none(c.sinks@, fk);
    assert forall|i: int| 0 <= i < c.transforms@.len() implies
        ((#[trigger] ft(c.transforms@[i])) is None <==>
        forall|j: int| 0 <= j < transform_inputs(c.transforms@[i].1).len()
            ==> outs.contains((#[trigger] transform_inputs(c.transforms@[i].1)[j])@)) by {
        let e = c.transforms@[i];
        lemma_known_inputs(outs, transform_inputs(e.1), unknown_transform_input(outs, e.0));
    }
    assert forall|i: int| 0 <= i < c.sinks@.len() implies
        ((#[trigger] fk(c.sinks@[i])) is None <==>
        forall|j: int| 0 <= j < sink_inputs(c.sinks@[i].1).len()
            ==> outs.contains((#[trigger] sink_inputs(c.sinks@[i].1)[j])@)) by {
        let e = c.sinks@[i];
        lemma_known_inputs(outs, sink_inputs(e.1), unknown_sink_input(outs, e.0));
    }
    if connection_issue(c) is None {
        assert forall|i: int, j: int|
            0 <= i < c.transforms@.len() && 0 <= j < transform_inputs(c.transforms@[i].1).len()
            implies outs.contains((#[trigger] transform_inputs(c.transforms@[i].1)[j])@) by {
            assert(ft(c.transforms@[i]) is None);
        }
        assert forall|i: int, j: int|
            0 <= i < c.sinks@.len() && 0 <= j < sink_inputs(c.sinks@[i].1).len()
            implies outs.contains((#[trigger] sink_inputs(c.sinks@[i].1)[j])@) by {
            assert(fk(c.sinks@[i]) is None);
        }
    }
    if inputs_connected(c) {
        assert forall|i: int| 0 <= i < c.transforms@.len() implies (#[trigger] ft(c.transforms@[i])) is None by {
            assert forall|j: int| 0 <= j < transform_inputs(c.transforms@[i].1).len()
                implies outs.contains((#[trigger] transform_inputs(c.transforms@[i].1)[j])@) by {
            }
        }
        assert forall|i: int| 0 <= i < c.sinks@.len() implies (#[trigger] fk(c.sinks@[i])) is None by {
            assert forall|j: int| 0 <= j < sink_inputs(c.sinks@[i].1).len()
                implies outs.contains((#[trigger] sink_inputs(c.sinks@[i].1)[j])@) by {
            }
        }
    }
}

/// A configuration is accepted exactly when every source has a non-zero port,
/// every transform has inputs and a program, every sink has inputs (and an
/// HTTP sink a URI), and every input names a source or a transform.
pub proof fn lemma_validation_accepts_exactly(c: Config)
    ensures
        validation_issue(c) is None <==> (sources_have_ports(c) && transforms_complete(c)
            && sinks_complete(c) && inputs_connected(c)),
{
    lemma_sources_part(c);
    lemma_transforms_part(c);
    lemma_sinks_part(c);
    lemma_connections_part(c);
}

/// A configuration with no sources, transforms or sinks is accepted.
pub proof fn lemma_empty_config_accepted(c: Config)
    requires
        c.sources@.len() == 0,
        c.transforms@.len() == 0,
        c.sinks@.len() == 0,
    ensures
        validation_issue(c) is None,
{
}

/// Removing a sink from an accepted configuration leaves it accepted.
pub proof fn lemma_removing_sink_keeps_valid(c: Config, c2: Config, i: int)
    requires
        validation_issue(c) is None,
        0 <= i < c.sinks@.len(),
        c2.sources@ == c.sources@,
        c2.transforms@ == c.transforms@,
        c2.sinks@ == c.sinks@.remove(i),
    ensures
        validation_issue(c2) is None,
{
    lemma_validation_accepts_exactly(c);
    lemma_validation_accepts_exactly(c2);
    assert(output_names(c2) == output_names(c));
    assert forall|k: int| 0 <= k < c2.sinks@.len() implies match (#[trigger] c2.sinks@[k]).1 {
        SinkConfig::Http(h) => h.inputs@.len() > 0 && h.uri@.len() > 0,
        SinkConfig::Console(x) => x.inputs@.len() > 0,
    } by {
        let m = if k < i { k } else { k + 1 };
        assert(c2.sinks@[k] == c.sinks@[m]);
    }
    assert forall|k: int, j: int|
        0 <= k < c2.sinks@.len() && 0 <= j < sink_inputs(c2.sinks@[k].1).len()
            implies output_names(c2).contains((#[trigger] sink_inputs(c2.sinks@[k].1)[j])@) by {
        let m = if k < i { k } else { k + 1 };
        assert(c2.sinks@[k] == c.sinks@[m]);
        assert(sink_inputs(c.sinks@[m].1)[j] == sink_inputs(c2.sinks@[k].1)[j]);
    }
}

/// Adding a source with a non-zero port to an accepted configuration leaves
/// it accepted; when the source's name is new, a well-formed configuration
/// stays well formed.
pub proof fn lemma_adding_source_keeps_valid(c: Config, c2: Config, name: String, h: HttpSourceConfig)
    requires
        validation_issue(c) is None,
        h.port is Some && h.port->0 != 0,
        c2.sources@ == c.sources@.push((name, SourceConfig::Http(h))),
        c2.transforms@ == c.transforms@,
        c2.sinks@ == c.sinks@,
    ensures
        validation_issue(c2) is None,
        c.well_formed() && (forall|k: int| 0 <= k < c.sources@.len() ==> (#[trigger] c.sources@[k]).0@ != name@)
            ==> c2.well_formed(),
{
    lemma_validation_accepts_exactly(c);
    lemma_validation_accepts_exactly(c2);
    let n = c.sources@.len() as int;
    let o = output_names(c);
    let o2 = output_names(c2);
    assert(o.len() == c.sources@.len() + c.transforms@.len());
    assert(o2.len() == o.len() + 1);
    assert forall|x: Seq<char>| o.contains(x) implies o2.contains(x) by {
        let m = choose|m: int| 0 <= m < o.len() && o[m] == x;
        if m < n {
            assert(c2.sources@[m] == c.sources@[m]);
            assert(o2[m] == x);
        } else {
            assert(o2[m + 1] == x);
        }
    }
    assert forall|k: int| 0 <= k < c2.sources@.len() implies match (#[trigger] c2.sources@[k]).1 {
        SourceConfig::Http(p) => p.port is Some && p.port->0 != 0,
    } by {
        if k < n {
            assert(c2.sources@[k] == c.sources@[k]);
        }
    }
    assert forall|k: int, j: int|
        0 <= k < c2.transforms@.len() && 0 <= j < transform_inputs(c2.transforms@[k].1).len()
            implies o2.contains((#[trigger] transform_inputs(c2.transforms@[k].1)[j])@) by {
        assert(o.contains(transform_inputs(c.transforms@[k].1)[j]@));
    }
    assert forall|k: int, j: int|
        0 <= k < c2.sinks@.len() && 0 <= j < sink_inputs(c2.sinks@[k].1).len()
            implies o2.contains((#[trigger] sink_inputs(c2.sinks@[k].1)[j])@) by {
        assert(o.contains(sink_inputs(c.sinks@[k].1)[j]@));
    }
    if c.well_formed() && (forall|k: int| 0 <= k < c.sources@.len() ==> (#[trigger] c.sources@[k]).0@ != name@) {
        assert forall|a: int, b: int| #![trigger c2.sources@[a], c2.sources@[b]]
            0 <= a < b < c2.sources@.len() implies c2.sources@[a].0@ != c2.sources@[b].0@ by {
            assert(c2.sources@[a] == c.sources@[a]);
            if b < n {
                assert(c2.sources@[b] == c.sources@[b]);
            } else {
                assert(c.sources@[a].0@ != name@);
            }
        }
    }
}

impl Config {
    /// Checks the configuration. Succeeds exactly when `validation_issue` finds
    /// nothing, and otherwise reports the issue it finds.
    #[verifier::loop_isolation(false)]
    pub fn validate(&self) -> (r: Result<(), ConfigIssue>)
        requires
            self.well_formed(),
        ensures
            r == as_result(validation_issue(*self)),
    {
        let ghost fs = source_check();
        let ghost ft = transform_check();
        let ghost fk = sink_check();
        let mut i: usize = 0;
        while i < self.sources.len()
            invariant
                i <= self.sources.len(),
                forall|j: int| 0 <= j < i ==> (#[trigger] fs(self.sources@[j])) is None,
            decreases self.sources.len() - i,
        {
            match &self.sources[i].1 {
                SourceConfig::Http(http) => {
                    let bad = match http.port {
                        Some(p) => p == 0,
                        None => true,
                    };
                    if bad {
                        proof {
                            lemma_first_issue_skip(self.sources@, fs, i as int);
                            assert(self.sources@.skip(i as int)[0] == self.sources@[i as int]);
                        }
                        return Err(ConfigIssue::InvalidSourcePort(self.sources[i].0.clone()));
                    }
                },
            }
            i += 1;
        }
        proof {
            lemma_first_issue_skip(self.sources@, fs, i as int);
        }
        let mut i: usize = 0;
        while i < self.transforms.len()
            invariant
                i <= self.transforms.len(),
                forall|j: int| 0 <= j < i ==> (#[trigger] ft(self.transforms@[j])) is None,
            decreases self.transforms.len() - i,
        {
            proof {
                lemma_first_issue_skip(self.transforms@, ft, i as int);
                assert(self.transforms@.skip(i as int)[0] == self.transforms@[i as int]);
            }
            match &self.transforms[i].1 {
                TransformConfig::Remap(remap) => {
                    if remap.inputs.len() == 0 {
                        return Err(ConfigIssue::TransformWithoutInputs(self.transforms[i].0.clone()));
                    }
                    if remap.source.as_str().is_empty() {
                        return Err(ConfigIssue::EmptyVrlSource(self.transforms[i].0.clone()));
                    }
                },
            }
            i += 1;
        }
        proof {
            lemma_first_issue_skip(self.transforms@, ft, i as int);
        }
        let mut i: usize = 0;
        while i < self.sinks.len()
            invariant
                i <= self.sinks.len(),
                forall|j: int| 0 <= j < i ==> (#[trigger] fk(self.sinks@[j])) is None,
            decreases self.sinks.len() - i,
        {
            proof {
                lemma_first_issue_skip(self.sinks@, fk, i as int);
                assert(self.sinks@.skip(i as int)[0] == self.sinks@[i as int]);
            }
            match &self.sinks[i].1 {
                SinkConfig::Http(http) => {
                    if http.inputs.len() == 0 {
                        return Err(ConfigIssue::SinkWithoutInputs(self.sinks[i].0.clone()));
                    }
                    if http.uri.as_str().is_empty() {
                        return Err(ConfigIssue::EmptySinkUri(self.sinks[i].0.clone()));
                    }
                },
                SinkConfig::Console(console) => {
                    if console.inputs.len() == 0 {
                        return Err(ConfigIssue::SinkWithoutInputs(self.sinks[i].0.clone()));
                    }
                },
            }
            i += 1;
        }
        proof {
            lemma_first_issue_skip(self.sinks@, fk, i as int);
        }
        self.validate_pipeline_connections()
    }

    /// The names that transforms and sinks may read from: all source names,
    /// then all transform names.
    pub(crate) fn available_outputs(&self) -> (r: Vec<String>)
        ensures
            r@.map_values(|s: String| s@) == output_names(*self),
    {
        let mut out: Vec<String> = Vec::new();
        let mut i: usize = 0;
        while i < self.sources.len()
            invariant
                i <= self.sources.len(),
                out@.map_values(|s: String| s@) == self.sources@.take(i as int).map_values(
                    |e: (String, SourceConfig)| e.0@,
                ),
            decreases self.sources.len() - i,
        {
            let ghost old_out = out@;
            out.push(self.sources[i].0.clone());
            assert(out@ == old_out.push(self.sources@[i as int].0));
            assert(out@.map_values(|s: String| s@) =~= old_out.map_values(|s: String| s@).push(self.sources@[i as int].0@));
            assert(self.sources@.take(i + 1) =~= self.sources@.take(i as int).push(self.sources@[i as int]));
            assert(out@.map_values(|s: String| s@) =~= self.sources@.take(i + 1).map_values(
                |e: (String, SourceConfig)| e.0@,
            ));
            i += 1;
        }
        assert(self.sources@.take(i as int) =~= self.sources@);
        let ghost base = out@.map_values(|s: String| s@);
        let mut i: usize = 0;
        while i < self.transforms.len()
            invariant
                i <= self.transforms.len(),
                base == self.sources@.map_values(|e: (String, SourceConfig)| e.0@),
                out@.map_values(|s: String| s@) == base + self.transforms@.take(i as int).map_values(
                    |e: (String, TransformConfig)| e.0@,
                ),
            decreases self.transforms.len() - i,
        {
            let ghost old_out = out@;
            out.push(self.transforms[i].0.clone());
            assert(out@ == old_out.push(self.transforms@[i as int].0));
            assert(out@.map_values(|s: String| s@) =~= old_out.map_values(|s: String| s@).push(self.transforms@[i as int].0@));
            assert(self.transforms@.take(i + 1) =~= self.transforms@.take(i as int).push(self.transforms@[i as int]));
            assert(out@.map_values(|s: String| s@) =~= base + self.transforms@.take(i + 1).map_values(
                |e: (String, TransformConfig)| e.0@,
            ));
            i += 1;
        }
        assert(self.transforms@.take(i as int) =~= self.transforms@);
        out
    }

    /// Checks that every transform and sink input names a source or a transform.
    #[verifier::loop_isolation(false)]
    fn validate_pipeline_connections(&self) -> (r: Result<(), ConfigIssue>)
        ensures
            r == as_result(connection_issue(*self)),
    {
        let available = self.available_outputs();
        let ghost outs = output_names(*self);
        let ghost ft = transform_connection_issue(outs);
        let ghost fk = sink_connection_issue(outs);
        let mut i: usize = 0;
        while i < self.transforms.len()
            invariant
                i <= self.transforms.len(),
                available@.map_values(|s: String| s@) == outs,
                outs == output_names(*self),
                ft == transform_connection_issue(outs),
                forall|j: int| 0 <= j < i ==> (#[trigger] ft(self.transforms@[j])) is None,
            decreases self.transforms.len() - i,
        {
            proof {
                lemma_first_issue_skip(self.transforms@, ft, i as int);
                assert(self.transforms@.skip(i as int)[0] == self.transforms@[i as int]);
            }
            let name = &self.transforms[i].0;
            match &self.transforms[i].1 {
                TransformConfig::Remap(remap) => {
                    let ghost g = unknown_transform_input(outs, *name);
                    let mut k: usize = 0;
                    while k < remap.inputs.len()
                        invariant
                            k <= remap.inputs.len(),
                            available@.map_values(|s: String| s@) == outs,
                            g == unknown_transform_input(outs, *name),
                            forall|j: int| 0 <= j < k ==> (#[trigger] g(remap.inputs@[j])) is None,
                        decreases remap.inputs.len() - k,
                    {
                        if !contains_name(&available, &remap.inputs[k]) {
                            proof {
                                lemma_first_issue_skip(remap.inputs@, g, k as int);
                                assert(remap.inputs@.skip(k as int)[0] == remap.inputs@[k as int]);
                            }
                            return Err(ConfigIssue::UnknownTransformInput(name.clone(), remap.inputs[k].clone()));
                        }
                        k += 1;
                    }
                    proof {
                        lemma_first_issue_skip(remap.inputs@, g, k as int);
                    }
                },
            }
            i += 1;
        }
        proof {
            lemma_first_issue_skip(self.transforms@, ft, i as int);
        }
        let mut i: usize = 0;
        while i < self.sinks.len()
            invariant
                i <= self.sinks.len(),
                available@.map_values(|s: String| s@) == outs,
                outs == output_names(*self),
                fk == sink_connection_issue(outs),
                first_issue(self.transforms@, ft) is None,
                ft == transform_connection_issue(outs),
                forall|j: int| 0 <= j < i ==> (#[trigger] fk(self.sinks@[j])) is None,
            decreases self.sinks.len() - i,
        {
            proof {
                lemma_first_issue_skip(self.sinks@, fk, i as int);
                assert(self.sinks@.skip(i as int)[0] == self.sinks@[i as int]);
            }
            let name = &self.sinks[i].0;
            let inputs = match &self.sinks[i].1 {
                SinkConfig::Http(http) => &http.inputs,
                SinkConfig::Console(console) => &console.inputs,
            };
            assert(inputs@ == sink_inputs(self.sinks@[i as int].1));
            let ghost g = unknown_sink_input(outs, *name);
            let mut k: usize = 0;
            while k < inputs.len()
                invariant
                    k <= inputs.len(),
                    available@.map_values(|s: String| s@) == outs,
                    g == unknown_sink_input(outs, *name),
                    forall|j: int| 0 <= j < k ==> (#[trigger] g(inputs@[j])) is None,
                decreases inputs.len() - k,
            {
                if !contains_name(&available, &inputs[k]) {
                    proof {
                        lemma_first_issue_skip(inputs@, g, k as int);
                        assert(inputs@.skip(k as int)[0] == inputs@[k as int]);
                    }
                    return Err(ConfigIssue::UnknownSinkInput(name.clone(), inputs[k].clone()));
                }
                k += 1;
            }
            proof {
                lemma_first_issue_skip(inputs@, g, k as int);
            }
            i += 1;
        }
        proof {
            lemma_first_issue_skip(self.sinks@, fk, i as int);
        }
        Ok(())
    }
}

} // verus!
