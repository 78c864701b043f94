use vstd::prelude::*;
use crate::component::{Component, Event};
use crate::config::{ConsoleSinkConfig, HttpSinkConfig};
use crate::json::{JsonValue, compact_json, compact_json_text};
use crate::pipeline::copy_strings;
use crate::text::{starts_with, strip_prefixes, strip_prefixes_spec, str_eq};

verus! {

broadcast use vstd::string::group_string_axioms;

/// Where a sink template's text comes from: the configured text itself, or a
/// file named after the `file://` prefix.
#[derive(Debug, Clone, PartialEq, Eq)]
pub enum TemplateSource {
    Inline(String),
    File(String),
}

/// Reads a template setting: `file://PATH` names a file (every leading
/// `file://` is removed), anything else is the template text itself.
pub fn template_source(template: &str) -> (r: TemplateSource)
    ensures
        ({
            let p = "file://"@;
            if template@.len() >= p.len() && template@.take(p.len() as int) == p {
                r matches TemplateSource::File(path) && path@ == strip_prefixes_spec(template@, p)
            } else {
                r matches TemplateSource::Inline(t) && t@ == template@
            }
        }),
{
    proof {
        reveal_strlit("file://");
    }
    if starts_with(template, "file://") {
        TemplateSource::File(strip_prefixes(template, "file://"))
    } else {
        TemplateSource::Inline(String::from_str(template))
    }
}

/// Why a sink could not be built or could not handle an event.
#[derive(Debug)]
pub enum SinkError {
    UnknownEncoding(String),
    TemplateRejected(String),
    InvalidTemplate(String),
    ContextNotObject,
    RenderFailed(RenderStage, String),
    RequestFailed(String),
}

/// Which part of an outgoing request was being rendered.
#[derive(Debug, Clone, Copy, PartialEq, Eq, Structural)]
pub enum RenderStage {
    Output,
    Uri,
    QueryParams,
    Headers,
    Body,
}

pub open spec fn sink_error_text(e: SinkError) -> Seq<char> {
    match e {
        SinkError::UnknownEncoding(enc) => "Unknown encoding: "@ + enc@,
        SinkError::TemplateRejected(_) => "Failed to add template"@,
        SinkError::InvalidTemplate(detail) => detail@,
        SinkError::ContextNotObject => "Creating a Context from a Value/Serialize requires it being a JSON object"@,
        SinkError::RenderFailed(stage, detail) => match stage {
            RenderStage::Output => detail@,
            RenderStage::Uri => "Rendering uri: "@ + detail@,
            RenderStage::QueryParams => "Rendering query_params: "@ + detail@,
            RenderStage::Headers => "Rendering headers: "@ + detail@,
            RenderStage::Body => "Rendering body: "@ + detail@,
        },
        SinkError::RequestFailed(status) => "HTTP sink request failed with status: "@ + status@,
    }
}

fn prefixed(prefix: &str, detail: &String) -> (r: String)
    ensures
        r@ == prefix@ + detail@,
{
    let mut s = String::from_str(prefix);
    s.append(detail.as_str());
    s
}

impl SinkError {
    /// The message that reports this error.
    pub fn message(&self) -> (r: String)
        ensures
            r@ == sink_error_text(*self),
    {
        match self {
            SinkError::UnknownEncoding(enc) => prefixed("Unknown encoding: ", enc),
            SinkError::TemplateRejected(_) => String::from_str("Failed to add template"),
            SinkError::InvalidTemplate(detail) => detail.clone(),
            SinkError::ContextNotObject => String::from_str(
                "Creating a Context from a Value/Serialize requires it being a JSON object",
            ),
            SinkError::RenderFailed(stage, detail) => match stage {
                RenderStage::Output => detail.clone(),
                RenderStage::Uri => prefixed("Rendering uri: ", detail),
                RenderStage::QueryParams => prefixed("Rendering query_params: ", detail),
                RenderStage::Headers => prefixed("Rendering headers: ", detail),
                RenderStage::Body => prefixed("Rendering body: ", detail),
            },
            SinkError::RequestFailed(status) => prefixed("HTTP sink request failed with status: ", status),
        }
    }
}

/// Whether tera takes `content` as a template named `name` on a fresh `Tera`.
pub uninterp spec fn tera_accepts(name: Seq<char>, content: Seq<char>) -> bool;

/// tera: `Tera::add_raw_template` of `content` under `name` on a fresh
/// `Tera`. Whether it succeeds is a function of the two texts; on failure,
/// the error's text, of which nothing is stated.
#[verifier::external_body]
fn tera_check(name: &str, content: &str) -> (r: Result<(), String>)
    ensures
        r is Ok <==> tera_accepts(name@, content@),
{
    tera::Tera::default().add_raw_template(name, content).map_err(|e| e.to_string())
}

/// An outcome that `Tera::render` can give for the template `name`, registered
/// with `content` (none when `None`), rendered against `context`: the text, or
/// the error's text. A relation, not a function: a template may read the
/// process environment through `get_env`, so one list of arguments may have
/// more than one outcome.
pub uninterp spec fn tera_renders_template(
    name: Seq<char>,
    content: Option<Seq<char>>,
    context: JsonValue,
    out: Result<Seq<char>, Seq<char>>,
) -> bool;

/// An outcome that `Tera::render_str` can give for the one-off template `text`
/// rendered against `context` by a `Tera` holding the template `name`
/// registered with `content`. A relation, for the reason given at
/// `tera_renders_template`.
pub uninterp spec fn tera_renders_text(
    name: Seq<char>,
    content: Option<Seq<char>>,
    text: Seq<char>,
    context: JsonValue,
    out: Result<Seq<char>, Seq<char>>,
) -> bool;

/// An optional text as an optional character sequence.
pub open spec fn opt_view(t: Option<&str>) -> Option<Seq<char>> {
    match t {
        Some(c) => Some(c@),
        None => None,
    }
}

/// An optional owned text as an optional character sequence.
pub open spec fn opt_string_view(t: Option<String>) -> Option<Seq<char>> {
    match t {
        Some(c) => Some(c@),
        None => None,
    }
}

/// A rendering outcome as character sequences.
pub open spec fn outcome_view(r: Result<String, String>) -> Result<Seq<char>, Seq<char>> {
    match r {
        Ok(t) => Ok(t@),
        Err(d) => Err(d@),
    }
}

/// tera: renders the template registered as `name` with `content` (none when
/// `content` is `None`) against the object `context` (`Tera::render`). On
/// failure, the error's `Debug` text. The outcome is tied to the arguments
/// by `tera_renders_template`.
#[verifier::external_body]
fn tera_render(name: &str, content: Option<&str>, context: &JsonValue) -> (r: Result<String, String>)
    requires
        context is Object,
    ensures
        tera_renders_template(name@, opt_view(content), *context, outcome_view(r)),
{
    let mut tera = tera::Tera::default();
    if let Some(c) = content {
        tera.add_raw_template(name, c).map_err(|e| format!("{:?}", e))?;
    }
    let ctx = tera::Context::from_serialize(crate::json::to_serde_value(context)).map_err(|e| format!("{:?}", e))?;
    tera.render(name, &ctx).map_err(|e| format!("{:?}", e))
}

/// tera: renders the one-off template `text` against the object `context`
/// with a `Tera` that holds the template `name` registered with `content`
/// (`Tera::render_str`). On failure, the error's `Debug` text. The outcome is
/// tied to the arguments by `tera_renders_text`.
#[verifier::external_body]
fn tera_render_str(name: &str, content: Option<&str>, text: &str, context: &JsonValue) -> (r: Result<String, String>)
    requires
        context is Object,
    ensures
        tera_renders_text(name@, opt_view(content), text@, *context, outcome_view(r)),
{
    let mut tera = tera::Tera::default();
    if let Some(c) = content {
        tera.add_raw_template(name, c).map_err(|e| format!("{:?}", e))?;
    }
    let ctx = tera::Context::from_serialize(crate::json::to_serde_value(context)).map_err(|e| format!("{:?}", e))?;
    tera.render_str(text, &ctx).map_err(|e| format!("{:?}", e))
}

/// The indented JSON text serde_json writes for `v`.
pub uninterp spec fn pretty_json(v: JsonValue) -> Seq<char>;

/// serde_json: `to_string_pretty` of a value, whose result the contract names.
#[verifier::external_body]
pub fn pretty_json_text(v: &JsonValue) -> (r: String)
    ensures
        r@ == pretty_json(*v),
{
    serde_json::to_string_pretty(&crate::json::to_serde_value(v)).unwrap_or_default()
}

/// A copy of an optional text.
pub fn copy_text(t: &Option<String>) -> (r: Option<String>)
    ensures
        r == *t,
{
    match t {
        Some(s) => Some(s.clone()),
        None => None,
    }
}

/// True when a console sink's encoding is `json`.
pub open spec fn encoding_is_json(config: ConsoleSinkConfig) -> bool {
    config.encoding is Some && config.encoding->0@ == "json"@
}

/// True when a console sink's encoding is `text`, `json` or absent.
pub open spec fn encoding_known(config: ConsoleSinkConfig) -> bool {
    config.encoding is None || config.encoding->0@ == "text"@ || config.encoding->0@ == "json"@
}

/// How a console sink prints events.
#[derive(Debug, Clone)]
pub enum OutputFormat {
    Text { template: Option<String> },
    Json,
}

impl OutputFormat {
    /// The format a console sink configuration asks for: `text` (the default)
    /// or `json`; any other encoding is refused.
    pub fn from_config(config: &ConsoleSinkConfig) -> (r: Result<OutputFormat, SinkError>)
        ensures
            config.encoding is None || config.encoding->0@ == "text"@ ==>
                (r matches Ok(OutputFormat::Text { template }) && template == config.template),
            config.encoding is Some && config.encoding->0@ == "json"@ ==> r matches Ok(OutputFormat::Json),
            config.encoding is Some && config.encoding->0@ != "text"@ && config.encoding->0@ != "json"@ ==>
                (r matches Err(SinkError::UnknownEncoding(e)) && e@ == config.encoding->0@),
    {
        proof {
            reveal_strlit("text");
            reveal_strlit("json");
        }
        match &config.encoding {
            None => Ok(OutputFormat::Text { template: copy_text(&config.template) }),
            Some(enc) => {
                if str_eq(enc.as_str(), "json") {
                    assert(enc@ != "text"@) by {
                        assert("json"@[0] != "text"@[0]);
                    }
                    Ok(OutputFormat::Json)
                } else if str_eq(enc.as_str(), "text") {
                    Ok(OutputFormat::Text { template: copy_text(&config.template) })
                } else {
                    Err(SinkError::UnknownEncoding(enc.clone()))
                }
            },
        }
    }
}

/// A sink that prints each event it receives.
pub struct ConsoleSink {
    pub name: String,
    pub inputs: Vec<String>,
    pub format: OutputFormat,
    /// The text of the template, once loaded, when the format has one.
    pub template: Option<String>,
}

impl ConsoleSink {
    /// Builds a console sink from its configuration and the loaded text of its
    /// template (the text that the template setting names, see
    /// `template_source`). The text is checked and kept only for the text
    /// encoding; with the json encoding it is ignored.
    pub fn new(name: String, config: &ConsoleSinkConfig, template_text: Option<String>) -> (r: Result<ConsoleSink, SinkError>)
        ensures
            r matches Ok(s) ==> s.name == name && s.inputs@ == config.inputs@
                && (s.format matches OutputFormat::Text { template } ==> template == config.template
                    && s.template == template_text)
                && (s.format is Json ==> encoding_is_json(*config) && s.template is None),
            !encoding_known(*config) ==> (r matches Err(SinkError::UnknownEncoding(e)) && e@ == config.encoding->0@),
            encoding_known(*config) ==> (r is Ok <==> (encoding_is_json(*config) || template_text is None
                || tera_accepts(name@, template_text->0@))),
            encoding_known(*config) && r is Err ==> r->Err_0 is TemplateRejected,
    {
        let format = match OutputFormat::from_config(config) {
            Ok(f) => f,
            Err(e) => return Err(e),
        };
        let template = match format {
            OutputFormat::Json => None,
            OutputFormat::Text { template: _ } => {
                if let Some(text) = &template_text {
                    match tera_check(name.as_str(), text.as_str()) {
                        Ok(()) => {},
                        Err(detail) => return Err(SinkError::TemplateRejected(detail)),
                    }
                }
                template_text
            },
        };
        Ok(ConsoleSink { name, inputs: copy_strings(&config.inputs), format, template })
    }

    /// The text printed for `event`: the rendered template, the compact JSON
    /// of the event data (text without a template), or its indented JSON.
    pub fn render_output(&self, event: &Event) -> (r: Result<String, SinkError>)
        ensures
            self.format is Json ==> (r matches Ok(s) && s@ == pretty_json(event.data)),
            self.format is Text && self.template is None ==> (r matches Ok(s) && s@ == compact_json(event.data)),
            (r matches Err(SinkError::ContextNotObject)) <==> (self.format is Text && self.template is Some
                && !(event.data is Object)),
            self.format is Text && self.template is Some && event.data is Object ==> {
                &&& r matches Ok(s) ==> tera_renders_template(self.name@, opt_string_view(self.template),
                    event.data, Ok(s@))
                &&& r matches Err(SinkError::RenderFailed(RenderStage::Output, d)) ==> tera_renders_template(
                    self.name@, opt_string_view(self.template), event.data, Err(d@))
            },
            r matches Err(e) ==> e is ContextNotObject || e matches SinkError::RenderFailed(RenderStage::Output, _),
    {
        match &self.format {
            OutputFormat::Text { template: _ } => {
                match &self.template {
                    Some(content) => {
                        if !matches!(event.data, JsonValue::Object(_)) {
                            return Err(SinkError::ContextNotObject);
                        }
                        match tera_render(self.name.as_str(), Some(content.as_str()), &event.data) {
                            Ok(s) => Ok(s),
                            Err(d) => Err(SinkError::RenderFailed(RenderStage::Output, d)),
                        }
                    },
                    None => Ok(compact_json_text(&event.data)),
                }
            },
            OutputFormat::Json => Ok(pretty_json_text(&event.data)),
        }
    }
}

impl Component for ConsoleSink {
    fn name(&self) -> (r: &str)
        ensures
            r@ == self.name@,
    {
        self.name.as_str()
    }

    fn type_(&self) -> (r: &str)
        ensures
            r@ == "console"@,
    {
        "console"
    }

    fn inputs(&self) -> (r: &[String])
        ensures
            r@ == self.inputs@,
    {
        self.inputs.as_slice()
    }
}


/// The request methods an HTTP sink can send.
#[derive(Debug, Clone, Copy, PartialEq, Eq, Structural)]
pub enum HttpMethod {
    Get,
    Post,
    Put,
    Delete,
    Patch,
    Head,
    Options,
}

/// The method named by an upper-case method name; any other name means POST.
pub open spec fn method_named(upper: Seq<char>) -> HttpMethod {
    if upper == "GET"@ {
        HttpMethod::Get
    } else if upper == "POST"@ {
        HttpMethod::Post
    } else if upper == "PUT"@ {
        HttpMethod::Put
    } else if upper == "DELETE"@ {
        HttpMethod::Delete
    } else if upper == "PATCH"@ {
        HttpMethod::Patch
    } else if upper == "HEAD"@ {
        HttpMethod::Head
    } else if upper == "OPTIONS"@ {
        HttpMethod::Options
    } else {
        HttpMethod::Post
    }
}

/// Each of the seven method names selects its own method, each of those
/// methods is selected by its name alone, and every other name selects POST.
pub proof fn lemma_method_names(name: Seq<char>)
    ensures
        method_named("GET"@) == HttpMethod::Get,
        method_named("POST"@) == HttpMethod::Post,
        method_named("PUT"@) == HttpMethod::Put,
        method_named("DELETE"@) == HttpMethod::Delete,
        method_named("PATCH"@) == HttpMethod::Patch,
        method_named("HEAD"@) == HttpMethod::Head,
        method_named("OPTIONS"@) == HttpMethod::Options,
        method_named(name) == HttpMethod::Get ==> name == "GET"@,
        method_named(name) == HttpMethod::Put ==> name == "PUT"@,
        method_named(name) == HttpMethod::Delete ==> name == "DELETE"@,
        method_named(name) == HttpMethod::Patch ==> name == "PATCH"@,
        method_named(name) == HttpMethod::Head ==> name == "HEAD"@,
        method_named(name) == HttpMethod::Options ==> name == "OPTIONS"@,
        name != "GET"@ && name != "PUT"@ && name != "DELETE"@ && name != "PATCH"@ && name != "HEAD"@
            && name != "OPTIONS"@ ==> method_named(name) == HttpMethod::Post,
{
    reveal_strlit("GET");
    reveal_strlit("POST");
    reveal_strlit("PUT");
    reveal_strlit("DELETE");
    reveal_strlit("PATCH");
    reveal_strlit("HEAD");
    reveal_strlit("OPTIONS");
    assert("POST"@ != "GET"@) by { assert("POST"@.len() != "GET"@.len()); }
    assert("PUT"@ != "GET"@) by { assert("PUT"@[0] != "GET"@[0]); }
    assert("PUT"@ != "POST"@) by { assert("PUT"@.len() != "POST"@.len()); }
    assert("DELETE"@ != "GET"@) by { assert("DELETE"@.len() != "GET"@.len()); }
    assert("DELETE"@ != "POST"@) by { assert("DELETE"@.len() != "POST"@.len()); }
    assert("DELETE"@ != "PUT"@) by { assert("DELETE"@.len() != "PUT"@.len()); }
    assert("PATCH"@ != "GET"@) by { assert("PATCH"@.len() != "GET"@.len()); }
    assert("PATCH"@ != "POST"@) by { assert("PATCH"@.len() != "POST"@.len()); }
    assert("PATCH"@ != "PUT"@) by { assert("PATCH"@.len() != "PUT"@.len()); }
    assert("PATCH"@ != "DELETE"@) by { assert("PATCH"@.len() != "DELETE"@.len()); }
    assert("HEAD"@ != "GET"@) by { assert("HEAD"@.len() != "GET"@.len()); }
    assert("HEAD"@ != "POST"@) by { assert("HEAD"@[0] != "POST"@[0]); }
    assert("HEAD"@ != "PUT"@) by { assert("HEAD"@.len() != "PUT"@.len()); }
    assert("HEAD"@ != "DELETE"@) by { assert("HEAD"@.len() != "DELETE"@.len()); }
    assert("HEAD"@ != "PATCH"@) by { assert("HEAD"@.len() != "PATCH"@.len()); }
    assert("OPTIONS"@ != "GET"@) by { assert("OPTIONS"@.len() != "GET"@.len()); }
    assert("OPTIONS"@ != "POST"@) by { assert("OPTIONS"@.len() != "POST"@.len()); }
    assert("OPTIONS"@ != "PUT"@) by { assert("OPTIONS"@.len() != "PUT"@.len()); }
    assert("OPTIONS"@ != "DELETE"@) by { assert("OPTIONS"@.len() != "DELETE"@.len()); }
    assert("OPTIONS"@ != "PATCH"@) by { assert("OPTIONS"@.len() != "PATCH"@.len()); }
    assert("OPTIONS"@ != "HEAD"@) by { assert("OPTIONS"@.len() != "HEAD"@.len()); }
}

/// The upper-case form of a text, as `str::to_uppercase` gives it.
pub uninterp spec fn uppercase(s: Seq<char>) -> Seq<char>;

/// std: `str::to_uppercase`, whose result the contract names.
#[verifier::external_body]
fn to_upper(s: &str) -> (r: String)
    ensures
        r@ == uppercase(s@),
{
    s.to_uppercase()
}

/// The method an HTTP sink sends with: the configured one, compared in upper
/// case; POST when none is configured.
pub open spec fn sink_method(method: Option<String>) -> HttpMethod {
    match method {
        Some(m) => method_named(uppercase(m@)),
        None => HttpMethod::Post,
    }
}

impl HttpMethod {
    /// The method named by an upper-case name; POST for any unknown name.
    pub fn from_upper(upper: &str) -> (r: HttpMethod)
        ensures
            r == method_named(upper@),
    {
        if str_eq(upper, "GET") {
            HttpMethod::Get
        } else if str_eq(upper, "POST") {
            HttpMethod::Post
        } else if str_eq(upper, "PUT") {
            HttpMethod::Put
        } else if str_eq(upper, "DELETE") {
            HttpMethod::Delete
        } else if str_eq(upper, "PATCH") {
            HttpMethod::Patch
        } else if str_eq(upper, "HEAD") {
            HttpMethod::Head
        } else if str_eq(upper, "OPTIONS") {
            HttpMethod::Options
        } else {
            HttpMethod::Post
        }
    }

    /// The method for a configured method name.
    pub fn for_config(method: &Option<String>) -> (r: HttpMethod)
        ensures
            r == sink_method(*method),
    {
        match method {
            Some(m) => {
                let upper = to_upper(m.as_str());
                HttpMethod::from_upper(upper.as_str())
            },
            None => HttpMethod::Post,
        }
    }
}

/// The settings an HTTP sink's client is built with.
#[derive(Debug)]
pub struct ClientSettings {
    /// The request timeout, in milliseconds.
    pub timeout_ms: u64,
    /// Whether redirects are followed (with the default policy) or refused.
    pub follow_redirects: bool,
    /// The proxy every request goes through, if any.
    pub proxy_url: Option<String>,
    /// A file of extra root certificates, if any.
    pub ca_file: Option<String>,
    /// The client certificate and key files: set only when both are configured.
    pub identity: Option<(String, String)>,
    /// Whether the built-in root certificates are used: decided only together
    /// with a client identity, as the opposite of `verify`.
    pub built_in_roots: Option<bool>,
}

/// The client settings an HTTP sink configuration asks for: its timeout
/// (30 s when none is set), redirect choice and proxy, the CA file of its TLS
/// settings, and a client identity only when both certificate and key are set.
pub open spec fn client_settings(config: HttpSinkConfig) -> ClientSettings {
    let identity = match config.tls {
        Some(t) => if t.client_cert is Some && t.client_key is Some {
            Some((t.client_cert->0, t.client_key->0))
        } else {
            None
        },
        None => None,
    };
    ClientSettings {
        timeout_ms: match config.timeout_ms {
            Some(t) => t,
            None => 30000u64,
        },
        follow_redirects: config.follow_redirects,
        proxy_url: config.proxy_url,
        ca_file: match config.tls {
            Some(t) => t.ca_file,
            None => None,
        },
        identity,
        built_in_roots: match identity {
            Some(_) => Some(!config.tls->0.verify),
            None => None,
        },
    }
}

/// A sink's client waits `timeout_ms` (30000 when unset), follows redirects
/// and uses a proxy as configured, and carries a client identity exactly when
/// both a certificate and a key are configured, whatever `verify` says; the
/// built-in root certificates are then used exactly when `verify` is off.
pub proof fn lemma_client_settings(config: HttpSinkConfig)
    ensures
        config.timeout_ms is None ==> client_settings(config).timeout_ms == 30000,
        config.timeout_ms matches Some(t) ==> client_settings(config).timeout_ms == t,
        client_settings(config).follow_redirects == config.follow_redirects,
        client_settings(config).proxy_url == config.proxy_url,
        config.tls is None ==> client_settings(config).ca_file is None,
        config.tls matches Some(t) ==> client_settings(config).ca_file == t.ca_file,
        config.tls is Some && config.tls->0.client_cert is Some && config.tls->0.client_key is Some ==> {
            &&& client_settings(config).identity == Some((config.tls->0.client_cert->0, config.tls->0.client_key->0))
            &&& client_settings(config).built_in_roots == Some(!config.tls->0.verify)
        },
        !(config.tls is Some && config.tls->0.client_cert is Some && config.tls->0.client_key is Some) ==> {
            &&& client_settings(config).identity is None
            &&& client_settings(config).built_in_roots is None
        },
{
    let cs = client_settings(config);
    if config.tls is Some {
        let t = config.tls->0;
        if t.client_cert is Some && t.client_key is Some {
            assert(cs.identity == Some((t.client_cert->0, t.client_key->0)));
            assert(cs.built_in_roots == Some(!t.verify));
        }
    }
}

impl ClientSettings {
    pub fn from_config(config: &HttpSinkConfig) -> (r: ClientSettings)
        ensures
            r == client_settings(*config),
    {
        let (ca_file, identity, built_in_roots) = match &config.tls {
            Some(t) => {
                let identity = match (&t.client_cert, &t.client_key) {
                    (Some(cert), Some(key)) => Some((cert.clone(), key.clone())),
                    _ => None,
                };
                let roots = match identity {
                    Some(_) => Some(!t.verify),
                    None => None,
                };
                (copy_text(&t.ca_file), identity, roots)
            },
            None => (None, None, None),
        };
        ClientSettings {
            timeout_ms: match config.timeout_ms {
                Some(t) => t,
                None => 30000,
            },
            follow_redirects: config.follow_redirects,
            proxy_url: copy_text(&config.proxy_url),
            ca_file,
            identity,
            built_in_roots,
        }
    }
}

/// A request an HTTP sink is about to send.
#[derive(Debug)]
pub struct RequestPlan {
    pub method: HttpMethod,
    pub uri: String,
    pub query: Option<Vec<(String, String)>>,
    pub headers: Vec<(String, String)>,
    pub body: String,
}

pub open spec fn keys_of(pairs: Seq<(String, String)>) -> Seq<Seq<char>> {
    pairs.map_values(|p: (String, String)| p.0@)
}

/// A sink that sends each event as an HTTP request.
pub struct HttpSink {
    pub name: String,
    pub inputs: Vec<String>,
    pub uri: String,
    pub method: Option<String>,
    pub headers: Option<Vec<(String, String)>>,
    pub query_params: Option<Vec<(String, String)>>,
    /// The text of the body template, once loaded, if one is configured.
    pub template: Option<String>,
    /// The settings its client is built with.
    pub client: ClientSettings,
}

fn copy_pairs(v: &Vec<(String, String)>) -> (r: Vec<(String, String)>)
    ensures
        r@ == v@,
{
    let mut out: Vec<(String, String)> = Vec::new();
    let mut i: usize = 0;
    while i < v.len()
        invariant
            i <= v@.len(),
            out@ == v@.take(i as int),
        decreases v@.len() - i,
    {
        out.push((v[i].0.clone(), v[i].1.clone()));
        assert(out@ =~= v@.take(i + 1));
        i += 1;
    }
    assert(out@ =~= v@);
    out
}

fn copy_opt_pairs(v: &Option<Vec<(String, String)>>) -> (r: Option<Vec<(String, String)>>)
    ensures
        r is Some <==> v is Some,
        r is Some ==> r->0@ == v->0@,
{
    match v {
        Some(p) => Some(copy_pairs(p)),
        None => None,
    }
}

/// True when `out` is `pairs` with each template rendered by tera: the same
/// keys in the same order, each value an outcome of rendering its template.
pub open spec fn pairs_rendered(
    name: Seq<char>,
    content: Option<Seq<char>>,
    pairs: Seq<(String, String)>,
    context: JsonValue,
    out: Seq<(String, String)>,
) -> bool {
    &&& out.len() == pairs.len()
    &&& forall|i: int| 0 <= i < pairs.len() ==> (#[trigger] out[i]).0 == pairs[i].0
        && tera_renders_text(name, content, pairs[i].1@, context, Ok(out[i].1@))
}

/// True when rendering the template of `pairs` at `i` can give some text.
pub open spec fn renders_some_text(
    name: Seq<char>,
    content: Option<Seq<char>>,
    text: Seq<char>,
    context: JsonValue,
) -> bool {
    exists|t: Seq<char>| #[trigger] tera_renders_text(name, content, text, context, Ok(t))
}

/// True when rendering the templates of `pairs` in order first fails with
/// `detail`: every earlier template rendered to some text, and one failed.
pub open spec fn pairs_failed(
    name: Seq<char>,
    content: Option<Seq<char>>,
    pairs: Seq<(String, String)>,
    context: JsonValue,
    detail: Seq<char>,
) -> bool {
    exists|i: int| 0 <= i < pairs.len()
        && (forall|j: int| 0 <= j < i ==> renders_some_text(name, content, #[trigger] pairs[j].1@, context))
        && #[trigger] tera_renders_text(name, content, pairs[i].1@, context, Err(detail))
}

/// Renders each template of `pairs` with tera, keeping keys and order; the
/// first failure is reported at `stage`.
fn render_pairs(
    name: &str,
    content: Option<&str>,
    pairs: &Vec<(String, String)>,
    context: &JsonValue,
    stage: RenderStage,
) -> (r: Result<Vec<(String, String)>, SinkError>)
    requires
        context is Object,
    ensures
        r matches Ok(out) ==> pairs_rendered(name@, opt_view(content), pairs@, *context, out@),
        r matches Err(e) ==> (e matches SinkError::RenderFailed(s, d) && s == stage
            && pairs_failed(name@, opt_view(content), pairs@, *context, d@)),
{
    let mut out: Vec<(String, String)> = Vec::new();
    let mut i: usize = 0;
    while i < pairs.len()
        invariant
            i <= pairs@.len(),
            context is Object,
            pairs_rendered(name@, opt_view(content), pairs@.take(i as int), *context, out@),
        decreases pairs@.len() - i,
    {
        let ghost cv = opt_view(content);
        match tera_render_str(name, content, pairs[i].1.as_str(), context) {
            Ok(value) => {
                let ghost before = out@;
                out.push((pairs[i].0.clone(), value));
                proof {
                    let t = pairs@.take(i + 1);
                    assert forall|j: int| 0 <= j < t.len() implies (#[trigger] out@[j]).0 == t[j].0
                        && tera_renders_text(name@, cv, t[j].1@, *context, Ok(out@[j].1@)) by {
                        if j < i {
                            assert(out@[j] == before[j]);
                            assert(t[j] == pairs@.take(i as int)[j]);
                        }
                    }
                }
            },
            Err(d) => {
                proof {
                    let p = pairs@.take(i as int);
                    assert forall|j: int| 0 <= j < i implies renders_some_text(name@, cv, #[trigger] pairs@[j].1@, *context) by {
                        assert(p[j] == pairs@[j]);
                        assert(out@[j].0 == p[j].0);
                        assert(tera_renders_text(name@, cv, p[j].1@, *context, Ok(out@[j].1@)));
                    }
                    assert(tera_renders_text(name@, cv, pairs@[i as int].1@, *context, Err(d@)));
                }
                return Err(SinkError::RenderFailed(stage, d));
            },
        }
        i += 1;
    }
    assert(pairs@.take(i as int) =~= pairs@);
    Ok(out)
}

fn as_opt_str(t: &Option<String>) -> (r: Option<&str>)
    ensures
        r is Some <==> t is Some,
        r is Some ==> r->0@ == t->0@,
{
    match t {
        Some(s) => Some(s.as_str()),
        None => None,
    }
}

impl HttpSink {
    /// Builds an HTTP sink from its configuration and the loaded text of its
    /// body template (see `template_source`), which must parse as a template.
    pub fn new(name: String, config: &HttpSinkConfig, template_text: Option<String>) -> (r: Result<HttpSink, SinkError>)
        ensures
            r matches Ok(s) ==> s.name == name && s.inputs@ == config.inputs@ && s.uri == config.uri
                && s.method == config.method && s.template == template_text
                && (s.headers is Some <==> config.headers is Some)
                && (s.headers is Some ==> s.headers->0@ == config.headers->0@)
                && (s.query_params is Some <==> config.query_params is Some)
                && (s.query_params is Some ==> s.query_params->0@ == config.query_params->0@)
                && s.client == client_settings(*config),
            r is Ok <==> (template_text is None || tera_accepts(name@, template_text->0@)),
            r matches Err(e) ==> e is InvalidTemplate,
    {
        if let Some(text) = &template_text {
            match tera_check(name.as_str(), text.as_str()) {
                Ok(()) => {},
                Err(detail) => return Err(SinkError::InvalidTemplate(detail)),
            }
        }
        Ok(HttpSink {
            name,
            inputs: copy_strings(&config.inputs),
            uri: config.uri.clone(),
            method: copy_text(&config.method),
            headers: copy_opt_pairs(&config.headers),
            query_params: copy_opt_pairs(&config.query_params),
            template: template_text,
            client: ClientSettings::from_config(config),
        })
    }

    /// The request for `event`: its data is the rendering context of the
    /// URI, every query parameter, every header and the body, rendered in
    /// that order; the first failure stops the build and names its stage.
    pub fn build_request(&self, event: &Event) -> (r: Result<RequestPlan, SinkError>)
        ensures
            (r matches Err(SinkError::ContextNotObject)) <==> !(event.data is Object),
            r matches Ok(plan) ==> {
                let cv = opt_string_view(self.template);
                &&& plan.method == sink_method(self.method)
                &&& tera_renders_text(self.name@, cv, self.uri@, event.data, Ok(plan.uri@))
                &&& (plan.query is Some <==> self.query_params is Some)
                &&& plan.query is Some ==> pairs_rendered(self.name@, cv, self.query_params->0@, event.data,
                    plan.query->0@)
                &&& self.headers is Some ==> pairs_rendered(self.name@, cv, self.headers->0@, event.data,
                    plan.headers@)
                &&& self.headers is None ==> plan.headers@.len() == 0
                &&& tera_renders_template(self.name@, cv, event.data, Ok(plan.body@))
            },
            r matches Err(SinkError::RenderFailed(stage, d)) ==> {
                let cv = opt_string_view(self.template);
                &&& stage == RenderStage::Uri ==> tera_renders_text(self.name@, cv, self.uri@, event.data, Err(d@))
                &&& stage != RenderStage::Uri ==> renders_some_text(self.name@, cv, self.uri@, event.data)
                &&& stage == RenderStage::QueryParams ==> self.query_params is Some && pairs_failed(self.name@, cv,
                    self.query_params->0@, event.data, d@)
                &&& (stage == RenderStage::Headers || stage == RenderStage::Body) && self.query_params is Some
                    ==> exists|q: Seq<(String, String)>| pairs_rendered(self.name@, cv, self.query_params->0@,
                    event.data, q)
                &&& stage == RenderStage::Headers ==> self.headers is Some && pairs_failed(self.name@, cv,
                    self.headers->0@, event.data, d@)
                &&& stage == RenderStage::Body && self.headers is Some ==> exists|h: Seq<(String, String)>|
                    pairs_rendered(self.name@, cv, self.headers->0@, event.data, h)
                &&& stage == RenderStage::Body ==> tera_renders_template(self.name@, cv, event.data, Err(d@))
            },
            r matches Err(e) ==> e is ContextNotObject || (e matches SinkError::RenderFailed(stage, _)
                && stage != RenderStage::Output),
    {
        if !matches!(event.data, JsonValue::Object(_)) {
            return Err(SinkError::ContextNotObject);
        }
        let content = as_opt_str(&self.template);
        let uri = match tera_render_str(self.name.as_str(), content, self.uri.as_str(), &event.data) {
            Ok(u) => u,
            Err(d) => return Err(SinkError::RenderFailed(RenderStage::Uri, d)),
        };
        let method = HttpMethod::for_config(&self.method);
        let query = match &self.query_params {
            Some(params) => Some(render_pairs(self.name.as_str(), content, params, &event.data, RenderStage::QueryParams)?),
            None => None,
        };
        let headers = match &self.headers {
            Some(h) => render_pairs(self.name.as_str(), content, h, &event.data, RenderStage::Headers)?,
            None => Vec::new(),
        };
        let body = match tera_render(self.name.as_str(), content, &event.data) {
            Ok(b) => b,
            Err(d) => return Err(SinkError::RenderFailed(RenderStage::Body, d)),
        };
        Ok(RequestPlan { method, uri, query, headers, body })
    }
}

/// The outcome of a sent request: success for a 2xx status; otherwise the
/// failure, reported with the status text.
pub fn response_outcome(status: u16, status_text: String) -> (r: Result<(), SinkError>)
    ensures
        200 <= status <= 299 ==> r is Ok,
        !(200 <= status <= 299) ==> (r matches Err(SinkError::RequestFailed(t)) && t == status_text),
{
    if 200 <= status && status <= 299 {
        Ok(())
    } else {
        Err(SinkError::RequestFailed(status_text))
    }
}

impl Component for HttpSink {
    fn name(&self) -> (r: &str)
        ensures
            r@ == self.name@,
    {
        self.name.as_str()
    }

    fn type_(&self) -> (r: &str)
        ensures
            r@ == "http"@,
    {
        "http"
    }

    fn inputs(&self) -> (r: &[String])
        ensures
            r@ == self.inputs@,
    {
        self.inputs.as_slice()
    }
}


/// How often an HTTP sink tries again after a failed delivery, and how long
/// it waits in between.
#[derive(Debug, Clone, Copy, PartialEq, Eq, Structural)]
pub struct RetryPolicy {
    pub retry_attempts: u32,
    pub retry_interval_ms: u64,
}

/// What an HTTP sink does after an attempt to deliver an event.
#[derive(Debug, Clone, Copy, PartialEq, Eq, Structural)]
pub enum RetryDecision {
    Delivered,
    RetryAfter(u64),
    GiveUp,
}

/// The decision after `attempts` sends, the last of which succeeded or not:
/// a failed send is retried while fewer than `retry_attempts` retries were made.
pub open spec fn retry_decision(p: RetryPolicy, attempts: nat, succeeded: bool) -> RetryDecision {
    if succeeded {
        RetryDecision::Delivered
    } else if attempts <= p.retry_attempts {
        RetryDecision::RetryAfter(p.retry_interval_ms)
    } else {
        RetryDecision::GiveUp
    }
}

/// The number of sends made for one event when the sends succeed or fail as
/// `outcomes` says, starting from the first send.
pub open spec fn sends_made(p: RetryPolicy, outcomes: Seq<bool>, attempts: nat) -> nat
    decreases outcomes.len(),
{
    if outcomes.len() == 0 {
        attempts
    } else {
        match retry_decision(p, attempts + 1, outcomes[0]) {
            RetryDecision::RetryAfter(_) => sends_made(p, outcomes.drop_first(), attempts + 1),
            _ => attempts + 1,
        }
    }
}

impl RetryPolicy {
    /// The retry settings of an HTTP sink: 3 retries 1000 ms apart unless configured.
    pub fn from_config(config: &HttpSinkConfig) -> (r: RetryPolicy)
        ensures
            r.retry_attempts == match config.retry_attempts { Some(n) => n, None => 3u32 },
            r.retry_interval_ms == match config.retry_interval_ms { Some(n) => n, None => 1000u64 },
    {
        RetryPolicy {
            retry_attempts: match config.retry_attempts {
                Some(n) => n,
                None => 3,
            },
            retry_interval_ms: match config.retry_interval_ms {
                Some(n) => n,
                None => 1000,
            },
        }
    }

    /// What to do after the `attempts`-th send (counting from 1).
    pub fn after_attempt(&self, attempts: u32, succeeded: bool) -> (r: RetryDecision)
        requires
            attempts >= 1,
        ensures
            r == retry_decision(*self, attempts as nat, succeeded),
    {
        if succeeded {
            RetryDecision::Delivered
        } else if attempts <= self.retry_attempts {
            RetryDecision::RetryAfter(self.retry_interval_ms)
        } else {
            RetryDecision::GiveUp
        }
    }
}

/// An event is sent at most once more than the number of retries allowed,
/// and exactly once when the first send succeeds.
pub proof fn lemma_retries_bounded(p: RetryPolicy, outcomes: Seq<bool>, attempts: nat)
    requires
        attempts <= p.retry_attempts,
    ensures
        sends_made(p, outcomes, attempts) <= p.retry_attempts + 1,
        sends_made(p, outcomes, attempts) >= attempts,
        attempts == 0 && outcomes.len() > 0 && outcomes[0] ==> sends_made(p, outcomes, attempts) == 1,
    decreases outcomes.len(),
{
    if outcomes.len() > 0 {
        if !outcomes[0] && attempts + 1 <= p.retry_attempts {
            lemma_retries_bounded(p, outcomes.drop_first(), attempts + 1);
        }
    }
}

/// With every send failing, an event is sent exactly once more than the
/// number of retries allowed, provided there are that many sends to make.
pub proof fn lemma_failures_exhaust_retries(p: RetryPolicy, outcomes: Seq<bool>, attempts: nat)
    requires
        attempts <= p.retry_attempts,
        forall|i: int| 0 <= i < outcomes.len() ==> !outcomes[i],
        outcomes.len() + attempts >= p.retry_attempts + 1,
    ensures
        sends_made(p, outcomes, attempts) == p.retry_attempts + 1,
    decreases outcomes.len(),
{
    if outcomes.len() > 0 && attempts < p.retry_attempts {
        assert(!outcomes[0]);
        assert forall|i: int| 0 <= i < outcomes.drop_first().len() implies !outcomes.drop_first()[i] by {
            assert(outcomes.drop_first()[i] == outcomes[i + 1]);
        }
        lemma_failures_exhaust_retries(p, outcomes.drop_first(), attempts + 1);
    } else if outcomes.len() > 0 {
        assert(!outcomes[0]);
    }
}

} // verus!
