use vstd::prelude::*;
use crate::component::{Component, Event};
use crate::config::HttpSourceConfig;
use crate::json::{JsonValue, decimal, decimal_text, digit_char};

verus! {

broadcast use vstd::string::group_string_axioms;

/// An HTTP source: it accepts JSON posts on its path and turns each into an event.
pub struct HttpSource {
    pub name: String,
    pub config: HttpSourceConfig,
}

/// The characters nanoid draws identifiers from.
pub open spec fn id_alphabet(c: char) -> bool {
    c == '_' || c == '-' || ('0' <= c && c <= '9') || ('a' <= c && c <= 'z') || ('A' <= c && c <= 'Z')
}

/// nanoid: a random identifier of 16 characters from its URL-safe alphabet
/// (`nanoid::format` with `alphabet::SAFE`). Only its length and alphabet
/// are stated.
#[verifier::external_body]
fn random_event_id() -> (r: String)
    ensures
        r@.len() == 16,
        forall|i: int| 0 <= i < 16 ==> id_alphabet(#[trigger] r@[i]),
{
    nanoid::format(nanoid::rngs::default, &nanoid::alphabet::SAFE, 16)
}

/// The address a source listens on: its configured address, a colon and its
/// port (3000 when none is configured).
pub open spec fn listen_address_spec(c: HttpSourceConfig) -> Seq<char> {
    let port: u16 = match c.port {
        Some(p) => p,
        None => 3000,
    };
    c.address@ + ":"@ + decimal(port as nat)
}

/// A source listens on its configured address, verbatim, then a colon, then
/// the decimal digits of its port (3000 when none is configured).
pub proof fn lemma_listen_address_shape(c: HttpSourceConfig)
    ensures
        listen_address_spec(c).len() > c.address@.len() + 1,
        listen_address_spec(c).subrange(0, c.address@.len() as int) == c.address@,
        listen_address_spec(c)[c.address@.len() as int] == ':',
        c.port matches Some(p) ==> listen_address_spec(c).skip(c.address@.len() as int + 1) == decimal(p as nat),
        c.port is None ==> listen_address_spec(c).skip(c.address@.len() as int + 1) == seq!['3', '0', '0', '0'],
{
    reveal_strlit(":");
    let a = c.address@;
    let port: u16 = match c.port {
        Some(p) => p,
        None => 3000,
    };
    let d = decimal(port as nat);
    let s = listen_address_spec(c);
    assert(s == a + ":"@ + d);
    assert(d.len() >= 1) by {
        if port >= 10 {
            assert(d == decimal((port / 10) as nat).push(digit_char((port % 10) as nat)));
        }
    }
    assert(s.subrange(0, a.len() as int) =~= a);
    assert(s.skip(a.len() as int + 1) =~= d);
    if c.port is None {
        assert(decimal(3000) == seq!['3', '0', '0', '0']) by {
            reveal_with_fuel(decimal, 5);
        }
    }
}

impl HttpSource {
    pub fn new(name: String, config: HttpSourceConfig) -> (r: HttpSource)
        ensures
            r.name == name,
            r.config == config,
    {
        HttpSource { name, config }
    }

    /// The address to bind, as `address:port`.
    pub fn listen_address(&self) -> (r: String)
        ensures
            r@ == listen_address_spec(self.config),
    {
        let port: u16 = match self.config.port {
            Some(p) => p,
            None => 3000,
        };
        let mut s = self.config.address.clone();
        s.append(":");
        let digits = decimal_text(port as u64);
        s.append(digits.as_str());
        s
    }

    /// The largest request body accepted, in bytes: the configured limit, or 1 MiB.
    pub fn body_limit(&self) -> (r: usize)
        ensures
            r == match self.config.max_body_size_bytes {
                Some(n) => n,
                None => 1048576usize,
            },
    {
        match self.config.max_body_size_bytes {
            Some(n) => n,
            None => 1048576,
        }
    }

    /// Whether the `/echo` endpoint is served: only when it is switched on.
    pub fn echo_enabled(&self) -> (r: bool)
        ensures
            r == (self.config.enable_echo == Some(true)),
    {
        match self.config.enable_echo {
            Some(b) => b,
            None => false,
        }
    }
}

impl Component for HttpSource {
    fn name(&self) -> (r: &str)
        ensures
            r@ == self.name@,
    {
        self.name.as_str()
    }

    fn type_(&self) -> (r: &str)
        ensures
            r@ == "http"@,
    {
        "http"
    }

    fn inputs(&self) -> (r: &[String])
        ensures
            r@.len() == 0,
    {
        &[]
    }
}

impl Event {
    /// A new event for a received JSON payload: a fresh 16-character id, the
    /// payload as data, and empty metadata.
    pub fn from_payload(payload: JsonValue) -> (r: Event)
        ensures
            r.data == payload,
            r.metadata matches JsonValue::Object(m) && m@.len() == 0,
            r.id@.len() == 16,
            forall|i: int| 0 <= i < 16 ==> id_alphabet(#[trigger] r.id@[i]),
    {
        Event { id: random_event_id(), data: payload, metadata: JsonValue::Object(Vec::new()) }
    }
}

pub open spec fn member_is(m: (String, JsonValue), key: Seq<char>) -> bool {
    m.0@ == key
}

/// The answer to an ingested event: 200 with its id when it was handed on,
/// otherwise 500 with its id and the reason.
pub fn ingest_response(event_id: &String, send_error: Option<String>) -> (r: (u16, JsonValue))
    ensures
        send_error is None ==> r.0 == 200 && (r.1 matches JsonValue::Object(m)
            && m@.len() == 1 && m@[0].0@ == "event_id"@ && m@[0].1 == JsonValue::String(*event_id)),
        send_error is Some ==> r.0 == 500 && (r.1 matches JsonValue::Object(m)
            && m@.len() == 2 && m@[0].0@ == "error"@ && m@[0].1 == JsonValue::String(send_error->0)
            && m@[1].0@ == "event_id"@ && m@[1].1 == JsonValue::String(*event_id)),
{
    match send_error {
        None => {
            let mut m: Vec<(String, JsonValue)> = Vec::new();
            m.push((String::from_str("event_id"), JsonValue::String(event_id.clone())));
            (200, JsonValue::Object(m))
        },
        Some(e) => {
            let mut m: Vec<(String, JsonValue)> = Vec::new();
            m.push((String::from_str("error"), JsonValue::String(e)));
            m.push((String::from_str("event_id"), JsonValue::String(event_id.clone())));
            (500, JsonValue::Object(m))
        },
    }
}

/// What the `/echo` endpoint answers: the request's body (parsed, or null),
/// headers, method, path, query text, URI and HTTP version.
pub fn echo_payload(
    method: String,
    uri: String,
    path: String,
    headers: Vec<(String, String)>,
    query: Option<String>,
    version: String,
    body: Option<JsonValue>,
) -> (r: JsonValue)
    ensures
        r matches JsonValue::Object(m) && m@.len() == 7
            && m@[0].0@ == "body"@ && m@[0].1 == (match body { Some(b) => b, None => JsonValue::Null })
            && m@[1].0@ == "headers"@ && (m@[1].1 matches JsonValue::Object(h) && h@.len() == headers@.len()
                && forall|i: int| 0 <= i < h@.len() ==> (#[trigger] h@[i]).0 == headers@[i].0
                    && h@[i].1 == JsonValue::String(headers@[i].1))
            && m@[2].0@ == "method"@ && m@[2].1 == JsonValue::String(method)
            && m@[3].0@ == "path"@ && m@[3].1 == JsonValue::String(path)
            && m@[4].0@ == "query"@ && (m@[4].1 matches JsonValue::String(q)
                && q@ == match query { Some(q) => q@, None => Seq::<char>::empty() })
            && m@[5].0@ == "uri"@ && m@[5].1 == JsonValue::String(uri)
            && m@[6].0@ == "version"@ && m@[6].1 == JsonValue::String(version),
{
    let mut hs: Vec<(String, JsonValue)> = Vec::new();
    let mut i: usize = 0;
    while i < headers.len()
        invariant
            i <= headers@.len(),
            hs@.len() == i,
            forall|j: int| 0 <= j < i ==> (#[trigger] hs@[j]).0 == headers@[j].0
                && hs@[j].1 == JsonValue::String(headers@[j].1),
        decreases headers@.len() - i,
    {
        hs.push((headers[i].0.clone(), JsonValue::String(headers[i].1.clone())));
        i += 1;
    }
    let q = match query {
        Some(q) => q,
        None => String::new(),
    };
    let b = match body {
        Some(b) => b,
        None => JsonValue::Null,
    };
    let mut m: Vec<(String, JsonValue)> = Vec::new();
    m.push((String::from_str("body"), b));
    m.push((String::from_str("headers"), JsonValue::Object(hs)));
    m.push((String::from_str("method"), JsonValue::String(method)));
    m.push((String::from_str("path"), JsonValue::String(path)));
    m.push((String::from_str("query"), JsonValue::String(q)));
    m.push((String::from_str("uri"), JsonValue::String(uri)));
    m.push((String::from_str("version"), JsonValue::String(version)));
    JsonValue::Object(m)
}

} // verus!
