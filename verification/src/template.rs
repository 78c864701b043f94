use vstd::prelude::*;
use crate::component::Event;
use crate::json::{JsonValue, json_get, number_text, compact_json, number_to_text, compact_json_text};
use crate::text::{trim_spec, trim, replace_spec, replace_all, chars_of, str_eq};

verus! {

broadcast use vstd::string::group_string_axioms;

/// Renders `{{ path }}` placeholders with values taken from an event.
///
/// A placeholder is `{{`, then one or more characters other than `}`, then
/// `}}`; the text between the braces, trimmed, names the value. Placeholders
/// are found left to right without overlap.
pub struct TemplateEngine {}

/// Why a placeholder could not be rendered.
#[derive(Debug)]
pub enum TemplateError {
    UnknownRoot(String),
    MissingField { part: String, path: String },
}

/// `TemplateError` with its texts as character sequences.
pub enum TemplateFailure {
    UnknownRoot(Seq<char>),
    MissingField(Seq<char>, Seq<char>),
}

impl View for TemplateError {
    type V = TemplateFailure;

    open spec fn view(&self) -> TemplateFailure {
        match self {
            TemplateError::UnknownRoot(r) => TemplateFailure::UnknownRoot(r@),
            TemplateError::MissingField { part, path } => TemplateFailure::MissingField(part@, path@),
        }
    }
}

impl TemplateError {
    pub fn message(&self) -> (r: String)
        ensures
            r@ == match self@ {
                TemplateFailure::UnknownRoot(root) => "未知的根路径: "@ + root,
                TemplateFailure::MissingField(part, path) => "路径 '"@ + part + "' 在 '"@ + path + "' 中不存在"@,
            },
    {
        match self {
            TemplateError::UnknownRoot(root) => {
                let mut s = String::from_str("未知的根路径: ");
                s.append(root.as_str());
                s
            },
            TemplateError::MissingField { part, path } => {
                let mut s = String::from_str("路径 '");
                s.append(part.as_str());
                s.append("' 在 '");
                s.append(path.as_str());
                s.append("' 中不存在");
                s
            },
        }
    }
}

/// The index of the first `}` at or after `k`, or the length of `s`.
pub open spec fn next_close(s: Seq<char>, k: int) -> int
    decreases s.len() - k,
{
    if k < 0 || k >= s.len() {
        s.len() as int
    } else if s[k] == '}' {
        k
    } else {
        next_close(s, k + 1)
    }
}

/// True when a placeholder starts at `i`.
pub open spec fn placeholder_at(s: Seq<char>, i: int) -> bool {
    let j = next_close(s, i + 2);
    &&& 0 <= i && i + 2 <= s.len()
    &&& s[i] == '{' && s[i + 1] == '{'
    &&& j > i + 2
    &&& j + 1 < s.len()
    &&& s[j + 1] == '}'
}

/// The placeholders of `s` found from position `k` on: each one's full text
/// and the trimmed path between its braces.
pub open spec fn placeholders_from(s: Seq<char>, k: int) -> Seq<(Seq<char>, Seq<char>)>
    decreases s.len() - k,
{
    if k < 0 || k >= s.len() {
        seq![]
    } else if placeholder_at(s, k) {
        let j = next_close(s, k + 2);
        seq![(s.subrange(k, j + 2), trim_spec(s.subrange(k + 2, j)))] + placeholders_from(s, j + 2)
    } else {
        placeholders_from(s, k + 1)
    }
}

/// Every placeholder found from position `k` on has a full text of at least five characters.
proof fn lemma_placeholders_from_long(s: Seq<char>, k: int)
    ensures
        forall|i: int| 0 <= i < placeholders_from(s, k).len() ==> (#[trigger] placeholders_from(s, k)[i]).0.len() >= 5,
    decreases s.len() - k,
{
    if 0 <= k < s.len() {
        if placeholder_at(s, k) {
            let j = next_close(s, k + 2);
            lemma_placeholders_from_long(s, j + 2);
            let head = seq![(s.subrange(k, j + 2), trim_spec(s.subrange(k + 2, j)))];
            assert(placeholders_from(s, k) == head + placeholders_from(s, j + 2));
            assert(head[0].0.len() >= 5);
            assert forall|i: int| 0 <= i < placeholders_from(s, k).len() implies (#[trigger] placeholders_from(s, k)[i]).0.len() >= 5 by {
                if i > 0 {
                    assert(placeholders_from(s, k)[i] == placeholders_from(s, j + 2)[i - 1]);
                }
            }
        } else {
            lemma_placeholders_from_long(s, k + 1);
            assert(placeholders_from(s, k) == placeholders_from(s, k + 1));
        }
    }
}

proof fn lemma_placeholder_text_nonempty(s: Seq<char>, i: int)
    requires
        0 <= i < placeholders(s).len(),
    ensures
        placeholders(s)[i].0.len() > 0,
{
    lemma_placeholders_from_long(s, 0);
}

pub open spec fn placeholders(s: Seq<char>) -> Seq<(Seq<char>, Seq<char>)> {
    placeholders_from(s, 0)
}

/// `path` split at every `.`, as `str::split('.')` gives it.
pub open spec fn split_dots(s: Seq<char>) -> Seq<Seq<char>>
    decreases s.len(),
{
    if s.len() == 0 {
        seq![seq![]]
    } else {
        let rest = split_dots(s.drop_last());
        if s.last() == '.' {
            rest.push(seq![])
        } else {
            rest.update(rest.len() - 1, rest.last().push(s.last()))
        }
    }
}

proof fn lemma_split_nonempty(s: Seq<char>)
    ensures
        split_dots(s).len() >= 1,
    decreases s.len(),
{
    if s.len() > 0 {
        lemma_split_nonempty(s.drop_last());
    }
}

/// Follows `parts` through `v`, one member per part; on failure, the part
/// that was missing.
pub open spec fn follow(v: JsonValue, parts: Seq<Seq<char>>) -> Result<JsonValue, Seq<char>>
    decreases parts.len(),
{
    if parts.len() == 0 {
        Ok(v)
    } else {
        match json_get(v, parts[0]) {
            Some(x) => follow(x, parts.drop_first()),
            None => Err(parts[0]),
        }
    }
}

/// The text a placeholder is replaced by when it names `v`.
pub open spec fn value_text(v: JsonValue) -> Seq<char> {
    match v {
        JsonValue::String(s) => s@,
        JsonValue::Number(n) => number_text(n),
        JsonValue::Bool(b) => if b { "true"@ } else { "false"@ },
        JsonValue::Null => "null"@,
        _ => compact_json(v),
    }
}

/// The text a placeholder path stands for in `e`: `id` is the event id; a
/// path starting with `data` or `metadata` walks into that value.
pub open spec fn path_value(path: Seq<char>, e: Event) -> Result<Seq<char>, TemplateFailure> {
    if path == "id"@ {
        Ok(e.id@)
    } else {
        let parts = split_dots(path);
        let root = parts[0];
        if root == "data"@ || root == "metadata"@ {
            let start = if root == "data"@ { e.data } else { e.metadata };
            match follow(start, parts.drop_first()) {
                Ok(v) => Ok(value_text(v)),
                Err(part) => Err(TemplateFailure::MissingField(part, path)),
            }
        } else {
            Err(TemplateFailure::UnknownRoot(root))
        }
    }
}

/// Applies the placeholders in order: each one's path is resolved and every
/// occurrence of its full text in the current result is replaced.
pub open spec fn render_from(
    current: Seq<char>,
    found: Seq<(Seq<char>, Seq<char>)>,
    e: Event,
) -> Result<Seq<char>, TemplateFailure>
    decreases found.len(),
{
    if found.len() == 0 {
        Ok(current)
    } else {
        match path_value(found[0].1, e) {
            Ok(v) => render_from(replace_spec(current, found[0].0, v), found.drop_first(), e),
            Err(f) => Err(f),
        }
    }
}

/// What rendering `template` against `e` gives.
pub open spec fn render_spec(template: Seq<char>, e: Event) -> Result<Seq<char>, TemplateFailure> {
    render_from(template, placeholders(template), e)
}

pub open spec fn result_view(r: Result<String, TemplateError>) -> Result<Seq<char>, TemplateFailure> {
    match r {
        Ok(s) => Ok(s@),
        Err(e) => Err(e@),
    }
}


fn next_close_exec(cs: &Vec<char>, k: usize) -> (r: usize)
    requires
        k <= cs@.len(),
    ensures
        r as int == next_close(cs@, k as int),
        k <= r <= cs@.len(),
        forall|j: int| k <= j < r ==> cs@[j] != '}',
        r < cs@.len() ==> cs@[r as int] == '}',
{
    let mut j = k;
    while j < cs.len() && cs[j] != '}'
        invariant
            k <= j <= cs@.len(),
            next_close(cs@, k as int) == next_close(cs@, j as int),
            forall|x: int| k <= x < j ==> cs@[x] != '}',
        decreases cs@.len() - j,
    {
        j += 1;
    }
    j
}

fn placeholder_at_exec(cs: &Vec<char>, i: usize) -> (r: Option<usize>)
    requires
        i < cs@.len(),
    ensures
        r is Some <==> placeholder_at(cs@, i as int),
        r matches Some(j) ==> j as int == next_close(cs@, i + 2),
{
    let n = cs.len();
    if n - i < 2 || cs[i] != '{' || cs[i + 1] != '{' {
        return None;
    }
    let j = next_close_exec(cs, i + 2);
    if j > i + 2 && n - j > 1 && cs[j + 1] == '}' {
        Some(j)
    } else {
        None
    }
}

proof fn lemma_placeholders_step(s: Seq<char>, k: int)
    requires
        0 <= k < s.len(),
    ensures
        placeholder_at(s, k) ==> placeholders_from(s, k) == seq![(
            s.subrange(k, next_close(s, k + 2) + 2),
            trim_spec(s.subrange(k + 2, next_close(s, k + 2))),
        )] + placeholders_from(s, next_close(s, k + 2) + 2),
        !placeholder_at(s, k) ==> placeholders_from(s, k) == placeholders_from(s, k + 1),
{
}

/// The placeholders of `s`, in order: each one's full text and its trimmed path.
pub fn find_placeholders(s: &str) -> (r: Vec<(String, String)>)
    ensures
        r@.map_values(|p: (String, String)| (p.0@, p.1@)) == placeholders(s@),
{
    let cs = chars_of(s);
    let n = cs.len();
    let mut out: Vec<(String, String)> = Vec::new();
    let mut k: usize = 0;
    while k < n
        invariant
            k <= n + 2,
            n == cs@.len(),
            cs@ == s@,
            placeholders(s@) == out@.map_values(|p: (String, String)| (p.0@, p.1@)) + placeholders_from(s@, k as int),
        decreases n + 2 - k,
    {
        proof {
            lemma_placeholders_step(s@, k as int);
        }
        match placeholder_at_exec(&cs, k) {
            Some(j) => {
                let full = s.substring_char(k, j + 2);
                let inner = s.substring_char(k + 2, j);
                let path = trim(inner);
                let ghost old_out = out@;
                out.push((String::from_str(full), path));
                proof {
                    assert(out@.map_values(|p: (String, String)| (p.0@, p.1@)) =~= old_out.map_values(
                        |p: (String, String)| (p.0@, p.1@),
                    ).push((s@.subrange(k as int, j + 2), trim_spec(s@.subrange(k + 2, j as int)))));
                }
                k = j + 2;
            },
            None => {
                k = k + 1;
            },
        }
    }
    proof {
        assert(placeholders_from(s@, k as int) == Seq::<(Seq<char>, Seq<char>)>::empty());
    }
    out
}

/// The pieces of `s` between dots, as `str::split('.')` gives them.
pub fn split_at_dots(s: &str) -> (r: Vec<String>)
    ensures
        r@.map_values(|p: String| p@) == split_dots(s@),
{
    let cs = chars_of(s);
    let n = cs.len();
    let mut parts: Vec<String> = Vec::new();
    let mut start: usize = 0;
    let mut i: usize = 0;
    assert(s@.take(0) =~= Seq::<char>::empty());
    while i < n
        invariant
            start <= i <= n,
            n == cs@.len(),
            cs@ == s@,
            parts@.map_values(|p: String| p@).push(s@.subrange(start as int, i as int)) == split_dots(
                s@.take(i as int),
            ),
        decreases n - i,
    {
        let ghost pv = parts@.map_values(|p: String| p@);
        proof {
            assert(s@.take(i + 1).drop_last() =~= s@.take(i as int));
            assert(s@.take(i + 1).last() == s@[i as int]);
        }
        if cs[i] == '.' {
            let piece = s.substring_char(start, i);
            parts.push(String::from_str(piece));
            proof {
                assert(parts@.map_values(|p: String| p@) =~= pv.push(s@.subrange(start as int, i as int)));
                assert(s@.subrange(i + 1, i + 1) =~= Seq::<char>::empty());
            }
            start = i + 1;
        } else {
            proof {
                assert(s@.subrange(start as int, i + 1) =~= s@.subrange(start as int, i as int).push(s@[i as int]));
                assert(pv.push(s@.subrange(start as int, i + 1)) =~= pv.push(s@.subrange(start as int, i as int)).update(
                    pv.len() as int,
                    s@.subrange(start as int, i as int).push(s@[i as int]),
                ));
            }
        }
        i += 1;
    }
    let piece = s.substring_char(start, n);
    parts.push(String::from_str(piece));
    proof {
        assert(s@.take(n as int) =~= s@);
    }
    parts
}

/// The text a JSON value stands for in a rendered template.
pub fn value_to_text(v: &JsonValue) -> (r: String)
    ensures
        r@ == value_text(*v),
{
    match v {
        JsonValue::String(s) => s.clone(),
        JsonValue::Number(n) => number_to_text(n),
        JsonValue::Bool(b) => if *b {
            String::from_str("true")
        } else {
            String::from_str("false")
        },
        JsonValue::Null => String::from_str("null"),
        _ => compact_json_text(v),
    }
}

impl TemplateEngine {
    pub fn new() -> (r: Self) {
        TemplateEngine {}
    }

    /// The text that `path` stands for in `event`.
    #[verifier::loop_isolation(false)]
    fn extract_value_from_path(&self, path: &str, event: &Event) -> (r: Result<String, TemplateError>)
        ensures
            result_view(r) == path_value(path@, *event),
    {
        proof {
            reveal_strlit("id");
            reveal_strlit("data");
            reveal_strlit("metadata");
        }
        if str_eq(path, "id") {
            return Ok(event.id.clone());
        }
        let parts = split_at_dots(path);
        let ghost pv = parts@.map_values(|p: String| p@);
        proof {
            lemma_split_nonempty(path@);
        }
        assert(pv[0] == parts@[0]@);
        let root: &JsonValue = if str_eq(parts[0].as_str(), "data") {
            &event.data
        } else if str_eq(parts[0].as_str(), "metadata") {
            &event.metadata
        } else {
            return Err(TemplateError::UnknownRoot(parts[0].clone()));
        };
        let ghost start = *root;
        let mut current: &JsonValue = root;
        let mut k: usize = 1;
        assert(pv.drop_first().skip(0) =~= pv.drop_first());
        while k < parts.len()
            invariant
                1 <= k <= parts@.len(),
                pv == parts@.map_values(|p: String| p@),
                follow(start, pv.drop_first()) == follow(*current, pv.drop_first().skip(k - 1)),
            decreases parts@.len() - k,
        {
            let ghost rest = pv.drop_first().skip(k - 1);
            assert(rest[0] == parts@[k as int]@);
            assert(rest.drop_first() =~= pv.drop_first().skip(k as int));
            match current.get(parts[k].as_str()) {
                Some(next) => {
                    current = next;
                },
                None => {
                    let mut msg = TemplateError::MissingField { part: parts[k].clone(), path: String::from_str(path) };
                    return Err(msg);
                },
            }
            k += 1;
        }
        assert(pv.drop_first().skip(k - 1) =~= Seq::<Seq<char>>::empty());
        Ok(value_to_text(current))
    }

    /// Renders `template` against `event`: every placeholder, in order, is
    /// resolved and every occurrence of its full text is replaced; the first
    /// placeholder that cannot be resolved is the error.
    pub fn render(&self, template: &str, event: &Event) -> (r: Result<String, TemplateError>)
        ensures
            result_view(r) == render_spec(template@, *event),
    {
        let found = find_placeholders(template);
        let ghost fv = found@.map_values(|p: (String, String)| (p.0@, p.1@));
        let mut result = String::from_str(template);
        let mut i: usize = 0;
        assert(fv.skip(0) =~= fv);
        while i < found.len()
            invariant
                i <= found@.len(),
                fv == found@.map_values(|p: (String, String)| (p.0@, p.1@)),
                fv == placeholders(template@),
                render_spec(template@, *event) == render_from(result@, fv.skip(i as int), *event),
            decreases found@.len() - i,
        {
            let ghost rest = fv.skip(i as int);
            assert(rest[0] == fv[i as int]);
            assert(rest.drop_first() =~= fv.skip(i + 1));
            let value = self.extract_value_from_path(found[i].1.as_str(), event)?;
            proof {
                lemma_placeholder_text_nonempty(template@, i as int);
            }
            result = replace_all(result.as_str(), found[i].0.as_str(), value.as_str());
            i += 1;
        }
        assert(fv.skip(i as int) =~= Seq::<(Seq<char>, Seq<char>)>::empty());
        Ok(result)
    }

    /// Renders every template of `templates`, keeping their keys and order;
    /// the first template that fails is the error.
    pub fn render_map(&self, templates: &Vec<(String, String)>, event: &Event) -> (r: Result<Vec<(String, String)>, TemplateError>)
        ensures
            r matches Ok(out) ==> out@.len() == templates@.len() && forall|i: int| 0 <= i < out@.len() ==>
                (#[trigger] out@[i]).0 == templates@[i].0 && render_spec(templates@[i].1@, *event) == Ok::<Seq<char>, TemplateFailure>(out@[i].1@),
            r matches Err(e) ==> exists|i: int| 0 <= i < templates@.len()
                && (forall|j: int| 0 <= j < i ==> (#[trigger] render_spec(templates@[j].1@, *event)) is Ok)
                && render_spec(templates@[i].1@, *event) == Err::<Seq<char>, TemplateFailure>(e@),
    {
        let mut out: Vec<(String, String)> = Vec::new();
        let mut i: usize = 0;
        while i < templates.len()
            invariant
                i <= templates@.len(),
                out@.len() == i,
                forall|j: int| 0 <= j < i ==> (#[trigger] out@[j]).0 == templates@[j].0
                    && render_spec(templates@[j].1@, *event) == Ok::<Seq<char>, TemplateFailure>(out@[j].1@),
            decreases templates@.len() - i,
        {
            match self.render(templates[i].1.as_str(), event) {
                Ok(rendered) => {
                    out.push((templates[i].0.clone(), rendered));
                },
                Err(e) => {
                    assert(render_spec(templates@[i as int].1@, *event) == Err::<Seq<char>, TemplateFailure>(e@));
                    assert forall|j: int| 0 <= j < i implies (#[trigger] render_spec(templates@[j].1@, *event)) is Ok by {
                        assert(out@[j].0 == templates@[j].0);
                    }
                    return Err(e);
                },
            }
            i += 1;
        }
        Ok(out)
    }
}


/// True when `{{` starts at `i`.
pub open spec fn opens_at(s: Seq<char>, i: int) -> bool {
    s[i] == '{' && s[i + 1] == '{'
}

proof fn lemma_no_placeholders_from(s: Seq<char>, k: int)
    requires
        forall|i: int| 0 <= i < s.len() - 1 ==> !#[trigger] opens_at(s, i),
    ensures
        placeholders_from(s, k).len() == 0,
    decreases s.len() - k,
{
    if 0 <= k < s.len() {
        if k < s.len() - 1 {
            assert(!opens_at(s, k));
        }
        assert(!placeholder_at(s, k));
        lemma_no_placeholders_from(s, k + 1);
    }
}

/// A template without `{{` renders to itself, whatever the event.
pub proof fn lemma_plain_template_unchanged(s: Seq<char>, e: Event)
    requires
        forall|i: int| 0 <= i < s.len() - 1 ==> !#[trigger] opens_at(s, i),
    ensures
        render_spec(s, e) == Ok::<Seq<char>, TemplateFailure>(s),
{
    lemma_no_placeholders_from(s, 0);
}

/// Splitting `p + k`, where `k` holds no dot, extends the last piece of
/// `p`'s split by `k`.
proof fn lemma_split_extends_last(p: Seq<char>, k: Seq<char>)
    requires
        forall|i: int| 0 <= i < k.len() ==> k[i] != '.',
    ensures
        split_dots(p + k) == split_dots(p).update(split_dots(p).len() - 1, split_dots(p).last() + k),
    decreases k.len(),
{
    lemma_split_nonempty(p);
    let sp = split_dots(p);
    if k.len() == 0 {
        assert(p + k =~= p);
        assert(sp.last() + k =~= sp.last());
        assert(sp.update(sp.len() - 1, sp.last()) =~= sp);
    } else {
        let k0 = k.drop_last();
        lemma_split_extends_last(p, k0);
        assert((p + k).drop_last() =~= p + k0);
        assert((p + k).last() == k.last());
        let r = split_dots(p + k0);
        assert(r.len() == sp.len());
        assert(r.last() == sp.last() + k0);
        assert(r.last().push(k.last()) =~= sp.last() + k);
        assert(split_dots(p + k) =~= sp.update(sp.len() - 1, sp.last() + k));
    }
}

/// `root.KEY`, with no dot in `root` or `KEY`, splits into `root` and `KEY`.
proof fn lemma_split_two(root: Seq<char>, key: Seq<char>)
    requires
        forall|i: int| 0 <= i < root.len() ==> root[i] != '.',
        forall|i: int| 0 <= i < key.len() ==> key[i] != '.',
    ensures
        split_dots(root + seq!['.'] + key) == seq![root, key],
{
    let e = Seq::<char>::empty();
    lemma_split_extends_last(e, root);
    assert(e + root =~= root);
    assert(split_dots(e) == seq![e]);
    assert(split_dots(root) =~= seq![root]);
    let rd = root + seq!['.'];
    assert(rd.drop_last() =~= root);
    assert(split_dots(rd) =~= seq![root, e]);
    lemma_split_extends_last(rd, key);
    assert(split_dots(rd + key) =~= seq![root, key]);
}

/// A placeholder `data.KEY` or `metadata.KEY` (KEY without dots) stands for
/// the text of the member KEY of the event's data or metadata: a boolean
/// gives `true` or `false`, a string its own characters, null gives `null`,
/// and a missing member is reported with the key and the whole path.
pub proof fn lemma_member_placeholder_text(e: Event, key: Seq<char>, in_metadata: bool)
    requires
        forall|i: int| 0 <= i < key.len() ==> key[i] != '.',
    ensures
        ({
            let root = if in_metadata { "metadata"@ } else { "data"@ };
            let v = if in_metadata { e.metadata } else { e.data };
            let path = root + "."@ + key;
            &&& json_get(v, key) == Some(JsonValue::Bool(true)) ==> path_value(path, e) == Ok::<Seq<char>, TemplateFailure>("true"@)
            &&& json_get(v, key) == Some(JsonValue::Bool(false)) ==> path_value(path, e) == Ok::<Seq<char>, TemplateFailure>("false"@)
            &&& json_get(v, key) == Some(JsonValue::Null) ==> path_value(path, e) == Ok::<Seq<char>, TemplateFailure>("null"@)
            &&& json_get(v, key) matches Some(JsonValue::String(s)) ==> path_value(path, e) == Ok::<Seq<char>, TemplateFailure>(s@)
            &&& json_get(v, key) is None ==> path_value(path, e) == Err::<Seq<char>, TemplateFailure>(
                TemplateFailure::MissingField(key, path))
        }),
{
    reveal_strlit("metadata");
    reveal_strlit("data");
    reveal_strlit(".");
    reveal_strlit("id");
    reveal_strlit("true");
    reveal_strlit("false");
    reveal_strlit("null");
    let root = if in_metadata { "metadata"@ } else { "data"@ };
    let v = if in_metadata { e.metadata } else { e.data };
    let path = root + "."@ + key;
    assert("."@ =~= seq!['.']);
    lemma_split_two(root, key);
    let parts = split_dots(path);
    assert(parts == seq![root, key]);
    assert(path.len() > 2);
    assert(path != "id"@);
    assert(parts.drop_first() =~= seq![key]);
    assert(seq![key].drop_first() =~= Seq::<Seq<char>>::empty());
    assert("metadata"@ != "data"@) by {
        assert("metadata"@.len() != "data"@.len());
    }
    assert(parts[0] == root);
    assert(parts[1] == key);
    assert(root == "data"@ || root == "metadata"@);
    let start = if root == "data"@ { e.data } else { e.metadata };
    assert(start == v);
    let rest = parts.drop_first();
    assert(rest.len() == 1 && rest[0] == key);
    match json_get(v, key) {
        Some(x) => {
            assert(rest.drop_first().len() == 0);
            assert(follow(x, rest.drop_first()) == Ok::<JsonValue, Seq<char>>(x));
            assert(follow(v, rest) == Ok::<JsonValue, Seq<char>>(x));
            assert(path_value(path, e) == Ok::<Seq<char>, TemplateFailure>(value_text(x)));
        },
        None => {
            assert(follow(v, rest) == Err::<JsonValue, Seq<char>>(key));
        },
    }
}

/// The text of a value in a rendered template: a string is itself, a
/// boolean is `true` or `false`, null is `null`, and a non-negative integer
/// is its decimal digits.
pub proof fn lemma_value_texts(s: String, b: bool, n: u64)
    ensures
        value_text(JsonValue::String(s)) == s@,
        value_text(JsonValue::Bool(b)) == (if b { "true"@ } else { "false"@ }),
        !b ==> value_text(JsonValue::Bool(b)) != "true"@,
        value_text(JsonValue::Null) == "null"@,
        value_text(JsonValue::Number(crate::json::JsonNumber::PosInt(n))) == crate::json::decimal(n as nat),
{
    reveal_strlit("true");
    reveal_strlit("false");
    assert("false"@ != "true"@) by {
        assert("false"@.len() != "true"@.len());
    }
}

} // verus!
