use vstd::prelude::*;
use crate::error::RuntimeError;
use crate::text::{chars_of, str_eq};

verus! {

broadcast use vstd::string::group_string_axioms;

/// The file formats a configuration file may be written in.
#[derive(Debug, Clone, Copy, PartialEq, Eq, Structural)]
pub enum ConfigFormat {
    Toml,
    Yaml,
    Json,
}

/// The index of the last `c` in `s`, or -1.
pub open spec fn last_index_of(s: Seq<char>, c: char) -> int
    decreases s.len(),
{
    if s.len() == 0 {
        -1
    } else if s.last() == c {
        s.len() - 1
    } else {
        last_index_of(s.drop_last(), c)
    }
}

/// The last component of a `/`-separated path, skipping empty and `.`
/// components at its end.
pub open spec fn last_component(s: Seq<char>) -> Seq<char>
    decreases s.len(),
{
    let k = last_index_of(s, '/');
    let seg = s.skip(k + 1);
    if k >= 0 && (seg.len() == 0 || seg == seq!['.']) {
        proof {
            lemma_last_index_bounds(s, '/');
        }
        last_component(s.take(k))
    } else {
        seg
    }
}

/// The file name of a path, as `Path::file_name` gives it: none for a path
/// that ends in `..` or has no normal component.
pub open spec fn file_name(s: Seq<char>) -> Option<Seq<char>> {
    let c = last_component(s);
    if c.len() == 0 || c == seq!['.'] || c == seq!['.', '.'] {
        None
    } else {
        Some(c)
    }
}

/// The extension of a path, as `Path::extension` gives it: the text after the
/// last `.` of the file name, unless that `.` is the name's first character.
pub open spec fn path_extension(s: Seq<char>) -> Option<Seq<char>> {
    match file_name(s) {
        None => None,
        Some(name) => {
            let k = last_index_of(name, '.');
            if k < 1 {
                None
            } else {
                Some(name.skip(k + 1))
            }
        },
    }
}

pub proof fn lemma_last_index_bounds(s: Seq<char>, c: char)
    ensures
        -1 <= last_index_of(s, c) < s.len(),
        last_index_of(s, c) >= 0 ==> s[last_index_of(s, c)] == c,
        forall|j: int| last_index_of(s, c) < j < s.len() ==> s[j] != c,
    decreases s.len(),
{
    if s.len() > 0 {
        lemma_last_index_bounds(s.drop_last(), c);
        if s.last() != c {
            assert forall|j: int| last_index_of(s, c) < j < s.len() implies s[j] != c by {
                if j < s.len() - 1 {
                    assert(s.drop_last()[j] == s[j]);
                }
            }
        }
    }
}

/// The last index of `c` in the first `end` characters of `cs`, or `None`.
fn last_index_exec(cs: &Vec<char>, end: usize, c: char) -> (r: Option<usize>)
    requires
        end <= cs@.len(),
    ensures
        r matches Some(k) ==> k as int == last_index_of(cs@.take(end as int), c),
        r is None ==> last_index_of(cs@.take(end as int), c) == -1,
{
    let mut j = end;
    while j > 0
        invariant
            j <= end <= cs@.len(),
            last_index_of(cs@.take(end as int), c) == last_index_of(cs@.take(j as int), c),
        decreases j,
    {
        let ghost t = cs@.take(j as int);
        assert(t.last() == cs@[j - 1]);
        assert(t.drop_last() =~= cs@.take(j - 1));
        if cs[j - 1] == c {
            return Some(j - 1);
        }
        j -= 1;
    }
    None
}

proof fn lemma_last_index_unique(s: Seq<char>, c: char, k: int)
    requires
        -1 <= k < s.len(),
        k >= 0 ==> s[k] == c,
        forall|j: int| k < j < s.len() ==> s[j] != c,
    ensures
        last_index_of(s, c) == k,
    decreases s.len(),
{
    if s.len() > 0 && k < s.len() - 1 {
        assert forall|j: int| k < j < s.drop_last().len() implies s.drop_last()[j] != c by {
            assert(s.drop_last()[j] == s[j]);
        }
        if k >= 0 {
            assert(s.drop_last()[k] == s[k]);
        }
        lemma_last_index_unique(s.drop_last(), c, k);
    }
}

/// The bounds of the last component of a path (see `last_component`).
fn last_component_range(cs: &Vec<char>) -> (r: (usize, usize))
    ensures
        r.0 <= r.1 <= cs@.len(),
        last_component(cs@) == cs@.subrange(r.0 as int, r.1 as int),
{
    let mut end = cs.len();
    assert(cs@.take(end as int) =~= cs@);
    loop
        invariant
            end <= cs@.len(),
            last_component(cs@) == last_component(cs@.take(end as int)),
        decreases end,
    {
        let ghost t = cs@.take(end as int);
        let found = last_index_exec(cs, end, '/');
        proof {
            lemma_last_index_bounds(t, '/');
        }
        match found {
            Some(k) => {
                let seg_len = end - (k + 1);
                let dot = seg_len == 1 && cs[k + 1] == '.';
                proof {
                    assert(t.skip(k + 1).len() == seg_len);
                    if seg_len == 1 {
                        assert(t.skip(k + 1)[0] == cs@[k + 1]);
                        if cs@[k + 1] == '.' {
                            assert(t.skip(k + 1) =~= seq!['.']);
                        }
                    }
                    assert(t.take(k as int) =~= cs@.take(k as int));
                    assert(t.skip(k + 1) =~= cs@.subrange(k + 1, end as int));
                }
                if seg_len == 0 || dot {
                    end = k;
                } else {
                    return (k + 1, end);
                }
            },
            None => {
                assert(t.skip(0) =~= cs@.subrange(0, end as int));
                return (0, end);
            },
        }
    }
}

/// The extension of `path`, if it has one.
pub fn extension_of(path: &str) -> (r: Option<String>)
    ensures
        r matches Some(e) ==> path_extension(path@) == Some(e@),
        r is None ==> path_extension(path@) is None,
{
    let cs = chars_of(path);
    let (start, end) = last_component_range(&cs);
    let ghost name = path@.subrange(start as int, end as int);
    let n = end - start;
    let is_dot = n == 1 && cs[start] == '.';
    let is_dotdot = n == 2 && cs[start] == '.' && cs[start + 1] == '.';
    proof {
        if n == 1 && cs@[start as int] == '.' {
            assert(name =~= seq!['.']);
        }
        if n == 2 && cs@[start as int] == '.' && cs@[start + 1] == '.' {
            assert(name =~= seq!['.', '.']);
        }
        if n == 1 && name == seq!['.'] {
            assert(name[0] == cs@[start as int]);
        }
        if n == 2 && name == seq!['.', '.'] {
            assert(name[0] == cs@[start as int]);
            assert(name[1] == cs@[start + 1]);
        }
    }
    if n == 0 || is_dot || is_dotdot {
        return None;
    }
    let found = last_index_exec(&cs, end, '.');
    let ghost t = cs@.take(end as int);
    proof {
        lemma_last_index_bounds(t, '.');
        assert(name.len() == n);
        assert(forall|j: int| 0 <= j < n ==> name[j] == t[start + j]);
    }
    let (has_dot, d): (bool, usize) = match found {
        Some(d) => (true, d),
        None => (false, 0),
    };
    if !has_dot || d <= start {
        proof {
            let k: int = if found is Some && d == start { 0 } else { -1 };
            assert forall|j: int| k < j < name.len() implies name[j] != '.' by {
                assert(name[j] == t[start + j]);
            }
            if k == 0 {
                assert(name[0] == t[start as int]);
            }
            lemma_last_index_unique(name, '.', k);
        }
        return None;
    }
    proof {
        let k: int = d - start;
        assert forall|j: int| k < j < name.len() implies name[j] != '.' by {
            assert(name[j] == t[start + j]);
        }
        assert(name[k] == t[d as int]);
        lemma_last_index_unique(name, '.', k);
    }
    let ext = path.substring_char(d + 1, end);
    proof {
        assert(ext@ =~= name.skip(d - start + 1));
    }
    Some(String::from_str(ext))
}

/// The lower-case form of a text, as `str::to_lowercase` gives it.
pub uninterp spec fn lowercase(s: Seq<char>) -> Seq<char>;

/// std: `str::to_lowercase`, whose result the contract names.
#[verifier::external_body]
fn to_lower(s: &str) -> (r: String)
    ensures
        r@ == lowercase(s@),
{
    s.to_lowercase()
}

/// The format named by a lower-case extension.
pub open spec fn format_named(ext: Seq<char>) -> Option<ConfigFormat> {
    if ext == "toml"@ {
        Some(ConfigFormat::Toml)
    } else if ext == "yaml"@ || ext == "yml"@ {
        Some(ConfigFormat::Yaml)
    } else if ext == "json"@ {
        Some(ConfigFormat::Json)
    } else {
        None
    }
}

/// The format a configuration file is read in: chosen by the lower-cased
/// extension of its path (no extension counts as the empty one).
pub open spec fn format_for_path(path: Seq<char>) -> Option<ConfigFormat> {
    format_named(lowercase(match path_extension(path) {
        Some(e) => e,
        None => Seq::<char>::empty(),
    }))
}

/// Each known extension names its own format, and only these do: `toml`,
/// `yaml` or `yml`, and `json`.
pub proof fn lemma_format_names(ext: Seq<char>)
    ensures
        format_named("toml"@) == Some(ConfigFormat::Toml),
        format_named("yaml"@) == Some(ConfigFormat::Yaml),
        format_named("yml"@) == Some(ConfigFormat::Yaml),
        format_named("json"@) == Some(ConfigFormat::Json),
        format_named(ext) == Some(ConfigFormat::Toml) ==> ext == "toml"@,
        format_named(ext) == Some(ConfigFormat::Yaml) ==> ext == "yaml"@ || ext == "yml"@,
        format_named(ext) == Some(ConfigFormat::Json) ==> ext == "json"@,
        ext != "toml"@ && ext != "yaml"@ && ext != "yml"@ && ext != "json"@ ==> format_named(ext) is None,
{
    reveal_strlit("toml");
    reveal_strlit("yaml");
    reveal_strlit("yml");
    reveal_strlit("json");
    assert("yaml"@ != "toml"@) by { assert("yaml"@[0] != "toml"@[0]); }
    assert("yml"@ != "toml"@) by { assert("yml"@.len() != "toml"@.len()); }
    assert("json"@ != "toml"@) by { assert("json"@[0] != "toml"@[0]); }
    assert("json"@ != "yaml"@) by { assert("json"@[0] != "yaml"@[0]); }
    assert("json"@ != "yml"@) by { assert("json"@.len() != "yml"@.len()); }
}

impl ConfigFormat {
    /// The format named by a lower-case extension: `toml`, `yaml` or `yml`, `json`.
    pub fn from_extension(ext: &str) -> (r: Option<ConfigFormat>)
        ensures
            r == format_named(ext@),
    {
        if str_eq(ext, "toml") {
            Some(ConfigFormat::Toml)
        } else if str_eq(ext, "yaml") || str_eq(ext, "yml") {
            Some(ConfigFormat::Yaml)
        } else if str_eq(ext, "json") {
            Some(ConfigFormat::Json)
        } else {
            None
        }
    }

    /// The format to read `path` in; an unknown extension is a configuration error.
    pub fn for_path(path: &str) -> (r: Result<ConfigFormat, RuntimeError>)
        ensures
            format_for_path(path@) matches Some(f) ==> r == Ok::<ConfigFormat, RuntimeError>(f),
            format_for_path(path@) is None ==> (r matches Err(RuntimeError::ConfigError(m))
                && m@ == "Unknown config file format: "@ + path@),
    {
        let ext = match extension_of(path) {
            Some(e) => e,
            None => String::new(),
        };
        let lower = to_lower(ext.as_str());
        match ConfigFormat::from_extension(lower.as_str()) {
            Some(f) => Ok(f),
            None => {
                let mut m = String::from_str("Unknown config file format: ");
                m.append(path);
                Err(RuntimeError::ConfigError(m))
            },
        }
    }
}

} // verus!
