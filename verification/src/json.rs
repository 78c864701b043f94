use vstd::prelude::*;

verus! {

/// `serde_json::Value`, used only when a JSON value is handed to serde_json.
#[verifier::external_type_specification]
#[verifier::external_body]
pub struct ExSerdeJsonValue(serde_json::Value);

/// A JSON number: a non-negative integer, a negative integer, or a float kept
/// as the text serde_json prints for it.
#[derive(Debug, Clone)]
pub enum JsonNumber {
    PosInt(u64),
    NegInt(i64),
    Float(String),
}

/// A JSON value. An object keeps its members in order; when a key occurs more
/// than once, the last member with that key is the one that counts.
#[derive(Debug)]
pub enum JsonValue {
    Null,
    Bool(bool),
    Number(JsonNumber),
    String(String),
    Array(Vec<JsonValue>),
    Object(Vec<(String, JsonValue)>),
}

/// The value of the last member of `members` whose key is `key`.
pub open spec fn member_value(members: Seq<(String, JsonValue)>, key: Seq<char>) -> Option<JsonValue>
    decreases members.len(),
{
    if members.len() == 0 {
        None
    } else if members.last().0@ == key {
        Some(members.last().1)
    } else {
        member_value(members.drop_last(), key)
    }
}

/// What indexing `v` with the string `key` gives, as `serde_json::Value::get` does:
/// a member of an object, and nothing for any other value.
pub open spec fn json_get(v: JsonValue, key: Seq<char>) -> Option<JsonValue> {
    match v {
        JsonValue::Object(members) => member_value(members@, key),
        _ => None,
    }
}

impl JsonValue {
    /// The member of this object named `key`, as `serde_json::Value::get` finds it.
    pub fn get(&self, key: &str) -> (r: Option<&JsonValue>)
        ensures
            r matches Some(x) ==> json_get(*self, key@) == Some(*x),
            r is None ==> json_get(*self, key@) is None,
    {
        match self {
            JsonValue::Object(members) => {
                let mut i = members.len();
                assert(members@.take(i as int) =~= members@);
                while i > 0
                    invariant
                        i <= members@.len(),
                        json_get(*self, key@) == member_value(members@, key@),
                        member_value(members@, key@) == member_value(members@.take(i as int), key@),
                    decreases i,
                {
                    let ghost t = members@.take(i as int);
                    assert(t.last() == members@[i - 1]);
                    assert(t.drop_last() =~= members@.take(i - 1));
                    if crate::text::str_eq(members[i - 1].0.as_str(), key) {
                        assert(member_value(t, key@) == Some(t.last().1));
                        return Some(&members[i - 1].1);
                    }
                    i -= 1;
                }
                None
            },
            _ => None,
        }
    }
}

/// The decimal digits of `n`.
pub open spec fn decimal(n: nat) -> Seq<char>
    decreases n,
{
    if n < 10 {
        seq![digit_char(n)]
    } else {
        decimal(n / 10).push(digit_char(n % 10))
    }
}

pub open spec fn digit_char(d: nat) -> char {
    if d == 0 { '0' } else if d == 1 { '1' } else if d == 2 { '2' } else if d == 3 { '3' }
    else if d == 4 { '4' } else if d == 5 { '5' } else if d == 6 { '6' } else if d == 7 { '7' }
    else if d == 8 { '8' } else { '9' }
}

/// The number a text of decimal digits denotes.
pub open spec fn digits_value(s: Seq<char>) -> int
    decreases s.len(),
{
    if s.len() == 0 {
        0
    } else {
        10 * digits_value(s.drop_last()) + (s.last() as int - '0' as int)
    }
}

proof fn lemma_digit_char_value(d: nat)
    requires
        d < 10,
    ensures
        digit_char(d) as int - '0' as int == d,
        '0' <= digit_char(d) <= '9',
        d > 0 ==> digit_char(d) != '0',
{
}

/// The decimal text of `n` is made of the digits `0` to `9`, has no
/// leading zero unless it is `0` itself, and denotes `n`.
pub proof fn lemma_decimal_denotes(n: nat)
    ensures
        decimal(n).len() >= 1,
        n >= 10 ==> decimal(n).len() >= 2,
        forall|i: int| 0 <= i < decimal(n).len() ==> '0' <= #[trigger] decimal(n)[i] <= '9',
        decimal(n).len() > 1 ==> decimal(n)[0] != '0',
        digits_value(decimal(n)) == n,
    decreases n,
{
    if n < 10 {
        lemma_digit_char_value(n);
        let d = decimal(n);
        assert(d == seq![digit_char(n)]);
        assert(d.drop_last() =~= Seq::<char>::empty());
        assert(digits_value(d.drop_last()) == 0);
    } else {
        lemma_decimal_denotes(n / 10);
        lemma_digit_char_value(n % 10);
        let p = decimal(n / 10);
        let d = decimal(n);
        assert(d == p.push(digit_char(n % 10)));
        assert(d.drop_last() =~= p);
        assert forall|i: int| 0 <= i < d.len() implies '0' <= #[trigger] d[i] <= '9' by {
            if i < p.len() {
                assert(d[i] == p[i]);
            }
        }
        assert(d[0] == p[0]);
        if p.len() == 1 {
            assert(n / 10 < 10);
            lemma_digit_char_value(n / 10);
            assert(p == seq![digit_char(n / 10)]);
        }
        assert(digits_value(d) == 10 * digits_value(p) + (digit_char(n % 10) as int - '0' as int));
        assert(10 * (n / 10) + n % 10 == n);
    }
}

/// In an object, the member that counts for a key is its last member with
/// that key: adding a member with the key makes it the one found, adding a
/// member with another key changes nothing.
pub proof fn lemma_last_member_wins(members: Seq<(String, JsonValue)>, k: String, v: JsonValue, key: Seq<char>)
    ensures
        member_value(members.push((k, v)), k@) == Some(v),
        k@ != key ==> member_value(members.push((k, v)), key) == member_value(members, key),
{
    assert(members.push((k, v)).drop_last() =~= members);
}

fn digit_text(d: u64) -> (r: &'static str)
    requires
        d < 10,
    ensures
        r@ == seq![digit_char(d as nat)],
{
    proof {
        reveal_strlit("0");
        reveal_strlit("1");
        reveal_strlit("2");
        reveal_strlit("3");
        reveal_strlit("4");
        reveal_strlit("5");
        reveal_strlit("6");
        reveal_strlit("7");
        reveal_strlit("8");
        reveal_strlit("9");
    }
    if d == 0 { "0" } else if d == 1 { "1" } else if d == 2 { "2" } else if d == 3 { "3" }
    else if d == 4 { "4" } else if d == 5 { "5" } else if d == 6 { "6" } else if d == 7 { "7" }
    else if d == 8 { "8" } else { "9" }
}

/// The decimal text of `n`, as `u64`'s `Display` writes it.
pub fn decimal_text(n: u64) -> (r: String)
    ensures
        r@ == decimal(n as nat),
    decreases n,
{
    if n < 10 {
        String::from_str(digit_text(n))
    } else {
        let mut s = decimal_text(n / 10);
        s.append(digit_text(n % 10));
        s
    }
}

/// The text serde_json prints for a number.
pub open spec fn number_text(n: JsonNumber) -> Seq<char> {
    match n {
        JsonNumber::PosInt(u) => decimal(u as nat),
        JsonNumber::NegInt(i) => if i < 0 { seq!['-'] + decimal((-i) as nat) } else { decimal(i as nat) },
        JsonNumber::Float(t) => t@,
    }
}

pub fn number_to_text(n: &JsonNumber) -> (r: String)
    ensures
        r@ == number_text(*n),
{
    match n {
        JsonNumber::PosInt(u) => decimal_text(*u),
        JsonNumber::NegInt(i) => {
            if *i < 0 {
                let magnitude: u64 = ((-(*i + 1)) as u64) + 1;
                let mut s = String::from_str("-");
                let d = decimal_text(magnitude);
                s.append(d.as_str());
                proof {
                    reveal_strlit("-");
                }
                s
            } else {
                decimal_text(*i as u64)
            }
        },
        JsonNumber::Float(t) => t.clone(),
    }
}

/// The compact JSON text serde_json writes for `v`.
pub uninterp spec fn compact_json(v: JsonValue) -> Seq<char>;

/// A number as a `serde_json::Value`; a float is read back from its text.
#[verifier::external_body]
fn serde_number(n: &JsonNumber) -> serde_json::Value {
    match n {
        JsonNumber::PosInt(u) => serde_json::Value::from(*u),
        JsonNumber::NegInt(i) => serde_json::Value::from(*i),
        JsonNumber::Float(t) => t.parse::<serde_json::Number>().map(serde_json::Value::Number).unwrap_or(serde_json::Value::Null),
    }
}

/// `v` as a `serde_json::Value`, member for member.
#[verifier::external_body]
pub(crate) fn to_serde_value(v: &JsonValue) -> serde_json::Value {
    match v {
        JsonValue::Null => serde_json::Value::Null,
        JsonValue::Bool(b) => serde_json::Value::Bool(*b),
        JsonValue::Number(n) => serde_number(n),
        JsonValue::String(s) => serde_json::Value::String(s.clone()),
        JsonValue::Array(a) => serde_json::Value::Array(a.iter().map(to_serde_value).collect()),
        JsonValue::Object(o) => serde_json::Value::Object(o.iter().map(|(k, x)| (k.clone(), to_serde_value(x))).collect()),
    }
}

/// `serde_json`'s `Display` for a value: its compact JSON text. The contract
/// names the text and says nothing more of it.
#[verifier::external_body]
pub fn compact_json_text(v: &JsonValue) -> (r: String)
    ensures
        r@ == compact_json(*v),
{
    to_serde_value(v).to_string()
}

} // verus!
