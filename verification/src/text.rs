use vstd::prelude::*;

verus! {

broadcast use vstd::string::group_string_axioms;

/// The characters of `s`, in order.
pub fn chars_of(s: &str) -> (r: Vec<char>)
    ensures
        r@ == s@,
{
    let mut out: Vec<char> = Vec::new();
    for c in it: s.chars()
        invariant
            it.seq() == s@,
            out@ == it.seq().take(it.index() as int),
            out@.len() == it.index(),
    {
        out.push(c);
        assert(it.seq().take(it.index() + 1) =~= out@);
    }
    assert(out@ =~= s@);
    out
}


/// Unicode `White_Space` characters, the ones `char::is_whitespace` accepts.
pub open spec fn is_white_space(c: char) -> bool {
    ||| ('\u{9}' <= c && c <= '\u{d}')
    ||| c == ' '
    ||| c == '\u{85}'
    ||| c == '\u{a0}'
    ||| c == '\u{1680}'
    ||| ('\u{2000}' <= c && c <= '\u{200a}')
    ||| c == '\u{2028}'
    ||| c == '\u{2029}'
    ||| c == '\u{202f}'
    ||| c == '\u{205f}'
    ||| c == '\u{3000}'
}

pub fn is_space(c: char) -> (r: bool)
    ensures
        r == is_white_space(c),
{
    ('\u{9}' <= c && c <= '\u{d}') || c == ' ' || c == '\u{85}' || c == '\u{a0}' || c == '\u{1680}'
        || ('\u{2000}' <= c && c <= '\u{200a}') || c == '\u{2028}' || c == '\u{2029}'
        || c == '\u{202f}' || c == '\u{205f}' || c == '\u{3000}'
}

/// `s` without its leading white space.
pub open spec fn trim_start_spec(s: Seq<char>) -> Seq<char>
    decreases s.len(),
{
    if s.len() > 0 && is_white_space(s[0]) {
        trim_start_spec(s.drop_first())
    } else {
        s
    }
}

/// `s` without its trailing white space.
pub open spec fn trim_end_spec(s: Seq<char>) -> Seq<char>
    decreases s.len(),
{
    if s.len() > 0 && is_white_space(s.last()) {
        trim_end_spec(s.drop_last())
    } else {
        s
    }
}

/// `s` without leading and trailing white space, as `str::trim` gives it.
pub open spec fn trim_spec(s: Seq<char>) -> Seq<char> {
    trim_end_spec(trim_start_spec(s))
}

proof fn lemma_trim_start_at(s: Seq<char>, i: int)
    requires
        0 <= i <= s.len(),
        forall|j: int| 0 <= j < i ==> is_white_space(#[trigger] s[j]),
        i == s.len() || !is_white_space(s[i]),
    ensures
        trim_start_spec(s) == s.skip(i),
    decreases i,
{
    if i == 0 {
        assert(s.skip(0) =~= s);
    } else {
        assert forall|j: int| 0 <= j < i - 1 implies is_white_space(#[trigger] s.drop_first()[j]) by {
            assert(s.drop_first()[j] == s[j + 1]);
        }
        if i < s.len() {
            assert(s.drop_first()[i - 1] == s[i]);
        }
        lemma_trim_start_at(s.drop_first(), i - 1);
        assert(s.drop_first().skip(i - 1) =~= s.skip(i));
        assert(is_white_space(s[0]));
    }
}

proof fn lemma_trim_end_at(s: Seq<char>, k: int)
    requires
        0 <= k <= s.len(),
        forall|j: int| k <= j < s.len() ==> is_white_space(#[trigger] s[j]),
        k == 0 || !is_white_space(s[k - 1]),
    ensures
        trim_end_spec(s) == s.take(k),
    decreases s.len() - k,
{
    if k == s.len() {
        assert(s.take(k) =~= s);
    } else {
        assert(is_white_space(s[s.len() - 1]));
        assert forall|j: int| k <= j < s.drop_last().len() implies is_white_space(#[trigger] s.drop_last()[j]) by {
            assert(s.drop_last()[j] == s[j]);
        }
        if k > 0 {
            assert(s.drop_last()[k - 1] == s[k - 1]);
        }
        lemma_trim_end_at(s.drop_last(), k);
        assert(s.drop_last().take(k) =~= s.take(k));
    }
}

/// `s` with leading and trailing white space removed.
pub fn trim(s: &str) -> (r: String)
    ensures
        r@ == trim_spec(s@),
{
    let cs = chars_of(s);
    let n = cs.len();
    let mut i: usize = 0;
    while i < n && is_space(cs[i])
        invariant
            i <= n,
            n == cs@.len(),
            cs@ == s@,
            forall|j: int| 0 <= j < i ==> is_white_space(#[trigger] cs@[j]),
        decreases n - i,
    {
        i += 1;
    }
    proof {
        lemma_trim_start_at(s@, i as int);
    }
    let mut k: usize = n;
    while k > i && is_space(cs[k - 1])
        invariant
            i <= k <= n,
            n == cs@.len(),
            cs@ == s@,
            forall|j: int| k <= j < n ==> is_white_space(#[trigger] cs@[j]),
        decreases k,
    {
        k -= 1;
    }
    proof {
        let t = s@.skip(i as int);
        assert forall|j: int| k - i <= j < t.len() implies is_white_space(#[trigger] t[j]) by {
            assert(t[j] == s@[j + i]);
        }
        if k > i {
            assert(t[k - i - 1] == s@[k - 1]);
        }
        lemma_trim_end_at(t, k - i);
        assert(t.take(k - i) =~= s@.subrange(i as int, k as int));
    }
    let piece = s.substring_char(i, k);
    String::from_str(piece)
}

/// True when `pat` occurs in `s` at position `i`.
pub open spec fn occurs_at(s: Seq<char>, pat: Seq<char>, i: int) -> bool {
    0 <= i && i + pat.len() <= s.len() && s.subrange(i, i + pat.len()) == pat
}

/// `s` with every occurrence of `from` replaced by `to`, scanning left to right
/// without overlap, as `str::replace` does for a non-empty pattern.
pub open spec fn replace_spec(s: Seq<char>, from: Seq<char>, to: Seq<char>) -> Seq<char>
    recommends
        from.len() > 0,
    decreases s.len(),
{
    if from.len() == 0 || s.len() < from.len() {
        s
    } else if s.take(from.len() as int) == from {
        to + replace_spec(s.skip(from.len() as int), from, to)
    } else {
        seq![s[0]] + replace_spec(s.drop_first(), from, to)
    }
}

fn occurs_at_exec(cs: &Vec<char>, pat: &Vec<char>, i: usize) -> (r: bool)
    requires
        i <= cs@.len(),
    ensures
        r == occurs_at(cs@, pat@, i as int),
{
    if pat.len() > cs.len() - i {
        return false;
    }
    let n = cs.len();
    let mut k: usize = 0;
    while k < pat.len()
        invariant
            n == cs@.len(),
            k <= pat@.len(),
            i + pat@.len() <= cs@.len(),
            forall|j: int| 0 <= j < k ==> cs@[i + j] == pat@[j],
        decreases pat.len() - k,
    {
        assert(i + k < cs@.len());
        if cs[i + k] != pat[k] {
            assert(cs@.subrange(i as int, i + pat@.len())[k as int] != pat@[k as int]);
            return false;
        }
        k += 1;
    }
    assert(cs@.subrange(i as int, i + pat@.len()) =~= pat@);
    true
}

/// `s` with every occurrence of the non-empty `from` replaced by `to`.
pub fn replace_all(s: &str, from: &str, to: &str) -> (r: String)
    requires
        from@.len() > 0,
    ensures
        r@ == replace_spec(s@, from@, to@),
{
    let cs = chars_of(s);
    let pat = chars_of(from);
    let n = cs.len();
    let m = pat.len();
    let mut out = String::new();
    let mut seg: usize = 0;
    let mut i: usize = 0;
    assert(s@.skip(0) =~= s@);
    assert(out@ + s@.subrange(0, 0) =~= Seq::<char>::empty());
    while m <= n - i
        invariant
            seg <= i <= n,
            n == cs@.len(),
            m == pat@.len(),
            m > 0,
            cs@ == s@,
            pat@ == from@,
            replace_spec(s@, from@, to@) == out@ + s@.subrange(seg as int, i as int) + replace_spec(
                s@.skip(i as int),
                from@,
                to@,
            ),
        decreases n - i,
    {
        let ghost t = s@.skip(i as int);
        assert(t.take(m as int) =~= s@.subrange(i as int, i + m));
        if occurs_at_exec(&cs, &pat, i) {
            let piece = s.substring_char(seg, i);
            out.append(piece);
            out.append(to);
            proof {
                assert(t.skip(m as int) =~= s@.skip(i + m));
                assert(s@.subrange(i + m, i + m) =~= Seq::<char>::empty());
            }
            i = i + m;
            seg = i;
        } else {
            proof {
                assert(t.drop_first() =~= s@.skip(i + 1));
                assert(s@.subrange(seg as int, i + 1) =~= s@.subrange(seg as int, i as int) + seq![t[0]]);
            }
            i = i + 1;
        }
    }
    proof {
        assert(replace_spec(s@.skip(i as int), from@, to@) == s@.skip(i as int));
        assert(s@.subrange(seg as int, i as int) + s@.skip(i as int) =~= s@.subrange(seg as int, n as int));
    }
    let piece = s.substring_char(seg, n);
    out.append(piece);
    out
}

/// `s` with every leading repetition of `p` removed, as
/// `str::trim_start_matches` gives it (an empty `p` removes nothing).
pub open spec fn strip_prefixes_spec(s: Seq<char>, p: Seq<char>) -> Seq<char>
    decreases s.len(),
{
    if p.len() > 0 && s.len() >= p.len() && s.take(p.len() as int) == p {
        strip_prefixes_spec(s.skip(p.len() as int), p)
    } else {
        s
    }
}

pub fn starts_with(s: &str, p: &str) -> (r: bool)
    ensures
        r == (s@.len() >= p@.len() && s@.take(p@.len() as int) == p@),
{
    let cs = chars_of(s);
    let pat = chars_of(p);
    let r = occurs_at_exec(&cs, &pat, 0);
    proof {
        if s@.len() >= p@.len() {
            assert(s@.take(p@.len() as int) =~= s@.subrange(0, p@.len() as int));
        }
    }
    r
}

/// `s` with every leading repetition of `p` removed.
pub fn strip_prefixes(s: &str, p: &str) -> (r: String)
    ensures
        r@ == strip_prefixes_spec(s@, p@),
{
    let cs = chars_of(s);
    let pat = chars_of(p);
    let n = cs.len();
    let m = pat.len();
    if m == 0 {
        return String::from_str(s);
    }
    let mut i: usize = 0;
    assert(s@.skip(0) =~= s@);
    while i <= n && occurs_at_exec(&cs, &pat, i)
        invariant
            i <= n + m,
            n == cs@.len(),
            m == pat@.len(),
            m > 0,
            cs@ == s@,
            pat@ == p@,
            i <= n ==> strip_prefixes_spec(s@, p@) == strip_prefixes_spec(s@.skip(i as int), p@),
            i <= n,
        decreases n + m - i,
    {
        proof {
            let t = s@.skip(i as int);
            assert(t.take(m as int) =~= s@.subrange(i as int, i + m));
            assert(t.skip(m as int) =~= s@.skip(i + m));
        }
        i = i + m;
    }
    proof {
        let t = s@.skip(i as int);
        if t.len() >= m {
            assert(t.take(m as int) =~= s@.subrange(i as int, i + m));
        }
        assert(s@.subrange(i as int, n as int) =~= t);
    }
    let piece = s.substring_char(i, n);
    String::from_str(piece)
}


/// True when `a` and `b` hold the same characters.
pub fn str_eq(a: &str, b: &str) -> (r: bool)
    ensures
        r == (a@ == b@),
{
    let ca = chars_of(a);
    let cb = chars_of(b);
    if ca.len() != cb.len() {
        return false;
    }
    let r = occurs_at_exec(&ca, &cb, 0);
    proof {
        assert(ca@.subrange(0, cb@.len() as int) =~= ca@);
    }
    r
}


proof fn lemma_trim_end_prefix(x: Seq<char>)
    ensures
        trim_end_spec(x).len() <= x.len(),
        trim_end_spec(x) == x.take(trim_end_spec(x).len() as int),
        trim_end_spec(x).len() == 0 || !is_white_space(trim_end_spec(x).last()),
        trim_end_spec(trim_end_spec(x)) == trim_end_spec(x),
    decreases x.len(),
{
    if x.len() > 0 && is_white_space(x.last()) {
        lemma_trim_end_prefix(x.drop_last());
        let t = trim_end_spec(x.drop_last());
        assert(x.drop_last().take(t.len() as int) =~= x.take(t.len() as int));
    } else {
        assert(x.take(x.len() as int) =~= x);
    }
}

proof fn lemma_trim_start_shape(x: Seq<char>)
    ensures
        trim_start_spec(x).len() == 0 || !is_white_space(trim_start_spec(x)[0]),
    decreases x.len(),
{
    if x.len() > 0 && is_white_space(x[0]) {
        lemma_trim_start_shape(x.drop_first());
    }
}

/// Trimming twice is trimming once.
pub proof fn lemma_trim_idempotent(s: Seq<char>)
    ensures
        trim_spec(trim_spec(s)) == trim_spec(s),
{
    let a = trim_start_spec(s);
    let b = trim_end_spec(a);
    lemma_trim_start_shape(s);
    lemma_trim_end_prefix(a);
    if b.len() > 0 {
        assert(b[0] == a[0]);
    }
    assert(trim_start_spec(b) == b);
}

/// Replacing a text that does not occur leaves the string unchanged.
pub proof fn lemma_replace_absent(s: Seq<char>, from: Seq<char>, to: Seq<char>)
    requires
        from.len() > 0,
        forall|i: int| !occurs_at(s, from, i),
    ensures
        replace_spec(s, from, to) == s,
    decreases s.len(),
{
    if s.len() >= from.len() {
        assert(!occurs_at(s, from, 0));
        assert(s.take(from.len() as int) =~= s.subrange(0, from.len() as int));
        assert forall|i: int| !occurs_at(s.drop_first(), from, i) by {
            if occurs_at(s.drop_first(), from, i) {
                assert(s.drop_first().subrange(i, i + from.len()) =~= s.subrange(i + 1, i + 1 + from.len()));
                assert(occurs_at(s, from, i + 1));
            }
        }
        lemma_replace_absent(s.drop_first(), from, to);
        assert(seq![s[0]] + s.drop_first() =~= s);
    }
}

} // verus!
