//! Character-level text operations with their mathematical meaning.
//!
//! Every operation here works on the `Seq<char>` view of a string; the spec
//! functions say what the operation is, the exec functions compute it.
use vstd::prelude::*;

verus! {

// ---------------------------------------------------------------------------
// Specifications
// ---------------------------------------------------------------------------

/// The Unicode `White_Space` property, which is what `char::is_whitespace`
/// (and therefore `str::trim`) tests.
pub open spec fn is_white_space(c: char) -> bool {
    let u = c as u32;
    ||| 0x09 <= u <= 0x0d
    ||| u == 0x20
    ||| u == 0x85
    ||| u == 0xa0
    ||| u == 0x1680
    ||| 0x2000 <= u <= 0x200a
    ||| u == 0x2028
    ||| u == 0x2029
    ||| u == 0x202f
    ||| u == 0x205f
    ||| u == 0x3000
}

/// `s` without its leading white space.
pub open spec fn trim_start_spec(s: Seq<char>) -> Seq<char>
    decreases s.len(),
{
    if s.len() > 0 && is_white_space(s[0]) {
        trim_start_spec(s.drop_first())
    } else {
        s
    }
}

/// `s` without its trailing white space.
pub open spec fn trim_end_spec(s: Seq<char>) -> Seq<char>
    decreases s.len(),
{
    if s.len() > 0 && is_white_space(s.last()) {
        trim_end_spec(s.drop_last())
    } else {
        s
    }
}

/// `s` without leading and trailing white space (`str::trim`).
pub open spec fn trim_spec(s: Seq<char>) -> Seq<char> {
    trim_end_spec(trim_start_spec(s))
}

/// `s` without any leading occurrence of `c` (`str::trim_start_matches` with a char).
pub open spec fn strip_leading(s: Seq<char>, c: char) -> Seq<char>
    decreases s.len(),
{
    if s.len() > 0 && s[0] == c {
        strip_leading(s.drop_first(), c)
    } else {
        s
    }
}

/// `s` without any trailing occurrence of `c` (`str::trim_end_matches` with a char).
pub open spec fn strip_trailing(s: Seq<char>, c: char) -> Seq<char>
    decreases s.len(),
{
    if s.len() > 0 && s.last() == c {
        strip_trailing(s.drop_last(), c)
    } else {
        s
    }
}

/// `pat` occurs in `s` starting at index `i`.
pub open spec fn occurs_at(s: Seq<char>, pat: Seq<char>, i: int) -> bool {
    0 <= i && i + pat.len() <= s.len() && s.subrange(i, i + pat.len()) == pat
}

/// The first index at or after `from` where `pat` occurs in `s`.
pub open spec fn find_from(s: Seq<char>, pat: Seq<char>, from: int) -> Option<int>
    decreases s.len() + 1 - from,
{
    if from < 0 || from + pat.len() > s.len() {
        None
    } else if occurs_at(s, pat, from) {
        Some(from)
    } else {
        find_from(s, pat, from + 1)
    }
}

/// The first index where `pat` occurs in `s` (`str::find`).
pub open spec fn find_spec(s: Seq<char>, pat: Seq<char>) -> Option<int> {
    find_from(s, pat, 0)
}

/// The first index where the character `c` occurs in `s`.
pub open spec fn find_char(s: Seq<char>, c: char) -> Option<int> {
    find_spec(s, seq![c])
}

/// The part of `s` before the first `c`, or all of `s` when there is none
/// (the first item of `str::split` by a char).
pub open spec fn before_char(s: Seq<char>, c: char) -> Seq<char> {
    match find_char(s, c) {
        Some(i) => s.take(i),
        None => s,
    }
}

/// The pieces of `s` between occurrences of `c`, empty pieces included (`str::split`).
pub open spec fn split_spec(s: Seq<char>, c: char) -> Seq<Seq<char>>
    decreases s.len(),
{
    match find_char(s, c) {
        Some(i) => if 0 <= i < s.len() {
            seq![s.take(i)] + split_spec(s.skip(i + 1), c)
        } else {
            seq![s]
        },
        None => seq![s],
    }
}

/// `str::replace` with an empty pattern: `rep` before every character and at the end.
pub open spec fn replace_empty(s: Seq<char>, rep: Seq<char>) -> Seq<char>
    decreases s.len(),
{
    if s.len() == 0 {
        rep
    } else {
        rep + seq![s[0]] + replace_empty(s.drop_first(), rep)
    }
}

/// `str::replace`: every non-overlapping occurrence of `pat`, taken from left
/// to right, replaced by `rep`.
pub open spec fn replace_spec(s: Seq<char>, pat: Seq<char>, rep: Seq<char>) -> Seq<char>
    decreases s.len(),
{
    if pat.len() == 0 {
        replace_empty(s, rep)
    } else if s.len() == 0 {
        s
    } else if pat.len() <= s.len() && s.take(pat.len() as int) == pat {
        rep + replace_spec(s.skip(pat.len() as int), pat, rep)
    } else {
        seq![s[0]] + replace_spec(s.skip(1), pat, rep)
    }
}

/// The views of a sequence of strings.
pub open spec fn views(v: Seq<String>) -> Seq<Seq<char>> {
    v.map_values(|s: String| s@)
}

// ---------------------------------------------------------------------------
// Lemmas
// ---------------------------------------------------------------------------

proof fn lemma_trim_start_skip(s: Seq<char>, i: int)
    requires
        0 <= i <= s.len(),
        forall|k: int| 0 <= k < i ==> is_white_space(#[trigger] s[k]),
        i == s.len() || !is_white_space(s[i]),
    ensures
        trim_start_spec(s) == s.skip(i),
    decreases i,
{
    if i == 0 {
        assert(s.skip(0) =~= s);
    } else {
        let t = s.drop_first();
        assert forall|k: int| 0 <= k < i - 1 implies is_white_space(#[trigger] t[k]) by {
            assert(t[k] == s[k + 1]);
        }
        lemma_trim_start_skip(t, i - 1);
        assert(t.skip(i - 1) =~= s.skip(i));
    }
}

proof fn lemma_trim_end_take(s: Seq<char>, j: int)
    requires
        0 <= j <= s.len(),
        forall|k: int| j <= k < s.len() ==> is_white_space(#[trigger] s[k]),
        j == 0 || !is_white_space(s[j - 1]),
    ensures
        trim_end_spec(s) == s.take(j),
    decreases s.len() - j,
{
    if j == s.len() {
        assert(s.take(j) =~= s);
    } else {
        let t = s.drop_last();
        assert forall|k: int| j <= k < t.len() implies is_white_space(#[trigger] t[k]) by {
            assert(t[k] == s[k]);
        }
        lemma_trim_end_take(t, j);
        assert(t.take(j) =~= s.take(j));
    }
}

proof fn lemma_strip_leading_skip(s: Seq<char>, c: char, i: int)
    requires
        0 <= i <= s.len(),
        forall|k: int| 0 <= k < i ==> #[trigger] s[k] == c,
        i == s.len() || s[i] != c,
    ensures
        strip_leading(s, c) == s.skip(i),
    decreases i,
{
    if i == 0 {
        assert(s.skip(0) =~= s);
    } else {
        let t = s.drop_first();
        assert forall|k: int| 0 <= k < i - 1 implies #[trigger] t[k] == c by {
            assert(t[k] == s[k + 1]);
        }
        lemma_strip_leading_skip(t, c, i - 1);
        assert(t.skip(i - 1) =~= s.skip(i));
    }
}

proof fn lemma_strip_trailing_take(s: Seq<char>, c: char, j: int)
    requires
        0 <= j <= s.len(),
        forall|k: int| j <= k < s.len() ==> #[trigger] s[k] == c,
        j == 0 || s[j - 1] != c,
    ensures
        strip_trailing(s, c) == s.take(j),
    decreases s.len() - j,
{
    if j == s.len() {
        assert(s.take(j) =~= s);
    } else {
        let t = s.drop_last();
        assert forall|k: int| j <= k < t.len() implies #[trigger] t[k] == c by {
            assert(t[k] == s[k]);
        }
        lemma_strip_trailing_take(t, c, j);
        assert(t.take(j) =~= s.take(j));
    }
}

/// Searching from `from` finds the first match at or after `from`.
pub proof fn lemma_find_from(s: Seq<char>, pat: Seq<char>, from: int, i: int)
    requires
        0 <= from <= i,
        forall|k: int| from <= k < i ==> !occurs_at(s, pat, k),
        occurs_at(s, pat, i) || i + pat.len() > s.len(),
    ensures
        find_from(s, pat, from) == (if occurs_at(s, pat, i) { Some(i) } else { None::<int> }),
    decreases i - from,
{
    if from < i {
        assert(!occurs_at(s, pat, from));
        lemma_find_from(s, pat, from + 1, i);
    }
}

/// What `find_from` returns is a match, and no earlier index at or after `from` is one.
pub proof fn lemma_find_from_result(s: Seq<char>, pat: Seq<char>, from: int)
    requires
        0 <= from,
    ensures
        match find_from(s, pat, from) {
            Some(i) => from <= i && occurs_at(s, pat, i) && forall|k: int|
                from <= k < i ==> !occurs_at(s, pat, k),
            None => forall|k: int| from <= k ==> !occurs_at(s, pat, k),
        },
    decreases s.len() + 1 - from,
{
    if from + pat.len() > s.len() {
    } else if occurs_at(s, pat, from) {
    } else {
        lemma_find_from_result(s, pat, from + 1);
    }
}

proof fn lemma_replace_empty_push(s: Seq<char>, rep: Seq<char>, c: char)
    ensures
        replace_empty(s.push(c), rep) == replace_empty(s, rep) + seq![c] + rep,
    decreases s.len(),
{
    if s.len() == 0 {
        assert(s.push(c).drop_first() =~= Seq::<char>::empty());
        assert(replace_empty(Seq::<char>::empty(), rep) == rep);
        assert(replace_empty(s, rep) == rep);
        assert(replace_empty(s.push(c), rep) =~= rep + seq![c] + rep);
    } else {
        assert(s.push(c).drop_first() =~= s.drop_first().push(c));
        lemma_replace_empty_push(s.drop_first(), rep, c);
        assert(replace_empty(s.push(c), rep) =~= replace_empty(s, rep) + seq![c] + rep);
    }
}

proof fn lemma_trim_start_head(s: Seq<char>)
    ensures
        trim_start_spec(s).len() == 0 || !is_white_space(trim_start_spec(s)[0]),
    decreases s.len(),
{
    if s.len() > 0 && is_white_space(s[0]) {
        lemma_trim_start_head(s.drop_first());
    }
}

proof fn lemma_trim_end_prefix(s: Seq<char>)
    ensures
        trim_end_spec(s).len() <= s.len(),
        trim_end_spec(s) == s.take(trim_end_spec(s).len() as int),
        trim_end_spec(s).len() == 0 || !is_white_space(trim_end_spec(s).last()),
    decreases s.len(),
{
    if s.len() > 0 && is_white_space(s.last()) {
        lemma_trim_end_prefix(s.drop_last());
        let t = trim_end_spec(s.drop_last());
        assert(s.drop_last().take(t.len() as int) =~= s.take(t.len() as int));
    } else {
        assert(s.take(s.len() as int) =~= s);
    }
}

/// Trimming twice is trimming once.
pub proof fn lemma_trim_idempotent(s: Seq<char>)
    ensures
        trim_spec(trim_spec(s)) == trim_spec(s),
{
    let u = trim_start_spec(s);
    lemma_trim_start_head(s);
    lemma_trim_end_prefix(u);
    let w = trim_end_spec(u);
    if w.len() > 0 {
        assert(w[0] == u[0]);
        assert(!is_white_space(w[0]));
    }
    assert(trim_start_spec(w) == w);
    assert(trim_end_spec(w) == w);
}

// ---------------------------------------------------------------------------
// Executable operations
// ---------------------------------------------------------------------------

/// Appends one character to a string.
/// Wraps `String::push`, whose documentation says it appends the given char
/// to the end of the string; the contract says exactly that of the view.
#[verifier::external_body]
fn push_char(s: &mut String, c: char)
    ensures
        final(s)@ == old(s)@.push(c),
{
    s.push(c);
}

/// The characters of `s`, in order.
pub fn chars_of(s: &str) -> (v: Vec<char>)
    ensures
        v@ == s@,
{
    let mut v: Vec<char> = Vec::new();
    for c in it: s.chars()
        invariant
            it.seq() == s@,
            v@ == it.seq().take(it.index() as int),
    {
        v.push(c);
    }
    v
}

/// The string made of the characters `v[from..to]`.
pub fn string_from_range(v: &Vec<char>, from: usize, to: usize) -> (s: String)
    requires
        from <= to <= v.len(),
    ensures
        s@ == v@.subrange(from as int, to as int),
{
    let mut s = String::new();
    let mut i = from;
    while i < to
        invariant
            from <= i <= to <= v.len(),
            s@ == v@.subrange(from as int, i as int),
        decreases to - i,
    {
        push_char(&mut s, v[i]);
        assert(v@.subrange(from as int, i + 1) =~= v@.subrange(from as int, i as int).push(v@[i as int]));
        i = i + 1;
    }
    s
}

/// The string made of the characters of `v`.
pub fn string_from_chars(v: &Vec<char>) -> (s: String)
    ensures
        s@ == v@,
{
    let s = string_from_range(v, 0, v.len());
    assert(v@.subrange(0, v@.len() as int) =~= v@);
    s
}

/// Appends the characters of `t` to `s`.
pub fn append_chars(s: &mut String, t: &Vec<char>)
    ensures
        final(s)@ == old(s)@ + t@,
{
    let mut i: usize = 0;
    while i < t.len()
        invariant
            i <= t.len(),
            s@ == old(s)@ + t@.take(i as int),
        decreases t.len() - i,
    {
        push_char(s, t[i]);
        assert(t@.take(i + 1) =~= t@.take(i as int).push(t@[i as int]));
        i = i + 1;
    }
    assert(t@.take(t.len() as int) =~= t@);
}

/// Whether `c` has the Unicode `White_Space` property.
pub fn white_space(c: char) -> (b: bool)
    ensures
        b == is_white_space(c),
{
    let u = c as u32;
    (0x09 <= u && u <= 0x0d) || u == 0x20 || u == 0x85 || u == 0xa0 || u == 0x1680 || (0x2000
        <= u && u <= 0x200a) || u == 0x2028 || u == 0x2029 || u == 0x202f || u == 0x205f || u
        == 0x3000
}

/// `s` without leading and trailing white space (`str::trim`).
pub fn trim(s: &str) -> (t: String)
    ensures
        t@ == trim_spec(s@),
{
    let v = chars_of(s);
    let n = v.len();
    let mut i: usize = 0;
    while i < n && white_space(v[i])
        invariant
            n == v.len(),
            i <= n,
            forall|k: int| 0 <= k < i ==> is_white_space(#[trigger] v@[k]),
        decreases n - i,
    {
        i = i + 1;
    }
    proof {
        lemma_trim_start_skip(v@, i as int);
    }
    let mut j: usize = n;
    while j > i && white_space(v[j - 1])
        invariant
            n == v.len(),
            i <= j <= n,
            forall|k: int| j <= k < n ==> is_white_space(#[trigger] v@[k]),
        decreases j,
    {
        j = j - 1;
    }
    proof {
        let u = v@.skip(i as int);
        assert forall|k: int| j - i <= k < u.len() implies is_white_space(#[trigger] u[k]) by {
            assert(u[k] == v@[k + i]);
        }
        if j > i {
            assert(u[j - i - 1] == v@[j - 1]);
        }
        lemma_trim_end_take(u, j - i);
        assert(u.take(j - i) =~= v@.subrange(i as int, j as int));
    }
    string_from_range(&v, i, j)
}

/// `s` without any leading `c` (`str::trim_start_matches` with a char).
pub fn trim_start_char(s: &str, c: char) -> (t: String)
    ensures
        t@ == strip_leading(s@, c),
{
    let v = chars_of(s);
    let n = v.len();
    let mut i: usize = 0;
    while i < n && v[i] == c
        invariant
            n == v.len(),
            i <= n,
            forall|k: int| 0 <= k < i ==> #[trigger] v@[k] == c,
        decreases n - i,
    {
        i = i + 1;
    }
    proof {
        lemma_strip_leading_skip(v@, c, i as int);
        assert(v@.skip(i as int) =~= v@.subrange(i as int, n as int));
    }
    string_from_range(&v, i, n)
}

/// `s` without any trailing `c` (`str::trim_end_matches` with a char).
pub fn trim_end_char(s: &str, c: char) -> (t: String)
    ensures
        t@ == strip_trailing(s@, c),
{
    let v = chars_of(s);
    let n = v.len();
    let mut j: usize = n;
    while j > 0 && v[j - 1] == c
        invariant
            n == v.len(),
            j <= n,
            forall|k: int| j <= k < n ==> #[trigger] v@[k] == c,
        decreases j,
    {
        j = j - 1;
    }
    proof {
        lemma_strip_trailing_take(v@, c, j as int);
        assert(v@.take(j as int) =~= v@.subrange(0, j as int));
    }
    string_from_range(&v, 0, j)
}

/// Whether `pat` occurs in `v` at index `i`.
pub fn occurs_at_exec(v: &Vec<char>, pat: &Vec<char>, i: usize) -> (b: bool)
    ensures
        b == occurs_at(v@, pat@, i as int),
{
    if i > v.len() || pat.len() > v.len() - i {
        return false;
    }
    let mut k: usize = 0;
    while k < pat.len()
        invariant
            i + pat.len() <= v.len(),
            k <= pat.len(),
            forall|m: int| 0 <= m < k ==> v@[i + m] == pat@[m],
        decreases pat.len() - k,
    {
        if v[i + k] != pat[k] {
            assert(v@.subrange(i as int, i + pat.len())[k as int] != pat@[k as int]);
            return false;
        }
        k = k + 1;
    }
    assert(v@.subrange(i as int, i + pat.len()) =~= pat@);
    true
}

/// The first index where `pat` occurs in `v` (`str::find`).
pub fn find_exec(v: &Vec<char>, pat: &Vec<char>) -> (r: Option<usize>)
    ensures
        r matches Some(i) ==> find_spec(v@, pat@) == Some(i as int),
        r is None ==> find_spec(v@, pat@) is None,
{
    if pat.len() == 0 {
        proof {
            assert(v@.subrange(0, 0) =~= pat@);
            lemma_find_from(v@, pat@, 0, 0);
        }
        return Some(0);
    }
    if pat.len() > v.len() {
        proof {
            lemma_find_from(v@, pat@, 0, 0);
        }
        return None;
    }
    let last = v.len() - pat.len();
    let mut i: usize = 0;
    while i <= last
        invariant
            last == v.len() - pat.len(),
            pat.len() >= 1,
            forall|k: int| 0 <= k < i ==> !occurs_at(v@, pat@, k),
        decreases last + 1 - i,
    {
        if occurs_at_exec(v, pat, i) {
            proof {
                lemma_find_from(v@, pat@, 0, i as int);
            }
            return Some(i);
        }
        i = i + 1;
    }
    proof {
        lemma_find_from(v@, pat@, 0, i as int);
    }
    None
}

/// The first index of the character `c` in `v`.
pub fn find_char_exec(v: &Vec<char>, c: char) -> (r: Option<usize>)
    ensures
        r matches Some(i) ==> find_char(v@, c) == Some(i as int) && i < v.len() && v@[i as int]
            == c,
        r is None ==> find_char(v@, c) is None,
{
    let mut pat: Vec<char> = Vec::new();
    pat.push(c);
    assert(pat@ =~= seq![c]);
    let r = find_exec(v, &pat);
    proof {
        lemma_find_from_result(v@, seq![c], 0);
        if let Some(i) = r {
            assert(v@.subrange(i as int, i + 1)[0] == v@[i as int]);
        }
    }
    r
}

/// The characters `v[from..to]`.
pub fn subvec(v: &Vec<char>, from: usize, to: usize) -> (r: Vec<char>)
    requires
        from <= to <= v.len(),
    ensures
        r@ == v@.subrange(from as int, to as int),
{
    let mut r: Vec<char> = Vec::new();
    let mut i = from;
    while i < to
        invariant
            from <= i <= to <= v.len(),
            r@ == v@.subrange(from as int, i as int),
        decreases to - i,
    {
        r.push(v[i]);
        assert(r@ =~= v@.subrange(from as int, i + 1));
        i = i + 1;
    }
    r
}

/// The part of `v` before the first `c`, or all of `v` (the first item of `str::split`).
pub fn before_char_exec(v: &Vec<char>, c: char) -> (r: Vec<char>)
    ensures
        r@ == before_char(v@, c),
{
    match find_char_exec(v, c) {
        Some(i) => {
            let r = subvec(v, 0, i);
            assert(r@ =~= v@.take(i as int));
            r
        },
        None => subvec_all(v),
    }
}

/// A copy of `v`.
pub fn subvec_all(v: &Vec<char>) -> (r: Vec<char>)
    ensures
        r@ == v@,
{
    let r = subvec(v, 0, v.len());
    assert(r@ =~= v@);
    r
}

/// `s` with every occurrence of `pat` replaced by `rep` (`str::replace`).
pub fn replace(s: &str, pat: &str, rep: &str) -> (r: String)
    ensures
        r@ == replace_spec(s@, pat@, rep@),
{
    let v = chars_of(s);
    let p = chars_of(pat);
    let q = chars_of(rep);
    let n = v.len();
    let mut out = String::new();
    if p.len() == 0 {
        append_chars(&mut out, &q);
        let mut i: usize = 0;
        while i < n
            invariant
                n == v.len(),
                i <= n,
                out@ == replace_empty(v@.take(i as int), q@),
            decreases n - i,
        {
            let c = v[i];
            proof {
                assert(v@.take(i + 1) =~= v@.take(i as int).push(c));
                lemma_replace_empty_push(v@.take(i as int), q@, c);
            }
            push_char(&mut out, c);
            append_chars(&mut out, &q);
            assert(out@ =~= replace_empty(v@.take(i as int), q@) + seq![c] + q@);
            i = i + 1;
        }
        assert(v@.take(n as int) =~= v@);
        return out;
    }
    let mut i: usize = 0;
    assert(v@.skip(0) =~= v@);
    assert(out@ + replace_spec(v@.skip(0), p@, q@) =~= replace_spec(v@, p@, q@));
    while i < n
        invariant
            n == v.len(),
            p.len() > 0,
            i <= n,
            out@ + replace_spec(v@.skip(i as int), p@, q@) == replace_spec(v@, p@, q@),
        decreases n - i,
    {
        let ghost t = v@.skip(i as int);
        if occurs_at_exec(&v, &p, i) {
            proof {
                assert(t.take(p@.len() as int) =~= v@.subrange(i as int, i + p@.len()));
                assert(t.skip(p@.len() as int) =~= v@.skip(i + p@.len()));
                assert(out@ + q@ + replace_spec(v@.skip(i + p@.len()), p@, q@) =~= out@
                    + replace_spec(t, p@, q@));
            }
            append_chars(&mut out, &q);
            i = i + p.len();
        } else {
            proof {
                if p@.len() <= t.len() {
                    assert(t.take(p@.len() as int) =~= v@.subrange(i as int, i + p@.len()));
                }
                assert(t.skip(1) =~= v@.skip(i + 1));
                assert(t[0] == v@[i as int]);
                assert(out@.push(v@[i as int]) + replace_spec(v@.skip(i + 1), p@, q@) =~= out@
                    + replace_spec(t, p@, q@));
            }
            push_char(&mut out, v[i]);
            i = i + 1;
        }
    }
    proof {
        assert(v@.skip(n as int) =~= Seq::<char>::empty());
        assert(out@ + Seq::<char>::empty() =~= out@);
    }
    out
}

} // verus!
