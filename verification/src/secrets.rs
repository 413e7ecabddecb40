//! Collecting the secrets of a profile and masking them in messages.
use vstd::prelude::*;

use crate::text::{before_char_exec, chars_of, find_char_exec, find_exec, string_from_chars, subvec, trim};

verus! {

/// The view of an optional string.
pub open spec fn opt_view(value: Option<&str>) -> Option<Seq<char>> {
    match value {
        Some(v) => Some(v@),
        None => None,
    }
}

/// What `push_sensitive` makes of the list: the trimmed value is appended
/// when it is non-empty and not already listed.
pub open spec fn sensitive_push(values: Seq<Seq<char>>, value: Option<Seq<char>>) -> Seq<Seq<char>> {
    match value {
        Some(v) => {
            let t = crate::text::trim_spec(v);
            if t.len() > 0 && !values.contains(t) {
                values.push(t)
            } else {
                values
            }
        },
        None => values,
    }
}

/// `sensitive_push` of each part in turn.
pub open spec fn sensitive_push_all(values: Seq<Seq<char>>, parts: Seq<Seq<char>>) -> Seq<Seq<char>>
    decreases parts.len(),
{
    if parts.len() == 0 {
        values
    } else {
        sensitive_push_all(sensitive_push(values, Some(parts[0])), parts.drop_first())
    }
}

/// The user-information part of a URL as the connector reads it: after the
/// first `://`, up to the first `/`, and of that up to the first `@`.
pub open spec fn url_auth_part(url: Seq<char>) -> Option<Seq<char>> {
    match crate::text::find_spec(url, "://"@) {
        Some(i) => Some(
            crate::text::before_char(crate::text::before_char(url.skip(i + 3), '/'), '@'),
        ),
        None => None,
    }
}

/// What `collect_url_auth` makes of the list: when the user-information part
/// holds a `:`, each `:`-separated piece of it is pushed as a secret.
pub open spec fn url_auth_push(url: Seq<char>, values: Seq<Seq<char>>) -> Seq<Seq<char>> {
    match url_auth_part(url) {
        Some(auth) => if crate::text::find_char(auth, ':') is Some {
            sensitive_push_all(values, crate::text::split_spec(auth, ':'))
        } else {
            values
        },
        None => values,
    }
}

/// A list of secrets fit for masking: each is non-empty and trimmed, and no
/// two are equal.
pub open spec fn clean_secrets(values: Seq<Seq<char>>) -> bool {
    &&& forall|i: int|
        0 <= i < values.len() ==> (#[trigger] values[i]).len() > 0 && crate::text::trim_spec(
            values[i],
        ) == values[i]
    &&& forall|i: int, j: int|
        0 <= i < j < values.len() ==> #[trigger] values[i] != #[trigger] values[j]
}

/// The mask that stands for a secret.
pub open spec fn secret_mask() -> Seq<char> {
    "****"@
}

/// The text that stands for the server URL.
pub open spec fn url_mask() -> Seq<char> {
    "<arangodb-url>"@
}

/// `message` with every occurrence of a non-empty `secret` masked.
pub open spec fn mask_secret(message: Seq<char>, secret: Seq<char>) -> Seq<char> {
    if secret.len() == 0 {
        message
    } else {
        crate::text::replace_spec(message, secret, secret_mask())
    }
}

/// `message` with the secrets masked one after the other, in list order.
pub open spec fn mask_secrets(message: Seq<char>, secrets: Seq<Seq<char>>) -> Seq<char>
    decreases secrets.len(),
{
    if secrets.len() == 0 {
        message
    } else {
        mask_secrets(mask_secret(message, secrets[0]), secrets.drop_first())
    }
}

/// A redacted message: the server URL replaced by a placeholder, then every
/// secret masked.
pub open spec fn redact_spec(message: Seq<char>, base_url: Seq<char>, secrets: Seq<Seq<char>>) -> Seq<char> {
    mask_secrets(crate::text::replace_spec(message, base_url, url_mask()), secrets)
}

/// No character of `a` is a character of `b`.
pub open spec fn shares_no_char(a: Seq<char>, b: Seq<char>) -> bool {
    forall|x: int, y: int| 0 <= x < a.len() && 0 <= y < b.len() ==> a[x] != b[y]
}

// ---------------------------------------------------------------------------
// Lemmas on replacement
// ---------------------------------------------------------------------------

/// A prefix of a replacement result that holds no character of `rep` was
/// copied unchanged from the input.
proof fn lemma_replace_copied_prefix(s: Seq<char>, pat: Seq<char>, rep: Seq<char>, k: int)
    requires
        pat.len() > 0,
        rep.len() > 0,
        0 <= k <= crate::text::replace_spec(s, pat, rep).len(),
        shares_no_char(crate::text::replace_spec(s, pat, rep).take(k), rep),
    ensures
        k <= s.len(),
        crate::text::replace_spec(s, pat, rep).take(k) == s.take(k),
    decreases s.len(),
{
    let out = crate::text::replace_spec(s, pat, rep);
    if k == 0 {
        assert(out.take(0) =~= s.take(0));
    } else if s.len() == 0 {
    } else if pat.len() <= s.len() && s.take(pat.len() as int) == pat {
        assert(out.take(k)[0] == rep[0]);
    } else {
        let r = crate::text::replace_spec(s.skip(1), pat, rep);
        assert(out == seq![s[0]] + r);
        assert(shares_no_char(r.take(k - 1), rep)) by {
            assert forall|x: int, y: int|
                0 <= x < r.take(k - 1).len() && 0 <= y < rep.len() implies #[trigger] r.take(k - 1)[x]
                != #[trigger] rep[y] by {
                assert(r.take(k - 1)[x] == out.take(k)[x + 1]);
            }
        }
        lemma_replace_copied_prefix(s.skip(1), pat, rep, k - 1);
        assert(out.take(k) =~= seq![s[0]] + r.take(k - 1));
        assert(s.take(k) =~= seq![s[0]] + s.skip(1).take(k - 1));
    }
}

proof fn lemma_occurs_shift(s: Seq<char>, o: Seq<char>, n: int, j: int)
    requires
        0 <= n <= s.len(),
        crate::text::occurs_at(s.skip(n), o, j),
    ensures
        crate::text::occurs_at(s, o, j + n),
{
    assert(s.skip(n).subrange(j, j + o.len()) =~= s.subrange(j + n, j + n + o.len()));
}

proof fn lemma_occurs_in_concat(a: Seq<char>, b: Seq<char>, o: Seq<char>, i: int)
    requires
        o.len() > 0,
        crate::text::occurs_at(a + b, o, i),
    ensures
        i < a.len() ==> (a + b)[i] == o[0],
        i >= a.len() ==> crate::text::occurs_at(b, o, i - a.len()),
{
    assert((a + b).subrange(i, i + o.len())[0] == (a + b)[i]);
    if i >= a.len() {
        assert((a + b).subrange(i, i + o.len()) =~= b.subrange(i - a.len(), i - a.len() + o.len()));
    }
}

/// When `pat` shares no character with a non-empty `rep`, no occurrence of
/// `pat` is left after replacing it by `rep`.
pub proof fn lemma_replace_leaves_no_match(s: Seq<char>, pat: Seq<char>, rep: Seq<char>)
    requires
        pat.len() > 0,
        rep.len() > 0,
        shares_no_char(pat, rep),
    ensures
        forall|i: int| !crate::text::occurs_at(crate::text::replace_spec(s, pat, rep), pat, i),
    decreases s.len(),
{
    let out = crate::text::replace_spec(s, pat, rep);
    assert forall|i: int| !crate::text::occurs_at(out, pat, i) by {
        if crate::text::occurs_at(out, pat, i) {
            if s.len() == 0 {
            } else if pat.len() <= s.len() && s.take(pat.len() as int) == pat {
                let r = crate::text::replace_spec(s.skip(pat.len() as int), pat, rep);
                assert(out == rep + r);
                lemma_occurs_in_concat(rep, r, pat, i);
                if i >= rep.len() {
                    lemma_replace_leaves_no_match(s.skip(pat.len() as int), pat, rep);
                } else {
                    assert(rep[i] == pat[0]);
                }
            } else {
                let r = crate::text::replace_spec(s.skip(1), pat, rep);
                assert(out == seq![s[0]] + r);
                lemma_occurs_in_concat(seq![s[0]], r, pat, i);
                if i >= 1 {
                    lemma_replace_leaves_no_match(s.skip(1), pat, rep);
                } else {
                    let m = pat.len() as int;
                    assert(out.subrange(0, m) == pat);
                    assert(out.take(m) =~= out.subrange(0, m));
                    lemma_replace_copied_prefix(s, pat, rep, m);
                    assert(s.take(m) == pat);
                }
            }
        }
    }
}

/// When `o` shares no character with a non-empty `rep` and does not occur
/// in `s`, it does not occur after replacing `pat` by `rep` either.
pub proof fn lemma_replace_keeps_absence(s: Seq<char>, pat: Seq<char>, rep: Seq<char>, o: Seq<char>)
    requires
        pat.len() > 0,
        rep.len() > 0,
        o.len() > 0,
        shares_no_char(o, rep),
        forall|i: int| !crate::text::occurs_at(s, o, i),
    ensures
        forall|i: int| !crate::text::occurs_at(crate::text::replace_spec(s, pat, rep), o, i),
    decreases s.len(),
{
    let out = crate::text::replace_spec(s, pat, rep);
    assert forall|i: int| !crate::text::occurs_at(out, o, i) by {
        if crate::text::occurs_at(out, o, i) {
            if s.len() == 0 {
            } else if pat.len() <= s.len() && s.take(pat.len() as int) == pat {
                let n = pat.len() as int;
                let r = crate::text::replace_spec(s.skip(n), pat, rep);
                assert(out == rep + r);
                lemma_occurs_in_concat(rep, r, o, i);
                if i >= rep.len() {
                    assert forall|j: int| !crate::text::occurs_at(s.skip(n), o, j) by {
                        if crate::text::occurs_at(s.skip(n), o, j) {
                            lemma_occurs_shift(s, o, n, j);
                        }
                    }
                    lemma_replace_keeps_absence(s.skip(n), pat, rep, o);
                } else {
                    assert(rep[i] == o[0]);
                }
            } else {
                let r = crate::text::replace_spec(s.skip(1), pat, rep);
                assert(out == seq![s[0]] + r);
                lemma_occurs_in_concat(seq![s[0]], r, o, i);
                if i >= 1 {
                    assert forall|j: int| !crate::text::occurs_at(s.skip(1), o, j) by {
                        if crate::text::occurs_at(s.skip(1), o, j) {
                            lemma_occurs_shift(s, o, 1, j);
                        }
                    }
                    lemma_replace_keeps_absence(s.skip(1), pat, rep, o);
                } else {
                    let m = o.len() as int;
                    assert(out.take(m) =~= out.subrange(0, m));
                    lemma_replace_copied_prefix(s, pat, rep, m);
                    assert(s.subrange(0, m) =~= s.take(m));
                    assert(crate::text::occurs_at(s, o, 0));
                }
            }
        }
    }
}

proof fn lemma_mask_chars()
    ensures
        secret_mask().len() == 4,
        forall|y: int| 0 <= y < secret_mask().len() ==> #[trigger] secret_mask()[y] == '*',
{
    reveal_strlit("****");
}

/// Masking keeps away a secret that is already absent.
proof fn lemma_masks_keep_absence(message: Seq<char>, secrets: Seq<Seq<char>>, o: Seq<char>)
    requires
        o.len() > 0,
        !o.contains('*'),
        forall|i: int| !crate::text::occurs_at(message, o, i),
    ensures
        forall|i: int| !crate::text::occurs_at(mask_secrets(message, secrets), o, i),
    decreases secrets.len(),
{
    if secrets.len() > 0 {
        lemma_mask_chars();
        let next = mask_secret(message, secrets[0]);
        if secrets[0].len() > 0 {
            assert(shares_no_char(o, secret_mask())) by {
                assert forall|x: int, y: int|
                    0 <= x < o.len() && 0 <= y < secret_mask().len() implies o[x]
                    != secret_mask()[y] by {
                    if o[x] == '*' {
                        assert(o.contains('*'));
                    }
                }
            }
            lemma_replace_keeps_absence(message, secrets[0], secret_mask(), o);
        }
        lemma_masks_keep_absence(next, secrets.drop_first(), o);
        assert(mask_secrets(message, secrets) == mask_secrets(next, secrets.drop_first()));
    }
}

/// Masking a list of secrets leaves no occurrence of any non-empty listed
/// secret that holds no `*`.
pub proof fn lemma_masks_hide_secret(message: Seq<char>, secrets: Seq<Seq<char>>, k: int)
    requires
        0 <= k < secrets.len(),
        secrets[k].len() > 0,
        !secrets[k].contains('*'),
    ensures
        forall|i: int| !crate::text::occurs_at(mask_secrets(message, secrets), secrets[k], i),
    decreases secrets.len(),
{
    lemma_mask_chars();
    let o = secrets[k];
    let next = mask_secret(message, secrets[0]);
    if k == 0 {
        assert(shares_no_char(o, secret_mask())) by {
            assert forall|x: int, y: int|
                0 <= x < o.len() && 0 <= y < secret_mask().len() implies o[x] != secret_mask()[y] by {
                if o[x] == '*' {
                    assert(o.contains('*'));
                }
            }
        }
        lemma_replace_leaves_no_match(message, o, secret_mask());
        lemma_masks_keep_absence(next, secrets.drop_first(), o);
    } else {
        assert(secrets.drop_first()[k - 1] == o);
        lemma_masks_hide_secret(next, secrets.drop_first(), k - 1);
    }
    assert(mask_secrets(message, secrets) == mask_secrets(next, secrets.drop_first()));
}

/// Law of redaction: a redacted message holds no occurrence of any
/// non-empty listed secret that holds no `*`, wherever it stood in the
/// message or in the server URL.
pub proof fn lemma_redaction_hides_secrets(
    message: Seq<char>,
    base_url: Seq<char>,
    secrets: Seq<Seq<char>>,
    k: int,
)
    requires
        0 <= k < secrets.len(),
        secrets[k].len() > 0,
        !secrets[k].contains('*'),
    ensures
        forall|i: int| !crate::text::occurs_at(redact_spec(message, base_url, secrets), secrets[k], i),
{
    lemma_masks_hide_secret(crate::text::replace_spec(message, base_url, url_mask()), secrets, k);
}

/// Pushing a secret keeps a clean list clean.
pub proof fn lemma_sensitive_push_clean(values: Seq<Seq<char>>, value: Option<Seq<char>>)
    requires
        clean_secrets(values),
    ensures
        clean_secrets(sensitive_push(values, value)),
{
    if let Some(v) = value {
        let t = crate::text::trim_spec(v);
        crate::text::lemma_trim_idempotent(v);
        if t.len() > 0 && !values.contains(t) {
            let w = values.push(t);
            assert forall|i: int, j: int| 0 <= i < j < w.len() implies #[trigger] w[i] != #[trigger] w[j] by {
                if j == values.len() {
                    if w[i] == w[j] {
                        assert(values[i] == t);
                        assert(values.contains(t));
                    }
                }
            }
        }
    }
}

/// Recording the same value twice records it once.
pub proof fn lemma_sensitive_push_idempotent(values: Seq<Seq<char>>, value: Option<Seq<char>>)
    ensures
        sensitive_push(sensitive_push(values, value), value) == sensitive_push(values, value),
{
    if let Some(v) = value {
        let t = crate::text::trim_spec(v);
        if t.len() > 0 && !values.contains(t) {
            assert(values.push(t)[values.len() as int] == t);
        }
    }
}

/// Pushing several secrets keeps a clean list clean.
pub proof fn lemma_sensitive_push_all_clean(values: Seq<Seq<char>>, parts: Seq<Seq<char>>)
    requires
        clean_secrets(values),
    ensures
        clean_secrets(sensitive_push_all(values, parts)),
    decreases parts.len(),
{
    if parts.len() > 0 {
        lemma_sensitive_push_clean(values, Some(parts[0]));
        lemma_sensitive_push_all_clean(sensitive_push(values, Some(parts[0])), parts.drop_first());
    }
}

// ---------------------------------------------------------------------------
// Executable functions
// ---------------------------------------------------------------------------

/// Records `value`, trimmed, as a secret unless it is missing, blank or
/// already listed.
pub fn push_sensitive(values: &mut Vec<String>, value: Option<&str>)
    ensures
        crate::text::views(final(values)@) == sensitive_push(
            crate::text::views(old(values)@),
            opt_view(value),
        ),
        clean_secrets(crate::text::views(old(values)@)) ==> clean_secrets(
            crate::text::views(final(values)@),
        ),
{
    proof {
        if clean_secrets(crate::text::views(old(values)@)) {
            lemma_sensitive_push_clean(crate::text::views(old(values)@), opt_view(value));
        }
    }
    if let Some(v) = value {
        let t = trim(v);
        if t.as_str().is_empty() {
            return;
        }
        let ghost vs = crate::text::views(values@);
        let mut i: usize = 0;
        while i < values.len()
            invariant
                i <= values.len(),
                vs == crate::text::views(values@),
                vs == crate::text::views(old(values)@),
                value == Some(v),
                t@ == crate::text::trim_spec(v@),
                t@.len() > 0,
                forall|k: int| 0 <= k < i ==> vs[k] != t@,
            decreases values.len() - i,
        {
            if values[i] == t {
                assert(vs[i as int] == t@);
                assert(vs.contains(t@));
                return;
            }
            i = i + 1;
        }
        assert(!vs.contains(t@));
        values.push(t);
        assert(crate::text::views(values@) =~= vs.push(t@));
    }
}

/// Records as secrets the `:`-separated pieces of the user-information part
/// of `url` (see `url_auth_push`).
pub fn collect_url_auth(url: &str, values: &mut Vec<String>)
    ensures
        crate::text::views(final(values)@) == url_auth_push(url@, crate::text::views(old(values)@)),
        clean_secrets(crate::text::views(old(values)@)) ==> clean_secrets(
            crate::text::views(final(values)@),
        ),
{
    let v = chars_of(url);
    let sep = chars_of("://");
    let start = match find_exec(&v, &sep) {
        Some(i) => i,
        None => {
            return;
        },
    };
    proof {
        reveal_strlit("://");
        crate::text::lemma_find_from_result(v@, sep@, 0);
        assert(sep@.len() == 3);
        assert(crate::text::occurs_at(v@, sep@, start as int));
    }
    assert(start + 3 <= v@.len());
    assert(v@.len() == v.len());
    let from: usize = start + 3;
    let rest = subvec(&v, from, v.len());
    assert(rest@ =~= v@.skip(start + 3));
    let host = before_char_exec(&rest, '/');
    let auth = before_char_exec(&host, '@');
    if find_char_exec(&auth, ':').is_none() {
        return;
    }
    let ghost old_vals = crate::text::views(values@);
    let ghost target = sensitive_push_all(old_vals, crate::text::split_spec(auth@, ':'));
    proof {
        if clean_secrets(old_vals) {
            lemma_sensitive_push_all_clean(old_vals, crate::text::split_spec(auth@, ':'));
        }
        assert(url_auth_part(url@) == Some(auth@));
    }
    let n = auth.len();
    let mut pos: usize = 0;
    assert(auth@.skip(0) =~= auth@);
    loop
        invariant
            pos <= n == auth.len(),
            sensitive_push_all(crate::text::views(values@), crate::text::split_spec(auth@.skip(pos as int), ':'))
                == target,
            clean_secrets(old_vals) ==> clean_secrets(crate::text::views(values@)),
            target == url_auth_push(url@, old_vals),
            old_vals == crate::text::views(old(values)@),
            clean_secrets(old_vals) ==> clean_secrets(target),
        decreases n - pos,
    {
        let tail = subvec(&auth, pos, n);
        let ghost t = auth@.skip(pos as int);
        assert(tail@ =~= t);
        match find_char_exec(&tail, ':') {
            Some(k) => {
                let piece = subvec(&tail, 0, k);
                let piece_text = string_from_chars(&piece);
                proof {
                    assert(piece@ =~= t.take(k as int));
                    assert(t.skip(k + 1) =~= auth@.skip(pos + k + 1));
                    let parts = crate::text::split_spec(t, ':');
                    assert(parts == seq![t.take(k as int)] + crate::text::split_spec(t.skip(k + 1), ':'));
                    assert(parts[0] == t.take(k as int));
                    assert(parts.drop_first() =~= crate::text::split_spec(t.skip(k + 1), ':'));
                }
                push_sensitive(values, Some(piece_text.as_str()));
                pos = pos + k + 1;
            },
            None => {
                let piece_text = string_from_chars(&tail);
                let ghost before = crate::text::views(values@);
                proof {
                    let parts = crate::text::split_spec(t, ':');
                    assert(parts == seq![t]);
                    assert(parts.drop_first() =~= Seq::<Seq<char>>::empty());
                    assert(sensitive_push_all(before, parts) == sensitive_push_all(
                        sensitive_push(before, Some(t)),
                        Seq::empty(),
                    ));
                }
                push_sensitive(values, Some(piece_text.as_str()));
                return;
            },
        }
    }
}

} // verus!
