//! Access-log lines: a template whose `:name` tokens are replaced by request
//! and response values.

use vstd::prelude::*;

use crate::text::{chars_of, string_of};

verus! {

/// `tok` is non-empty and occurs in `s` at its start.
pub open spec fn starts_with_token(s: Seq<char>, tok: Seq<char>) -> bool {
    0 < tok.len() <= s.len() && s.subrange(0, tok.len() as int) == tok
}

/// The first of `tokens`, from index `k` on, with which `s` starts.
pub open spec fn first_token(s: Seq<char>, tokens: Seq<Seq<char>>, k: int) -> Option<int>
    decreases tokens.len() - k,
{
    if k < 0 || k >= tokens.len() {
        None
    } else if starts_with_token(s, tokens[k]) {
        Some(k)
    } else {
        first_token(s, tokens, k + 1)
    }
}

/// `t` read from left to right, each token found replaced by its value.
pub open spec fn substituted(t: Seq<char>, tokens: Seq<Seq<char>>, values: Seq<Seq<char>>) -> Seq<char>
    decreases t.len(),
{
    if t.len() == 0 {
        t
    } else {
        match first_token(t, tokens, 0) {
            Some(k) => if 0 <= k < tokens.len() && 0 < tokens[k].len() <= t.len() {
                values[k] + substituted(t.subrange(tokens[k].len() as int, t.len() as int), tokens, values)
            } else {
                t
            },
            None => seq![t[0]] + substituted(t.drop_first(), tokens, values),
        }
    }
}

pub open spec fn views(v: Seq<Vec<char>>) -> Seq<Seq<char>> {
    v.map_values(|x: Vec<char>| x@)
}

/// Whether `t` holds `tok` at position `i`.
fn token_at(t: &Vec<char>, i: usize, tok: &Vec<char>) -> (r: bool)
    requires
        i <= t@.len(),
    ensures
        r == starts_with_token(t@.subrange(i as int, t@.len() as int), tok@),
{
    let n = tok.len();
    let tlen = t.len();
    if n == 0 || n > tlen - i {
        return false;
    }
    let mut j: usize = 0;
    while j < n
        invariant
            j <= n,
            tlen == t@.len(),
            n == tok@.len(),
            i + n <= t@.len(),
            forall|m: int| 0 <= m < j ==> t@[i + m] == tok@[m],
        decreases n - j,
    {
        if t[i + j] != tok[j] {
            assert(t@.subrange(i as int, t@.len() as int).subrange(0, n as int)[j as int] != tok@[j as int]);
            return false;
        }
        j += 1;
    }
    assert(t@.subrange(i as int, t@.len() as int).subrange(0, n as int) =~= tok@);
    true
}

proof fn lemma_first_token(s: Seq<char>, tokens: Seq<Seq<char>>, k: int)
    requires
        0 <= k,
    ensures
        first_token(s, tokens, k) matches Some(j) ==> k <= j < tokens.len() && starts_with_token(
            s,
            tokens[j],
        ),
    decreases tokens.len() - k,
{
    if k < tokens.len() && !starts_with_token(s, tokens[k]) {
        lemma_first_token(s, tokens, k + 1);
    }
}

/// The first of `tokens` that occurs in `t` at position `i`.
fn find_token(t: &Vec<char>, i: usize, tokens: &Vec<Vec<char>>) -> (r: Option<usize>)
    requires
        i <= t@.len(),
    ensures
        r matches Some(k) ==> first_token(t@.subrange(i as int, t@.len() as int), views(tokens@), 0) == Some(k as int),
        r.is_none() ==> first_token(t@.subrange(i as int, t@.len() as int), views(tokens@), 0).is_none(),
{
    let ghost rest = t@.subrange(i as int, t@.len() as int);
    let mut k: usize = 0;
    while k < tokens.len()
        invariant
            k <= tokens@.len(),
            i <= t@.len(),
            rest == t@.subrange(i as int, t@.len() as int),
            first_token(rest, views(tokens@), 0) == first_token(rest, views(tokens@), k as int),
        decreases tokens@.len() - k,
    {
        if token_at(t, i, &tokens[k]) {
            assert(views(tokens@)[k as int] == tokens@[k as int]@);
            return Some(k);
        }
        assert(views(tokens@)[k as int] == tokens@[k as int]@);
        k += 1;
    }
    None
}

/// Replaces, from left to right, every occurrence of `tokens[k]` in `template`
/// by `values[k]`, the earlier token winning where two start at one place.
pub fn substitute(template: &str, tokens: &Vec<Vec<char>>, values: &Vec<Vec<char>>) -> (r: String)
    requires
        tokens@.len() == values@.len(),
    ensures
        r@ == substituted(template@, views(tokens@), views(values@)),
{
    let t = chars_of(template);
    let len = t.len();
    let ghost toks = views(tokens@);
    let ghost vals = views(values@);
    let mut out: Vec<char> = Vec::new();
    let mut i: usize = 0;
    assert(t@.subrange(0, len as int) =~= t@);
    while i < len
        invariant
            i <= len,
            len == t@.len(),
            t@ == template@,
            toks == views(tokens@),
            vals == views(values@),
            tokens@.len() == values@.len(),
            substituted(template@, toks, vals) == out@ + substituted(t@.subrange(i as int, len as int), toks, vals),
        decreases len - i,
    {
        let ghost rest = t@.subrange(i as int, len as int);
        let found_at = find_token(&t, i, tokens);
        proof {
            lemma_first_token(rest, toks, 0);
        }
        if found_at.is_some() {
            let k = found_at.unwrap();
            let n = tokens[k].len();
            let mut m: usize = 0;
            let ghost before = out@;
            while m < values[k].len()
                invariant
                    k < values@.len(),
                    m <= values@[k as int]@.len(),
                    out@ == before + values@[k as int]@.subrange(0, m as int),
                decreases values@[k as int]@.len() - m,
            {
                out.push(values[k][m]);
                m += 1;
                assert(out@ =~= before + values@[k as int]@.subrange(0, m as int));
            }
            assert(values@[k as int]@.subrange(0, values@[k as int]@.len() as int) =~= values@[k as int]@);
            assert(rest.subrange(n as int, rest.len() as int) =~= t@.subrange(i + n, len as int));
            assert(out@ + substituted(t@.subrange(i + n, len as int), toks, vals) =~= before + substituted(rest, toks, vals));
            i = i + n;
        } else {
            let ghost before = out@;
            out.push(t[i]);
            assert(rest.drop_first() =~= t@.subrange(i + 1, len as int));
            assert(out@ + substituted(t@.subrange(i + 1, len as int), toks, vals) =~= before + substituted(rest, toks, vals));
            i += 1;
        }
    }
    assert(t@.subrange(len as int, len as int) =~= Seq::<char>::empty());
    assert(out@ + Seq::<char>::empty() =~= out@);
    string_of(out.as_slice())
}

/// The values an access-log line can show.
pub struct LogFields {
    pub remote_host: String,
    pub remote_port: String,
    pub date_clf: String,
    pub date_iso8601: String,
    pub method: String,
    pub path: String,
    pub url: String,
    pub proto: String,
    pub status: String,
    pub bytes_tx: String,
}

/// The tokens a template may hold, in the order they are tried.
pub open spec fn log_tokens() -> Seq<Seq<char>> {
    seq![
        ":remote_host"@, ":remote_port"@, ":date_clf"@, ":date_iso8601"@, ":method"@, ":path"@,
        ":url"@, ":proto"@, ":status"@, ":bytes_tx"@,
    ]
}

pub open spec fn log_values(f: &LogFields) -> Seq<Seq<char>> {
    seq![
        f.remote_host@, f.remote_port@, f.date_clf@, f.date_iso8601@, f.method@, f.path@, f.url@,
        f.proto@, f.status@, f.bytes_tx@,
    ]
}

/// The access-log line for `fields` under `template`.
pub fn log_line(template: &str, fields: &LogFields) -> (r: String)
    ensures
        r@ == substituted(template@, log_tokens(), log_values(fields)),
{
    let mut tokens: Vec<Vec<char>> = Vec::new();
    tokens.push(chars_of(":remote_host"));
    tokens.push(chars_of(":remote_port"));
    tokens.push(chars_of(":date_clf"));
    tokens.push(chars_of(":date_iso8601"));
    tokens.push(chars_of(":method"));
    tokens.push(chars_of(":path"));
    tokens.push(chars_of(":url"));
    tokens.push(chars_of(":proto"));
    tokens.push(chars_of(":status"));
    tokens.push(chars_of(":bytes_tx"));
    let mut values: Vec<Vec<char>> = Vec::new();
    values.push(chars_of(fields.remote_host.as_str()));
    values.push(chars_of(fields.remote_port.as_str()));
    values.push(chars_of(fields.date_clf.as_str()));
    values.push(chars_of(fields.date_iso8601.as_str()));
    values.push(chars_of(fields.method.as_str()));
    values.push(chars_of(fields.path.as_str()));
    values.push(chars_of(fields.url.as_str()));
    values.push(chars_of(fields.proto.as_str()));
    values.push(chars_of(fields.status.as_str()));
    values.push(chars_of(fields.bytes_tx.as_str()));
    assert(views(tokens@) =~= log_tokens());
    assert(views(values@) =~= log_values(fields));
    substitute(template, &tokens, &values)
}

/// The request target as logged: the path, then `?` and the query where it is not empty.
pub fn request_url(path: &str, query: &str) -> (r: String)
    ensures
        r@ == (if query@.len() == 0 {
            path@
        } else {
            path@ + seq!['?'] + query@
        }),
{
    let mut url = path.to_owned();
    if !query.is_empty() {
        url.append("?");
        url.append(query);
        proof {
            reveal_strlit("?");
        }
    }
    url
}

} // verus!
