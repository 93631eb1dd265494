//! Shared text-level machinery of the codecs: whitespace between tokens,
//! punctuation tokens, and quoted strings with escaping.

use vstd::prelude::*;

verus! {

/// Whether a character is insignificant whitespace between tokens.
pub open spec fn is_ws(c: char) -> bool {
    c == ' ' || c == '\n' || c == '\t' || c == '\r'
}

/// The first position at or after `i` holding something other than
/// whitespace.
pub open spec fn skip_ws(s: Seq<char>, i: int) -> int
    decreases s.len() - i,
{
    if 0 <= i < s.len() && is_ws(s[i]) {
        skip_ws(s, i + 1)
    } else {
        i
    }
}

/// Skipping whitespace stays inside the text and stops on the first
/// non-whitespace character.
pub proof fn lemma_skip_ws_bounds(s: Seq<char>, i: int)
    requires
        0 <= i <= s.len(),
    ensures
        i <= skip_ws(s, i) <= s.len(),
        skip_ws(s, i) < s.len() ==> !is_ws(s[skip_ws(s, i)]),
    decreases s.len() - i,
{
    if i < s.len() && is_ws(s[i]) {
        lemma_skip_ws_bounds(s, i + 1);
    }
}

/// Skipping whitespace over a known whitespace run lands exactly at its
/// end.
pub proof fn lemma_skip_ws_of_run(s: Seq<char>, i: int, j: int)
    requires
        0 <= i <= j <= s.len(),
        forall|t: int| i <= t < j ==> is_ws(#[trigger] s[t]),
        j == s.len() || !is_ws(s[j]),
    ensures
        skip_ws(s, i) == j,
    decreases j - i,
{
    if i < j {
        lemma_skip_ws_of_run(s, i + 1, j);
    }
}

/// What consuming one punctuation token yields: the position just past the
/// first non-whitespace character, provided that character is `c`.
pub open spec fn tok(s: Seq<char>, i: int, c: char) -> Option<int> {
    let j = skip_ws(s, i);
    if j < s.len() && s[j] == c {
        Some(j + 1)
    } else {
        None
    }
}

/// A successful token consumes at least one character and stays inside the
/// text.
pub proof fn lemma_tok_some(s: Seq<char>, i: int, c: char)
    requires
        0 <= i <= s.len(),
        tok(s, i, c) is Some,
    ensures
        i < tok(s, i, c)->0 <= s.len(),
{
    lemma_skip_ws_bounds(s, i);
}

/// Consuming the token `c` over a whitespace run followed by `c` lands
/// just past `c`.
pub proof fn lemma_tok_at(s: Seq<char>, i: int, j: int, c: char)
    requires
        0 <= i <= j < s.len(),
        forall|t: int| i <= t < j ==> is_ws(#[trigger] s[t]),
        s[j] == c,
        !is_ws(c),
    ensures
        tok(s, i, c) == Some(j + 1),
{
    lemma_skip_ws_of_run(s, i, j);
}

/// The escaped form of one string character: quotes and backslashes take a
/// preceding backslash, every other character stands for itself.
pub open spec fn esc_char(c: char) -> Seq<char> {
    if c == '"' || c == '\\' {
        seq!['\\', c]
    } else {
        seq![c]
    }
}

/// The escaped form of a string's characters.
pub open spec fn esc(x: Seq<char>) -> Seq<char>
    decreases x.len(),
{
    if x.len() == 0 {
        Seq::empty()
    } else {
        esc_char(x[0]) + esc(x.drop_first())
    }
}

/// The quoted, escaped rendering of a string.
pub open spec fn quoted(x: Seq<char>) -> Seq<char> {
    seq!['"'] + esc(x) + seq!['"']
}

/// Escaping distributes over concatenation.
pub proof fn lemma_esc_concat(a: Seq<char>, b: Seq<char>)
    ensures
        esc(a + b) == esc(a) + esc(b),
    decreases a.len(),
{
    if a.len() == 0 {
        assert(a + b =~= b);
        assert(esc(a) + esc(b) =~= esc(b));
    } else {
        assert((a + b).drop_first() =~= a.drop_first() + b);
        assert((a + b)[0] == a[0]);
        lemma_esc_concat(a.drop_first(), b);
        assert(esc_char(a[0]) + (esc(a.drop_first()) + esc(b)) =~= (esc_char(a[0]) + esc(
            a.drop_first(),
        )) + esc(b));
    }
}

/// Escaping a string extended by one character appends that character's
/// escaped form.
pub proof fn lemma_esc_push(a: Seq<char>, c: char)
    ensures
        esc(a.push(c)) == esc(a) + esc_char(c),
{
    assert(a.push(c) =~= a + seq![c]);
    lemma_esc_concat(a, seq![c]);
    assert(esc(seq![c]) == esc_char(c)) by {
        assert(seq![c].len() == 1 && seq![c][0] == c);
        assert(esc(seq![c]) == esc_char(c) + esc(seq![c].drop_first()));
        assert(seq![c].drop_first() =~= Seq::<char>::empty());
        assert(esc(Seq::<char>::empty()) == Seq::<char>::empty());
        assert(esc_char(c) + Seq::<char>::empty() =~= esc_char(c));
    }
}

/// Escaping leaves a string without quotes and backslashes unchanged.
pub proof fn lemma_esc_plain(x: Seq<char>)
    requires
        forall|t: int| 0 <= t < x.len() ==> (#[trigger] x[t]) != '"' && x[t] != '\\',
    ensures
        esc(x) == x,
    decreases x.len(),
{
    if x.len() > 0 {
        lemma_esc_plain(x.drop_first());
        assert(esc_char(x[0]) + x.drop_first() =~= x);
    }
}

/// What parsing the body of a quoted string yields, starting just past the
/// opening quote: the unescaped content and the position just past the
/// closing quote. Parsing fails on a lone backslash, an unknown escape, or
/// a missing closing quote.
pub open spec fn parse_string_body(s: Seq<char>, i: int) -> Option<(Seq<char>, int)>
    decreases s.len() - i,
{
    if i < 0 || i >= s.len() {
        None
    } else if s[i] == '"' {
        Some((Seq::empty(), i + 1))
    } else if s[i] == '\\' {
        if i + 1 < s.len() && (s[i + 1] == '"' || s[i + 1] == '\\') {
            match parse_string_body(s, i + 2) {
                Some((x, j)) => Some((seq![s[i + 1]] + x, j)),
                None => None,
            }
        } else {
            None
        }
    } else {
        match parse_string_body(s, i + 1) {
            Some((x, j)) => Some((seq![s[i]] + x, j)),
            None => None,
        }
    }
}

/// A successful string body consumes at least one character (the closing
/// quote) and stays inside the text.
pub proof fn lemma_parse_string_body_some(s: Seq<char>, i: int)
    requires
        parse_string_body(s, i) is Some,
    ensures
        parse_string_body(s, i) matches Some(p) && i < p.1 <= s.len(),
    decreases s.len() - i,
{
    if 0 <= i < s.len() && s[i] != '"' {
        if s[i] == '\\' {
            lemma_parse_string_body_some(s, i + 2);
        } else {
            lemma_parse_string_body_some(s, i + 1);
        }
    }
}

/// Parsing a string body picks up exactly what escaping put down: the
/// escaped content followed by a closing quote parses back to the content.
pub proof fn lemma_parse_string_body_of_esc(s: Seq<char>, i: int, x: Seq<char>)
    requires
        0 <= i,
        i + esc(x).len() + 1 <= s.len(),
        s.subrange(i, i + esc(x).len() + 1) == esc(x).push('"'),
    ensures
        parse_string_body(s, i) == Some((x, i + esc(x).len() + 1)),
    decreases x.len(),
{
    let w = esc(x).push('"');
    let e = i + esc(x).len() + 1;
    if x.len() == 0 {
        assert(s[i] == s.subrange(i, e)[0]);
    } else {
        let c = x[0];
        let x1 = x.drop_first();
        assert(esc(x) == esc_char(c) + esc(x1));
        let d = esc_char(c).len();
        // The recursive window: everything past this character's escaped
        // form is the escaped tail followed by the closing quote.
        assert(s.subrange(i + d, e) =~= esc(x1).push('"')) by {
            assert forall|t: int| 0 <= t < e - i - d implies s.subrange(i + d, e)[t] == esc(
                x1,
            ).push('"')[t] by {
                assert(s[i + d + t] == s.subrange(i, e)[d + t]);
                assert(w[d + t] == (esc_char(c) + esc(x1).push('"'))[d + t]) by {
                    assert(w =~= esc_char(c) + esc(x1).push('"'));
                }
            }
        }
        lemma_parse_string_body_of_esc(s, i + d, x1);
        if c == '"' || c == '\\' {
            assert(s[i] == s.subrange(i, e)[0]);
            assert(s[i + 1] == s.subrange(i, e)[1]);
            assert(s[i] == '\\' && s[i + 1] == c);
            assert(seq![s[i + 1]] + x1 =~= x);
        } else {
            assert(s[i] == s.subrange(i, e)[0]);
            assert(s[i] == c);
            assert(seq![s[i]] + x1 =~= x);
        }
    }
}

/// What parsing a quoted string yields: whitespace, an opening quote, then
/// the body.
pub open spec fn parse_quoted(s: Seq<char>, i: int) -> Option<(Seq<char>, int)> {
    match tok(s, i, '"') {
        Some(j) => parse_string_body(s, j),
        None => None,
    }
}

/// A successful quoted string makes progress and stays inside the text.
pub proof fn lemma_parse_quoted_some(s: Seq<char>, i: int)
    requires
        0 <= i <= s.len(),
        parse_quoted(s, i) is Some,
    ensures
        parse_quoted(s, i) matches Some(p) && i < p.1 <= s.len(),
{
    lemma_tok_some(s, i, '"');
    lemma_parse_string_body_some(s, tok(s, i, '"')->0);
}

/// Parsing a quoted string picks up exactly what the quoted rendering put
/// down, across any leading whitespace.
pub proof fn lemma_parse_quoted_at(s: Seq<char>, i: int, j: int, x: Seq<char>)
    requires
        0 <= i <= j,
        j + quoted(x).len() <= s.len(),
        forall|t: int| i <= t < j ==> is_ws(#[trigger] s[t]),
        s.subrange(j, j + quoted(x).len()) == quoted(x),
    ensures
        parse_quoted(s, i) == Some((x, j + quoted(x).len())),
{
    let q = quoted(x);
    let e = j + q.len();
    assert(s[j] == s.subrange(j, e)[0]);
    assert(s[j] == '"');
    lemma_tok_at(s, i, j, '"');
    assert(s.subrange(j + 1, e) =~= esc(x).push('"')) by {
        assert forall|t: int| 0 <= t < e - j - 1 implies s.subrange(j + 1, e)[t] == esc(x).push(
            '"',
        )[t] by {
            assert(s[j + 1 + t] == s.subrange(j, e)[1 + t]);
            assert(q[1 + t] == esc(x).push('"')[t]) by {
                assert(q =~= seq!['"'] + esc(x).push('"'));
            }
        }
    }
    lemma_parse_string_body_of_esc(s, j + 1, x);
}

/// Whether a character is insignificant whitespace.
pub(crate) fn ws_char(c: char) -> (r: bool)
    ensures
        r == is_ws(c),
{
    c == ' ' || c == '\n' || c == '\t' || c == '\r'
}

/// Advances past insignificant whitespace.
pub(crate) fn skip_ws_at(s: &Vec<char>, i: usize) -> (r: usize)
    requires
        i <= s@.len(),
    ensures
        r as int == skip_ws(s@, i as int),
        i <= r <= s@.len(),
{
    let mut k: usize = i;
    loop
        invariant
            i <= k <= s@.len(),
            forall|t: int| i <= t < k ==> is_ws(#[trigger] s@[t]),
        ensures
            i <= k <= s@.len(),
            forall|t: int| i <= t < k ==> is_ws(#[trigger] s@[t]),
            k == s@.len() || !is_ws(s@[k as int]),
        decreases s@.len() - k,
    {
        if k == s.len() {
            break ;
        }
        if !ws_char(s[k]) {
            break ;
        }
        k = k + 1;
    }
    proof {
        lemma_skip_ws_of_run(s@, i as int, k as int);
    }
    k
}

/// Consumes the punctuation token `c` after any whitespace.
pub(crate) fn expect(s: &Vec<char>, i: usize, c: char) -> (r: Option<usize>)
    requires
        i <= s@.len(),
    ensures
        r matches Some(j) ==> tok(s@, i as int, c) == Some(j as int) && i < j <= s@.len(),
        r is None ==> tok(s@, i as int, c) is None,
{
    let j = skip_ws_at(s, i);
    if j < s.len() {
        let cj = s[j];
        if cj == c {
            return Some(j + 1);
        }
    }
    None
}

/// Parses the body of a quoted string, starting just past the opening
/// quote; returns the unescaped content and the position just past the
/// closing quote.
pub(crate) fn parse_body(s: &Vec<char>, i: usize) -> (r: Option<(Vec<char>, usize)>)
    requires
        i <= s@.len(),
    ensures
        r matches Some(p) ==> parse_string_body(s@, i as int) == Some((p.0@, p.1 as int))
            && p.1 <= s@.len(),
        r is None ==> parse_string_body(s@, i as int) is None,
    decreases s@.len() - i,
{
    if i >= s.len() {
        return None;
    }
    let c = s[i];
    if c == '"' {
        let empty_content: Vec<char> = Vec::new();
        return Some((empty_content, i + 1));
    }
    if c == '\\' {
        if i + 1 < s.len() {
            let c2 = s[i + 1];
            if c2 == '"' || c2 == '\\' {
                match parse_body(s, i + 2) {
                    Some((tail, j)) => {
                        let mut v: Vec<char> = Vec::new();
                        v.push(c2);
                        let mut tail = tail;
                        v.append(&mut tail);
                        return Some((v, j));
                    },
                    None => {
                        return None;
                    },
                }
            }
        }
        return None;
    }
    match parse_body(s, i + 1) {
        Some((tail, j)) => {
            let mut v: Vec<char> = Vec::new();
            v.push(c);
            let mut tail = tail;
            v.append(&mut tail);
            Some((v, j))
        },
        None => None,
    }
}

/// Parses a quoted string after any whitespace; returns the unescaped
/// content and the position just past the closing quote.
pub(crate) fn parse_quoted_at(s: &Vec<char>, i: usize) -> (r: Option<(Vec<char>, usize)>)
    requires
        i <= s@.len(),
    ensures
        r matches Some(p) ==> parse_quoted(s@, i as int) == Some((p.0@, p.1 as int)) && p.1
            <= s@.len(),
        r is None ==> parse_quoted(s@, i as int) is None,
{
    match expect(s, i, '"') {
        Some(j) => parse_body(s, j),
        None => None,
    }
}

/// Appends the quoted, escaped rendering of `x`.
#[verifier::loop_isolation(false)]
pub(crate) fn push_quoted(out: &mut Vec<char>, x: &str)
    ensures
        final(out)@ == old(out)@ + quoted(x@),
{
    out.push('"');
    let chars = crate::codec::str_to_chars(x);
    let n = chars.len();
    let mut k: usize = 0;
    while k < n
        invariant
            k <= n,
            n == x@.len(),
            chars@ == x@,
            out@ == old(out)@ + seq!['"'] + esc(x@.subrange(0, k as int)),
        decreases n - k,
    {
        let c = chars[k];
        if c == '"' || c == '\\' {
            out.push('\\');
        }
        out.push(c);
        proof {
            let a = x@.subrange(0, k as int);
            lemma_esc_push(a, c);
            assert(x@.subrange(0, k + 1) =~= a.push(c));
            assert(out@ =~= old(out)@ + seq!['"'] + esc(x@.subrange(0, k + 1)));
        }
        k = k + 1;
    }
    out.push('"');
    proof {
        assert(x@.subrange(0, n as int) =~= x@);
        assert(out@ =~= old(out)@ + quoted(x@));
    }
}

} // verus!
