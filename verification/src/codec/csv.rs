//! The CSV codec: the committed text format of relation files under the
//! CSV adapter.
//!
//! A relation file holds one header line naming the record's fields, then
//! one line per record. String fields are always quoted; a quote inside a
//! string is doubled. The format is exact: no insignificant whitespace.

use vstd::prelude::*;
use vstd::string::StringExecFns;

use crate::codec::num;
use crate::error::JoydbError;
use crate::model::{Post, PostV, User, UserV};

verus! {

/// The escaped form of one quoted-field character: a quote is doubled,
/// every other character stands for itself.
pub open spec fn cesc_char(c: char) -> Seq<char> {
    if c == '"' {
        seq!['"', '"']
    } else {
        seq![c]
    }
}

/// The escaped form of a quoted field's characters.
pub open spec fn cesc(x: Seq<char>) -> Seq<char>
    decreases x.len(),
{
    if x.len() == 0 {
        Seq::<char>::empty()
    } else {
        cesc_char(x[0]) + cesc(x.drop_first())
    }
}

/// The quoted rendering of a string field.
pub open spec fn cquoted(x: Seq<char>) -> Seq<char> {
    seq!['"'] + cesc(x) + seq!['"']
}

/// Escaping distributes over concatenation.
pub proof fn lemma_cesc_concat(a: Seq<char>, b: Seq<char>)
    ensures
        cesc(a + b) == cesc(a) + cesc(b),
    decreases a.len(),
{
    if a.len() == 0 {
        assert(a + b =~= b);
        assert(cesc(a) + cesc(b) =~= cesc(b));
    } else {
        assert((a + b).drop_first() =~= a.drop_first() + b);
        assert((a + b)[0] == a[0]);
        lemma_cesc_concat(a.drop_first(), b);
        assert(cesc_char(a[0]) + (cesc(a.drop_first()) + cesc(b)) =~= (cesc_char(a[0]) + cesc(
            a.drop_first(),
        )) + cesc(b));
    }
}

/// Escaping a string extended by one character appends that character's
/// escaped form.
pub proof fn lemma_cesc_push(a: Seq<char>, c: char)
    ensures
        cesc(a.push(c)) == cesc(a) + cesc_char(c),
{
    assert(a.push(c) =~= a + seq![c]);
    lemma_cesc_concat(a, seq![c]);
    assert(cesc(seq![c]) == cesc_char(c)) by {
        assert(seq![c].len() == 1 && seq![c][0] == c);
        assert(cesc(seq![c]) == cesc_char(c) + cesc(seq![c].drop_first()));
        assert(seq![c].drop_first() =~= Seq::<char>::empty());
        assert(cesc(Seq::<char>::empty()) == Seq::<char>::empty());
        assert(cesc_char(c) + Seq::<char>::empty() =~= cesc_char(c));
    }
}

/// What parsing a quoted field's body yields, starting just past the
/// opening quote: the unescaped content and the position just past the
/// closing quote. A doubled quote is content; a single quote closes the
/// field.
pub open spec fn parse_cstring_body(s: Seq<char>, i: int) -> Option<(Seq<char>, int)>
    decreases s.len() - i,
{
    if i < 0 || i >= s.len() {
        None
    } else if s[i] == '"' {
        if i + 1 < s.len() && s[i + 1] == '"' {
            match parse_cstring_body(s, i + 2) {
                Some((x, j)) => Some((seq!['"'] + x, j)),
                None => None,
            }
        } else {
            Some((Seq::<char>::empty(), i + 1))
        }
    } else {
        match parse_cstring_body(s, i + 1) {
            Some((x, j)) => Some((seq![s[i]] + x, j)),
            None => None,
        }
    }
}

/// A successful field body makes progress and stays inside the text.
pub proof fn lemma_parse_cstring_body_some(s: Seq<char>, i: int)
    requires
        parse_cstring_body(s, i) is Some,
    ensures
        parse_cstring_body(s, i) matches Some(p) && i < p.1 <= s.len(),
    decreases s.len() - i,
{
    if 0 <= i < s.len() {
        if s[i] == '"' {
            if i + 1 < s.len() && s[i + 1] == '"' {
                lemma_parse_cstring_body_some(s, i + 2);
            }
        } else {
            lemma_parse_cstring_body_some(s, i + 1);
        }
    }
}

/// Parsing a field body picks up exactly what escaping put down, provided
/// the character after the closing quote is not another quote.
pub proof fn lemma_parse_cstring_body_of_cesc(s: Seq<char>, i: int, x: Seq<char>)
    requires
        0 <= i,
        i + cesc(x).len() + 1 <= s.len(),
        s.subrange(i, i + cesc(x).len() + 1) == cesc(x).push('"'),
        i + cesc(x).len() + 1 == s.len() || s[i + cesc(x).len() + 1] != '"',
    ensures
        parse_cstring_body(s, i) == Some((x, i + cesc(x).len() + 1)),
    decreases x.len(),
{
    let w = cesc(x).push('"');
    let e = i + cesc(x).len() + 1;
    if x.len() == 0 {
        assert(s[i] == s.subrange(i, e)[0]);
        assert(s[i] == '"');
        if i + 1 < s.len() {
            assert(s[i + 1] != '"');
        }
    } else {
        let c = x[0];
        let x1 = x.drop_first();
        assert(cesc(x) == cesc_char(c) + cesc(x1));
        let d = cesc_char(c).len();
        assert(s.subrange(i + d, e) =~= cesc(x1).push('"')) by {
            assert forall|t: int| 0 <= t < e - i - d implies s.subrange(i + d, e)[t] == cesc(
                x1,
            ).push('"')[t] by {
                assert(s[i + d + t] == s.subrange(i, e)[d + t]);
                assert(w[d + t] == (cesc_char(c) + cesc(x1).push('"'))[d + t]) by {
                    assert(w =~= cesc_char(c) + cesc(x1).push('"'));
                }
            }
        }
        lemma_parse_cstring_body_of_cesc(s, i + d, x1);
        if c == '"' {
            assert(s[i] == s.subrange(i, e)[0]);
            assert(s[i + 1] == s.subrange(i, e)[1]);
            assert(s[i] == '"' && s[i + 1] == '"');
            assert(seq!['"'] + x1 =~= x);
        } else {
            assert(s[i] == s.subrange(i, e)[0]);
            assert(s[i] == c);
            assert(seq![s[i]] + x1 =~= x);
        }
    }
}

/// Whether the literal `lit` sits at position `i` of `s`.
pub open spec fn lit_at(s: Seq<char>, i: int, lit: Seq<char>) -> bool {
    &&& 0 <= i
    &&& i + lit.len() <= s.len()
    &&& s.subrange(i, i + lit.len()) == lit
}

/// The header line of the user relation file.
pub open spec fn users_header() -> Seq<char> {
    seq!['i', 'd', ',', 'n', 'a', 'm', 'e', ',', 'a', 'g', 'e', '\n']
}

/// The header line of the post relation file.
pub open spec fn posts_header() -> Seq<char> {
    seq!['i', 'd', ',', 't', 'i', 't', 'l', 'e', '\n']
}

/// The CSV rendering of one user record, as one line.
pub open spec fn csv_user(u: UserV) -> Seq<char> {
    num::dec(u.id) + seq![','] + cquoted(u.name) + seq![','] + num::dec(u.age as u128) + seq![
        '\n',
    ]
}

/// The CSV rendering of one post record, as one line.
pub open spec fn csv_post(p: PostV) -> Seq<char> {
    num::dec(p.id) + seq![','] + cquoted(p.title) + seq!['\n']
}

/// The CSV rendering of the user records, one line each.
pub open spec fn csv_user_rows(us: Seq<UserV>) -> Seq<char>
    decreases us.len(),
{
    if us.len() == 0 {
        Seq::<char>::empty()
    } else {
        csv_user(us[0]) + csv_user_rows(us.drop_first())
    }
}

/// The CSV rendering of the post records, one line each.
pub open spec fn csv_post_rows(ps: Seq<PostV>) -> Seq<char>
    decreases ps.len(),
{
    if ps.len() == 0 {
        Seq::<char>::empty()
    } else {
        csv_post(ps[0]) + csv_post_rows(ps.drop_first())
    }
}

/// The CSV rendering of a whole user relation file.
pub open spec fn csv_users(us: Seq<UserV>) -> Seq<char> {
    users_header() + csv_user_rows(us)
}

/// The CSV rendering of a whole post relation file.
pub open spec fn csv_posts(ps: Seq<PostV>) -> Seq<char> {
    posts_header() + csv_post_rows(ps)
}

/// What parsing one user row yields.
pub open spec fn parse_csv_user(s: Seq<char>, i: int) -> Option<(UserV, int)> {
    match num::parse_dec_at(s, i) {
        None => None,
        Some((idv, i1)) => if i1 + 1 < s.len() && s[i1] == ',' && s[i1 + 1] == '"' {
            match parse_cstring_body(s, i1 + 2) {
                None => None,
                Some((nm, i2)) => if i2 < s.len() && s[i2] == ',' {
                    match num::parse_dec_at(s, i2 + 1) {
                        None => None,
                        Some((agev, i3)) => if agev <= 255 && i3 < s.len() && s[i3] == '\n' {
                            Some((UserV { id: idv, name: nm, age: agev as u8 }, i3 + 1))
                        } else {
                            None
                        },
                    }
                } else {
                    None
                },
            }
        } else {
            None
        },
    }
}

/// What parsing one post row yields.
pub open spec fn parse_csv_post(s: Seq<char>, i: int) -> Option<(PostV, int)> {
    match num::parse_dec_at(s, i) {
        None => None,
        Some((idv, i1)) => if i1 + 1 < s.len() && s[i1] == ',' && s[i1 + 1] == '"' {
            match parse_cstring_body(s, i1 + 2) {
                None => None,
                Some((ti, i2)) => if i2 < s.len() && s[i2] == '\n' {
                    Some((PostV { id: idv, title: ti }, i2 + 1))
                } else {
                    None
                },
            }
        } else {
            None
        },
    }
}

/// A successful row makes progress and stays inside the text.
pub proof fn lemma_parse_csv_user_some(s: Seq<char>, i: int)
    requires
        0 <= i <= s.len(),
        parse_csv_user(s, i) is Some,
    ensures
        parse_csv_user(s, i) matches Some(p) && i < p.1 <= s.len(),
{
    num::lemma_parse_dec_some(s, i);
    let i1 = (num::parse_dec_at(s, i)->0).1;
    lemma_parse_cstring_body_some(s, i1 + 2);
    let i2 = (parse_cstring_body(s, i1 + 2)->0).1;
    num::lemma_parse_dec_some(s, i2 + 1);
}

/// A successful row makes progress and stays inside the text.
pub proof fn lemma_parse_csv_post_some(s: Seq<char>, i: int)
    requires
        0 <= i <= s.len(),
        parse_csv_post(s, i) is Some,
    ensures
        parse_csv_post(s, i) matches Some(p) && i < p.1 <= s.len(),
{
    num::lemma_parse_dec_some(s, i);
    let i1 = (num::parse_dec_at(s, i)->0).1;
    lemma_parse_cstring_body_some(s, i1 + 2);
}

/// What parsing user rows until the end of the text yields.
pub open spec fn parse_csv_user_rows(s: Seq<char>, i: int) -> Option<Seq<UserV>>
    decreases s.len() - i,
    via check_parse_csv_user_rows
{
    if i < 0 || i > s.len() {
        None
    } else if i == s.len() {
        Some(Seq::<UserV>::empty())
    } else {
        match parse_csv_user(s, i) {
            None => None,
            Some((u, j)) => match parse_csv_user_rows(s, j) {
                None => None,
                Some(rest) => Some(seq![u] + rest),
            },
        }
    }
}

#[via_fn]
proof fn check_parse_csv_user_rows(s: Seq<char>, i: int) {
    if 0 <= i < s.len() {
        if parse_csv_user(s, i) is Some {
            lemma_parse_csv_user_some(s, i);
        }
    }
}

/// What parsing post rows until the end of the text yields.
pub open spec fn parse_csv_post_rows(s: Seq<char>, i: int) -> Option<Seq<PostV>>
    decreases s.len() - i,
    via check_parse_csv_post_rows
{
    if i < 0 || i > s.len() {
        None
    } else if i == s.len() {
        Some(Seq::<PostV>::empty())
    } else {
        match parse_csv_post(s, i) {
            None => None,
            Some((p, j)) => match parse_csv_post_rows(s, j) {
                None => None,
                Some(rest) => Some(seq![p] + rest),
            },
        }
    }
}

#[via_fn]
proof fn check_parse_csv_post_rows(s: Seq<char>, i: int) {
    if 0 <= i < s.len() {
        if parse_csv_post(s, i) is Some {
            lemma_parse_csv_post_some(s, i);
        }
    }
}

/// What decoding a whole user relation file yields: the header line, then
/// one row per record, to the very end.
pub open spec fn parse_csv_users_doc(s: Seq<char>) -> Option<Seq<UserV>> {
    if lit_at(s, 0, users_header()) {
        parse_csv_user_rows(s, users_header().len() as int)
    } else {
        None
    }
}

/// What decoding a whole post relation file yields.
pub open spec fn parse_csv_posts_doc(s: Seq<char>) -> Option<Seq<PostV>> {
    if lit_at(s, 0, posts_header()) {
        parse_csv_post_rows(s, posts_header().len() as int)
    } else {
        None
    }
}

/// The layout of a user row's rendering: its fields and separators, by
/// position.
#[verifier::spinoff_prover]
pub proof fn lemma_csv_user_segments(u: UserV)
    ensures
        ({
            let w = csv_user(u);
            let d1 = num::dec(u.id);
            let q = cesc(u.name);
            let d2 = num::dec(u.age as u128);
            let o1 = d1.len();
            let o2 = o1 + 2 + q.len() + 1;
            let o3 = o2 + 1 + d2.len();
            &&& w.len() == o3 + 1
            &&& w.subrange(0, o1 as int) == d1
            &&& w[o1 as int] == ','
            &&& w[o1 + 1 as int] == '"'
            &&& w.subrange(o1 + 2 as int, o2 as int) == q.push('"')
            &&& w[o2 as int] == ','
            &&& w.subrange(o2 + 1 as int, o3 as int) == d2
            &&& w[o3 as int] == '\n'
        }),
{
    let w = csv_user(u);
    let d1 = num::dec(u.id);
    let q = cesc(u.name);
    let d2 = num::dec(u.age as u128);
    let o1 = d1.len();
    let o2 = o1 + 2 + q.len() + 1;
    let o3 = o2 + 1 + d2.len();
    assert(w.subrange(0, o1 as int) =~= d1);
    assert(w.subrange(o1 + 2 as int, o2 as int) =~= q.push('"'));
    assert(w.subrange(o2 + 1 as int, o3 as int) =~= d2);
}

/// Parsing a user row picks up exactly its rendering.
#[verifier::rlimit(100)]
#[verifier::spinoff_prover]
pub proof fn lemma_parse_csv_user_of(s: Seq<char>, i: int, u: UserV)
    requires
        0 <= i,
        i + csv_user(u).len() <= s.len(),
        s.subrange(i, i + csv_user(u).len()) == csv_user(u),
    ensures
        parse_csv_user(s, i) == Some((u, i + csv_user(u).len())),
{
    let w = csv_user(u);
    let d1 = num::dec(u.id);
    let q = cesc(u.name);
    let d2 = num::dec(u.age as u128);
    let p1 = i + d1.len();
    let p2 = p1 + 2 + q.len() + 1;
    let p3 = p2 + 1 + d2.len();
    let e = i + w.len();
    lemma_csv_user_segments(u);
    num::lemma_dec_digits(u.id);
    num::lemma_dec_digits(u.age as u128);
    // the identifier, then ','
    crate::codec::json::lemma_subwindow(s, i, w, 0, p1 - i);
    crate::codec::json::lemma_subwindow(s, i, w, p1 - i, p1 - i + 1);
    assert(s[p1] == s.subrange(p1, p1 + 1)[0]);
    assert(s[p1] == ',');
    num::lemma_parse_of_dec(s, i, u.id);
    // the quoted name
    crate::codec::json::lemma_subwindow(s, i, w, p1 - i + 1, p1 - i + 2);
    assert(s[p1 + 1] == s.subrange(p1 + 1, p1 + 2)[0]);
    assert(s[p1 + 1] == '"');
    crate::codec::json::lemma_subwindow(s, i, w, p1 - i + 2, p2 - i);
    crate::codec::json::lemma_subwindow(s, i, w, p2 - i, p2 - i + 1);
    assert(s[p2] == s.subrange(p2, p2 + 1)[0]);
    assert(s[p2] == ',');
    lemma_parse_cstring_body_of_cesc(s, p1 + 2, u.name);
    // the age, then the line break
    crate::codec::json::lemma_subwindow(s, i, w, p2 - i + 1, p3 - i);
    crate::codec::json::lemma_subwindow(s, i, w, p3 - i, p3 - i + 1);
    assert(s[p3] == s.subrange(p3, p3 + 1)[0]);
    assert(s[p3] == '\n');
    num::lemma_parse_of_dec(s, p2 + 1, u.age as u128);
    assert(parse_csv_user(s, i) == Some(
        (UserV { id: u.id, name: u.name, age: (u.age as u128) as u8 }, e),
    ));
    assert(UserV { id: u.id, name: u.name, age: (u.age as u128) as u8 } == u);
}

/// The layout of a post row's rendering: its fields and separators, by
/// position.
#[verifier::spinoff_prover]
pub proof fn lemma_csv_post_segments(p: PostV)
    ensures
        ({
            let w = csv_post(p);
            let d1 = num::dec(p.id);
            let q = cesc(p.title);
            let o1 = d1.len();
            let o2 = o1 + 2 + q.len() + 1;
            &&& w.len() == o2 + 1
            &&& w.subrange(0, o1 as int) == d1
            &&& w[o1 as int] == ','
            &&& w[o1 + 1 as int] == '"'
            &&& w.subrange(o1 + 2 as int, o2 as int) == q.push('"')
            &&& w[o2 as int] == '\n'
        }),
{
    let w = csv_post(p);
    let d1 = num::dec(p.id);
    let q = cesc(p.title);
    let o1 = d1.len();
    let o2 = o1 + 2 + q.len() + 1;
    assert(w.subrange(0, o1 as int) =~= d1);
    assert(w.subrange(o1 + 2 as int, o2 as int) =~= q.push('"'));
}

/// Parsing a post row picks up exactly its rendering.
#[verifier::rlimit(100)]
#[verifier::spinoff_prover]
pub proof fn lemma_parse_csv_post_of(s: Seq<char>, i: int, p: PostV)
    requires
        0 <= i,
        i + csv_post(p).len() <= s.len(),
        s.subrange(i, i + csv_post(p).len()) == csv_post(p),
    ensures
        parse_csv_post(s, i) == Some((p, i + csv_post(p).len())),
{
    let w = csv_post(p);
    let d1 = num::dec(p.id);
    let q = cesc(p.title);
    let p1 = i + d1.len();
    let p2 = p1 + 2 + q.len() + 1;
    let e = i + w.len();
    lemma_csv_post_segments(p);
    num::lemma_dec_digits(p.id);
    crate::codec::json::lemma_subwindow(s, i, w, 0, p1 - i);
    crate::codec::json::lemma_subwindow(s, i, w, p1 - i, p1 - i + 1);
    assert(s[p1] == s.subrange(p1, p1 + 1)[0]);
    assert(s[p1] == ',');
    num::lemma_parse_of_dec(s, i, p.id);
    crate::codec::json::lemma_subwindow(s, i, w, p1 - i + 1, p1 - i + 2);
    assert(s[p1 + 1] == s.subrange(p1 + 1, p1 + 2)[0]);
    assert(s[p1 + 1] == '"');
    crate::codec::json::lemma_subwindow(s, i, w, p1 - i + 2, p2 - i);
    crate::codec::json::lemma_subwindow(s, i, w, p2 - i, p2 - i + 1);
    assert(s[p2] == s.subrange(p2, p2 + 1)[0]);
    assert(s[p2] == '\n');
    lemma_parse_cstring_body_of_cesc(s, p1 + 2, p.title);
    assert(parse_csv_post(s, i) == Some((PostV { id: p.id, title: p.title }, e)));
}

/// Parsing rows to the end of the text picks up exactly the rendered
/// rows, when the rendering reaches exactly to the end.
pub proof fn lemma_parse_csv_user_rows_of(s: Seq<char>, i: int, us: Seq<UserV>)
    requires
        0 <= i,
        i + csv_user_rows(us).len() == s.len(),
        s.subrange(i, i + csv_user_rows(us).len()) == csv_user_rows(us),
    ensures
        parse_csv_user_rows(s, i) == Some(us),
    decreases us.len(),
{
    let w = csv_user_rows(us);
    let e = i + w.len();
    if us.len() == 0 {
    } else {
        let r0 = csv_user(us[0]);
        let rest = csv_user_rows(us.drop_first());
        assert(w == r0 + rest);
        assert(s.subrange(i, i + r0.len() as int) =~= r0) by {
            assert forall|t: int| 0 <= t < r0.len() implies s.subrange(
                i,
                i + r0.len() as int,
            )[t] == r0[t] by {
                assert(s[i + t] == s.subrange(i, e)[t]);
            }
        }
        lemma_parse_csv_user_of(s, i, us[0]);
        assert(s.subrange(i + r0.len() as int, e) =~= rest) by {
            assert forall|t: int| 0 <= t < rest.len() implies s.subrange(
                i + r0.len() as int,
                e,
            )[t] == rest[t] by {
                assert(s[i + r0.len() + t] == s.subrange(i, e)[r0.len() + t]);
            }
        }
        lemma_parse_csv_user_rows_of(s, i + r0.len() as int, us.drop_first());
        assert(seq![us[0]] + us.drop_first() =~= us);
    }
}

/// Parsing rows to the end of the text picks up exactly the rendered
/// rows, when the rendering reaches exactly to the end.
pub proof fn lemma_parse_csv_post_rows_of(s: Seq<char>, i: int, ps: Seq<PostV>)
    requires
        0 <= i,
        i + csv_post_rows(ps).len() == s.len(),
        s.subrange(i, i + csv_post_rows(ps).len()) == csv_post_rows(ps),
    ensures
        parse_csv_post_rows(s, i) == Some(ps),
    decreases ps.len(),
{
    let w = csv_post_rows(ps);
    let e = i + w.len();
    if ps.len() == 0 {
    } else {
        let r0 = csv_post(ps[0]);
        let rest = csv_post_rows(ps.drop_first());
        assert(w == r0 + rest);
        assert(s.subrange(i, i + r0.len() as int) =~= r0) by {
            assert forall|t: int| 0 <= t < r0.len() implies s.subrange(
                i,
                i + r0.len() as int,
            )[t] == r0[t] by {
                assert(s[i + t] == s.subrange(i, e)[t]);
            }
        }
        lemma_parse_csv_post_of(s, i, ps[0]);
        assert(s.subrange(i + r0.len() as int, e) =~= rest) by {
            assert forall|t: int| 0 <= t < rest.len() implies s.subrange(
                i + r0.len() as int,
                e,
            )[t] == rest[t] by {
                assert(s[i + r0.len() + t] == s.subrange(i, e)[r0.len() + t]);
            }
        }
        lemma_parse_csv_post_rows_of(s, i + r0.len() as int, ps.drop_first());
        assert(seq![ps[0]] + ps.drop_first() =~= ps);
    }
}

/// Decoding reads back exactly what encoding a user relation wrote.
pub proof fn lemma_csv_users_round_trip(us: Seq<UserV>)
    ensures
        parse_csv_users_doc(csv_users(us)) == Some(us),
{
    let w = csv_users(us);
    let h = users_header();
    assert(w.subrange(0, h.len() as int) =~= h);
    assert(lit_at(w, 0, h));
    assert(w.subrange(h.len() as int, w.len() as int) =~= csv_user_rows(us));
    lemma_parse_csv_user_rows_of(w, h.len() as int, us);
}

/// Decoding reads back exactly what encoding a post relation wrote.
pub proof fn lemma_csv_posts_round_trip(ps: Seq<PostV>)
    ensures
        parse_csv_posts_doc(csv_posts(ps)) == Some(ps),
{
    let w = csv_posts(ps);
    let h = posts_header();
    assert(w.subrange(0, h.len() as int) =~= h);
    assert(lit_at(w, 0, h));
    assert(w.subrange(h.len() as int, w.len() as int) =~= csv_post_rows(ps));
    lemma_parse_csv_post_rows_of(w, h.len() as int, ps);
}

/// Parses a quoted field's body, starting just past the opening quote.
fn p_cstring_body(s: &Vec<char>, i: usize) -> (r: Option<(Vec<char>, usize)>)
    requires
        i <= s@.len(),
    ensures
        r matches Some(p) ==> parse_cstring_body(s@, i as int) == Some((p.0@, p.1 as int))
            && p.1 <= s@.len(),
        r is None ==> parse_cstring_body(s@, i as int) is None,
    decreases s@.len() - i,
{
    if i >= s.len() {
        return None;
    }
    let c = s[i];
    if c == '"' {
        if i + 1 < s.len() {
            let c2 = s[i + 1];
            if c2 == '"' {
                return match p_cstring_body(s, i + 2) {
                    Some((tail, j)) => {
                        let mut v: Vec<char> = Vec::new();
                        v.push('"');
                        let mut tail = tail;
                        v.append(&mut tail);
                        Some((v, j))
                    },
                    None => None,
                };
            }
        }
        let empty_content: Vec<char> = Vec::new();
        return Some((empty_content, i + 1));
    }
    match p_cstring_body(s, i + 1) {
        Some((tail, j)) => {
            let mut v: Vec<char> = Vec::new();
            v.push(c);
            let mut tail = tail;
            v.append(&mut tail);
            Some((v, j))
        },
        None => None,
    }
}

/// Parses one user row.
fn p_csv_user(s: &Vec<char>, i: usize) -> (r: Option<(User, usize)>)
    requires
        i <= s@.len(),
    ensures
        r matches Some(p) ==> parse_csv_user(s@, i as int) == Some((p.0.deep_view(), p.1 as int))
            && i < p.1 <= s@.len(),
        r is None ==> parse_csv_user(s@, i as int) is None,
{
    let (idv, i1) = match num::parse_u128(s, i) {
        Some(v) => v,
        None => {
            return None;
        },
    };
    proof {
        num::lemma_parse_dec_some(s@, i as int);
    }
    if i1 >= s.len() || s[i1] != ',' {
        return None;
    }
    if i1 + 1 >= s.len() || s[i1 + 1] != '"' {
        return None;
    }
    let (nm, i2) = match p_cstring_body(s, i1 + 2) {
        Some(v) => v,
        None => {
            return None;
        },
    };
    if !(i2 < s.len() && s[i2] == ',') {
        return None;
    }
    let (agev, i3) = match num::parse_u128(s, i2 + 1) {
        Some(v) => v,
        None => {
            return None;
        },
    };
    if !(agev <= 255 && i3 < s.len() && s[i3] == '\n') {
        return None;
    }
    proof {
        lemma_parse_csv_user_some(s@, i as int);
    }
    Some((User { id: idv, name: crate::codec::chars_to_string(&nm), age: agev as u8 }, i3 + 1))
}

/// Parses one post row.
fn p_csv_post(s: &Vec<char>, i: usize) -> (r: Option<(Post, usize)>)
    requires
        i <= s@.len(),
    ensures
        r matches Some(p) ==> parse_csv_post(s@, i as int) == Some((p.0.deep_view(), p.1 as int))
            && i < p.1 <= s@.len(),
        r is None ==> parse_csv_post(s@, i as int) is None,
{
    let (idv, i1) = match num::parse_u128(s, i) {
        Some(v) => v,
        None => {
            return None;
        },
    };
    proof {
        num::lemma_parse_dec_some(s@, i as int);
    }
    if i1 >= s.len() || s[i1] != ',' {
        return None;
    }
    if i1 + 1 >= s.len() || s[i1 + 1] != '"' {
        return None;
    }
    let (ti, i2) = match p_cstring_body(s, i1 + 2) {
        Some(v) => v,
        None => {
            return None;
        },
    };
    if !(i2 < s.len() && s[i2] == '\n') {
        return None;
    }
    proof {
        lemma_parse_csv_post_some(s@, i as int);
    }
    Some((Post { id: idv, title: crate::codec::chars_to_string(&ti) }, i2 + 1))
}

/// Parses user rows until the end of the text.
fn p_csv_user_rows(s: &Vec<char>, i: usize) -> (r: Option<Vec<User>>)
    requires
        i <= s@.len(),
    ensures
        r matches Some(v) ==> parse_csv_user_rows(s@, i as int) == Some(v.deep_view()),
        r is None ==> parse_csv_user_rows(s@, i as int) is None,
    decreases s@.len() - i,
{
    if i == s.len() {
        let v: Vec<User> = Vec::new();
        proof {
            assert(v.deep_view() =~= Seq::<UserV>::empty());
        }
        return Some(v);
    }
    match p_csv_user(s, i) {
        None => None,
        Some((u, j)) => match p_csv_user_rows(s, j) {
            None => None,
            Some(rest) => {
                let mut v: Vec<User> = Vec::new();
                v.push(u);
                let mut rest = rest;
                v.append(&mut rest);
                proof {
                    assert(v.deep_view() =~= seq![u.deep_view()] + parse_csv_user_rows(
                        s@,
                        j as int,
                    )->0);
                }
                Some(v)
            },
        },
    }
}

/// Parses post rows until the end of the text.
fn p_csv_post_rows(s: &Vec<char>, i: usize) -> (r: Option<Vec<Post>>)
    requires
        i <= s@.len(),
    ensures
        r matches Some(v) ==> parse_csv_post_rows(s@, i as int) == Some(v.deep_view()),
        r is None ==> parse_csv_post_rows(s@, i as int) is None,
    decreases s@.len() - i,
{
    if i == s.len() {
        let v: Vec<Post> = Vec::new();
        proof {
            assert(v.deep_view() =~= Seq::<PostV>::empty());
        }
        return Some(v);
    }
    match p_csv_post(s, i) {
        None => None,
        Some((p, j)) => match p_csv_post_rows(s, j) {
            None => None,
            Some(rest) => {
                let mut v: Vec<Post> = Vec::new();
                v.push(p);
                let mut rest = rest;
                v.append(&mut rest);
                proof {
                    assert(v.deep_view() =~= seq![p.deep_view()] + parse_csv_post_rows(
                        s@,
                        j as int,
                    )->0);
                }
                Some(v)
            },
        },
    }
}

/// The description carried by a decode failure.
fn bad_csv() -> (r: String)
    ensures
        r@ == "malformed input"@,
{
    String::from_str("malformed input")
}

/// Checks the user header line at the start of the text.
fn check_users_header(s: &Vec<char>) -> (r: bool)
    ensures
        r == lit_at(s@, 0, users_header()),
{
    if s.len() < 12 {
        proof {
            assert(!lit_at(s@, 0, users_header()));
        }
        return false;
    }
    let ok = s[0] == 'i' && s[1] == 'd' && s[2] == ',' && s[3] == 'n' && s[4] == 'a' && s[5]
        == 'm' && s[6] == 'e' && s[7] == ',' && s[8] == 'a' && s[9] == 'g' && s[10] == 'e'
        && s[11] == '\n';
    proof {
        if ok {
            assert(s@.subrange(0, 12) =~= users_header());
        } else {
            if lit_at(s@, 0, users_header()) {
                assert forall|t: int| 0 <= t < 12 implies s@[t] == users_header()[t] by {
                    assert(s@.subrange(0, 12)[t] == users_header()[t]);
                }
            }
        }
    }
    ok
}

/// Checks the post header line at the start of the text.
fn check_posts_header(s: &Vec<char>) -> (r: bool)
    ensures
        r == lit_at(s@, 0, posts_header()),
{
    if s.len() < 9 {
        proof {
            assert(!lit_at(s@, 0, posts_header()));
        }
        return false;
    }
    let ok = s[0] == 'i' && s[1] == 'd' && s[2] == ',' && s[3] == 't' && s[4] == 'i' && s[5]
        == 't' && s[6] == 'l' && s[7] == 'e' && s[8] == '\n';
    proof {
        if ok {
            assert(s@.subrange(0, 9) =~= posts_header());
        } else {
            if lit_at(s@, 0, posts_header()) {
                assert forall|t: int| 0 <= t < 9 implies s@[t] == posts_header()[t] by {
                    assert(s@.subrange(0, 9)[t] == posts_header()[t]);
                }
            }
        }
    }
    ok
}

/// Decodes a whole user relation file.
pub fn decode_csv_users(s: &str) -> (r: Result<Vec<User>, JoydbError>)
    ensures
        r matches Ok(v) ==> parse_csv_users_doc(s@) == Some(v.deep_view()),
        r matches Err(e) ==> parse_csv_users_doc(s@) is None && e matches JoydbError::Deserialize(
            _,
        ),
{
    let chars = crate::codec::str_to_chars(s);
    if !check_users_header(&chars) {
        return Err(JoydbError::Deserialize(bad_csv()));
    }
    match p_csv_user_rows(&chars, 12) {
        Some(v) => Ok(v),
        None => Err(JoydbError::Deserialize(bad_csv())),
    }
}

/// Decodes a whole post relation file.
pub fn decode_csv_posts(s: &str) -> (r: Result<Vec<Post>, JoydbError>)
    ensures
        r matches Ok(v) ==> parse_csv_posts_doc(s@) == Some(v.deep_view()),
        r matches Err(e) ==> parse_csv_posts_doc(s@) is None && e matches JoydbError::Deserialize(
            _,
        ),
{
    let chars = crate::codec::str_to_chars(s);
    if !check_posts_header(&chars) {
        return Err(JoydbError::Deserialize(bad_csv()));
    }
    match p_csv_post_rows(&chars, 9) {
        Some(v) => Ok(v),
        None => Err(JoydbError::Deserialize(bad_csv())),
    }
}

/// Appends the quoted rendering of `x`.
#[verifier::loop_isolation(false)]
fn push_cquoted(out: &mut Vec<char>, x: &str)
    ensures
        final(out)@ == old(out)@ + cquoted(x@),
{
    out.push('"');
    let chars = crate::codec::str_to_chars(x);
    let n = chars.len();
    let mut k: usize = 0;
    while k < n
        invariant
            k <= n,
            n == x@.len(),
            chars@ == x@,
            out@ == old(out)@ + seq!['"'] + cesc(x@.subrange(0, k as int)),
        decreases n - k,
    {
        let c = chars[k];
        if c == '"' {
            out.push('"');
        }
        out.push(c);
        proof {
            let a = x@.subrange(0, k as int);
            lemma_cesc_push(a, c);
            assert(x@.subrange(0, k + 1) =~= a.push(c));
            assert(out@ =~= old(out)@ + seq!['"'] + cesc(x@.subrange(0, k + 1)));
        }
        k = k + 1;
    }
    out.push('"');
    proof {
        assert(x@.subrange(0, n as int) =~= x@);
        assert(out@ =~= old(out)@ + cquoted(x@));
    }
}

/// Appends the row of one user record.
fn push_csv_user(out: &mut Vec<char>, u: &User)
    ensures
        final(out)@ == old(out)@ + csv_user(u.deep_view()),
{
    num::push_dec(u.id, out);
    out.push(',');
    push_cquoted(out, u.name.as_str());
    out.push(',');
    num::push_dec(u.age as u128, out);
    out.push('\n');
    proof {
        assert(out@ =~= old(out)@ + csv_user(u.deep_view()));
    }
}

/// Appends the row of one post record.
fn push_csv_post(out: &mut Vec<char>, p: &Post)
    ensures
        final(out)@ == old(out)@ + csv_post(p.deep_view()),
{
    num::push_dec(p.id, out);
    out.push(',');
    push_cquoted(out, p.title.as_str());
    out.push('\n');
    proof {
        assert(out@ =~= old(out)@ + csv_post(p.deep_view()));
    }
}

/// Appends the rows of the user records from `from` to the end.
fn push_csv_user_rows(out: &mut Vec<char>, users: &Vec<User>, from: usize)
    requires
        from <= users@.len(),
    ensures
        final(out)@ == old(out)@ + csv_user_rows(
            users.deep_view().subrange(from as int, users.deep_view().len() as int),
        ),
    decreases users@.len() - from,
{
    let ghost sub = users.deep_view().subrange(from as int, users.deep_view().len() as int);
    if from == users.len() {
        proof {
            assert(out@ =~= old(out)@ + csv_user_rows(sub));
        }
        return ;
    }
    push_csv_user(out, &users[from]);
    push_csv_user_rows(out, users, from + 1);
    proof {
        assert(sub[0] == users.deep_view()[from as int]);
        assert(sub.drop_first() =~= users.deep_view().subrange(
            from + 1,
            users.deep_view().len() as int,
        ));
        assert(out@ =~= old(out)@ + csv_user_rows(sub));
    }
}

/// Appends the rows of the post records from `from` to the end.
fn push_csv_post_rows(out: &mut Vec<char>, posts: &Vec<Post>, from: usize)
    requires
        from <= posts@.len(),
    ensures
        final(out)@ == old(out)@ + csv_post_rows(
            posts.deep_view().subrange(from as int, posts.deep_view().len() as int),
        ),
    decreases posts@.len() - from,
{
    let ghost sub = posts.deep_view().subrange(from as int, posts.deep_view().len() as int);
    if from == posts.len() {
        proof {
            assert(out@ =~= old(out)@ + csv_post_rows(sub));
        }
        return ;
    }
    push_csv_post(out, &posts[from]);
    push_csv_post_rows(out, posts, from + 1);
    proof {
        assert(sub[0] == posts.deep_view()[from as int]);
        assert(sub.drop_first() =~= posts.deep_view().subrange(
            from + 1,
            posts.deep_view().len() as int,
        ));
        assert(out@ =~= old(out)@ + csv_post_rows(sub));
    }
}

/// Encodes a user relation as a CSV file.
pub fn encode_csv_users(users: &Vec<User>) -> (r: String)
    ensures
        r@ == csv_users(users.deep_view()),
{
    let mut out: Vec<char> = Vec::new();
    out.push('i');
    out.push('d');
    out.push(',');
    out.push('n');
    out.push('a');
    out.push('m');
    out.push('e');
    out.push(',');
    out.push('a');
    out.push('g');
    out.push('e');
    out.push('\n');
    proof {
        assert(out@ =~= users_header());
    }
    push_csv_user_rows(&mut out, users, 0);
    proof {
        assert(users.deep_view().subrange(0, users.deep_view().len() as int) =~= users.deep_view());
        assert(out@ =~= csv_users(users.deep_view()));
    }
    crate::codec::chars_to_string(&out)
}

/// Encodes a post relation as a CSV file.
pub fn encode_csv_posts(posts: &Vec<Post>) -> (r: String)
    ensures
        r@ == csv_posts(posts.deep_view()),
{
    let mut out: Vec<char> = Vec::new();
    out.push('i');
    out.push('d');
    out.push(',');
    out.push('t');
    out.push('i');
    out.push('t');
    out.push('l');
    out.push('e');
    out.push('\n');
    proof {
        assert(out@ =~= posts_header());
    }
    push_csv_post_rows(&mut out, posts, 0);
    proof {
        assert(posts.deep_view().subrange(0, posts.deep_view().len() as int) =~= posts.deep_view());
        assert(out@ =~= csv_posts(posts.deep_view()));
    }
    crate::codec::chars_to_string(&out)
}

} // verus!
