//! The RON codec: the committed text format of relations and of the whole
//! state under the RON adapters.
//!
//! A record renders as a parenthesized list of bare `field:value` pairs; a
//! relation file is an array of records, a unified state file one
//! parenthesized pair list with one bare key per registered relation.
//! Strings are quoted and escaped exactly as in the JSON format. The
//! compact form writes no whitespace; the pretty form puts each record on
//! its own line. The parser accepts insignificant whitespace between
//! tokens in either case.

use vstd::prelude::*;
use vstd::string::StringExecFns;

use crate::codec::json::{lemma_subwindow, nl, lemma_nl_ws};
use crate::codec::num;
use crate::codec::text;
use crate::error::JoydbError;
use crate::model::{Post, PostV, User, UserV};

verus! {

/// What consuming a bare object key yields: any whitespace, the key's
/// characters, and a colon directly after them.
pub open spec fn key_at(s: Seq<char>, i: int, key: Seq<char>) -> Option<int> {
    let j = text::skip_ws(s, i);
    if j + key.len() + 1 <= s.len() && s.subrange(j, j + key.len() as int) == key && s[j
        + key.len()] == ':' {
        Some(j + key.len() + 1)
    } else {
        None
    }
}

/// A successful key makes progress and stays inside the text.
pub proof fn lemma_key_at_some(s: Seq<char>, i: int, key: Seq<char>)
    requires
        0 <= i <= s.len(),
        key_at(s, i, key) is Some,
    ensures
        i < key_at(s, i, key)->0 <= s.len(),
{
    text::lemma_skip_ws_bounds(s, i);
}

/// Parsing a bare key picks up exactly its rendering, across any leading
/// whitespace, provided the key starts with a non-whitespace character.
pub proof fn lemma_key_at_of(s: Seq<char>, i: int, j: int, key: Seq<char>)
    requires
        0 <= i <= j,
        key.len() >= 1,
        !text::is_ws(key[0]),
        j + key.len() + 1 <= s.len(),
        forall|t: int| i <= t < j ==> text::is_ws(#[trigger] s[t]),
        s.subrange(j, j + key.len() + 1) == key.push(':'),
    ensures
        key_at(s, i, key) == Some(j + key.len() + 1),
{
    let e = j + key.len() + 1;
    assert(s[j] == s.subrange(j, e)[0]);
    assert(s[j] == key[0]);
    text::lemma_skip_ws_of_run(s, i, j);
    assert(s.subrange(j, j + key.len() as int) =~= key) by {
        assert forall|t: int| 0 <= t < key.len() implies s.subrange(j, j + key.len() as int)[t]
            == key[t] by {
            assert(s[j + t] == s.subrange(j, e)[t]);
        }
    }
    assert(s[j + key.len()] == s.subrange(j, e)[key.len() as int]);
}

/// The RON rendering of one user record.
pub open spec fn ron_user(u: UserV) -> Seq<char> {
    seq!['(', 'i', 'd', ':'] + num::dec(u.id) + seq![',', 'n', 'a', 'm', 'e', ':']
        + text::quoted(u.name) + seq![',', 'a', 'g', 'e', ':'] + num::dec(u.age as u128) + seq![
        ')',
    ]
}

/// The RON rendering of one post record.
pub open spec fn ron_post(p: PostV) -> Seq<char> {
    seq!['(', 'i', 'd', ':'] + num::dec(p.id) + seq![',', 't', 'i', 't', 'l', 'e', ':']
        + text::quoted(p.title) + seq![')']
}

/// What parsing one user record yields.
pub open spec fn parse_ron_user(s: Seq<char>, i: int) -> Option<(UserV, int)> {
    match text::tok(s, i, '(') {
        None => None,
        Some(i1) => match key_at(s, i1, seq!['i', 'd']) {
            None => None,
            Some(i2) => match crate::codec::json::parse_num_at(s, i2) {
                None => None,
                Some((idv, i3)) => match text::tok(s, i3, ',') {
                    None => None,
                    Some(i4) => match key_at(s, i4, seq!['n', 'a', 'm', 'e']) {
                        None => None,
                        Some(i5) => match text::parse_quoted(s, i5) {
                            None => None,
                            Some((nm, i6)) => match text::tok(s, i6, ',') {
                                None => None,
                                Some(i7) => match key_at(s, i7, seq!['a', 'g', 'e']) {
                                    None => None,
                                    Some(i8) => match crate::codec::json::parse_num_at(s, i8) {
                                        None => None,
                                        Some((agev, i9)) => if agev <= 255 {
                                            match text::tok(s, i9, ')') {
                                                None => None,
                                                Some(i10) => Some(
                                                    (
                                                        UserV {
                                                            id: idv,
                                                            name: nm,
                                                            age: agev as u8,
                                                        },
                                                        i10,
                                                    ),
                                                ),
                                            }
                                        } else {
                                            None
                                        },
                                    },
                                },
                            },
                        },
                    },
                },
            },
        },
    }
}

/// What parsing one post record yields.
pub open spec fn parse_ron_post(s: Seq<char>, i: int) -> Option<(PostV, int)> {
    match text::tok(s, i, '(') {
        None => None,
        Some(i1) => match key_at(s, i1, seq!['i', 'd']) {
            None => None,
            Some(i2) => match crate::codec::json::parse_num_at(s, i2) {
                None => None,
                Some((idv, i3)) => match text::tok(s, i3, ',') {
                    None => None,
                    Some(i4) => match key_at(s, i4, seq!['t', 'i', 't', 'l', 'e']) {
                        None => None,
                        Some(i5) => match text::parse_quoted(s, i5) {
                            None => None,
                            Some((ti, i6)) => match text::tok(s, i6, ')') {
                                None => None,
                                Some(i7) => Some((PostV { id: idv, title: ti }, i7)),
                            },
                        },
                    },
                },
            },
        },
    }
}

/// A successful user record makes progress and stays inside the text.
pub proof fn lemma_parse_ron_user_some(s: Seq<char>, i: int)
    requires
        0 <= i <= s.len(),
        parse_ron_user(s, i) is Some,
    ensures
        parse_ron_user(s, i) matches Some(p) && i < p.1 <= s.len(),
{
    text::lemma_tok_some(s, i, '(');
    let i1 = text::tok(s, i, '(')->0;
    lemma_key_at_some(s, i1, seq!['i', 'd']);
    let i2 = key_at(s, i1, seq!['i', 'd'])->0;
    crate::codec::json::lemma_parse_num_some(s, i2);
    let i3 = (crate::codec::json::parse_num_at(s, i2)->0).1;
    text::lemma_tok_some(s, i3, ',');
    let i4 = text::tok(s, i3, ',')->0;
    lemma_key_at_some(s, i4, seq!['n', 'a', 'm', 'e']);
    let i5 = key_at(s, i4, seq!['n', 'a', 'm', 'e'])->0;
    text::lemma_parse_quoted_some(s, i5);
    let i6 = (text::parse_quoted(s, i5)->0).1;
    text::lemma_tok_some(s, i6, ',');
    let i7 = text::tok(s, i6, ',')->0;
    lemma_key_at_some(s, i7, seq!['a', 'g', 'e']);
    let i8 = key_at(s, i7, seq!['a', 'g', 'e'])->0;
    crate::codec::json::lemma_parse_num_some(s, i8);
    let i9 = (crate::codec::json::parse_num_at(s, i8)->0).1;
    text::lemma_tok_some(s, i9, ')');
}

/// A successful post record makes progress and stays inside the text.
pub proof fn lemma_parse_ron_post_some(s: Seq<char>, i: int)
    requires
        0 <= i <= s.len(),
        parse_ron_post(s, i) is Some,
    ensures
        parse_ron_post(s, i) matches Some(p) && i < p.1 <= s.len(),
{
    text::lemma_tok_some(s, i, '(');
    let i1 = text::tok(s, i, '(')->0;
    lemma_key_at_some(s, i1, seq!['i', 'd']);
    let i2 = key_at(s, i1, seq!['i', 'd'])->0;
    crate::codec::json::lemma_parse_num_some(s, i2);
    let i3 = (crate::codec::json::parse_num_at(s, i2)->0).1;
    text::lemma_tok_some(s, i3, ',');
    let i4 = text::tok(s, i3, ',')->0;
    lemma_key_at_some(s, i4, seq!['t', 'i', 't', 'l', 'e']);
    let i5 = key_at(s, i4, seq!['t', 'i', 't', 'l', 'e'])->0;
    text::lemma_parse_quoted_some(s, i5);
    let i6 = (text::parse_quoted(s, i5)->0).1;
    text::lemma_tok_some(s, i6, ')');
}

/// The layout of a user record's rendering: its punctuation, keys and
/// value segments, by position.
#[verifier::spinoff_prover]
pub proof fn lemma_ron_user_segments(u: UserV)
    ensures
        ({
            let w = ron_user(u);
            let d1 = num::dec(u.id);
            let q1 = text::quoted(u.name);
            let d2 = num::dec(u.age as u128);
            let o2 = 4 + d1.len();
            let o3 = o2 + 6;
            let o4 = o3 + q1.len();
            let o5 = o4 + 5;
            let o6 = o5 + d2.len();
            &&& w.len() == o6 + 1
            &&& w[0] == '('
            &&& w.subrange(1, 4) == seq!['i', 'd'].push(':')
            &&& w.subrange(4, o2 as int) == d1
            &&& w[o2 as int] == ','
            &&& w.subrange(o2 + 1 as int, o3 as int) == seq!['n', 'a', 'm', 'e'].push(':')
            &&& w.subrange(o3 as int, o4 as int) == q1
            &&& w[o4 as int] == ','
            &&& w.subrange(o4 + 1 as int, o5 as int) == seq!['a', 'g', 'e'].push(':')
            &&& w.subrange(o5 as int, o6 as int) == d2
            &&& w[o6 as int] == ')'
        }),
{
    let w = ron_user(u);
    let d1 = num::dec(u.id);
    let q1 = text::quoted(u.name);
    let d2 = num::dec(u.age as u128);
    let o2 = 4 + d1.len();
    let o3 = o2 + 6;
    let o4 = o3 + q1.len();
    let o5 = o4 + 5;
    let o6 = o5 + d2.len();
    assert(w.subrange(1, 4) =~= seq!['i', 'd'].push(':'));
    assert(w.subrange(4, o2 as int) =~= d1);
    assert(w.subrange(o2 + 1 as int, o3 as int) =~= seq!['n', 'a', 'm', 'e'].push(':'));
    assert(w.subrange(o3 as int, o4 as int) =~= q1);
    assert(w.subrange(o4 + 1 as int, o5 as int) =~= seq!['a', 'g', 'e'].push(':'));
    assert(w.subrange(o5 as int, o6 as int) =~= d2);
}

/// The layout of a post record's rendering.
#[verifier::spinoff_prover]
pub proof fn lemma_ron_post_segments(p: PostV)
    ensures
        ({
            let w = ron_post(p);
            let d1 = num::dec(p.id);
            let q1 = text::quoted(p.title);
            let o2 = 4 + d1.len();
            let o3 = o2 + 7;
            let o4 = o3 + q1.len();
            &&& w.len() == o4 + 1
            &&& w[0] == '('
            &&& w.subrange(1, 4) == seq!['i', 'd'].push(':')
            &&& w.subrange(4, o2 as int) == d1
            &&& w[o2 as int] == ','
            &&& w.subrange(o2 + 1 as int, o3 as int) == seq!['t', 'i', 't', 'l', 'e'].push(':')
            &&& w.subrange(o3 as int, o4 as int) == q1
            &&& w[o4 as int] == ')'
        }),
{
    let w = ron_post(p);
    let d1 = num::dec(p.id);
    let q1 = text::quoted(p.title);
    let o2 = 4 + d1.len();
    let o3 = o2 + 7;
    let o4 = o3 + q1.len();
    assert(w.subrange(1, 4) =~= seq!['i', 'd'].push(':'));
    assert(w.subrange(4, o2 as int) =~= d1);
    assert(w.subrange(o2 + 1 as int, o3 as int) =~= seq!['t', 'i', 't', 'l', 'e'].push(':'));
    assert(w.subrange(o3 as int, o4 as int) =~= q1);
}

/// Parsing a user record picks up exactly its rendering.
#[verifier::rlimit(100)]
#[verifier::spinoff_prover]
pub proof fn lemma_parse_ron_user_of(s: Seq<char>, i: int, u: UserV)
    requires
        0 <= i,
        i + ron_user(u).len() <= s.len(),
        s.subrange(i, i + ron_user(u).len()) == ron_user(u),
    ensures
        parse_ron_user(s, i) == Some((u, i + ron_user(u).len())),
{
    let w = ron_user(u);
    let d1 = num::dec(u.id);
    let q1 = text::quoted(u.name);
    let d2 = num::dec(u.age as u128);
    let p1 = i + 4;
    let p2 = p1 + d1.len();
    let p3 = p2 + 6;
    let p4 = p3 + q1.len();
    let p5 = p4 + 5;
    let p6 = p5 + d2.len();
    let e = i + w.len();
    lemma_ron_user_segments(u);
    // '('
    lemma_subwindow(s, i, w, 0, 1);
    assert(s[i] == s.subrange(i, i + 1)[0]);
    text::lemma_tok_at(s, i, i, '(');
    // id:
    lemma_subwindow(s, i, w, 1, 4);
    lemma_key_at_of(s, i + 1, i + 1, seq!['i', 'd']);
    assert(key_at(s, i + 1, seq!['i', 'd']) == Some(p1));
    // the identifier
    lemma_subwindow(s, i, w, 4, p2 - i);
    lemma_subwindow(s, i, w, p2 - i, p2 - i + 1);
    assert(s[p2] == s.subrange(p2, p2 + 1)[0]);
    assert(s[p2] == ',');
    crate::codec::json::lemma_parse_num_at(s, p1, p1, u.id);
    text::lemma_tok_at(s, p2, p2, ',');
    // name:
    lemma_subwindow(s, i, w, p2 - i + 1, p3 - i);
    lemma_key_at_of(s, p2 + 1, p2 + 1, seq!['n', 'a', 'm', 'e']);
    assert(key_at(s, p2 + 1, seq!['n', 'a', 'm', 'e']) == Some(p3));
    // the name
    lemma_subwindow(s, i, w, p3 - i, p4 - i);
    text::lemma_parse_quoted_at(s, p3, p3, u.name);
    lemma_subwindow(s, i, w, p4 - i, p4 - i + 1);
    assert(s[p4] == s.subrange(p4, p4 + 1)[0]);
    assert(s[p4] == ',');
    text::lemma_tok_at(s, p4, p4, ',');
    // age:
    lemma_subwindow(s, i, w, p4 - i + 1, p5 - i);
    lemma_key_at_of(s, p4 + 1, p4 + 1, seq!['a', 'g', 'e']);
    assert(key_at(s, p4 + 1, seq!['a', 'g', 'e']) == Some(p5));
    // the age
    lemma_subwindow(s, i, w, p5 - i, p6 - i);
    lemma_subwindow(s, i, w, p6 - i, p6 - i + 1);
    assert(s[p6] == s.subrange(p6, p6 + 1)[0]);
    assert(s[p6] == ')');
    crate::codec::json::lemma_parse_num_at(s, p5, p5, u.age as u128);
    text::lemma_tok_at(s, p6, p6, ')');
    assert(parse_ron_user(s, i) == Some(
        (UserV { id: u.id, name: u.name, age: (u.age as u128) as u8 }, e),
    ));
    assert(UserV { id: u.id, name: u.name, age: (u.age as u128) as u8 } == u);
}

/// Parsing a post record picks up exactly its rendering.
#[verifier::rlimit(100)]
#[verifier::spinoff_prover]
pub proof fn lemma_parse_ron_post_of(s: Seq<char>, i: int, p: PostV)
    requires
        0 <= i,
        i + ron_post(p).len() <= s.len(),
        s.subrange(i, i + ron_post(p).len()) == ron_post(p),
    ensures
        parse_ron_post(s, i) == Some((p, i + ron_post(p).len())),
{
    let w = ron_post(p);
    let d1 = num::dec(p.id);
    let q1 = text::quoted(p.title);
    let p1 = i + 4;
    let p2 = p1 + d1.len();
    let p3 = p2 + 7;
    let p4 = p3 + q1.len();
    let e = i + w.len();
    lemma_ron_post_segments(p);
    lemma_subwindow(s, i, w, 0, 1);
    assert(s[i] == s.subrange(i, i + 1)[0]);
    text::lemma_tok_at(s, i, i, '(');
    lemma_subwindow(s, i, w, 1, 4);
    lemma_key_at_of(s, i + 1, i + 1, seq!['i', 'd']);
    assert(key_at(s, i + 1, seq!['i', 'd']) == Some(p1));
    lemma_subwindow(s, i, w, 4, p2 - i);
    lemma_subwindow(s, i, w, p2 - i, p2 - i + 1);
    assert(s[p2] == s.subrange(p2, p2 + 1)[0]);
    assert(s[p2] == ',');
    crate::codec::json::lemma_parse_num_at(s, p1, p1, p.id);
    text::lemma_tok_at(s, p2, p2, ',');
    lemma_subwindow(s, i, w, p2 - i + 1, p3 - i);
    lemma_key_at_of(s, p2 + 1, p2 + 1, seq!['t', 'i', 't', 'l', 'e']);
    assert(key_at(s, p2 + 1, seq!['t', 'i', 't', 'l', 'e']) == Some(p3));
    lemma_subwindow(s, i, w, p3 - i, p4 - i);
    text::lemma_parse_quoted_at(s, p3, p3, p.title);
    lemma_subwindow(s, i, w, p4 - i, p4 - i + 1);
    assert(s[p4] == s.subrange(p4, p4 + 1)[0]);
    assert(s[p4] == ')');
    text::lemma_tok_at(s, p4, p4, ')');
    assert(parse_ron_post(s, i) == Some((PostV { id: p.id, title: p.title }, e)));
}

/// Parsing a user record across a leading whitespace run.
pub proof fn lemma_parse_ron_user_at_ws(s: Seq<char>, i: int, j: int, u: UserV)
    requires
        0 <= i <= j,
        j + ron_user(u).len() <= s.len(),
        forall|t: int| i <= t < j ==> text::is_ws(#[trigger] s[t]),
        s.subrange(j, j + ron_user(u).len()) == ron_user(u),
    ensures
        parse_ron_user(s, i) == Some((u, j + ron_user(u).len())),
{
    lemma_parse_ron_user_of(s, j, u);
    lemma_ron_user_segments(u);
    lemma_subwindow(s, j, ron_user(u), 0, 1);
    assert(s[j] == s.subrange(j, j + 1)[0]);
    assert(s[j] == '(');
    text::lemma_tok_at(s, i, j, '(');
    text::lemma_tok_at(s, j, j, '(');
}

/// Parsing a post record across a leading whitespace run.
pub proof fn lemma_parse_ron_post_at_ws(s: Seq<char>, i: int, j: int, p: PostV)
    requires
        0 <= i <= j,
        j + ron_post(p).len() <= s.len(),
        forall|t: int| i <= t < j ==> text::is_ws(#[trigger] s[t]),
        s.subrange(j, j + ron_post(p).len()) == ron_post(p),
    ensures
        parse_ron_post(s, i) == Some((p, j + ron_post(p).len())),
{
    lemma_parse_ron_post_of(s, j, p);
    lemma_ron_post_segments(p);
    lemma_subwindow(s, j, ron_post(p), 0, 1);
    assert(s[j] == s.subrange(j, j + 1)[0]);
    assert(s[j] == '(');
    text::lemma_tok_at(s, i, j, '(');
    text::lemma_tok_at(s, j, j, '(');
}

/// The RON rendering of a sequence of user records, separated by commas.
pub open spec fn ron_users_items(us: Seq<UserV>, pretty: bool) -> Seq<char>
    decreases us.len(),
{
    if us.len() == 0 {
        Seq::<char>::empty()
    } else if us.len() == 1 {
        ron_user(us[0])
    } else {
        ron_user(us[0]) + seq![','] + nl(pretty) + ron_users_items(us.drop_first(), pretty)
    }
}

/// The RON rendering of a sequence of post records, separated by commas.
pub open spec fn ron_posts_items(ps: Seq<PostV>, pretty: bool) -> Seq<char>
    decreases ps.len(),
{
    if ps.len() == 0 {
        Seq::<char>::empty()
    } else if ps.len() == 1 {
        ron_post(ps[0])
    } else {
        ron_post(ps[0]) + seq![','] + nl(pretty) + ron_posts_items(ps.drop_first(), pretty)
    }
}

/// The RON rendering of a user relation: an array of user records.
pub open spec fn ron_users(us: Seq<UserV>, pretty: bool) -> Seq<char> {
    if us.len() == 0 {
        seq!['[', ']']
    } else {
        seq!['['] + nl(pretty) + ron_users_items(us, pretty) + nl(pretty) + seq![']']
    }
}

/// The RON rendering of a post relation: an array of post records.
pub open spec fn ron_posts(ps: Seq<PostV>, pretty: bool) -> Seq<char> {
    if ps.len() == 0 {
        seq!['[', ']']
    } else {
        seq!['['] + nl(pretty) + ron_posts_items(ps, pretty) + nl(pretty) + seq![']']
    }
}

/// What parsing one or more comma-separated user records yields.
pub open spec fn parse_ron_users_items(s: Seq<char>, i: int) -> Option<(Seq<UserV>, int)>
    decreases s.len() - i,
    via check_parse_ron_users_items
{
    if i < 0 || i > s.len() {
        None
    } else {
        match parse_ron_user(s, i) {
            None => None,
            Some((u, j)) => match text::tok(s, j, ',') {
                None => Some((seq![u], j)),
                Some(j2) => match parse_ron_users_items(s, j2) {
                    None => None,
                    Some((rest, j3)) => Some((seq![u] + rest, j3)),
                },
            },
        }
    }
}

#[via_fn]
proof fn check_parse_ron_users_items(s: Seq<char>, i: int) {
    if 0 <= i <= s.len() {
        if parse_ron_user(s, i) is Some {
            lemma_parse_ron_user_some(s, i);
            let j = (parse_ron_user(s, i)->0).1;
            if text::tok(s, j, ',') is Some {
                text::lemma_tok_some(s, j, ',');
            }
        }
    }
}

/// What parsing one or more comma-separated post records yields.
pub open spec fn parse_ron_posts_items(s: Seq<char>, i: int) -> Option<(Seq<PostV>, int)>
    decreases s.len() - i,
    via check_parse_ron_posts_items
{
    if i < 0 || i > s.len() {
        None
    } else {
        match parse_ron_post(s, i) {
            None => None,
            Some((p, j)) => match text::tok(s, j, ',') {
                None => Some((seq![p], j)),
                Some(j2) => match parse_ron_posts_items(s, j2) {
                    None => None,
                    Some((rest, j3)) => Some((seq![p] + rest, j3)),
                },
            },
        }
    }
}

#[via_fn]
proof fn check_parse_ron_posts_items(s: Seq<char>, i: int) {
    if 0 <= i <= s.len() {
        if parse_ron_post(s, i) is Some {
            lemma_parse_ron_post_some(s, i);
            let j = (parse_ron_post(s, i)->0).1;
            if text::tok(s, j, ',') is Some {
                text::lemma_tok_some(s, j, ',');
            }
        }
    }
}

/// Successful item runs make progress and stay inside the text.
pub proof fn lemma_parse_ron_users_items_some(s: Seq<char>, i: int)
    requires
        0 <= i <= s.len(),
        parse_ron_users_items(s, i) is Some,
    ensures
        parse_ron_users_items(s, i) matches Some(p) && i < p.1 <= s.len(),
    decreases s.len() - i,
{
    lemma_parse_ron_user_some(s, i);
    let j = (parse_ron_user(s, i)->0).1;
    if text::tok(s, j, ',') is Some {
        text::lemma_tok_some(s, j, ',');
        lemma_parse_ron_users_items_some(s, text::tok(s, j, ',')->0);
    }
}

/// Successful item runs make progress and stay inside the text.
pub proof fn lemma_parse_ron_posts_items_some(s: Seq<char>, i: int)
    requires
        0 <= i <= s.len(),
        parse_ron_posts_items(s, i) is Some,
    ensures
        parse_ron_posts_items(s, i) matches Some(p) && i < p.1 <= s.len(),
    decreases s.len() - i,
{
    lemma_parse_ron_post_some(s, i);
    let j = (parse_ron_post(s, i)->0).1;
    if text::tok(s, j, ',') is Some {
        text::lemma_tok_some(s, j, ',');
        lemma_parse_ron_posts_items_some(s, text::tok(s, j, ',')->0);
    }
}

/// Parsing comma-separated user records picks up exactly their rendering,
/// across a leading whitespace run, provided no comma token follows.
pub proof fn lemma_parse_ron_users_items_at(
    s: Seq<char>,
    i: int,
    j: int,
    us: Seq<UserV>,
    pretty: bool,
)
    requires
        us.len() >= 1,
        0 <= i <= j,
        j + ron_users_items(us, pretty).len() <= s.len(),
        forall|t: int| i <= t < j ==> text::is_ws(#[trigger] s[t]),
        s.subrange(j, j + ron_users_items(us, pretty).len()) == ron_users_items(us, pretty),
        text::tok(s, j + ron_users_items(us, pretty).len(), ',') is None,
    ensures
        parse_ron_users_items(s, i) == Some((us, j + ron_users_items(us, pretty).len())),
    decreases us.len(),
{
    let w = ron_users_items(us, pretty);
    let e = j + w.len();
    if us.len() == 1 {
        assert(w == ron_user(us[0]));
        lemma_parse_ron_user_at_ws(s, i, j, us[0]);
        assert(seq![us[0]] =~= us);
    } else {
        let u0 = ron_user(us[0]);
        let rest = ron_users_items(us.drop_first(), pretty);
        let a = u0.len();
        let b = a + 1 + nl(pretty).len();
        assert(w == u0 + seq![','] + nl(pretty) + rest);
        assert(w.subrange(0, a as int) =~= u0);
        lemma_subwindow(s, j, w, 0, a as int);
        lemma_parse_ron_user_at_ws(s, i, j, us[0]);
        assert(w[a as int] == ',');
        lemma_subwindow(s, j, w, a as int, a + 1 as int);
        assert(s[j + a] == s.subrange(j + a, j + a + 1)[0]);
        assert(s[j + a] == ',');
        text::lemma_tok_at(s, j + a, j + a, ',');
        assert(w.subrange(a + 1 as int, b as int) =~= nl(pretty));
        lemma_subwindow(s, j, w, a + 1 as int, b as int);
        assert forall|t: int| j + a + 1 <= t < j + b implies text::is_ws(#[trigger] s[t]) by {
            assert(s[t] == s.subrange(j + a + 1, j + b)[t - (j + a + 1)]);
            lemma_nl_ws(pretty);
        }
        assert(w.subrange(b as int, w.len() as int) =~= rest);
        lemma_subwindow(s, j, w, b as int, w.len() as int);
        assert(text::tok(s, j + b + rest.len(), ',') is None) by {
            assert(j + b + rest.len() == e);
        }
        lemma_parse_ron_users_items_at(s, j + a + 1, j + b, us.drop_first(), pretty);
        assert(seq![us[0]] + us.drop_first() =~= us);
    }
}

/// Parsing comma-separated post records picks up exactly their rendering,
/// across a leading whitespace run, provided no comma token follows.
pub proof fn lemma_parse_ron_posts_items_at(
    s: Seq<char>,
    i: int,
    j: int,
    ps: Seq<PostV>,
    pretty: bool,
)
    requires
        ps.len() >= 1,
        0 <= i <= j,
        j + ron_posts_items(ps, pretty).len() <= s.len(),
        forall|t: int| i <= t < j ==> text::is_ws(#[trigger] s[t]),
        s.subrange(j, j + ron_posts_items(ps, pretty).len()) == ron_posts_items(ps, pretty),
        text::tok(s, j + ron_posts_items(ps, pretty).len(), ',') is None,
    ensures
        parse_ron_posts_items(s, i) == Some((ps, j + ron_posts_items(ps, pretty).len())),
    decreases ps.len(),
{
    let w = ron_posts_items(ps, pretty);
    let e = j + w.len();
    if ps.len() == 1 {
        assert(w == ron_post(ps[0]));
        lemma_parse_ron_post_at_ws(s, i, j, ps[0]);
        assert(seq![ps[0]] =~= ps);
    } else {
        let u0 = ron_post(ps[0]);
        let rest = ron_posts_items(ps.drop_first(), pretty);
        let a = u0.len();
        let b = a + 1 + nl(pretty).len();
        assert(w == u0 + seq![','] + nl(pretty) + rest);
        assert(w.subrange(0, a as int) =~= u0);
        lemma_subwindow(s, j, w, 0, a as int);
        lemma_parse_ron_post_at_ws(s, i, j, ps[0]);
        assert(w[a as int] == ',');
        lemma_subwindow(s, j, w, a as int, a + 1 as int);
        assert(s[j + a] == s.subrange(j + a, j + a + 1)[0]);
        assert(s[j + a] == ',');
        text::lemma_tok_at(s, j + a, j + a, ',');
        assert(w.subrange(a + 1 as int, b as int) =~= nl(pretty));
        lemma_subwindow(s, j, w, a + 1 as int, b as int);
        assert forall|t: int| j + a + 1 <= t < j + b implies text::is_ws(#[trigger] s[t]) by {
            assert(s[t] == s.subrange(j + a + 1, j + b)[t - (j + a + 1)]);
            lemma_nl_ws(pretty);
        }
        assert(w.subrange(b as int, w.len() as int) =~= rest);
        lemma_subwindow(s, j, w, b as int, w.len() as int);
        assert(text::tok(s, j + b + rest.len(), ',') is None) by {
            assert(j + b + rest.len() == e);
        }
        lemma_parse_ron_posts_items_at(s, j + a + 1, j + b, ps.drop_first(), pretty);
        assert(seq![ps[0]] + ps.drop_first() =~= ps);
    }
}

/// What parsing a user array yields.
pub open spec fn parse_ron_users_array(s: Seq<char>, i: int) -> Option<(Seq<UserV>, int)> {
    match text::tok(s, i, '[') {
        None => None,
        Some(i1) => match text::tok(s, i1, ']') {
            Some(j) => Some((Seq::<UserV>::empty(), j)),
            None => match parse_ron_users_items(s, i1) {
                None => None,
                Some((us, j)) => match text::tok(s, j, ']') {
                    Some(j2) => Some((us, j2)),
                    None => None,
                },
            },
        },
    }
}

/// What parsing a post array yields.
pub open spec fn parse_ron_posts_array(s: Seq<char>, i: int) -> Option<(Seq<PostV>, int)> {
    match text::tok(s, i, '[') {
        None => None,
        Some(i1) => match text::tok(s, i1, ']') {
            Some(j) => Some((Seq::<PostV>::empty(), j)),
            None => match parse_ron_posts_items(s, i1) {
                None => None,
                Some((ps, j)) => match text::tok(s, j, ']') {
                    Some(j2) => Some((ps, j2)),
                    None => None,
                },
            },
        },
    }
}



/// Parsing a user array picks up exactly its rendering, across a leading
/// whitespace run.
#[verifier::rlimit(100)]
#[verifier::spinoff_prover]
pub proof fn lemma_parse_ron_users_array_at(
    s: Seq<char>,
    i: int,
    j: int,
    us: Seq<UserV>,
    pretty: bool,
)
    requires
        0 <= i <= j,
        j + ron_users(us, pretty).len() <= s.len(),
        forall|t: int| i <= t < j ==> text::is_ws(#[trigger] s[t]),
        s.subrange(j, j + ron_users(us, pretty).len()) == ron_users(us, pretty),
    ensures
        parse_ron_users_array(s, i) == Some((us, j + ron_users(us, pretty).len())),
{
    let w = ron_users(us, pretty);
    let e = j + w.len();
    assert(s[j] == s.subrange(j, e)[0]);
    assert(s[j] == '[');
    text::lemma_tok_at(s, i, j, '[');
    if us.len() == 0 {
        assert(s[j + 1] == s.subrange(j, e)[1]);
        assert(s[j + 1] == ']');
        text::lemma_tok_at(s, j + 1, j + 1, ']');
    } else {
        let d = nl(pretty).len();
        let items = ron_users_items(us, pretty);
        let a = 1 + d;
        assert(w.subrange(1, a as int) =~= nl(pretty));
        lemma_subwindow(s, j, w, 1, a as int);
        assert forall|t: int| j + 1 <= t < j + a implies text::is_ws(#[trigger] s[t]) by {
            assert(s[t] == s.subrange(j + 1, j + a)[t - (j + 1)]);
            lemma_nl_ws(pretty);
        }
        assert(w.subrange(a as int, a + items.len() as int) =~= items);
        lemma_subwindow(s, j, w, a as int, a + items.len() as int);
        let m = j + a + items.len();
        assert(w.subrange(a + items.len() as int, a + items.len() as int + d) =~= nl(pretty));
        lemma_subwindow(s, j, w, a + items.len() as int, a + items.len() as int + d);
        assert forall|t: int| m <= t < m + d implies text::is_ws(#[trigger] s[t]) by {
            assert(s[t] == s.subrange(m, m + d)[t - m]);
            lemma_nl_ws(pretty);
        }
        assert(s[e - 1] == s.subrange(j, e)[w.len() - 1]);
        assert(s[e - 1] == ']');
        assert(items[0] == '(') by {
            lemma_ron_user_segments(us[0]);
            if us.len() > 1 {
                assert(items[0] == ron_user(us[0])[0]);
            }
        }
        assert(s[j + a] == s.subrange(j + a, j + a + items.len() as int)[0]);
        assert(s[j + a] == '(');
        text::lemma_skip_ws_of_run(s, j + 1, j + a);
        assert(text::tok(s, j + 1, ']') is None);
        text::lemma_skip_ws_of_run(s, m, e - 1);
        assert(text::tok(s, m, ',') is None);
        lemma_parse_ron_users_items_at(s, j + 1, j + a, us, pretty);
        text::lemma_tok_at(s, m, e - 1, ']');
    }
}

/// Parsing a post array picks up exactly its rendering, across a leading
/// whitespace run.
#[verifier::rlimit(100)]
#[verifier::spinoff_prover]
pub proof fn lemma_parse_ron_posts_array_at(
    s: Seq<char>,
    i: int,
    j: int,
    ps: Seq<PostV>,
    pretty: bool,
)
    requires
        0 <= i <= j,
        j + ron_posts(ps, pretty).len() <= s.len(),
        forall|t: int| i <= t < j ==> text::is_ws(#[trigger] s[t]),
        s.subrange(j, j + ron_posts(ps, pretty).len()) == ron_posts(ps, pretty),
    ensures
        parse_ron_posts_array(s, i) == Some((ps, j + ron_posts(ps, pretty).len())),
{
    let w = ron_posts(ps, pretty);
    let e = j + w.len();
    assert(s[j] == s.subrange(j, e)[0]);
    assert(s[j] == '[');
    text::lemma_tok_at(s, i, j, '[');
    if ps.len() == 0 {
        assert(s[j + 1] == s.subrange(j, e)[1]);
        assert(s[j + 1] == ']');
        text::lemma_tok_at(s, j + 1, j + 1, ']');
    } else {
        let d = nl(pretty).len();
        let items = ron_posts_items(ps, pretty);
        let a = 1 + d;
        assert(w.subrange(1, a as int) =~= nl(pretty));
        lemma_subwindow(s, j, w, 1, a as int);
        assert forall|t: int| j + 1 <= t < j + a implies text::is_ws(#[trigger] s[t]) by {
            assert(s[t] == s.subrange(j + 1, j + a)[t - (j + 1)]);
            lemma_nl_ws(pretty);
        }
        assert(w.subrange(a as int, a + items.len() as int) =~= items);
        lemma_subwindow(s, j, w, a as int, a + items.len() as int);
        let m = j + a + items.len();
        assert(w.subrange(a + items.len() as int, a + items.len() as int + d) =~= nl(pretty));
        lemma_subwindow(s, j, w, a + items.len() as int, a + items.len() as int + d);
        assert forall|t: int| m <= t < m + d implies text::is_ws(#[trigger] s[t]) by {
            assert(s[t] == s.subrange(m, m + d)[t - m]);
            lemma_nl_ws(pretty);
        }
        assert(s[e - 1] == s.subrange(j, e)[w.len() - 1]);
        assert(s[e - 1] == ']');
        assert(items[0] == '(') by {
            lemma_ron_post_segments(ps[0]);
            if ps.len() > 1 {
                assert(items[0] == ron_post(ps[0])[0]);
            }
        }
        assert(s[j + a] == s.subrange(j + a, j + a + items.len() as int)[0]);
        assert(s[j + a] == '(');
        text::lemma_skip_ws_of_run(s, j + 1, j + a);
        assert(text::tok(s, j + 1, ']') is None);
        text::lemma_skip_ws_of_run(s, m, e - 1);
        assert(text::tok(s, m, ',') is None);
        lemma_parse_ron_posts_items_at(s, j + 1, j + a, ps, pretty);
        text::lemma_tok_at(s, m, e - 1, ']');
    }
}

/// What decoding a whole relation file of users yields.
pub open spec fn parse_ron_users_doc(s: Seq<char>) -> Option<Seq<UserV>> {
    match parse_ron_users_array(s, 0) {
        None => None,
        Some((us, j)) => if text::skip_ws(s, j) == s.len() {
            Some(us)
        } else {
            None
        },
    }
}

/// What decoding a whole relation file of posts yields.
pub open spec fn parse_ron_posts_doc(s: Seq<char>) -> Option<Seq<PostV>> {
    match parse_ron_posts_array(s, 0) {
        None => None,
        Some((ps, j)) => if text::skip_ws(s, j) == s.len() {
            Some(ps)
        } else {
            None
        },
    }
}

/// Decoding reads back exactly what encoding a user relation wrote.
pub proof fn lemma_ron_users_round_trip(us: Seq<UserV>, pretty: bool)
    ensures
        parse_ron_users_doc(ron_users(us, pretty)) == Some(us),
{
    let w = ron_users(us, pretty);
    assert(w.subrange(0, w.len() as int) =~= w);
    lemma_parse_ron_users_array_at(w, 0, 0, us, pretty);
}

/// Decoding reads back exactly what encoding a post relation wrote.
pub proof fn lemma_ron_posts_round_trip(ps: Seq<PostV>, pretty: bool)
    ensures
        parse_ron_posts_doc(ron_posts(ps, pretty)) == Some(ps),
{
    let w = ron_posts(ps, pretty);
    assert(w.subrange(0, w.len() as int) =~= w);
    lemma_parse_ron_posts_array_at(w, 0, 0, ps, pretty);
}

/// The RON rendering of the whole state.
pub open spec fn ron_state(us: Seq<UserV>, ps: Seq<PostV>, pretty: bool) -> Seq<char> {
    seq!['('] + nl(pretty) + seq!['U', 's', 'e', 'r', ':'] + ron_users(us, pretty) + seq![',']
        + nl(pretty) + seq!['P', 'o', 's', 't', ':'] + ron_posts(ps, pretty) + nl(pretty) + seq![
        ')',
    ]
}

/// What parsing the whole state yields.
pub open spec fn parse_ron_state_at(s: Seq<char>, i: int) -> Option<(
    (Seq<UserV>, Seq<PostV>),
    int,
)> {
    match text::tok(s, i, '(') {
        None => None,
        Some(i1) => match key_at(s, i1, seq!['U', 's', 'e', 'r']) {
            None => None,
            Some(i2) => match parse_ron_users_array(s, i2) {
                None => None,
                Some((us, i3)) => match text::tok(s, i3, ',') {
                    None => None,
                    Some(i4) => match key_at(s, i4, seq!['P', 'o', 's', 't']) {
                        None => None,
                        Some(i5) => match parse_ron_posts_array(s, i5) {
                            None => None,
                            Some((ps, i6)) => match text::tok(s, i6, ')') {
                                None => None,
                                Some(i7) => Some(((us, ps), i7)),
                            },
                        },
                    },
                },
            },
        },
    }
}

/// What decoding a whole state file yields.
pub open spec fn parse_ron_state_doc(s: Seq<char>) -> Option<(Seq<UserV>, Seq<PostV>)> {
    match parse_ron_state_at(s, 0) {
        None => None,
        Some((sv, j)) => if text::skip_ws(s, j) == s.len() {
            Some(sv)
        } else {
            None
        },
    }
}

/// The layout of the state's rendering, by position.
#[verifier::rlimit(100)]
#[verifier::spinoff_prover]
pub proof fn lemma_ron_state_segments(us: Seq<UserV>, ps: Seq<PostV>, pretty: bool)
    ensures
        ({
            let w = ron_state(us, ps, pretty);
            let d = nl(pretty).len();
            let a1 = ron_users(us, pretty);
            let a2 = ron_posts(ps, pretty);
            let o1 = 1 + d;
            let o2 = o1 + 5;
            let o3 = o2 + a1.len();
            let o4 = o3 + 1 + d;
            let o5 = o4 + 5;
            let o6 = o5 + a2.len();
            &&& w.len() == o6 + d + 1
            &&& w[0] == '('
            &&& w.subrange(1, o1 as int) == nl(pretty)
            &&& w.subrange(o1 as int, o2 as int) == seq!['U', 's', 'e', 'r'].push(':')
            &&& w.subrange(o2 as int, o3 as int) == a1
            &&& w[o3 as int] == ','
            &&& w.subrange(o3 + 1 as int, o4 as int) == nl(pretty)
            &&& w.subrange(o4 as int, o5 as int) == seq!['P', 'o', 's', 't'].push(':')
            &&& w.subrange(o5 as int, o6 as int) == a2
            &&& w.subrange(o6 as int, o6 as int + d) == nl(pretty)
            &&& w[w.len() - 1] == ')'
        }),
{
    let w = ron_state(us, ps, pretty);
    let d = nl(pretty).len();
    let a1 = ron_users(us, pretty);
    let a2 = ron_posts(ps, pretty);
    let o1 = 1 + d;
    let o2 = o1 + 5;
    let o3 = o2 + a1.len();
    let o4 = o3 + 1 + d;
    let o5 = o4 + 5;
    let o6 = o5 + a2.len();
    assert(w.subrange(1, o1 as int) =~= nl(pretty));
    assert(w.subrange(o1 as int, o2 as int) =~= seq!['U', 's', 'e', 'r'].push(':'));
    assert(w.subrange(o2 as int, o3 as int) =~= a1);
    assert(w.subrange(o3 + 1 as int, o4 as int) =~= nl(pretty));
    assert(w.subrange(o4 as int, o5 as int) =~= seq!['P', 'o', 's', 't'].push(':'));
    assert(w.subrange(o5 as int, o6 as int) =~= a2);
    assert(w.subrange(o6 as int, o6 as int + d) =~= nl(pretty));
}

/// Parsing the state picks up exactly its rendering.
#[verifier::rlimit(100)]
#[verifier::spinoff_prover]
pub proof fn lemma_parse_ron_state_of(
    s: Seq<char>,
    i: int,
    us: Seq<UserV>,
    ps: Seq<PostV>,
    pretty: bool,
)
    requires
        0 <= i,
        i + ron_state(us, ps, pretty).len() <= s.len(),
        s.subrange(i, i + ron_state(us, ps, pretty).len()) == ron_state(us, ps, pretty),
    ensures
        parse_ron_state_at(s, i) == Some(((us, ps), i + ron_state(us, ps, pretty).len())),
{
    let w = ron_state(us, ps, pretty);
    let e = i + w.len();
    let d = nl(pretty).len();
    let a1 = ron_users(us, pretty);
    let a2 = ron_posts(ps, pretty);
    let o1 = 1 + d;
    let o2 = o1 + 5;
    let o3 = o2 + a1.len();
    let o4 = o3 + 1 + d;
    let o5 = o4 + 5;
    let o6 = o5 + a2.len();
    lemma_ron_state_segments(us, ps, pretty);
    // '('
    lemma_subwindow(s, i, w, 0, 1);
    assert(s[i] == s.subrange(i, i + 1)[0]);
    assert(s[i] == '(');
    text::lemma_tok_at(s, i, i, '(');
    // the separator, then User:
    lemma_subwindow(s, i, w, 1, o1 as int);
    assert forall|t: int| i + 1 <= t < i + o1 implies text::is_ws(#[trigger] s[t]) by {
        assert(s[t] == s.subrange(i + 1, i + o1)[t - (i + 1)]);
        lemma_nl_ws(pretty);
    }
    lemma_subwindow(s, i, w, o1 as int, o2 as int);
    lemma_key_at_of(s, i + 1, i + o1, seq!['U', 's', 'e', 'r']);
    assert(key_at(s, i + 1, seq!['U', 's', 'e', 'r']) == Some(i + o2));
    // the user array
    lemma_subwindow(s, i, w, o2 as int, o3 as int);
    lemma_parse_ron_users_array_at(s, i + o2, i + o2, us, pretty);
    // ','
    lemma_subwindow(s, i, w, o3 as int, o3 + 1 as int);
    assert(s[i + o3] == s.subrange(i + o3, i + o3 + 1)[0]);
    assert(s[i + o3] == ',');
    text::lemma_tok_at(s, i + o3, i + o3, ',');
    // the separator, then Post:
    lemma_subwindow(s, i, w, o3 + 1 as int, o4 as int);
    assert forall|t: int| i + o3 + 1 <= t < i + o4 implies text::is_ws(#[trigger] s[t]) by {
        assert(s[t] == s.subrange(i + o3 + 1, i + o4)[t - (i + o3 + 1)]);
        lemma_nl_ws(pretty);
    }
    lemma_subwindow(s, i, w, o4 as int, o5 as int);
    lemma_key_at_of(s, i + o3 + 1, i + o4, seq!['P', 'o', 's', 't']);
    assert(key_at(s, i + o3 + 1, seq!['P', 'o', 's', 't']) == Some(i + o5));
    // the post array
    lemma_subwindow(s, i, w, o5 as int, o6 as int);
    lemma_parse_ron_posts_array_at(s, i + o5, i + o5, ps, pretty);
    // the separator, then ')'
    lemma_subwindow(s, i, w, o6 as int, o6 as int + d);
    assert forall|t: int| i + o6 <= t < i + o6 + d implies text::is_ws(#[trigger] s[t]) by {
        assert(s[t] == s.subrange(i + o6, i + o6 + d)[t - (i + o6)]);
        lemma_nl_ws(pretty);
    }
    lemma_subwindow(s, i, w, w.len() - 1, w.len() as int);
    assert(s[e - 1] == s.subrange(e - 1, e)[0]);
    assert(s[e - 1] == ')');
    text::lemma_skip_ws_of_run(s, i + o6, e - 1);
    text::lemma_tok_at(s, i + o6, e - 1, ')');
}

/// Decoding reads back exactly what encoding the whole state wrote.
pub proof fn lemma_ron_state_round_trip(us: Seq<UserV>, ps: Seq<PostV>, pretty: bool)
    ensures
        parse_ron_state_doc(ron_state(us, ps, pretty)) == Some((us, ps)),
{
    let w = ron_state(us, ps, pretty);
    assert(w.subrange(0, w.len() as int) =~= w);
    lemma_parse_ron_state_of(w, 0, us, ps, pretty);
}

/// Consumes a bare object key after any whitespace.
#[verifier::loop_isolation(false)]
fn p_bare_key(s: &Vec<char>, i: usize, key: &Vec<char>) -> (r: Option<usize>)
    requires
        i <= s@.len(),
    ensures
        r matches Some(j) ==> key_at(s@, i as int, key@) == Some(j as int) && j <= s@.len(),
        r is None ==> key_at(s@, i as int, key@) is None,
{
    let j = text::skip_ws_at(s, i);
    if j >= s.len() {
        return None;
    }
    let avail = s.len() - j;
    if key.len() > avail - 1 {
        return None;
    }
    let n = key.len();
    let mut k: usize = 0;
    while k < n
        invariant
            k <= n,
            n == key@.len(),
            j + n + 1 <= s@.len(),
            forall|t: int| 0 <= t < k ==> s@[j + t] == key@[t],
        decreases n - k,
    {
        if s[j + k] != key[k] {
            proof {
                let kk = k as int;
                if s@.subrange(j as int, j + key@.len() as int) == key@ {
                    assert(s@.subrange(j as int, j + key@.len() as int)[kk] == s@[j + kk]);
                    assert(s@.subrange(j as int, j + key@.len() as int)[kk] == key@[kk]);
                }
            }
            return None;
        }
        k = k + 1;
    }
    if s[j + n] != ':' {
        return None;
    }
    proof {
        assert(s@.subrange(j as int, j + key@.len() as int) =~= key@);
    }
    Some(j + n + 1)
}

/// Parses one user record.
fn p_ron_user(s: &Vec<char>, i: usize) -> (r: Option<(User, usize)>)
    requires
        i <= s@.len(),
    ensures
        r matches Some(p) ==> parse_ron_user(s@, i as int) == Some(
            (p.0.deep_view(), p.1 as int),
        ) && i < p.1 <= s@.len(),
        r is None ==> parse_ron_user(s@, i as int) is None,
{
    let mut keyid: Vec<char> = Vec::new();
    keyid.push('i');
    keyid.push('d');
    let mut keyname: Vec<char> = Vec::new();
    keyname.push('n');
    keyname.push('a');
    keyname.push('m');
    keyname.push('e');
    let mut keyage: Vec<char> = Vec::new();
    keyage.push('a');
    keyage.push('g');
    keyage.push('e');
    proof {
        assert(keyid@ =~= seq!['i', 'd']);
        assert(keyname@ =~= seq!['n', 'a', 'm', 'e']);
        assert(keyage@ =~= seq!['a', 'g', 'e']);
    }
    let i1 = match text::expect(s, i, '(') {
        Some(v) => v,
        None => {
            return None;
        },
    };
    let i2 = match p_bare_key(s, i1, &keyid) {
        Some(v) => v,
        None => {
            return None;
        },
    };
    let (idv, i3) = match crate::codec::json::p_num(s, i2) {
        Some(v) => v,
        None => {
            return None;
        },
    };
    let i4 = match text::expect(s, i3, ',') {
        Some(v) => v,
        None => {
            return None;
        },
    };
    let i5 = match p_bare_key(s, i4, &keyname) {
        Some(v) => v,
        None => {
            return None;
        },
    };
    let (nm, i6) = match text::parse_quoted_at(s, i5) {
        Some(v) => v,
        None => {
            return None;
        },
    };
    let i7 = match text::expect(s, i6, ',') {
        Some(v) => v,
        None => {
            return None;
        },
    };
    let i8 = match p_bare_key(s, i7, &keyage) {
        Some(v) => v,
        None => {
            return None;
        },
    };
    let (agev, i9) = match crate::codec::json::p_num(s, i8) {
        Some(v) => v,
        None => {
            return None;
        },
    };
    if agev > 255 {
        return None;
    }
    let i10 = match text::expect(s, i9, ')') {
        Some(v) => v,
        None => {
            return None;
        },
    };
    proof {
        lemma_parse_ron_user_some(s@, i as int);
    }
    Some((User { id: idv, name: crate::codec::chars_to_string(&nm), age: agev as u8 }, i10))
}

/// Parses one post record.
fn p_ron_post(s: &Vec<char>, i: usize) -> (r: Option<(Post, usize)>)
    requires
        i <= s@.len(),
    ensures
        r matches Some(p) ==> parse_ron_post(s@, i as int) == Some(
            (p.0.deep_view(), p.1 as int),
        ) && i < p.1 <= s@.len(),
        r is None ==> parse_ron_post(s@, i as int) is None,
{
    let mut keyid: Vec<char> = Vec::new();
    keyid.push('i');
    keyid.push('d');
    let mut keytitle: Vec<char> = Vec::new();
    keytitle.push('t');
    keytitle.push('i');
    keytitle.push('t');
    keytitle.push('l');
    keytitle.push('e');
    proof {
        assert(keyid@ =~= seq!['i', 'd']);
        assert(keytitle@ =~= seq!['t', 'i', 't', 'l', 'e']);
    }
    let i1 = match text::expect(s, i, '(') {
        Some(v) => v,
        None => {
            return None;
        },
    };
    let i2 = match p_bare_key(s, i1, &keyid) {
        Some(v) => v,
        None => {
            return None;
        },
    };
    let (idv, i3) = match crate::codec::json::p_num(s, i2) {
        Some(v) => v,
        None => {
            return None;
        },
    };
    let i4 = match text::expect(s, i3, ',') {
        Some(v) => v,
        None => {
            return None;
        },
    };
    let i5 = match p_bare_key(s, i4, &keytitle) {
        Some(v) => v,
        None => {
            return None;
        },
    };
    let (ti, i6) = match text::parse_quoted_at(s, i5) {
        Some(v) => v,
        None => {
            return None;
        },
    };
    let i7 = match text::expect(s, i6, ')') {
        Some(v) => v,
        None => {
            return None;
        },
    };
    proof {
        lemma_parse_ron_post_some(s@, i as int);
    }
    Some((Post { id: idv, title: crate::codec::chars_to_string(&ti) }, i7))
}

/// Parses one or more comma-separated user records.
fn p_ron_users_items(s: &Vec<char>, i: usize) -> (r: Option<(Vec<User>, usize)>)
    requires
        i <= s@.len(),
    ensures
        r matches Some(p) ==> parse_ron_users_items(s@, i as int) == Some(
            (p.0.deep_view(), p.1 as int),
        ) && p.1 <= s@.len(),
        r is None ==> parse_ron_users_items(s@, i as int) is None,
    decreases s@.len() - i,
{
    match p_ron_user(s, i) {
        None => None,
        Some((u, j)) => match text::expect(s, j, ',') {
            None => {
                let mut v: Vec<User> = Vec::new();
                v.push(u);
                proof {
                    assert(v.deep_view() =~= seq![u.deep_view()]);
                }
                Some((v, j))
            },
            Some(j2) => match p_ron_users_items(s, j2) {
                None => None,
                Some((rest, j3)) => {
                    let mut v: Vec<User> = Vec::new();
                    v.push(u);
                    let mut rest = rest;
                    v.append(&mut rest);
                    proof {
                        assert(v.deep_view() =~= seq![u.deep_view()] + (parse_ron_users_items(
                            s@,
                            j2 as int,
                        )->0).0);
                    }
                    Some((v, j3))
                },
            },
        },
    }
}

/// Parses one or more comma-separated post records.
fn p_ron_posts_items(s: &Vec<char>, i: usize) -> (r: Option<(Vec<Post>, usize)>)
    requires
        i <= s@.len(),
    ensures
        r matches Some(p) ==> parse_ron_posts_items(s@, i as int) == Some(
            (p.0.deep_view(), p.1 as int),
        ) && p.1 <= s@.len(),
        r is None ==> parse_ron_posts_items(s@, i as int) is None,
    decreases s@.len() - i,
{
    match p_ron_post(s, i) {
        None => None,
        Some((u, j)) => match text::expect(s, j, ',') {
            None => {
                let mut v: Vec<Post> = Vec::new();
                v.push(u);
                proof {
                    assert(v.deep_view() =~= seq![u.deep_view()]);
                }
                Some((v, j))
            },
            Some(j2) => match p_ron_posts_items(s, j2) {
                None => None,
                Some((rest, j3)) => {
                    let mut v: Vec<Post> = Vec::new();
                    v.push(u);
                    let mut rest = rest;
                    v.append(&mut rest);
                    proof {
                        assert(v.deep_view() =~= seq![u.deep_view()] + (parse_ron_posts_items(
                            s@,
                            j2 as int,
                        )->0).0);
                    }
                    Some((v, j3))
                },
            },
        },
    }
}

/// Parses a user array.
fn p_ron_users_array(s: &Vec<char>, i: usize) -> (r: Option<(Vec<User>, usize)>)
    requires
        i <= s@.len(),
    ensures
        r matches Some(p) ==> parse_ron_users_array(s@, i as int) == Some(
            (p.0.deep_view(), p.1 as int),
        ) && p.1 <= s@.len(),
        r is None ==> parse_ron_users_array(s@, i as int) is None,
{
    match text::expect(s, i, '[') {
        None => None,
        Some(i1) => match text::expect(s, i1, ']') {
            Some(j) => {
                let v: Vec<User> = Vec::new();
                proof {
                    assert(v.deep_view() =~= Seq::<UserV>::empty());
                }
                Some((v, j))
            },
            None => match p_ron_users_items(s, i1) {
                None => None,
                Some((us, j)) => match text::expect(s, j, ']') {
                    Some(j2) => Some((us, j2)),
                    None => None,
                },
            },
        },
    }
}

/// Parses a post array.
fn p_ron_posts_array(s: &Vec<char>, i: usize) -> (r: Option<(Vec<Post>, usize)>)
    requires
        i <= s@.len(),
    ensures
        r matches Some(p) ==> parse_ron_posts_array(s@, i as int) == Some(
            (p.0.deep_view(), p.1 as int),
        ) && p.1 <= s@.len(),
        r is None ==> parse_ron_posts_array(s@, i as int) is None,
{
    match text::expect(s, i, '[') {
        None => None,
        Some(i1) => match text::expect(s, i1, ']') {
            Some(j) => {
                let v: Vec<Post> = Vec::new();
                proof {
                    assert(v.deep_view() =~= Seq::<PostV>::empty());
                }
                Some((v, j))
            },
            None => match p_ron_posts_items(s, i1) {
                None => None,
                Some((ps, j)) => match text::expect(s, j, ']') {
                    Some(j2) => Some((ps, j2)),
                    None => None,
                },
            },
        },
    }
}

/// The description carried by a decode failure.
fn bad_ron() -> (r: String)
    ensures
        r@ == "malformed input"@,
{
    String::from_str("malformed input")
}

/// Decodes a relation file of users.
pub fn decode_ron_users(s: &str) -> (r: Result<Vec<User>, JoydbError>)
    ensures
        r matches Ok(v) ==> parse_ron_users_doc(s@) == Some(v.deep_view()),
        r matches Err(e) ==> parse_ron_users_doc(s@) is None && e matches JoydbError::Deserialize(
            _,
        ),
{
    let chars = crate::codec::str_to_chars(s);
    match p_ron_users_array(&chars, 0) {
        Some((v, j)) => {
            let j2 = text::skip_ws_at(&chars, j);
            if j2 == chars.len() {
                Ok(v)
            } else {
                Err(JoydbError::Deserialize(bad_ron()))
            }
        },
        None => Err(JoydbError::Deserialize(bad_ron())),
    }
}

/// Decodes a relation file of posts.
pub fn decode_ron_posts(s: &str) -> (r: Result<Vec<Post>, JoydbError>)
    ensures
        r matches Ok(v) ==> parse_ron_posts_doc(s@) == Some(v.deep_view()),
        r matches Err(e) ==> parse_ron_posts_doc(s@) is None && e matches JoydbError::Deserialize(
            _,
        ),
{
    let chars = crate::codec::str_to_chars(s);
    match p_ron_posts_array(&chars, 0) {
        Some((v, j)) => {
            let j2 = text::skip_ws_at(&chars, j);
            if j2 == chars.len() {
                Ok(v)
            } else {
                Err(JoydbError::Deserialize(bad_ron()))
            }
        },
        None => Err(JoydbError::Deserialize(bad_ron())),
    }
}

/// Decodes a whole state file.
pub fn decode_ron_state(s: &str) -> (r: Result<(Vec<User>, Vec<Post>), JoydbError>)
    ensures
        r matches Ok(v) ==> parse_ron_state_doc(s@) == Some((v.0.deep_view(), v.1.deep_view())),
        r matches Err(e) ==> parse_ron_state_doc(s@) is None && e matches JoydbError::Deserialize(
            _,
        ),
{
    let chars = crate::codec::str_to_chars(s);
    let mut keyuser: Vec<char> = Vec::new();
    keyuser.push('U');
    keyuser.push('s');
    keyuser.push('e');
    keyuser.push('r');
    let mut keypost: Vec<char> = Vec::new();
    keypost.push('P');
    keypost.push('o');
    keypost.push('s');
    keypost.push('t');
    proof {
        assert(keyuser@ =~= seq!['U', 's', 'e', 'r']);
        assert(keypost@ =~= seq!['P', 'o', 's', 't']);
    }
    let i1 = match text::expect(&chars, 0, '(') {
        Some(v) => v,
        None => {
            return Err(JoydbError::Deserialize(bad_ron()));
        },
    };
    let i2 = match p_bare_key(&chars, i1, &keyuser) {
        Some(v) => v,
        None => {
            return Err(JoydbError::Deserialize(bad_ron()));
        },
    };
    let (us, i3) = match p_ron_users_array(&chars, i2) {
        Some(v) => v,
        None => {
            return Err(JoydbError::Deserialize(bad_ron()));
        },
    };
    let i4 = match text::expect(&chars, i3, ',') {
        Some(v) => v,
        None => {
            return Err(JoydbError::Deserialize(bad_ron()));
        },
    };
    let i5 = match p_bare_key(&chars, i4, &keypost) {
        Some(v) => v,
        None => {
            return Err(JoydbError::Deserialize(bad_ron()));
        },
    };
    let (ps, i6) = match p_ron_posts_array(&chars, i5) {
        Some(v) => v,
        None => {
            return Err(JoydbError::Deserialize(bad_ron()));
        },
    };
    let i7 = match text::expect(&chars, i6, ')') {
        Some(v) => v,
        None => {
            return Err(JoydbError::Deserialize(bad_ron()));
        },
    };
    let j2 = text::skip_ws_at(&chars, i7);
    if j2 == chars.len() {
        Ok((us, ps))
    } else {
        Err(JoydbError::Deserialize(bad_ron()))
    }
}

/// Appends the RON rendering of one user record.
fn push_ron_user(out: &mut Vec<char>, u: &User)
    ensures
        final(out)@ == old(out)@ + ron_user(u.deep_view()),
{
    out.push('(');
    out.push('i');
    out.push('d');
    out.push(':');
    num::push_dec(u.id, out);
    out.push(',');
    out.push('n');
    out.push('a');
    out.push('m');
    out.push('e');
    out.push(':');
    text::push_quoted(out, u.name.as_str());
    out.push(',');
    out.push('a');
    out.push('g');
    out.push('e');
    out.push(':');
    num::push_dec(u.age as u128, out);
    out.push(')');
    proof {
        assert(out@ =~= old(out)@ + ron_user(u.deep_view()));
    }
}

/// Appends the RON rendering of one post record.
fn push_ron_post(out: &mut Vec<char>, p: &Post)
    ensures
        final(out)@ == old(out)@ + ron_post(p.deep_view()),
{
    out.push('(');
    out.push('i');
    out.push('d');
    out.push(':');
    num::push_dec(p.id, out);
    out.push(',');
    out.push('t');
    out.push('i');
    out.push('t');
    out.push('l');
    out.push('e');
    out.push(':');
    text::push_quoted(out, p.title.as_str());
    out.push(')');
    proof {
        assert(out@ =~= old(out)@ + ron_post(p.deep_view()));
    }
}

/// Appends the comma-separated user records from `from` to the end.
fn push_ron_users_items(out: &mut Vec<char>, users: &Vec<User>, from: usize, pretty: bool)
    requires
        from < users@.len(),
    ensures
        final(out)@ == old(out)@ + ron_users_items(
            users.deep_view().subrange(from as int, users.deep_view().len() as int),
            pretty,
        ),
    decreases users@.len() - from,
{
    let ghost sub = users.deep_view().subrange(from as int, users.deep_view().len() as int);
    let n = users.len();
    push_ron_user(out, &users[from]);
    proof {
        assert(sub[0] == users.deep_view()[from as int]);
    }
    if from + 1 < n {
        out.push(',');
        if pretty {
            out.push('\n');
        }
        push_ron_users_items(out, users, from + 1, pretty);
        proof {
            assert(sub.drop_first() =~= users.deep_view().subrange(
                from + 1,
                users.deep_view().len() as int,
            ));
            assert(out@ =~= old(out)@ + ron_users_items(sub, pretty));
        }
    } else {
        proof {
            assert(sub.len() == 1);
            assert(out@ =~= old(out)@ + ron_users_items(sub, pretty));
        }
    }
}

/// Appends the comma-separated post records from `from` to the end.
fn push_ron_posts_items(out: &mut Vec<char>, posts: &Vec<Post>, from: usize, pretty: bool)
    requires
        from < posts@.len(),
    ensures
        final(out)@ == old(out)@ + ron_posts_items(
            posts.deep_view().subrange(from as int, posts.deep_view().len() as int),
            pretty,
        ),
    decreases posts@.len() - from,
{
    let ghost sub = posts.deep_view().subrange(from as int, posts.deep_view().len() as int);
    let n = posts.len();
    push_ron_post(out, &posts[from]);
    proof {
        assert(sub[0] == posts.deep_view()[from as int]);
    }
    if from + 1 < n {
        out.push(',');
        if pretty {
            out.push('\n');
        }
        push_ron_posts_items(out, posts, from + 1, pretty);
        proof {
            assert(sub.drop_first() =~= posts.deep_view().subrange(
                from + 1,
                posts.deep_view().len() as int,
            ));
            assert(out@ =~= old(out)@ + ron_posts_items(sub, pretty));
        }
    } else {
        proof {
            assert(sub.len() == 1);
            assert(out@ =~= old(out)@ + ron_posts_items(sub, pretty));
        }
    }
}

/// Appends the RON rendering of a user relation.
fn push_ron_users(out: &mut Vec<char>, users: &Vec<User>, pretty: bool)
    ensures
        final(out)@ == old(out)@ + ron_users(users.deep_view(), pretty),
{
    out.push('[');
    if users.len() > 0 {
        if pretty {
            out.push('\n');
        }
        push_ron_users_items(out, users, 0, pretty);
        if pretty {
            out.push('\n');
        }
    }
    out.push(']');
    proof {
        assert(users.deep_view().subrange(0, users.deep_view().len() as int) =~= users.deep_view());
        assert(out@ =~= old(out)@ + ron_users(users.deep_view(), pretty));
    }
}

/// Appends the RON rendering of a post relation.
fn push_ron_posts(out: &mut Vec<char>, posts: &Vec<Post>, pretty: bool)
    ensures
        final(out)@ == old(out)@ + ron_posts(posts.deep_view(), pretty),
{
    out.push('[');
    if posts.len() > 0 {
        if pretty {
            out.push('\n');
        }
        push_ron_posts_items(out, posts, 0, pretty);
        if pretty {
            out.push('\n');
        }
    }
    out.push(']');
    proof {
        assert(posts.deep_view().subrange(0, posts.deep_view().len() as int) =~= posts.deep_view());
        assert(out@ =~= old(out)@ + ron_posts(posts.deep_view(), pretty));
    }
}

/// Encodes a user relation as a RON array.
pub fn encode_ron_users(users: &Vec<User>, pretty: bool) -> (r: String)
    ensures
        r@ == ron_users(users.deep_view(), pretty),
{
    let mut out: Vec<char> = Vec::new();
    push_ron_users(&mut out, users, pretty);
    crate::codec::chars_to_string(&out)
}

/// Encodes a post relation as a RON array.
pub fn encode_ron_posts(posts: &Vec<Post>, pretty: bool) -> (r: String)
    ensures
        r@ == ron_posts(posts.deep_view(), pretty),
{
    let mut out: Vec<char> = Vec::new();
    push_ron_posts(&mut out, posts, pretty);
    crate::codec::chars_to_string(&out)
}

/// Encodes the whole state as one RON value.
pub fn encode_ron_state(users: &Vec<User>, posts: &Vec<Post>, pretty: bool) -> (r: String)
    ensures
        r@ == ron_state(users.deep_view(), posts.deep_view(), pretty),
{
    let mut out: Vec<char> = Vec::new();
    out.push('(');
    if pretty {
        out.push('\n');
    }
    out.push('U');
    out.push('s');
    out.push('e');
    out.push('r');
    out.push(':');
    push_ron_users(&mut out, users, pretty);
    out.push(',');
    if pretty {
        out.push('\n');
    }
    out.push('P');
    out.push('o');
    out.push('s');
    out.push('t');
    out.push(':');
    push_ron_posts(&mut out, posts, pretty);
    if pretty {
        out.push('\n');
    }
    out.push(')');
    proof {
        assert(out@ =~= ron_state(users.deep_view(), posts.deep_view(), pretty));
    }
    crate::codec::chars_to_string(&out)
}

} // verus!
