//! The wire form of the post list: a bracketed, comma-separated array
//! of objects with the four fields `id`, `userId`, `title` and `body`,
//! in that order and without padding. `posts_json` gives the canonical
//! rendering; `sp_posts` reads one back. The executable encoder and
//! decoder are proved equal to them, and decoding a canonical rendering
//! is proved to recover the list exactly.

use vstd::prelude::*;

use crate::num::all_digits;
use crate::num::append_i32;
use crate::num::digit_prefix_len;
use crate::num::digit_val_exec;
use crate::num::digits_val;
use crate::num::int_chars;
use crate::num::is_digit;
use crate::num::push_char;
use crate::num::u_chars;
use crate::store::Post;
use crate::store::PostV;
use vstd::string::StrSliceExecFns;
use vstd::string::StringExecFns;

verus! {

/// The escape letter under which `c` rides in a quoted string, if it
/// cannot stand there as itself.
pub open spec fn esc_code(c: char) -> Option<char> {
    if c == '"' {
        Some('"')
    } else if c == '\\' {
        Some('\\')
    } else if c == '\n' {
        Some('n')
    } else if c == '\r' {
        Some('r')
    } else if c == '\t' {
        Some('t')
    } else {
        None
    }
}

/// The character an escape letter stands for.
pub open spec fn unesc(e: char) -> Option<char> {
    if e == '"' {
        Some('"')
    } else if e == '\\' {
        Some('\\')
    } else if e == 'n' {
        Some('\n')
    } else if e == 'r' {
        Some('\r')
    } else if e == 't' {
        Some('\t')
    } else {
        None
    }
}

/// The wire form of one text character.
pub open spec fn esc(c: char) -> Seq<char> {
    match esc_code(c) {
        Some(e) => seq!['\\', e],
        None => seq![c],
    }
}

/// The wire form of a text, character by character.
pub open spec fn esc_all(t: Seq<char>) -> Seq<char>
    decreases t.len(),
{
    if t.len() == 0 {
        Seq::empty()
    } else {
        esc(t[0]) + esc_all(t.drop_first())
    }
}

/// The wire form of a quoted string.
pub open spec fn str_json(t: Seq<char>) -> Seq<char> {
    seq!['"'] + esc_all(t) + seq!['"']
}

/// A character the wire can carry: anything but an unescaped control
/// character. The three common control characters ride as escapes.
pub open spec fn wf_char(c: char) -> bool {
    c >= ' ' || c == '\n' || c == '\r' || c == '\t'
}

/// A text the wire can carry.
pub open spec fn wf_text(t: Seq<char>) -> bool {
    forall|i: int| 0 <= i < t.len() ==> wf_char(t[i])
}

/// A post the wire can carry: identifiers within the 32-bit range and
/// texts without unrepresentable control characters.
pub open spec fn wf_post(p: PostV) -> bool {
    &&& -0x8000_0000 <= p.id <= 0x7fff_ffff
    &&& -0x8000_0000 <= p.author_id <= 0x7fff_ffff
    &&& wf_text(p.title)
    &&& wf_text(p.body)
}

/// A post list the wire can carry.
pub open spec fn wf_posts(ps: Seq<PostV>) -> bool {
    forall|i: int| 0 <= i < ps.len() ==> wf_post(#[trigger] ps[i])
}

/// The opener of an object together with its first key.
pub open spec fn lit_id() -> Seq<char> {
    seq!['{', '"', 'i', 'd', '"', ':']
}

/// The separator and key before the author reference.
pub open spec fn lit_user_id() -> Seq<char> {
    seq![',', '"', 'u', 's', 'e', 'r', 'I', 'd', '"', ':']
}

/// The separator and key before the title.
pub open spec fn lit_title() -> Seq<char> {
    seq![',', '"', 't', 'i', 't', 'l', 'e', '"', ':']
}

/// The separator and key before the body.
pub open spec fn lit_body() -> Seq<char> {
    seq![',', '"', 'b', 'o', 'd', 'y', '"', ':']
}

/// The wire form of one post object.
pub open spec fn obj_json(p: PostV) -> Seq<char> {
    lit_id() + int_chars(p.id) + lit_user_id() + int_chars(p.author_id) + lit_title() + str_json(
        p.title,
    ) + lit_body() + str_json(p.body) + seq!['}']
}

/// The wire form of the items of a list, separated by commas.
pub open spec fn items_json(ps: Seq<PostV>) -> Seq<char>
    decreases ps.len(),
{
    if ps.len() == 0 {
        Seq::empty()
    } else if ps.len() == 1 {
        obj_json(ps[0])
    } else {
        obj_json(ps[0]) + seq![','] + items_json(ps.drop_first())
    }
}

/// The wire form of a whole post list.
pub open spec fn posts_json(ps: Seq<PostV>) -> Seq<char> {
    seq!['['] + items_json(ps) + seq![']']
}

/// What remains of `s` after the expected literal `l`, if `s` starts
/// with it.
pub open spec fn sp_lit(s: Seq<char>, l: Seq<char>) -> Option<Seq<char>> {
    if l.len() <= s.len() && s.take(l.len() as int) == l {
        Some(s.skip(l.len() as int))
    } else {
        None
    }
}

/// Reads an unsigned canonical decimal off the front of `s`: its value
/// and what remains. A leading zero is accepted only for "0" itself.
pub open spec fn sp_uint(s: Seq<char>) -> Option<(int, Seq<char>)> {
    let k = digit_prefix_len(s);
    if k == 0 {
        None
    } else if s[0] == '0' && k > 1 {
        None
    } else {
        Some((digits_val(s.take(k)), s.skip(k)))
    }
}

/// Reads a decimal within the 32-bit signed range off the front of `s`.
pub open spec fn sp_int(s: Seq<char>) -> Option<(int, Seq<char>)> {
    if s.len() > 0 && s[0] == '-' {
        match sp_uint(s.drop_first()) {
            Some((v, r)) => if 1 <= v <= 0x8000_0000 {
                Some((-v, r))
            } else {
                None
            },
            None => None,
        }
    } else {
        match sp_uint(s) {
            Some((v, r)) => if v <= 0x7fff_ffff {
                Some((v, r))
            } else {
                None
            },
            None => None,
        }
    }
}

/// Reads the remainder of a quoted string, after its opening quote: the
/// text it carries and what remains after the closing quote.
pub open spec fn sp_str_body(s: Seq<char>) -> Option<(Seq<char>, Seq<char>)>
    decreases s.len(),
{
    if s.len() == 0 {
        None
    } else if s[0] == '"' {
        Some((Seq::empty(), s.drop_first()))
    } else if s[0] == '\\' {
        if s.len() >= 2 {
            match unesc(s[1]) {
                Some(c) => match sp_str_body(s.skip(2)) {
                    Some((t, r)) => Some((seq![c] + t, r)),
                    None => None,
                },
                None => None,
            }
        } else {
            None
        }
    } else if !(s[0] >= ' ') {
        None
    } else {
        match sp_str_body(s.drop_first()) {
            Some((t, r)) => Some((seq![s[0]] + t, r)),
            None => None,
        }
    }
}

/// Reads a quoted string off the front of `s`.
pub open spec fn sp_string(s: Seq<char>) -> Option<(Seq<char>, Seq<char>)> {
    if s.len() > 0 && s[0] == '"' {
        sp_str_body(s.drop_first())
    } else {
        None
    }
}

/// Reads one post object off the front of `s`.
pub open spec fn sp_obj(s: Seq<char>) -> Option<(PostV, Seq<char>)> {
    match sp_lit(s, lit_id()) {
        None => None,
        Some(s1) => match sp_int(s1) {
            None => None,
            Some((id, s2)) => match sp_lit(s2, lit_user_id()) {
                None => None,
                Some(s3) => match sp_int(s3) {
                    None => None,
                    Some((author_id, s4)) => match sp_lit(s4, lit_title()) {
                        None => None,
                        Some(s5) => match sp_string(s5) {
                            None => None,
                            Some((title, s6)) => match sp_lit(s6, lit_body()) {
                                None => None,
                                Some(s7) => match sp_string(s7) {
                                    None => None,
                                    Some((body, s8)) => match sp_lit(s8, seq!['}']) {
                                        None => None,
                                        Some(s9) => Some(
                                            (PostV { id, author_id, title, body }, s9),
                                        ),
                                    },
                                },
                            },
                        },
                    },
                },
            },
        },
    }
}

/// Reads `object (',' object)* ']'` off the front of `s`: the items and
/// what remains after the closing bracket.
pub open spec fn sp_items(s: Seq<char>) -> Option<(Seq<PostV>, Seq<char>)>
    decreases s.len(),
    via sp_items_decreases
{
    match sp_obj(s) {
        None => None,
        Some((p, r)) => if r.len() > 0 && r[0] == ',' {
            match sp_items(r.drop_first()) {
                Some((ps, r2)) => Some((seq![p] + ps, r2)),
                None => None,
            }
        } else if r.len() > 0 && r[0] == ']' {
            Some((seq![p], r.drop_first()))
        } else {
            None
        },
    }
}

#[via_fn]
proof fn sp_items_decreases(s: Seq<char>) {
    lemma_sp_obj_consumes(s);
}

/// Reads a whole wire text: the bracketed list with nothing after the
/// closing bracket.
pub open spec fn sp_posts(s: Seq<char>) -> Option<Seq<PostV>> {
    if s.len() == 2 && s[0] == '[' && s[1] == ']' {
        Some(Seq::empty())
    } else if s.len() > 0 && s[0] == '[' {
        match sp_items(s.drop_first()) {
            Some((ps, r)) => if r.len() == 0 {
                Some(ps)
            } else {
                None
            },
            None => None,
        }
    } else {
        None
    }
}

/// A string read consumes at least its closing quote.
proof fn lemma_sp_str_body_consumes(s: Seq<char>)
    ensures
        (match sp_str_body(s) {
            Some((t, r)) => r.len() < s.len(),
            None => true,
        }),
    decreases s.len(),
{
    if s.len() == 0 {
    } else if s[0] == '"' {
    } else if s[0] == '\\' {
        if s.len() >= 2 {
            lemma_sp_str_body_consumes(s.skip(2));
        }
    } else {
        lemma_sp_str_body_consumes(s.drop_first());
    }
}

/// An object read consumes at least its braces.
proof fn lemma_sp_obj_consumes(s: Seq<char>)
    ensures
        (match sp_obj(s) {
            Some((p, r)) => r.len() < s.len(),
            None => true,
        }),
{
    if sp_obj(s) is Some {
        let s1 = sp_lit(s, lit_id())->Some_0;
        assert(s1.len() <= s.len());
        let (_, s2) = sp_int(s1)->Some_0;
        lemma_sp_int_consumes(s1);
        let s3 = sp_lit(s2, lit_user_id())->Some_0;
        let (_, s4) = sp_int(s3)->Some_0;
        lemma_sp_int_consumes(s3);
        let s5 = sp_lit(s4, lit_title())->Some_0;
        let (_, s6) = sp_string(s5)->Some_0;
        lemma_sp_string_consumes(s5);
        let s7 = sp_lit(s6, lit_body())->Some_0;
        let (_, s8) = sp_string(s7)->Some_0;
        lemma_sp_string_consumes(s7);
        let s9 = sp_lit(s8, seq!['}'])->Some_0;
        assert(s9.len() < s8.len());
    }
}

/// A number read consumes at least one character.
proof fn lemma_sp_int_consumes(s: Seq<char>)
    ensures
        (match sp_int(s) {
            Some((v, r)) => r.len() < s.len(),
            None => true,
        }),
{
    crate::num::lemma_digit_prefix_le_len(s);
    if s.len() > 0 && s[0] == '-' {
        crate::num::lemma_digit_prefix_le_len(s.drop_first());
    }
}

/// A quoted string read consumes at least its quotes.
proof fn lemma_sp_string_consumes(s: Seq<char>)
    ensures
        (match sp_string(s) {
            Some((t, r)) => r.len() < s.len(),
            None => true,
        }),
{
    if s.len() > 0 && s[0] == '"' {
        lemma_sp_str_body_consumes(s.drop_first());
    }
}

/// Reading an expected literal off a text that starts with it leaves
/// the rest.
proof fn lemma_sp_lit_round(l: Seq<char>, rest: Seq<char>)
    ensures
        sp_lit(l + rest, l) == Some(rest),
{
    let s = l + rest;
    assert(s.take(l.len() as int) =~= l);
    assert(s.skip(l.len() as int) =~= rest);
}

/// Reading a number off its rendering, followed by anything that is
/// not a digit, recovers its value and leaves the rest.
proof fn lemma_sp_uint_round(n: int, rest: Seq<char>)
    requires
        0 <= n,
        rest.len() == 0 || !is_digit(rest[0]),
    ensures
        sp_uint(u_chars(n) + rest) == Some((n, rest)),
{
    crate::num::lemma_u_chars_props(n);
    let d = u_chars(n);
    let s = d + rest;
    assert forall|m: int| 0 <= m < d.len() implies is_digit(s[m]) by {
        assert(s[m] == d[m]);
    }
    if d.len() < s.len() {
        assert(s[d.len() as int] == rest[0]);
    }
    crate::num::lemma_digit_prefix_run(s, d.len() as int);
    assert(s.take(d.len() as int) =~= d);
    assert(s.skip(d.len() as int) =~= rest);
    assert(s[0] == d[0]);
}

/// The same, for a signed rendering within the 32-bit range.
proof fn lemma_sp_int_round(n: int, rest: Seq<char>)
    requires
        -0x8000_0000 <= n <= 0x7fff_ffff,
        rest.len() == 0 || !is_digit(rest[0]),
    ensures
        sp_int(int_chars(n) + rest) == Some((n, rest)),
{
    if n >= 0 {
        lemma_sp_uint_round(n, rest);
        crate::num::lemma_u_chars_props(n);
        let s = u_chars(n) + rest;
        assert(s[0] == u_chars(n)[0]);
        assert(is_digit(s[0]));
        assert(s[0] != '-');
    } else {
        let m = -n;
        crate::num::lemma_u_chars_props(m);
        lemma_sp_uint_round(m, rest);
        let s = int_chars(n) + rest;
        assert(int_chars(n) == seq!['-'] + u_chars(m));
        assert(s[0] == '-');
        assert(s.drop_first() =~= u_chars(m) + rest);
    }
}

/// Reading a string body off an escaped text, its closing quote and a
/// remainder recovers the text exactly.
proof fn lemma_sp_str_body_round(t: Seq<char>, rest: Seq<char>)
    requires
        wf_text(t),
    ensures
        sp_str_body(esc_all(t) + seq!['"'] + rest) == Some((t, rest)),
    decreases t.len(),
{
    let s = esc_all(t) + seq!['"'] + rest;
    if t.len() == 0 {
        assert(esc_all(t) == Seq::<char>::empty());
        assert(s[0] == '"');
        assert(s.drop_first() =~= rest);
        assert(t =~= Seq::<char>::empty());
    } else {
        let c = t[0];
        let t1 = t.drop_first();
        assert forall|m: int| 0 <= m < t1.len() implies wf_char(t1[m]) by {
            assert(t1[m] == t[m + 1]);
        }
        assert(wf_char(c));
        lemma_sp_str_body_round(t1, rest);
        assert(esc_all(t) == esc(c) + esc_all(t1));
        let s1 = esc_all(t1) + seq!['"'] + rest;
        match esc_code(c) {
            Some(e) => {
                assert(esc(c) == seq!['\\', e]);
                assert(s[0] == '\\');
                assert(s.len() >= 2);
                assert(s[1] == e);
                assert(unesc(e) == Some(c));
                assert(s.skip(2) =~= s1);
                assert(seq![c] + t1 =~= t);
            },
            None => {
                assert(esc(c) == seq![c]);
                assert(s[0] == c);
                assert(c != '"' && c != '\\');
                assert(c >= ' ');
                assert(s.drop_first() =~= s1);
                assert(seq![c] + t1 =~= t);
            },
        }
    }
}

/// Reading a quoted string off its rendering recovers the text.
proof fn lemma_sp_string_round(t: Seq<char>, rest: Seq<char>)
    requires
        wf_text(t),
    ensures
        sp_string(str_json(t) + rest) == Some((t, rest)),
{
    let s = str_json(t) + rest;
    assert(s[0] == '"');
    assert(s.drop_first() =~= esc_all(t) + seq!['"'] + rest);
    lemma_sp_str_body_round(t, rest);
}

/// Reading one object off its rendering recovers the post.
proof fn lemma_sp_obj_round(p: PostV, rest: Seq<char>)
    requires
        wf_post(p),
    ensures
        sp_obj(obj_json(p) + rest) == Some((p, rest)),
{
    let s = obj_json(p) + rest;
    let t9 = seq!['}'] + rest;
    let t8 = str_json(p.body) + t9;
    let t7 = lit_body() + t8;
    let t6 = str_json(p.title) + t7;
    let t5 = lit_title() + t6;
    let t4 = int_chars(p.author_id) + t5;
    let t3 = lit_user_id() + t4;
    let t2 = int_chars(p.id) + t3;
    assert(s =~= lit_id() + t2);
    lemma_sp_lit_round(lit_id(), t2);
    assert(t3[0] == ',');
    assert(!is_digit(','));
    lemma_sp_int_round(p.id, t3);
    lemma_sp_lit_round(lit_user_id(), t4);
    assert(t5[0] == ',');
    lemma_sp_int_round(p.author_id, t5);
    lemma_sp_lit_round(lit_title(), t6);
    lemma_sp_string_round(p.title, t7);
    lemma_sp_lit_round(lit_body(), t8);
    lemma_sp_string_round(p.body, t9);
    lemma_sp_lit_round(seq!['}'], rest);
    assert(sp_obj(s) == Some((PostV { id: p.id, author_id: p.author_id, title: p.title, body: p.body }, rest)));
    assert(PostV { id: p.id, author_id: p.author_id, title: p.title, body: p.body } =~= p);
}

/// Reading the comma-separated items and the closing bracket off their
/// rendering recovers the list.
#[verifier::rlimit(100)]
proof fn lemma_sp_items_round(ps: Seq<PostV>, rest: Seq<char>)
    requires
        wf_posts(ps),
        ps.len() >= 1,
    ensures
        sp_items(items_json(ps) + (seq![']'] + rest)) == Some((ps, rest)),
    decreases ps.len(),
{
    let s = items_json(ps) + (seq![']'] + rest);
    assert(wf_post(ps[0]));
    if ps.len() == 1 {
        assert(items_json(ps) == obj_json(ps[0]));
        lemma_sp_obj_round(ps[0], seq![']'] + rest);
        let r = seq![']'] + rest;
        assert(r[0] == ']');
        assert(r.drop_first() =~= rest);
        assert(seq![ps[0]] =~= ps);
    } else {
        let ps1 = ps.drop_first();
        assert forall|m: int| 0 <= m < ps1.len() implies wf_post(#[trigger] ps1[m]) by {
            assert(ps1[m] == ps[m + 1]);
        }
        lemma_sp_items_round(ps1, rest);
        let tail = seq![','] + (items_json(ps1) + (seq![']'] + rest));
        assert(items_json(ps) == obj_json(ps[0]) + seq![','] + items_json(ps1));
        assert(s =~= obj_json(ps[0]) + tail);
        lemma_sp_obj_round(ps[0], tail);
        assert(tail[0] == ',');
        assert(tail.drop_first() =~= items_json(ps1) + (seq![']'] + rest));
        assert(seq![ps[0]] + ps1 =~= ps);
    }
}

/// Law: decoding the canonical wire form of any representable post
/// list yields exactly that list — as many posts as were encoded, each
/// field preserved.
pub proof fn lemma_round_trip(ps: Seq<PostV>)
    requires
        wf_posts(ps),
    ensures
        sp_posts(posts_json(ps)) == Some(ps),
{
    let s = posts_json(ps);
    if ps.len() == 0 {
        assert(items_json(ps) == Seq::<char>::empty());
        assert(s =~= seq!['[', ']']);
        assert(s.len() == 2 && s[0] == '[' && s[1] == ']');
    } else {
        assert(s[0] == '[');
        assert(obj_json(ps[0]).len() >= 1);
        assert(items_json(ps)[0] == obj_json(ps[0])[0]);
        assert(obj_json(ps[0])[0] == lit_id()[0]);
        assert(s[1] == '{');
        lemma_sp_items_round(ps, Seq::<char>::empty());
        assert(s.drop_first() =~= items_json(ps) + (seq![']'] + Seq::<char>::empty()));
    }
}

/// A literal read splits the text exactly at the literal.
proof fn lemma_sp_lit_sound(s: Seq<char>, l: Seq<char>)
    ensures
        (match sp_lit(s, l) {
            Some(r) => s == l + r,
            None => true,
        }),
{
    if sp_lit(s, l) is Some {
        assert(s =~= s.take(l.len() as int) + s.skip(l.len() as int));
    }
}

/// A number read splits the text exactly at the canonical rendering of
/// its value.
proof fn lemma_sp_uint_sound(s: Seq<char>)
    ensures
        (match sp_uint(s) {
            Some((v, r)) => v >= 0 && s == u_chars(v) + r,
            None => true,
        }),
{
    if sp_uint(s) is Some {
        let k = digit_prefix_len(s);
        crate::num::lemma_digit_prefix_le_len(s);
        crate::num::lemma_digit_prefix_digits(s);
        let d = s.take(k);
        assert forall|m: int| 0 <= m < d.len() implies is_digit(d[m]) by {
            assert(d[m] == s[m]);
        }
        assert(d[0] == s[0]);
        crate::num::lemma_canon_digits(d);
        assert(s =~= d + s.skip(k));
    }
}

/// The same, with the sign.
proof fn lemma_sp_int_sound(s: Seq<char>)
    ensures
        (match sp_int(s) {
            Some((v, r)) => -0x8000_0000 <= v <= 0x7fff_ffff && s == int_chars(v) + r,
            None => true,
        }),
{
    if s.len() > 0 && s[0] == '-' {
        lemma_sp_uint_sound(s.drop_first());
        if sp_int(s) is Some {
            let (u, r) = sp_uint(s.drop_first())->Some_0;
            assert(s.drop_first() == u_chars(u) + r);
            assert(int_chars(-u) == seq!['-'] + u_chars(u));
            assert(s =~= seq![s[0]] + s.drop_first());
            assert(s =~= (seq!['-'] + u_chars(u)) + r);
        }
    } else {
        lemma_sp_uint_sound(s);
    }
}

/// A string-body read splits the text exactly at the escaped form of
/// the text it carries, quote included, and carries only representable
/// characters.
proof fn lemma_sp_str_body_sound(s: Seq<char>)
    ensures
        (match sp_str_body(s) {
            Some((t, r)) => wf_text(t) && s == esc_all(t) + seq!['"'] + r,
            None => true,
        }),
    decreases s.len(),
{
    if s.len() == 0 {
    } else if s[0] == '"' {
        if sp_str_body(s) is Some {
            assert(esc_all(Seq::<char>::empty()) == Seq::<char>::empty());
            assert(s =~= seq![s[0]] + s.drop_first());
            assert(s =~= esc_all(Seq::<char>::empty()) + seq!['"'] + s.drop_first());
        }
    } else if s[0] == '\\' {
        if s.len() >= 2 && unesc(s[1]) is Some {
            let c = unesc(s[1])->0;
            lemma_sp_str_body_sound(s.skip(2));
            if sp_str_body(s.skip(2)) is Some {
                let (t1, r) = sp_str_body(s.skip(2))->Some_0;
                assert(wf_char(c));
                let t = seq![c] + t1;
                assert(t[0] == c);
                assert(t.drop_first() =~= t1);
                assert(esc_code(c) == Some(s[1]));
                assert(esc(c) == seq!['\\', s[1]]);
                assert(esc_all(t) == esc(c) + esc_all(t1));
                assert forall|m: int| 0 <= m < t.len() implies wf_char(t[m]) by {
                    if m > 0 {
                        assert(wf_char(t1[m - 1]));
                    }
                }
                assert(s =~= seq![s[0], s[1]] + s.skip(2));
                assert(s =~= (esc(c) + esc_all(t1)) + seq!['"'] + r);
                assert(s =~= esc_all(t) + seq!['"'] + r);
            }
        }
    } else if s[0] >= ' ' {
        let c = s[0];
        lemma_sp_str_body_sound(s.drop_first());
        if sp_str_body(s.drop_first()) is Some {
            let (t1, r) = sp_str_body(s.drop_first())->Some_0;
            let t = seq![c] + t1;
            assert(t[0] == c);
            assert(t.drop_first() =~= t1);
            assert(esc_code(c) is None);
            assert(esc(c) == seq![c]);
            assert(esc_all(t) == esc(c) + esc_all(t1));
            assert forall|m: int| 0 <= m < t.len() implies wf_char(t[m]) by {
                if m > 0 {
                    assert(wf_char(t1[m - 1]));
                }
            }
            assert(s =~= seq![c] + s.drop_first());
            assert(s =~= esc_all(t) + seq!['"'] + r);
        }
    }
}

/// A quoted-string read splits the text exactly at the quoted form.
proof fn lemma_sp_string_sound(s: Seq<char>)
    ensures
        (match sp_string(s) {
            Some((t, r)) => wf_text(t) && s == str_json(t) + r,
            None => true,
        }),
{
    if s.len() > 0 && s[0] == '"' {
        lemma_sp_str_body_sound(s.drop_first());
        if sp_str_body(s.drop_first()) is Some {
            let (t, r) = sp_str_body(s.drop_first())->Some_0;
            assert(s =~= seq!['"'] + s.drop_first());
            assert(s =~= (seq!['"'] + esc_all(t) + seq!['"']) + r);
        }
    }
}

/// An object read splits the text exactly at the wire form of the post
/// it yields, and yields only representable posts.
#[verifier::rlimit(100)]
proof fn lemma_sp_obj_sound(s: Seq<char>)
    ensures
        (match sp_obj(s) {
            Some((p, r)) => wf_post(p) && s == obj_json(p) + r,
            None => true,
        }),
{
    if sp_obj(s) is Some {
        let s1 = sp_lit(s, lit_id())->Some_0;
        lemma_sp_lit_sound(s, lit_id());
        let (id, s2) = sp_int(s1)->Some_0;
        lemma_sp_int_sound(s1);
        let s3 = sp_lit(s2, lit_user_id())->Some_0;
        lemma_sp_lit_sound(s2, lit_user_id());
        let (author_id, s4) = sp_int(s3)->Some_0;
        lemma_sp_int_sound(s3);
        let s5 = sp_lit(s4, lit_title())->Some_0;
        lemma_sp_lit_sound(s4, lit_title());
        let (title, s6) = sp_string(s5)->Some_0;
        lemma_sp_string_sound(s5);
        let s7 = sp_lit(s6, lit_body())->Some_0;
        lemma_sp_lit_sound(s6, lit_body());
        let (body, s8) = sp_string(s7)->Some_0;
        lemma_sp_string_sound(s7);
        let s9 = sp_lit(s8, seq!['}'])->Some_0;
        lemma_sp_lit_sound(s8, seq!['}']);
        let p = PostV { id, author_id, title, body };
        assert(s =~= obj_json(p) + s9);
    }
}

/// An item-list read splits the text exactly at the wire form of the
/// items and their closing bracket.
#[verifier::rlimit(100)]
proof fn lemma_sp_items_sound(s: Seq<char>)
    ensures
        (match sp_items(s) {
            Some((ps, r)) => {
                &&& ps.len() >= 1
                &&& wf_posts(ps)
                &&& s == items_json(ps) + (seq![']'] + r)
            },
            None => true,
        }),
    decreases s.len(),
{
    if sp_obj(s) is Some {
        let (p, r1) = sp_obj(s)->Some_0;
        lemma_sp_obj_sound(s);
        lemma_sp_obj_consumes(s);
        if r1.len() > 0 && r1[0] == ',' {
            lemma_sp_items_sound(r1.drop_first());
            if sp_items(r1.drop_first()) is Some {
                let (ps1, r) = sp_items(r1.drop_first())->Some_0;
                let ps = seq![p] + ps1;
                assert(ps[0] == p);
                assert(ps.drop_first() =~= ps1);
                assert(items_json(ps) == obj_json(ps[0]) + seq![','] + items_json(ps1));
                assert forall|m: int| 0 <= m < ps.len() implies wf_post(#[trigger] ps[m]) by {
                    if m > 0 {
                        assert(wf_post(ps1[m - 1]));
                    }
                }
                assert(r1 =~= seq![','] + r1.drop_first());
                assert(s =~= (obj_json(p) + seq![','] + items_json(ps1)) + (seq![']'] + r));
            }
        } else if r1.len() > 0 && r1[0] == ']' {
            let ps = seq![p];
            assert(items_json(ps) == obj_json(p));
            assert(r1 =~= seq![']'] + r1.drop_first());
            assert(s =~= items_json(ps) + (seq![']'] + r1.drop_first()));
        }
    }
}

/// Law: the wire form is unambiguous — a text reads back as a list
/// only when it is exactly that list's canonical rendering, and every
/// list read back is representable.
pub proof fn lemma_decode_canonical(s: Seq<char>)
    ensures
        (match sp_posts(s) {
            Some(ps) => wf_posts(ps) && s == posts_json(ps),
            None => true,
        }),
{
    if s.len() == 2 && s[0] == '[' && s[1] == ']' {
        assert(items_json(Seq::<PostV>::empty()) == Seq::<char>::empty());
        assert(s =~= posts_json(Seq::<PostV>::empty()));
    } else if s.len() > 0 && s[0] == '[' {
        lemma_sp_items_sound(s.drop_first());
        if sp_posts(s) is Some {
            let (ps, r) = sp_items(s.drop_first())->Some_0;
            assert(r.len() == 0);
            assert(r =~= Seq::<char>::empty());
            assert(s =~= seq!['['] + s.drop_first());
            assert(s.drop_first() == items_json(ps) + (seq![']'] + r));
            assert(s =~= (seq!['['] + items_json(ps)) + seq![']']);
        }
    }
}

/// Does `v` continue with the literal `l` at `i`? On success, the
/// index just past it.
fn p_lit(v: &Vec<char>, i: usize, l: &str) -> (r: Option<usize>)
    requires
        i <= v.len(),
    ensures
        (match r {
            Some(j) => {
                &&& i <= j <= v.len()
                &&& j == i + l@.len()
                &&& sp_lit(v@.skip(i as int), l@) == Some(v@.skip(j as int))
            },
            None => sp_lit(v@.skip(i as int), l@) is None,
        }),
{
    let n = l.unicode_len();
    if n > v.len() - i {
        assert(sp_lit(v@.skip(i as int), l@) is None);
        return None;
    }
    let mut j: usize = 0;
    while j < n
        invariant
            0 <= j <= n,
            i + n <= v.len(),
            n == l@.len(),
            forall|m: int| 0 <= m < j ==> v@[i + m] == l@[m],
        decreases n - j,
    {
        if v[i + j] != l.get_char(j) {
            proof {
                let s = v@.skip(i as int);
                assert(s.take(n as int)[j as int] == v@[i + j]);
                assert(s.take(n as int) != l@);
            }
            return None;
        }
        j += 1;
    }
    proof {
        let s = v@.skip(i as int);
        assert(s.take(n as int) =~= l@);
        assert(s.skip(n as int) =~= v@.skip(i + n));
    }
    Some(i + n)
}

/// The end of the digit run beginning at `i`.
fn digit_run_end(v: &Vec<char>, i: usize) -> (j: usize)
    requires
        i <= v.len(),
    ensures
        i <= j <= v.len(),
        forall|m: int| i <= m < j ==> is_digit(v@[m]),
        j == v.len() || !is_digit(v@[j as int]),
        digit_prefix_len(v@.skip(i as int)) == j - i,
{
    let mut j = i;
    let mut stop = false;
    while !stop && j < v.len()
        invariant
            i <= j <= v.len(),
            forall|m: int| i <= m < j ==> is_digit(v@[m]),
            stop ==> (j == v.len() || !is_digit(v@[j as int])),
        decreases v.len() - j + (if stop { 0int } else { 1int }),
    {
        let c = v[j];
        if '0' <= c && c <= '9' {
            j += 1;
        } else {
            stop = true;
        }
    }
    proof {
        let s = v@.skip(i as int);
        assert forall|m: int| 0 <= m < j - i implies is_digit(s[m]) by {
            assert(s[m] == v@[i + m]);
        }
        if j < v.len() {
            assert(s[(j - i) as int] == v@[j as int]);
        }
        crate::num::lemma_digit_prefix_run(s, j - i);
    }
    j
}

/// Reads an unsigned canonical decimal at `i`. Gives up exactly on the
/// values the wire cannot mean, those beyond the 32-bit magnitudes.
fn p_uint(v: &Vec<char>, i: usize) -> (r: Option<(u64, usize)>)
    requires
        i <= v.len(),
    ensures
        (match r {
            Some((n, j)) => {
                &&& i < j <= v.len()
                &&& n <= 0x8000_0000
                &&& sp_uint(v@.skip(i as int)) == Some((n as int, v@.skip(j as int)))
            },
            None => (match sp_uint(v@.skip(i as int)) {
                Some((n, rest)) => n > 0x8000_0000,
                None => true,
            }),
        }),
{
    let ghost s = v@.skip(i as int);
    let j = digit_run_end(v, i);
    if j == i {
        return None;
    }
    if v[i] == '0' && j - i > 1 {
        assert(s[0] == v@[i as int]);
        return None;
    }
    assert(s[0] == v@[i as int]);
    let mut k = i;
    let mut acc: u64 = 0;
    while k < j
        invariant
            i <= k <= j <= v.len(),
            forall|m: int| i <= m < j ==> is_digit(v@[m]),
            acc <= 0x8000_0000,
            acc as int == digits_val(v@.subrange(i as int, k as int)),
            digit_prefix_len(v@.skip(i as int)) == j - i,
            !(v@[i as int] == '0' && j - i > 1),
            i < j,
        decreases j - k,
    {
        let d = digit_val_exec(v[k]);
        proof {
            assert(v@.subrange(i as int, k + 1).drop_last() =~= v@.subrange(i as int, k as int));
            assert(v@.subrange(i as int, k + 1).last() == v@[k as int]);
        }
        let next: u64 = acc * 10 + (d as u64);
        assert(next as int == digits_val(v@.subrange(i as int, k + 1)));
        if next > 0x8000_0000 {
            proof {
                let pre = v@.subrange(i as int, k + 1);
                let post = v@.subrange(k + 1, j as int);
                assert(pre + post =~= v@.subrange(i as int, j as int));
                assert(all_digits(pre));
                assert(all_digits(post));
                crate::num::lemma_digits_val_extend(pre, post);
                assert(v@.skip(i as int).take((j - i) as int) =~= v@.subrange(
                    i as int,
                    j as int,
                ));
                assert(v@.skip(i as int)[0] == v@[i as int]);
                assert(digits_val(v@.skip(i as int).take((j - i) as int)) > 0x8000_0000);
            }
            return None;
        }
        acc = next;
        k += 1;
    }
    proof {
        assert(s.take((j - i) as int) =~= v@.subrange(i as int, j as int));
        assert(s.skip((j - i) as int) =~= v@.skip(j as int));
    }
    Some((acc, j))
}

/// Reads a decimal within the 32-bit signed range at `i`.
fn p_int(v: &Vec<char>, i: usize) -> (r: Option<(i32, usize)>)
    requires
        i <= v.len(),
    ensures
        (match r {
            Some((n, j)) => {
                &&& i < j <= v.len()
                &&& sp_int(v@.skip(i as int)) == Some((n as int, v@.skip(j as int)))
            },
            None => sp_int(v@.skip(i as int)) is None,
        }),
{
    let ghost s = v@.skip(i as int);
    if i < v.len() && v[i] == '-' {
        assert(s[0] == v@[i as int]);
        assert(s.drop_first() =~= v@.skip(i + 1));
        match p_uint(v, i + 1) {
            None => None,
            Some((u, j)) => {
                if u == 0 {
                    None
                } else if u == 0x8000_0000 {
                    Some((i32::MIN, j))
                } else {
                    let n: i32 = -(u as i32);
                    Some((n, j))
                }
            },
        }
    } else {
        proof {
            if s.len() > 0 {
                assert(s[0] == v@[i as int]);
            }
        }
        match p_uint(v, i) {
            None => None,
            Some((u, j)) => {
                if u > 0x7fff_ffff {
                    None
                } else {
                    Some((u as i32, j))
                }
            },
        }
    }
}

/// Reads the remainder of a quoted string at `i`, after its opening
/// quote: the text and the index after the closing quote.
fn p_str_body(v: &Vec<char>, i: usize) -> (r: Option<(String, usize)>)
    requires
        i <= v.len(),
    ensures
        (match r {
            Some((t, j)) => {
                &&& i < j <= v.len()
                &&& sp_str_body(v@.skip(i as int)) == Some((t@, v@.skip(j as int)))
            },
            None => sp_str_body(v@.skip(i as int)) is None,
        }),
{
    let mut acc = String::new();
    let mut k = i;
    loop
        invariant
            i <= k <= v.len(),
            (match sp_str_body(v@.skip(k as int)) {
                Some((t, rr)) => sp_str_body(v@.skip(i as int)) == Some((acc@ + t, rr)),
                None => sp_str_body(v@.skip(i as int)) is None,
            }),
        decreases v.len() - k,
    {
        if k == v.len() {
            return None;
        }
        let c = v[k];
        assert(v@.skip(k as int)[0] == c);
        if c == '"' {
            proof {
                assert(v@.skip(k as int).drop_first() =~= v@.skip(k + 1));
                assert(acc@ + Seq::<char>::empty() =~= acc@);
            }
            return Some((acc, k + 1));
        } else if c == '\\' {
            if k + 1 == v.len() {
                assert(v@.skip(k as int).len() == 1);
                return None;
            }
            let e = v[k + 1];
            assert(v@.skip(k as int)[1] == e);
            let u: char;
            if e == '"' {
                u = '"';
            } else if e == '\\' {
                u = '\\';
            } else if e == 'n' {
                u = '\n';
            } else if e == 'r' {
                u = '\r';
            } else if e == 't' {
                u = '\t';
            } else {
                assert(unesc(e) is None);
                return None;
            }
            proof {
                assert(unesc(e) == Some(u));
                assert(v@.skip(k as int).skip(2) =~= v@.skip(k + 2));
                match sp_str_body(v@.skip(k + 2)) {
                    Some((t, rr)) => {
                        assert(acc@ + (seq![u] + t) =~= acc@.push(u) + t);
                    },
                    None => {},
                }
            }
            push_char(&mut acc, u);
            k += 2;
        } else if !(c >= ' ') {
            return None;
        } else {
            proof {
                assert(v@.skip(k as int).drop_first() =~= v@.skip(k + 1));
                match sp_str_body(v@.skip(k + 1)) {
                    Some((t, rr)) => {
                        assert(acc@ + (seq![c] + t) =~= acc@.push(c) + t);
                    },
                    None => {},
                }
            }
            push_char(&mut acc, c);
            k += 1;
        }
    }
}

/// Reads a quoted string at `i`.
fn p_string(v: &Vec<char>, i: usize) -> (r: Option<(String, usize)>)
    requires
        i <= v.len(),
    ensures
        (match r {
            Some((t, j)) => {
                &&& i < j <= v.len()
                &&& sp_string(v@.skip(i as int)) == Some((t@, v@.skip(j as int)))
            },
            None => sp_string(v@.skip(i as int)) is None,
        }),
{
    if i < v.len() {
        let c = v[i];
        assert(v@.skip(i as int)[0] == c);
        if c == '"' {
            assert(v@.skip(i as int).drop_first() =~= v@.skip(i + 1));
            return p_str_body(v, i + 1);
        }
    }
    assert(sp_string(v@.skip(i as int)) is None);
    None
}

/// Reads one post object at `i`.
fn p_obj(v: &Vec<char>, i: usize) -> (r: Option<(Post, usize)>)
    requires
        i <= v.len(),
    ensures
        (match r {
            Some((p, j)) => {
                &&& i < j <= v.len()
                &&& sp_obj(v@.skip(i as int)) == Some((p@, v@.skip(j as int)))
            },
            None => sp_obj(v@.skip(i as int)) is None,
        }),
{
    proof {
        reveal_strlit("{\"id\":");
        reveal_strlit(",\"userId\":");
        reveal_strlit(",\"title\":");
        reveal_strlit(",\"body\":");
        reveal_strlit("}");
        assert("{\"id\":"@ =~= lit_id());
        assert(",\"userId\":"@ =~= lit_user_id());
        assert(",\"title\":"@ =~= lit_title());
        assert(",\"body\":"@ =~= lit_body());
        assert("}"@ =~= seq!['}']);
    }
    match p_lit(v, i, "{\"id\":") {
        None => None,
        Some(i1) => match p_int(v, i1) {
            None => None,
            Some((id, i2)) => match p_lit(v, i2, ",\"userId\":") {
                None => None,
                Some(i3) => match p_int(v, i3) {
                    None => None,
                    Some((author_id, i4)) => match p_lit(v, i4, ",\"title\":") {
                        None => None,
                        Some(i5) => match p_string(v, i5) {
                            None => None,
                            Some((title, i6)) => match p_lit(v, i6, ",\"body\":") {
                                None => None,
                                Some(i7) => match p_string(v, i7) {
                                    None => None,
                                    Some((body, i8)) => match p_lit(v, i8, "}") {
                                        None => None,
                                        Some(i9) => {
                                            let p = Post { id, author_id, title, body };
                                            Some((p, i9))
                                        },
                                    },
                                },
                            },
                        },
                    },
                },
            },
        },
    }
}

/// Reads `object (',' object)* ']'` at `i`.
fn p_items(v: &Vec<char>, i: usize) -> (r: Option<(Vec<Post>, usize)>)
    requires
        i <= v.len(),
    ensures
        (match r {
            Some((ps, j)) => {
                &&& i < j <= v.len()
                &&& sp_items(v@.skip(i as int)) == Some((ps.deep_view(), v@.skip(j as int)))
            },
            None => sp_items(v@.skip(i as int)) is None,
        }),
    decreases v.len() - i,
{
    match p_obj(v, i) {
        None => None,
        Some((p, j)) => {
            if j < v.len() && v[j] == ',' {
                assert(v@.skip(j as int)[0] == v@[j as int]);
                assert(v@.skip(j as int).drop_first() =~= v@.skip(j + 1));
                match p_items(v, j + 1) {
                    None => None,
                    Some((mut ps, k)) => {
                        let ghost tail = ps.deep_view();
                        ps.insert(0, p);
                        proof {
                            assert(ps.deep_view() =~= seq![p@] + tail);
                        }
                        Some((ps, k))
                    },
                }
            } else if j < v.len() && v[j] == ']' {
                assert(v@.skip(j as int)[0] == v@[j as int]);
                assert(v@.skip(j as int).drop_first() =~= v@.skip(j + 1));
                let mut ps: Vec<Post> = Vec::new();
                ps.push(p);
                proof {
                    assert(ps.deep_view() =~= seq![p@]);
                }
                Some((ps, j + 1))
            } else {
                None
            }
        },
    }
}

/// Appends the wire form of one text character.
fn append_esc(out: &mut String, c: char)
    ensures
        final(out)@ == old(out)@ + esc(c),
{
    if c == '"' {
        push_char(out, '\\');
        push_char(out, '"');
    } else if c == '\\' {
        push_char(out, '\\');
        push_char(out, '\\');
    } else if c == '\n' {
        push_char(out, '\\');
        push_char(out, 'n');
    } else if c == '\r' {
        push_char(out, '\\');
        push_char(out, 'r');
    } else if c == '\t' {
        push_char(out, '\\');
        push_char(out, 't');
    } else {
        push_char(out, c);
    }
    assert(out@ =~= old(out)@ + esc(c));
}

/// Appends the wire form of a quoted string.
fn append_quoted(out: &mut String, t: &str)
    ensures
        final(out)@ == old(out)@ + str_json(t@),
{
    let ghost base = out@;
    push_char(out, '"');
    let n = t.unicode_len();
    let mut k: usize = 0;
    proof {
        assert(t@.skip(0) =~= t@);
        assert(out@ + esc_all(t@) =~= base + seq!['"'] + esc_all(t@));
    }
    while k < n
        invariant
            n == t@.len(),
            0 <= k <= n,
            out@ + esc_all(t@.skip(k as int)) == base + seq!['"'] + esc_all(t@),
        decreases n - k,
    {
        let c = t.get_char(k);
        proof {
            assert(t@.skip(k as int)[0] == c);
            assert(t@.skip(k as int).drop_first() =~= t@.skip(k + 1));
            assert(esc_all(t@.skip(k as int)) == esc(c) + esc_all(t@.skip(k + 1)));
            assert((out@ + esc(c)) + esc_all(t@.skip(k + 1)) =~= out@ + esc_all(t@.skip(k as int)));
        }
        append_esc(out, c);
        k += 1;
    }
    proof {
        assert(t@.skip(n as int) =~= Seq::<char>::empty());
        assert(esc_all(Seq::<char>::empty()) == Seq::<char>::empty());
        assert(out@ + esc_all(t@.skip(n as int)) =~= out@);
        assert(out@ =~= base + seq!['"'] + esc_all(t@));
    }
    push_char(out, '"');
    assert(out@ =~= base + str_json(t@));
}

/// Appends the wire form of one post object.
fn append_obj(out: &mut String, p: &Post)
    ensures
        final(out)@ == old(out)@ + obj_json(p@),
{
    proof {
        reveal_strlit("{\"id\":");
        reveal_strlit(",\"userId\":");
        reveal_strlit(",\"title\":");
        reveal_strlit(",\"body\":");
        assert("{\"id\":"@ =~= lit_id());
        assert(",\"userId\":"@ =~= lit_user_id());
        assert(",\"title\":"@ =~= lit_title());
        assert(",\"body\":"@ =~= lit_body());
    }
    out.append("{\"id\":");
    append_i32(out, p.id);
    out.append(",\"userId\":");
    append_i32(out, p.author_id);
    out.append(",\"title\":");
    append_quoted(out, p.title.as_str());
    out.append(",\"body\":");
    append_quoted(out, p.body.as_str());
    push_char(out, '}');
    assert(out@ =~= old(out)@ + obj_json(p@));
}

/// Encodes a post list into its canonical wire form.
pub fn encode_posts(posts: &Vec<Post>) -> (r: String)
    ensures
        r@ == posts_json(posts.deep_view()),
{
    let ghost ps = posts.deep_view();
    let mut out = String::new();
    push_char(&mut out, '[');
    let mut i: usize = 0;
    proof {
        assert(ps.skip(0) =~= ps);
        assert(out@ + items_json(ps) =~= seq!['['] + items_json(ps));
    }
    while i < posts.len()
        invariant
            0 <= i <= posts.len(),
            ps == posts.deep_view(),
            out@ + items_json(ps.skip(i as int)) == seq!['['] + items_json(ps),
        decreases posts.len() - i,
    {
        let ghost rem = ps.skip(i as int);
        proof {
            assert(rem[0] == ps[i as int]);
            assert(ps[i as int] == posts[i as int].deep_view());
            assert(rem.drop_first() =~= ps.skip(i + 1));
        }
        append_obj(&mut out, &posts[i]);
        if i + 1 < posts.len() {
            push_char(&mut out, ',');
            proof {
                assert(rem.len() >= 2);
                assert(items_json(rem) == obj_json(rem[0]) + seq![','] + items_json(
                    rem.drop_first(),
                ));
                assert(out@ + items_json(ps.skip(i + 1)) =~= seq!['['] + items_json(ps));
            }
        } else {
            proof {
                assert(rem.len() == 1);
                assert(items_json(rem) == obj_json(rem[0]));
                assert(ps.skip(i + 1) =~= Seq::<PostV>::empty());
                assert(items_json(Seq::<PostV>::empty()) == Seq::<char>::empty());
                assert(out@ + items_json(ps.skip(i + 1)) =~= seq!['['] + items_json(ps));
            }
        }
        i += 1;
    }
    proof {
        assert(ps.skip(posts.len() as int) =~= Seq::<PostV>::empty());
        assert(items_json(Seq::<PostV>::empty()) == Seq::<char>::empty());
        assert(out@ =~= seq!['['] + items_json(ps));
    }
    push_char(&mut out, ']');
    assert(out@ =~= posts_json(ps));
    out
}

/// Decodes the wire form of a post list: the list exactly when `s` is a
/// well-formed array of post objects, and nothing otherwise.
pub fn decode_posts(s: &str) -> (r: Option<Vec<Post>>)
    ensures
        (match r {
            Some(ps) => sp_posts(s@) == Some(ps.deep_view()),
            None => sp_posts(s@) is None,
        }),
{
    let n = s.unicode_len();
    let mut v: Vec<char> = Vec::new();
    let mut idx: usize = 0;
    while idx < n
        invariant
            0 <= idx <= n,
            n == s@.len(),
            v@ =~= s@.take(idx as int),
        decreases n - idx,
    {
        let c = s.get_char(idx);
        v.push(c);
        proof {
            assert(v@ =~= s@.take(idx + 1));
        }
        idx += 1;
    }
    assert(v@ =~= s@);
    if v.len() == 2 {
        let open_ok = v[0] == '[';
        let close_ok = v[1] == ']';
        if open_ok && close_ok {
            let ps: Vec<Post> = Vec::new();
            proof {
                assert(ps.deep_view() =~= Seq::<PostV>::empty());
            }
            return Some(ps);
        }
    }
    if v.len() > 0 {
        let c = v[0];
        if c == '[' {
            assert(v@.drop_first() =~= v@.skip(1));
            match p_items(&v, 1) {
                None => {
                    return None;
                },
                Some((ps, j)) => {
                    if j == v.len() {
                        assert(v@.skip(j as int) =~= Seq::<char>::empty());
                        return Some(ps);
                    } else {
                        assert(v@.skip(j as int).len() > 0);
                        return None;
                    }
                },
            }
        }
    }
    None
}

} // verus!
