//! Decimal digits: the canonical rendering of an integer and the value
//! of a digit sequence, with verified helpers shared by the renderer
//! (link targets) and the codec (the wire form of identifiers).

use vstd::prelude::*;

verus! {

/// Is `c` a decimal digit?
pub open spec fn is_digit(c: char) -> bool {
    '0' <= c && c <= '9'
}

/// The digit character for `d`, meaningful for `0 <= d <= 9`.
pub open spec fn digit_char(d: int) -> char {
    if d == 0 {
        '0'
    } else if d == 1 {
        '1'
    } else if d == 2 {
        '2'
    } else if d == 3 {
        '3'
    } else if d == 4 {
        '4'
    } else if d == 5 {
        '5'
    } else if d == 6 {
        '6'
    } else if d == 7 {
        '7'
    } else if d == 8 {
        '8'
    } else {
        '9'
    }
}

/// The value of a digit character, meaningful when `is_digit(c)`.
pub open spec fn digit_val(c: char) -> int {
    if c == '0' {
        0
    } else if c == '1' {
        1
    } else if c == '2' {
        2
    } else if c == '3' {
        3
    } else if c == '4' {
        4
    } else if c == '5' {
        5
    } else if c == '6' {
        6
    } else if c == '7' {
        7
    } else if c == '8' {
        8
    } else {
        9
    }
}

/// The decimal digits of `n >= 0`, most significant first, without a
/// leading zero.
pub open spec fn u_chars(n: int) -> Seq<char>
    decreases n,
{
    if n < 10 {
        seq![digit_char(n)]
    } else {
        u_chars(n / 10).push(digit_char(n % 10))
    }
}

/// The canonical decimal rendering of `n`: its digits, preceded by a
/// minus sign when `n` is negative.
pub open spec fn int_chars(n: int) -> Seq<char> {
    if n >= 0 {
        u_chars(n)
    } else {
        seq!['-'] + u_chars(-n)
    }
}

/// The value of a digit sequence read most significant first.
pub open spec fn digits_val(s: Seq<char>) -> int
    decreases s.len(),
{
    if s.len() == 0 {
        0
    } else {
        digits_val(s.drop_last()) * 10 + digit_val(s.last())
    }
}

/// Every character of `s` is a decimal digit.
pub open spec fn all_digits(s: Seq<char>) -> bool {
    forall|i: int| 0 <= i < s.len() ==> is_digit(s[i])
}

/// The rendering of `n >= 0` consists of digits, has no leading zero
/// unless it is "0" itself, and reads back to `n`.
pub proof fn lemma_u_chars_props(n: int)
    requires
        n >= 0,
    ensures
        all_digits(u_chars(n)),
        u_chars(n).len() >= 1,
        digits_val(u_chars(n)) == n,
        n >= 1 ==> u_chars(n)[0] != '0',
        n == 0 ==> u_chars(n) == seq!['0'],
        n < 10 ==> u_chars(n) == seq![digit_char(n)],
    decreases n,
{
    if n < 10 {
        let s = seq![digit_char(n)];
        assert(u_chars(n) == s);
        assert(s.drop_last() =~= Seq::<char>::empty());
        assert(digits_val(Seq::<char>::empty()) == 0);
        assert(s.last() == digit_char(n));
        assert(digits_val(s) == digits_val(s.drop_last()) * 10 + digit_val(s.last()));
        assert(digits_val(u_chars(n)) == digit_val(digit_char(n)));
    } else {
        lemma_u_chars_props(n / 10);
        let head = u_chars(n / 10);
        let whole = head.push(digit_char(n % 10));
        assert(u_chars(n) == whole);
        assert(whole.drop_last() =~= head);
        assert(whole.last() == digit_char(n % 10));
        assert(digits_val(whole) == digits_val(head) * 10 + digit_val(digit_char(n % 10)));
        assert(digit_val(digit_char(n % 10)) == n % 10);
        assert((n / 10) * 10 + n % 10 == n);
        assert(whole[0] == head[0]);
        assert forall|i: int| 0 <= i < whole.len() implies is_digit(whole[i]) by {
            if i < head.len() {
                assert(is_digit(head[i]));
            } else {
                assert(whole[i] == digit_char(n % 10));
            }
        }
    }
}

/// A digit sequence has a nonnegative value.
pub proof fn lemma_digits_val_nonneg(s: Seq<char>)
    requires
        all_digits(s),
    ensures
        digits_val(s) >= 0,
    decreases s.len(),
{
    if s.len() > 0 {
        assert(all_digits(s.drop_last()));
        lemma_digits_val_nonneg(s.drop_last());
        assert(is_digit(s.last()));
        assert(digit_val(s.last()) >= 0);
    }
}

/// Extending a digit sequence to the right never lowers its value.
pub proof fn lemma_digits_val_extend(a: Seq<char>, b: Seq<char>)
    requires
        all_digits(a),
        all_digits(b),
    ensures
        digits_val(a + b) >= digits_val(a),
    decreases b.len(),
{
    if b.len() == 0 {
        assert(a + b =~= a);
    } else {
        let b0 = b.drop_last();
        assert(all_digits(b0));
        lemma_digits_val_extend(a, b0);
        let w = a + b;
        assert(w.drop_last() =~= a + b0);
        assert(all_digits(a + b0));
        lemma_digits_val_nonneg(a + b0);
        assert(is_digit(w.last()));
        assert(digit_val(w.last()) >= 0);
        assert(digits_val(w) == digits_val(a + b0) * 10 + digit_val(w.last()));
    }
}

/// Reading back a digit gives the digit back.
pub proof fn lemma_digit_char_val(c: char)
    requires
        is_digit(c),
    ensures
        digit_char(digit_val(c)) == c,
{
}

/// A digit run with a leading digit other than zero has a value of at
/// least one.
pub proof fn lemma_digits_val_pos(d: Seq<char>)
    requires
        all_digits(d),
        d.len() >= 1,
        d[0] != '0',
    ensures
        digits_val(d) >= 1,
    decreases d.len(),
{
    if d.len() == 1 {
        assert(d.drop_last() =~= Seq::<char>::empty());
        assert(digits_val(Seq::<char>::empty()) == 0);
        assert(d.last() == d[0]);
        assert(digits_val(d) == digit_val(d[0]));
    } else {
        let head = d.drop_last();
        assert(all_digits(head));
        assert(head[0] == d[0]);
        lemma_digits_val_pos(head);
        assert(is_digit(d.last()));
        assert(digit_val(d.last()) >= 0);
    }
}

/// A canonical digit run — no leading zero unless it is "0" itself —
/// is the rendering of its own value.
pub proof fn lemma_canon_digits(d: Seq<char>)
    requires
        all_digits(d),
        d.len() >= 1,
        d[0] != '0' || d.len() == 1,
    ensures
        digits_val(d) >= 0,
        u_chars(digits_val(d)) == d,
    decreases d.len(),
{
    lemma_digits_val_nonneg(d);
    if d.len() == 1 {
        assert(d.drop_last() =~= Seq::<char>::empty());
        assert(digits_val(Seq::<char>::empty()) == 0);
        assert(d.last() == d[0]);
        let v = digits_val(d);
        assert(v == digit_val(d[0]));
        lemma_digit_char_val(d[0]);
        assert(u_chars(v) == seq![digit_char(v)]);
        assert(u_chars(v) =~= d);
    } else {
        let head = d.drop_last();
        assert(all_digits(head));
        assert(head[0] == d[0]);
        lemma_canon_digits(head);
        lemma_digits_val_pos(head);
        let v = digits_val(d);
        assert(v == digits_val(head) * 10 + digit_val(d.last()));
        assert(0 <= digit_val(d.last()) <= 9);
        assert(v >= 10);
        assert(v / 10 == digits_val(head));
        assert(v % 10 == digit_val(d.last()));
        assert(u_chars(v) == u_chars(digits_val(head)).push(digit_char(digit_val(d.last()))));
        lemma_digit_char_val(d.last());
        assert(u_chars(v) =~= d);
    }
}

/// The length of the longest digit prefix of `s`.
pub open spec fn digit_prefix_len(s: Seq<char>) -> int
    decreases s.len(),
{
    if s.len() > 0 && is_digit(s[0]) {
        1 + digit_prefix_len(s.drop_first())
    } else {
        0
    }
}

/// The digit prefix is no longer than the sequence itself.
pub proof fn lemma_digit_prefix_le_len(s: Seq<char>)
    ensures
        0 <= digit_prefix_len(s) <= s.len(),
    decreases s.len(),
{
    if s.len() > 0 && is_digit(s[0]) {
        lemma_digit_prefix_le_len(s.drop_first());
    }
}

/// The digit prefix consists of digits.
pub proof fn lemma_digit_prefix_digits(s: Seq<char>)
    ensures
        forall|m: int| 0 <= m < digit_prefix_len(s) ==> is_digit(s[m]),
    decreases s.len(),
{
    lemma_digit_prefix_le_len(s);
    if s.len() > 0 && is_digit(s[0]) {
        let s1 = s.drop_first();
        lemma_digit_prefix_digits(s1);
        assert forall|m: int| 0 <= m < digit_prefix_len(s) implies is_digit(s[m]) by {
            if m > 0 {
                assert(is_digit(s1[m - 1]));
            }
        }
    }
}

/// The digit prefix is exactly the run of digits at the front: `k`
/// digits followed by the end or by a non-digit.
pub proof fn lemma_digit_prefix_run(s: Seq<char>, k: int)
    requires
        0 <= k <= s.len(),
        forall|m: int| 0 <= m < k ==> is_digit(s[m]),
        k == s.len() || !is_digit(s[k]),
    ensures
        digit_prefix_len(s) == k,
    decreases s.len(),
{
    if k == 0 {
    } else {
        assert(is_digit(s[0]));
        let s1 = s.drop_first();
        assert forall|m: int| 0 <= m < k - 1 implies is_digit(s1[m]) by {
            assert(s1[m] == s[m + 1]);
        }
        assert(k - 1 == s1.len() || !is_digit(s1[k - 1]));
        lemma_digit_prefix_run(s1, k - 1);
    }
}

/// Relies on `String::push`: appends exactly the one character.
#[verifier::external_body]
pub(crate) fn push_char(s: &mut String, c: char)
    ensures
        final(s)@ == old(s)@.push(c),
{
    s.push(c);
}

/// The digit character for `d`.
pub fn digit_char_exec(d: u32) -> (c: char)
    requires
        d <= 9,
    ensures
        c == digit_char(d as int),
{
    if d == 0 {
        '0'
    } else if d == 1 {
        '1'
    } else if d == 2 {
        '2'
    } else if d == 3 {
        '3'
    } else if d == 4 {
        '4'
    } else if d == 5 {
        '5'
    } else if d == 6 {
        '6'
    } else if d == 7 {
        '7'
    } else if d == 8 {
        '8'
    } else {
        '9'
    }
}

/// The value of a digit character.
pub fn digit_val_exec(c: char) -> (d: u32)
    requires
        is_digit(c),
    ensures
        d == digit_val(c),
        d <= 9,
{
    if c == '0' {
        0
    } else if c == '1' {
        1
    } else if c == '2' {
        2
    } else if c == '3' {
        3
    } else if c == '4' {
        4
    } else if c == '5' {
        5
    } else if c == '6' {
        6
    } else if c == '7' {
        7
    } else if c == '8' {
        8
    } else {
        9
    }
}

/// Appends the decimal digits of `n`, most significant first.
pub fn append_u32(s: &mut String, n: u32)
    ensures
        final(s)@ == old(s)@ + u_chars(n as int),
    decreases n,
{
    if n < 10 {
        push_char(s, digit_char_exec(n));
        assert(final(s)@ =~= old(s)@ + u_chars(n as int));
    } else {
        append_u32(s, n / 10);
        push_char(s, digit_char_exec(n % 10));
        assert(final(s)@ =~= old(s)@ + u_chars(n as int));
    }
}

/// Appends the canonical decimal rendering of `n`.
pub fn append_i32(s: &mut String, n: i32)
    ensures
        final(s)@ == old(s)@ + int_chars(n as int),
{
    if n >= 0 {
        append_u32(s, n as u32);
    } else {
        push_char(s, '-');
        let m: i64 = -(n as i64);
        append_u32(s, m as u32);
        assert(final(s)@ =~= old(s)@ + int_chars(n as int));
    }
}

} // verus!
