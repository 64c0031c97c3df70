//! Character-level building blocks for the JSON texts the library emits and
//! accepts: decimal digits, string escaping, and the parsing primitives
//! (whitespace, string literals, unsigned integers) that the batch-file
//! grammar is built from.
//!
//! Every parsing function is specified against a spec-level function of the
//! input character sequence, so the accepted grammar is pinned down exactly.

use vstd::prelude::*;

verus! {

/// Relies on `String::push`: appends the given character to the end of the
/// string.
#[verifier::external_body]
pub(crate) fn push_char(s: &mut String, c: char)
    ensures
        final(s)@ == old(s)@.push(c),
{
    s.push(c);
}

/// The decimal digit character for a value below ten.
pub open spec fn digit_char(d: nat) -> char {
    ((d + 48) as u8) as char
}

/// The decimal digit string of `n`, most significant digit first, with no
/// leading zeros (a single `'0'` for zero).
pub open spec fn spec_digits(n: nat) -> Seq<char>
    decreases n,
{
    if n < 10 {
        seq![digit_char(n)]
    } else {
        spec_digits(n / 10).push(digit_char(n % 10))
    }
}

/// Prints `n` in decimal.
pub fn u64_to_string(n: u64) -> (s: String)
    ensures
        s@ == spec_digits(n as nat),
    decreases n,
{
    if n < 10 {
        let mut s = String::new();
        push_char(&mut s, (48 + n as u8) as char);
        s
    } else {
        let mut s = u64_to_string(n / 10);
        push_char(&mut s, (48 + (n % 10) as u8) as char);
        s
    }
}

/// How one character is written inside a JSON string literal: quotes,
/// backslashes and the common control characters are escaped, every other
/// character stands for itself.
pub open spec fn esc_char(c: char) -> Seq<char> {
    if c == '"' {
        seq!['\\', '"']
    } else if c == '\\' {
        seq!['\\', '\\']
    } else if c == '\n' {
        seq!['\\', 'n']
    } else if c == '\r' {
        seq!['\\', 'r']
    } else if c == '\t' {
        seq!['\\', 't']
    } else {
        seq![c]
    }
}

/// The escaped form of a whole text.
pub open spec fn esc(s: Seq<char>) -> Seq<char>
    decreases s.len(),
{
    if s.len() == 0 {
        Seq::empty()
    } else {
        esc(s.drop_last()) + esc_char(s.last())
    }
}

/// Appends the escaped form of `t` onto `out`.
pub fn append_escaped(out: &mut String, t: &str)
    ensures
        final(out)@ == old(out)@ + esc(t@),
{
    let n: usize = t.unicode_len();
    let mut i: usize = 0;
    while i < n
        invariant
            n == t@.len(),
            i <= n,
            out@ == old(out)@ + esc(t@.subrange(0, i as int)),
        decreases n - i,
    {
        let c = t.get_char(i);
        proof {
            assert(t@.subrange(0, (i + 1) as int).drop_last() =~= t@.subrange(0, i as int));
            assert(t@.subrange(0, (i + 1) as int).last() == t@[i as int]);
        }
        if c == '"' {
            push_char(out, '\\');
            push_char(out, '"');
        } else if c == '\\' {
            push_char(out, '\\');
            push_char(out, '\\');
        } else if c == '\n' {
            push_char(out, '\\');
            push_char(out, 'n');
        } else if c == '\r' {
            push_char(out, '\\');
            push_char(out, 'r');
        } else if c == '\t' {
            push_char(out, '\\');
            push_char(out, 't');
        } else {
            push_char(out, c);
        }
        proof {
            assert(out@ =~= old(out)@ + esc(t@.subrange(0, (i + 1) as int)));
        }
        i = i + 1;
    }
    proof {
        assert(t@.subrange(0, n as int) =~= t@);
    }
}

/// Character-for-character string equality.
pub fn str_eq(a: &str, b: &str) -> (r: bool)
    ensures
        r == (a@ == b@),
{
    let na: usize = a.unicode_len();
    let nb: usize = b.unicode_len();
    if na != nb {
        return false;
    }
    let mut i: usize = 0;
    while i < na
        invariant
            na == a@.len(),
            nb == b@.len(),
            na == nb,
            i <= na,
            forall|j: int| 0 <= j < i ==> a@[j] == b@[j],
        decreases na - i,
    {
        let ca = a.get_char(i);
        let cb = b.get_char(i);
        if ca != cb {
            return false;
        }
        i = i + 1;
    }
    proof {
        assert(a@ =~= b@);
    }
    true
}

/// Ten to the `k`.
pub open spec fn pow10(k: nat) -> nat
    decreases k,
{
    if k == 0 {
        1
    } else {
        10 * pow10((k - 1) as nat)
    }
}

pub proof fn lemma_pow10_pos(k: nat)
    ensures
        pow10(k) >= 1,
    decreases k,
{
    if k > 0 {
        lemma_pow10_pos((k - 1) as nat);
    }
}

/// The value of a run of digit characters, most significant first.
pub open spec fn digit_seq_val(ds: Seq<char>) -> nat
    decreases ds.len(),
{
    if ds.len() == 0 {
        0
    } else {
        digit_val(ds[0]) * pow10((ds.len() - 1) as nat) + digit_seq_val(
            ds.subrange(1, ds.len() as int),
        )
    }
}

pub proof fn lemma_digits_are_digits(m: nat)
    ensures
        spec_digits(m).len() >= 1,
        forall|k: int| 0 <= k < spec_digits(m).len() ==> is_digit(#[trigger] spec_digits(m)[k]),
    decreases m,
{
    if m < 10 {
    } else {
        lemma_digits_are_digits(m / 10);
        assert forall|k: int| 0 <= k < spec_digits(m).len() implies is_digit(
            #[trigger] spec_digits(m)[k],
        ) by {
            if k < spec_digits(m / 10).len() {
                assert(spec_digits(m)[k] == spec_digits(m / 10)[k]);
            } else {
                assert(spec_digits(m)[k] == digit_char(m % 10));
            }
        }
    }
}

pub proof fn lemma_digit_seq_val_push(xs: Seq<char>, y: char)
    ensures
        digit_seq_val(xs.push(y)) == digit_seq_val(xs) * 10 + digit_val(y),
    decreases xs.len(),
{
    if xs.len() == 0 {
        assert(xs.push(y).subrange(1, 1) =~= Seq::<char>::empty());
        assert(xs.push(y)[0] == y);
        assert(xs.push(y).len() == 1);
        assert(digit_seq_val(Seq::<char>::empty()) == 0);
        assert(pow10(0) == 1);
        assert(digit_seq_val(xs.push(y)) == digit_val(y) * pow10(0) + digit_seq_val(
            xs.push(y).subrange(1, 1),
        ));
        assert(digit_seq_val(xs) == 0);
    } else {
        let tail = xs.subrange(1, xs.len() as int);
        assert(xs.push(y).subrange(1, xs.push(y).len() as int) =~= tail.push(y));
        lemma_digit_seq_val_push(tail, y);
        let d0 = digit_val(xs[0]);
        let p = pow10((xs.len() - 1) as nat);
        assert(pow10(xs.len() as nat) == 10 * p);
        assert(d0 * (10 * p) == (d0 * p) * 10) by (nonlinear_arith);
        assert(xs.push(y)[0] == xs[0]);
    }
}

pub proof fn lemma_digits_val(m: nat)
    ensures
        digit_seq_val(spec_digits(m)) == m,
    decreases m,
{
    if m < 10 {
        assert(spec_digits(m)[0] == digit_char(m));
        assert(spec_digits(m).subrange(1, 1) =~= Seq::<char>::empty());
        assert(digit_val(digit_char(m)) == m);
        assert(pow10(0) == 1);
        assert(digit_seq_val(spec_digits(m)) == digit_val(digit_char(m)) * pow10(0)
            + digit_seq_val(spec_digits(m).subrange(1, 1)));
    } else {
        lemma_digits_val(m / 10);
        lemma_digit_seq_val_push(spec_digits(m / 10), digit_char(m % 10));
        assert(digit_val(digit_char(m % 10)) == m % 10);
        assert(digit_seq_val(spec_digits(m)) == (m / 10) * 10 + m % 10);
        assert((m / 10) * 10 + m % 10 == m) by (nonlinear_arith);
    }
}

/// A run of `l` digit characters at `i`, followed by the end of the input
/// or a non-digit, accumulates onto `acc` exactly as positional notation
/// says.
pub proof fn lemma_parse_digit_run(s: Seq<char>, i: int, acc: u64, l: int)
    requires
        0 <= i,
        0 <= l,
        i + l <= s.len(),
        forall|k: int| 0 <= k < l ==> is_digit(#[trigger] s[i + k]),
        i + l == s.len() || !is_digit(s[i + l]),
        acc * pow10(l as nat) + digit_seq_val(s.subrange(i, i + l)) <= u64::MAX,
    ensures
        spec_u64_body(s, i, acc) == Some(
            (
                ((acc * pow10(l as nat) + digit_seq_val(s.subrange(i, i + l))) as u64),
                i + l,
            ),
        ),
    decreases l,
{
    let sub = s.subrange(i, i + l);
    if l == 0 {
        assert(sub =~= Seq::<char>::empty());
        assert(pow10(0) == 1);
        assert(digit_seq_val(sub) == 0);
        assert(i == s.len() || !is_digit(s[i]));
        assert(spec_u64_body(s, i, acc) == Some((acc, i)));
        assert(pow10(l as nat) == 1);
        assert(acc * pow10(l as nat) == acc) by (nonlinear_arith)
            requires
                pow10(l as nat) == 1,
        {
        }
        assert((acc * pow10(l as nat) + digit_seq_val(s.subrange(i, i + l))) as u64 == acc);
        assert(spec_u64_body(s, i, acc) == Some(
            (((acc * pow10(l as nat) + digit_seq_val(s.subrange(i, i + l))) as u64), i + l),
        ));
    } else {
        assert(is_digit(s[i + 0]));
        let d = digit_val(s[i]);
        assert(sub[0] == s[i]);
        assert(sub.subrange(1, l) =~= s.subrange(i + 1, i + l));
        let p = pow10((l - 1) as nat);
        lemma_pow10_pos((l - 1) as nat);
        assert(pow10(l as nat) == 10 * p);
        assert(acc * (10 * p) >= acc * 10) by (nonlinear_arith)
            requires
                p >= 1,
                acc >= 0,
        {
        }
        assert(d * p >= d) by (nonlinear_arith)
            requires
                p >= 1,
                d >= 0,
        {
        }
        assert(acc * 10 + d <= u64::MAX);
        assert(!(acc > (u64::MAX - d) / 10)) by (nonlinear_arith)
            requires
                acc * 10 + d <= u64::MAX,
                0 <= d <= 9,
                0 <= acc,
        {
        }
        let acc2 = (acc * 10 + d) as u64;
        assert((acc * 10 + d) * p == acc * (10 * p) + d * p) by (nonlinear_arith);
        assert forall|k: int| 0 <= k < l - 1 implies is_digit(#[trigger] s[i + 1 + k]) by {
            assert(s[i + 1 + k] == s[i + (k + 1)]);
        }
        assert(digit_seq_val(sub) == d * p + digit_seq_val(s.subrange(i + 1, i + l)));
        lemma_parse_digit_run(s, i + 1, acc2, l - 1);
        assert(spec_u64_body(s, i, acc) == spec_u64_body(s, i + 1, acc2));
        assert(acc2 * pow10((l - 1) as nat) + digit_seq_val(s.subrange(i + 1, (i + 1) + (l - 1)))
            == acc * pow10(l as nat) + digit_seq_val(sub));
        let v1 = (acc2 * pow10((l - 1) as nat) + digit_seq_val(
            s.subrange(i + 1, (i + 1) + (l - 1)),
        )) as u64;
        assert(spec_u64_body(s, i + 1, acc2) == Some((v1, (i + 1) + (l - 1))));
        assert(v1 == (acc * pow10(l as nat) + digit_seq_val(sub)) as u64);
        assert((i + 1) + (l - 1) == i + l);
        assert(spec_u64_body(s, i, acc) == Some(
            (((acc * pow10(l as nat) + digit_seq_val(s.subrange(i, i + l))) as u64), i + l),
        ));
    }
}

/// The decimal digits of `m` at `i`, followed by the end of the input or a
/// non-digit, parse back to exactly `m`.
pub proof fn lemma_parse_u64_run(s: Seq<char>, i: int, m: u64)
    requires
        0 <= i,
        i + spec_digits(m as nat).len() <= s.len(),
        s.subrange(i, i + spec_digits(m as nat).len() as int) == spec_digits(m as nat),
        i + spec_digits(m as nat).len() == s.len() || !is_digit(
            s[i + spec_digits(m as nat).len()],
        ),
    ensures
        spec_parse_u64(s, i) == Some((m, i + spec_digits(m as nat).len() as int)),
{
    let l = spec_digits(m as nat).len() as int;
    lemma_digits_are_digits(m as nat);
    lemma_digits_val(m as nat);
    assert forall|k: int| 0 <= k < l implies is_digit(#[trigger] s[i + k]) by {
        assert(s[i + k] == s.subrange(i, i + l)[k]);
    }
    lemma_pow10_pos(l as nat);
    lemma_parse_digit_run(s, i, 0, l);
    assert(is_digit(s[i + 0]));
}

/// A character whose escaped form is itself.
pub open spec fn is_plain(c: char) -> bool {
    !(c == '"' || c == '\\' || c == '\n' || c == '\r' || c == '\t')
}

pub proof fn lemma_esc_plain(t: Seq<char>)
    requires
        forall|k: int| 0 <= k < t.len() ==> is_plain(#[trigger] t[k]),
    ensures
        esc(t) == t,
    decreases t.len(),
{
    if t.len() > 0 {
        lemma_esc_plain(t.drop_last());
        assert(is_plain(t[t.len() - 1]));
        assert(esc_char(t.last()) =~= seq![t.last()]);
        assert(t.drop_last() + seq![t.last()] =~= t);
    }
}

pub proof fn lemma_esc_front(t: Seq<char>)
    requires
        t.len() > 0,
    ensures
        esc(t) == esc_char(t[0]) + esc(t.subrange(1, t.len() as int)),
    decreases t.len(),
{
    let rest = t.subrange(1, t.len() as int);
    if t.len() == 1 {
        assert(t.drop_last() =~= Seq::<char>::empty());
        assert(rest =~= Seq::<char>::empty());
        assert(t[0] == t.last());
        assert(esc(t) =~= esc_char(t[0]) + esc(Seq::<char>::empty()));
    } else {
        lemma_esc_front(t.drop_last());
        assert(t.drop_last()[0] == t[0]);
        assert(t.drop_last().subrange(1, t.drop_last().len() as int) =~= rest.drop_last());
        assert(rest.last() == t.last());
        let a = esc_char(t[0]);
        let b = esc(rest.drop_last());
        let c = esc_char(rest.last());
        assert((a + b) + c =~= a + (b + c));
    }
}

/// The escaped form of `t` at `i`, followed by a closing quote, scans back
/// to exactly `acc` extended by `t`.
pub proof fn lemma_parse_esc_run(s: Seq<char>, i: int, acc: Seq<char>, t: Seq<char>)
    requires
        0 <= i,
        i + esc(t).len() + 1 <= s.len(),
        forall|k: int| 0 <= k < esc(t).len() ==> #[trigger] s[i + k] == esc(t)[k],
        s[i + esc(t).len()] == '"',
    ensures
        spec_str_body(s, i, acc) == Some((acc + t, i + esc(t).len() + 1)),
    decreases t.len(),
{
    if t.len() == 0 {
        assert(esc(t).len() == 0);
        assert(s[i] == '"');
        assert(acc + t =~= acc);
    } else {
        lemma_esc_front(t);
        let c = t[0];
        let rest = t.subrange(1, t.len() as int);
        let e = esc_char(c);
        assert(esc(t) == e + esc(rest));
        if c == '"' || c == '\\' || c == '\n' || c == '\r' || c == '\t' {
            assert(e.len() == 2);
            assert(s[i + 0] == esc(t)[0]);
            assert(esc(t)[0] == e[0]);
            assert(s[i + 1] == esc(t)[1]);
            assert(esc(t)[1] == e[1]);
            assert(e[0] == '\\');
            assert(unesc_char(e[1]) == Some(c));
            assert forall|k: int| 0 <= k < esc(rest).len() implies #[trigger] s[i + 2 + k] == esc(
                rest,
            )[k] by {
                assert(s[i + (k + 2)] == esc(t)[k + 2]);
                assert(esc(t)[k + 2] == esc(rest)[k]);
            }
            assert(s[i + 2 + esc(rest).len()] == s[i + esc(t).len()]);
            lemma_parse_esc_run(s, i + 2, acc.push(c), rest);
            assert(acc.push(c) + rest =~= acc + t);
        } else {
            assert(e.len() == 1);
            assert(s[i + 0] == esc(t)[0]);
            assert(esc(t)[0] == e[0]);
            assert(e[0] == c);
            assert(c != '"' && c != '\\');
            assert forall|k: int| 0 <= k < esc(rest).len() implies #[trigger] s[i + 1 + k] == esc(
                rest,
            )[k] by {
                assert(s[i + (k + 1)] == esc(t)[k + 1]);
                assert(esc(t)[k + 1] == esc(rest)[k]);
            }
            assert(s[i + 1 + esc(rest).len()] == s[i + esc(t).len()]);
            lemma_parse_esc_run(s, i + 1, acc.push(c), rest);
            assert(acc.push(c) + rest =~= acc + t);
        }
    }
}

/// The whitespace characters the grammar skips between tokens.
pub open spec fn is_ws(c: char) -> bool {
    c == ' ' || c == '\n' || c == '\r' || c == '\t'
}

/// The first position at or after `i` holding a non-whitespace character
/// (or the end of the input).
pub open spec fn spec_skip_ws(s: Seq<char>, i: int) -> int
    decreases s.len() - i when 0 <= i <= s.len()
{
    if i < s.len() && is_ws(s[i]) {
        spec_skip_ws(s, i + 1)
    } else {
        i
    }
}

pub proof fn lemma_skip_ws_bounds(s: Seq<char>, i: int)
    requires
        0 <= i <= s.len(),
    ensures
        i <= spec_skip_ws(s, i) <= s.len(),
    decreases s.len() - i,
{
    if i < s.len() && is_ws(s[i]) {
        lemma_skip_ws_bounds(s, i + 1);
    }
}

/// Skips whitespace starting at `i`.
pub fn skip_ws(s: &str, n: usize, i: usize) -> (j: usize)
    requires
        n == s@.len(),
        i <= n,
    ensures
        j == spec_skip_ws(s@, i as int),
        i <= j <= n,
{
    let mut j: usize = i;
    loop
        invariant
            n == s@.len(),
            i <= j <= n,
            spec_skip_ws(s@, i as int) == spec_skip_ws(s@, j as int),
        decreases n - j,
    {
        if j >= n {
            return j;
        }
        let c = s.get_char(j);
        if !(c == ' ' || c == '\n' || c == '\r' || c == '\t') {
            return j;
        }
        j = j + 1;
    }
}

/// What a backslash escape in a string literal stands for; `None` for an
/// escape the grammar does not know.
pub open spec fn unesc_char(c: char) -> Option<char> {
    if c == '"' {
        Some('"')
    } else if c == '\\' {
        Some('\\')
    } else if c == '/' {
        Some('/')
    } else if c == 'n' {
        Some('\n')
    } else if c == 'r' {
        Some('\r')
    } else if c == 't' {
        Some('\t')
    } else {
        None
    }
}

/// Scans the body of a string literal from `i` (just after the opening
/// quote), with `acc` the characters read so far; yields the text and the
/// position just after the closing quote.
pub open spec fn spec_str_body(s: Seq<char>, i: int, acc: Seq<char>) -> Option<(Seq<char>, int)>
    decreases s.len() - i when 0 <= i <= s.len()
{
    if i >= s.len() {
        None
    } else if s[i] == '"' {
        Some((acc, i + 1))
    } else if s[i] == '\\' {
        if i + 1 < s.len() {
            match unesc_char(s[i + 1]) {
                Some(c) => spec_str_body(s, i + 2, acc.push(c)),
                None => None,
            }
        } else {
            None
        }
    } else {
        spec_str_body(s, i + 1, acc.push(s[i]))
    }
}

/// A string literal at `i`: an opening quote, a body, a closing quote.
pub open spec fn spec_parse_string(s: Seq<char>, i: int) -> Option<(Seq<char>, int)> {
    if 0 <= i < s.len() && s[i] == '"' {
        spec_str_body(s, i + 1, Seq::empty())
    } else {
        None
    }
}

pub proof fn lemma_str_body_bounds(s: Seq<char>, i: int, acc: Seq<char>)
    requires
        0 <= i <= s.len(),
        spec_str_body(s, i, acc) is Some,
    ensures
        i < spec_str_body(s, i, acc).unwrap().1 <= s.len(),
    decreases s.len() - i,
{
    if i >= s.len() {
    } else if s[i] == '"' {
    } else if s[i] == '\\' {
        if i + 1 < s.len() {
            match unesc_char(s[i + 1]) {
                Some(c) => lemma_str_body_bounds(s, i + 2, acc.push(c)),
                None => {},
            }
        }
    } else {
        lemma_str_body_bounds(s, i + 1, acc.push(s[i]));
    }
}

pub proof fn lemma_parse_string_bounds(s: Seq<char>, i: int)
    requires
        0 <= i <= s.len(),
        spec_parse_string(s, i) is Some,
    ensures
        i < spec_parse_string(s, i).unwrap().1 <= s.len(),
{
    lemma_str_body_bounds(s, i + 1, Seq::empty());
}

/// Parses a string literal at `i`.
pub fn parse_string(s: &str, n: usize, i: usize) -> (r: Option<(String, usize)>)
    requires
        n == s@.len(),
        i <= n,
    ensures
        match r {
            Some(v) => spec_parse_string(s@, i as int) == Some((v.0@, v.1 as int)) && i < v.1 <= n,
            None => spec_parse_string(s@, i as int) is None,
        },
{
    if i >= n {
        return None;
    }
    let c0 = s.get_char(i);
    if c0 != '"' {
        return None;
    }
    let mut acc = String::new();
    let mut j: usize = i + 1;
    loop
        invariant
            n == s@.len(),
            i < n,
            s@[i as int] == '"',
            i + 1 <= j <= n,
            spec_str_body(s@, (i + 1) as int, Seq::empty()) == spec_str_body(s@, j as int, acc@),
        decreases n - j,
    {
        if j >= n {
            return None;
        }
        let c = s.get_char(j);
        if c == '"' {
            return Some((acc, j + 1));
        }
        if c == '\\' {
            if j + 1 >= n {
                return None;
            }
            let e = s.get_char(j + 1);
            let u: Option<char> = if e == '"' {
                Some('"')
            } else if e == '\\' {
                Some('\\')
            } else if e == '/' {
                Some('/')
            } else if e == 'n' {
                Some('\n')
            } else if e == 'r' {
                Some('\r')
            } else if e == 't' {
                Some('\t')
            } else {
                None
            };
            match u {
                Some(cc) => {
                    push_char(&mut acc, cc);
                    j = j + 2;
                },
                None => {
                    return None;
                },
            }
        } else {
            push_char(&mut acc, c);
            j = j + 1;
        }
    }
}

/// Whether `c` is a decimal digit.
pub open spec fn is_digit(c: char) -> bool {
    48 <= c as u32 <= 57
}

/// The value of a digit character.
pub open spec fn digit_val(c: char) -> nat {
    (c as u32 - 48) as nat
}

/// Scans a run of digits from `i`, accumulating the value and rejecting a
/// number that does not fit in 64 bits; yields the value and the position
/// after the last digit.
pub open spec fn spec_u64_body(s: Seq<char>, i: int, acc: u64) -> Option<(u64, int)>
    decreases s.len() - i when 0 <= i <= s.len()
{
    if i >= s.len() || !is_digit(s[i]) {
        Some((acc, i))
    } else if acc > (u64::MAX - digit_val(s[i])) / 10 {
        None
    } else {
        spec_u64_body(s, i + 1, (acc * 10 + digit_val(s[i])) as u64)
    }
}

/// An unsigned decimal number at `i`: at least one digit.
pub open spec fn spec_parse_u64(s: Seq<char>, i: int) -> Option<(u64, int)> {
    if 0 <= i < s.len() && is_digit(s[i]) {
        spec_u64_body(s, i, 0)
    } else {
        None
    }
}

pub proof fn lemma_u64_body_bounds(s: Seq<char>, i: int, acc: u64)
    requires
        0 <= i <= s.len(),
        spec_u64_body(s, i, acc) is Some,
    ensures
        i <= spec_u64_body(s, i, acc).unwrap().1 <= s.len(),
    decreases s.len() - i,
{
    if i >= s.len() || !is_digit(s[i]) {
    } else if acc > (u64::MAX - digit_val(s[i])) / 10 {
    } else {
        lemma_u64_body_bounds(s, i + 1, (acc * 10 + digit_val(s[i])) as u64);
    }
}

pub proof fn lemma_parse_u64_bounds(s: Seq<char>, i: int)
    requires
        0 <= i <= s.len(),
        spec_parse_u64(s, i) is Some,
    ensures
        i < spec_parse_u64(s, i).unwrap().1 <= s.len(),
{
    lemma_u64_body_bounds(s, i + 1, (0 * 10 + digit_val(s[i])) as u64);
}

/// Parses an unsigned decimal number at `i`.
pub fn parse_u64(s: &str, n: usize, i: usize) -> (r: Option<(u64, usize)>)
    requires
        n == s@.len(),
        i <= n,
    ensures
        match r {
            Some(v) => spec_parse_u64(s@, i as int) == Some((v.0, v.1 as int)) && i < v.1 <= n,
            None => spec_parse_u64(s@, i as int) is None,
        },
{
    if i >= n {
        return None;
    }
    let c0 = s.get_char(i);
    let u0: u32 = c0 as u32;
    if !(48 <= u0 && u0 <= 57) {
        return None;
    }
    let mut acc: u64 = 0;
    let mut j: usize = i;
    loop
        invariant
            n == s@.len(),
            i <= j <= n,
            i < n,
            is_digit(s@[i as int]),
            spec_u64_body(s@, i as int, 0) == spec_u64_body(s@, j as int, acc),
        decreases n - j,
    {
        if j >= n {
            proof {
                if j == i {
                    assert(false);
                }
            }
            return Some((acc, j));
        }
        let c = s.get_char(j);
        let u: u32 = c as u32;
        if !(48 <= u && u <= 57) {
            proof {
                if j == i {
                    assert(false);
                }
            }
            return Some((acc, j));
        }
        let d: u64 = (u - 48) as u64;
        if acc > (u64::MAX - d) / 10 {
            return None;
        }
        proof {
            assert(acc * 10 + d <= u64::MAX) by (nonlinear_arith)
                requires
                    acc <= (u64::MAX - d) / 10,
                    d <= u64::MAX,
            {
            }
        }
        acc = acc * 10 + d;
        j = j + 1;
    }
}

} // verus!
