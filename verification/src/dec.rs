//! Verified decimal conversion: rendering a PID as the line written into a
//! resctrl `tasks` file, and parsing PID lines read back from the kernel.

use vstd::prelude::*;

verus! {

pub open spec fn is_digit(c: char) -> bool {
    '0' <= c <= '9'
}

pub open spec fn digit_val(c: char) -> int {
    c as int - '0' as int
}

pub open spec fn all_digits(s: Seq<char>) -> bool {
    forall|i: int| 0 <= i < s.len() ==> is_digit(#[trigger] s[i])
}

/// The character for a single decimal digit value.
pub open spec fn digit_char(d: int) -> char {
    if d == 0 { '0' }
    else if d == 1 { '1' }
    else if d == 2 { '2' }
    else if d == 3 { '3' }
    else if d == 4 { '4' }
    else if d == 5 { '5' }
    else if d == 6 { '6' }
    else if d == 7 { '7' }
    else if d == 8 { '8' }
    else { '9' }
}

/// The decimal digit string of `n`, most significant digit first.
pub open spec fn dec_digits(n: nat) -> Seq<char>
    decreases n,
{
    if n < 10 {
        seq![digit_char(n as int)]
    } else {
        dec_digits(n / 10).push(digit_char((n % 10) as int))
    }
}

/// The value of a digit string, most significant digit first.
pub open spec fn dec_val(s: Seq<char>) -> int
    decreases s.len(),
{
    if s.len() == 0 {
        0
    } else {
        dec_val(s.drop_last()) * 10 + digit_val(s.last())
    }
}

pub proof fn lemma_dec_digits_shape(n: nat)
    ensures
        dec_digits(n).len() >= 1,
        all_digits(dec_digits(n)),
    decreases n,
{
    if n >= 10 {
        lemma_dec_digits_shape(n / 10);
        assert(0 <= n % 10 < 10) by (nonlinear_arith);
    }
}

pub proof fn lemma_dec_val_of_digits(n: nat)
    ensures
        dec_val(dec_digits(n)) == n,
    decreases n,
{
    if n < 10 {
        let s = dec_digits(n);
        assert(s =~= seq![digit_char(n as int)]);
        assert(s.drop_last() =~= Seq::<char>::empty());
        assert(dec_val(s) == dec_val(s.drop_last()) * 10 + digit_val(s.last()));
        assert(digit_val(digit_char(n as int)) == n);
    } else {
        lemma_dec_val_of_digits(n / 10);
        lemma_dec_digits_shape(n / 10);
        assert(dec_digits(n).drop_last() =~= dec_digits(n / 10));
        assert(0 <= n % 10 < 10 && (n / 10) * 10 + n % 10 == n) by (nonlinear_arith);
    }
}

/// Renders `n` in decimal.
pub fn u64_to_dec(n: u64) -> (s: String)
    ensures
        s@ == dec_digits(n as nat),
    decreases n,
{
    if n < 10 {
        digit_to_string(n)
    } else {
        let mut s = u64_to_dec(n / 10);
        let d = digit_to_string(n % 10);
        s.append(d.as_str());
        s
    }
}

fn digit_to_string(d: u64) -> (s: String)
    requires
        d < 10,
    ensures
        s@ =~= seq![digit_char(d as int)],
{
    proof {
        reveal_strlit("0");
        reveal_strlit("1");
        reveal_strlit("2");
        reveal_strlit("3");
        reveal_strlit("4");
        reveal_strlit("5");
        reveal_strlit("6");
        reveal_strlit("7");
        reveal_strlit("8");
        reveal_strlit("9");
    }
    let s = if d == 0 { "0" }
    else if d == 1 { "1" }
    else if d == 2 { "2" }
    else if d == 3 { "3" }
    else if d == 4 { "4" }
    else if d == 5 { "5" }
    else if d == 6 { "6" }
    else if d == 7 { "7" }
    else if d == 8 { "8" }
    else { "9" };
    s.to_owned()
}

pub open spec fn is_ws(c: char) -> bool {
    c == ' ' || c == '\t' || c == '\r' || c == '\n'
}

/// Index of the first non-whitespace character (the length when all blank).
pub open spec fn first_non_ws(s: Seq<char>) -> int
    decreases s.len(),
{
    if s.len() == 0 {
        0
    } else if !is_ws(s[0]) {
        0
    } else {
        1 + first_non_ws(s.drop_first())
    }
}

/// One past the index of the last non-whitespace character (0 when all blank).
pub open spec fn last_non_ws_end(s: Seq<char>) -> int
    decreases s.len(),
{
    if s.len() == 0 {
        0
    } else if !is_ws(s.last()) {
        s.len() as int
    } else {
        last_non_ws_end(s.drop_last())
    }
}

/// `s` with leading and trailing ASCII whitespace removed.
pub open spec fn trim_spec(s: Seq<char>) -> Seq<char> {
    if first_non_ws(s) >= last_non_ws_end(s) {
        Seq::empty()
    } else {
        s.subrange(first_non_ws(s), last_non_ws_end(s))
    }
}

pub proof fn lemma_first_non_ws(s: Seq<char>)
    ensures
        0 <= first_non_ws(s) <= s.len(),
        forall|i: int| 0 <= i < first_non_ws(s) ==> is_ws(s[i]),
        first_non_ws(s) < s.len() ==> !is_ws(s[first_non_ws(s)]),
    decreases s.len(),
{
    if s.len() > 0 && is_ws(s[0]) {
        lemma_first_non_ws(s.drop_first());
        assert forall|i: int| 0 <= i < first_non_ws(s) implies is_ws(s[i]) by {
            if i > 0 {
                assert(s.drop_first()[i - 1] == s[i]);
            }
        }
        if first_non_ws(s) < s.len() {
            assert(s.drop_first()[first_non_ws(s) - 1] == s[first_non_ws(s)]);
        }
    }
}

pub proof fn lemma_last_non_ws_end(s: Seq<char>)
    ensures
        0 <= last_non_ws_end(s) <= s.len(),
        forall|i: int| last_non_ws_end(s) <= i < s.len() ==> is_ws(s[i]),
        last_non_ws_end(s) > 0 ==> !is_ws(s[last_non_ws_end(s) - 1]),
    decreases s.len(),
{
    if s.len() > 0 && is_ws(s.last()) {
        lemma_last_non_ws_end(s.drop_last());
        assert forall|i: int| last_non_ws_end(s) <= i < s.len() implies is_ws(s[i]) by {
            if i < s.len() - 1 {
                assert(s.drop_last()[i] == s[i]);
            }
        }
        if last_non_ws_end(s) > 0 {
            assert(s.drop_last()[last_non_ws_end(s) - 1] == s[last_non_ws_end(s) - 1]);
        }
    }
}

/// Returns the slice of `s` with surrounding ASCII whitespace removed.
pub fn trim(s: &str) -> (r: &str)
    ensures
        r@ == trim_spec(s@),
{
    let n: usize = s.unicode_len();
    proof {
        lemma_first_non_ws(s@);
        lemma_last_non_ws_end(s@);
    }
    let mut a: usize = 0;
    while a < n && is_ws_char(s.get_char(a))
        invariant
            a <= n,
            n == s@.len(),
            forall|i: int| 0 <= i < a ==> is_ws(s@[i]),
            a <= first_non_ws(s@),
        decreases n - a,
    {
        a += 1;
        proof {
            lemma_first_non_ws(s@);
            if a > first_non_ws(s@) {
                assert(is_ws(s@[first_non_ws(s@)]));
            }
        }
    }
    proof {
        lemma_first_non_ws(s@);
    }
    proof {
        if a < n {
            assert(a == first_non_ws(s@));
        } else {
            assert(a == first_non_ws(s@));
        }
    }
    let mut b: usize = n;
    while b > a && is_ws_char(s.get_char(b - 1))
        invariant
            a <= b <= n,
            n == s@.len(),
            a == first_non_ws(s@),
            forall|i: int| b <= i < n ==> is_ws(s@[i]),
            b >= last_non_ws_end(s@),
        decreases b,
    {
        b -= 1;
        proof {
            lemma_last_non_ws_end(s@);
            if b < last_non_ws_end(s@) {
                assert(!is_ws(s@[last_non_ws_end(s@) - 1]));
            }
        }
    }
    proof {
        lemma_first_non_ws(s@);
        lemma_last_non_ws_end(s@);
        if b > a {
            assert(!is_ws(s@[b - 1]));
            assert(b == last_non_ws_end(s@));
            assert(s@.subrange(a as int, b as int) == trim_spec(s@));
        } else {
            // everything between first and last markers is exhausted
            assert(first_non_ws(s@) >= last_non_ws_end(s@));
            assert(s@.subrange(a as int, b as int) =~= trim_spec(s@));
        }
    }
    s.substring_char(a, b)
}

fn is_ws_char(c: char) -> (r: bool)
    ensures
        r == is_ws(c),
{
    c == ' ' || c == '\t' || c == '\r' || c == '\n'
}

/// What parsing a PID line yields: the behaviour of decimal `i32` parsing
/// after trimming surrounding whitespace, `None` on anything malformed or
/// out of range.
pub open spec fn parse_i32_spec(s: Seq<char>) -> Option<i32> {
    let t = trim_spec(s);
    let neg = t.len() > 0 && t[0] == '-';
    let signed = t.len() > 0 && (t[0] == '-' || t[0] == '+');
    let d = if signed { t.drop_first() } else { t };
    if d.len() == 0 || !all_digits(d) {
        None
    } else {
        let v = dec_val(d);
        if !neg && v <= i32::MAX as int {
            Some(v as i32)
        } else if neg && v <= 0x8000_0000 {
            Some((-v) as i32)
        } else {
            None
        }
    }
}

/// Parses a decimal `i32` from `s`, ignoring surrounding whitespace.
pub fn parse_i32(s: &str) -> (r: Option<i32>)
    ensures
        r == parse_i32_spec(s@),
{
    let t = trim(s);
    let n: usize = t.unicode_len();
    if n == 0 {
        return None;
    }
    let c0 = t.get_char(0);
    let neg = c0 == '-';
    let signed = neg || c0 == '+';
    let start: usize = if signed { 1 } else { 0 };
    let d_ghost = Ghost(if signed { t@.drop_first() } else { t@ });
    proof {
        assert(d_ghost@ =~= t@.subrange(start as int, n as int));
    }
    if n == start {
        return None;
    }
    let limit: u64 = if neg { 0x8000_0000 } else { 0x7fff_ffff };
    let mut acc: u64 = 0;
    let mut over = false;
    let mut i: usize = start;
    while i < n
        invariant
            start <= i <= n,
            n == t@.len(),
            t@ == trim_spec(s@),
            neg == (t@.len() > 0 && t@[0] == '-'),
            signed == (t@.len() > 0 && (t@[0] == '-' || t@[0] == '+')),
            start == if signed { 1int } else { 0int },
            d_ghost@ == (if signed { t@.drop_first() } else { t@ }),
            d_ghost@ == t@.subrange(start as int, n as int),
            limit == if neg { 0x8000_0000u64 } else { 0x7fff_ffffu64 },
            all_digits(d_ghost@.subrange(0, i - start)),
            !over ==> acc == dec_val(d_ghost@.subrange(0, i - start)) && acc <= limit,
            over ==> dec_val(d_ghost@.subrange(0, i - start)) > limit,
        decreases n - i,
    {
        let c = t.get_char(i);
        if c < '0' || c > '9' {
            proof {
                assert(d_ghost@[i - start] == t@[i as int]);
                assert(!is_digit(d_ghost@[i - start]));
            }
            return None;
        }
        let dv: u64 = digit_value(c);
        proof {
            assert(d_ghost@.subrange(0, i + 1 - start).drop_last() =~= d_ghost@.subrange(
                0,
                i - start,
            ));
            assert(d_ghost@.subrange(0, i + 1 - start).last() == t@[i as int]);
        }
        if !over {
            // acc <= 0x8000_0000 so acc * 10 + 9 fits comfortably in u64
            let next = acc * 10 + dv;
            if next > limit {
                over = true;
                acc = 0;
            } else {
                acc = next;
            }
        } else {
            proof {
                let p = d_ghost@.subrange(0, i + 1 - start);
                assert(dec_val(p.drop_last()) > limit ==> dec_val(p.drop_last()) * 10 + digit_val(
                    p.last(),
                ) > limit) by (nonlinear_arith)
                    requires
                        is_digit(p.last()),
                ;
            }
        }
        i += 1;
    }
    proof {
        assert(d_ghost@.subrange(0, n - start) =~= d_ghost@);
    }
    if over {
        return None;
    }
    if neg {
        if acc == 0x8000_0000 {
            Some(i32::MIN)
        } else {
            Some(-(acc as i32))
        }
    } else {
        Some(acc as i32)
    }
}

fn digit_value(c: char) -> (d: u64)
    requires
        is_digit(c),
    ensures
        d == digit_val(c),
        d < 10,
{
    (c as u32 as u64) - ('0' as u32 as u64)
}

/// Round trip: rendering a non-negative `i32` and parsing it back yields the
/// same value.
pub proof fn lemma_dec_roundtrip(n: nat)
    requires
        n <= i32::MAX as nat,
    ensures
        parse_i32_spec(dec_digits(n)) == Some(n as i32),
{
    let s = dec_digits(n);
    lemma_dec_digits_shape(n);
    lemma_dec_val_of_digits(n);
    assert forall|i: int| 0 <= i < s.len() implies !is_ws(s[i]) by {
        assert(is_digit(s[i]));
    }
    assert(first_non_ws(s) == 0) by {
        if s.len() > 0 && is_ws(s[0]) {
            assert(is_digit(s[0]));
        }
    }
    lemma_last_non_ws_end(s);
    assert(last_non_ws_end(s) == s.len() as int) by {
        if last_non_ws_end(s) < s.len() {
            assert(is_ws(s[s.len() - 1]) ==> false);
        }
    }
    assert(trim_spec(s) =~= s);
    assert(is_digit(s[0]));
    assert(s[0] != '-' && s[0] != '+');
}

} // verus!
