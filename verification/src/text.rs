//! Decimal text: rendering unsigned integers as decimal digit strings and
//! parsing them back, with the lemmas that make the two directions inverse.

use vstd::prelude::*;

verus! {

/// The decimal digit character for a value in 0..=9.
pub open spec fn digit_char(d: int) -> char {
    if d == 0 {
        '0'
    } else if d == 1 {
        '1'
    } else if d == 2 {
        '2'
    } else if d == 3 {
        '3'
    } else if d == 4 {
        '4'
    } else if d == 5 {
        '5'
    } else if d == 6 {
        '6'
    } else if d == 7 {
        '7'
    } else if d == 8 {
        '8'
    } else {
        '9'
    }
}

pub open spec fn is_digit_char(c: char) -> bool {
    c == '0' || c == '1' || c == '2' || c == '3' || c == '4' || c == '5' || c == '6' || c == '7'
        || c == '8' || c == '9'
}

/// The value of a decimal digit character; 0 for anything else.
pub open spec fn digit_val(c: char) -> nat {
    if c == '1' {
        1
    } else if c == '2' {
        2
    } else if c == '3' {
        3
    } else if c == '4' {
        4
    } else if c == '5' {
        5
    } else if c == '6' {
        6
    } else if c == '7' {
        7
    } else if c == '8' {
        8
    } else if c == '9' {
        9
    } else {
        0
    }
}

pub open spec fn all_digits(s: Seq<char>) -> bool {
    forall|i: int| 0 <= i < s.len() ==> is_digit_char(#[trigger] s[i])
}

/// 10 to the power k.
pub open spec fn pow10(k: nat) -> nat
    decreases k,
{
    if k == 0 {
        1
    } else {
        10 * pow10((k - 1) as nat)
    }
}

/// The decimal digit string of n, most significant digit first, no leading
/// zeros (except for n == 0, which is "0").
pub open spec fn dec_str(n: nat) -> Seq<char>
    decreases n,
{
    if n < 10 {
        seq![digit_char(n as int)]
    } else {
        dec_str(n / 10) + seq![digit_char((n % 10) as int)]
    }
}

/// The value of a decimal digit string (the empty string has value 0).
pub open spec fn dec_val(s: Seq<char>) -> nat
    decreases s.len(),
{
    if s.len() == 0 {
        0
    } else {
        dec_val(s.drop_last()) * 10 + digit_val(s.last())
    }
}

pub proof fn lemma_pow10_pos(k: nat)
    ensures
        pow10(k) >= 1,
    decreases k,
{
    if k > 0 {
        lemma_pow10_pos((k - 1) as nat);
    }
}

pub proof fn lemma_pow10_adds(a: nat, b: nat)
    ensures
        pow10(a + b) == pow10(a) * pow10(b),
    decreases a,
{
    if a == 0 {
        assert(pow10(0 + b) == 1 * pow10(b)) by {
            assert(pow10(b) == 1 * pow10(b)) by (nonlinear_arith);
        }
    } else {
        lemma_pow10_adds((a - 1) as nat, b);
        assert((a - 1) + b == (a + b) - 1);
        assert(pow10(a + b) == 10 * pow10(((a + b) - 1) as nat));
        assert(10 * (pow10((a - 1) as nat) * pow10(b)) == (10 * pow10((a - 1) as nat)) * pow10(b))
            by (nonlinear_arith);
    }
}

/// Splitting a digit string: the value of s + t.
pub proof fn lemma_dec_val_append(s: Seq<char>, t: Seq<char>)
    ensures
        dec_val(s + t) == dec_val(s) * pow10(t.len()) + dec_val(t),
    decreases t.len(),
{
    if t.len() == 0 {
        assert(s + t =~= s);
        lemma_pow10_pos(0);
        assert(dec_val(s) * 1 == dec_val(s)) by (nonlinear_arith);
    } else {
        let t0 = t.drop_last();
        lemma_dec_val_append(s, t0);
        assert((s + t).drop_last() =~= s + t0);
        assert(dec_val(s + t) == dec_val(s + t0) * 10 + digit_val(t.last()));
        assert(pow10(t.len()) == pow10(t0.len() + 1) == pow10(t0.len()) * 10) by {
            lemma_pow10_adds(t0.len(), 1);
            assert(pow10(0) == 1);
            assert(pow10(1) == 10);
        }
        assert((dec_val(s) * pow10(t0.len()) + dec_val(t0)) * 10 == dec_val(s) * (pow10(t0.len())
            * 10) + dec_val(t0) * 10) by (nonlinear_arith);
    }
}

/// A digit string of length l has value below 10^l.
pub proof fn lemma_dec_val_bound(s: Seq<char>)
    requires
        all_digits(s),
    ensures
        dec_val(s) < pow10(s.len()),
    decreases s.len(),
{
    if s.len() == 0 {
        assert(pow10(0) == 1);
    } else {
        let s0 = s.drop_last();
        assert(all_digits(s0)) by {
            assert(forall|i: int| 0 <= i < s0.len() ==> s0[i] == s[i]);
        }
        lemma_dec_val_bound(s0);
        assert(digit_val(s.last()) <= 9);
        assert(dec_val(s0) * 10 + 9 < pow10(s0.len()) * 10) by (nonlinear_arith)
            requires
                dec_val(s0) < pow10(s0.len()),
        ;
        lemma_pow10_adds(s0.len(), 1);
        assert(pow10(0) == 1);
        assert(pow10(1) == 10);
    }
}

/// A digit-string prefix never has a larger value than the whole string.
pub proof fn lemma_dec_val_prefix_le(s: Seq<char>, i: int)
    requires
        0 <= i <= s.len(),
    ensures
        dec_val(s.subrange(0, i)) <= dec_val(s),
{
    let p = s.subrange(0, i);
    let q = s.subrange(i, s.len() as int);
    assert(s =~= p + q);
    lemma_dec_val_append(p, q);
    lemma_pow10_pos(q.len());
    assert(dec_val(p) * 1 <= dec_val(p) * pow10(q.len())) by (nonlinear_arith)
        requires
            pow10(q.len()) >= 1,
    ;
    assert(dec_val(p) * 1 == dec_val(p)) by (nonlinear_arith);
}

pub proof fn lemma_dec_str_digits(n: nat)
    ensures
        dec_str(n).len() >= 1,
        all_digits(dec_str(n)),
    decreases n,
{
    if n >= 10 {
        lemma_dec_str_digits(n / 10);
        let s = dec_str(n / 10);
        let t = seq![digit_char((n % 10) as int)];
        assert(forall|i: int|
            0 <= i < (s + t).len() ==> is_digit_char(#[trigger] (s + t)[i])) by {
            assert(forall|i: int| 0 <= i < s.len() ==> (s + t)[i] == s[i]);
            assert((s + t)[s.len() as int] == digit_char((n % 10) as int));
        }
    }
}

/// Rendering then evaluating gives the number back.
pub proof fn lemma_dec_val_of_dec_str(n: nat)
    ensures
        dec_val(dec_str(n)) == n,
    decreases n,
{
    if n < 10 {
        let s = dec_str(n);
        assert(s =~= seq![digit_char(n as int)]);
        assert(s.last() == digit_char(n as int));
        assert(s.drop_last() =~= Seq::<char>::empty());
        assert(dec_val(s.drop_last()) == 0);
        assert(dec_val(s) == 0 * 10 + digit_val(digit_char(n as int)));
        assert(digit_val(digit_char(n as int)) == n);
    } else {
        lemma_dec_val_of_dec_str(n / 10);
        let s = dec_str(n / 10) + seq![digit_char((n % 10) as int)];
        assert(s.drop_last() =~= dec_str(n / 10));
        assert(dec_val(s) == dec_val(dec_str(n / 10)) * 10 + digit_val(
            digit_char((n % 10) as int),
        ));
        assert(digit_val(digit_char((n % 10) as int)) == n % 10);
        assert((n / 10) * 10 + n % 10 == n) by (nonlinear_arith)
            requires
                n >= 10,
        ;
    }
}

/// A single-digit string slice for a digit value.
pub fn digit_to_str(d: u128) -> (r: &'static str)
    requires
        d < 10,
    ensures
        r@ =~= seq![digit_char(d as int)],
{
    proof {
        reveal_strlit("0");
        reveal_strlit("1");
        reveal_strlit("2");
        reveal_strlit("3");
        reveal_strlit("4");
        reveal_strlit("5");
        reveal_strlit("6");
        reveal_strlit("7");
        reveal_strlit("8");
        reveal_strlit("9");
    }
    if d == 0 {
        "0"
    } else if d == 1 {
        "1"
    } else if d == 2 {
        "2"
    } else if d == 3 {
        "3"
    } else if d == 4 {
        "4"
    } else if d == 5 {
        "5"
    } else if d == 6 {
        "6"
    } else if d == 7 {
        "7"
    } else if d == 8 {
        "8"
    } else {
        "9"
    }
}

/// Decimal rendering of an unsigned integer.
pub fn render_u128(n: u128) -> (s: String)
    ensures
        s@ == dec_str(n as nat),
    decreases n,
{
    if n < 10 {
        digit_to_str(n).to_owned()
    } else {
        let prefix = render_u128(n / 10);
        let s = prefix.concat(digit_to_str(n % 10));
        proof {
            assert(s@ =~= dec_str((n / 10) as nat) + seq![digit_char((n % 10) as int)]);
        }
        s
    }
}

/// The digit value of a character, if it is a decimal digit.
pub fn char_to_digit(c: char) -> (r: Option<u8>)
    ensures
        r is Some <==> is_digit_char(c),
        r is Some ==> r->0 == digit_val(c),
{
    match c {
        '0' => Some(0),
        '1' => Some(1),
        '2' => Some(2),
        '3' => Some(3),
        '4' => Some(4),
        '5' => Some(5),
        '6' => Some(6),
        '7' => Some(7),
        '8' => Some(8),
        '9' => Some(9),
        _ => None,
    }
}

/// Parses the characters of `s` in `[from, to)` as a decimal number of value
/// at most `cap`. Returns `None` when the range is empty, holds a non-digit,
/// or exceeds `cap`.
pub fn parse_u128_range(s: &str, from: usize, to: usize, cap: u128) -> (r: Option<u128>)
    requires
        from <= to <= s@.len(),
    ensures
        r is Some <==> (from < to && all_digits(s@.subrange(from as int, to as int)) && dec_val(
            s@.subrange(from as int, to as int),
        ) <= cap),
        r is Some ==> r->0 == dec_val(s@.subrange(from as int, to as int)),
{
    if from == to {
        return None;
    }
    let mut acc: u128 = 0;
    let mut i: usize = from;
    while i < to
        invariant
            from <= i <= to <= s@.len(),
            all_digits(s@.subrange(from as int, i as int)),
            acc == dec_val(s@.subrange(from as int, i as int)),
            acc <= cap,
        decreases to - i,
    {
        let c = s.get_char(i);
        proof {
            assert(s@.subrange(from as int, i + 1).drop_last() =~= s@.subrange(
                from as int,
                i as int,
            ));
            assert(s@.subrange(from as int, i + 1).last() == s@[i as int]);
        }
        match char_to_digit(c) {
            None => {
                proof {
                    let whole = s@.subrange(from as int, to as int);
                    assert(whole[i - from] == s@[i as int]);
                    assert(!all_digits(whole));
                }
                return None;
            },
            Some(d) => {
                if d as u128 > cap || acc > (cap - d as u128) / 10 {
                    proof {
                        let part = s@.subrange(from as int, i + 1);
                        let whole = s@.subrange(from as int, to as int);
                        assert(dec_val(part) == acc * 10 + d);
                        assert(acc * 10 + d > cap) by (nonlinear_arith)
                            requires
                                d as u128 > cap || acc > (cap - d as u128) / 10,
                                0 <= d < 10,
                        ;
                        assert(part =~= whole.subrange(0, i + 1 - from));
                        if all_digits(whole) {
                            lemma_dec_val_prefix_le(whole, i + 1 - from);
                        }
                    }
                    return None;
                }
                proof {
                    assert(acc * 10 + d <= cap) by (nonlinear_arith)
                        requires
                            acc <= (cap - d as u128) / 10,
                            0 <= d < 10,
                            d <= cap,
                    ;
                }
                acc = acc * 10 + d as u128;
            },
        }
        i = i + 1;
    }
    proof {
        assert(s@.subrange(from as int, to as int) =~= s@.subrange(from as int, i as int));
    }
    Some(acc)
}

/// First position of `c` in `s` at or after `from`, if any.
pub fn find_char_from(s: &str, from: usize, c: char) -> (r: Option<usize>)
    requires
        from <= s@.len(),
    ensures
        r matches Some(i) ==> from <= i < s@.len() && s@[i as int] == c && (forall|j: int|
            from <= j < i ==> s@[j] != c),
        r is None ==> forall|j: int| from <= j < s@.len() ==> s@[j] != c,
{
    let len = s.unicode_len();
    let mut i: usize = from;
    while i < len
        invariant
            from <= i <= len,
            len == s@.len(),
            forall|j: int| from <= j < i ==> s@[j] != c,
        decreases len - i,
    {
        if s.get_char(i) == c {
            return Some(i);
        }
        i = i + 1;
    }
    None
}

/// Whether `pat` occurs in `s` starting at position `i`.
pub fn str_matches_at(s: &str, i: usize, pat: &str) -> (r: bool)
    requires
        i + pat@.len() <= s@.len(),
    ensures
        r <==> s@.subrange(i as int, i + pat@.len()) == pat@,
{
    let slen = s.unicode_len();
    let plen = pat.unicode_len();
    let mut j: usize = 0;
    while j < plen
        invariant
            0 <= j <= plen,
            plen == pat@.len(),
            slen == s@.len(),
            i + plen <= slen,
            forall|t: int| 0 <= t < j ==> s@[i + t] == pat@[t],
        decreases plen - j,
    {
        if s.get_char(i + j) != pat.get_char(j) {
            proof {
                assert(s@.subrange(i as int, i + pat@.len())[j as int] == s@[i + j]);
            }
            return false;
        }
        j = j + 1;
    }
    proof {
        assert(s@.subrange(i as int, i + pat@.len()) =~= pat@);
    }
    true
}

/// Character-wise string equality.
pub fn str_eq(a: &str, b: &str) -> (r: bool)
    ensures
        r <==> a@ == b@,
{
    let la = a.unicode_len();
    let lb = b.unicode_len();
    if la != lb {
        return false;
    }
    let mut i: usize = 0;
    while i < la
        invariant
            0 <= i <= la,
            la == a@.len() == b@.len(),
            forall|j: int| 0 <= j < i ==> a@[j] == b@[j],
        decreases la - i,
    {
        if a.get_char(i) != b.get_char(i) {
            return false;
        }
        i = i + 1;
    }
    proof {
        assert(a@ =~= b@);
    }
    true
}

} // verus!
