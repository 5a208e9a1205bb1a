//! Decimal text for micro-unit quantities: a value is rendered as its whole
//! part, then — when the fractional part is not zero — a point and the
//! fraction with trailing zeros dropped. Parsing accepts digit strings with
//! at most one point and truncates fractional digits beyond the sixth.

use vstd::prelude::*;

use crate::text::{
    all_digits, char_to_digit, dec_str, dec_val, digit_char, digit_to_str, digit_val,
    find_char_from, is_digit_char, lemma_dec_str_digits, lemma_dec_val_append,
    lemma_dec_val_bound, lemma_dec_val_of_dec_str, lemma_pow10_adds, lemma_pow10_pos,
    parse_u128_range, pow10, render_u128,
};

verus! {

/// The fractional digits of f (f < scale), most significant first, with
/// trailing zeros dropped; scale runs through the powers of ten.
pub open spec fn frac_chars(f: nat, scale: nat) -> Seq<char>
    decreases scale,
{
    if f == 0 || scale <= 1 {
        Seq::empty()
    } else {
        seq![digit_char((f / (scale / 10)) as int)] + frac_chars(f % (scale / 10), scale / 10)
    }
}

/// The canonical decimal text of a micro-unit value.
pub open spec fn fixed_chars(m: nat) -> Seq<char> {
    if m % 1000000 == 0 {
        dec_str(m / 1000000)
    } else {
        dec_str(m / 1000000) + seq!['.'] + frac_chars(m % 1000000, 1000000)
    }
}

/// A non-empty, all-digit string.
pub open spec fn plain_int(s: Seq<char>) -> bool {
    s.len() >= 1 && all_digits(s)
}

/// Position i splits s into digits, a point, and more digits.
pub open spec fn dot_at(s: Seq<char>, i: int) -> bool {
    &&& 1 <= i < s.len() - 1
    &&& s[i] == '.'
    &&& plain_int(s.subrange(0, i))
    &&& plain_int(s.subrange(i + 1, s.len() as int))
}

/// A decimal number: digits, optionally followed by a point and more digits.
pub open spec fn is_decimal_chars(s: Seq<char>) -> bool {
    plain_int(s) || exists|i: int| dot_at(s, i)
}

/// The micro-unit value of a fraction-digit string (truncated beyond the
/// sixth digit).
pub open spec fn frac_micro_val(f: Seq<char>) -> nat {
    if f.len() <= 6 {
        dec_val(f) * pow10((6 - f.len()) as nat)
    } else {
        dec_val(f.subrange(0, 6))
    }
}

/// The micro-unit value of a decimal string.
pub open spec fn decimal_micro(s: Seq<char>) -> nat {
    if plain_int(s) {
        dec_val(s) * 1000000
    } else {
        let i = choose|i: int| dot_at(s, i);
        dec_val(s.subrange(0, i)) * 1000000 + frac_micro_val(s.subrange(i + 1, s.len() as int))
    }
}

/// A decimal string has at most one point position.
pub proof fn lemma_dot_unique(s: Seq<char>, i: int, j: int)
    requires
        dot_at(s, i),
        dot_at(s, j),
    ensures
        i == j,
{
    if i < j {
        assert(s.subrange(i + 1, s.len() as int)[j - i - 1] == s[j]);
        assert(is_digit_char(s[j]));
    } else if j < i {
        assert(s.subrange(j + 1, s.len() as int)[i - j - 1] == s[i]);
        assert(is_digit_char(s[i]));
    }
}

proof fn lemma_pow10_six()
    ensures
        pow10(0) == 1,
        pow10(1) == 10,
        pow10(2) == 100,
        pow10(3) == 1000,
        pow10(4) == 10000,
        pow10(5) == 100000,
        pow10(6) == 1000000,
{
}

/// The fraction digits of f carry exactly f: evaluating them and rescaling
/// by the dropped positions gives f back.
pub proof fn lemma_frac_chars(f: nat, k: nat)
    requires
        f < pow10(k),
    ensures
        all_digits(frac_chars(f, pow10(k))),
        frac_chars(f, pow10(k)).len() <= k,
        dec_val(frac_chars(f, pow10(k))) * pow10((k - frac_chars(f, pow10(k)).len()) as nat) == f,
        f > 0 ==> frac_chars(f, pow10(k)).len() >= 1,
    decreases k,
{
    let scale = pow10(k);
    if f == 0 {
        assert(frac_chars(0, scale) =~= Seq::<char>::empty());
        assert(dec_val(Seq::<char>::empty()) == 0);
        assert(0 * pow10((k - 0) as nat) == 0) by (nonlinear_arith);
    } else {
        lemma_pow10_pos(k);
        if k == 0 {
            assert(pow10(0) == 1);
        } else {
            let sc = pow10((k - 1) as nat);
            lemma_pow10_pos((k - 1) as nat);
            assert(scale == 10 * sc);
            assert(scale / 10 == sc) by (nonlinear_arith)
                requires
                    scale == 10 * sc,
            ;
            assert(scale > 1);
            let d = f / sc;
            let f2 = f % sc;
            assert(d < 10) by (nonlinear_arith)
                requires
                    f < 10 * sc,
                    sc >= 1,
                    d == f / sc,
            ;
            assert(f == d * sc + f2 && f2 < sc && d >= 0 && f2 >= 0) by (nonlinear_arith)
                requires
                    sc >= 1,
                    d == f / sc,
                    f2 == f % sc,
            ;
            lemma_frac_chars(f2, (k - 1) as nat);
            let rest = frac_chars(f2, sc);
            let whole = frac_chars(f, scale);
            assert(whole =~= seq![digit_char(d as int)] + rest);
            let l = rest.len();
            assert(all_digits(whole)) by {
                assert(forall|x: int|
                    0 <= x < whole.len() ==> is_digit_char(#[trigger] whole[x])) by {
                    assert(whole[0] == digit_char(d as int));
                    assert(is_digit_char(digit_char(d as int)));
                    assert(forall|x: int| 1 <= x < whole.len() ==> whole[x] == rest[x - 1]);
                }
            }
            lemma_dec_val_append(seq![digit_char(d as int)], rest);
            assert(dec_val(seq![digit_char(d as int)]) == digit_val(digit_char(d as int))) by {
                let one = seq![digit_char(d as int)];
                assert(one.drop_last() =~= Seq::<char>::empty());
                assert(dec_val(one.drop_last()) == 0);
            }
            assert(digit_val(digit_char(d as int)) == d);
            assert(dec_val(whole) == d * pow10(l) + dec_val(rest));
            let e = (k - 1 - l) as nat;
            lemma_pow10_adds(l, e);
            assert((d * pow10(l) + dec_val(rest)) * pow10(e) == d * (pow10(l) * pow10(e)) + dec_val(
                rest,
            ) * pow10(e)) by (nonlinear_arith);
            assert(dec_val(rest) * pow10(e) == f2);
            assert(pow10(l) * pow10(e) == pow10((k - 1) as nat));
            assert(dec_val(whole) * pow10((k - whole.len()) as nat) == d * sc + f2);
        }
    }
}

/// Rendering a micro-unit value and reading the text back gives the value:
/// the canonical decimal text of m is a decimal string meaning m.
pub proof fn lemma_fixed_chars_round_trip(m: nat)
    ensures
        is_decimal_chars(fixed_chars(m)),
        decimal_micro(fixed_chars(m)) == m,
{
    lemma_pow10_six();
    let ip = m / 1000000;
    let fp = m % 1000000;
    lemma_dec_str_digits(ip);
    lemma_dec_val_of_dec_str(ip);
    assert(m == 1000000 * ip + fp) by (nonlinear_arith)
        requires
            ip == m / 1000000,
            fp == m % 1000000,
    ;
    if fp == 0 {
        let s = fixed_chars(m);
        assert(s == dec_str(ip));
        assert(plain_int(s));
        assert(decimal_micro(s) == dec_val(s) * 1000000);
        assert(ip * 1000000 == 1000000 * ip) by (nonlinear_arith);
    } else {
        assert(fp < pow10(6));
        lemma_frac_chars(fp, 6);
        let head = dec_str(ip);
        let f = frac_chars(fp, 1000000);
        let s = fixed_chars(m);
        assert(s == head + seq!['.'] + f);
        let i = head.len() as int;
        assert(s.subrange(0, i) =~= head);
        assert(s[i] == '.');
        assert(s.subrange(i + 1, s.len() as int) =~= f);
        assert(dot_at(s, i));
        assert(!plain_int(s)) by {
            assert(!is_digit_char('.'));
        }
        assert(is_decimal_chars(s));
        let w = choose|w: int| dot_at(s, w);
        lemma_dot_unique(s, w, i);
        assert(frac_micro_val(f) == dec_val(f) * pow10((6 - f.len()) as nat));
        assert(decimal_micro(s) == dec_val(head) * 1000000 + fp);
        assert(ip * 1000000 == 1000000 * ip) by (nonlinear_arith);
    }
}

/// Renders a micro-unit value as decimal text.
pub fn render_micro(m: u128) -> (s: String)
    ensures
        s@ == fixed_chars(m as nat),
{
    let ip = m / 1_000_000;
    let fp = m % 1_000_000;
    let mut s = render_u128(ip);
    if fp > 0 {
        s.append(".");
        proof {
            reveal_strlit(".");
            assert("."@ =~= seq!['.']);
            assert(s@ + frac_chars(fp as nat, 1000000) =~= dec_str(ip as nat) + seq!['.']
                + frac_chars(fp as nat, 1000000));
        }
        let mut f = fp;
        let mut scale: u128 = 1_000_000;
        while f > 0 && scale > 1
            invariant
                f < scale,
                scale == 1 || scale == 10 || scale == 100 || scale == 1000 || scale == 10000
                    || scale == 100000 || scale == 1000000,
                s@ + frac_chars(f as nat, scale as nat) == dec_str(ip as nat) + seq!['.']
                    + frac_chars(fp as nat, 1000000),
            decreases scale,
        {
            let sc = scale / 10;
            let d = f / sc;
            let ghost prev = s@;
            proof {
                assert(d < 10) by (nonlinear_arith)
                    requires
                        f < scale,
                        scale == 10 * sc,
                        sc >= 1,
                        d == f / sc,
                ;
            }
            s.append(digit_to_str(d));
            proof {
                assert(frac_chars(f as nat, scale as nat) =~= seq![digit_char(d as int)]
                    + frac_chars((f % sc) as nat, sc as nat));
                assert(s@ + frac_chars((f % sc) as nat, sc as nat) =~= prev + frac_chars(
                    f as nat,
                    scale as nat,
                ));
            }
            f = f % sc;
            scale = sc;
        }
        proof {
            assert(frac_chars(f as nat, scale as nat) =~= Seq::<char>::empty());
            assert(s@ =~= s@ + Seq::<char>::empty());
            assert(fixed_chars(m as nat) == dec_str(ip as nat) + seq!['.'] + frac_chars(
                fp as nat,
                1000000,
            ));
        }
    }
    s
}

/// Exact powers of ten up to 10^6.
fn pow10_exec(k: usize) -> (r: u128)
    requires
        k <= 6,
    ensures
        r == pow10(k as nat),
{
    proof {
        lemma_pow10_six();
    }
    if k == 0 {
        1
    } else if k == 1 {
        10
    } else if k == 2 {
        100
    } else if k == 3 {
        1_000
    } else if k == 4 {
        10_000
    } else if k == 5 {
        100_000
    } else {
        1_000_000
    }
}

/// Reads decimal text as a micro-unit value of at most `cap`. Absent exactly
/// when the text is not a decimal number or its value exceeds `cap`.
pub fn parse_micro(s: &str, cap: u128) -> (r: Option<u128>)
    requires
        cap <= u128::MAX - 1_000_000,
    ensures
        r is Some <==> is_decimal_chars(s@) && decimal_micro(s@) <= cap,
        r matches Some(v) ==> v == decimal_micro(s@),
{
    let len = s.unicode_len();
    let ic = cap / 1_000_000;
    match find_char_from(s, 0, '.') {
        None => {
            match parse_u128_range(s, 0, len, ic) {
                None => {
                    proof {
                        assert(s@.subrange(0, len as int) =~= s@);
                        if is_decimal_chars(s@) {
                            assert(forall|i: int| !dot_at(s@, i)) by {
                                assert(forall|j: int| 0 <= j < s@.len() ==> s@[j] != '.');
                            }
                            assert(plain_int(s@));
                            assert(dec_val(s@) > ic);
                            assert(dec_val(s@) * 1000000 > cap) by (nonlinear_arith)
                                requires
                                    dec_val(s@) > cap / 1_000_000,
                            ;
                        }
                    }
                    None
                },
                Some(v) => {
                    proof {
                        assert(s@.subrange(0, len as int) =~= s@);
                        assert(plain_int(s@));
                        assert(decimal_micro(s@) == dec_val(s@) * 1000000);
                        assert(v * 1_000_000 <= cap) by (nonlinear_arith)
                            requires
                                v <= cap / 1_000_000,
                        ;
                    }
                    Some(v * 1_000_000)
                },
            }
        },
        Some(di) => {
            proof {
                assert(!plain_int(s@)) by {
                    assert(!is_digit_char('.'));
                }
                assert(forall|i: int| dot_at(s@, i) ==> i == di) by {
                    assert forall|i: int| dot_at(s@, i) implies i == di by {
                        if i < di {
                            assert(s@[i] == '.');
                        } else if di < i {
                            assert(s@.subrange(0, i)[di as int] == s@[di as int]);
                            assert(is_digit_char(s@[di as int]));
                        }
                    }
                }
            }
            if di == 0 || di + 1 >= len {
                proof {
                    assert(forall|i: int| !dot_at(s@, i));
                }
                return None;
            }
            let intpart = match parse_u128_range(s, 0, di, ic) {
                None => {
                    proof {
                        if is_decimal_chars(s@) {
                            let i = choose|i: int| dot_at(s@, i);
                            assert(i == di);
                            assert(plain_int(s@.subrange(0, di as int)));
                            assert(dec_val(s@.subrange(0, di as int)) > ic);
                            assert(decimal_micro(s@) == dec_val(s@.subrange(0, di as int))
                                * 1000000 + frac_micro_val(s@.subrange(di + 1, s@.len() as int)));
                            assert(dec_val(s@.subrange(0, di as int)) * 1000000 > cap)
                                by (nonlinear_arith)
                                requires
                                    dec_val(s@.subrange(0, di as int)) > cap / 1_000_000,
                            ;
                        }
                    }
                    return None;
                },
                Some(v) => v,
            };
            let fl = len - di - 1;
            let ghost frac = s@.subrange(di + 1, len as int);
            let (fv, mult): (u128, u128) = if fl <= 6 {
                match parse_u128_range(s, di + 1, len, 999_999) {
                    None => {
                        proof {
                            lemma_pow10_six();
                            if all_digits(frac) {
                                lemma_dec_val_bound(frac);
                                lemma_pow10_adds(frac.len(), (6 - frac.len()) as nat);
                                lemma_pow10_pos((6 - frac.len()) as nat);
                                assert(pow10(frac.len()) <= pow10(6)) by (nonlinear_arith)
                                    requires
                                        pow10(6) == pow10(frac.len()) * pow10(
                                            (6 - frac.len()) as nat,
                                        ),
                                        pow10((6 - frac.len()) as nat) >= 1,
                                        pow10(frac.len()) >= 0,
                                ;
                            }
                            assert(forall|i: int| !dot_at(s@, i));
                        }
                        return None;
                    },
                    Some(x) => (x, pow10_exec(6 - fl)),
                }
            } else {
                let x = match parse_u128_range(s, di + 1, di + 7, 999_999) {
                    None => {
                        proof {
                            lemma_pow10_six();
                            let head6 = s@.subrange(di + 1, di + 7);
                            if all_digits(head6) {
                                lemma_dec_val_bound(head6);
                            }
                            if all_digits(frac) {
                                assert(all_digits(head6)) by {
                                    assert(forall|j: int|
                                        0 <= j < 6 ==> head6[j] == frac[j]);
                                }
                            }
                            assert(forall|i: int| !dot_at(s@, i));
                        }
                        return None;
                    },
                    Some(x) => x,
                };
                let mut j = di + 7;
                #[verifier::loop_isolation(false)]
                while j < len
                    invariant
                        di + 7 <= j <= len,
                        len == s@.len(),
                        forall|t: int| di + 7 <= t < j ==> is_digit_char(#[trigger] s@[t]),
                    decreases len - j,
                {
                    if char_to_digit(s.get_char(j)).is_none() {
                        proof {
                            assert(frac[j - di - 1] == s@[j as int]);
                            assert(!all_digits(frac));
                            assert(forall|i: int| !dot_at(s@, i));
                        }
                        return None;
                    }
                    j = j + 1;
                }
                (x, 1)
            };
            proof {
                lemma_pow10_six();
                assert(all_digits(frac) && frac.len() >= 1) by {
                    if fl <= 6 {
                    } else {
                        let head6 = s@.subrange(di + 1, di + 7);
                        assert(forall|t: int|
                            0 <= t < frac.len() ==> is_digit_char(#[trigger] frac[t])) by {
                            assert(forall|t: int| 0 <= t < 6 ==> frac[t] == head6[t]);
                            assert(forall|t: int|
                                6 <= t < frac.len() ==> frac[t] == s@[t + di + 1]);
                        }
                    }
                }
                assert(plain_int(s@.subrange(0, di as int)));
                assert(dot_at(s@, di as int));
                assert(is_decimal_chars(s@));
                let i = choose|i: int| dot_at(s@, i);
                assert(i == di);
                assert(frac_micro_val(frac) == fv * mult) by {
                    if fl <= 6 {
                        assert(frac.len() == fl);
                    } else {
                        assert(frac.subrange(0, 6) =~= s@.subrange(di + 1, di + 7));
                        assert(fv * 1 == fv) by (nonlinear_arith);
                    }
                }
                assert(fv * mult < 1000000) by {
                    if fl <= 6 {
                        lemma_dec_val_bound(frac);
                        lemma_pow10_adds(frac.len(), (6 - frac.len()) as nat);
                        assert(dec_val(frac) * pow10((6 - frac.len()) as nat) < pow10(frac.len())
                            * pow10((6 - frac.len()) as nat)) by (nonlinear_arith)
                            requires
                                dec_val(frac) < pow10(frac.len()),
                                pow10((6 - frac.len()) as nat) >= 1,
                        ;
                    } else {
                        assert(fv * 1 == fv) by (nonlinear_arith);
                    }
                }
                assert(intpart * 1_000_000 <= cap) by (nonlinear_arith)
                    requires
                        intpart <= cap / 1_000_000,
                ;
                assert(decimal_micro(s@) == dec_val(s@.subrange(0, di as int)) * 1000000
                    + frac_micro_val(frac));
            }
            let micro = intpart * 1_000_000 + fv * mult;
            if micro > cap {
                None
            } else {
                Some(micro)
            }
        },
    }
}

} // verus!
