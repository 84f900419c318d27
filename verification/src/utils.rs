//! Small helpers around the configuration lifecycle: the decimal-text
//! reading of whole-unit amounts, and a file-presence check.

use vstd::prelude::*;
use vstd::arithmetic::div_mod::lemma_fundamental_div_mod;
use vstd::arithmetic::mul::{lemma_mul_inequality, lemma_mul_strict_inequality_converse};
use vstd::string::{StrSliceExecFns, StringExecFns};
use crate::digits::{
    all_digits, dec, digit_char, digit_of_char, digit_val, digits_val, is_digit_char,
    lemma_dec_basic, lemma_digits_val_take_le, push_digit, u128_to_dec_string,
};
use crate::errors::ConfigError;

verus! {

/// The position of the first dot at or after `i`, or the text's length
/// when there is none.
pub open spec fn dot_from(s: Seq<char>, i: int) -> int
    decreases s.len() - i,
{
    if i < 0 || i >= s.len() {
        s.len() as int
    } else if s[i] == '.' {
        i
    } else {
        dot_from(s, i + 1)
    }
}

/// Eighteen fractional digit positions: the fractional digits given,
/// truncated past the eighteenth or right-padded with zeros.
pub open spec fn pad18(f: Seq<char>) -> Seq<char> {
    if f.len() >= 18 {
        f.take(18)
    } else {
        f + Seq::new((18 - f.len()) as nat, |i: int| '0')
    }
}

/// Is `s` a decimal amount: one or more integer digits, optionally
/// followed by a dot and then only digits?
pub open spec fn is_eth_text(s: Seq<char>) -> bool {
    let d = dot_from(s, 0);
    &&& d > 0
    &&& all_digits(s.take(d))
    &&& (d == s.len() || all_digits(s.subrange(d + 1, s.len() as int)))
}

/// All of the text's digit positions in minor-unit order: the integer
/// digits followed by the eighteen padded fractional positions.
pub open spec fn comb_of(s: Seq<char>) -> Seq<char> {
    let d = dot_from(s, 0);
    let f = if d == s.len() {
        Seq::<char>::empty()
    } else {
        s.subrange(d + 1, s.len() as int)
    };
    s.take(d) + pad18(f)
}

/// The amount in minor units, 10^-18 of a whole unit each: the digit
/// positions of `comb_of` read as one number. Digits past the eighteenth
/// fractional place are truncated.
pub open spec fn eth_text_val(s: Seq<char>) -> nat {
    digits_val(comb_of(s))
}

/// Scanning over non-dots does not move the first dot.
proof fn lemma_dot_from_skip(s: Seq<char>, j: int, i: int)
    requires
        0 <= j <= i <= s.len(),
        forall|m: int| j <= m < i ==> s[m] != '.',
    ensures
        dot_from(s, j) == dot_from(s, i),
    decreases i - j,
{
    if j < i {
        assert(s[j] != '.');
        lemma_dot_from_skip(s, j + 1, i);
    }
}

/// The first dot is never before where the search began, nor past the end.
proof fn lemma_dot_from_bounds(s: Seq<char>, i: int)
    requires
        0 <= i <= s.len(),
    ensures
        i <= dot_from(s, i) <= s.len(),
    decreases s.len() - i,
{
    if i < s.len() && s[i] != '.' {
        lemma_dot_from_bounds(s, i + 1);
    }
}

/// A text whose digits already exceed the greatest minor-unit amount
/// stands for no representable amount.
proof fn lemma_val_over(comb: Seq<char>, k: int)
    requires
        0 <= k <= comb.len(),
        digits_val(comb.take(k)) > u128::MAX,
    ensures
        digits_val(comb) > u128::MAX,
{
    lemma_digits_val_take_le(comb, k);
}

/// Reads a whole-unit decimal amount into minor units: `"2.5"` becomes
/// 25 followed by seventeen zeros. The text must be one or more integer
/// digits, optionally followed by a dot and only digits; digits past the
/// eighteenth fractional place are truncated. Returns nothing exactly
/// when the text is not of that shape or the amount does not fit.
#[verifier::loop_isolation(false)]
#[verifier::rlimit(100)]
pub fn parse_eth_amount(s: &str) -> (r: Option<u128>)
    ensures
        r matches Some(v) ==> v as nat == eth_text_val(s@),
        (r is Some) <==> (is_eth_text(s@) && eth_text_val(s@) <= u128::MAX),
{
    let len = s.unicode_len();

    let mut i: usize = 0;
    let mut acc: u128 = 0;
    let mut stopped = false;
    while !stopped && i < len
        invariant
            0 <= i <= len,
            forall|m: int| 0 <= m < i ==> is_digit_char(#[trigger] s@[m]),
            acc as nat == digits_val(s@.take(i as int)),
            stopped ==> (i < len && !is_digit_char(s@[i as int])),
        decreases len - i + (if stopped { 0int } else { 1int }),
    {
        match digit_of_char(s.get_char(i)) {
            None => {
                stopped = true;
            },
            Some(dv) => {
                proof {
                    assert forall|m: int| 0 <= m < i + 1 implies s@[m] != '.' by {
                        assert(is_digit_char(s@[m]));
                    }
                    lemma_dot_from_bounds(s@, i + 1);
                    lemma_dot_from_skip(s@, 0, i + 1);
                    assert(dot_from(s@, 0) >= i + 1);
                    assert(s@.take(i + 1).drop_last() =~= s@.take(i as int));
                    assert(s@.take(i + 1).last() == s@[i as int]);
                    assert(digits_val(s@.take(i + 1)) == acc * 10 + digit_val(s@[i as int]));
                    assert(pad18(
                        if dot_from(s@, 0) == s@.len() {
                            Seq::<char>::empty()
                        } else {
                            s@.subrange(dot_from(s@, 0) + 1, s@.len() as int)
                        },
                    ).len() == 18);
                    assert(comb_of(s@).take(i + 1) =~= s@.take(i + 1));
                }
                if acc > (u128::MAX - dv as u128) / 10 {
                    proof {
                        vstd::arithmetic::div_mod::lemma_fundamental_div_mod(
                            (u128::MAX - dv) as int,
                            10,
                        );
                        assert(digits_val(comb_of(s@).take(i + 1)) > u128::MAX);
                        lemma_val_over(comb_of(s@), i + 1);
                    }
                    return None;
                }
                acc = acc * 10 + dv as u128;
                i = i + 1;
            },
        }
    }

    if i == 0 {
        proof {
            if s@.len() == 0 {
                assert(dot_from(s@, 0) == 0);
            } else if s@[0] == '.' {
                assert(dot_from(s@, 0) == 0);
            } else {
                lemma_dot_from_bounds(s@, 1);
                assert(dot_from(s@, 0) >= 1);
                assert(s@.take(dot_from(s@, 0))[0] == s@[0]);
                assert(!is_digit_char(s@[0]));
            }
            assert(!is_eth_text(s@));
        }
        return None;
    }

    if i == len {
        // no fractional part: eighteen zero positions follow the digits
        proof {
            assert forall|m: int| 0 <= m < len implies s@[m] != '.' by {
                assert(is_digit_char(s@[m]));
            }
            lemma_dot_from_skip(s@, 0, len as int);
            assert(dot_from(s@, 0) == len);
            assert(s@.take(len as int) =~= s@);
            assert(is_eth_text(s@));
            assert(comb_of(s@) =~= s@ + Seq::new(18, |m: int| '0'));
            assert(comb_of(s@).len() == len + 18);
            assert(comb_of(s@).take(len as int) =~= s@.take(len as int));
        }
        let mut j: usize = 0;
        while j < 18
            invariant
                0 <= j <= 18,
                acc as nat == digits_val(comb_of(s@).take(len + j)),
            decreases 18 - j,
        {
            proof {
                assert(comb_of(s@).take(len + j + 1).drop_last() =~= comb_of(s@).take(len + j));
                assert(comb_of(s@)[len + j] == '0');
                assert(comb_of(s@).take(len + j + 1).last() == comb_of(s@)[len + j]);
                assert(digits_val(comb_of(s@).take(len + j + 1)) == acc * 10);
            }
            if acc > u128::MAX / 10 {
                proof {
                    vstd::arithmetic::div_mod::lemma_fundamental_div_mod(u128::MAX as int, 10);
                    lemma_val_over(comb_of(s@), len + j + 1);
                }
                return None;
            }
            acc = acc * 10;
            j = j + 1;
        }
        proof {
            assert(comb_of(s@).take(len as int + 18) =~= comb_of(s@));
        }
        return Some(acc);
    }

    // a non-digit stopped the scan before the end
    if s.get_char(i) != '.' {
        proof {
            assert forall|m: int| 0 <= m < i + 1 implies s@[m] != '.' by {
                if m < i {
                    assert(is_digit_char(s@[m]));
                }
            }
            lemma_dot_from_bounds(s@, i + 1);
            lemma_dot_from_skip(s@, 0, i + 1);
            assert(dot_from(s@, 0) >= i + 1);
            assert(s@.take(dot_from(s@, 0))[i as int] == s@[i as int]);
            assert(!is_eth_text(s@));
        }
        return None;
    }

    proof {
        assert forall|m: int| 0 <= m < i implies s@[m] != '.' by {
            assert(is_digit_char(s@[m]));
        }
        lemma_dot_from_skip(s@, 0, i as int);
        assert(dot_from(s@, 0) == i);
        assert(s@.subrange(i + 1, s@.len() as int).len() == len - i - 1);
        assert(pad18(s@.subrange(i + 1, s@.len() as int)).len() == 18);
        assert(comb_of(s@).len() == i + 18);
        assert(comb_of(s@).take(i as int) =~= s@.take(i as int));
    }

    let fstart = i + 1;
    let mut k = fstart;
    while k < len && k - fstart < 18
        invariant
            fstart <= k <= len,
            k - fstart <= 18,
            forall|m: int| fstart <= m < k ==> is_digit_char(#[trigger] s@[m]),
            acc as nat == digits_val(comb_of(s@).take(i + (k - fstart))),
        decreases len - k,
    {
        proof {
            assert(comb_of(s@)[i + (k - fstart)] == s@[k as int]);
            assert(comb_of(s@).take(i + (k - fstart) + 1).drop_last() =~= comb_of(s@).take(
                i + (k - fstart),
            ));
            assert(comb_of(s@).take(i + (k - fstart) + 1).last() == comb_of(s@)[i + (k - fstart)]);
        }
        match digit_of_char(s.get_char(k)) {
            None => {
                proof {
                    assert(s@.subrange(i + 1, s@.len() as int)[k - fstart] == s@[k as int]);
                    assert(!is_eth_text(s@));
                }
                return None;
            },
            Some(dv) => {
                proof {
                    assert(digits_val(comb_of(s@).take(i + (k - fstart) + 1)) == acc * 10
                        + digit_val(s@[k as int]));
                }
                if acc > (u128::MAX - dv as u128) / 10 {
                    proof {
                        vstd::arithmetic::div_mod::lemma_fundamental_div_mod(
                            (u128::MAX - dv) as int,
                            10,
                        );
                        lemma_val_over(comb_of(s@), i + (k - fstart) + 1);
                    }
                    return None;
                }
                acc = acc * 10 + dv as u128;
            },
        }
        k = k + 1;
    }

    // digits past the eighteenth fractional place: checked, not counted
    while k < len
        invariant
            fstart <= k <= len,
            forall|m: int| fstart <= m < k ==> is_digit_char(#[trigger] s@[m]),
        decreases len - k,
    {
        if digit_of_char(s.get_char(k)).is_none() {
            proof {
                assert(s@.subrange(i + 1, s@.len() as int)[k - fstart] == s@[k as int]);
                assert(!is_eth_text(s@));
            }
            return None;
        }
        k = k + 1;
    }
    proof {
        assert(is_eth_text(s@));
    }

    let cnt = if len - fstart < 18 {
        len - fstart
    } else {
        18
    };
    proof {
        assert(acc as nat == digits_val(comb_of(s@).take(i + cnt)));
    }
    let mut j = cnt;
    while j < 18
        invariant
            cnt <= j <= 18,
            acc as nat == digits_val(comb_of(s@).take(i + j)),
        decreases 18 - j,
    {
        proof {
            assert(comb_of(s@)[i + j] == '0');
            assert(comb_of(s@).take(i + j + 1).drop_last() =~= comb_of(s@).take(i + j));
            assert(comb_of(s@).take(i + j + 1).last() == comb_of(s@)[i + j]);
            assert(digits_val(comb_of(s@).take(i + j + 1)) == acc * 10);
        }
        if acc > u128::MAX / 10 {
            proof {
                vstd::arithmetic::div_mod::lemma_fundamental_div_mod(u128::MAX as int, 10);
                lemma_val_over(comb_of(s@), i + j + 1);
            }
            return None;
        }
        acc = acc * 10;
        j = j + 1;
    }
    proof {
        assert(comb_of(s@).take(i as int + 18) =~= comb_of(s@));
    }
    Some(acc)
}

/// Ten to the `k`, as the digit-value lemmas use it.
spec fn p10(k: nat) -> nat
    decreases k,
{
    if k == 0 {
        1
    } else {
        10 * p10((k - 1) as nat)
    }
}

/// Eighteen tens multiplied out.
proof fn lemma_p10_18()
    ensures
        p10(18) == 1000000000000000000,
{
    assert(p10(18) == 1000000000000000000) by {
        reveal_with_fuel(p10, 19);
    }
}

/// Powers of ten are positive.
proof fn lemma_p10_pos(k: nat)
    ensures
        p10(k) >= 1,
    decreases k,
{
    if k > 0 {
        lemma_p10_pos((k - 1) as nat);
    }
}

/// Powers of ten multiply by adding exponents.
proof fn lemma_p10_adds(a: nat, b: nat)
    ensures
        p10(a + b) == p10(a) * p10(b),
    decreases a,
{
    if a != 0 {
        lemma_p10_adds((a - 1) as nat, b);
        assert(((a + b) - 1) as nat == (a - 1) as nat + b);
        assert(10 * (p10((a - 1) as nat) * p10(b)) == (10 * p10((a - 1) as nat)) * p10(b))
            by (nonlinear_arith);
    }
}

/// Powers of ten grow with the exponent.
proof fn lemma_p10_mono(a: nat, b: nat)
    requires
        a <= b,
    ensures
        p10(a) <= p10(b),
{
    lemma_p10_adds(a, (b - a) as nat);
    lemma_p10_pos(a);
    lemma_p10_pos((b - a) as nat);
    assert(p10(a) <= p10(a) * p10((b - a) as nat)) by (nonlinear_arith)
        requires
            p10(a) >= 1,
            p10((b - a) as nat) >= 1,
    ;
}

/// The value of digit text splits around a concatenation.
proof fn lemma_digits_val_concat(a: Seq<char>, b: Seq<char>)
    ensures
        digits_val(a + b) == digits_val(a) * p10(b.len()) + digits_val(b),
    decreases b.len(),
{
    if b.len() == 0 {
        assert(a + b =~= a);
        assert(p10(0) == 1);
        assert(digits_val(b) == 0);
    } else {
        let b0 = b.drop_last();
        lemma_digits_val_concat(a, b0);
        assert((a + b).drop_last() =~= a + b0);
        assert((a + b).last() == b.last());
        assert(p10(b.len()) == 10 * p10(b0.len()));
        lemma_p10_pos(b0.len());
        let va = digits_val(a) as int;
        let pb0 = p10(b0.len()) as int;
        let vb0 = digits_val(b0) as int;
        let dl = digit_val(b.last()) as int;
        assert(digits_val(a + b) == (va * pb0 + vb0) * 10 + dl);
        assert((va * pb0 + vb0) * 10 + dl == va * (10 * pb0) + (vb0 * 10 + dl))
            by (nonlinear_arith);
        assert(digits_val(b) as int == vb0 * 10 + dl);
        assert(p10(b.len()) as int == 10 * pb0);
        assert(digits_val(a) * p10(b.len()) + digits_val(b) == va * (10 * pb0) + (vb0 * 10
            + dl));
    }
}

/// A run of zero digits has length `k` and no value.
proof fn lemma_zeros_val(k: nat)
    ensures
        Seq::new(k, |i: int| '0').len() == k,
        digits_val(Seq::new(k, |i: int| '0')) == 0,
        all_digits(Seq::new(k, |i: int| '0')),
    decreases k,
{
    if k > 0 {
        lemma_zeros_val((k - 1) as nat);
        assert(Seq::new(k, |i: int| '0').drop_last() =~= Seq::new((k - 1) as nat, |i: int| '0'));
        assert(Seq::new(k, |i: int| '0').last() == '0');
    }
}

/// Exactly `w` digit characters: the low `w` decimal digits of `n`.
spec fn dec_fixed(n: nat, w: nat) -> Seq<char>
    decreases w,
{
    if w == 0 {
        Seq::empty()
    } else {
        dec_fixed(n / 10, (w - 1) as nat).push(digit_char(n % 10))
    }
}

/// A number below ten to the `w` is its own `w`-digit rendering.
proof fn lemma_dec_fixed(n: nat, w: nat)
    requires
        n < p10(w),
    ensures
        dec_fixed(n, w).len() == w,
        all_digits(dec_fixed(n, w)),
        digits_val(dec_fixed(n, w)) == n,
    decreases w,
{
    if w == 0 {
        assert(n == 0);
    } else {
        assert(p10(w) == 10 * p10((w - 1) as nat));
        lemma_fundamental_div_mod(n as int, 10);
        lemma_dec_fixed(n / 10, (w - 1) as nat);
        assert(dec_fixed(n, w).drop_last() =~= dec_fixed(n / 10, (w - 1) as nat));
        assert(dec_fixed(n, w).last() == digit_char(n % 10));
        assert(digit_val(digit_char(n % 10)) == n % 10);
        assert(is_digit_char(digit_char(n % 10)));
        assert forall|i: int| 0 <= i < w implies is_digit_char(#[trigger] dec_fixed(n, w)[i]) by {
            if i < w - 1 {
                assert(dec_fixed(n, w)[i] == dec_fixed(n / 10, (w - 1) as nat)[i]);
            }
        }
    }
}

/// Appends exactly `w` digits: the value of `n`, left-padded with zeros.
fn append_dec_fixed(out: &mut String, n: u128, w: usize)
    requires
        1 <= w,
        (n as nat) < p10(w as nat),
    ensures
        final(out)@ == old(out)@ + dec_fixed(n as nat, w as nat),
    decreases w,
{
    if w == 1 {
        proof {
            assert(p10(0) == 1);
            assert(p10(1) == 10);
        }
        push_digit(out, n as u8);
        proof {
            assert((n as nat) % 10 == n as nat);
            assert(dec_fixed((n as nat) / 10, 0) =~= Seq::<char>::empty());
            assert(dec_fixed(n as nat, 1) == dec_fixed((n as nat) / 10, 0).push(
                digit_char((n as nat) % 10),
            ));
            assert(dec_fixed(n as nat, 1) =~= seq![digit_char(n as nat)]);
            assert(out@ =~= old(out)@ + dec_fixed(n as nat, 1));
        }
    } else {
        proof {
            assert(p10(w as nat) == 10 * p10((w - 1) as nat));
            lemma_fundamental_div_mod(n as int, 10);
        }
        append_dec_fixed(out, n / 10, w - 1);
        push_digit(out, (n % 10) as u8);
        proof {
            assert((n / 10) as nat == (n as nat) / 10);
            assert((n % 10) as nat == (n as nat) % 10);
            assert(out@ =~= old(out)@ + dec_fixed(n as nat, w as nat));
        }
    }
}

/// Renders an amount of minor units as whole-unit decimal text: the
/// integer digits, then, unless the fraction is zero, a dot and the
/// fractional digits without trailing zeros. The text always reads back
/// through `eth_text_val` as exactly the amount given.
#[verifier::loop_isolation(false)]
#[verifier::rlimit(100)]
pub fn format_wei_to_eth(wei: u128) -> (r: String)
    ensures
        is_eth_text(r@),
        eth_text_val(r@) == wei,
{
    proof {
        lemma_p10_18();
    }
    let q = wei / 1_000_000_000_000_000_000u128;
    let rem = wei % 1_000_000_000_000_000_000u128;

    let mut out = u128_to_dec_string(q);
    proof {
        lemma_dec_basic(q as nat);
        assert forall|m: int| 0 <= m < out@.len() implies out@[m] != '.' by {
            assert(is_digit_char(out@[m]));
        }
    }

    if rem == 0 {
        proof {
            lemma_dot_from_skip(out@, 0, out@.len() as int);
            assert(dot_from(out@, 0) == out@.len());
            assert(out@.take(out@.len() as int) =~= out@);
            assert(is_eth_text(out@));
            lemma_zeros_val(18);
            assert(pad18(Seq::<char>::empty()) =~= Seq::new(18, |i: int| '0'));
            lemma_digits_val_concat(dec(q as nat), pad18(Seq::<char>::empty()));
            assert(comb_of(out@) == dec(q as nat) + pad18(Seq::<char>::empty()));
            assert(eth_text_val(out@) == (q as nat) * p10(18));
        }
        return out;
    }

    // count and strip the trailing zero digits of the fraction
    let mut t = rem;
    let mut z: usize = 0;
    proof {
        assert(p10(0) == 1);
    }
    while t % 10 == 0
        invariant
            1 <= t,
            z <= 17,
            (t as nat) * p10(z as nat) == rem as nat,
        decreases t,
    {
        proof {
            assert(p10((z + 1) as nat) == 10 * p10(z as nat));
            lemma_p10_pos(z as nat);
            lemma_fundamental_div_mod(t as int, 10);
            assert(((t / 10) as nat) * p10((z + 1) as nat) == (t as nat) * p10(z as nat))
                by (nonlinear_arith)
                requires
                    t % 10 == 0,
                    t >= 1,
                    p10((z + 1) as nat) == 10 * p10(z as nat),
                    t as int == 10 * ((t as int) / 10) + (t as int) % 10,
            ;
            lemma_mul_inequality(1, (t / 10) as int, p10((z + 1) as nat) as int);
            if z + 1 >= 18 {
                lemma_p10_mono(18, (z + 1) as nat);
                assert(false);
            }
        }
        t = t / 10;
        z = z + 1;
    }

    out.append(".");
    let w = 18 - z;
    proof {
        lemma_p10_adds(w as nat, z as nat);
        lemma_p10_pos(z as nat);
        assert((t as int) * (p10(z as nat) as int) < (p10(w as nat) as int) * (p10(
            z as nat,
        ) as int));
        lemma_mul_strict_inequality_converse(
            t as int,
            p10(w as nat) as int,
            p10(z as nat) as int,
        );
        assert((t as nat) < p10(w as nat));
    }
    append_dec_fixed(&mut out, t, w);

    proof {
        reveal_strlit(".");
        lemma_dec_fixed(t as nat, w as nat);
        let ip = dec(q as nat);
        let f = dec_fixed(t as nat, w as nat);
        let d0 = ip.len() as int;
        assert(out@ =~= ip + "."@ + f);
        assert(out@.len() == d0 + 1 + w);
        assert forall|m: int| 0 <= m < d0 implies out@[m] != '.' by {
            assert(out@[m] == ip[m]);
            assert(is_digit_char(ip[m]));
        }
        assert(out@[d0] == '.');
        lemma_dot_from_skip(out@, 0, d0);
        assert(dot_from(out@, 0) == d0);
        assert(out@.take(d0) =~= ip);
        let frac = out@.subrange(d0 + 1, out@.len() as int);
        assert(frac =~= f);
        assert(is_eth_text(out@));
        if w == 18 {
            assert(pad18(frac) =~= f);
            assert(p10(0) == 1);
            assert(z == 0);
            assert(digits_val(f) == t as nat);
            assert((t as nat) * p10(z as nat) == rem as nat);
            assert((t as nat) * p10(0) == rem as nat);
            assert((t as nat) * 1 == rem as nat);
            assert(t as nat == rem as nat);
            assert(digits_val(pad18(frac)) == rem);
        } else {
            assert(pad18(frac) =~= f + Seq::new((18 - w) as nat, |i: int| '0'));
            lemma_zeros_val(z as nat);
            lemma_digits_val_concat(f, Seq::new(z as nat, |i: int| '0'));
            assert(digits_val(pad18(frac)) == rem);
        }
        assert(pad18(frac).len() == 18);
        lemma_digits_val_concat(ip, pad18(frac));
        assert(comb_of(out@) == ip + pad18(frac));
        assert(eth_text_val(out@) == (q as nat) * p10(18) + rem);
    }
    out
}

/// Relies on std::path::Path::exists: reports whether the path named an
/// existing file system entry at the moment of the call. The answer
/// depends on the state of the disk, so nothing further is assumed of it.
#[verifier::external_body]
fn path_exists(path: &str) -> bool {
    std::path::Path::new(path).exists()
}

/// Checks that `path` names an existing file before a caller goes on to
/// read it, reporting `MissingFile` otherwise. Whether the check passes
/// depends on the file system at the moment of the call.
pub fn ensure_file_exists(path: &str) -> (r: Result<(), ConfigError>)
    ensures
        r matches Err(e) ==> e == ConfigError::MissingFile,
{
    if path_exists(path) {
        Ok(())
    } else {
        Err(ConfigError::MissingFile)
    }
}

} // verus!
