//! Canonical decimal digit strings: rendering integers as text, reading
//! them back, and the uniqueness facts the codec's contracts rest on.

use vstd::prelude::*;
use vstd::arithmetic::div_mod::{lemma_fundamental_div_mod, lemma_fundamental_div_mod_converse};
use vstd::string::{StrSliceExecFns, StringExecFns};

verus! {

/// Is `c` one of the ten ASCII digits?
pub open spec fn is_digit_char(c: char) -> bool {
    ||| c == '0'
    ||| c == '1'
    ||| c == '2'
    ||| c == '3'
    ||| c == '4'
    ||| c == '5'
    ||| c == '6'
    ||| c == '7'
    ||| c == '8'
    ||| c == '9'
}

/// The digit character for a value below ten.
pub open spec fn digit_char(d: nat) -> char {
    if d == 0 {
        '0'
    } else if d == 1 {
        '1'
    } else if d == 2 {
        '2'
    } else if d == 3 {
        '3'
    } else if d == 4 {
        '4'
    } else if d == 5 {
        '5'
    } else if d == 6 {
        '6'
    } else if d == 7 {
        '7'
    } else if d == 8 {
        '8'
    } else {
        '9'
    }
}

/// The value of a digit character.
pub open spec fn digit_val(c: char) -> nat {
    if c == '0' {
        0
    } else if c == '1' {
        1
    } else if c == '2' {
        2
    } else if c == '3' {
        3
    } else if c == '4' {
        4
    } else if c == '5' {
        5
    } else if c == '6' {
        6
    } else if c == '7' {
        7
    } else if c == '8' {
        8
    } else {
        9
    }
}

/// The canonical decimal rendering of `n`: most significant digit first,
/// no leading zeros.
pub open spec fn dec(n: nat) -> Seq<char>
    decreases n,
{
    if n < 10 {
        seq![digit_char(n)]
    } else {
        dec(n / 10).push(digit_char(n % 10))
    }
}

/// Every character of `s` is a digit.
pub open spec fn all_digits(s: Seq<char>) -> bool {
    forall|i: int| 0 <= i < s.len() ==> is_digit_char(#[trigger] s[i])
}

/// The numeric value of a digit string, most significant digit first.
pub open spec fn digits_val(s: Seq<char>) -> nat
    decreases s.len(),
{
    if s.len() == 0 {
        0
    } else {
        digits_val(s.drop_last()) * 10 + digit_val(s.last())
    }
}

/// A canonical number occupies `[start, end)` of `s`: the characters there
/// are exactly `dec(n)` and no digit follows.
pub open spec fn number_at(s: Seq<char>, start: int, n: nat, end: int) -> bool {
    &&& 0 <= start < end <= s.len()
    &&& s.subrange(start, end) == dec(n)
    &&& (end == s.len() || !is_digit_char(s[end]))
}

/// The basic shape of a canonical rendering: nonempty, all digits, its
/// value is the number it renders, and only zero starts with a zero.
pub proof fn lemma_dec_basic(n: nat)
    ensures
        dec(n).len() >= 1,
        all_digits(dec(n)),
        digits_val(dec(n)) == n,
        n < 10 ==> dec(n).len() == 1,
        n >= 1 ==> dec(n)[0] != '0',
    decreases n,
{
    if n < 10 {
        assert(dec(n) == seq![digit_char(n)]);
        assert(dec(n).drop_last() =~= Seq::<char>::empty());
        assert(dec(n).last() == digit_char(n));
        assert(digits_val(dec(n).drop_last()) == 0);
        assert(digit_val(digit_char(n)) == n);
        assert(digits_val(dec(n)) == n);
    } else {
        lemma_dec_basic(n / 10);
        lemma_fundamental_div_mod(n as int, 10);
        assert(dec(n).drop_last() =~= dec(n / 10));
        assert(dec(n)[0] == dec(n / 10)[0]);
        assert(digits_val(dec(n)) == (n / 10) * 10 + (n % 10));
    }
}

/// A nonempty digit string that does not start with a zero has a positive
/// value.
pub proof fn lemma_digits_val_positive(s: Seq<char>)
    requires
        s.len() >= 1,
        all_digits(s),
        s[0] != '0',
    ensures
        digits_val(s) >= 1,
    decreases s.len(),
{
    if s.len() == 1 {
    } else {
        lemma_digits_val_positive(s.drop_last());
    }
}

/// A canonical digit string is the rendering of its value: all digits,
/// and no leading zero unless it is the single digit zero.
pub proof fn lemma_canonical_digits(s: Seq<char>)
    requires
        s.len() >= 1,
        all_digits(s),
        s[0] != '0' || s.len() == 1,
    ensures
        dec(digits_val(s)) == s,
    decreases s.len(),
{
    if s.len() == 1 {
        assert(s.drop_last() =~= Seq::<char>::empty());
        assert(digits_val(s.drop_last()) == 0);
        assert(s.last() == s[0]);
        assert(digits_val(s) == digit_val(s[0]));
        assert(is_digit_char(s[0]));
        assert(digit_val(s[0]) < 10);
        assert(digit_char(digit_val(s[0])) == s[0]);
        assert(dec(digits_val(s)) =~= s);
    } else {
        let t = s.drop_last();
        assert(t[0] == s[0]);
        lemma_canonical_digits(t);
        lemma_digits_val_positive(t);
        let v = digits_val(s);
        assert(v == digits_val(t) * 10 + digit_val(s.last()));
        lemma_fundamental_div_mod_converse(
            v as int,
            10,
            digits_val(t) as int,
            digit_val(s.last()) as int,
        );
        assert(v >= 10);
        assert(dec(v) == dec(v / 10).push(digit_char(v % 10)));
        assert(digit_char(digit_val(s.last())) == s.last());
        assert(dec(v) =~= s);
    }
}

/// Two renderings of the same value are the same value.
pub proof fn lemma_dec_injective(a: nat, b: nat)
    requires
        dec(a) == dec(b),
    ensures
        a == b,
{
    lemma_dec_basic(a);
    lemma_dec_basic(b);
}

/// A digit run bounded by a non-digit is read one way only: if `s` splits
/// both as `dec(a) + ra` and `dec(b) + rb` with neither rest starting in a
/// digit, the splits agree.
pub proof fn lemma_digit_run_unique(s: Seq<char>, a: nat, b: nat, ra: Seq<char>, rb: Seq<char>)
    requires
        s == dec(a) + ra,
        s == dec(b) + rb,
        ra.len() == 0 || !is_digit_char(ra[0]),
        rb.len() == 0 || !is_digit_char(rb[0]),
    ensures
        a == b,
        ra == rb,
{
    lemma_dec_basic(a);
    lemma_dec_basic(b);
    let la = dec(a).len() as int;
    let lb = dec(b).len() as int;
    if la < lb {
        assert(ra.len() > 0);
        assert(ra[0] == s[la]);
        assert(s[la] == dec(b)[la]);
        assert(is_digit_char(dec(b)[la]));
        assert(false);
    }
    if lb < la {
        assert(rb.len() > 0);
        assert(rb[0] == s[lb]);
        assert(s[lb] == dec(a)[lb]);
        assert(is_digit_char(dec(a)[lb]));
        assert(false);
    }
    assert forall|i: int| 0 <= i < la implies dec(a)[i] == dec(b)[i] by {
        assert(dec(a)[i] == (dec(a) + ra)[i]);
        assert(dec(b)[i] == (dec(b) + rb)[i]);
    }
    assert(dec(a) =~= dec(b));
    lemma_dec_injective(a, b);
    assert(s.len() == (dec(a) + ra).len());
    assert(s.len() == (dec(b) + rb).len());
    assert(ra.len() == rb.len());
    assert forall|i: int| 0 <= i < ra.len() implies ra[i] == rb[i] by {
        assert(i < rb.len());
        assert(ra[i] == (dec(a) + ra)[la + i]);
        assert(rb[i] == (dec(b) + rb)[lb + i]);
    }
    assert(ra =~= rb);
}

/// Both canonical readings of a number at one position agree.
pub proof fn lemma_number_at_unique(s: Seq<char>, start: int, n1: nat, e1: int, n2: nat, e2: int)
    requires
        number_at(s, start, n1, e1),
        number_at(s, start, n2, e2),
    ensures
        n1 == n2,
        e1 == e2,
{
    let tail = s.subrange(start, s.len() as int);
    let ra = s.subrange(e1, s.len() as int);
    let rb = s.subrange(e2, s.len() as int);
    assert(dec(n1).len() == e1 - start);
    assert(dec(n2).len() == e2 - start);
    assert(tail =~= dec(n1) + ra);
    assert(tail =~= dec(n2) + rb);
    lemma_digit_run_unique(tail, n1, n2, ra, rb);
}

/// A prefix of a digit string is worth no more than the whole.
pub proof fn lemma_digits_val_take_le(s: Seq<char>, m: int)
    requires
        0 <= m <= s.len(),
    ensures
        digits_val(s.take(m)) <= digits_val(s),
    decreases s.len() - m,
{
    if m == s.len() {
        assert(s.take(m) =~= s);
    } else {
        lemma_digits_val_take_le(s, m + 1);
        assert(s.take(m + 1).drop_last() =~= s.take(m));
        assert(digits_val(s.take(m + 1)) == digits_val(s.take(m)) * 10 + digit_val(s[m]));
    }
}

/// Appends the digit character for `d`.
pub(crate) fn push_digit(out: &mut String, d: u8)
    requires
        d < 10,
    ensures
        final(out)@ == old(out)@ + seq![digit_char(d as nat)],
{
    let lit: &str = match d {
        0 => "0",
        1 => "1",
        2 => "2",
        3 => "3",
        4 => "4",
        5 => "5",
        6 => "6",
        7 => "7",
        8 => "8",
        _ => "9",
    };
    out.append(lit);
    proof {
        reveal_strlit("0");
        reveal_strlit("1");
        reveal_strlit("2");
        reveal_strlit("3");
        reveal_strlit("4");
        reveal_strlit("5");
        reveal_strlit("6");
        reveal_strlit("7");
        reveal_strlit("8");
        reveal_strlit("9");
        assert(out@ =~= old(out)@ + seq![digit_char(d as nat)]);
    }
}

/// Appends the canonical decimal rendering of `n`.
pub fn append_dec(out: &mut String, n: u128)
    ensures
        final(out)@ == old(out)@ + dec(n as nat),
    decreases n,
{
    if n < 10 {
        push_digit(out, n as u8);
        proof {
            assert(out@ =~= old(out)@ + dec(n as nat));
        }
    } else {
        append_dec(out, n / 10);
        push_digit(out, (n % 10) as u8);
        proof {
            assert((n / 10) as nat == (n as nat) / 10);
            assert((n % 10) as nat == (n as nat) % 10);
            assert(out@ =~= old(out)@ + dec(n as nat));
        }
    }
}

/// The digit's value, or nothing for any other character.
pub(crate) fn digit_of_char(c: char) -> (r: Option<u8>)
    ensures
        r matches Some(d) ==> is_digit_char(c) && d < 10 && d as nat == digit_val(c),
        r is None ==> !is_digit_char(c),
{
    match c {
        '0' => Some(0),
        '1' => Some(1),
        '2' => Some(2),
        '3' => Some(3),
        '4' => Some(4),
        '5' => Some(5),
        '6' => Some(6),
        '7' => Some(7),
        '8' => Some(8),
        '9' => Some(9),
        _ => None,
    }
}

/// Reads the canonical number starting at `start`: the value and the
/// position one past its digits. Returns nothing exactly when no canonical
/// `u128` sits there: no digit at `start`, a forbidden leading zero, or a
/// value past `u128::MAX`.
pub fn scan_number(s: &str, start: usize) -> (r: Option<(u128, usize)>)
    requires
        start <= s@.len(),
    ensures
        r matches Some(p) ==> number_at(s@, start as int, p.0 as nat, p.1 as int)
            && start < p.1 <= s@.len(),
        r is None ==> forall|n: nat, end: int|
            n <= u128::MAX ==> !number_at(s@, start as int, n, end),
{
    let len = s.unicode_len();

    let mut end = start;
    let mut stopped = false;
    while !stopped && end < len
        invariant
            start <= end <= len,
            len == s@.len(),
            forall|i: int| start <= i < end ==> is_digit_char(#[trigger] s@[i]),
            stopped ==> (end < len && !is_digit_char(s@[end as int])),
        decreases len - end + (if stopped { 0int } else { 1int }),
    {
        if digit_of_char(s.get_char(end)).is_none() {
            stopped = true;
        } else {
            end = end + 1;
        }
    }
    assert(end == len || !is_digit_char(s@[end as int]));

    if end == start {
        proof {
            assert forall|n: nat, e: int| n <= u128::MAX implies !number_at(
                s@,
                start as int,
                n,
                e,
            ) by {
                if number_at(s@, start as int, n, e) {
                    lemma_dec_basic(n);
                    assert(s@.subrange(start as int, e)[0] == s@[start as int]);
                    assert(is_digit_char(s@[start as int]));
                    assert(false);
                }
            }
        }
        return None;
    }

    if s.get_char(start) == '0' {
        if end == start + 1 {
            proof {
                assert(s@.subrange(start as int, start + 1) =~= dec(0));
            }
            return Some((0, end));
        }
        proof {
            assert(is_digit_char(s@[start + 1]));
            assert forall|n: nat, e: int| n <= u128::MAX implies !number_at(
                s@,
                start as int,
                n,
                e,
            ) by {
                if number_at(s@, start as int, n, e) {
                    lemma_dec_basic(n);
                    assert(s@.subrange(start as int, e)[0] == s@[start as int]);
                    assert(dec(n)[0] == '0');
                    assert(n == 0);
                    assert(e == start + 1);
                    assert(e < len);
                    assert(!is_digit_char(s@[e]));
                    assert(false);
                }
            }
        }
        return None;
    }

    let mut acc: u128 = 0;
    let mut k = start;
    while k < end
        invariant
            start <= k <= end <= len,
            len == s@.len(),
            end == len || !is_digit_char(s@[end as int]),
            forall|i: int| start <= i < end ==> is_digit_char(#[trigger] s@[i]),
            s@[start as int] != '0',
            start < end,
            acc as nat == digits_val(s@.subrange(start as int, k as int)),
        decreases end - k,
    {
        let d = match digit_of_char(s.get_char(k)) {
            Some(d) => d,
            None => {
                proof {
                    assert(false);
                }
                0
            },
        };
        if acc > (u128::MAX - d as u128) / 10 {
            proof {
                let run = s@.subrange(start as int, end as int);
                let partial = s@.subrange(start as int, k + 1);
                assert(partial.drop_last() =~= s@.subrange(start as int, k as int));
                assert(partial.last() == s@[k as int]);
                assert(digits_val(partial) == (acc as nat) * 10 + (d as nat));
                lemma_fundamental_div_mod((u128::MAX - d) as int, 10);
                assert((acc as nat) * 10 + (d as nat) > u128::MAX);
                assert(partial =~= run.take(k + 1 - start));
                lemma_digits_val_take_le(run, k + 1 - start);
                assert(digits_val(run) > u128::MAX);
                assert forall|n: nat, e: int| n <= u128::MAX implies !number_at(
                    s@,
                    start as int,
                    n,
                    e,
                ) by {
                    if number_at(s@, start as int, n, e) {
                        lemma_dec_basic(n);
                        if e < end {
                            assert(!is_digit_char(s@[e]));
                            assert(is_digit_char(s@[e]));
                            assert(false);
                        }
                        if e > end {
                            assert(end < len);
                            assert(s@.subrange(start as int, e)[end - start] == s@[end as int]);
                            assert(is_digit_char(s@[end as int]));
                            assert(false);
                        }
                        assert(e == end);
                        assert(s@.subrange(start as int, e) == dec(n as nat));
                        assert(digits_val(run) == n);
                        assert(false);
                    }
                }
            }
            return None;
        }
        proof {
            lemma_fundamental_div_mod((u128::MAX - d) as int, 10);
            assert(acc * 10 + d <= u128::MAX);
            let partial = s@.subrange(start as int, k + 1);
            assert(partial.drop_last() =~= s@.subrange(start as int, k as int));
            assert(partial.last() == s@[k as int]);
        }
        acc = acc * 10 + d as u128;
        k = k + 1;
    }

    proof {
        let run = s@.subrange(start as int, end as int);
        assert(run[0] == s@[start as int]);
        lemma_canonical_digits(run);
        assert(dec(acc as nat) == run);
    }
    Some((acc, end))
}

/// The canonical decimal rendering of `n` as a fresh string.
pub fn u128_to_dec_string(n: u128) -> (r: String)
    ensures
        r@ == dec(n as nat),
{
    let mut out = String::new();
    append_dec(&mut out, n);
    proof {
        assert(out@ =~= dec(n as nat));
    }
    out
}

} // verus!
