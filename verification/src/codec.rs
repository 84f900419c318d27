//! The canonical JSON encoding of a configuration record.
//!
//! The record is persisted as a single JSON object holding the eight
//! schema fields in order, the two sizes as quoted minor-unit integer
//! strings and the rest as bare numbers and a boolean. The writer emits
//! exactly this canonical form and the reader accepts exactly it; a
//! document in any other shape, including one whose size strings do not
//! parse as integers, is reported as malformed input rather than read
//! leniently.

use vstd::prelude::*;
use vstd::string::{StrSliceExecFns, StringExecFns};
use crate::digits::{
    append_dec, dec, is_digit_char, number_at, scan_number, lemma_digit_run_unique,
    lemma_number_at_unique,
};
use crate::errors::ConfigError;
use crate::schema::VolatilityConfig;

verus! {

/// The encoding from the `last_update_time` key on.
pub open spec fn json_tail_last_update(c: VolatilityConfig) -> Seq<char> {
    ",\"last_update_time\":"@ + dec(c.last_update_time as nat) + "}"@
}

/// The encoding from the `emergency_threshold` key on.
pub open spec fn json_tail_emergency(c: VolatilityConfig) -> Seq<char> {
    ",\"emergency_threshold\":"@ + dec(c.emergency_threshold as nat) + json_tail_last_update(c)
}

/// The encoding from the `conservative_mode` key on.
pub open spec fn json_tail_conservative(c: VolatilityConfig) -> Seq<char> {
    ",\"conservative_mode\":"@ + (if c.conservative_mode {
        "true"@
    } else {
        "false"@
    }) + json_tail_emergency(c)
}

/// The encoding from the quote closing the minimum size on.
pub open spec fn json_tail_threshold(c: VolatilityConfig) -> Seq<char> {
    "\",\"volatility_threshold\":"@ + dec(c.volatility_threshold as nat)
        + json_tail_conservative(c)
}

/// The encoding from the quote closing the maximum size on.
pub open spec fn json_tail_min_size(c: VolatilityConfig) -> Seq<char> {
    "\",\"min_execution_size\":\""@ + dec(c.min_execution_size as nat) + json_tail_threshold(c)
}

/// The encoding from the `max_execution_size` key on.
pub open spec fn json_tail_max_size(c: VolatilityConfig) -> Seq<char> {
    ",\"max_execution_size\":\""@ + dec(c.max_execution_size as nat) + json_tail_min_size(c)
}

/// The encoding from the `current_volatility` key on.
pub open spec fn json_tail_current(c: VolatilityConfig) -> Seq<char> {
    ",\"current_volatility\":"@ + dec(c.current_volatility as nat) + json_tail_max_size(c)
}

/// The canonical JSON document for a record, whole.
pub open spec fn spec_json(c: VolatilityConfig) -> Seq<char> {
    "{\"baseline_volatility\":"@ + dec(c.baseline_volatility as nat) + json_tail_current(c)
}

/// Renders `cfg` as its canonical JSON document.
#[verifier::rlimit(50)]
pub fn to_json(cfg: &VolatilityConfig) -> (r: String)
    ensures
        r@ == spec_json(*cfg),
{
    let mut out = String::new();
    out.append("{\"baseline_volatility\":");
    append_dec(&mut out, cfg.baseline_volatility as u128);
    out.append(",\"current_volatility\":");
    append_dec(&mut out, cfg.current_volatility as u128);
    out.append(",\"max_execution_size\":\"");
    append_dec(&mut out, cfg.max_execution_size);
    out.append("\",\"min_execution_size\":\"");
    append_dec(&mut out, cfg.min_execution_size);
    out.append("\",\"volatility_threshold\":");
    append_dec(&mut out, cfg.volatility_threshold as u128);
    out.append(",\"conservative_mode\":");
    if cfg.conservative_mode {
        out.append("true");
    } else {
        out.append("false");
    }
    out.append(",\"emergency_threshold\":");
    append_dec(&mut out, cfg.emergency_threshold as u128);
    out.append(",\"last_update_time\":");
    append_dec(&mut out, cfg.last_update_time as u128);
    out.append("}");
    proof {
        assert(out@ =~= spec_json(*cfg));
    }
    out
}

/// Splitting a suffix equation: if the text from `p` on reads `a` then
/// `b`, then `a` sits at `[p, p + |a|)` and `b` fills the rest.
proof fn lemma_split_prefix(s: Seq<char>, p: int, a: Seq<char>, b: Seq<char>)
    requires
        0 <= p <= s.len(),
        s.subrange(p, s.len() as int) == a + b,
    ensures
        p + a.len() + b.len() == s.len(),
        s.subrange(p, p + a.len()) == a,
        s.subrange(p + a.len(), s.len() as int) == b,
{
    assert((a + b).len() == a.len() + b.len());
    assert(s.subrange(p, s.len() as int).len() == (a + b).len());
    assert(p + a.len() <= s.len());
    assert forall|i: int| 0 <= i < a.len() implies s.subrange(p, p + a.len())[i] == a[i] by {
        assert(s.subrange(p, s.len() as int)[i] == s[p + i]);
        assert(s.subrange(p, p + a.len())[i] == s[p + i]);
        assert((a + b)[i] == a[i]);
        assert(s.subrange(p, s.len() as int)[i] == (a + b)[i]);
    }
    assert(s.subrange(p, p + a.len()) =~= a);
    assert forall|i: int| 0 <= i < b.len() implies s.subrange(
        p + a.len(),
        s.len() as int,
    )[i] == b[i] by {
        assert(s.subrange(p + a.len(), s.len() as int)[i] == s[p + a.len() + i]);
        assert(s.subrange(p, s.len() as int)[a.len() + i] == s[p + a.len() + i]);
        assert((a + b)[a.len() + i] == b[i]);
        assert(s.subrange(p, s.len() as int)[a.len() + i] == (a + b)[a.len() + i]);
    }
    assert(s.subrange(p + a.len(), s.len() as int) =~= b);
}

/// Reads the exact characters of `lit` at `start`, or reports that they
/// are not there.
fn eat_lit(s: &str, start: usize, lit: &str) -> (r: Option<usize>)
    requires
        start <= s@.len(),
    ensures
        r matches Some(j) ==> j == start + lit@.len() && j <= s@.len() && s@.subrange(
            start as int,
            j as int,
        ) == lit@,
        r is None ==> !(start + lit@.len() <= s@.len() && s@.subrange(
            start as int,
            start as int + lit@.len() as int,
        ) == lit@),
{
    let n = s.unicode_len();
    let m = lit.unicode_len();
    if n - start < m {
        return None;
    }
    let mut k: usize = 0;
    while k < m
        invariant
            0 <= k <= m,
            m == lit@.len(),
            n == s@.len(),
            start + m <= n,
            forall|i: int| 0 <= i < k ==> s@[start + i] == lit@[i],
        decreases m - k,
    {
        if s.get_char(start + k) != lit.get_char(k) {
            proof {
                assert(s@.subrange(start as int, start as int + m as int)[k as int] == s@[start
                    + k]);
            }
            return None;
        }
        k = k + 1;
    }
    proof {
        assert(s@.subrange(start as int, start as int + m as int) =~= lit@);
    }
    Some(start + m)
}

/// Concatenation cancels on the left.
proof fn lemma_cancel_left(l: Seq<char>, x: Seq<char>, y: Seq<char>)
    requires
        l + x == l + y,
    ensures
        x == y,
{
    assert((l + x).len() == l.len() + x.len());
    assert((l + y).len() == l.len() + y.len());
    assert forall|i: int| 0 <= i < x.len() implies x[i] == y[i] by {
        assert((l + x)[l.len() + i] == x[i]);
        assert((l + y)[l.len() + i] == y[i]);
    }
    assert(x =~= y);
}

/// After a common literal, a digit run bounded by a non-digit pins both
/// the number and what follows it.
proof fn lemma_peel_number(l: Seq<char>, n1: nat, n2: nat, r1: Seq<char>, r2: Seq<char>)
    requires
        l + dec(n1) + r1 == l + dec(n2) + r2,
        r1.len() == 0 || !is_digit_char(r1[0]),
        r2.len() == 0 || !is_digit_char(r2[0]),
    ensures
        n1 == n2,
        r1 == r2,
{
    assert(l + dec(n1) + r1 =~= l + (dec(n1) + r1));
    assert(l + dec(n2) + r2 =~= l + (dec(n2) + r2));
    lemma_cancel_left(l, dec(n1) + r1, dec(n2) + r2);
    lemma_digit_run_unique(dec(n1) + r1, n1, n2, r1, r2);
}

/// The head of a three-part concatenation is the head of its first part.
proof fn lemma_head_of_concat3(a: Seq<char>, b: Seq<char>, c: Seq<char>)
    requires
        a.len() > 0,
    ensures
        (a + b + c).len() > 0,
        (a + b + c)[0] == a[0],
{
    assert((a + b)[0] == a[0]);
    assert((a + b + c)[0] == (a + b)[0]);
}

/// No two distinct records share a canonical document.
pub proof fn lemma_spec_json_injective(c1: VolatilityConfig, c2: VolatilityConfig)
    requires
        spec_json(c1) == spec_json(c2),
    ensures
        c1 == c2,
{
    reveal_strlit(",\"current_volatility\":");
    reveal_strlit(",\"max_execution_size\":\"");
    reveal_strlit("\",\"min_execution_size\":\"");
    reveal_strlit("\",\"volatility_threshold\":");
    reveal_strlit(",\"conservative_mode\":");
    reveal_strlit(",\"emergency_threshold\":");
    reveal_strlit(",\"last_update_time\":");
    reveal_strlit("}");
    reveal_strlit("true");
    reveal_strlit("false");

    lemma_head_of_concat3(
        ",\"current_volatility\":"@,
        dec(c1.current_volatility as nat),
        json_tail_max_size(c1),
    );
    lemma_head_of_concat3(
        ",\"current_volatility\":"@,
        dec(c2.current_volatility as nat),
        json_tail_max_size(c2),
    );
    lemma_peel_number(
        "{\"baseline_volatility\":"@,
        c1.baseline_volatility as nat,
        c2.baseline_volatility as nat,
        json_tail_current(c1),
        json_tail_current(c2),
    );

    lemma_head_of_concat3(
        ",\"max_execution_size\":\""@,
        dec(c1.max_execution_size as nat),
        json_tail_min_size(c1),
    );
    lemma_head_of_concat3(
        ",\"max_execution_size\":\""@,
        dec(c2.max_execution_size as nat),
        json_tail_min_size(c2),
    );
    lemma_peel_number(
        ",\"current_volatility\":"@,
        c1.current_volatility as nat,
        c2.current_volatility as nat,
        json_tail_max_size(c1),
        json_tail_max_size(c2),
    );

    lemma_head_of_concat3(
        "\",\"min_execution_size\":\""@,
        dec(c1.min_execution_size as nat),
        json_tail_threshold(c1),
    );
    lemma_head_of_concat3(
        "\",\"min_execution_size\":\""@,
        dec(c2.min_execution_size as nat),
        json_tail_threshold(c2),
    );
    lemma_peel_number(
        ",\"max_execution_size\":\""@,
        c1.max_execution_size as nat,
        c2.max_execution_size as nat,
        json_tail_min_size(c1),
        json_tail_min_size(c2),
    );

    lemma_head_of_concat3(
        "\",\"volatility_threshold\":"@,
        dec(c1.volatility_threshold as nat),
        json_tail_conservative(c1),
    );
    lemma_head_of_concat3(
        "\",\"volatility_threshold\":"@,
        dec(c2.volatility_threshold as nat),
        json_tail_conservative(c2),
    );
    lemma_peel_number(
        "\",\"min_execution_size\":\""@,
        c1.min_execution_size as nat,
        c2.min_execution_size as nat,
        json_tail_threshold(c1),
        json_tail_threshold(c2),
    );

    lemma_head_of_concat3(
        ",\"conservative_mode\":"@,
        if c1.conservative_mode {
            "true"@
        } else {
            "false"@
        },
        json_tail_emergency(c1),
    );
    lemma_head_of_concat3(
        ",\"conservative_mode\":"@,
        if c2.conservative_mode {
            "true"@
        } else {
            "false"@
        },
        json_tail_emergency(c2),
    );
    lemma_peel_number(
        "\",\"volatility_threshold\":"@,
        c1.volatility_threshold as nat,
        c2.volatility_threshold as nat,
        json_tail_conservative(c1),
        json_tail_conservative(c2),
    );

    let b1 = if c1.conservative_mode {
        "true"@
    } else {
        "false"@
    };
    let b2 = if c2.conservative_mode {
        "true"@
    } else {
        "false"@
    };
    assert(json_tail_conservative(c1) =~= ",\"conservative_mode\":"@ + (b1 + json_tail_emergency(
        c1,
    )));
    assert(json_tail_conservative(c2) =~= ",\"conservative_mode\":"@ + (b2 + json_tail_emergency(
        c2,
    )));
    lemma_cancel_left(
        ",\"conservative_mode\":"@,
        b1 + json_tail_emergency(c1),
        b2 + json_tail_emergency(c2),
    );
    assert((b1 + json_tail_emergency(c1))[0] == b1[0]);
    assert((b2 + json_tail_emergency(c2))[0] == b2[0]);
    if c1.conservative_mode != c2.conservative_mode {
        assert(b1[0] != b2[0]);
        assert(false);
    }
    lemma_cancel_left(b1, json_tail_emergency(c1), json_tail_emergency(c2));

    lemma_head_of_concat3(
        ",\"last_update_time\":"@,
        dec(c1.last_update_time as nat),
        "}"@,
    );
    lemma_head_of_concat3(
        ",\"last_update_time\":"@,
        dec(c2.last_update_time as nat),
        "}"@,
    );
    lemma_peel_number(
        ",\"emergency_threshold\":"@,
        c1.emergency_threshold as nat,
        c2.emergency_threshold as nat,
        json_tail_last_update(c1),
        json_tail_last_update(c2),
    );

    lemma_peel_number(
        ",\"last_update_time\":"@,
        c1.last_update_time as nat,
        c2.last_update_time as nat,
        "}"@,
        "}"@,
    );
}

/// In any record's document, the opening brace and baseline key start the
/// text, the baseline's canonical number follows, and the rest of the
/// document follows that.
proof fn lemma_step_baseline(s: Seq<char>)
    ensures
        forall|c: VolatilityConfig| s == #[trigger] spec_json(c) ==> {
            &&& 0int + "{\"baseline_volatility\":"@.len() <= s.len()
            &&& s.subrange(0, 0int + "{\"baseline_volatility\":"@.len()) == "{\"baseline_volatility\":"@
            &&& number_at(
                s,
                0int + "{\"baseline_volatility\":"@.len(),
                c.baseline_volatility as nat,
                0int + "{\"baseline_volatility\":"@.len() + dec(c.baseline_volatility as nat).len(),
            )
            &&& s.subrange(
                0int + "{\"baseline_volatility\":"@.len() + dec(c.baseline_volatility as nat).len(),
                s.len() as int,
            ) == json_tail_current(c)
        },
{
    reveal_strlit(",\"current_volatility\":");
    assert forall|c: VolatilityConfig| s == #[trigger] spec_json(c) implies {
        &&& 0int + "{\"baseline_volatility\":"@.len() <= s.len()
        &&& s.subrange(0, 0int + "{\"baseline_volatility\":"@.len()) == "{\"baseline_volatility\":"@
        &&& number_at(
            s,
            0int + "{\"baseline_volatility\":"@.len(),
            c.baseline_volatility as nat,
            0int + "{\"baseline_volatility\":"@.len() + dec(c.baseline_volatility as nat).len(),
        )
        &&& s.subrange(
            0int + "{\"baseline_volatility\":"@.len() + dec(c.baseline_volatility as nat).len(),
            s.len() as int,
        ) == json_tail_current(c)
    } by {
        let lit = "{\"baseline_volatility\":"@;
        let num = dec(c.baseline_volatility as nat);
        let rest = json_tail_current(c);
        assert(s.subrange(0, s.len() as int) =~= s);
        assert(spec_json(c) =~= lit + (num + rest));
        lemma_split_prefix(s, 0, lit, num + rest);
        lemma_split_prefix(s, 0int + lit.len(), num, rest);
        lemma_head_of_concat3(
            ",\"current_volatility\":"@,
            dec(c.current_volatility as nat),
            json_tail_max_size(c),
        );
        assert(!is_digit_char(rest[0]));
        assert(s[0int + lit.len() + num.len()] == rest[0]);
        assert(number_at(s, 0int + lit.len(), c.baseline_volatility as nat, 0int + lit.len() + num.len()));
    }
}

/// The same decomposition for the `current_volatility` segment at `p`.
proof fn lemma_step_current(s: Seq<char>, p: int)
    requires
        0 <= p,
        forall|c: VolatilityConfig| s == #[trigger] spec_json(c) ==> p <= s.len() && s.subrange(
            p,
            s.len() as int,
        ) == json_tail_current(c),
    ensures
        forall|c: VolatilityConfig| s == #[trigger] spec_json(c) ==> {
            &&& p + ",\"current_volatility\":"@.len() <= s.len()
            &&& s.subrange(p, p + ",\"current_volatility\":"@.len()) == ",\"current_volatility\":"@
            &&& number_at(
                s,
                p + ",\"current_volatility\":"@.len(),
                c.current_volatility as nat,
                p + ",\"current_volatility\":"@.len() + dec(c.current_volatility as nat).len(),
            )
            &&& s.subrange(
                p + ",\"current_volatility\":"@.len() + dec(c.current_volatility as nat).len(),
                s.len() as int,
            ) == json_tail_max_size(c)
        },
{
    reveal_strlit(",\"max_execution_size\":\"");
    assert forall|c: VolatilityConfig| s == #[trigger] spec_json(c) implies {
        &&& p + ",\"current_volatility\":"@.len() <= s.len()
        &&& s.subrange(p, p + ",\"current_volatility\":"@.len()) == ",\"current_volatility\":"@
        &&& number_at(
            s,
            p + ",\"current_volatility\":"@.len(),
            c.current_volatility as nat,
            p + ",\"current_volatility\":"@.len() + dec(c.current_volatility as nat).len(),
        )
        &&& s.subrange(
            p + ",\"current_volatility\":"@.len() + dec(c.current_volatility as nat).len(),
            s.len() as int,
        ) == json_tail_max_size(c)
    } by {
        let lit = ",\"current_volatility\":"@;
        let num = dec(c.current_volatility as nat);
        let rest = json_tail_max_size(c);
        assert(s.subrange(p, s.len() as int) == json_tail_current(c));
        assert(json_tail_current(c) =~= lit + (num + rest));
        lemma_split_prefix(s, p, lit, num + rest);
        lemma_split_prefix(s, p + lit.len(), num, rest);
        lemma_head_of_concat3(
            ",\"max_execution_size\":\""@,
            dec(c.max_execution_size as nat),
            json_tail_min_size(c),
        );
        assert(!is_digit_char(rest[0]));
        assert(s[p + lit.len() + num.len()] == rest[0]);
        assert(number_at(s, p + lit.len(), c.current_volatility as nat, p + lit.len() + num.len()));
    }
}

/// The same decomposition for the `max_execution_size` segment at `p`.
proof fn lemma_step_max(s: Seq<char>, p: int)
    requires
        0 <= p,
        forall|c: VolatilityConfig| s == #[trigger] spec_json(c) ==> p <= s.len() && s.subrange(
            p,
            s.len() as int,
        ) == json_tail_max_size(c),
    ensures
        forall|c: VolatilityConfig| s == #[trigger] spec_json(c) ==> {
            &&& p + ",\"max_execution_size\":\""@.len() <= s.len()
            &&& s.subrange(p, p + ",\"max_execution_size\":\""@.len())
                == ",\"max_execution_size\":\""@
            &&& number_at(
                s,
                p + ",\"max_execution_size\":\""@.len(),
                c.max_execution_size as nat,
                p + ",\"max_execution_size\":\""@.len() + dec(c.max_execution_size as nat).len(),
            )
            &&& s.subrange(
                p + ",\"max_execution_size\":\""@.len() + dec(c.max_execution_size as nat).len(),
                s.len() as int,
            ) == json_tail_min_size(c)
        },
{
    reveal_strlit("\",\"min_execution_size\":\"");
    assert forall|c: VolatilityConfig| s == #[trigger] spec_json(c) implies {
        &&& p + ",\"max_execution_size\":\""@.len() <= s.len()
        &&& s.subrange(p, p + ",\"max_execution_size\":\""@.len()) == ",\"max_execution_size\":\""@
        &&& number_at(
            s,
            p + ",\"max_execution_size\":\""@.len(),
            c.max_execution_size as nat,
            p + ",\"max_execution_size\":\""@.len() + dec(c.max_execution_size as nat).len(),
        )
        &&& s.subrange(
            p + ",\"max_execution_size\":\""@.len() + dec(c.max_execution_size as nat).len(),
            s.len() as int,
        ) == json_tail_min_size(c)
    } by {
        let lit = ",\"max_execution_size\":\""@;
        let num = dec(c.max_execution_size as nat);
        let rest = json_tail_min_size(c);
        assert(s.subrange(p, s.len() as int) == json_tail_max_size(c));
        assert(json_tail_max_size(c) =~= lit + (num + rest));
        lemma_split_prefix(s, p, lit, num + rest);
        lemma_split_prefix(s, p + lit.len(), num, rest);
        lemma_head_of_concat3(
            "\",\"min_execution_size\":\""@,
            dec(c.min_execution_size as nat),
            json_tail_threshold(c),
        );
        assert(!is_digit_char(rest[0]));
        assert(s[p + lit.len() + num.len()] == rest[0]);
        assert(number_at(s, p + lit.len(), c.max_execution_size as nat, p + lit.len() + num.len()));
    }
}

/// The same decomposition for the `min_execution_size` segment at `p`.
proof fn lemma_step_min(s: Seq<char>, p: int)
    requires
        0 <= p,
        forall|c: VolatilityConfig| s == #[trigger] spec_json(c) ==> p <= s.len() && s.subrange(
            p,
            s.len() as int,
        ) == json_tail_min_size(c),
    ensures
        forall|c: VolatilityConfig| s == #[trigger] spec_json(c) ==> {
            &&& p + "\",\"min_execution_size\":\""@.len() <= s.len()
            &&& s.subrange(p, p + "\",\"min_execution_size\":\""@.len())
                == "\",\"min_execution_size\":\""@
            &&& number_at(
                s,
                p + "\",\"min_execution_size\":\""@.len(),
                c.min_execution_size as nat,
                p + "\",\"min_execution_size\":\""@.len() + dec(c.min_execution_size as nat).len(),
            )
            &&& s.subrange(
                p + "\",\"min_execution_size\":\""@.len() + dec(c.min_execution_size as nat).len(),
                s.len() as int,
            ) == json_tail_threshold(c)
        },
{
    reveal_strlit("\",\"volatility_threshold\":");
    assert forall|c: VolatilityConfig| s == #[trigger] spec_json(c) implies {
        &&& p + "\",\"min_execution_size\":\""@.len() <= s.len()
        &&& s.subrange(p, p + "\",\"min_execution_size\":\""@.len())
            == "\",\"min_execution_size\":\""@
        &&& number_at(
            s,
            p + "\",\"min_execution_size\":\""@.len(),
            c.min_execution_size as nat,
            p + "\",\"min_execution_size\":\""@.len() + dec(c.min_execution_size as nat).len(),
        )
        &&& s.subrange(
            p + "\",\"min_execution_size\":\""@.len() + dec(c.min_execution_size as nat).len(),
            s.len() as int,
        ) == json_tail_threshold(c)
    } by {
        let lit = "\",\"min_execution_size\":\""@;
        let num = dec(c.min_execution_size as nat);
        let rest = json_tail_threshold(c);
        assert(s.subrange(p, s.len() as int) == json_tail_min_size(c));
        assert(json_tail_min_size(c) =~= lit + (num + rest));
        lemma_split_prefix(s, p, lit, num + rest);
        lemma_split_prefix(s, p + lit.len(), num, rest);
        lemma_head_of_concat3(
            "\",\"volatility_threshold\":"@,
            dec(c.volatility_threshold as nat),
            json_tail_conservative(c),
        );
        assert(!is_digit_char(rest[0]));
        assert(s[p + lit.len() + num.len()] == rest[0]);
        assert(number_at(s, p + lit.len(), c.min_execution_size as nat, p + lit.len() + num.len()));
    }
}

/// The same decomposition for the `volatility_threshold` segment at `p`.
proof fn lemma_step_threshold(s: Seq<char>, p: int)
    requires
        0 <= p,
        forall|c: VolatilityConfig| s == #[trigger] spec_json(c) ==> p <= s.len() && s.subrange(
            p,
            s.len() as int,
        ) == json_tail_threshold(c),
    ensures
        forall|c: VolatilityConfig| s == #[trigger] spec_json(c) ==> {
            &&& p + "\",\"volatility_threshold\":"@.len() <= s.len()
            &&& s.subrange(p, p + "\",\"volatility_threshold\":"@.len())
                == "\",\"volatility_threshold\":"@
            &&& number_at(
                s,
                p + "\",\"volatility_threshold\":"@.len(),
                c.volatility_threshold as nat,
                p + "\",\"volatility_threshold\":"@.len() + dec(
                    c.volatility_threshold as nat,
                ).len(),
            )
            &&& s.subrange(
                p + "\",\"volatility_threshold\":"@.len() + dec(c.volatility_threshold as nat).len(),
                s.len() as int,
            ) == json_tail_conservative(c)
        },
{
    reveal_strlit(",\"conservative_mode\":");
    assert forall|c: VolatilityConfig| s == #[trigger] spec_json(c) implies {
        &&& p + "\",\"volatility_threshold\":"@.len() <= s.len()
        &&& s.subrange(p, p + "\",\"volatility_threshold\":"@.len())
            == "\",\"volatility_threshold\":"@
        &&& number_at(
            s,
            p + "\",\"volatility_threshold\":"@.len(),
            c.volatility_threshold as nat,
            p + "\",\"volatility_threshold\":"@.len() + dec(c.volatility_threshold as nat).len(),
        )
        &&& s.subrange(
            p + "\",\"volatility_threshold\":"@.len() + dec(c.volatility_threshold as nat).len(),
            s.len() as int,
        ) == json_tail_conservative(c)
    } by {
        let lit = "\",\"volatility_threshold\":"@;
        let num = dec(c.volatility_threshold as nat);
        let rest = json_tail_conservative(c);
        assert(s.subrange(p, s.len() as int) == json_tail_threshold(c));
        assert(json_tail_threshold(c) =~= lit + (num + rest));
        lemma_split_prefix(s, p, lit, num + rest);
        lemma_split_prefix(s, p + lit.len(), num, rest);
        lemma_head_of_concat3(
            ",\"conservative_mode\":"@,
            if c.conservative_mode {
                "true"@
            } else {
                "false"@
            },
            json_tail_emergency(c),
        );
        assert(!is_digit_char(rest[0]));
        assert(s[p + lit.len() + num.len()] == rest[0]);
        assert(number_at(
            s,
            p + lit.len(),
            c.volatility_threshold as nat,
            p + lit.len() + num.len(),
        ));
    }
}

/// The decomposition for the `conservative_mode` segment at `p`: the key
/// literal, then `true` or `false` as the record has it, then the rest.
proof fn lemma_step_conservative(s: Seq<char>, p: int)
    requires
        0 <= p,
        forall|c: VolatilityConfig| s == #[trigger] spec_json(c) ==> p <= s.len() && s.subrange(
            p,
            s.len() as int,
        ) == json_tail_conservative(c),
    ensures
        forall|c: VolatilityConfig| s == #[trigger] spec_json(c) ==> {
            &&& p + ",\"conservative_mode\":"@.len() <= s.len()
            &&& s.subrange(p, p + ",\"conservative_mode\":"@.len()) == ",\"conservative_mode\":"@
            &&& (c.conservative_mode ==> p + ",\"conservative_mode\":"@.len() + "true"@.len()
                <= s.len() && s.subrange(
                p + ",\"conservative_mode\":"@.len(),
                p + ",\"conservative_mode\":"@.len() + "true"@.len(),
            ) == "true"@ && s.subrange(
                p + ",\"conservative_mode\":"@.len() + "true"@.len(),
                s.len() as int,
            ) == json_tail_emergency(c))
            &&& (!c.conservative_mode ==> p + ",\"conservative_mode\":"@.len() + "false"@.len()
                <= s.len() && s.subrange(
                p + ",\"conservative_mode\":"@.len(),
                p + ",\"conservative_mode\":"@.len() + "false"@.len(),
            ) == "false"@ && s.subrange(
                p + ",\"conservative_mode\":"@.len() + "false"@.len(),
                s.len() as int,
            ) == json_tail_emergency(c) && s[p + ",\"conservative_mode\":"@.len()] != 't')
            &&& (c.conservative_mode ==> s[p + ",\"conservative_mode\":"@.len()] == 't')
        },
{
    reveal_strlit("true");
    reveal_strlit("false");
    assert forall|c: VolatilityConfig| s == #[trigger] spec_json(c) implies {
        &&& p + ",\"conservative_mode\":"@.len() <= s.len()
        &&& s.subrange(p, p + ",\"conservative_mode\":"@.len()) == ",\"conservative_mode\":"@
        &&& (c.conservative_mode ==> p + ",\"conservative_mode\":"@.len() + "true"@.len() <= s.len()
            && s.subrange(
            p + ",\"conservative_mode\":"@.len(),
            p + ",\"conservative_mode\":"@.len() + "true"@.len(),
        ) == "true"@ && s.subrange(
            p + ",\"conservative_mode\":"@.len() + "true"@.len(),
            s.len() as int,
        ) == json_tail_emergency(c))
        &&& (!c.conservative_mode ==> p + ",\"conservative_mode\":"@.len() + "false"@.len()
            <= s.len() && s.subrange(
            p + ",\"conservative_mode\":"@.len(),
            p + ",\"conservative_mode\":"@.len() + "false"@.len(),
        ) == "false"@ && s.subrange(
            p + ",\"conservative_mode\":"@.len() + "false"@.len(),
            s.len() as int,
        ) == json_tail_emergency(c) && s[p + ",\"conservative_mode\":"@.len()] != 't')
        &&& (c.conservative_mode ==> s[p + ",\"conservative_mode\":"@.len()] == 't')
    } by {
        let lit = ",\"conservative_mode\":"@;
        let word = if c.conservative_mode {
            "true"@
        } else {
            "false"@
        };
        let rest = json_tail_emergency(c);
        assert(s.subrange(p, s.len() as int) == json_tail_conservative(c));
        assert(json_tail_conservative(c) =~= lit + (word + rest));
        lemma_split_prefix(s, p, lit, word + rest);
        lemma_split_prefix(s, p + lit.len(), word, rest);
        assert(s[p + lit.len()] == word[0]);
    }
}

/// The same decomposition for the `emergency_threshold` segment at `p`.
proof fn lemma_step_emergency(s: Seq<char>, p: int)
    requires
        0 <= p,
        forall|c: VolatilityConfig| s == #[trigger] spec_json(c) ==> p <= s.len() && s.subrange(
            p,
            s.len() as int,
        ) == json_tail_emergency(c),
    ensures
        forall|c: VolatilityConfig| s == #[trigger] spec_json(c) ==> {
            &&& p + ",\"emergency_threshold\":"@.len() <= s.len()
            &&& s.subrange(p, p + ",\"emergency_threshold\":"@.len())
                == ",\"emergency_threshold\":"@
            &&& number_at(
                s,
                p + ",\"emergency_threshold\":"@.len(),
                c.emergency_threshold as nat,
                p + ",\"emergency_threshold\":"@.len() + dec(c.emergency_threshold as nat).len(),
            )
            &&& s.subrange(
                p + ",\"emergency_threshold\":"@.len() + dec(c.emergency_threshold as nat).len(),
                s.len() as int,
            ) == json_tail_last_update(c)
        },
{
    reveal_strlit(",\"last_update_time\":");
    assert forall|c: VolatilityConfig| s == #[trigger] spec_json(c) implies {
        &&& p + ",\"emergency_threshold\":"@.len() <= s.len()
        &&& s.subrange(p, p + ",\"emergency_threshold\":"@.len()) == ",\"emergency_threshold\":"@
        &&& number_at(
            s,
            p + ",\"emergency_threshold\":"@.len(),
            c.emergency_threshold as nat,
            p + ",\"emergency_threshold\":"@.len() + dec(c.emergency_threshold as nat).len(),
        )
        &&& s.subrange(
            p + ",\"emergency_threshold\":"@.len() + dec(c.emergency_threshold as nat).len(),
            s.len() as int,
        ) == json_tail_last_update(c)
    } by {
        let lit = ",\"emergency_threshold\":"@;
        let num = dec(c.emergency_threshold as nat);
        let rest = json_tail_last_update(c);
        assert(s.subrange(p, s.len() as int) == json_tail_emergency(c));
        assert(json_tail_emergency(c) =~= lit + (num + rest));
        lemma_split_prefix(s, p, lit, num + rest);
        lemma_split_prefix(s, p + lit.len(), num, rest);
        lemma_head_of_concat3(",\"last_update_time\":"@, dec(c.last_update_time as nat), "}"@);
        assert(!is_digit_char(rest[0]));
        assert(s[p + lit.len() + num.len()] == rest[0]);
        assert(number_at(
            s,
            p + lit.len(),
            c.emergency_threshold as nat,
            p + lit.len() + num.len(),
        ));
    }
}

/// The same decomposition for the closing `last_update_time` segment.
proof fn lemma_step_last(s: Seq<char>, p: int)
    requires
        0 <= p,
        forall|c: VolatilityConfig| s == #[trigger] spec_json(c) ==> p <= s.len() && s.subrange(
            p,
            s.len() as int,
        ) == json_tail_last_update(c),
    ensures
        forall|c: VolatilityConfig| s == #[trigger] spec_json(c) ==> {
            &&& p + ",\"last_update_time\":"@.len() <= s.len()
            &&& s.subrange(p, p + ",\"last_update_time\":"@.len()) == ",\"last_update_time\":"@
            &&& number_at(
                s,
                p + ",\"last_update_time\":"@.len(),
                c.last_update_time as nat,
                p + ",\"last_update_time\":"@.len() + dec(c.last_update_time as nat).len(),
            )
        },
{
    reveal_strlit("}");
    assert forall|c: VolatilityConfig| s == #[trigger] spec_json(c) implies {
        &&& p + ",\"last_update_time\":"@.len() <= s.len()
        &&& s.subrange(p, p + ",\"last_update_time\":"@.len()) == ",\"last_update_time\":"@
        &&& number_at(
            s,
            p + ",\"last_update_time\":"@.len(),
            c.last_update_time as nat,
            p + ",\"last_update_time\":"@.len() + dec(c.last_update_time as nat).len(),
        )
    } by {
        let lit = ",\"last_update_time\":"@;
        let num = dec(c.last_update_time as nat);
        let rest = "}"@;
        assert(s.subrange(p, s.len() as int) == json_tail_last_update(c));
        assert(json_tail_last_update(c) =~= lit + (num + rest));
        lemma_split_prefix(s, p, lit, num + rest);
        lemma_split_prefix(s, p + lit.len(), num, rest);
        assert(!is_digit_char(rest[0]));
        assert(s[p + lit.len() + num.len()] == rest[0]);
        assert(number_at(s, p + lit.len(), c.last_update_time as nat, p + lit.len() + num.len()));
    }
}

/// The parse relation at spec level: the unique record whose canonical
/// document is `s`, if one exists.
pub open spec fn spec_parse(s: Seq<char>) -> Option<VolatilityConfig> {
    if exists|c: VolatilityConfig| s == spec_json(c) {
        Some(choose|c: VolatilityConfig| s == spec_json(c))
    } else {
        None
    }
}

/// Reads a record back from its canonical JSON document.
///
/// Exactly the documents `to_json` writes are accepted, and acceptance is
/// part of the contract: parsing any record's canonical document succeeds
/// and returns that record. Any other text — a reordered object, extra
/// whitespace, or a size string that is not a canonical integer — is
/// malformed input.
#[verifier::rlimit(100)]
pub fn from_json(s: &str) -> (r: Result<VolatilityConfig, ConfigError>)
    ensures
        r matches Ok(c) ==> s@ == spec_json(c),
        r matches Err(e) ==> e == ConfigError::MalformedInput,
        forall|c: VolatilityConfig| s@ == #[trigger] spec_json(c) ==> r == Ok::<
            VolatilityConfig,
            ConfigError,
        >(c),
{
    proof {
        lemma_step_baseline(s@);
    }
    let q1 = match eat_lit(s, 0, "{\"baseline_volatility\":") {
        Some(j) => j,
        None => {
            proof {
                assert forall|c: VolatilityConfig| s@ != spec_json(c) by {
                    if s@ == spec_json(c) {
                        assert(false);
                    }
                }
            }
            return Err(ConfigError::MalformedInput);
        },
    };
    let (nbv, p1) = match scan_number(s, q1) {
        Some(pr) => pr,
        None => {
            proof {
                assert forall|c: VolatilityConfig| s@ != spec_json(c) by {
                    if s@ == spec_json(c) {
                        assert(number_at(
                            s@,
                            q1 as int,
                            c.baseline_volatility as nat,
                            q1 + dec(c.baseline_volatility as nat).len(),
                        ));
                        assert(false);
                    }
                }
            }
            return Err(ConfigError::MalformedInput);
        },
    };
    proof {
        assert forall|c: VolatilityConfig| s@ == #[trigger] spec_json(c) implies p1 <= s@.len()
            && s@.subrange(p1 as int, s@.len() as int) == json_tail_current(c)
            && c.baseline_volatility as nat == nbv as nat by {
            lemma_number_at_unique(
                s@,
                q1 as int,
                nbv as nat,
                p1 as int,
                c.baseline_volatility as nat,
                q1 + dec(c.baseline_volatility as nat).len(),
            );
        }
    }
    if nbv > u64::MAX as u128 {
        proof {
            assert forall|c: VolatilityConfig| s@ != spec_json(c) by {
                if s@ == spec_json(c) {
                    assert(false);
                }
            }
        }
        return Err(ConfigError::MalformedInput);
    }
    let bv = nbv as u64;

    proof {
        lemma_step_current(s@, p1 as int);
    }
    let q2 = match eat_lit(s, p1, ",\"current_volatility\":") {
        Some(j) => j,
        None => {
            proof {
                assert forall|c: VolatilityConfig| s@ != spec_json(c) by {
                    if s@ == spec_json(c) {
                        assert(false);
                    }
                }
            }
            return Err(ConfigError::MalformedInput);
        },
    };
    let (ncv, p2) = match scan_number(s, q2) {
        Some(pr) => pr,
        None => {
            proof {
                assert forall|c: VolatilityConfig| s@ != spec_json(c) by {
                    if s@ == spec_json(c) {
                        assert(number_at(
                            s@,
                            q2 as int,
                            c.current_volatility as nat,
                            q2 + dec(c.current_volatility as nat).len(),
                        ));
                        assert(false);
                    }
                }
            }
            return Err(ConfigError::MalformedInput);
        },
    };
    proof {
        assert forall|c: VolatilityConfig| s@ == #[trigger] spec_json(c) implies p2 <= s@.len()
            && s@.subrange(p2 as int, s@.len() as int) == json_tail_max_size(c)
            && c.baseline_volatility as nat == nbv as nat && c.current_volatility as nat
            == ncv as nat by {
            lemma_number_at_unique(
                s@,
                q2 as int,
                ncv as nat,
                p2 as int,
                c.current_volatility as nat,
                q2 + dec(c.current_volatility as nat).len(),
            );
        }
    }
    if ncv > u64::MAX as u128 {
        proof {
            assert forall|c: VolatilityConfig| s@ != spec_json(c) by {
                if s@ == spec_json(c) {
                    assert(false);
                }
            }
        }
        return Err(ConfigError::MalformedInput);
    }
    let cv = ncv as u64;

    proof {
        lemma_step_max(s@, p2 as int);
    }
    let q3 = match eat_lit(s, p2, ",\"max_execution_size\":\"") {
        Some(j) => j,
        None => {
            proof {
                assert forall|c: VolatilityConfig| s@ != spec_json(c) by {
                    if s@ == spec_json(c) {
                        assert(false);
                    }
                }
            }
            return Err(ConfigError::MalformedInput);
        },
    };
    let (mxv, p3) = match scan_number(s, q3) {
        Some(pr) => pr,
        None => {
            proof {
                assert forall|c: VolatilityConfig| s@ != spec_json(c) by {
                    if s@ == spec_json(c) {
                        assert(number_at(
                            s@,
                            q3 as int,
                            c.max_execution_size as nat,
                            q3 + dec(c.max_execution_size as nat).len(),
                        ));
                        assert(false);
                    }
                }
            }
            return Err(ConfigError::MalformedInput);
        },
    };
    proof {
        assert forall|c: VolatilityConfig| s@ == #[trigger] spec_json(c) implies p3 <= s@.len()
            && s@.subrange(p3 as int, s@.len() as int) == json_tail_min_size(c)
            && c.baseline_volatility as nat == nbv as nat && c.current_volatility as nat
            == ncv as nat && c.max_execution_size as nat == mxv as nat by {
            lemma_number_at_unique(
                s@,
                q3 as int,
                mxv as nat,
                p3 as int,
                c.max_execution_size as nat,
                q3 + dec(c.max_execution_size as nat).len(),
            );
        }
    }

    proof {
        lemma_step_min(s@, p3 as int);
    }
    let q4 = match eat_lit(s, p3, "\",\"min_execution_size\":\"") {
        Some(j) => j,
        None => {
            proof {
                assert forall|c: VolatilityConfig| s@ != spec_json(c) by {
                    if s@ == spec_json(c) {
                        assert(false);
                    }
                }
            }
            return Err(ConfigError::MalformedInput);
        },
    };
    let (mnv, p4) = match scan_number(s, q4) {
        Some(pr) => pr,
        None => {
            proof {
                assert forall|c: VolatilityConfig| s@ != spec_json(c) by {
                    if s@ == spec_json(c) {
                        assert(number_at(
                            s@,
                            q4 as int,
                            c.min_execution_size as nat,
                            q4 + dec(c.min_execution_size as nat).len(),
                        ));
                        assert(false);
                    }
                }
            }
            return Err(ConfigError::MalformedInput);
        },
    };
    proof {
        assert forall|c: VolatilityConfig| s@ == #[trigger] spec_json(c) implies p4 <= s@.len()
            && s@.subrange(p4 as int, s@.len() as int) == json_tail_threshold(c)
            && c.baseline_volatility as nat == nbv as nat && c.current_volatility as nat
            == ncv as nat && c.max_execution_size as nat == mxv as nat
            && c.min_execution_size as nat == mnv as nat by {
            lemma_number_at_unique(
                s@,
                q4 as int,
                mnv as nat,
                p4 as int,
                c.min_execution_size as nat,
                q4 + dec(c.min_execution_size as nat).len(),
            );
        }
    }

    proof {
        lemma_step_threshold(s@, p4 as int);
    }
    let q5 = match eat_lit(s, p4, "\",\"volatility_threshold\":") {
        Some(j) => j,
        None => {
            proof {
                assert forall|c: VolatilityConfig| s@ != spec_json(c) by {
                    if s@ == spec_json(c) {
                        assert(false);
                    }
                }
            }
            return Err(ConfigError::MalformedInput);
        },
    };
    let (nvt, p5) = match scan_number(s, q5) {
        Some(pr) => pr,
        None => {
            proof {
                assert forall|c: VolatilityConfig| s@ != spec_json(c) by {
                    if s@ == spec_json(c) {
                        assert(number_at(
                            s@,
                            q5 as int,
                            c.volatility_threshold as nat,
                            q5 + dec(c.volatility_threshold as nat).len(),
                        ));
                        assert(false);
                    }
                }
            }
            return Err(ConfigError::MalformedInput);
        },
    };
    proof {
        assert forall|c: VolatilityConfig| s@ == #[trigger] spec_json(c) implies p5 <= s@.len()
            && s@.subrange(p5 as int, s@.len() as int) == json_tail_conservative(c)
            && c.baseline_volatility as nat == nbv as nat && c.current_volatility as nat
            == ncv as nat && c.max_execution_size as nat == mxv as nat
            && c.min_execution_size as nat == mnv as nat && c.volatility_threshold as nat
            == nvt as nat by {
            lemma_number_at_unique(
                s@,
                q5 as int,
                nvt as nat,
                p5 as int,
                c.volatility_threshold as nat,
                q5 + dec(c.volatility_threshold as nat).len(),
            );
        }
    }
    if nvt > u64::MAX as u128 {
        proof {
            assert forall|c: VolatilityConfig| s@ != spec_json(c) by {
                if s@ == spec_json(c) {
                    assert(false);
                }
            }
        }
        return Err(ConfigError::MalformedInput);
    }
    let vt = nvt as u64;

    proof {
        lemma_step_conservative(s@, p5 as int);
    }
    let q6 = match eat_lit(s, p5, ",\"conservative_mode\":") {
        Some(j) => j,
        None => {
            proof {
                assert forall|c: VolatilityConfig| s@ != spec_json(c) by {
                    if s@ == spec_json(c) {
                        assert(false);
                    }
                }
            }
            return Err(ConfigError::MalformedInput);
        },
    };
    let consv: bool;
    let p6: usize;
    match eat_lit(s, q6, "true") {
        Some(j) => {
            consv = true;
            p6 = j;
            proof {
                reveal_strlit("true");
                reveal_strlit("false");
                assert forall|c: VolatilityConfig| s@ == #[trigger] spec_json(c) implies p6
                    <= s@.len() && s@.subrange(p6 as int, s@.len() as int)
                    == json_tail_emergency(c) && c.conservative_mode == consv by {
                    if !c.conservative_mode {
                        assert(s@[q6 as int] == "false"@[0]);
                        assert(s@.subrange(q6 as int, q6 as int + "true"@.len() as int)[0]
                            == s@[q6 as int]);
                        assert(false);
                    }
                }
            }
        },
        None => {
            match eat_lit(s, q6, "false") {
                Some(j) => {
                    consv = false;
                    p6 = j;
                    proof {
                        reveal_strlit("true");
                        reveal_strlit("false");
                        assert forall|c: VolatilityConfig| s@ == #[trigger] spec_json(c) implies p6
                            <= s@.len() && s@.subrange(p6 as int, s@.len() as int)
                            == json_tail_emergency(c) && c.conservative_mode == consv by {
                            if c.conservative_mode {
                                assert(false);
                            }
                        }
                    }
                },
                None => {
                    proof {
                        assert forall|c: VolatilityConfig| s@ != spec_json(c) by {
                            if s@ == spec_json(c) {
                                if c.conservative_mode {
                                    assert(false);
                                } else {
                                    assert(false);
                                }
                            }
                        }
                    }
                    return Err(ConfigError::MalformedInput);
                },
            }
        },
    }

    proof {
        lemma_step_emergency(s@, p6 as int);
    }
    let q7 = match eat_lit(s, p6, ",\"emergency_threshold\":") {
        Some(j) => j,
        None => {
            proof {
                assert forall|c: VolatilityConfig| s@ != spec_json(c) by {
                    if s@ == spec_json(c) {
                        assert(false);
                    }
                }
            }
            return Err(ConfigError::MalformedInput);
        },
    };
    let (net, p7) = match scan_number(s, q7) {
        Some(pr) => pr,
        None => {
            proof {
                assert forall|c: VolatilityConfig| s@ != spec_json(c) by {
                    if s@ == spec_json(c) {
                        assert(number_at(
                            s@,
                            q7 as int,
                            c.emergency_threshold as nat,
                            q7 + dec(c.emergency_threshold as nat).len(),
                        ));
                        assert(false);
                    }
                }
            }
            return Err(ConfigError::MalformedInput);
        },
    };
    proof {
        assert forall|c: VolatilityConfig| s@ == #[trigger] spec_json(c) implies p7 <= s@.len()
            && s@.subrange(p7 as int, s@.len() as int) == json_tail_last_update(c)
            && c.emergency_threshold as nat == net as nat by {
            lemma_number_at_unique(
                s@,
                q7 as int,
                net as nat,
                p7 as int,
                c.emergency_threshold as nat,
                q7 + dec(c.emergency_threshold as nat).len(),
            );
        }
    }
    if net > u64::MAX as u128 {
        proof {
            assert forall|c: VolatilityConfig| s@ != spec_json(c) by {
                if s@ == spec_json(c) {
                    assert(false);
                }
            }
        }
        return Err(ConfigError::MalformedInput);
    }
    let et = net as u64;

    proof {
        lemma_step_last(s@, p7 as int);
    }
    let q8 = match eat_lit(s, p7, ",\"last_update_time\":") {
        Some(j) => j,
        None => {
            proof {
                assert forall|c: VolatilityConfig| s@ != spec_json(c) by {
                    if s@ == spec_json(c) {
                        assert(false);
                    }
                }
            }
            return Err(ConfigError::MalformedInput);
        },
    };
    let (nlt, p8) = match scan_number(s, q8) {
        Some(pr) => pr,
        None => {
            proof {
                assert forall|c: VolatilityConfig| s@ != spec_json(c) by {
                    if s@ == spec_json(c) {
                        assert(number_at(
                            s@,
                            q8 as int,
                            c.last_update_time as nat,
                            q8 + dec(c.last_update_time as nat).len(),
                        ));
                        assert(false);
                    }
                }
            }
            return Err(ConfigError::MalformedInput);
        },
    };
    proof {
        assert forall|c: VolatilityConfig| s@ == #[trigger] spec_json(c) implies
            c.last_update_time as nat == nlt as nat by {
            lemma_number_at_unique(
                s@,
                q8 as int,
                nlt as nat,
                p8 as int,
                c.last_update_time as nat,
                q8 + dec(c.last_update_time as nat).len(),
            );
        }
    }
    if nlt > u64::MAX as u128 {
        proof {
            assert forall|c: VolatilityConfig| s@ != spec_json(c) by {
                if s@ == spec_json(c) {
                    assert(false);
                }
            }
        }
        return Err(ConfigError::MalformedInput);
    }
    let lt = nlt as u64;

    let cfg = VolatilityConfig {
        baseline_volatility: bv,
        current_volatility: cv,
        max_execution_size: mxv,
        min_execution_size: mnv,
        volatility_threshold: vt,
        conservative_mode: consv,
        emergency_threshold: et,
        last_update_time: lt,
    };
    let rendered = to_json(&cfg);
    let owned = s.to_owned();
    if owned == rendered {
        proof {
            assert(s@ == spec_json(cfg));
            assert forall|c: VolatilityConfig| s@ == #[trigger] spec_json(c) implies Ok::<
                VolatilityConfig,
                ConfigError,
            >(cfg) == Ok::<VolatilityConfig, ConfigError>(c) by {
                assert(c == cfg);
            }
        }
        Ok(cfg)
    } else {
        proof {
            assert forall|c: VolatilityConfig| s@ != spec_json(c) by {
                if s@ == spec_json(c) {
                    assert(c == cfg);
                    assert(owned@ == rendered@);
                    assert(false);
                }
            }
        }
        Err(ConfigError::MalformedInput)
    }
}

/// The JSON round trip is lossless: parsing a record's canonical document
/// gives back that record, equal in every field.
pub proof fn lemma_json_round_trip(c: VolatilityConfig)
    ensures
        spec_parse(spec_json(c)) == Some(c),
{
    let s = spec_json(c);
    assert(s == spec_json(c));
    let c2 = choose|c2: VolatilityConfig| s == spec_json(c2);
    lemma_spec_json_injective(c2, c);
}

} // verus!
