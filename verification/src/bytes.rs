//! Byte-level helpers shared by the clock parser and the header reader:
//! decimal number parsing, splitting on a separator byte, and byte-slice
//! comparison.

use vstd::prelude::*;

verus! {

/// Decimal digit bytes, `'0'` through `'9'`.
pub open spec fn is_digit(b: u8) -> bool {
    48 <= b <= 57
}

/// Numeric value of a digit byte.
pub open spec fn digit_val(b: u8) -> int {
    b - 48
}

/// Value of a byte sequence read as an unsigned decimal number; `None` when
/// the sequence is empty or holds a non-digit byte.
pub open spec fn dec_value(s: Seq<u8>) -> Option<int>
    decreases s.len(),
{
    if s.len() == 0 {
        None
    } else if s.len() == 1 {
        if is_digit(s[0]) {
            Some(digit_val(s[0]))
        } else {
            None
        }
    } else {
        match dec_value(s.drop_last()) {
            None => None,
            Some(v) => if is_digit(s.last()) {
                Some(10 * v + digit_val(s.last()))
            } else {
                None
            },
        }
    }
}

/// A decimal value exists exactly when the sequence is non-empty and all
/// digits, and it is then non-negative.
pub proof fn lemma_dec_value_digits(s: Seq<u8>)
    ensures
        dec_value(s) is Some <==> (s.len() > 0 && forall|j: int| 0 <= j < s.len() ==> is_digit(s[j])),
        dec_value(s) is Some ==> dec_value(s)->Some_0 >= 0,
    decreases s.len(),
{
    if s.len() > 1 {
        lemma_dec_value_digits(s.drop_last());
        assert(forall|j: int| 0 <= j < s.len() - 1 ==> s.drop_last()[j] == s[j]);
    }
}

/// Value of a byte sequence read as a decimal integer with an optional
/// leading sign, the way the rating headers are read.
pub open spec fn int_value(s: Seq<u8>) -> Option<int> {
    if s.len() >= 1 && (s[0] == 43 || s[0] == 45) {
        match dec_value(s.skip(1)) {
            None => None,
            Some(v) => Some(if s[0] == 45 { -v } else { v }),
        }
    } else {
        dec_value(s)
    }
}

/// Magnitude parser: reads `s` as an unsigned decimal number. Returns -1
/// when `s` is not a non-empty run of digits; otherwise the value, clamped
/// to 2147483649 so that overlong inputs are still recognised as too large
/// for a signed 32-bit number.
fn parse_magnitude(s: &[u8]) -> (r: i64)
    ensures
        match dec_value(s@) {
            None => r == -1,
            Some(v) => if v <= 2147483648 {
                r == v
            } else {
                r == 2147483649
            },
        },
{
    if s.len() == 0 {
        proof {
            lemma_dec_value_digits(s@);
        }
        return -1;
    }
    let ghost gs = s@;
    let mut acc: i64 = 0;
    let mut i: usize = 0;
    while i < s.len()
        invariant
            s@ == gs,
            0 <= i <= gs.len(),
            gs.len() >= 1,
            i > 0 ==> dec_value(gs.take(i as int)) is Some,
            i > 0 ==> {
                let v = dec_value(gs.take(i as int))->Some_0;
                (v <= 2147483648 ==> acc == v) && (v > 2147483648 ==> acc == 2147483649)
            },
            i == 0 ==> acc == 0,
            0 <= acc <= 2147483649,
        decreases gs.len() - i,
    {
        let b = s[i];
        if b < 48 || b > 57 {
            proof {
                lemma_dec_value_digits(gs);
            }
            return -1;
        }
        acc = acc * 10 + ((b - 48) as i64);
        if acc > 2147483648 {
            acc = 2147483649;
        }
        proof {
            let prefix = gs.take(i as int);
            let next = gs.take(i + 1 as int);
            assert(next.drop_last() =~= prefix);
            assert(next.last() == gs[i as int]);
            if i > 0 {
                lemma_dec_value_digits(prefix);
            }
        }
        i += 1;
    }
    proof {
        assert(gs.take(gs.len() as int) =~= gs);
    }
    acc
}

/// Reads `s` as an unsigned decimal number that fits in an `i32`.
pub fn parse_u31(s: &[u8]) -> (r: Option<i32>)
    ensures
        r is Some ==> dec_value(s@) == Some(r->Some_0 as int),
        r is None ==> match dec_value(s@) {
            None => true,
            Some(v) => v > i32::MAX,
        },
{
    proof {
        lemma_dec_value_digits(s@);
    }
    let m = parse_magnitude(s);
    if m < 0 || m > 2147483647 {
        None
    } else {
        Some(m as i32)
    }
}

/// Reads `s` as a signed decimal number that fits in an `i32`, accepting an
/// optional leading `+` or `-`.
pub fn parse_i32(s: &[u8]) -> (r: Option<i32>)
    ensures
        r is Some ==> int_value(s@) == Some(r->Some_0 as int),
        r is None ==> match int_value(s@) {
            None => true,
            Some(v) => v < i32::MIN || v > i32::MAX,
        },
{
    if s.len() >= 1 && (s[0] == 43 || s[0] == 45) {
        let negative = s[0] == 45;
        let rest = vstd::slice::slice_subrange(s, 1, s.len());
        proof {
            assert(rest@ =~= s@.skip(1));
            lemma_dec_value_digits(rest@);
        }
        let m = parse_magnitude(rest);
        if m < 0 {
            None
        } else if negative {
            if m > 2147483648 {
                None
            } else {
                Some((-m) as i32)
            }
        } else {
            if m > 2147483647 {
                None
            } else {
                Some(m as i32)
            }
        }
    } else {
        parse_u31(s)
    }
}

/// The tokens of `s` split on the separator byte `sep`: `n` separators give
/// `n + 1` tokens, so consecutive separators give empty tokens, as
/// `str::split` does.
pub open spec fn split_on(s: Seq<u8>, sep: u8) -> Seq<Seq<u8>>
    decreases s.len(),
{
    if s.len() == 0 {
        seq![Seq::<u8>::empty()]
    } else if s[0] == sep {
        seq![Seq::<u8>::empty()] + split_on(s.skip(1), sep)
    } else {
        let rest = split_on(s.skip(1), sep);
        seq![seq![s[0]] + rest[0]] + rest.skip(1)
    }
}

/// Splitting yields at least one and at most `s.len() + 1` tokens.
pub proof fn lemma_split_on_len(s: Seq<u8>, sep: u8)
    ensures
        1 <= split_on(s, sep).len() <= s.len() + 1,
    decreases s.len(),
{
    if s.len() > 0 {
        lemma_split_on_len(s.skip(1), sep);
    }
}

/// Splits a byte slice on a separator byte, mirroring `split_on`.
pub fn split_bytes(s: &[u8], sep: u8) -> (out: Vec<Vec<u8>>)
    ensures
        out.deep_view() == split_on(s@, sep),
{
    let ghost gs = s@;
    let mut out: Vec<Vec<u8>> = Vec::new();
    let mut cur: Vec<u8> = Vec::new();
    let mut i: usize = 0;
    proof {
        lemma_split_on_len(gs, sep);
        let ts = split_on(gs, sep);
        assert(Seq::<u8>::empty() + ts[0] =~= ts[0]);
        assert(stitch(Seq::<u8>::empty(), ts) =~= ts);
        assert(out.deep_view() + ts =~= ts);
        assert(gs.skip(0) =~= gs);
    }
    while i < s.len()
        invariant
            s@ == gs,
            0 <= i <= gs.len(),
            split_on(gs, sep) == out.deep_view() + stitch(cur@, split_on(gs.skip(i as int), sep)),
        decreases gs.len() - i,
    {
        let ghost tail = split_on(gs.skip(i + 1 as int), sep);
        let ghost ts = split_on(gs.skip(i as int), sep);
        proof {
            lemma_split_on_len(gs.skip(i + 1 as int), sep);
            assert(gs.skip(i as int).skip(1) =~= gs.skip(i + 1 as int));
            assert(gs.skip(i as int)[0] == gs[i as int]);
        }
        let b = s[i];
        if b == sep {
            proof {
                // ts == seq![empty] + tail, so stitching leaves `cur` closed.
                assert(cur@ + ts[0] =~= cur@);
                assert(ts.skip(1) =~= tail);
                assert(stitch(cur@, ts) =~= seq![cur@] + tail);
                let pushed = out.deep_view().push(cur@);
                assert(Seq::<u8>::empty() + tail[0] =~= tail[0]);
                assert(stitch(Seq::<u8>::empty(), tail) =~= tail);
                assert(pushed + tail =~= out.deep_view() + (seq![cur@] + tail));
            }
            let ghost old_out = out.deep_view();
            let ghost old_cur = cur@;
            out.push(cur);
            cur = Vec::new();
            proof {
                assert(out.deep_view() =~~= old_out.push(old_cur));
            }
        } else {
            proof {
                // ts == seq![seq![gs[i]] + tail[0]] + tail.skip(1): the byte
                // extends the token under construction.
                assert(cur@ + ts[0] =~= cur@.push(gs[i as int]) + tail[0]);
                assert(ts.skip(1) =~= tail.skip(1));
                assert(stitch(cur@, ts) =~= stitch(cur@.push(gs[i as int]), tail));
            }
            cur.push(b);
        }
        i += 1;
    }
    proof {
        assert(gs.skip(i as int) =~= Seq::<u8>::empty());
        let ts = split_on(gs.skip(i as int), sep);
        assert(cur@ + ts[0] =~= cur@);
        assert(ts.skip(1) =~= Seq::<Seq<u8>>::empty());
        assert(stitch(cur@, ts) =~= seq![cur@]);
    }
    let ghost old_out = out.deep_view();
    let ghost old_cur = cur@;
    out.push(cur);
    proof {
        assert(out.deep_view() =~~= old_out.push(old_cur));
        assert(old_out.push(old_cur) =~= old_out + seq![old_cur]);
        assert(out.deep_view() =~= split_on(gs, sep));
    }
    out
}

/// Prepends `head` to the first token of `toks`.
pub open spec fn stitch(head: Seq<u8>, toks: Seq<Seq<u8>>) -> Seq<Seq<u8>> {
    seq![head + toks[0]] + toks.skip(1)
}

/// Byte-slice equality.
pub fn eq_bytes(a: &[u8], b: &[u8]) -> (r: bool)
    ensures
        r == (a@ == b@),
{
    if a.len() != b.len() {
        return false;
    }
    let mut i: usize = 0;
    while i < a.len()
        invariant
            a@.len() == b@.len(),
            0 <= i <= a@.len(),
            forall|j: int| 0 <= j < i ==> a@[j] == b@[j],
        decreases a@.len() - i,
    {
        if a[i] != b[i] {
            return false;
        }
        i += 1;
    }
    proof {
        assert(a@ =~= b@);
    }
    true
}

} // verus!
