//! Decoding of row fields handed over by the input adapter.
//!
//! The input is a comma-separated row `type,client,tx,amount`. Splitting the
//! row and reading the two integer identifiers is the external decoder's
//! business; the two fields with semantics of their own are decoded here:
//! the transaction-type name (one of five, case-insensitive) and the decimal
//! amount string, which must be read exactly, with no binary rounding.

use vstd::prelude::*;
use crate::amount::{Amount, amount_in_range};
use crate::tx::{Tx, TxType};

verus! {

/// ASCII upper-case letters folded to lower case; all else unchanged.
pub open spec fn spec_lower(b: u8) -> u8 {
    if 65 <= b <= 90 {
        (b + 32) as u8
    } else {
        b
    }
}

/// A byte string folded to lower case.
pub open spec fn spec_lower_seq(s: Seq<u8>) -> Seq<u8> {
    s.map_values(|b: u8| spec_lower(b))
}

/// The bytes of `deposit`.
pub open spec fn spec_kw_deposit() -> Seq<u8> {
    seq![100u8, 101u8, 112u8, 111u8, 115u8, 105u8, 116u8]
}

/// The bytes of `withdrawal`.
pub open spec fn spec_kw_withdrawal() -> Seq<u8> {
    seq![119u8, 105u8, 116u8, 104u8, 100u8, 114u8, 97u8, 119u8, 97u8, 108u8]
}

/// The bytes of `dispute`.
pub open spec fn spec_kw_dispute() -> Seq<u8> {
    seq![100u8, 105u8, 115u8, 112u8, 117u8, 116u8, 101u8]
}

/// The bytes of `resolve`.
pub open spec fn spec_kw_resolve() -> Seq<u8> {
    seq![114u8, 101u8, 115u8, 111u8, 108u8, 118u8, 101u8]
}

/// The bytes of `chargeback`.
pub open spec fn spec_kw_chargeback() -> Seq<u8> {
    seq![99u8, 104u8, 97u8, 114u8, 103u8, 101u8, 98u8, 97u8, 99u8, 107u8]
}

/// Which transaction type a type field names: its case-folded bytes must be
/// exactly one of the five keywords.
pub open spec fn spec_tx_type(s: Seq<u8>) -> Option<TxType> {
    let l = spec_lower_seq(s);
    if l == spec_kw_deposit() {
        Some(TxType::Deposit)
    } else if l == spec_kw_withdrawal() {
        Some(TxType::Withdrawal)
    } else if l == spec_kw_dispute() {
        Some(TxType::Dispute)
    } else if l == spec_kw_resolve() {
        Some(TxType::Resolve)
    } else if l == spec_kw_chargeback() {
        Some(TxType::ChargeBack)
    } else {
        None
    }
}

/// Whether `b` is an ASCII digit.
pub open spec fn spec_is_digit(b: u8) -> bool {
    48 <= b <= 57
}

/// The numeric value of a digit byte.
pub open spec fn spec_digit_val(b: u8) -> int {
    b - 48
}

/// Whether every byte of `s` is a digit.
pub open spec fn spec_all_digits(s: Seq<u8>) -> bool {
    forall|i: int| 0 <= i < s.len() ==> spec_is_digit(#[trigger] s[i])
}

/// The value of a digit string, most significant digit first.
pub open spec fn spec_digits_val(s: Seq<u8>) -> int
    decreases s.len(),
{
    if s.len() == 0 {
        0
    } else {
        spec_digits_val(s.drop_last()) * 10 + spec_digit_val(s.last())
    }
}

/// The index of the first `.` in `s`, or `s.len()` if there is none.
pub open spec fn spec_dot_index(s: Seq<u8>) -> int
    decreases s.len(),
{
    if s.len() == 0 {
        0
    } else if s[0] == 46 {
        0
    } else {
        1 + spec_dot_index(s.drop_first())
    }
}

/// Ten to the power `k` (one for `k <= 0`).
pub open spec fn spec_pow10(k: int) -> int
    decreases k,
{
    if k <= 0 {
        1
    } else {
        10 * spec_pow10(k - 1)
    }
}

/// An unsigned amount literal: one to eighteen whole digits, optionally
/// followed by a point and one to four fractional digits. Eighteen whole
/// digits are more than any amount in the representable range ever needs.
pub open spec fn spec_body_valid(s: Seq<u8>) -> bool {
    let d = spec_dot_index(s);
    &&& 1 <= d <= 18
    &&& spec_all_digits(s.subrange(0, d))
    &&& (d < s.len() ==> {
        let fr = s.subrange(d + 1, s.len() as int);
        1 <= fr.len() <= 4 && spec_all_digits(fr)
    })
}

/// The raw (ten-thousandths) magnitude of a valid unsigned amount literal:
/// the whole part scaled up, plus the fractional digits padded to four.
pub open spec fn spec_body_value(s: Seq<u8>) -> int {
    let d = spec_dot_index(s);
    let fr = if d < s.len() {
        s.subrange(d + 1, s.len() as int)
    } else {
        Seq::<u8>::empty()
    };
    spec_digits_val(s.subrange(0, d)) * 10000 + spec_digits_val(fr) * spec_pow10(4 - fr.len())
}

/// The exact raw value named by an amount field: an optional minus sign
/// before an unsigned amount literal, provided the value fits `Amount`.
pub open spec fn spec_parse_amount(s: Seq<u8>) -> Option<int> {
    let neg = s.len() > 0 && s[0] == 45;
    let body = if neg {
        s.drop_first()
    } else {
        s
    };
    if spec_body_valid(body) {
        let v = if neg {
            -spec_body_value(body)
        } else {
            spec_body_value(body)
        };
        if amount_in_range(v) {
            Some(v)
        } else {
            None
        }
    } else {
        None
    }
}

proof fn lemma_dot_index_props(s: Seq<u8>)
    ensures
        0 <= spec_dot_index(s) <= s.len(),
        spec_dot_index(s) < s.len() ==> s[spec_dot_index(s)] == 46,
        forall|i: int| 0 <= i < spec_dot_index(s) ==> s[i] != 46,
    decreases s.len(),
{
    if s.len() == 0 {
    } else if s[0] == 46 {
    } else {
        lemma_dot_index_props(s.drop_first());
        assert forall|i: int| 0 <= i < spec_dot_index(s) implies s[i] != 46 by {
            if i > 0 {
                assert(s.drop_first()[i - 1] != 46);
            }
        }
    }
}

/// Folds one byte to lower case.
fn lower(b: u8) -> (r: u8)
    ensures
        r == spec_lower(b),
{
    if 65 <= b && b <= 90 {
        b + 32
    } else {
        b
    }
}

/// Folds a byte string to lower case.
fn lower_bytes(s: &[u8]) -> (r: Vec<u8>)
    ensures
        r@ == spec_lower_seq(s@),
{
    let mut r: Vec<u8> = Vec::new();
    let mut i: usize = 0;
    while i < s.len()
        invariant
            i <= s@.len(),
            r@ == spec_lower_seq(s@.subrange(0, i as int)),
        decreases s@.len() - i,
    {
        r.push(lower(s[i]));
        i += 1;
        proof {
            assert(r@ =~= spec_lower_seq(s@.subrange(0, i as int)));
        }
    }
    proof {
        assert(s@.subrange(0, s@.len() as int) =~= s@);
    }
    r
}

fn eq_kw_deposit(l: &Vec<u8>) -> (r: bool)
    ensures
        r == (l@ == spec_kw_deposit()),
{
    let r = l.len() == 7 && l[0] == 100 && l[1] == 101 && l[2] == 112 && l[3] == 111 && l[4]
        == 115 && l[5] == 105 && l[6] == 116;
    proof {
        if r {
            assert(l@ =~= spec_kw_deposit());
        }
    }
    r
}

fn eq_kw_withdrawal(l: &Vec<u8>) -> (r: bool)
    ensures
        r == (l@ == spec_kw_withdrawal()),
{
    let r = l.len() == 10 && l[0] == 119 && l[1] == 105 && l[2] == 116 && l[3] == 104 && l[4]
        == 100 && l[5] == 114 && l[6] == 97 && l[7] == 119 && l[8] == 97 && l[9] == 108;
    proof {
        if r {
            assert(l@ =~= spec_kw_withdrawal());
        }
    }
    r
}

fn eq_kw_dispute(l: &Vec<u8>) -> (r: bool)
    ensures
        r == (l@ == spec_kw_dispute()),
{
    let r = l.len() == 7 && l[0] == 100 && l[1] == 105 && l[2] == 115 && l[3] == 112 && l[4]
        == 117 && l[5] == 116 && l[6] == 101;
    proof {
        if r {
            assert(l@ =~= spec_kw_dispute());
        }
    }
    r
}

fn eq_kw_resolve(l: &Vec<u8>) -> (r: bool)
    ensures
        r == (l@ == spec_kw_resolve()),
{
    let r = l.len() == 7 && l[0] == 114 && l[1] == 101 && l[2] == 115 && l[3] == 111 && l[4]
        == 108 && l[5] == 118 && l[6] == 101;
    proof {
        if r {
            assert(l@ =~= spec_kw_resolve());
        }
    }
    r
}

fn eq_kw_chargeback(l: &Vec<u8>) -> (r: bool)
    ensures
        r == (l@ == spec_kw_chargeback()),
{
    let r = l.len() == 10 && l[0] == 99 && l[1] == 104 && l[2] == 97 && l[3] == 114 && l[4] == 103
        && l[5] == 101 && l[6] == 98 && l[7] == 97 && l[8] == 99 && l[9] == 107;
    proof {
        if r {
            assert(l@ =~= spec_kw_chargeback());
        }
    }
    r
}

/// Decodes a type field: one of the five transaction-type names, matched
/// without regard to ASCII case. Anything else is `None`.
pub fn parse_tx_type(s: &[u8]) -> (r: Option<TxType>)
    ensures
        r == spec_tx_type(s@),
{
    let l = lower_bytes(s);
    if eq_kw_deposit(&l) {
        Some(TxType::Deposit)
    } else if eq_kw_withdrawal(&l) {
        Some(TxType::Withdrawal)
    } else if eq_kw_dispute(&l) {
        Some(TxType::Dispute)
    } else if eq_kw_resolve(&l) {
        Some(TxType::Resolve)
    } else if eq_kw_chargeback(&l) {
        Some(TxType::ChargeBack)
    } else {
        None
    }
}

proof fn lemma_pow10_pos(k: int)
    ensures
        spec_pow10(k) >= 1,
    decreases (if k > 0 {
        k
    } else {
        0
    }),
{
    if k > 0 {
        lemma_pow10_pos(k - 1);
    }
}

proof fn lemma_pow10_mono(a: int, b: int)
    requires
        a <= b,
    ensures
        1 <= spec_pow10(a) <= spec_pow10(b),
    decreases b - a,
{
    lemma_pow10_pos(a);
    if a < b {
        lemma_pow10_mono(a, b - 1);
        lemma_pow10_pos(b - 1);
    }
}

/// Applies the sign and the range check to a decoded magnitude.
fn finish_amount(neg: bool, raw_mag: u128) -> (r: Option<Amount>)
    ensures
        ({
            let v = if neg {
                -(raw_mag as int)
            } else {
                raw_mag as int
            };
            &&& amount_in_range(v) ==> (r matches Some(a) && a@ == v)
            &&& !amount_in_range(v) ==> r is None
        }),
{
    if !neg {
        if raw_mag > 9223372036854775807u128 {
            None
        } else {
            Some(Amount::from_raw(raw_mag as i64))
        }
    } else {
        if raw_mag > 9223372036854775808u128 {
            None
        } else if raw_mag == 9223372036854775808u128 {
            Some(Amount::from_raw(i64::MIN))
        } else {
            Some(Amount::from_raw(-(raw_mag as i64)))
        }
    }
}

/// Decodes an amount field: an optional minus sign, one to eighteen whole
/// digits, and optionally a point with one to four fractional digits, read
/// exactly. `None` when the field is not such a literal or its value does
/// not fit `Amount`.
#[verifier::loop_isolation(false)]
#[verifier::rlimit(100)]
pub fn parse_amount(s: &[u8]) -> (r: Option<Amount>)
    ensures
        spec_parse_amount(s@) matches Some(v) ==> (r matches Some(a) && a@ == v),
        spec_parse_amount(s@) is None ==> r is None,
{
    let n = s.len();
    let neg = n > 0 && s[0] == 45;
    let start: usize = if neg {
        1
    } else {
        0
    };
    let ghost body = if neg {
        s@.drop_first()
    } else {
        s@
    };
    proof {
        assert(body =~= s@.subrange(start as int, n as int));
        lemma_dot_index_props(body);
    }
    let ghost d = spec_dot_index(body);

    // the whole part: a run of up to eighteen digits
    let mut j: usize = start;
    let mut whole: u64 = 0;
    while j < n && 48 <= s[j] && s[j] <= 57
        invariant
            start <= j <= n,
            j - start <= 18,
            spec_all_digits(s@.subrange(start as int, j as int)),
            whole == spec_digits_val(s@.subrange(start as int, j as int)),
            whole < spec_pow10(j - start),
        decreases n - j,
    {
        if j - start == 18 {
            proof {
                assert(body.len() >= 19);
                if d <= 18 {
                    assert(body[d] == 46);
                    assert(body[d] == s@[start + d]);
                    assert(spec_is_digit(s@[start + d]));
                    assert(false);
                }
                assert(!spec_body_valid(body));
            }
            return None;
        }
        proof {
            lemma_pow10_mono(j - start, 17);
            reveal_with_fuel(spec_pow10, 19);
            assert(spec_pow10(17) == 100000000000000000);
        }
        let dgt = s[j] - 48;
        whole = whole * 10 + dgt as u64;
        j += 1;
        proof {
            let pre = s@.subrange(start as int, j - 1);
            let cur = s@.subrange(start as int, j as int);
            assert(cur.drop_last() =~= pre);
            assert(cur.last() == s@[j - 1]);
            assert forall|i: int| 0 <= i < cur.len() implies spec_is_digit(cur[i]) by {
                if i < pre.len() {
                    assert(cur[i] == pre[i]);
                }
            }
        }
    }
    if j == start {
        proof {
            if body.len() > 0 && body[0] != 46 {
                assert(d >= 1);
                assert(body.subrange(0, d)[0] == body[0]);
                assert(body[0] == s@[start as int]);
                assert(!spec_is_digit(body[0]));
            }
            assert(!spec_body_valid(body));
        }
        return None;
    }
    proof {
        // the run of digits ends at the first dot, if any
        assert forall|i: int| 0 <= i < j - start implies body[i] != 46 by {
            assert(body[i] == s@[start + i]);
            assert(spec_is_digit(s@[start + i]));
        }
        if d < j - start {
            assert(body[d] == 46);
            assert(false);
        }
    }
    if j == n {
        // a whole number with no fractional part
        proof {
            assert(d <= body.len());
            if d < body.len() {
                assert(body[d] == 46);
                assert(body[d] == s@[start + d]);
                assert(spec_is_digit(s@[start + d]));
                assert(false);
            }
            assert(body.subrange(0, d) =~= s@.subrange(start as int, j as int));
            assert(spec_body_valid(body));
            reveal_with_fuel(spec_pow10, 6);
            assert(spec_digits_val(Seq::<u8>::empty()) == 0);
            assert(spec_body_value(body) == whole * 10000);
            lemma_pow10_mono(j - start, 18);
            reveal_with_fuel(spec_pow10, 20);
            assert(spec_pow10(18) == 1000000000000000000);
        }
        let raw_mag: u128 = (whole as u128) * 10000;
        return finish_amount(neg, raw_mag);
    }
    if s[j] != 46 {
        // the whole part ends at a byte that is neither digit nor dot
        proof {
            assert(d > j - start);
            assert(body.subrange(0, d)[j - start] == body[j - start]);
            assert(body[j - start] == s@[j as int]);
            assert(!spec_is_digit(body[j - start]));
            assert(!spec_body_valid(body));
        }
        return None;
    }
    proof {
        assert(body[j - start] == 46);
        if d > j - start {
            assert(body[j - start] != 46);
            assert(false);
        }
        assert(d == j - start);
        assert(1 <= d <= 18);
    }
    // the fractional part: one to four digits after the dot
    let fstart = j + 1;
    let ghost fr = body.subrange(d + 1, body.len() as int);
    proof {
        assert(fr =~= s@.subrange(fstart as int, n as int));
    }
    let mut k: usize = fstart;
    let mut frac: u32 = 0;
    while k < n && 48 <= s[k] && s[k] <= 57
        invariant
            fstart <= k <= n,
            k - fstart <= 4,
            spec_all_digits(s@.subrange(fstart as int, k as int)),
            frac == spec_digits_val(s@.subrange(fstart as int, k as int)),
            frac < spec_pow10(k - fstart),
        decreases n - k,
    {
        if k - fstart == 4 {
            proof {
                assert(fr.len() >= 5);
                assert(!spec_body_valid(body));
            }
            return None;
        }
        proof {
            lemma_pow10_mono(k - fstart, 3);
            reveal_with_fuel(spec_pow10, 6);
        }
        let dgt = s[k] - 48;
        frac = frac * 10 + dgt as u32;
        k += 1;
        proof {
            let pre = s@.subrange(fstart as int, k - 1);
            let cur = s@.subrange(fstart as int, k as int);
            assert(cur.drop_last() =~= pre);
            assert(cur.last() == s@[k - 1]);
            assert forall|i: int| 0 <= i < cur.len() implies spec_is_digit(cur[i]) by {
                if i < pre.len() {
                    assert(cur[i] == pre[i]);
                }
            }
        }
    }
    if k < n {
        // a byte in the fractional part is not a digit
        proof {
            assert(fr[k - fstart] == s@[k as int]);
            assert(!spec_is_digit(fr[k - fstart]));
            assert(!spec_body_valid(body));
        }
        return None;
    }
    if k == fstart {
        // a dot with no digits after it
        proof {
            assert(fr.len() == 0);
            assert(!spec_body_valid(body));
        }
        return None;
    }
    let flen = k - fstart;
    let scale: u32 = if flen == 1 {
        1000
    } else if flen == 2 {
        100
    } else if flen == 3 {
        10
    } else {
        1
    };
    proof {
        reveal_with_fuel(spec_pow10, 6);
        assert(scale == spec_pow10(4 - flen));
        assert(fr =~= s@.subrange(fstart as int, k as int));
        assert(frac == spec_digits_val(fr));
        if flen == 1 {
            assert(frac < 10);
        } else if flen == 2 {
            assert(frac < 100);
        } else if flen == 3 {
            assert(frac < 1000);
        } else {
            assert(frac < 10000);
        }
        assert(frac * scale < 10000);
        assert(body.subrange(0, d) =~= s@.subrange(start as int, j as int));
        assert(spec_body_valid(body));
        assert(spec_body_value(body) == whole * 10000 + frac * scale);
        lemma_pow10_mono(j - start, 18);
        reveal_with_fuel(spec_pow10, 20);
        assert(spec_pow10(18) == 1000000000000000000);
    }
    let raw_mag: u128 = (whole as u128) * 10000 + (frac as u128) * (scale as u128);
    finish_amount(neg, raw_mag)
}

/// Decodes one input row from its already-split fields. `None` means the
/// row is malformed — an unknown type name or a bad amount literal — which
/// tells the caller to stop ingesting further rows. A missing amount field
/// becomes a zero amount, as for dispute, resolve and chargeback rows.
pub fn decode_row(ty: &[u8], cid: u16, tid: u32, amount: Option<&[u8]>) -> (r: Option<Tx>)
    ensures
        spec_tx_type(ty@) is None ==> r is None,
        ({
            match (spec_tx_type(ty@), amount) {
                (Some(t), None) => r matches Some(tx) && tx.tx_type == t && tx.cid == cid
                    && tx.tid == tid && tx.amount@ == 0,
                (Some(t), Some(af)) => match spec_parse_amount(af@) {
                    Some(v) => r matches Some(tx) && tx.tx_type == t && tx.cid == cid && tx.tid
                        == tid && tx.amount@ == v,
                    None => r is None,
                },
                (None, _) => r is None,
            }
        }),
{
    let ty = match parse_tx_type(ty) {
        Some(ty) => ty,
        None => {
            return None;
        },
    };
    let amount = match amount {
        Some(field) => {
            match parse_amount(field) {
                Some(a) => Some(a),
                None => {
                    return None;
                },
            }
        },
        None => None,
    };
    Some(Tx::from_parts(ty, cid, tid, amount))
}

} // verus!
