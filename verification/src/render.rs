//! Output snapshots and their textual rendering.
//!
//! The final state of every account is reported as one line of
//! `client,available,held,total,locked`, each amount printed with exactly
//! four digits after the decimal point, rows in ascending client order.
//! `total` is a derived column: it is always `available + held`, computed
//! exactly in a wider integer so that it can never be misstated.

use vstd::prelude::*;
use crate::amount::Amount;
use crate::ledger::{AppState, ClientState};

verus! {

/// One output row: the snapshot of a single client account.
pub struct ClientOutputState {
    /// The client identifier.
    pub cid: u16,
    /// Funds the client may spend now.
    pub available: Amount,
    /// Funds frozen by active disputes.
    pub held: Amount,
    /// `available + held`, in raw ten-thousandths. Held in a wider integer
    /// than `Amount` so the sum is exact for every reachable pair.
    pub total: i128,
    /// Whether a chargeback has locked the account.
    pub locked: bool,
}

impl ClientOutputState {
    /// Snapshots one account. The derived `total` column is exactly
    /// `available + held`.
    pub fn from(input: &ClientState, cid: u16) -> (r: ClientOutputState)
        ensures
            r.cid == cid,
            r.available == input.available,
            r.held == input.held,
            r.total as int == input@.available + input@.held,
            r.locked == input.locked,
    {
        ClientOutputState {
            cid,
            available: input.available,
            held: input.held,
            total: input.available.raw() as i128 + input.held.raw() as i128,
            locked: input.locked,
        }
    }
}

/// The ASCII digit for `d` (with `0 <= d <= 9`).
pub open spec fn spec_digit(d: int) -> u8 {
    (48 + d) as u8
}

/// The shortest decimal digit string of `n`.
pub open spec fn spec_digits(n: nat) -> Seq<u8>
    decreases n,
{
    if n < 10 {
        seq![spec_digit(n as int)]
    } else {
        spec_digits(n / 10) + seq![spec_digit((n % 10) as int)]
    }
}

/// The four zero-padded fractional digits of `f` (with `0 <= f < 10000`).
pub open spec fn spec_frac4(f: int) -> Seq<u8> {
    seq![
        spec_digit(f / 1000 % 10),
        spec_digit(f / 100 % 10),
        spec_digit(f / 10 % 10),
        spec_digit(f % 10),
    ]
}

/// The decimal rendering of a raw amount `v` (in ten-thousandths): an
/// optional minus sign, the whole part, a point, and exactly four
/// fractional digits.
pub open spec fn spec_amount_bytes(v: int) -> Seq<u8> {
    let m = if v < 0 {
        -v
    } else {
        v
    };
    let sign: Seq<u8> = if v < 0 {
        seq![45u8]
    } else {
        Seq::empty()
    };
    sign + spec_digits((m / 10000) as nat) + seq![46u8] + spec_frac4(m % 10000)
}

/// The rendering of a boolean as `true` or `false`.
pub open spec fn spec_bool_bytes(b: bool) -> Seq<u8> {
    if b {
        seq![116u8, 114u8, 117u8, 101u8]
    } else {
        seq![102u8, 97u8, 108u8, 115u8, 101u8]
    }
}

/// One output line for a client: `cid,available,held,total,locked\n`,
/// where the total column is exactly `available + held`.
pub open spec fn spec_row_bytes(cid: u16, available: int, held: int, locked: bool) -> Seq<u8> {
    spec_digits(cid as nat) + seq![44u8] + spec_amount_bytes(available) + seq![44u8]
        + spec_amount_bytes(held) + seq![44u8] + spec_amount_bytes(available + held) + seq![44u8]
        + spec_bool_bytes(locked) + seq![10u8]
}

/// The header line `client,available,held,total,locked\n`.
pub open spec fn spec_header_bytes() -> Seq<u8> {
    seq![
        99u8, 108u8, 105u8, 101u8, 110u8, 116u8, 44u8, 97u8, 118u8, 97u8, 105u8, 108u8, 97u8,
        98u8, 108u8, 101u8, 44u8, 104u8, 101u8, 108u8, 100u8, 44u8, 116u8, 111u8, 116u8, 97u8,
        108u8, 44u8, 108u8, 111u8, 99u8, 107u8, 101u8, 100u8, 10u8,
    ]
}

/// Appends the decimal digits of `n`.
fn push_digits_u128(n: u128, out: &mut Vec<u8>)
    ensures
        final(out)@ == old(out)@ + spec_digits(n as nat),
    decreases n,
{
    if n >= 10 {
        push_digits_u128(n / 10, out);
    }
    let d: u8 = 48 + (n % 10) as u8;
    out.push(d);
    proof {
        assert(out@ =~= old(out)@ + spec_digits(n as nat));
    }
}

/// Appends the decimal rendering of the raw amount `v`.
fn push_amount_raw(v: i128, out: &mut Vec<u8>)
    ensures
        final(out)@ == old(out)@ + spec_amount_bytes(v as int),
{
    let m: u128 = if v < 0 {
        out.push(45);
        ((-(v + 1)) as u128) + 1
    } else {
        v as u128
    };
    proof {
        assert(m as int == (if (v as int) < 0 {
            -(v as int)
        } else {
            v as int
        }));
    }
    push_digits_u128(m / 10000, out);
    out.push(46);
    let f: u32 = (m % 10000) as u32;
    out.push(48 + (f / 1000) as u8);
    out.push(48 + (f / 100 % 10) as u8);
    out.push(48 + (f / 10 % 10) as u8);
    out.push(48 + (f % 10) as u8);
    proof {
        assert(out@ =~= old(out)@ + spec_amount_bytes(v as int));
    }
}

/// Appends the header line.
fn push_header(out: &mut Vec<u8>)
    ensures
        final(out)@ == old(out)@ + spec_header_bytes(),
{
    out.push(99);
    out.push(108);
    out.push(105);
    out.push(101);
    out.push(110);
    out.push(116);
    out.push(44);
    out.push(97);
    out.push(118);
    out.push(97);
    out.push(105);
    out.push(108);
    out.push(97);
    out.push(98);
    out.push(108);
    out.push(101);
    out.push(44);
    out.push(104);
    out.push(101);
    out.push(108);
    out.push(100);
    out.push(44);
    out.push(116);
    out.push(111);
    out.push(116);
    out.push(97);
    out.push(108);
    out.push(44);
    out.push(108);
    out.push(111);
    out.push(99);
    out.push(107);
    out.push(101);
    out.push(100);
    out.push(10);
    proof {
        assert(out@ =~= old(out)@ + spec_header_bytes());
    }
}

/// Appends one client's output line. The row must carry its derived total,
/// `available + held`, which [`ClientOutputState::from`] guarantees.
#[verifier::rlimit(50)]
pub fn render_row(row: &ClientOutputState, out: &mut Vec<u8>)
    requires
        row.total as int == row.available@ + row.held@,
    ensures
        final(out)@ == old(out)@ + spec_row_bytes(row.cid, row.available@, row.held@, row.locked),
{
    push_digits_u128(row.cid as u128, out);
    out.push(44);
    push_amount_raw(row.available.raw() as i128, out);
    out.push(44);
    push_amount_raw(row.held.raw() as i128, out);
    out.push(44);
    push_amount_raw(row.total, out);
    out.push(44);
    if row.locked {
        out.push(116);
        out.push(114);
        out.push(117);
        out.push(101);
    } else {
        out.push(102);
        out.push(97);
        out.push(108);
        out.push(115);
        out.push(101);
    }
    out.push(10);
    proof {
        assert(out@ =~= old(out)@ + spec_row_bytes(
            row.cid,
            row.available@,
            row.held@,
            row.locked,
        ));
    }
}

/// The output line that `app` owes for client `cid`.
pub open spec fn spec_client_row(app: AppState, cid: u16) -> Seq<u8> {
    spec_row_bytes(
        cid,
        app.client_view(cid).available,
        app.client_view(cid).held,
        app.client_view(cid).locked,
    )
}

/// The output lines that `app` owes for the clients listed in `ids`, in order.
pub open spec fn spec_rows(app: AppState, ids: Seq<u16>) -> Seq<u8>
    decreases ids.len(),
{
    if ids.len() == 0 {
        Seq::empty()
    } else {
        spec_client_row(app, ids[0]) + spec_rows(app, ids.drop_first())
    }
}

/// The whole output of the ledger: the header line, then one line per known
/// client in ascending client order.
pub open spec fn spec_output(app: AppState) -> Seq<u8> {
    spec_header_bytes() + spec_rows(app, app.client_ids@)
}

proof fn lemma_rows_snoc(app: AppState, ids: Seq<u16>, cid: u16)
    ensures
        spec_rows(app, ids.push(cid)) == spec_rows(app, ids) + spec_client_row(app, cid),
    decreases ids.len(),
{
    if ids.len() == 0 {
        let row = spec_client_row(app, cid);
        assert(ids.push(cid)[0] == cid);
        assert(ids.push(cid).drop_first() =~= Seq::<u16>::empty());
        assert(spec_rows(app, Seq::<u16>::empty()) == Seq::<u8>::empty());
        assert(spec_rows(app, ids.push(cid)) == row + Seq::<u8>::empty());
        assert(spec_rows(app, ids) == Seq::<u8>::empty());
        assert(row + Seq::<u8>::empty() =~= row);
        assert(Seq::<u8>::empty() + row =~= row);
    } else {
        let head = spec_client_row(app, ids[0]);
        let tail = ids.drop_first();
        assert(ids.push(cid)[0] == ids[0]);
        assert(ids.push(cid).drop_first() =~= tail.push(cid));
        lemma_rows_snoc(app, tail, cid);
        assert(spec_rows(app, ids.push(cid)) == head + (spec_rows(app, tail) + spec_client_row(
            app,
            cid,
        )));
        vstd::seq_lib::lemma_concat_associative(
            head,
            spec_rows(app, tail),
            spec_client_row(app, cid),
        );
    }
}

/// Renders the final state of every account, header line first, one line per
/// client in ascending client order.
pub fn render_output(app: &AppState) -> (out: Vec<u8>)
    requires
        app.wf(),
    ensures
        out@ == spec_output(*app),
{
    let mut out: Vec<u8> = Vec::new();
    push_header(&mut out);
    let ghost ids = app.client_ids@;
    let mut i: usize = 0;
    while i < app.client_ids.len()
        invariant
            app.wf(),
            ids == app.client_ids@,
            i <= ids.len(),
            out@ == spec_header_bytes() + spec_rows(*app, ids.subrange(0, i as int)),
        decreases ids.len() - i,
    {
        let cid = app.client_ids[i];
        proof {
            assert(ids.contains(cid));
            assert(app.clients@.contains_key(cid));
        }
        let ghost prefix = ids.subrange(0, i as int);
        match app.clients.get(&cid) {
            Some(st) => {
                let row = ClientOutputState::from(st, cid);
                render_row(&row, &mut out);
            },
            None => {
                proof {
                    assert(false);
                }
            },
        }
        i += 1;
        proof {
            assert(ids.subrange(0, i as int) =~= prefix.push(cid));
            lemma_rows_snoc(*app, prefix, cid);
            assert(out@ =~= spec_header_bytes() + spec_rows(*app, ids.subrange(0, i as int)));
        }
    }
    proof {
        assert(ids.subrange(0, ids.len() as int) =~= ids);
    }
    out
}

} // verus!
