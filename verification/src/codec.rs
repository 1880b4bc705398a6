//! The wire format of the control plane: each request is one JSON object
//! with a discriminant field naming the variant and fields carrying its
//! payload, written canonically (no whitespace, fixed key order). The
//! encoders are specified byte for byte, the decoder is specified as a
//! parser of that grammar, and decoding an encoded request is proved to give
//! the request back.

use vstd::prelude::*;
use crate::protocol::{node_view, query_view, record_view, InstancesQuery, Origin, RuntimesQuery, SpecInstancesQuery, SpecNode, SpecRecord};
use crate::record::{DataFlowRecord, Link, NodeDesc, NodeKind, PortDesc};

verus! {

pub open spec fn is_digit(c: u8) -> bool {
    48 <= c && c <= 57
}

/// The decimal digits of `n`, most significant first.
pub open spec fn dec_digits(n: nat) -> Seq<u8>
    decreases n,
{
    if n < 10 {
        seq![(48 + n) as u8]
    } else {
        dec_digits(n / 10).push((48 + n % 10) as u8)
    }
}

/// The canonical encoding of a number: its decimal digits.
pub open spec fn enc_u64(v: u64) -> Seq<u8> {
    dec_digits(v as nat)
}

pub proof fn lemma_dec_digits_are_digits(n: nat)
    ensures
        dec_digits(n).len() >= 1,
        forall|k: int| 0 <= k < dec_digits(n).len() ==> is_digit(#[trigger] dec_digits(n)[k]),
    decreases n,
{
    if n >= 10 {
        lemma_dec_digits_are_digits(n / 10);
    }
}

/// Where the run of decimal digits beginning at `i` ends.
pub open spec fn digit_run_end(b: Seq<u8>, i: int) -> int
    decreases b.len() - i,
{
    if i < b.len() && is_digit(b[i]) {
        digit_run_end(b, i + 1)
    } else {
        i
    }
}

/// The value of the digits `b[i .. j)`, read in base ten.
pub open spec fn digits_val(b: Seq<u8>, i: int, j: int) -> nat
    decreases j - i,
{
    if i < j {
        (digits_val(b, i, j - 1) * 10 + (b[j - 1] as int - 48)) as nat
    } else {
        0
    }
}

/// Parses a number at `i`: the longest digit run, rejected when empty or
/// when its value does not fit in a `u64`.
pub open spec fn sp_u64(b: Seq<u8>, i: int) -> Option<(u64, int)> {
    let j = digit_run_end(b, i);
    if i < j && digits_val(b, i, j) <= u64::MAX {
        Some(((digits_val(b, i, j) as u64), j))
    } else {
        None
    }
}

pub proof fn lemma_digit_run_end_bounds(b: Seq<u8>, i: int)
    requires
        0 <= i <= b.len(),
    ensures
        i <= digit_run_end(b, i) <= b.len(),
        forall|k: int| i <= k < digit_run_end(b, i) ==> is_digit(b[k]),
        digit_run_end(b, i) == b.len() || !is_digit(b[digit_run_end(b, i)]),
    decreases b.len() - i,
{
    if i < b.len() && is_digit(b[i]) {
        lemma_digit_run_end_bounds(b, i + 1);
    }
}

pub proof fn lemma_digit_run_end_exact(b: Seq<u8>, i: int, j: int)
    requires
        0 <= i <= j <= b.len(),
        forall|k: int| i <= k < j ==> is_digit(b[k]),
        j == b.len() || !is_digit(b[j]),
    ensures
        digit_run_end(b, i) == j,
    decreases j - i,
{
    if i < j {
        lemma_digit_run_end_exact(b, i + 1, j);
    }
}

pub proof fn lemma_digits_val_of_enc(b: Seq<u8>, i: int, v: u64)
    requires
        0 <= i,
        i + enc_u64(v).len() <= b.len(),
        b.subrange(i, i + enc_u64(v).len()) == enc_u64(v),
    ensures
        digits_val(b, i, i + enc_u64(v).len()) == v,
    decreases v,
{
    let e = enc_u64(v);
    let j = i + e.len();
    if v < 10 {
        assert(b.subrange(i, j)[0] == e[0]);
        assert(b[i] == e[0]);
        assert(digits_val(b, i, i) == 0);
        assert(digits_val(b, i, j) == ((b[i] as int - 48)) as nat);
    } else {
        let e2 = enc_u64(v / 10);
        assert(e == e2.push((48 + (v as nat) % 10) as u8));
        assert(b.subrange(i, i + e2.len() as int) =~= e2) by {
            assert(forall|k: int|
                0 <= k < e2.len() ==> b.subrange(i, i + e.len() as int)[k] == #[trigger] e2[k]);
        }
        lemma_digits_val_of_enc(b, i, v / 10);
        assert(b[j - 1] == e[e.len() - 1]);
        assert(digits_val(b, i, j) == (digits_val(b, i, j - 1) * 10 + (b[j - 1] as int - 48)) as nat);
        assert(v as nat == (v as nat / 10) * 10 + (v as nat) % 10);
    }
}

/// Parsing at a position where an encoded number sits, with no digit
/// directly after it, yields that number.
pub proof fn lemma_sp_u64_at(b: Seq<u8>, i: int, v: u64)
    requires
        0 <= i,
        i + enc_u64(v).len() <= b.len(),
        b.subrange(i, i + enc_u64(v).len()) == enc_u64(v),
        i + enc_u64(v).len() == b.len() || !is_digit(b[i + enc_u64(v).len()]),
    ensures
        sp_u64(b, i) == Some((v, i + enc_u64(v).len())),
{
    let e = enc_u64(v);
    let j = i + e.len();
    lemma_dec_digits_are_digits(v as nat);
    assert forall|k: int| i <= k < j implies is_digit(b[k]) by {
        assert(b[k] == b.subrange(i, j)[k - i]);
    }
    lemma_digit_run_end_exact(b, i, j);
    lemma_digits_val_of_enc(b, i, v);
    assert(e.len() >= 1);
}

/// Appends the decimal digits of `v` to `out`.
pub fn push_u64(out: &mut Vec<u8>, v: u64)
    ensures
        final(out)@ == old(out)@ + enc_u64(v),
{
    let mut tmp: Vec<u8> = Vec::new();
    let mut cur: u64 = v;
    while cur > 0
        invariant
            if cur > 0 {
                dec_digits(v as nat) == dec_digits(cur as nat) + tmp@.reverse()
            } else {
                v == 0 || dec_digits(v as nat) == tmp@.reverse()
            },
            v == 0 ==> tmp@.len() == 0 && cur == 0,
        decreases cur,
    {
        let d: u8 = (cur % 10) as u8;
        let next: u64 = cur / 10;
        tmp.push(48 + d);
        proof {
            assert(tmp@.reverse() =~= seq![(48 + (cur as nat) % 10) as u8]
                + tmp@.subrange(0, tmp@.len() - 1).reverse());
            if next > 0 {
                assert(dec_digits(cur as nat) == dec_digits((cur as nat) / 10).push(
                    (48 + (cur as nat) % 10) as u8,
                ));
                assert(dec_digits(v as nat) =~= dec_digits(next as nat) + tmp@.reverse());
            } else {
                assert(cur < 10);
                assert(dec_digits(cur as nat) =~= seq![(48 + (cur as nat)) as u8]);
                if cur != v {
                    assert(dec_digits(v as nat) =~= tmp@.reverse());
                } else {
                    assert(dec_digits(v as nat) =~= tmp@.reverse());
                }
            }
        }
        cur = next;
    }
    if tmp.len() == 0 {
        proof {
            if v != 0 {
                lemma_dec_digits_are_digits(v as nat);
                assert(tmp@.reverse().len() == 0);
                assert(false);
            }
        }
        out.push(48);
        proof {
            assert(enc_u64(0) =~= seq![48u8]);
            assert(out@ =~= old(out)@ + enc_u64(v));
        }
    } else {
        let mut k = tmp.len();
        while k > 0
            invariant
                k <= tmp@.len(),
                out@ == old(out)@ + tmp@.reverse().take(tmp@.len() - k),
            decreases k,
        {
            k = k - 1;
            out.push(tmp[k]);
            proof {
                assert(tmp@.reverse()[tmp@.len() - k - 1] == tmp@[k as int]);
                assert(out@ =~= old(out)@ + tmp@.reverse().take(tmp@.len() - k));
            }
        }
        proof {
            assert(tmp@.reverse().take(tmp@.len() as int) =~= tmp@.reverse());
            if v > 0 {
                assert(dec_digits(v as nat) == tmp@.reverse());
            } else {
                assert(tmp@.len() == 0);
            }
            assert(out@ == old(out)@ + enc_u64(v));
        }
    }
}

/// Reads a number at `i` as `sp_u64` describes.
pub fn parse_u64(b: &[u8], i: usize) -> (r: Option<(u64, usize)>)
    requires
        i <= b@.len(),
    ensures
        match r {
            Some((v, j)) => sp_u64(b@, i as int) == Some((v, j as int)) && i < j <= b@.len(),
            None => sp_u64(b@, i as int) is None,
        },
{
    let n = b.len();
    let mut j = i;
    let mut acc: u64 = 0;
    let mut over: bool = false;
    while j < n && 48 <= b[j] && b[j] <= 57
        invariant
            i <= j <= n,
            n == b@.len(),
            digit_run_end(b@, i as int) == digit_run_end(b@, j as int),
            !over ==> acc as nat == digits_val(b@, i as int, j as int),
            over ==> digits_val(b@, i as int, j as int) > u64::MAX,
        decreases n - j,
    {
        let d: u8 = b[j] - 48;
        proof {
            assert(digit_run_end(b@, j as int) == digit_run_end(b@, j + 1));
            assert(digits_val(b@, i as int, j + 1) == (digits_val(b@, i as int, j as int) * 10 + (
            b@[j as int] as int - 48)) as nat);
        }
        if !over {
            if acc > (u64::MAX - (d as u64)) / 10 {
                over = true;
                proof {
                    assert(digits_val(b@, i as int, j + 1) > u64::MAX) by (nonlinear_arith)
                        requires
                            digits_val(b@, i as int, j + 1) == (digits_val(b@, i as int, j as int)
                                * 10 + (b@[j as int] as int - 48)) as nat,
                            acc as nat == digits_val(b@, i as int, j as int),
                            d == b@[j as int] - 48,
                            b@[j as int] >= 48,
                            acc > (u64::MAX - (d as u64)) / 10,
                    ;
                }
            } else {
                proof {
                    assert(acc * 10 + d <= u64::MAX) by (nonlinear_arith)
                        requires
                            acc <= (u64::MAX - (d as u64)) / 10,
                            d < 10,
                    ;
                }
                acc = acc * 10 + (d as u64);
            }
        } else {
            proof {
                assert(digits_val(b@, i as int, j + 1) > u64::MAX) by (nonlinear_arith)
                    requires
                        digits_val(b@, i as int, j + 1) == (digits_val(b@, i as int, j as int) * 10
                            + (b@[j as int] as int - 48)) as nat,
                        digits_val(b@, i as int, j as int) > u64::MAX,
                        b@[j as int] >= 48,
                ;
            }
        }
        j = j + 1;
    }
    proof {
        assert(digit_run_end(b@, j as int) == j as int);
    }
    if j == i || over {
        None
    } else {
        Some((acc, j))
    }
}

// ---------------------------------------------------------------------------
// Fixed byte sequences of the grammar: object heads, keys and punctuation.
// ---------------------------------------------------------------------------

/// `sp_lit` consumes one fixed byte sequence of the grammar.
pub open spec fn sp_lit(b: Seq<u8>, i: int, lit: Seq<u8>) -> Option<int> {
    if 0 <= i && i + lit.len() <= b.len() && b.subrange(i, i + lit.len()) == lit {
        Some(i + lit.len())
    } else {
        None
    }
}

/// A fixed byte sequence standing in `b` cannot be read as another one that
/// differs from it at index `d`.
pub proof fn lemma_lit_mismatch(b: Seq<u8>, i: int, lit1: Seq<u8>, lit2: Seq<u8>, d: int)
    requires
        0 <= i,
        i + lit2.len() <= b.len(),
        b.subrange(i, i + lit2.len()) == lit2,
        0 <= d < lit1.len(),
        d < lit2.len(),
        lit1[d] != lit2[d],
    ensures
        sp_lit(b, i, lit1) is None,
{
    if i + lit1.len() <= b.len() && b.subrange(i, i + lit1.len()) == lit1 {
        assert(b[i + d] == b.subrange(i, i + lit1.len() as int)[d]);
        assert(b[i + d] == b.subrange(i, i + lit2.len() as int)[d]);
        assert(false);
    }
}

/// Appends a fixed byte sequence to `out`.
pub fn push_lit(out: &mut Vec<u8>, lit: &[u8])
    ensures
        final(out)@ == old(out)@ + lit@,
{
    let n = lit.len();
    let mut k: usize = 0;
    while k < n
        invariant
            k <= n,
            n == lit@.len(),
            out@ == old(out)@ + lit@.take(k as int),
        decreases n - k,
    {
        out.push(lit[k]);
        k = k + 1;
        proof {
            assert(out@ =~= old(out)@ + lit@.take(k as int));
        }
    }
    proof {
        assert(lit@.take(n as int) =~= lit@);
    }
}

/// Reads a fixed byte sequence at `i` as `sp_lit` describes.
pub fn eat_lit(b: &[u8], i: usize, lit: &[u8]) -> (r: Option<usize>)
    requires
        i <= b@.len(),
    ensures
        match r {
            Some(j) => sp_lit(b@, i as int, lit@) == Some(j as int) && i as int + lit@.len()
                == j as int && j <= b@.len(),
            None => sp_lit(b@, i as int, lit@) is None,
        },
{
    let n = lit.len();
    let bn = b.len();
    if bn - i < n {
        return None;
    }
    let mut k: usize = 0;
    while k < n
        invariant
            k <= n,
            n == lit@.len(),
            bn == b@.len(),
            i + n <= bn,
            forall|m: int| 0 <= m < k ==> b@[i + m] == lit@[m],
        decreases n - k,
    {
        if b[i + k] != lit[k] {
            proof {
                if b@.subrange(i as int, i + n) == lit@ {
                    assert(b@[i + k] == b@.subrange(i as int, i + n)[k as int]);
                    assert(false);
                }
            }
            return None;
        }
        k = k + 1;
    }
    proof {
        assert(b@.subrange(i as int, i + n) =~= lit@);
    }
    Some(i + n)
}

/// The bytes of `{"query":"create","origin":`.
pub open spec fn lit_h_create() -> Seq<u8> {
    seq![123u8, 34, 113, 117, 101, 114, 121, 34, 58, 34, 99, 114, 101, 97, 116, 101, 34, 44, 34, 111, 114, 105, 103, 105, 110, 34, 58]
}

fn arr_h_create() -> (v: [u8; 27])
    ensures
        v@ == lit_h_create(),
{
    let a: [u8; 27] = [123, 34, 113, 117, 101, 114, 121, 34, 58, 34, 99, 114, 101, 97, 116, 101, 34, 44, 34, 111, 114, 105, 103, 105, 110, 34, 58];
    proof {
        assert(a@ =~= lit_h_create());
    }
    a
}

/// The bytes of `{"query":"start","origin":`.
pub open spec fn lit_h_start() -> Seq<u8> {
    seq![123u8, 34, 113, 117, 101, 114, 121, 34, 58, 34, 115, 116, 97, 114, 116, 34, 44, 34, 111, 114, 105, 103, 105, 110, 34, 58]
}

fn arr_h_start() -> (v: [u8; 26])
    ensures
        v@ == lit_h_start(),
{
    let a: [u8; 26] = [123, 34, 113, 117, 101, 114, 121, 34, 58, 34, 115, 116, 97, 114, 116, 34, 44, 34, 111, 114, 105, 103, 105, 110, 34, 58];
    proof {
        assert(a@ =~= lit_h_start());
    }
    a
}

/// The bytes of `{"query":"abort","origin":`.
pub open spec fn lit_h_abort() -> Seq<u8> {
    seq![123u8, 34, 113, 117, 101, 114, 121, 34, 58, 34, 97, 98, 111, 114, 116, 34, 44, 34, 111, 114, 105, 103, 105, 110, 34, 58]
}

fn arr_h_abort() -> (v: [u8; 26])
    ensures
        v@ == lit_h_abort(),
{
    let a: [u8; 26] = [123, 34, 113, 117, 101, 114, 121, 34, 58, 34, 97, 98, 111, 114, 116, 34, 44, 34, 111, 114, 105, 103, 105, 110, 34, 58];
    proof {
        assert(a@ =~= lit_h_abort());
    }
    a
}

/// The bytes of `{"query":"delete","origin":`.
pub open spec fn lit_h_delete() -> Seq<u8> {
    seq![123u8, 34, 113, 117, 101, 114, 121, 34, 58, 34, 100, 101, 108, 101, 116, 101, 34, 44, 34, 111, 114, 105, 103, 105, 110, 34, 58]
}

fn arr_h_delete() -> (v: [u8; 27])
    ensures
        v@ == lit_h_delete(),
{
    let a: [u8; 27] = [123, 34, 113, 117, 101, 114, 121, 34, 58, 34, 100, 101, 108, 101, 116, 101, 34, 44, 34, 111, 114, 105, 103, 105, 110, 34, 58];
    proof {
        assert(a@ =~= lit_h_delete());
    }
    a
}

/// The bytes of `{"query":"list"}`.
pub open spec fn lit_l_list() -> Seq<u8> {
    seq![123u8, 34, 113, 117, 101, 114, 121, 34, 58, 34, 108, 105, 115, 116, 34, 125]
}

fn arr_l_list() -> (v: [u8; 16])
    ensures
        v@ == lit_l_list(),
{
    let a: [u8; 16] = [123, 34, 113, 117, 101, 114, 121, 34, 58, 34, 108, 105, 115, 116, 34, 125];
    proof {
        assert(a@ =~= lit_l_list());
    }
    a
}

/// The bytes of `{"query":"status","id":`.
pub open spec fn lit_h_status() -> Seq<u8> {
    seq![123u8, 34, 113, 117, 101, 114, 121, 34, 58, 34, 115, 116, 97, 116, 117, 115, 34, 44, 34, 105, 100, 34, 58]
}

fn arr_h_status() -> (v: [u8; 23])
    ensures
        v@ == lit_h_status(),
{
    let a: [u8; 23] = [123, 34, 113, 117, 101, 114, 121, 34, 58, 34, 115, 116, 97, 116, 117, 115, 34, 44, 34, 105, 100, 34, 58];
    proof {
        assert(a@ =~= lit_h_status());
    }
    a
}

/// The bytes of `{"query":"record","id":`.
pub open spec fn lit_h_record() -> Seq<u8> {
    seq![123u8, 34, 113, 117, 101, 114, 121, 34, 58, 34, 114, 101, 99, 111, 114, 100, 34, 44, 34, 105, 100, 34, 58]
}

fn arr_h_record() -> (v: [u8; 23])
    ensures
        v@ == lit_h_record(),
{
    let a: [u8; 23] = [123, 34, 113, 117, 101, 114, 121, 34, 58, 34, 114, 101, 99, 111, 114, 100, 34, 44, 34, 105, 100, 34, 58];
    proof {
        assert(a@ =~= lit_h_record());
    }
    a
}

/// The bytes of `"client"`.
pub open spec fn lit_org_client() -> Seq<u8> {
    seq![34u8, 99, 108, 105, 101, 110, 116, 34]
}

fn arr_org_client() -> (v: [u8; 8])
    ensures
        v@ == lit_org_client(),
{
    let a: [u8; 8] = [34, 99, 108, 105, 101, 110, 116, 34];
    proof {
        assert(a@ =~= lit_org_client());
    }
    a
}

/// The bytes of `"daemon"`.
pub open spec fn lit_org_daemon() -> Seq<u8> {
    seq![34u8, 100, 97, 101, 109, 111, 110, 34]
}

fn arr_org_daemon() -> (v: [u8; 8])
    ensures
        v@ == lit_org_daemon(),
{
    let a: [u8; 8] = [34, 100, 97, 101, 109, 111, 110, 34];
    proof {
        assert(a@ =~= lit_org_daemon());
    }
    a
}

/// The bytes of `,"id":`.
pub open spec fn lit_k_id() -> Seq<u8> {
    seq![44u8, 34, 105, 100, 34, 58]
}

fn arr_k_id() -> (v: [u8; 6])
    ensures
        v@ == lit_k_id(),
{
    let a: [u8; 6] = [44, 34, 105, 100, 34, 58];
    proof {
        assert(a@ =~= lit_k_id());
    }
    a
}

/// The bytes of `,"record":`.
pub open spec fn lit_k_record() -> Seq<u8> {
    seq![44u8, 34, 114, 101, 99, 111, 114, 100, 34, 58]
}

fn arr_k_record() -> (v: [u8; 10])
    ensures
        v@ == lit_k_record(),
{
    let a: [u8; 10] = [44, 34, 114, 101, 99, 111, 114, 100, 34, 58];
    proof {
        assert(a@ =~= lit_k_record());
    }
    a
}

/// The bytes of `{"id":`.
pub open spec fn lit_obj_id() -> Seq<u8> {
    seq![123u8, 34, 105, 100, 34, 58]
}

fn arr_obj_id() -> (v: [u8; 6])
    ensures
        v@ == lit_obj_id(),
{
    let a: [u8; 6] = [123, 34, 105, 100, 34, 58];
    proof {
        assert(a@ =~= lit_obj_id());
    }
    a
}

/// The bytes of `,"nodes":`.
pub open spec fn lit_k_nodes() -> Seq<u8> {
    seq![44u8, 34, 110, 111, 100, 101, 115, 34, 58]
}

fn arr_k_nodes() -> (v: [u8; 9])
    ensures
        v@ == lit_k_nodes(),
{
    let a: [u8; 9] = [44, 34, 110, 111, 100, 101, 115, 34, 58];
    proof {
        assert(a@ =~= lit_k_nodes());
    }
    a
}

/// The bytes of `,"links":`.
pub open spec fn lit_k_links() -> Seq<u8> {
    seq![44u8, 34, 108, 105, 110, 107, 115, 34, 58]
}

fn arr_k_links() -> (v: [u8; 9])
    ensures
        v@ == lit_k_links(),
{
    let a: [u8; 9] = [44, 34, 108, 105, 110, 107, 115, 34, 58];
    proof {
        assert(a@ =~= lit_k_links());
    }
    a
}

/// The bytes of `,"runtime":`.
pub open spec fn lit_k_runtime() -> Seq<u8> {
    seq![44u8, 34, 114, 117, 110, 116, 105, 109, 101, 34, 58]
}

fn arr_k_runtime() -> (v: [u8; 11])
    ensures
        v@ == lit_k_runtime(),
{
    let a: [u8; 11] = [44, 34, 114, 117, 110, 116, 105, 109, 101, 34, 58];
    proof {
        assert(a@ =~= lit_k_runtime());
    }
    a
}

/// The bytes of `,"kind":`.
pub open spec fn lit_k_kind() -> Seq<u8> {
    seq![44u8, 34, 107, 105, 110, 100, 34, 58]
}

fn arr_k_kind() -> (v: [u8; 8])
    ensures
        v@ == lit_k_kind(),
{
    let a: [u8; 8] = [44, 34, 107, 105, 110, 100, 34, 58];
    proof {
        assert(a@ =~= lit_k_kind());
    }
    a
}

/// The bytes of `,"ext":`.
pub open spec fn lit_k_ext() -> Seq<u8> {
    seq![44u8, 34, 101, 120, 116, 34, 58]
}

fn arr_k_ext() -> (v: [u8; 7])
    ensures
        v@ == lit_k_ext(),
{
    let a: [u8; 7] = [44, 34, 101, 120, 116, 34, 58];
    proof {
        assert(a@ =~= lit_k_ext());
    }
    a
}

/// The bytes of `,"inputs":`.
pub open spec fn lit_k_inputs() -> Seq<u8> {
    seq![44u8, 34, 105, 110, 112, 117, 116, 115, 34, 58]
}

fn arr_k_inputs() -> (v: [u8; 10])
    ensures
        v@ == lit_k_inputs(),
{
    let a: [u8; 10] = [44, 34, 105, 110, 112, 117, 116, 115, 34, 58];
    proof {
        assert(a@ =~= lit_k_inputs());
    }
    a
}

/// The bytes of `,"outputs":`.
pub open spec fn lit_k_outputs() -> Seq<u8> {
    seq![44u8, 34, 111, 117, 116, 112, 117, 116, 115, 34, 58]
}

fn arr_k_outputs() -> (v: [u8; 11])
    ensures
        v@ == lit_k_outputs(),
{
    let a: [u8; 11] = [44, 34, 111, 117, 116, 112, 117, 116, 115, 34, 58];
    proof {
        assert(a@ =~= lit_k_outputs());
    }
    a
}

/// The bytes of `,"config":`.
pub open spec fn lit_k_config() -> Seq<u8> {
    seq![44u8, 34, 99, 111, 110, 102, 105, 103, 34, 58]
}

fn arr_k_config() -> (v: [u8; 10])
    ensures
        v@ == lit_k_config(),
{
    let a: [u8; 10] = [44, 34, 99, 111, 110, 102, 105, 103, 34, 58];
    proof {
        assert(a@ =~= lit_k_config());
    }
    a
}

/// The bytes of `}`.
pub open spec fn lit_rbrace() -> Seq<u8> {
    seq![125u8]
}

fn arr_rbrace() -> (v: [u8; 1])
    ensures
        v@ == lit_rbrace(),
{
    let a: [u8; 1] = [125];
    proof {
        assert(a@ =~= lit_rbrace());
    }
    a
}

/// The bytes of `[`.
pub open spec fn lit_lbrack() -> Seq<u8> {
    seq![91u8]
}

fn arr_lbrack() -> (v: [u8; 1])
    ensures
        v@ == lit_lbrack(),
{
    let a: [u8; 1] = [91];
    proof {
        assert(a@ =~= lit_lbrack());
    }
    a
}

/// The bytes of `]`.
pub open spec fn lit_rbrack() -> Seq<u8> {
    seq![93u8]
}

fn arr_rbrack() -> (v: [u8; 1])
    ensures
        v@ == lit_rbrack(),
{
    let a: [u8; 1] = [93];
    proof {
        assert(a@ =~= lit_rbrack());
    }
    a
}

/// The bytes of `,`.
pub open spec fn lit_comma() -> Seq<u8> {
    seq![44u8]
}

fn arr_comma() -> (v: [u8; 1])
    ensures
        v@ == lit_comma(),
{
    let a: [u8; 1] = [44];
    proof {
        assert(a@ =~= lit_comma());
    }
    a
}

/// The bytes of `{"query":"info"}`.
pub open spec fn lit_rt_info() -> Seq<u8> {
    seq![123u8, 34, 113, 117, 101, 114, 121, 34, 58, 34, 105, 110, 102, 111, 34, 125]
}

fn arr_rt_info() -> (v: [u8; 16])
    ensures
        v@ == lit_rt_info(),
{
    let a: [u8; 16] = [123, 34, 113, 117, 101, 114, 121, 34, 58, 34, 105, 110, 102, 111, 34, 125];
    proof {
        assert(a@ =~= lit_rt_info());
    }
    a
}

/// The bytes of `{"query":"status"}`.
pub open spec fn lit_rt_status() -> Seq<u8> {
    seq![123u8, 34, 113, 117, 101, 114, 121, 34, 58, 34, 115, 116, 97, 116, 117, 115, 34, 125]
}

fn arr_rt_status() -> (v: [u8; 18])
    ensures
        v@ == lit_rt_status(),
{
    let a: [u8; 18] = [123, 34, 113, 117, 101, 114, 121, 34, 58, 34, 115, 116, 97, 116, 117, 115, 34, 125];
    proof {
        assert(a@ =~= lit_rt_status());
    }
    a
}


// ---------------------------------------------------------------------------
// Composite encodings: origins, ports, links, nodes, records, requests.
// ---------------------------------------------------------------------------

/// Splits one known span of `b` into its first part and the rest.
pub proof fn lemma_split_at(b: Seq<u8>, i: int, pre: Seq<u8>, post: Seq<u8>)
    requires
        0 <= i,
        i + pre.len() + post.len() <= b.len(),
        b.subrange(i, i + pre.len() + post.len()) == pre + post,
    ensures
        b.subrange(i, i + pre.len()) == pre,
        b.subrange(i + pre.len(), i + pre.len() + post.len()) == post,
{
    assert forall|m: int| 0 <= m < pre.len() implies b.subrange(i, i + pre.len() as int)[m]
        == pre[m] by {
        assert(b.subrange(i, i + pre.len() + post.len())[m] == (pre + post)[m]);
        assert((pre + post)[m] == pre[m]);
        assert(b.subrange(i, i + pre.len() + post.len())[m] == b[i + m]);
        assert(b.subrange(i, i + pre.len() as int)[m] == b[i + m]);
    }
    assert(b.subrange(i, i + pre.len() as int) =~= pre);
    assert forall|m: int| 0 <= m < post.len() implies b.subrange(
        i + pre.len(),
        i + pre.len() + post.len(),
    )[m] == post[m] by {
        assert(b.subrange(i, i + pre.len() + post.len())[m + pre.len()] == (pre + post)[m
            + pre.len()]);
        assert((pre + post)[m + pre.len()] == post[m]);
        assert(b.subrange(i, i + pre.len() + post.len())[m + pre.len()] == b[i + pre.len() + m]);
        assert(b.subrange(i + pre.len(), i + pre.len() + post.len())[m] == b[i + pre.len() + m]);
    }
    assert(b.subrange(i + pre.len(), i + pre.len() + post.len()) =~= post);
}

/// A fixed byte sequence whose byte `d` differs from what stands in `b`
/// cannot be read at `i`.
pub proof fn lemma_lit_mismatch_at(b: Seq<u8>, i: int, lit1: Seq<u8>, d: int, c: u8)
    requires
        0 <= i,
        0 <= d,
        i + d < b.len(),
        b[i + d] == c,
        d < lit1.len(),
        lit1[d] != c,
    ensures
        sp_lit(b, i, lit1) is None,
{
    if i + lit1.len() <= b.len() && b.subrange(i, i + lit1.len()) == lit1 {
        assert(b[i + d] == b.subrange(i, i + lit1.len() as int)[d]);
        assert(false);
    }
}

pub open spec fn enc_origin(o: Origin) -> Seq<u8> {
    match o {
        Origin::Client => lit_org_client(),
        Origin::Daemon => lit_org_daemon(),
    }
}

pub open spec fn sp_origin(b: Seq<u8>, i: int) -> Option<(Origin, int)> {
    match sp_lit(b, i, lit_org_client()) {
        Some(j) => Some((Origin::Client, j)),
        None => match sp_lit(b, i, lit_org_daemon()) {
            Some(j) => Some((Origin::Daemon, j)),
            None => None,
        },
    }
}

pub proof fn lemma_sp_origin_at(b: Seq<u8>, i: int, o: Origin)
    requires
        0 <= i,
        i + enc_origin(o).len() <= b.len(),
        b.subrange(i, i + enc_origin(o).len()) == enc_origin(o),
    ensures
        sp_origin(b, i) == Some((o, i + enc_origin(o).len())),
{
    if o is Daemon {
        assert(b[i + 1] == b.subrange(i, i + enc_origin(o).len())[1]);
        lemma_lit_mismatch_at(b, i, lit_org_client(), 1, 100);
    }
}

pub open spec fn kind_code(k: NodeKind) -> u64 {
    match k {
        NodeKind::Source => 0,
        NodeKind::Operator => 1,
        NodeKind::Sink => 2,
    }
}

pub open spec fn kind_of_code(c: u64) -> NodeKind {
    if c == 0 {
        NodeKind::Source
    } else if c == 1 {
        NodeKind::Operator
    } else {
        NodeKind::Sink
    }
}

pub open spec fn enc_port(p: PortDesc) -> Seq<u8> {
    lit_lbrack() + enc_u64(p.id) + lit_comma() + enc_u64(p.port_type) + lit_rbrack()
}

pub open spec fn sp_port(b: Seq<u8>, i: int) -> Option<(PortDesc, int)> {
    match sp_lit(b, i, lit_lbrack()) {
        None => None,
        Some(i1) => match sp_u64(b, i1) {
            None => None,
            Some((id, i2)) => match sp_lit(b, i2, lit_comma()) {
                None => None,
                Some(i3) => match sp_u64(b, i3) {
                    None => None,
                    Some((ty, i4)) => match sp_lit(b, i4, lit_rbrack()) {
                        None => None,
                        Some(i5) => Some((PortDesc { id, port_type: ty }, i5)),
                    },
                },
            },
        },
    }
}

pub open spec fn enc_link(l: Link) -> Seq<u8> {
    lit_lbrack() + enc_u64(l.from_node) + lit_comma() + enc_u64(l.from_port) + lit_comma()
        + enc_u64(l.to_node) + lit_comma() + enc_u64(l.to_port) + lit_rbrack()
}

pub open spec fn sp_link(b: Seq<u8>, i: int) -> Option<(Link, int)> {
    match sp_lit(b, i, lit_lbrack()) {
        None => None,
        Some(i1) => match sp_u64(b, i1) {
            None => None,
            Some((fnode, i2)) => match sp_lit(b, i2, lit_comma()) {
                None => None,
                Some(i3) => match sp_u64(b, i3) {
                    None => None,
                    Some((fport, i4)) => match sp_lit(b, i4, lit_comma()) {
                        None => None,
                        Some(i5) => match sp_u64(b, i5) {
                            None => None,
                            Some((tnode, i6)) => match sp_lit(b, i6, lit_comma()) {
                                None => None,
                                Some(i7) => match sp_u64(b, i7) {
                                    None => None,
                                    Some((tport, i8)) => match sp_lit(b, i8, lit_rbrack()) {
                                        None => None,
                                        Some(i9) => Some(
                                            (
                                                Link {
                                                    from_node: fnode,
                                                    from_port: fport,
                                                    to_node: tnode,
                                                    to_port: tport,
                                                },
                                                i9,
                                            ),
                                        ),
                                    },
                                },
                            },
                        },
                    },
                },
            },
        },
    }
}

pub proof fn lemma_sp_port_at(b: Seq<u8>, i: int, p: PortDesc)
    requires
        0 <= i,
        i + enc_port(p).len() <= b.len(),
        b.subrange(i, i + enc_port(p).len()) == enc_port(p),
    ensures
        sp_port(b, i) == Some((p, i + enc_port(p).len())),
{
    let s0 = lit_lbrack();
    let s1 = enc_u64(p.id);
    let s2 = lit_comma();
    let s3 = enc_u64(p.port_type);
    let s4 = lit_rbrack();
    let r4 = s4;
    let r3 = s3 + r4;
    let r2 = s2 + r3;
    let r1 = s1 + r2;
    let r0 = s0 + r1;
    assert(enc_port(p) =~= r0);
    let o0 = i;
    assert(b.subrange(o0, o0 + r0.len()) == r0);
    lemma_split_at(b, o0, s0, r1);
    let o1 = o0 + s0.len();
    lemma_split_at(b, o1, s1, r2);
    let o2 = o1 + s1.len();
    assert(b[o2] == b.subrange(o2, o2 + r2.len())[0]);
    lemma_sp_u64_at(b, o1, p.id);
    lemma_split_at(b, o2, s2, r3);
    let o3 = o2 + s2.len();
    lemma_split_at(b, o3, s3, r4);
    let o4 = o3 + s3.len();
    assert(b[o4] == b.subrange(o4, o4 + r4.len())[0]);
    lemma_sp_u64_at(b, o3, p.port_type);
}

pub proof fn lemma_sp_link_at(b: Seq<u8>, i: int, l: Link)
    requires
        0 <= i,
        i + enc_link(l).len() <= b.len(),
        b.subrange(i, i + enc_link(l).len()) == enc_link(l),
    ensures
        sp_link(b, i) == Some((l, i + enc_link(l).len())),
{
    let s0 = lit_lbrack();
    let s1 = enc_u64(l.from_node);
    let s2 = lit_comma();
    let s3 = enc_u64(l.from_port);
    let s4 = lit_comma();
    let s5 = enc_u64(l.to_node);
    let s6 = lit_comma();
    let s7 = enc_u64(l.to_port);
    let s8 = lit_rbrack();
    let r8 = s8;
    let r7 = s7 + r8;
    let r6 = s6 + r7;
    let r5 = s5 + r6;
    let r4 = s4 + r5;
    let r3 = s3 + r4;
    let r2 = s2 + r3;
    let r1 = s1 + r2;
    let r0 = s0 + r1;
    assert(enc_link(l) =~= r0);
    let o0 = i;
    assert(b.subrange(o0, o0 + r0.len()) == r0);
    lemma_split_at(b, o0, s0, r1);
    let o1 = o0 + s0.len();
    lemma_split_at(b, o1, s1, r2);
    let o2 = o1 + s1.len();
    assert(b[o2] == b.subrange(o2, o2 + r2.len())[0]);
    lemma_sp_u64_at(b, o1, l.from_node);
    lemma_split_at(b, o2, s2, r3);
    let o3 = o2 + s2.len();
    lemma_split_at(b, o3, s3, r4);
    let o4 = o3 + s3.len();
    assert(b[o4] == b.subrange(o4, o4 + r4.len())[0]);
    lemma_sp_u64_at(b, o3, l.from_port);
    lemma_split_at(b, o4, s4, r5);
    let o5 = o4 + s4.len();
    lemma_split_at(b, o5, s5, r6);
    let o6 = o5 + s5.len();
    assert(b[o6] == b.subrange(o6, o6 + r6.len())[0]);
    lemma_sp_u64_at(b, o5, l.to_node);
    lemma_split_at(b, o6, s6, r7);
    let o7 = o6 + s6.len();
    lemma_split_at(b, o7, s7, r8);
    let o8 = o7 + s7.len();
    assert(b[o8] == b.subrange(o8, o8 + r8.len())[0]);
    lemma_sp_u64_at(b, o7, l.to_port);
}

pub open spec fn enc_u64x(v: u64) -> Seq<u8> {
    enc_u64(v)
}

/// The first byte of an encoded number is a digit.
pub proof fn proof_u64_elem_head(v: u64)
    ensures
        enc_u64x(v).len() >= 1,
        is_digit(enc_u64x(v)[0]),
{
    lemma_dec_digits_are_digits(v as nat);
}


pub open spec fn sp_u64x(b: Seq<u8>, i: int) -> Option<(u64, int)> {
    sp_u64(b, i)
}

/// A number standing in a list is always followed by `,` or `]`, so parsing
/// it inside the list grammar yields it back.
pub proof fn lemma_sp_u64x_at(b: Seq<u8>, i: int, v: u64)
    requires
        0 <= i,
        i + enc_u64x(v).len() <= b.len(),
        b.subrange(i, i + enc_u64x(v).len()) == enc_u64x(v),
        i + enc_u64x(v).len() == b.len() || !is_digit(b[i + enc_u64x(v).len()]),
    ensures
        sp_u64x(b, i) == Some((v, i + enc_u64x(v).len())),
{
    lemma_sp_u64_at(b, i, v);
}

pub open spec fn enc_port_list_rest(vs: Seq<PortDesc>) -> Seq<u8>
    decreases vs.len(),
{
    if vs.len() == 0 {
        lit_rbrack()
    } else {
        lit_comma() + enc_port(vs[0]) + enc_port_list_rest(vs.drop_first())
    }
}

pub open spec fn enc_port_list(vs: Seq<PortDesc>) -> Seq<u8> {
    if vs.len() == 0 {
        lit_lbrack() + lit_rbrack()
    } else {
        lit_lbrack() + enc_port(vs[0]) + enc_port_list_rest(vs.drop_first())
    }
}

pub open spec fn sp_port_list_rest(b: Seq<u8>, i: int) -> Option<(Seq<PortDesc>, int)>
    decreases b.len() - i,
{
    match sp_lit(b, i, lit_rbrack()) {
        Some(j) => Some((Seq::empty(), j)),
        None => match sp_lit(b, i, lit_comma()) {
            None => None,
            Some(i1) => match sp_port(b, i1) {
                None => None,
                Some((v, i2)) => if i < i2 && i2 <= b.len() {
                    match sp_port_list_rest(b, i2) {
                        None => None,
                        Some((vs, i3)) => Some((seq![v] + vs, i3)),
                    }
                } else {
                    None
                },
            },
        },
    }
}

pub open spec fn sp_port_list(b: Seq<u8>, i: int) -> Option<(Seq<PortDesc>, int)> {
    match sp_lit(b, i, lit_lbrack()) {
        None => None,
        Some(i1) => match sp_lit(b, i1, lit_rbrack()) {
            Some(j) => Some((Seq::empty(), j)),
            None => match sp_port(b, i1) {
                None => None,
                Some((v, i2)) => if i1 < i2 && i2 <= b.len() {
                    match sp_port_list_rest(b, i2) {
                        None => None,
                        Some((vs, i3)) => Some((seq![v] + vs, i3)),
                    }
                } else {
                    None
                },
            },
        },
    }
}

pub proof fn lemma_sp_port_list_rest_at(b: Seq<u8>, i: int, vs: Seq<PortDesc>)
    requires
        0 <= i,
        i + enc_port_list_rest(vs).len() <= b.len(),
        b.subrange(i, i + enc_port_list_rest(vs).len()) == enc_port_list_rest(vs),
    ensures
        sp_port_list_rest(b, i) == Some((vs, i + enc_port_list_rest(vs).len())),
    decreases vs.len(),
{
    if vs.len() == 0 {
        assert(sp_lit(b, i, lit_rbrack()) == Some(i + 1));
    } else {
        let s0 = lit_comma();
        let s1 = enc_port(vs[0]);
        let r2 = enc_port_list_rest(vs.drop_first());
        let r1 = s1 + r2;
        let r0 = s0 + r1;
        assert(enc_port_list_rest(vs) =~= r0);
        assert(b.subrange(i, i + r0.len()) == r0);
        lemma_split_at(b, i, s0, r1);
        let i1 = i + 1;
        lemma_split_at(b, i1, s1, r2);
        assert(b[i1 + s1.len()] == b.subrange(i1 + s1.len(), i1 + s1.len() + r2.len())[0]);
        assert(b[i] == b.subrange(i, i + r0.len())[0]);
        lemma_lit_mismatch_at(b, i, lit_rbrack(), 0, 44);
        lemma_sp_port_at(b, i1, vs[0]);
        let i2 = i1 + s1.len();
        lemma_sp_port_list_rest_at(b, i2, vs.drop_first());
        assert(seq![vs[0]] + vs.drop_first() =~= vs);
    }
}

pub proof fn lemma_sp_port_list_at(b: Seq<u8>, i: int, vs: Seq<PortDesc>)
    requires
        0 <= i,
        i + enc_port_list(vs).len() <= b.len(),
        b.subrange(i, i + enc_port_list(vs).len()) == enc_port_list(vs),
    ensures
        sp_port_list(b, i) == Some((vs, i + enc_port_list(vs).len())),
{
    if vs.len() == 0 {
        let r0 = lit_lbrack() + lit_rbrack();
        assert(b.subrange(i, i + r0.len()) == r0);
        lemma_split_at(b, i, lit_lbrack(), lit_rbrack());
        assert(sp_lit(b, i, lit_lbrack()) == Some(i + 1));
        assert(sp_lit(b, i + 1, lit_rbrack()) == Some(i + 2));
    } else {
        let s0 = lit_lbrack();
        let s1 = enc_port(vs[0]);
        let r2 = enc_port_list_rest(vs.drop_first());
        let r1 = s1 + r2;
        let r0 = s0 + r1;
        assert(enc_port_list(vs) =~= r0);
        assert(b.subrange(i, i + r0.len()) == r0);
        lemma_split_at(b, i, s0, r1);
        let i1 = i + 1;
        lemma_split_at(b, i1, s1, r2);
        assert(b[i1 + s1.len()] == b.subrange(i1 + s1.len(), i1 + s1.len() + r2.len())[0]);
        assert(b[i1] == b.subrange(i1, i1 + r1.len())[0]);
        lemma_lit_mismatch_at(b, i1, lit_rbrack(), 0, r1[0]);
        lemma_sp_port_at(b, i1, vs[0]);
        let i2 = i1 + s1.len();
        lemma_sp_port_list_rest_at(b, i2, vs.drop_first());
        assert(seq![vs[0]] + vs.drop_first() =~= vs);
    }
}

pub open spec fn enc_link_list_rest(vs: Seq<Link>) -> Seq<u8>
    decreases vs.len(),
{
    if vs.len() == 0 {
        lit_rbrack()
    } else {
        lit_comma() + enc_link(vs[0]) + enc_link_list_rest(vs.drop_first())
    }
}

pub open spec fn enc_link_list(vs: Seq<Link>) -> Seq<u8> {
    if vs.len() == 0 {
        lit_lbrack() + lit_rbrack()
    } else {
        lit_lbrack() + enc_link(vs[0]) + enc_link_list_rest(vs.drop_first())
    }
}

pub open spec fn sp_link_list_rest(b: Seq<u8>, i: int) -> Option<(Seq<Link>, int)>
    decreases b.len() - i,
{
    match sp_lit(b, i, lit_rbrack()) {
        Some(j) => Some((Seq::empty(), j)),
        None => match sp_lit(b, i, lit_comma()) {
            None => None,
            Some(i1) => match sp_link(b, i1) {
                None => None,
                Some((v, i2)) => if i < i2 && i2 <= b.len() {
                    match sp_link_list_rest(b, i2) {
                        None => None,
                        Some((vs, i3)) => Some((seq![v] + vs, i3)),
                    }
                } else {
                    None
                },
            },
        },
    }
}

pub open spec fn sp_link_list(b: Seq<u8>, i: int) -> Option<(Seq<Link>, int)> {
    match sp_lit(b, i, lit_lbrack()) {
        None => None,
        Some(i1) => match sp_lit(b, i1, lit_rbrack()) {
            Some(j) => Some((Seq::empty(), j)),
            None => match sp_link(b, i1) {
                None => None,
                Some((v, i2)) => if i1 < i2 && i2 <= b.len() {
                    match sp_link_list_rest(b, i2) {
                        None => None,
                        Some((vs, i3)) => Some((seq![v] + vs, i3)),
                    }
                } else {
                    None
                },
            },
        },
    }
}

pub proof fn lemma_sp_link_list_rest_at(b: Seq<u8>, i: int, vs: Seq<Link>)
    requires
        0 <= i,
        i + enc_link_list_rest(vs).len() <= b.len(),
        b.subrange(i, i + enc_link_list_rest(vs).len()) == enc_link_list_rest(vs),
    ensures
        sp_link_list_rest(b, i) == Some((vs, i + enc_link_list_rest(vs).len())),
    decreases vs.len(),
{
    if vs.len() == 0 {
        assert(sp_lit(b, i, lit_rbrack()) == Some(i + 1));
    } else {
        let s0 = lit_comma();
        let s1 = enc_link(vs[0]);
        let r2 = enc_link_list_rest(vs.drop_first());
        let r1 = s1 + r2;
        let r0 = s0 + r1;
        assert(enc_link_list_rest(vs) =~= r0);
        assert(b.subrange(i, i + r0.len()) == r0);
        lemma_split_at(b, i, s0, r1);
        let i1 = i + 1;
        lemma_split_at(b, i1, s1, r2);
        assert(b[i1 + s1.len()] == b.subrange(i1 + s1.len(), i1 + s1.len() + r2.len())[0]);
        assert(b[i] == b.subrange(i, i + r0.len())[0]);
        lemma_lit_mismatch_at(b, i, lit_rbrack(), 0, 44);
        lemma_sp_link_at(b, i1, vs[0]);
        let i2 = i1 + s1.len();
        lemma_sp_link_list_rest_at(b, i2, vs.drop_first());
        assert(seq![vs[0]] + vs.drop_first() =~= vs);
    }
}

pub proof fn lemma_sp_link_list_at(b: Seq<u8>, i: int, vs: Seq<Link>)
    requires
        0 <= i,
        i + enc_link_list(vs).len() <= b.len(),
        b.subrange(i, i + enc_link_list(vs).len()) == enc_link_list(vs),
    ensures
        sp_link_list(b, i) == Some((vs, i + enc_link_list(vs).len())),
{
    if vs.len() == 0 {
        let r0 = lit_lbrack() + lit_rbrack();
        assert(b.subrange(i, i + r0.len()) == r0);
        lemma_split_at(b, i, lit_lbrack(), lit_rbrack());
        assert(sp_lit(b, i, lit_lbrack()) == Some(i + 1));
        assert(sp_lit(b, i + 1, lit_rbrack()) == Some(i + 2));
    } else {
        let s0 = lit_lbrack();
        let s1 = enc_link(vs[0]);
        let r2 = enc_link_list_rest(vs.drop_first());
        let r1 = s1 + r2;
        let r0 = s0 + r1;
        assert(enc_link_list(vs) =~= r0);
        assert(b.subrange(i, i + r0.len()) == r0);
        lemma_split_at(b, i, s0, r1);
        let i1 = i + 1;
        lemma_split_at(b, i1, s1, r2);
        assert(b[i1 + s1.len()] == b.subrange(i1 + s1.len(), i1 + s1.len() + r2.len())[0]);
        assert(b[i1] == b.subrange(i1, i1 + r1.len())[0]);
        lemma_lit_mismatch_at(b, i1, lit_rbrack(), 0, r1[0]);
        lemma_sp_link_at(b, i1, vs[0]);
        let i2 = i1 + s1.len();
        lemma_sp_link_list_rest_at(b, i2, vs.drop_first());
        assert(seq![vs[0]] + vs.drop_first() =~= vs);
    }
}

pub open spec fn enc_u64_list_rest(vs: Seq<u64>) -> Seq<u8>
    decreases vs.len(),
{
    if vs.len() == 0 {
        lit_rbrack()
    } else {
        lit_comma() + enc_u64x(vs[0]) + enc_u64_list_rest(vs.drop_first())
    }
}

pub open spec fn enc_u64_list(vs: Seq<u64>) -> Seq<u8> {
    if vs.len() == 0 {
        lit_lbrack() + lit_rbrack()
    } else {
        lit_lbrack() + enc_u64x(vs[0]) + enc_u64_list_rest(vs.drop_first())
    }
}

pub open spec fn sp_u64_list_rest(b: Seq<u8>, i: int) -> Option<(Seq<u64>, int)>
    decreases b.len() - i,
{
    match sp_lit(b, i, lit_rbrack()) {
        Some(j) => Some((Seq::empty(), j)),
        None => match sp_lit(b, i, lit_comma()) {
            None => None,
            Some(i1) => match sp_u64x(b, i1) {
                None => None,
                Some((v, i2)) => if i < i2 && i2 <= b.len() {
                    match sp_u64_list_rest(b, i2) {
                        None => None,
                        Some((vs, i3)) => Some((seq![v] + vs, i3)),
                    }
                } else {
                    None
                },
            },
        },
    }
}

pub open spec fn sp_u64_list(b: Seq<u8>, i: int) -> Option<(Seq<u64>, int)> {
    match sp_lit(b, i, lit_lbrack()) {
        None => None,
        Some(i1) => match sp_lit(b, i1, lit_rbrack()) {
            Some(j) => Some((Seq::empty(), j)),
            None => match sp_u64x(b, i1) {
                None => None,
                Some((v, i2)) => if i1 < i2 && i2 <= b.len() {
                    match sp_u64_list_rest(b, i2) {
                        None => None,
                        Some((vs, i3)) => Some((seq![v] + vs, i3)),
                    }
                } else {
                    None
                },
            },
        },
    }
}

pub proof fn lemma_sp_u64_list_rest_at(b: Seq<u8>, i: int, vs: Seq<u64>)
    requires
        0 <= i,
        i + enc_u64_list_rest(vs).len() <= b.len(),
        b.subrange(i, i + enc_u64_list_rest(vs).len()) == enc_u64_list_rest(vs),
    ensures
        sp_u64_list_rest(b, i) == Some((vs, i + enc_u64_list_rest(vs).len())),
    decreases vs.len(),
{
    if vs.len() == 0 {
        assert(sp_lit(b, i, lit_rbrack()) == Some(i + 1));
    } else {
        let s0 = lit_comma();
        let s1 = enc_u64x(vs[0]);
        proof_u64_elem_head(vs[0]);
        let r2 = enc_u64_list_rest(vs.drop_first());
        let r1 = s1 + r2;
        let r0 = s0 + r1;
        assert(enc_u64_list_rest(vs) =~= r0);
        assert(b.subrange(i, i + r0.len()) == r0);
        lemma_split_at(b, i, s0, r1);
        let i1 = i + 1;
        lemma_split_at(b, i1, s1, r2);
        assert(b[i1 + s1.len()] == b.subrange(i1 + s1.len(), i1 + s1.len() + r2.len())[0]);
        assert(b[i] == b.subrange(i, i + r0.len())[0]);
        lemma_lit_mismatch_at(b, i, lit_rbrack(), 0, 44);
        lemma_sp_u64x_at(b, i1, vs[0]);
        let i2 = i1 + s1.len();
        lemma_sp_u64_list_rest_at(b, i2, vs.drop_first());
        assert(seq![vs[0]] + vs.drop_first() =~= vs);
    }
}

pub proof fn lemma_sp_u64_list_at(b: Seq<u8>, i: int, vs: Seq<u64>)
    requires
        0 <= i,
        i + enc_u64_list(vs).len() <= b.len(),
        b.subrange(i, i + enc_u64_list(vs).len()) == enc_u64_list(vs),
    ensures
        sp_u64_list(b, i) == Some((vs, i + enc_u64_list(vs).len())),
{
    if vs.len() == 0 {
        let r0 = lit_lbrack() + lit_rbrack();
        assert(b.subrange(i, i + r0.len()) == r0);
        lemma_split_at(b, i, lit_lbrack(), lit_rbrack());
        assert(sp_lit(b, i, lit_lbrack()) == Some(i + 1));
        assert(sp_lit(b, i + 1, lit_rbrack()) == Some(i + 2));
    } else {
        let s0 = lit_lbrack();
        let s1 = enc_u64x(vs[0]);
        proof_u64_elem_head(vs[0]);
        let r2 = enc_u64_list_rest(vs.drop_first());
        let r1 = s1 + r2;
        let r0 = s0 + r1;
        assert(enc_u64_list(vs) =~= r0);
        assert(b.subrange(i, i + r0.len()) == r0);
        lemma_split_at(b, i, s0, r1);
        let i1 = i + 1;
        lemma_split_at(b, i1, s1, r2);
        assert(b[i1 + s1.len()] == b.subrange(i1 + s1.len(), i1 + s1.len() + r2.len())[0]);
        assert(b[i1] == b.subrange(i1, i1 + r1.len())[0]);
        lemma_lit_mismatch_at(b, i1, lit_rbrack(), 0, r1[0]);
        lemma_sp_u64x_at(b, i1, vs[0]);
        let i2 = i1 + s1.len();
        lemma_sp_u64_list_rest_at(b, i2, vs.drop_first());
        assert(seq![vs[0]] + vs.drop_first() =~= vs);
    }
}

pub open spec fn enc_node_list_rest(vs: Seq<SpecNode>) -> Seq<u8>
    decreases vs.len(),
{
    if vs.len() == 0 {
        lit_rbrack()
    } else {
        lit_comma() + enc_node(vs[0]) + enc_node_list_rest(vs.drop_first())
    }
}

pub open spec fn enc_node_list(vs: Seq<SpecNode>) -> Seq<u8> {
    if vs.len() == 0 {
        lit_lbrack() + lit_rbrack()
    } else {
        lit_lbrack() + enc_node(vs[0]) + enc_node_list_rest(vs.drop_first())
    }
}

pub open spec fn sp_node_list_rest(b: Seq<u8>, i: int) -> Option<(Seq<SpecNode>, int)>
    decreases b.len() - i,
{
    match sp_lit(b, i, lit_rbrack()) {
        Some(j) => Some((Seq::empty(), j)),
        None => match sp_lit(b, i, lit_comma()) {
            None => None,
            Some(i1) => match sp_node(b, i1) {
                None => None,
                Some((v, i2)) => if i < i2 && i2 <= b.len() {
                    match sp_node_list_rest(b, i2) {
                        None => None,
                        Some((vs, i3)) => Some((seq![v] + vs, i3)),
                    }
                } else {
                    None
                },
            },
        },
    }
}

pub open spec fn sp_node_list(b: Seq<u8>, i: int) -> Option<(Seq<SpecNode>, int)> {
    match sp_lit(b, i, lit_lbrack()) {
        None => None,
        Some(i1) => match sp_lit(b, i1, lit_rbrack()) {
            Some(j) => Some((Seq::empty(), j)),
            None => match sp_node(b, i1) {
                None => None,
                Some((v, i2)) => if i1 < i2 && i2 <= b.len() {
                    match sp_node_list_rest(b, i2) {
                        None => None,
                        Some((vs, i3)) => Some((seq![v] + vs, i3)),
                    }
                } else {
                    None
                },
            },
        },
    }
}

#[verifier::rlimit(100)]
#[verifier::spinoff_prover]
pub proof fn lemma_sp_node_list_rest_at(b: Seq<u8>, i: int, vs: Seq<SpecNode>)
    requires
        0 <= i,
        i + enc_node_list_rest(vs).len() <= b.len(),
        b.subrange(i, i + enc_node_list_rest(vs).len()) == enc_node_list_rest(vs),
    ensures
        sp_node_list_rest(b, i) == Some((vs, i + enc_node_list_rest(vs).len())),
    decreases vs.len(),
{
    if vs.len() == 0 {
        assert(sp_lit(b, i, lit_rbrack()) == Some(i + 1));
    } else {
        let s0 = lit_comma();
        let s1 = enc_node(vs[0]);
        let r2 = enc_node_list_rest(vs.drop_first());
        let r1 = s1 + r2;
        let r0 = s0 + r1;
        assert(enc_node_list_rest(vs) =~= r0);
        assert(b.subrange(i, i + r0.len()) == r0);
        lemma_split_at(b, i, s0, r1);
        let i1 = i + 1;
        lemma_split_at(b, i1, s1, r2);
        assert(b[i1 + s1.len()] == b.subrange(i1 + s1.len(), i1 + s1.len() + r2.len())[0]);
        assert(b[i] == b.subrange(i, i + r0.len())[0]);
        lemma_lit_mismatch_at(b, i, lit_rbrack(), 0, 44);
        lemma_sp_node_at(b, i1, vs[0]);
        let i2 = i1 + s1.len();
        lemma_sp_node_list_rest_at(b, i2, vs.drop_first());
        assert(seq![vs[0]] + vs.drop_first() =~= vs);
    }
}

#[verifier::rlimit(100)]
#[verifier::spinoff_prover]
pub proof fn lemma_sp_node_list_at(b: Seq<u8>, i: int, vs: Seq<SpecNode>)
    requires
        0 <= i,
        i + enc_node_list(vs).len() <= b.len(),
        b.subrange(i, i + enc_node_list(vs).len()) == enc_node_list(vs),
    ensures
        sp_node_list(b, i) == Some((vs, i + enc_node_list(vs).len())),
{
    if vs.len() == 0 {
        let r0 = lit_lbrack() + lit_rbrack();
        assert(b.subrange(i, i + r0.len()) == r0);
        lemma_split_at(b, i, lit_lbrack(), lit_rbrack());
        assert(sp_lit(b, i, lit_lbrack()) == Some(i + 1));
        assert(sp_lit(b, i + 1, lit_rbrack()) == Some(i + 2));
    } else {
        let s0 = lit_lbrack();
        let s1 = enc_node(vs[0]);
        let r2 = enc_node_list_rest(vs.drop_first());
        let r1 = s1 + r2;
        let r0 = s0 + r1;
        assert(enc_node_list(vs) =~= r0);
        assert(b.subrange(i, i + r0.len()) == r0);
        lemma_split_at(b, i, s0, r1);
        let i1 = i + 1;
        lemma_split_at(b, i1, s1, r2);
        assert(b[i1 + s1.len()] == b.subrange(i1 + s1.len(), i1 + s1.len() + r2.len())[0]);
        assert(b[i1] == b.subrange(i1, i1 + r1.len())[0]);
        lemma_lit_mismatch_at(b, i1, lit_rbrack(), 0, r1[0]);
        lemma_sp_node_at(b, i1, vs[0]);
        let i2 = i1 + s1.len();
        lemma_sp_node_list_rest_at(b, i2, vs.drop_first());
        assert(seq![vs[0]] + vs.drop_first() =~= vs);
    }
}


pub open spec fn enc_node_head(n: SpecNode) -> Seq<u8> {
    lit_obj_id() + enc_u64(n.id) + lit_k_runtime() + enc_u64(n.runtime) + lit_k_kind() + enc_u64(
        kind_code(n.kind),
    ) + lit_k_ext() + enc_u64(n.ext)
}

pub open spec fn enc_node_tail(n: SpecNode) -> Seq<u8> {
    lit_k_inputs() + enc_port_list(n.inputs) + lit_k_outputs() + enc_port_list(n.outputs)
        + lit_k_config() + enc_u64_list(n.config) + lit_rbrace()
}

pub open spec fn enc_node(n: SpecNode) -> Seq<u8> {
    enc_node_head(n) + enc_node_tail(n)
}

/// The four leading numeric fields of a node object.
pub open spec fn sp_node_head(b: Seq<u8>, i: int) -> Option<((u64, u64, u64, u64), int)> {
    match sp_lit(b, i, lit_obj_id()) {
        None => None,
        Some(i1) => match sp_u64(b, i1) {
            None => None,
            Some((id, i2)) => match sp_lit(b, i2, lit_k_runtime()) {
                None => None,
                Some(i3) => match sp_u64(b, i3) {
                    None => None,
                    Some((runtime, i4)) => match sp_lit(b, i4, lit_k_kind()) {
                        None => None,
                        Some(i5) => match sp_u64(b, i5) {
                            None => None,
                            Some((kc, i6)) => match sp_lit(b, i6, lit_k_ext()) {
                                None => None,
                                Some(i7) => match sp_u64(b, i7) {
                                    None => None,
                                    Some((ext, i8)) => Some(((id, runtime, kc, ext), i8)),
                                },
                            },
                        },
                    },
                },
            },
        },
    }
}

/// The port and configuration lists of a node object.
pub open spec fn sp_node_tail(b: Seq<u8>, i: int) -> Option<
    ((Seq<PortDesc>, Seq<PortDesc>, Seq<u64>), int),
> {
    match sp_lit(b, i, lit_k_inputs()) {
        None => None,
        Some(i1) => match sp_port_list(b, i1) {
            None => None,
            Some((inputs, i2)) => match sp_lit(b, i2, lit_k_outputs()) {
                None => None,
                Some(i3) => match sp_port_list(b, i3) {
                    None => None,
                    Some((outputs, i4)) => match sp_lit(b, i4, lit_k_config()) {
                        None => None,
                        Some(i5) => match sp_u64_list(b, i5) {
                            None => None,
                            Some((config, i6)) => match sp_lit(b, i6, lit_rbrace()) {
                                None => None,
                                Some(i7) => Some(((inputs, outputs, config), i7)),
                            },
                        },
                    },
                },
            },
        },
    }
}

pub open spec fn sp_node(b: Seq<u8>, i: int) -> Option<(SpecNode, int)> {
    match sp_node_head(b, i) {
        None => None,
        Some(((id, runtime, kc, ext), i8)) => if kc <= 2 {
            match sp_node_tail(b, i8) {
                None => None,
                Some(((inputs, outputs, config), i15)) => Some(
                    (
                        SpecNode {
                            id,
                            runtime,
                            kind: kind_of_code(kc),
                            ext,
                            inputs,
                            outputs,
                            config,
                        },
                        i15,
                    ),
                ),
            }
        } else {
            None
        },
    }
}

#[verifier::rlimit(100)]
#[verifier::spinoff_prover]
pub proof fn lemma_sp_node_head_at(b: Seq<u8>, i: int, n: SpecNode)
    requires
        0 <= i,
        i + enc_node_head(n).len() + 1 <= b.len(),
        b.subrange(i, i + enc_node_head(n).len()) == enc_node_head(n),
        b[i + enc_node_head(n).len()] == 44,
    ensures
        sp_node_head(b, i) == Some(((n.id, n.runtime, kind_code(n.kind), n.ext), i
            + enc_node_head(n).len())),
{
    let s0 = lit_obj_id();
    let s1 = enc_u64(n.id);
    let s2 = lit_k_runtime();
    let s3 = enc_u64(n.runtime);
    let s4 = lit_k_kind();
    let s5 = enc_u64(kind_code(n.kind));
    let s6 = lit_k_ext();
    let s7 = enc_u64(n.ext);
    let r7 = s7;
    let r6 = s6 + r7;
    let r5 = s5 + r6;
    let r4 = s4 + r5;
    let r3 = s3 + r4;
    let r2 = s2 + r3;
    let r1 = s1 + r2;
    let r0 = s0 + r1;
    assert(enc_node_head(n) =~= r0);
    let o0 = i;
    assert(b.subrange(o0, o0 + r0.len()) == r0);
    lemma_split_at(b, o0, s0, r1);
    let o1 = o0 + s0.len();
    lemma_split_at(b, o1, s1, r2);
    let o2 = o1 + s1.len();
    assert(b[o2] == b.subrange(o2, o2 + r2.len())[0]);
    lemma_sp_u64_at(b, o1, n.id);
    lemma_split_at(b, o2, s2, r3);
    let o3 = o2 + s2.len();
    lemma_split_at(b, o3, s3, r4);
    let o4 = o3 + s3.len();
    assert(b[o4] == b.subrange(o4, o4 + r4.len())[0]);
    lemma_sp_u64_at(b, o3, n.runtime);
    lemma_split_at(b, o4, s4, r5);
    let o5 = o4 + s4.len();
    lemma_split_at(b, o5, s5, r6);
    let o6 = o5 + s5.len();
    assert(b[o6] == b.subrange(o6, o6 + r6.len())[0]);
    lemma_sp_u64_at(b, o5, kind_code(n.kind));
    lemma_split_at(b, o6, s6, r7);
    let o7 = o6 + s6.len();
    assert(b[o7 + s7.len()] == 44);
    lemma_sp_u64_at(b, o7, n.ext);
}

#[verifier::rlimit(100)]
#[verifier::spinoff_prover]
pub proof fn lemma_sp_node_tail_at(b: Seq<u8>, i: int, n: SpecNode)
    requires
        0 <= i,
        i + enc_node_tail(n).len() <= b.len(),
        b.subrange(i, i + enc_node_tail(n).len()) == enc_node_tail(n),
    ensures
        sp_node_tail(b, i) == Some(((n.inputs, n.outputs, n.config), i + enc_node_tail(n).len())),
{
    let s0 = lit_k_inputs();
    let s1 = enc_port_list(n.inputs);
    let s2 = lit_k_outputs();
    let s3 = enc_port_list(n.outputs);
    let s4 = lit_k_config();
    let s5 = enc_u64_list(n.config);
    let s6 = lit_rbrace();
    let r6 = s6;
    let r5 = s5 + r6;
    let r4 = s4 + r5;
    let r3 = s3 + r4;
    let r2 = s2 + r3;
    let r1 = s1 + r2;
    let r0 = s0 + r1;
    assert(enc_node_tail(n) =~= r0);
    let o0 = i;
    assert(b.subrange(o0, o0 + r0.len()) == r0);
    lemma_split_at(b, o0, s0, r1);
    let o1 = o0 + s0.len();
    lemma_split_at(b, o1, s1, r2);
    let o2 = o1 + s1.len();
    lemma_sp_port_list_at(b, o1, n.inputs);
    lemma_split_at(b, o2, s2, r3);
    let o3 = o2 + s2.len();
    lemma_split_at(b, o3, s3, r4);
    let o4 = o3 + s3.len();
    lemma_sp_port_list_at(b, o3, n.outputs);
    lemma_split_at(b, o4, s4, r5);
    let o5 = o4 + s4.len();
    lemma_split_at(b, o5, s5, r6);
    let o6 = o5 + s5.len();
    lemma_sp_u64_list_at(b, o5, n.config);
}

#[verifier::rlimit(100)]
#[verifier::spinoff_prover]
pub proof fn lemma_sp_node_at(b: Seq<u8>, i: int, n: SpecNode)
    requires
        0 <= i,
        i + enc_node(n).len() <= b.len(),
        b.subrange(i, i + enc_node(n).len()) == enc_node(n),
    ensures
        sp_node(b, i) == Some((n, i + enc_node(n).len())),
{
    let s0 = enc_node_head(n);
    let s1 = enc_node_tail(n);
    assert(b.subrange(i, i + s0.len() + s1.len()) == s0 + s1);
    lemma_split_at(b, i, s0, s1);
    let o1 = i + s0.len();
    assert(b[o1] == b.subrange(o1, o1 + s1.len())[0]);
    lemma_sp_node_head_at(b, i, n);
    lemma_sp_node_tail_at(b, o1, n);
}

pub open spec fn enc_record(r: SpecRecord) -> Seq<u8> {
    lit_obj_id() + enc_u64(r.id) + lit_k_nodes() + enc_node_list(r.nodes) + lit_k_links()
        + enc_link_list(r.links) + lit_rbrace()
}

pub open spec fn sp_record(b: Seq<u8>, i: int) -> Option<(SpecRecord, int)> {
    match sp_lit(b, i, lit_obj_id()) {
        None => None,
        Some(i1) => match sp_u64(b, i1) {
            None => None,
            Some((id, i2)) => match sp_lit(b, i2, lit_k_nodes()) {
                None => None,
                Some(i3) => match sp_node_list(b, i3) {
                    None => None,
                    Some((nodes, i4)) => match sp_lit(b, i4, lit_k_links()) {
                        None => None,
                        Some(i5) => match sp_link_list(b, i5) {
                            None => None,
                            Some((links, i6)) => match sp_lit(b, i6, lit_rbrace()) {
                                None => None,
                                Some(i7) => Some((SpecRecord { id, nodes, links }, i7)),
                            },
                        },
                    },
                },
            },
        },
    }
}

#[verifier::rlimit(100)]
#[verifier::spinoff_prover]
pub proof fn lemma_sp_record_at(b: Seq<u8>, i: int, r: SpecRecord)
    requires
        0 <= i,
        i + enc_record(r).len() <= b.len(),
        b.subrange(i, i + enc_record(r).len()) == enc_record(r),
    ensures
        sp_record(b, i) == Some((r, i + enc_record(r).len())),
{
    let s0 = lit_obj_id();
    let s1 = enc_u64(r.id);
    let s2 = lit_k_nodes();
    let s3 = enc_node_list(r.nodes);
    let s4 = lit_k_links();
    let s5 = enc_link_list(r.links);
    let s6 = lit_rbrace();
    let r6 = s6;
    let r5 = s5 + r6;
    let r4 = s4 + r5;
    let r3 = s3 + r4;
    let r2 = s2 + r3;
    let r1 = s1 + r2;
    let r0 = s0 + r1;
    assert(enc_record(r) =~= r0);
    let o0 = i;
    assert(b.subrange(o0, o0 + r0.len()) == r0);
    lemma_split_at(b, o0, s0, r1);
    let o1 = o0 + s0.len();
    lemma_split_at(b, o1, s1, r2);
    let o2 = o1 + s1.len();
    assert(b[o2] == b.subrange(o2, o2 + r2.len())[0]);
    lemma_sp_u64_at(b, o1, r.id);
    lemma_split_at(b, o2, s2, r3);
    let o3 = o2 + s2.len();
    lemma_split_at(b, o3, s3, r4);
    let o4 = o3 + s3.len();
    lemma_sp_node_list_at(b, o3, r.nodes);
    lemma_split_at(b, o4, s4, r5);
    let o5 = o4 + s4.len();
    lemma_split_at(b, o5, s5, r6);
    let o6 = o5 + s5.len();
    lemma_sp_link_list_at(b, o5, r.links);
}


// ---------------------------------------------------------------------------
// Whole requests.
// ---------------------------------------------------------------------------

pub open spec fn enc_iq(q: SpecInstancesQuery) -> Seq<u8> {
    match q {
        SpecInstancesQuery::Create { origin, record } => lit_h_create() + enc_origin(origin)
            + lit_k_record() + enc_record(record) + lit_rbrace(),
        SpecInstancesQuery::Start { origin, id } => lit_h_start() + enc_origin(origin) + lit_k_id()
            + enc_u64(id) + lit_rbrace(),
        SpecInstancesQuery::Abort { origin, id } => lit_h_abort() + enc_origin(origin) + lit_k_id()
            + enc_u64(id) + lit_rbrace(),
        SpecInstancesQuery::Delete { origin, id } => lit_h_delete() + enc_origin(origin)
            + lit_k_id() + enc_u64(id) + lit_rbrace(),
        SpecInstancesQuery::List => lit_l_list(),
        SpecInstancesQuery::Status { id } => lit_h_status() + enc_u64(id) + lit_rbrace(),
        SpecInstancesQuery::Record { id } => lit_h_record() + enc_u64(id) + lit_rbrace(),
    }
}

pub open spec fn sp_iq_create(b: Seq<u8>, i1: int) -> Option<(SpecInstancesQuery, int)> {
    match sp_origin(b, i1) {
        None => None,
        Some((o, i2)) => match sp_lit(b, i2, lit_k_record()) {
            None => None,
            Some(i3) => match sp_record(b, i3) {
                None => None,
                Some((r, i4)) => match sp_lit(b, i4, lit_rbrace()) {
                    None => None,
                    Some(i5) => Some((SpecInstancesQuery::Create { origin: o, record: r }, i5)),
                },
            },
        },
    }
}

pub open spec fn sp_iq_lifecycle(b: Seq<u8>, i1: int, which: int) -> Option<
    (SpecInstancesQuery, int),
> {
    match sp_origin(b, i1) {
        None => None,
        Some((o, i2)) => match sp_lit(b, i2, lit_k_id()) {
            None => None,
            Some(i3) => match sp_u64(b, i3) {
                None => None,
                Some((id, i4)) => match sp_lit(b, i4, lit_rbrace()) {
                    None => None,
                    Some(i5) => if which == 0 {
                        Some((SpecInstancesQuery::Start { origin: o, id }, i5))
                    } else if which == 1 {
                        Some((SpecInstancesQuery::Abort { origin: o, id }, i5))
                    } else {
                        Some((SpecInstancesQuery::Delete { origin: o, id }, i5))
                    },
                },
            },
        },
    }
}

pub open spec fn sp_iq_by_id(b: Seq<u8>, i1: int, status: bool) -> Option<
    (SpecInstancesQuery, int),
> {
    match sp_u64(b, i1) {
        None => None,
        Some((id, i2)) => match sp_lit(b, i2, lit_rbrace()) {
            None => None,
            Some(i3) => if status {
                Some((SpecInstancesQuery::Status { id }, i3))
            } else {
                Some((SpecInstancesQuery::Record { id }, i3))
            },
        },
    }
}

pub open spec fn sp_iq(b: Seq<u8>, i: int) -> Option<(SpecInstancesQuery, int)> {
    match sp_lit(b, i, lit_h_create()) {
        Some(i1) => sp_iq_create(b, i1),
        None => match sp_lit(b, i, lit_h_start()) {
            Some(i1) => sp_iq_lifecycle(b, i1, 0),
            None => match sp_lit(b, i, lit_h_abort()) {
                Some(i1) => sp_iq_lifecycle(b, i1, 1),
                None => match sp_lit(b, i, lit_h_delete()) {
                    Some(i1) => sp_iq_lifecycle(b, i1, 2),
                    None => match sp_lit(b, i, lit_l_list()) {
                        Some(j) => Some((SpecInstancesQuery::List, j)),
                        None => match sp_lit(b, i, lit_h_status()) {
                            Some(i1) => sp_iq_by_id(b, i1, true),
                            None => match sp_lit(b, i, lit_h_record()) {
                                Some(i1) => sp_iq_by_id(b, i1, false),
                                None => None,
                            },
                        },
                    },
                },
            },
        },
    }
}

/// What decoding a whole payload yields: the parsed request, provided the
/// parse consumed every byte.
pub open spec fn dec_iq(b: Seq<u8>) -> Option<SpecInstancesQuery> {
    match sp_iq(b, 0) {
        Some((q, j)) => if j == b.len() {
            Some(q)
        } else {
            None
        },
        None => None,
    }
}

pub open spec fn enc_rq(q: RuntimesQuery) -> Seq<u8> {
    match q {
        RuntimesQuery::Info => lit_rt_info(),
        RuntimesQuery::Status => lit_rt_status(),
        RuntimesQuery::List => lit_l_list(),
    }
}

pub open spec fn sp_rq(b: Seq<u8>, i: int) -> Option<(RuntimesQuery, int)> {
    match sp_lit(b, i, lit_rt_info()) {
        Some(j) => Some((RuntimesQuery::Info, j)),
        None => match sp_lit(b, i, lit_rt_status()) {
            Some(j) => Some((RuntimesQuery::Status, j)),
            None => match sp_lit(b, i, lit_l_list()) {
                Some(j) => Some((RuntimesQuery::List, j)),
                None => None,
            },
        },
    }
}

pub open spec fn dec_rq(b: Seq<u8>) -> Option<RuntimesQuery> {
    match sp_rq(b, 0) {
        Some((q, j)) => if j == b.len() {
            Some(q)
        } else {
            None
        },
        None => None,
    }
}


#[verifier::rlimit(100)]
#[verifier::spinoff_prover]
proof fn lemma_iq_rt_create(origin: Origin, record: SpecRecord)
    ensures
        dec_iq(enc_iq(SpecInstancesQuery::Create { origin, record })) == Some(SpecInstancesQuery::Create { origin, record }),
{
    let q = SpecInstancesQuery::Create { origin, record };
    let b = enc_iq(q);
    assert(b.subrange(0, b.len() as int) =~= b);
    let s0 = lit_h_create();
    let s1 = enc_origin(origin);
    let s2 = lit_k_record();
    let s3 = enc_record(record);
    let s4 = lit_rbrace();
    let r4 = s4;
    let r3 = s3 + r4;
    let r2 = s2 + r3;
    let r1 = s1 + r2;
    let r0 = s0 + r1;
    assert(b =~= r0);
    assert(b.subrange(0, r0.len() as int) == r0);
    lemma_split_at(b, 0, s0, r1);
    let o1 = s0.len() as int;
    lemma_split_at(b, o1, s1, r2);
    let o2 = o1 + s1.len();
    lemma_sp_origin_at(b, o1, origin);
    lemma_split_at(b, o2, s2, r3);
    let o3 = o2 + s2.len();
    lemma_split_at(b, o3, s3, r4);
    let o4 = o3 + s3.len();
    lemma_sp_record_at(b, o3, record);
}




#[verifier::rlimit(100)]
#[verifier::spinoff_prover]
proof fn lemma_iq_rt_list()
    ensures
        dec_iq(enc_iq(SpecInstancesQuery::List)) == Some(SpecInstancesQuery::List),
{
    let q = SpecInstancesQuery::List;
    let b = enc_iq(q);
    assert(b.subrange(0, b.len() as int) =~= b);
    assert(sp_lit(b, 0, lit_l_list()) == Some(16int));
}

#[verifier::rlimit(100)]
#[verifier::spinoff_prover]
proof fn lemma_iq_rt_status(id: u64)
    ensures
        dec_iq(enc_iq(SpecInstancesQuery::Status { id })) == Some(SpecInstancesQuery::Status { id }),
{
    let q = SpecInstancesQuery::Status { id };
    let b = enc_iq(q);
    assert(b.subrange(0, b.len() as int) =~= b);
    let s0 = lit_h_status();
    let s1 = enc_u64(id);
    let s2 = lit_rbrace();
    let r2 = s2;
    let r1 = s1 + r2;
    let r0 = s0 + r1;
    assert(b =~= r0);
    assert(b.subrange(0, r0.len() as int) == r0);
    lemma_split_at(b, 0, s0, r1);
    let o1 = s0.len() as int;
    lemma_split_at(b, o1, s1, r2);
    let o2 = o1 + s1.len();
    assert(b[o2] == b.subrange(o2, o2 + r2.len())[0]);
    lemma_sp_u64_at(b, o1, id);
assert(b[10] == b.subrange(0, s0.len() as int)[10]);
lemma_lit_mismatch_at(b, 0, lit_h_create(), 10, 115);
assert(b[13] == b.subrange(0, s0.len() as int)[13]);
lemma_lit_mismatch_at(b, 0, lit_h_start(), 13, 116);
assert(b[10] == b.subrange(0, s0.len() as int)[10]);
lemma_lit_mismatch_at(b, 0, lit_h_abort(), 10, 115);
assert(b[10] == b.subrange(0, s0.len() as int)[10]);
lemma_lit_mismatch_at(b, 0, lit_h_delete(), 10, 115);
assert(b[10] == b.subrange(0, s0.len() as int)[10]);
lemma_lit_mismatch_at(b, 0, lit_l_list(), 10, 115);
}

#[verifier::rlimit(100)]
#[verifier::spinoff_prover]
proof fn lemma_iq_rt_record(id: u64)
    ensures
        dec_iq(enc_iq(SpecInstancesQuery::Record { id })) == Some(SpecInstancesQuery::Record { id }),
{
    let q = SpecInstancesQuery::Record { id };
    let b = enc_iq(q);
    assert(b.subrange(0, b.len() as int) =~= b);
    let s0 = lit_h_record();
    let s1 = enc_u64(id);
    let s2 = lit_rbrace();
    let r2 = s2;
    let r1 = s1 + r2;
    let r0 = s0 + r1;
    assert(b =~= r0);
    assert(b.subrange(0, r0.len() as int) == r0);
    lemma_split_at(b, 0, s0, r1);
    let o1 = s0.len() as int;
    lemma_split_at(b, o1, s1, r2);
    let o2 = o1 + s1.len();
    assert(b[o2] == b.subrange(o2, o2 + r2.len())[0]);
    lemma_sp_u64_at(b, o1, id);
assert(b[10] == b.subrange(0, s0.len() as int)[10]);
lemma_lit_mismatch_at(b, 0, lit_h_create(), 10, 114);
assert(b[10] == b.subrange(0, s0.len() as int)[10]);
lemma_lit_mismatch_at(b, 0, lit_h_start(), 10, 114);
assert(b[10] == b.subrange(0, s0.len() as int)[10]);
lemma_lit_mismatch_at(b, 0, lit_h_abort(), 10, 114);
assert(b[10] == b.subrange(0, s0.len() as int)[10]);
lemma_lit_mismatch_at(b, 0, lit_h_delete(), 10, 114);
assert(b[10] == b.subrange(0, s0.len() as int)[10]);
lemma_lit_mismatch_at(b, 0, lit_l_list(), 10, 114);
assert(b[10] == b.subrange(0, s0.len() as int)[10]);
lemma_lit_mismatch_at(b, 0, lit_h_status(), 10, 114);
}


#[verifier::rlimit(100)]
#[verifier::spinoff_prover]
proof fn lemma_sp_iq_lifecycle_at(b: Seq<u8>, i1: int, origin: Origin, id: u64, which: int)
    requires
        0 <= i1,
        i1 + enc_origin(origin).len() + lit_k_id().len() + enc_u64(id).len() + lit_rbrace().len()
            <= b.len(),
        b.subrange(
            i1,
            i1 + enc_origin(origin).len() + lit_k_id().len() + enc_u64(id).len()
                + lit_rbrace().len(),
        ) == enc_origin(origin) + (lit_k_id() + (enc_u64(id) + lit_rbrace())),
    ensures
        sp_iq_lifecycle(b, i1, which) == Some(
            (
                if which == 0 {
                    SpecInstancesQuery::Start { origin, id }
                } else if which == 1 {
                    SpecInstancesQuery::Abort { origin, id }
                } else {
                    SpecInstancesQuery::Delete { origin, id }
                },
                i1 + enc_origin(origin).len() + lit_k_id().len() + enc_u64(id).len()
                    + lit_rbrace().len(),
            ),
        ),
{
    let s1 = enc_origin(origin);
    let s2 = lit_k_id();
    let s3 = enc_u64(id);
    let s4 = lit_rbrace();
    let r4 = s4;
    let r3 = s3 + r4;
    let r2 = s2 + r3;
    let r1 = s1 + r2;
    assert(b.subrange(i1, i1 + r1.len()) == r1);
    lemma_split_at(b, i1, s1, r2);
    let o2 = i1 + s1.len();
    lemma_sp_origin_at(b, i1, origin);
    lemma_split_at(b, o2, s2, r3);
    let o3 = o2 + s2.len();
    lemma_split_at(b, o3, s3, r4);
    let o4 = o3 + s3.len();
    assert(b[o4] == b.subrange(o4, o4 + r4.len())[0]);
    lemma_sp_u64_at(b, o3, id);
}

#[verifier::rlimit(100)]
#[verifier::spinoff_prover]
proof fn lemma_iq_rt_start(origin: Origin, id: u64)
    ensures
        dec_iq(enc_iq(SpecInstancesQuery::Start { origin, id })) == Some(
            SpecInstancesQuery::Start { origin, id },
        ),
{
    let q = SpecInstancesQuery::Start { origin, id };
    let b = enc_iq(q);
    assert(b.subrange(0, b.len() as int) =~= b);
    let s0 = lit_h_start();
    let r1 = enc_origin(origin) + (lit_k_id() + (enc_u64(id) + lit_rbrace()));
    assert(b =~= s0 + r1);
    assert(b.subrange(0, (s0.len() + r1.len()) as int) == s0 + r1);
    lemma_split_at(b, 0, s0, r1);
    let o1 = s0.len() as int;
    assert(b[10] == b.subrange(0, s0.len() as int)[10]);
    lemma_lit_mismatch_at(b, 0, lit_h_create(), 10, 115);
    lemma_sp_iq_lifecycle_at(b, o1, origin, id, 0);
}

#[verifier::rlimit(100)]
#[verifier::spinoff_prover]
proof fn lemma_iq_rt_abort(origin: Origin, id: u64)
    ensures
        dec_iq(enc_iq(SpecInstancesQuery::Abort { origin, id })) == Some(
            SpecInstancesQuery::Abort { origin, id },
        ),
{
    let q = SpecInstancesQuery::Abort { origin, id };
    let b = enc_iq(q);
    assert(b.subrange(0, b.len() as int) =~= b);
    let s0 = lit_h_abort();
    let r1 = enc_origin(origin) + (lit_k_id() + (enc_u64(id) + lit_rbrace()));
    assert(b =~= s0 + r1);
    assert(b.subrange(0, (s0.len() + r1.len()) as int) == s0 + r1);
    lemma_split_at(b, 0, s0, r1);
    let o1 = s0.len() as int;
    assert(b[10] == b.subrange(0, s0.len() as int)[10]);
    lemma_lit_mismatch_at(b, 0, lit_h_create(), 10, 97);
    assert(b[10] == b.subrange(0, s0.len() as int)[10]);
    lemma_lit_mismatch_at(b, 0, lit_h_start(), 10, 97);
    lemma_sp_iq_lifecycle_at(b, o1, origin, id, 1);
}


proof fn lemma_iq_delete_head_mismatches(b: Seq<u8>)
    requires
        10 < b.len(),
        b[10] == 100,
    ensures
        sp_lit(b, 0, lit_h_create()) is None,
        sp_lit(b, 0, lit_h_start()) is None,
        sp_lit(b, 0, lit_h_abort()) is None,
{
    lemma_lit_mismatch_at(b, 0, lit_h_create(), 10, 100);
    lemma_lit_mismatch_at(b, 0, lit_h_start(), 10, 100);
    lemma_lit_mismatch_at(b, 0, lit_h_abort(), 10, 100);
}

#[verifier::rlimit(100)]
#[verifier::spinoff_prover]
proof fn lemma_iq_rt_delete(origin: Origin, id: u64)
    ensures
        dec_iq(enc_iq(SpecInstancesQuery::Delete { origin, id })) == Some(
            SpecInstancesQuery::Delete { origin, id },
        ),
{
    let q = SpecInstancesQuery::Delete { origin, id };
    let b = enc_iq(q);
    assert(b.subrange(0, b.len() as int) =~= b);
    let s0 = lit_h_delete();
    let r1 = enc_origin(origin) + (lit_k_id() + (enc_u64(id) + lit_rbrace()));
    assert(b =~= s0 + r1);
    assert(b.subrange(0, (s0.len() + r1.len()) as int) == s0 + r1);
    lemma_split_at(b, 0, s0, r1);
    let o1 = s0.len() as int;
    assert(b[10] == b.subrange(0, s0.len() as int)[10]);
    lemma_iq_delete_head_mismatches(b);
    lemma_sp_iq_lifecycle_at(b, o1, origin, id, 2);
}

/// Decoding an encoded instances request gives the request back.
pub proof fn lemma_iq_round_trip(q: SpecInstancesQuery)
    ensures
        dec_iq(enc_iq(q)) == Some(q),
{
    match q {
        SpecInstancesQuery::Create { origin, record } => lemma_iq_rt_create(origin, record),
        SpecInstancesQuery::Start { origin, id } => lemma_iq_rt_start(origin, id),
        SpecInstancesQuery::Abort { origin, id } => lemma_iq_rt_abort(origin, id),
        SpecInstancesQuery::Delete { origin, id } => lemma_iq_rt_delete(origin, id),
        SpecInstancesQuery::List => lemma_iq_rt_list(),
        SpecInstancesQuery::Status { id } => lemma_iq_rt_status(id),
        SpecInstancesQuery::Record { id } => lemma_iq_rt_record(id),
    }
}

/// Decoding an encoded runtimes request gives the request back.
pub proof fn lemma_rq_round_trip(q: RuntimesQuery)
    ensures
        dec_rq(enc_rq(q)) == Some(q),
{
    let b = enc_rq(q);
    assert(b.subrange(0, b.len() as int) =~= b);
    match q {
        RuntimesQuery::Info => {
            assert(sp_lit(b, 0, lit_rt_info()) == Some(16int));
        },
        RuntimesQuery::Status => {
            let s0 = lit_rt_status();
            assert(b.subrange(0, s0.len() as int) == s0);
            assert(b[10] == b.subrange(0, s0.len() as int)[10]);
            lemma_lit_mismatch_at(b, 0, lit_rt_info(), 10, 115);
        },
        RuntimesQuery::List => {
            let s0 = lit_l_list();
            assert(b.subrange(0, s0.len() as int) == s0);
            assert(b[10] == b.subrange(0, s0.len() as int)[10]);
            lemma_lit_mismatch_at(b, 0, lit_rt_info(), 10, 108);
        },
    }
}


// ---------------------------------------------------------------------------
// Executable encoders.
// ---------------------------------------------------------------------------

pub fn push_origin(out: &mut Vec<u8>, o: Origin)
    ensures
        final(out)@ == old(out)@ + enc_origin(o),
{
    match o {
        Origin::Client => {
            let a = arr_org_client();
            push_lit(out, a.as_slice());
        },
        Origin::Daemon => {
            let a = arr_org_daemon();
            push_lit(out, a.as_slice());
        },
    }
}

pub fn push_port(out: &mut Vec<u8>, p: &PortDesc)
    ensures
        final(out)@ == old(out)@ + enc_port(*p),
{
    let lb = arr_lbrack();
    let cm = arr_comma();
    let rb = arr_rbrack();
    push_lit(out, lb.as_slice());
    push_u64(out, p.id);
    push_lit(out, cm.as_slice());
    push_u64(out, p.port_type);
    push_lit(out, rb.as_slice());
    proof {
        assert(out@ =~= old(out)@ + enc_port(*p));
    }
}

pub fn push_link(out: &mut Vec<u8>, l: &Link)
    ensures
        final(out)@ == old(out)@ + enc_link(*l),
{
    let lb = arr_lbrack();
    let cm = arr_comma();
    let rb = arr_rbrack();
    push_lit(out, lb.as_slice());
    push_u64(out, l.from_node);
    push_lit(out, cm.as_slice());
    push_u64(out, l.from_port);
    push_lit(out, cm.as_slice());
    push_u64(out, l.to_node);
    push_lit(out, cm.as_slice());
    push_u64(out, l.to_port);
    push_lit(out, rb.as_slice());
    proof {
        assert(out@ =~= old(out)@ + enc_link(*l));
    }
}

pub fn kind_to_code(k: NodeKind) -> (c: u64)
    ensures
        c == kind_code(k),
{
    match k {
        NodeKind::Source => 0,
        NodeKind::Operator => 1,
        NodeKind::Sink => 2,
    }
}

fn push_port_list_rest(out: &mut Vec<u8>, vs: &Vec<PortDesc>, k: usize)
    requires
        1 <= k <= vs@.len(),
    ensures
        final(out)@ == old(out)@ + enc_port_list_rest(vs@.skip(k as int)),
    decreases vs@.len() - k,
{
    if k == vs.len() {
        let rb = arr_rbrack();
        push_lit(out, rb.as_slice());
        proof {
            assert(vs@.skip(k as int) =~= Seq::<PortDesc>::empty());
        }
    } else {
        let cm = arr_comma();
        push_lit(out, cm.as_slice());
        push_port(out, &vs[k]);
        push_port_list_rest(out, vs, k + 1);
        proof {
            assert(vs@.skip(k as int).drop_first() =~= vs@.skip(k + 1));
            assert(vs@.skip(k as int)[0] == vs@[k as int]);
            assert(out@ =~= old(out)@ + enc_port_list_rest(vs@.skip(k as int)));
        }
    }
}

pub fn push_port_list(out: &mut Vec<u8>, vs: &Vec<PortDesc>)
    ensures
        final(out)@ == old(out)@ + enc_port_list(vs@),
{
    let lb = arr_lbrack();
    push_lit(out, lb.as_slice());
    if vs.len() == 0 {
        let rb = arr_rbrack();
        push_lit(out, rb.as_slice());
        proof {
            assert(out@ =~= old(out)@ + enc_port_list(vs@));
        }
    } else {
        push_port(out, &vs[0]);
        push_port_list_rest(out, vs, 1);
        proof {
            assert(vs@.skip(1) =~= vs@.drop_first());
            assert(out@ =~= old(out)@ + enc_port_list(vs@));
        }
    }
}

fn push_link_list_rest(out: &mut Vec<u8>, vs: &Vec<Link>, k: usize)
    requires
        1 <= k <= vs@.len(),
    ensures
        final(out)@ == old(out)@ + enc_link_list_rest(vs@.skip(k as int)),
    decreases vs@.len() - k,
{
    if k == vs.len() {
        let rb = arr_rbrack();
        push_lit(out, rb.as_slice());
        proof {
            assert(vs@.skip(k as int) =~= Seq::<Link>::empty());
        }
    } else {
        let cm = arr_comma();
        push_lit(out, cm.as_slice());
        push_link(out, &vs[k]);
        push_link_list_rest(out, vs, k + 1);
        proof {
            assert(vs@.skip(k as int).drop_first() =~= vs@.skip(k + 1));
            assert(vs@.skip(k as int)[0] == vs@[k as int]);
            assert(out@ =~= old(out)@ + enc_link_list_rest(vs@.skip(k as int)));
        }
    }
}

pub fn push_link_list(out: &mut Vec<u8>, vs: &Vec<Link>)
    ensures
        final(out)@ == old(out)@ + enc_link_list(vs@),
{
    let lb = arr_lbrack();
    push_lit(out, lb.as_slice());
    if vs.len() == 0 {
        let rb = arr_rbrack();
        push_lit(out, rb.as_slice());
        proof {
            assert(out@ =~= old(out)@ + enc_link_list(vs@));
        }
    } else {
        push_link(out, &vs[0]);
        push_link_list_rest(out, vs, 1);
        proof {
            assert(vs@.skip(1) =~= vs@.drop_first());
            assert(out@ =~= old(out)@ + enc_link_list(vs@));
        }
    }
}

fn push_u64_list_rest(out: &mut Vec<u8>, vs: &Vec<u64>, k: usize)
    requires
        1 <= k <= vs@.len(),
    ensures
        final(out)@ == old(out)@ + enc_u64_list_rest(vs@.skip(k as int)),
    decreases vs@.len() - k,
{
    if k == vs.len() {
        let rb = arr_rbrack();
        push_lit(out, rb.as_slice());
        proof {
            assert(vs@.skip(k as int) =~= Seq::<u64>::empty());
        }
    } else {
        let cm = arr_comma();
        push_lit(out, cm.as_slice());
        push_u64(out, vs[k]);
        push_u64_list_rest(out, vs, k + 1);
        proof {
            assert(vs@.skip(k as int).drop_first() =~= vs@.skip(k + 1));
            assert(vs@.skip(k as int)[0] == vs@[k as int]);
            assert(out@ =~= old(out)@ + enc_u64_list_rest(vs@.skip(k as int)));
        }
    }
}

pub fn push_u64_list(out: &mut Vec<u8>, vs: &Vec<u64>)
    ensures
        final(out)@ == old(out)@ + enc_u64_list(vs@),
{
    let lb = arr_lbrack();
    push_lit(out, lb.as_slice());
    if vs.len() == 0 {
        let rb = arr_rbrack();
        push_lit(out, rb.as_slice());
        proof {
            assert(out@ =~= old(out)@ + enc_u64_list(vs@));
        }
    } else {
        push_u64(out, vs[0]);
        push_u64_list_rest(out, vs, 1);
        proof {
            assert(vs@.skip(1) =~= vs@.drop_first());
            assert(out@ =~= old(out)@ + enc_u64_list(vs@));
        }
    }
}

#[verifier::rlimit(100)]
pub fn push_node(out: &mut Vec<u8>, n: &NodeDesc)
    ensures
        final(out)@ == old(out)@ + enc_node(node_view(*n)),
{
    let a0 = arr_obj_id();
    let a1 = arr_k_runtime();
    let a2 = arr_k_kind();
    let a3 = arr_k_ext();
    let a4 = arr_k_inputs();
    let a5 = arr_k_outputs();
    let a6 = arr_k_config();
    let a7 = arr_rbrace();
    push_lit(out, a0.as_slice());
    push_u64(out, n.id);
    push_lit(out, a1.as_slice());
    push_u64(out, n.runtime);
    push_lit(out, a2.as_slice());
    push_u64(out, kind_to_code(n.kind));
    push_lit(out, a3.as_slice());
    push_u64(out, n.ext);
    proof {
        assert(out@ =~= old(out)@ + enc_node_head(node_view(*n)));
    }
    push_lit(out, a4.as_slice());
    push_port_list(out, &n.inputs);
    push_lit(out, a5.as_slice());
    push_port_list(out, &n.outputs);
    push_lit(out, a6.as_slice());
    push_u64_list(out, &n.config);
    push_lit(out, a7.as_slice());
    proof {
        assert(out@ =~= old(out)@ + enc_node_head(node_view(*n)) + enc_node_tail(node_view(*n)));
        assert(out@ =~= old(out)@ + enc_node(node_view(*n)));
    }
}

fn push_node_list_rest(out: &mut Vec<u8>, vs: &Vec<NodeDesc>, k: usize)
    requires
        1 <= k <= vs@.len(),
    ensures
        final(out)@ == old(out)@ + enc_node_list_rest(
            vs@.skip(k as int).map_values(|n: NodeDesc| node_view(n)),
        ),
    decreases vs@.len() - k,
{
    if k == vs.len() {
        let rb = arr_rbrack();
        push_lit(out, rb.as_slice());
        proof {
            assert(vs@.skip(k as int).map_values(|n: NodeDesc| node_view(n))
                =~= Seq::<SpecNode>::empty());
        }
    } else {
        let cm = arr_comma();
        push_lit(out, cm.as_slice());
        push_node(out, &vs[k]);
        push_node_list_rest(out, vs, k + 1);
        proof {
            let m = vs@.skip(k as int).map_values(|n: NodeDesc| node_view(n));
            assert(m.drop_first() =~= vs@.skip(k + 1).map_values(|n: NodeDesc| node_view(n)));
            assert(m[0] == node_view(vs@[k as int]));
            assert(out@ =~= old(out)@ + enc_node_list_rest(m));
        }
    }
}

pub fn push_node_list(out: &mut Vec<u8>, vs: &Vec<NodeDesc>)
    ensures
        final(out)@ == old(out)@ + enc_node_list(vs@.map_values(|n: NodeDesc| node_view(n))),
{
    let lb = arr_lbrack();
    push_lit(out, lb.as_slice());
    let ghost m = vs@.map_values(|n: NodeDesc| node_view(n));
    if vs.len() == 0 {
        let rb = arr_rbrack();
        push_lit(out, rb.as_slice());
        proof {
            assert(m.len() == 0);
            assert(out@ =~= old(out)@ + enc_node_list(m));
        }
    } else {
        push_node(out, &vs[0]);
        push_node_list_rest(out, vs, 1);
        proof {
            assert(m.drop_first() =~= vs@.skip(1).map_values(|n: NodeDesc| node_view(n)));
            assert(m[0] == node_view(vs@[0]));
            assert(out@ =~= old(out)@ + enc_node_list(m));
        }
    }
}

#[verifier::rlimit(100)]
pub fn push_record(out: &mut Vec<u8>, r: &DataFlowRecord)
    ensures
        final(out)@ == old(out)@ + enc_record(record_view(*r)),
{
    let a0 = arr_obj_id();
    let a1 = arr_k_nodes();
    let a2 = arr_k_links();
    let a3 = arr_rbrace();
    push_lit(out, a0.as_slice());
    push_u64(out, r.id);
    push_lit(out, a1.as_slice());
    push_node_list(out, &r.nodes);
    push_lit(out, a2.as_slice());
    push_link_list(out, &r.links);
    push_lit(out, a3.as_slice());
    proof {
        assert(out@ =~= old(out)@ + enc_record(record_view(*r)));
    }
}

/// The canonical bytes of a record, used both on the wire and for the
/// byte-identity check of a duplicate create.
pub fn encode_record(r: &DataFlowRecord) -> (out: Vec<u8>)
    ensures
        out@ == enc_record(record_view(*r)),
{
    let mut out: Vec<u8> = Vec::new();
    push_record(&mut out, r);
    out
}

/// Encodes one instances request as its canonical JSON bytes.
#[verifier::rlimit(100)]
pub fn encode_instances_query(q: &InstancesQuery) -> (out: Vec<u8>)
    ensures
        out@ == enc_iq(query_view(*q)),
{
    let mut out: Vec<u8> = Vec::new();
    match q {
        InstancesQuery::Create { origin, record } => {
            let a = arr_h_create();
            let k = arr_k_record();
            let rb = arr_rbrace();
            push_lit(&mut out, a.as_slice());
            push_origin(&mut out, *origin);
            push_lit(&mut out, k.as_slice());
            push_record(&mut out, record);
            push_lit(&mut out, rb.as_slice());
            proof {
                assert(out@ =~= enc_iq(query_view(*q)));
            }
        },
        InstancesQuery::Start { origin, id } => {
            let a = arr_h_start();
            let k = arr_k_id();
            let rb = arr_rbrace();
            push_lit(&mut out, a.as_slice());
            push_origin(&mut out, *origin);
            push_lit(&mut out, k.as_slice());
            push_u64(&mut out, *id);
            push_lit(&mut out, rb.as_slice());
            proof {
                assert(out@ =~= enc_iq(query_view(*q)));
            }
        },
        InstancesQuery::Abort { origin, id } => {
            let a = arr_h_abort();
            let k = arr_k_id();
            let rb = arr_rbrace();
            push_lit(&mut out, a.as_slice());
            push_origin(&mut out, *origin);
            push_lit(&mut out, k.as_slice());
            push_u64(&mut out, *id);
            push_lit(&mut out, rb.as_slice());
            proof {
                assert(out@ =~= enc_iq(query_view(*q)));
            }
        },
        InstancesQuery::Delete { origin, id } => {
            let a = arr_h_delete();
            let k = arr_k_id();
            let rb = arr_rbrace();
            push_lit(&mut out, a.as_slice());
            push_origin(&mut out, *origin);
            push_lit(&mut out, k.as_slice());
            push_u64(&mut out, *id);
            push_lit(&mut out, rb.as_slice());
            proof {
                assert(out@ =~= enc_iq(query_view(*q)));
            }
        },
        InstancesQuery::List => {
            let a = arr_l_list();
            push_lit(&mut out, a.as_slice());
            proof {
                assert(out@ =~= enc_iq(query_view(*q)));
            }
        },
        InstancesQuery::Status { id } => {
            let a = arr_h_status();
            let rb = arr_rbrace();
            push_lit(&mut out, a.as_slice());
            push_u64(&mut out, *id);
            push_lit(&mut out, rb.as_slice());
            proof {
                assert(out@ =~= enc_iq(query_view(*q)));
            }
        },
        InstancesQuery::Record { id } => {
            let a = arr_h_record();
            let rb = arr_rbrace();
            push_lit(&mut out, a.as_slice());
            push_u64(&mut out, *id);
            push_lit(&mut out, rb.as_slice());
            proof {
                assert(out@ =~= enc_iq(query_view(*q)));
            }
        },
    }
    out
}

/// Encodes one runtimes request as its canonical JSON bytes.
pub fn encode_runtimes_query(q: &RuntimesQuery) -> (out: Vec<u8>)
    ensures
        out@ == enc_rq(*q),
{
    let mut out: Vec<u8> = Vec::new();
    match q {
        RuntimesQuery::Info => {
            let a = arr_rt_info();
            push_lit(&mut out, a.as_slice());
        },
        RuntimesQuery::Status => {
            let a = arr_rt_status();
            push_lit(&mut out, a.as_slice());
        },
        RuntimesQuery::List => {
            let a = arr_l_list();
            push_lit(&mut out, a.as_slice());
        },
    }
    out
}

/// Byte equality of two buffers.
pub fn bytes_eq(a: &Vec<u8>, b: &Vec<u8>) -> (r: bool)
    ensures
        r == (a@ == b@),
{
    if a.len() != b.len() {
        return false;
    }
    let n = a.len();
    let mut k: usize = 0;
    while k < n
        invariant
            k <= n,
            n == a@.len() && n == b@.len(),
            forall|m: int| 0 <= m < k ==> a@[m] == b@[m],
        decreases n - k,
    {
        if a[k] != b[k] {
            return false;
        }
        k = k + 1;
    }
    proof {
        assert(a@ =~= b@);
    }
    true
}


// ---------------------------------------------------------------------------
// Executable decoder.
// ---------------------------------------------------------------------------

pub fn parse_origin(b: &[u8], i: usize) -> (r: Option<(Origin, usize)>)
    requires
        i <= b@.len(),
    ensures
        match r {
            Some((o, j)) => sp_origin(b@, i as int) == Some((o, j as int)) && i < j <= b@.len(),
            None => sp_origin(b@, i as int) is None,
        },
{
    let lc = arr_org_client();
    match eat_lit(b, i, lc.as_slice()) {
        Some(j) => Some((Origin::Client, j)),
        None => {
            let ld = arr_org_daemon();
            match eat_lit(b, i, ld.as_slice()) {
                Some(j) => Some((Origin::Daemon, j)),
                None => None,
            }
        },
    }
}

pub fn parse_port(b: &[u8], i: usize) -> (r: Option<(PortDesc, usize)>)
    requires
        i <= b@.len(),
    ensures
        match r {
            Some((p, j)) => sp_port(b@, i as int) == Some((p, j as int)) && i < j <= b@.len(),
            None => sp_port(b@, i as int) is None,
        },
{
    let lb = arr_lbrack();
    let cm = arr_comma();
    let rb = arr_rbrack();
    let i1 = match eat_lit(b, i, lb.as_slice()) {
        Some(x) => x,
        None => {
            return None;
        },
    };
    let (id, i2) = match parse_u64(b, i1) {
        Some(x) => x,
        None => {
            return None;
        },
    };
    let i3 = match eat_lit(b, i2, cm.as_slice()) {
        Some(x) => x,
        None => {
            return None;
        },
    };
    let (ty, i4) = match parse_u64(b, i3) {
        Some(x) => x,
        None => {
            return None;
        },
    };
    let i5 = match eat_lit(b, i4, rb.as_slice()) {
        Some(x) => x,
        None => {
            return None;
        },
    };
    Some((PortDesc { id, port_type: ty }, i5))
}

pub fn parse_link(b: &[u8], i: usize) -> (r: Option<(Link, usize)>)
    requires
        i <= b@.len(),
    ensures
        match r {
            Some((l, j)) => sp_link(b@, i as int) == Some((l, j as int)) && i < j <= b@.len(),
            None => sp_link(b@, i as int) is None,
        },
{
    let lb = arr_lbrack();
    let cm = arr_comma();
    let rb = arr_rbrack();
    let i1 = match eat_lit(b, i, lb.as_slice()) {
        Some(x) => x,
        None => {
            return None;
        },
    };
    let (fnode, i2) = match parse_u64(b, i1) {
        Some(x) => x,
        None => {
            return None;
        },
    };
    let i3 = match eat_lit(b, i2, cm.as_slice()) {
        Some(x) => x,
        None => {
            return None;
        },
    };
    let (fport, i4) = match parse_u64(b, i3) {
        Some(x) => x,
        None => {
            return None;
        },
    };
    let i5 = match eat_lit(b, i4, cm.as_slice()) {
        Some(x) => x,
        None => {
            return None;
        },
    };
    let (tnode, i6) = match parse_u64(b, i5) {
        Some(x) => x,
        None => {
            return None;
        },
    };
    let i7 = match eat_lit(b, i6, cm.as_slice()) {
        Some(x) => x,
        None => {
            return None;
        },
    };
    let (tport, i8) = match parse_u64(b, i7) {
        Some(x) => x,
        None => {
            return None;
        },
    };
    let i9 = match eat_lit(b, i8, rb.as_slice()) {
        Some(x) => x,
        None => {
            return None;
        },
    };
    Some((Link { from_node: fnode, from_port: fport, to_node: tnode, to_port: tport }, i9))
}

fn parse_port_list_rest(b: &[u8], i: usize) -> (r: Option<(Vec<PortDesc>, usize)>)
    requires
        i <= b@.len(),
    ensures
        match r {
            Some((vs, j)) => sp_port_list_rest(b@, i as int) == Some((vs@, j as int)) && i < j
                <= b@.len(),
            None => sp_port_list_rest(b@, i as int) is None,
        },
    decreases b@.len() - i,
{
    let rb = arr_rbrack();
    let cm = arr_comma();
    match eat_lit(b, i, rb.as_slice()) {
        Some(j) => {
            let vs: Vec<PortDesc> = Vec::new();
            proof {
                assert(vs@ =~= Seq::<PortDesc>::empty());
            }
            Some((vs, j))
        },
        None => {
            let i1 = match eat_lit(b, i, cm.as_slice()) {
                Some(x) => x,
                None => {
                    return None;
                },
            };
            let (v, i2) = match parse_port(b, i1) {
                Some(x) => x,
                None => {
                    return None;
                },
            };
            let (mut vs, i3) = match parse_port_list_rest(b, i2) {
                Some(x) => x,
                None => {
                    return None;
                },
            };
            vs.insert(0, v);
            proof {
                assert(vs@ =~= seq![v] + vs@.drop_first());
            }
            Some((vs, i3))
        },
    }
}

pub fn parse_port_list(b: &[u8], i: usize) -> (r: Option<(Vec<PortDesc>, usize)>)
    requires
        i <= b@.len(),
    ensures
        match r {
            Some((vs, j)) => sp_port_list(b@, i as int) == Some((vs@, j as int)) && i < j <= b@.len(),
            None => sp_port_list(b@, i as int) is None,
        },
{
    let lb = arr_lbrack();
    let rb = arr_rbrack();
    let i1 = match eat_lit(b, i, lb.as_slice()) {
        Some(x) => x,
        None => {
            return None;
        },
    };
    match eat_lit(b, i1, rb.as_slice()) {
        Some(j) => {
            let vs: Vec<PortDesc> = Vec::new();
            proof {
                assert(vs@ =~= Seq::<PortDesc>::empty());
            }
            Some((vs, j))
        },
        None => {
            let (v, i2) = match parse_port(b, i1) {
                Some(x) => x,
                None => {
                    return None;
                },
            };
            let (mut vs, i3) = match parse_port_list_rest(b, i2) {
                Some(x) => x,
                None => {
                    return None;
                },
            };
            vs.insert(0, v);
            proof {
                assert(vs@ =~= seq![v] + vs@.drop_first());
            }
            Some((vs, i3))
        },
    }
}

fn parse_link_list_rest(b: &[u8], i: usize) -> (r: Option<(Vec<Link>, usize)>)
    requires
        i <= b@.len(),
    ensures
        match r {
            Some((vs, j)) => sp_link_list_rest(b@, i as int) == Some((vs@, j as int)) && i < j
                <= b@.len(),
            None => sp_link_list_rest(b@, i as int) is None,
        },
    decreases b@.len() - i,
{
    let rb = arr_rbrack();
    let cm = arr_comma();
    match eat_lit(b, i, rb.as_slice()) {
        Some(j) => {
            let vs: Vec<Link> = Vec::new();
            proof {
                assert(vs@ =~= Seq::<Link>::empty());
            }
            Some((vs, j))
        },
        None => {
            let i1 = match eat_lit(b, i, cm.as_slice()) {
                Some(x) => x,
                None => {
                    return None;
                },
            };
            let (v, i2) = match parse_link(b, i1) {
                Some(x) => x,
                None => {
                    return None;
                },
            };
            let (mut vs, i3) = match parse_link_list_rest(b, i2) {
                Some(x) => x,
                None => {
                    return None;
                },
            };
            vs.insert(0, v);
            proof {
                assert(vs@ =~= seq![v] + vs@.drop_first());
            }
            Some((vs, i3))
        },
    }
}

pub fn parse_link_list(b: &[u8], i: usize) -> (r: Option<(Vec<Link>, usize)>)
    requires
        i <= b@.len(),
    ensures
        match r {
            Some((vs, j)) => sp_link_list(b@, i as int) == Some((vs@, j as int)) && i < j <= b@.len(),
            None => sp_link_list(b@, i as int) is None,
        },
{
    let lb = arr_lbrack();
    let rb = arr_rbrack();
    let i1 = match eat_lit(b, i, lb.as_slice()) {
        Some(x) => x,
        None => {
            return None;
        },
    };
    match eat_lit(b, i1, rb.as_slice()) {
        Some(j) => {
            let vs: Vec<Link> = Vec::new();
            proof {
                assert(vs@ =~= Seq::<Link>::empty());
            }
            Some((vs, j))
        },
        None => {
            let (v, i2) = match parse_link(b, i1) {
                Some(x) => x,
                None => {
                    return None;
                },
            };
            let (mut vs, i3) = match parse_link_list_rest(b, i2) {
                Some(x) => x,
                None => {
                    return None;
                },
            };
            vs.insert(0, v);
            proof {
                assert(vs@ =~= seq![v] + vs@.drop_first());
            }
            Some((vs, i3))
        },
    }
}

fn parse_u64_list_rest(b: &[u8], i: usize) -> (r: Option<(Vec<u64>, usize)>)
    requires
        i <= b@.len(),
    ensures
        match r {
            Some((vs, j)) => sp_u64_list_rest(b@, i as int) == Some((vs@, j as int)) && i < j
                <= b@.len(),
            None => sp_u64_list_rest(b@, i as int) is None,
        },
    decreases b@.len() - i,
{
    let rb = arr_rbrack();
    let cm = arr_comma();
    match eat_lit(b, i, rb.as_slice()) {
        Some(j) => {
            let vs: Vec<u64> = Vec::new();
            proof {
                assert(vs@ =~= Seq::<u64>::empty());
            }
            Some((vs, j))
        },
        None => {
            let i1 = match eat_lit(b, i, cm.as_slice()) {
                Some(x) => x,
                None => {
                    return None;
                },
            };
            let (v, i2) = match parse_u64(b, i1) {
                Some(x) => x,
                None => {
                    return None;
                },
            };
            let (mut vs, i3) = match parse_u64_list_rest(b, i2) {
                Some(x) => x,
                None => {
                    return None;
                },
            };
            vs.insert(0, v);
            proof {
                assert(vs@ =~= seq![v] + vs@.drop_first());
            }
            Some((vs, i3))
        },
    }
}

pub fn parse_u64_list(b: &[u8], i: usize) -> (r: Option<(Vec<u64>, usize)>)
    requires
        i <= b@.len(),
    ensures
        match r {
            Some((vs, j)) => sp_u64_list(b@, i as int) == Some((vs@, j as int)) && i < j
                <= b@.len(),
            None => sp_u64_list(b@, i as int) is None,
        },
{
    let lb = arr_lbrack();
    let rb = arr_rbrack();
    let i1 = match eat_lit(b, i, lb.as_slice()) {
        Some(x) => x,
        None => {
            return None;
        },
    };
    match eat_lit(b, i1, rb.as_slice()) {
        Some(j) => {
            let vs: Vec<u64> = Vec::new();
            proof {
                assert(vs@ =~= Seq::<u64>::empty());
            }
            Some((vs, j))
        },
        None => {
            let (v, i2) = match parse_u64(b, i1) {
                Some(x) => x,
                None => {
                    return None;
                },
            };
            let (mut vs, i3) = match parse_u64_list_rest(b, i2) {
                Some(x) => x,
                None => {
                    return None;
                },
            };
            vs.insert(0, v);
            proof {
                assert(vs@ =~= seq![v] + vs@.drop_first());
            }
            Some((vs, i3))
        },
    }
}

#[verifier::rlimit(100)]
pub fn parse_node(b: &[u8], i: usize) -> (r: Option<(NodeDesc, usize)>)
    requires
        i <= b@.len(),
    ensures
        match r {
            Some((n, j)) => sp_node(b@, i as int) == Some((node_view(n), j as int)) && i < j
                <= b@.len(),
            None => sp_node(b@, i as int) is None,
        },
{
    let a0 = arr_obj_id();
    let a1 = arr_k_runtime();
    let a2 = arr_k_kind();
    let a3 = arr_k_ext();
    let a4 = arr_k_inputs();
    let a5 = arr_k_outputs();
    let a6 = arr_k_config();
    let a7 = arr_rbrace();
    let i1 = match eat_lit(b, i, a0.as_slice()) {
        Some(x) => x,
        None => {
            return None;
        },
    };
    let (id, i2) = match parse_u64(b, i1) {
        Some(x) => x,
        None => {
            return None;
        },
    };
    let i3 = match eat_lit(b, i2, a1.as_slice()) {
        Some(x) => x,
        None => {
            return None;
        },
    };
    let (runtime, i4) = match parse_u64(b, i3) {
        Some(x) => x,
        None => {
            return None;
        },
    };
    let i5 = match eat_lit(b, i4, a2.as_slice()) {
        Some(x) => x,
        None => {
            return None;
        },
    };
    let (kc, i6) = match parse_u64(b, i5) {
        Some(x) => x,
        None => {
            return None;
        },
    };
    let i7 = match eat_lit(b, i6, a3.as_slice()) {
        Some(x) => x,
        None => {
            return None;
        },
    };
    let (ext, i8) = match parse_u64(b, i7) {
        Some(x) => x,
        None => {
            return None;
        },
    };
    if kc > 2 {
        return None;
    }
    let kind = if kc == 0 {
        NodeKind::Source
    } else if kc == 1 {
        NodeKind::Operator
    } else {
        NodeKind::Sink
    };
    let i9 = match eat_lit(b, i8, a4.as_slice()) {
        Some(x) => x,
        None => {
            return None;
        },
    };
    let (inputs, i10) = match parse_port_list(b, i9) {
        Some(x) => x,
        None => {
            return None;
        },
    };
    let i11 = match eat_lit(b, i10, a5.as_slice()) {
        Some(x) => x,
        None => {
            return None;
        },
    };
    let (outputs, i12) = match parse_port_list(b, i11) {
        Some(x) => x,
        None => {
            return None;
        },
    };
    let i13 = match eat_lit(b, i12, a6.as_slice()) {
        Some(x) => x,
        None => {
            return None;
        },
    };
    let (config, i14) = match parse_u64_list(b, i13) {
        Some(x) => x,
        None => {
            return None;
        },
    };
    let i15 = match eat_lit(b, i14, a7.as_slice()) {
        Some(x) => x,
        None => {
            return None;
        },
    };
    let n = NodeDesc { id, runtime, kind, ext, inputs, outputs, config };
    Some((n, i15))
}

#[verifier::rlimit(100)]
#[verifier::spinoff_prover]
fn parse_node_list_rest(b: &[u8], i: usize) -> (r: Option<(Vec<NodeDesc>, usize)>)
    requires
        i <= b@.len(),
    ensures
        match r {
            Some((vs, j)) => sp_node_list_rest(b@, i as int) == Some(
                (vs@.map_values(|n: NodeDesc| node_view(n)), j as int),
            ) && i < j <= b@.len(),
            None => sp_node_list_rest(b@, i as int) is None,
        },
    decreases b@.len() - i,
{
    let rb = arr_rbrack();
    let cm = arr_comma();
    match eat_lit(b, i, rb.as_slice()) {
        Some(j) => {
            let vs: Vec<NodeDesc> = Vec::new();
            proof {
                assert(vs@.map_values(|n: NodeDesc| node_view(n)) =~= Seq::<SpecNode>::empty());
            }
            Some((vs, j))
        },
        None => {
            let i1 = match eat_lit(b, i, cm.as_slice()) {
                Some(x) => x,
                None => {
                    return None;
                },
            };
            let (v, i2) = match parse_node(b, i1) {
                Some(x) => x,
                None => {
                    return None;
                },
            };
            let (mut vs, i3) = match parse_node_list_rest(b, i2) {
                Some(x) => x,
                None => {
                    return None;
                },
            };
            let ghost tailm = vs@.map_values(|n: NodeDesc| node_view(n));
            vs.insert(0, v);
            proof {
                assert(vs@.map_values(|n: NodeDesc| node_view(n)) =~= seq![node_view(v)] + tailm);
            }
            Some((vs, i3))
        },
    }
}

#[verifier::rlimit(100)]
#[verifier::spinoff_prover]
pub fn parse_node_list(b: &[u8], i: usize) -> (r: Option<(Vec<NodeDesc>, usize)>)
    requires
        i <= b@.len(),
    ensures
        match r {
            Some((vs, j)) => sp_node_list(b@, i as int) == Some(
                (vs@.map_values(|n: NodeDesc| node_view(n)), j as int),
            ) && i < j <= b@.len(),
            None => sp_node_list(b@, i as int) is None,
        },
{
    let lb = arr_lbrack();
    let rb = arr_rbrack();
    let i1 = match eat_lit(b, i, lb.as_slice()) {
        Some(x) => x,
        None => {
            return None;
        },
    };
    match eat_lit(b, i1, rb.as_slice()) {
        Some(j) => {
            let vs: Vec<NodeDesc> = Vec::new();
            proof {
                assert(vs@.map_values(|n: NodeDesc| node_view(n)) =~= Seq::<SpecNode>::empty());
            }
            Some((vs, j))
        },
        None => {
            let (v, i2) = match parse_node(b, i1) {
                Some(x) => x,
                None => {
                    return None;
                },
            };
            let (mut vs, i3) = match parse_node_list_rest(b, i2) {
                Some(x) => x,
                None => {
                    return None;
                },
            };
            let ghost tailm = vs@.map_values(|n: NodeDesc| node_view(n));
            vs.insert(0, v);
            proof {
                assert(vs@.map_values(|n: NodeDesc| node_view(n)) =~= seq![node_view(v)] + tailm);
            }
            Some((vs, i3))
        },
    }
}

pub fn parse_record(b: &[u8], i: usize) -> (r: Option<(DataFlowRecord, usize)>)
    requires
        i <= b@.len(),
    ensures
        match r {
            Some((rec, j)) => sp_record(b@, i as int) == Some((record_view(rec), j as int)) && i
                < j <= b@.len(),
            None => sp_record(b@, i as int) is None,
        },
{
    let a0 = arr_obj_id();
    let a1 = arr_k_nodes();
    let a2 = arr_k_links();
    let a3 = arr_rbrace();
    let i1 = match eat_lit(b, i, a0.as_slice()) {
        Some(x) => x,
        None => {
            return None;
        },
    };
    let (id, i2) = match parse_u64(b, i1) {
        Some(x) => x,
        None => {
            return None;
        },
    };
    let i3 = match eat_lit(b, i2, a1.as_slice()) {
        Some(x) => x,
        None => {
            return None;
        },
    };
    let (nodes, i4) = match parse_node_list(b, i3) {
        Some(x) => x,
        None => {
            return None;
        },
    };
    let i5 = match eat_lit(b, i4, a2.as_slice()) {
        Some(x) => x,
        None => {
            return None;
        },
    };
    let (links, i6) = match parse_link_list(b, i5) {
        Some(x) => x,
        None => {
            return None;
        },
    };
    let i7 = match eat_lit(b, i6, a3.as_slice()) {
        Some(x) => x,
        None => {
            return None;
        },
    };
    Some((DataFlowRecord { id, nodes, links }, i7))
}

#[verifier::rlimit(100)]
fn parse_iq(b: &[u8]) -> (r: Option<(InstancesQuery, usize)>)
    ensures
        match r {
            Some((q, j)) => sp_iq(b@, 0) == Some((query_view(q), j as int)) && j <= b@.len(),
            None => sp_iq(b@, 0) is None,
        },
{
    let hc = arr_h_create();
    match eat_lit(b, 0, hc.as_slice()) {
        Some(i1) => {
            let (o, i2) = match parse_origin(b, i1) {
                Some(x) => x,
                None => {
                    return None;
                },
            };
            let kr = arr_k_record();
            let i3 = match eat_lit(b, i2, kr.as_slice()) {
                Some(x) => x,
                None => {
                    return None;
                },
            };
            let (rec, i4) = match parse_record(b, i3) {
                Some(x) => x,
                None => {
                    return None;
                },
            };
            let rb = arr_rbrace();
            let i5 = match eat_lit(b, i4, rb.as_slice()) {
                Some(x) => x,
                None => {
                    return None;
                },
            };
            return Some((InstancesQuery::Create { origin: o, record: rec }, i5));
        },
        None => {},
    }
    let hs = arr_h_start();
    match eat_lit(b, 0, hs.as_slice()) {
        Some(i1) => {
            let (o, i2) = match parse_origin(b, i1) {
                Some(x) => x,
                None => {
                    return None;
                },
            };
            let ki = arr_k_id();
            let i3 = match eat_lit(b, i2, ki.as_slice()) {
                Some(x) => x,
                None => {
                    return None;
                },
            };
            let (id, i4) = match parse_u64(b, i3) {
                Some(x) => x,
                None => {
                    return None;
                },
            };
            let rb = arr_rbrace();
            let i5 = match eat_lit(b, i4, rb.as_slice()) {
                Some(x) => x,
                None => {
                    return None;
                },
            };
            return Some((InstancesQuery::Start { origin: o, id }, i5));
        },
        None => {},
    }
    let ha = arr_h_abort();
    match eat_lit(b, 0, ha.as_slice()) {
        Some(i1) => {
            let (o, i2) = match parse_origin(b, i1) {
                Some(x) => x,
                None => {
                    return None;
                },
            };
            let ki = arr_k_id();
            let i3 = match eat_lit(b, i2, ki.as_slice()) {
                Some(x) => x,
                None => {
                    return None;
                },
            };
            let (id, i4) = match parse_u64(b, i3) {
                Some(x) => x,
                None => {
                    return None;
                },
            };
            let rb = arr_rbrace();
            let i5 = match eat_lit(b, i4, rb.as_slice()) {
                Some(x) => x,
                None => {
                    return None;
                },
            };
            return Some((InstancesQuery::Abort { origin: o, id }, i5));
        },
        None => {},
    }
    let hd = arr_h_delete();
    match eat_lit(b, 0, hd.as_slice()) {
        Some(i1) => {
            let (o, i2) = match parse_origin(b, i1) {
                Some(x) => x,
                None => {
                    return None;
                },
            };
            let ki = arr_k_id();
            let i3 = match eat_lit(b, i2, ki.as_slice()) {
                Some(x) => x,
                None => {
                    return None;
                },
            };
            let (id, i4) = match parse_u64(b, i3) {
                Some(x) => x,
                None => {
                    return None;
                },
            };
            let rb = arr_rbrace();
            let i5 = match eat_lit(b, i4, rb.as_slice()) {
                Some(x) => x,
                None => {
                    return None;
                },
            };
            return Some((InstancesQuery::Delete { origin: o, id }, i5));
        },
        None => {},
    }
    let ll = arr_l_list();
    match eat_lit(b, 0, ll.as_slice()) {
        Some(j) => {
            return Some((InstancesQuery::List, j));
        },
        None => {},
    }
    let hst = arr_h_status();
    match eat_lit(b, 0, hst.as_slice()) {
        Some(i1) => {
            let (id, i2) = match parse_u64(b, i1) {
                Some(x) => x,
                None => {
                    return None;
                },
            };
            let rb = arr_rbrace();
            let i3 = match eat_lit(b, i2, rb.as_slice()) {
                Some(x) => x,
                None => {
                    return None;
                },
            };
            return Some((InstancesQuery::Status { id }, i3));
        },
        None => {},
    }
    let hr = arr_h_record();
    match eat_lit(b, 0, hr.as_slice()) {
        Some(i1) => {
            let (id, i2) = match parse_u64(b, i1) {
                Some(x) => x,
                None => {
                    return None;
                },
            };
            let rb = arr_rbrace();
            let i3 = match eat_lit(b, i2, rb.as_slice()) {
                Some(x) => x,
                None => {
                    return None;
                },
            };
            return Some((InstancesQuery::Record { id }, i3));
        },
        None => {},
    }
    None
}

/// Decodes a whole payload into an instances request; rejects payloads with
/// trailing bytes.
pub fn decode_instances_query(b: &[u8]) -> (r: Option<InstancesQuery>)
    ensures
        match r {
            Some(q) => dec_iq(b@) == Some(query_view(q)),
            None => dec_iq(b@) is None,
        },
{
    match parse_iq(b) {
        Some((q, j)) => {
            if j == b.len() {
                Some(q)
            } else {
                None
            }
        },
        None => None,
    }
}

/// Decodes a whole payload into a runtimes request; rejects payloads with
/// trailing bytes.
pub fn decode_runtimes_query(b: &[u8]) -> (r: Option<RuntimesQuery>)
    ensures
        match r {
            Some(q) => dec_rq(b@) == Some(q),
            None => dec_rq(b@) is None,
        },
{
    let a0 = arr_rt_info();
    let a1 = arr_rt_status();
    let a2 = arr_l_list();
    let parsed: Option<(RuntimesQuery, usize)> = match eat_lit(b, 0, a0.as_slice()) {
        Some(j) => Some((RuntimesQuery::Info, j)),
        None => match eat_lit(b, 0, a1.as_slice()) {
            Some(j) => Some((RuntimesQuery::Status, j)),
            None => match eat_lit(b, 0, a2.as_slice()) {
                Some(j) => Some((RuntimesQuery::List, j)),
                None => None,
            },
        },
    };
    match parsed {
        Some((q, j)) => {
            if j == b.len() {
                Some(q)
            } else {
                None
            }
        },
        None => None,
    }
}


/// Encodes a `Create` carrying the `Daemon` origin tag for fan-out, without
/// taking ownership of the record.
pub fn encode_create_daemon(record: &DataFlowRecord) -> (out: Vec<u8>)
    ensures
        out@ == enc_iq(
            SpecInstancesQuery::Create { origin: Origin::Daemon, record: record_view(*record) },
        ),
{
    let mut out: Vec<u8> = Vec::new();
    let a = arr_h_create();
    let k = arr_k_record();
    let rb = arr_rbrace();
    push_lit(&mut out, a.as_slice());
    push_origin(&mut out, Origin::Daemon);
    push_lit(&mut out, k.as_slice());
    push_record(&mut out, record);
    push_lit(&mut out, rb.as_slice());
    proof {
        assert(out@ =~= enc_iq(
            SpecInstancesQuery::Create { origin: Origin::Daemon, record: record_view(*record) },
        ));
    }
    out
}

} // verus!
