use vstd::prelude::*;
use vstd::arithmetic::div_mod::{lemma_fundamental_div_mod, lemma_div_denominator};
use vstd::arithmetic::mul::{
    lemma_mul_is_distributive_sub_other_way, lemma_mul_is_distributive_add_other_way,
    lemma_mul_inequality, lemma_mul_nonnegative,
};

use crate::record::{InstructionModel, MessageModel, MessageHeader, TransactionModel};
use crate::record::{wf_instruction, wf_message, wf_transaction};

verus! {

// ---------------------------------------------------------------------------
// Compact length prefix: a little-endian base-128 encoding of a u16 in one
// to three bytes.  Every byte but the last carries a continuation bit, a
// continuation byte of zero is invalid (the encoding must be minimal), and
// the third byte may only hold the top two bits.
// ---------------------------------------------------------------------------

/// The minimal compact encoding of a length.
pub open spec fn enc_cu16(n: u16) -> Seq<u8> {
    if n < 0x80 {
        seq![n as u8]
    } else if n < 0x4000 {
        seq![
            (n as int % 0x80 + 0x80) as u8,
            (n as int / 0x80) as u8,
        ]
    } else {
        seq![
            (n as int % 0x80 + 0x80) as u8,
            ((n as int / 0x80) % 0x80 + 0x80) as u8,
            (n as int / 0x4000) as u8,
        ]
    }
}

/// Reads a compact length at position `i`; yields the value and the
/// position just past it, or `None` on a truncated, oversized or
/// non-minimal encoding.
pub open spec fn parse_cu16(d: Seq<u8>, i: int) -> Option<(u16, int)> {
    if 0 <= i && i < d.len() {
        let b0 = d[i];
        if b0 < 0x80 {
            Some((b0 as u16, i + 1))
        } else if i + 1 < d.len() {
            let b1 = d[i + 1];
            if b1 == 0 {
                None
            } else if b1 < 0x80 {
                Some((((b0 - 0x80) + b1 * 0x80) as u16, i + 2))
            } else if i + 2 < d.len() {
                let b2 = d[i + 2];
                if 1 <= b2 && b2 <= 3 {
                    Some((((b0 - 0x80) + (b1 - 0x80) * 0x80 + b2 * 0x4000) as u16, i + 3))
                } else {
                    None
                }
            } else {
                None
            }
        } else {
            None
        }
    } else {
        None
    }
}

/// Parsing reads back exactly what the compact encoding wrote.
pub proof fn lemma_cu16_round_trip(d: Seq<u8>, i: int, n: u16)
    requires
        0 <= i,
        i + enc_cu16(n).len() <= d.len(),
        d.subrange(i, i + enc_cu16(n).len()) == enc_cu16(n),
    ensures
        parse_cu16(d, i) == Some((n, i + enc_cu16(n).len())),
{
    let e = enc_cu16(n);
    let s = d.subrange(i, i + e.len() as int);
    if n < 0x80 {
        assert(d[i] == s[0] && s[0] == e[0]);
    } else if n < 0x4000 {
        lemma_fundamental_div_mod(n as int, 0x80);
        assert(d[i] == s[0] && s[0] == e[0]);
        assert(d[i + 1] == s[1] && s[1] == e[1]);
        assert(1 <= n as int / 0x80 < 0x80);
    } else {
        lemma_fundamental_div_mod(n as int, 0x80);
        lemma_fundamental_div_mod(n as int / 0x80, 0x80);
        lemma_div_denominator(n as int, 0x80, 0x80);
        assert(d[i] == s[0] && s[0] == e[0]);
        assert(d[i + 1] == s[1] && s[1] == e[1]);
        assert(d[i + 2] == s[2] && s[2] == e[2]);
        assert(1 <= n as int / 0x4000 <= 3);
    }
}

// ---------------------------------------------------------------------------
// Lists of fixed-width chunks: the signature list (64-byte entries) and the
// account-key list (32-byte entries) are both a run of equal-sized pieces.
// ---------------------------------------------------------------------------

/// The concatenation of a list of byte chunks.
pub open spec fn enc_chunks(l: Seq<Seq<u8>>) -> Seq<u8>
    decreases l.len(),
{
    if l.len() == 0 {
        Seq::empty()
    } else {
        l[0] + enc_chunks(l.drop_first())
    }
}

/// Reads `n` chunks of width `w` starting at `i`; yields the chunks and
/// the position just past them, or `None` when the buffer is too short.
pub open spec fn parse_chunks(d: Seq<u8>, i: int, n: int, w: int) -> Option<(Seq<Seq<u8>>, int)> {
    if 0 <= i && 0 <= n && 0 < w && i + n * w <= d.len() {
        Some((Seq::new(n as nat, |k: int| d.subrange(i + k * w, i + k * w + w)), i + n * w))
    } else {
        None
    }
}

/// The concatenation of `n` chunks of width `w` is `n * w` bytes long.
pub proof fn lemma_enc_chunks_len(l: Seq<Seq<u8>>, w: int)
    requires
        forall|k: int| 0 <= k < l.len() ==> (#[trigger] l[k]).len() == w,
    ensures
        enc_chunks(l).len() == l.len() * w,
    decreases l.len(),
{
    if l.len() == 0 {
    } else {
        lemma_enc_chunks_len(l.drop_first(), w);
        lemma_mul_is_distributive_sub_other_way(w, l.len() as int, 1);
    }
}

/// Within the concatenation, chunk `k` sits at offset `k * w`.
pub proof fn lemma_enc_chunks_index(l: Seq<Seq<u8>>, w: int, k: int)
    requires
        0 < w,
        forall|j: int| 0 <= j < l.len() ==> (#[trigger] l[j]).len() == w,
        0 <= k < l.len(),
    ensures
        enc_chunks(l).len() == l.len() * w,
        enc_chunks(l).subrange(k * w, k * w + w) == l[k],
    decreases k,
{
    lemma_enc_chunks_len(l, w);
    if k == 0 {
        vstd::arithmetic::mul::lemma_mul_basics(w);
        assert(enc_chunks(l).subrange(0, w) =~= l[0]);
    } else {
        let rest = l.drop_first();
        lemma_enc_chunks_len(rest, w);
        lemma_enc_chunks_index(rest, w, k - 1);
        lemma_mul_is_distributive_sub_other_way(w, k, 1);
        lemma_mul_is_distributive_add_other_way(w, k, 1);
        lemma_mul_inequality(1, k, w);
        lemma_mul_inequality(k + 1, l.len() as int, w);
        assert(enc_chunks(l).subrange(k * w, k * w + w)
            =~= enc_chunks(rest).subrange((k - 1) * w, (k - 1) * w + w));
    }
}

/// Appending a chunk to the list appends its bytes to the encoding.
pub proof fn lemma_enc_chunks_push(l: Seq<Seq<u8>>, c: Seq<u8>)
    ensures
        enc_chunks(l.push(c)) == enc_chunks(l) + c,
    decreases l.len(),
{
    if l.len() == 0 {
        assert(l.push(c).drop_first() =~= l);
        assert(enc_chunks(l.push(c)) =~= enc_chunks(l) + c);
    } else {
        assert(l.push(c).drop_first() =~= l.drop_first().push(c));
        lemma_enc_chunks_push(l.drop_first(), c);
        assert(enc_chunks(l.push(c)) =~= enc_chunks(l) + c);
    }
}

/// Parsing reads back exactly the chunks that were concatenated.
pub proof fn lemma_chunks_round_trip(d: Seq<u8>, i: int, l: Seq<Seq<u8>>, w: int)
    requires
        0 < w,
        0 <= i,
        forall|k: int| 0 <= k < l.len() ==> (#[trigger] l[k]).len() == w,
        i + l.len() * w <= d.len(),
        d.subrange(i, i + l.len() * w) == enc_chunks(l),
    ensures
        parse_chunks(d, i, l.len() as int, w) == Some((l, i + l.len() * w)),
{
    let n = l.len() as int;
    let parsed = Seq::new(l.len(), |k: int| d.subrange(i + k * w, i + k * w + w));
    assert(parsed =~= l) by {
        assert forall|k: int| 0 <= k < n implies parsed[k] == l[k] by {
            lemma_enc_chunks_index(l, w, k);
            lemma_mul_inequality(k + 1, n, w);
            lemma_mul_is_distributive_add_other_way(w, k, 1);
            lemma_mul_nonnegative(k, w);
            assert(d.subrange(i + k * w, i + k * w + w)
                =~= d.subrange(i, i + n * w).subrange(k * w, k * w + w));
        }
    }
}

// ---------------------------------------------------------------------------
// Instructions: a program index byte, then the account indices and the
// instruction data, each as a compact length followed by that many bytes.
// ---------------------------------------------------------------------------

/// The encoding of one instruction.
pub open spec fn enc_instruction(x: InstructionModel) -> Seq<u8> {
    seq![x.program_id_index] + enc_cu16(x.accounts.len() as u16) + x.accounts
        + enc_cu16(x.data.len() as u16) + x.data
}

/// Reads one instruction at position `i`.
pub open spec fn parse_instruction(d: Seq<u8>, i: int) -> Option<(InstructionModel, int)> {
    if 0 <= i && i < d.len() {
        let pid = d[i];
        match parse_cu16(d, i + 1) {
            None => None,
            Some((alen, j)) => if j + alen <= d.len() {
                let accounts = d.subrange(j, j + alen);
                match parse_cu16(d, j + alen) {
                    None => None,
                    Some((dlen, j2)) => if j2 + dlen <= d.len() {
                        Some((
                            InstructionModel {
                                program_id_index: pid,
                                accounts,
                                data: d.subrange(j2, j2 + dlen),
                            },
                            j2 + dlen,
                        ))
                    } else {
                        None
                    },
                }
            } else {
                None
            },
        }
    } else {
        None
    }
}

/// The encoding of a list of instructions, back to back.
pub open spec fn enc_instructions(l: Seq<InstructionModel>) -> Seq<u8>
    decreases l.len(),
{
    if l.len() == 0 {
        Seq::empty()
    } else {
        enc_instruction(l[0]) + enc_instructions(l.drop_first())
    }
}

/// Reads `n` instructions starting at `i`.
pub open spec fn parse_instructions(d: Seq<u8>, i: int, n: nat) -> Option<(Seq<InstructionModel>, int)>
    decreases n,
{
    if n == 0 {
        Some((Seq::empty(), i))
    } else {
        match parse_instruction(d, i) {
            None => None,
            Some((x, j)) => match parse_instructions(d, j, (n - 1) as nat) {
                None => None,
                Some((l, j2)) => Some((seq![x] + l, j2)),
            },
        }
    }
}

/// Appending an instruction to the list appends its encoding.
pub proof fn lemma_enc_instructions_push(l: Seq<InstructionModel>, x: InstructionModel)
    ensures
        enc_instructions(l.push(x)) == enc_instructions(l) + enc_instruction(x),
    decreases l.len(),
{
    if l.len() == 0 {
        assert(l.push(x).drop_first() =~= l);
        assert(enc_instructions(l.push(x)) =~= enc_instructions(l) + enc_instruction(x));
    } else {
        assert(l.push(x).drop_first() =~= l.drop_first().push(x));
        lemma_enc_instructions_push(l.drop_first(), x);
        assert(enc_instructions(l.push(x)) =~= enc_instructions(l) + enc_instruction(x));
    }
}

// ---------------------------------------------------------------------------
// Message and transaction.
// ---------------------------------------------------------------------------

/// The encoding of the fixed three-byte message header.
pub open spec fn enc_header(h: MessageHeader) -> Seq<u8> {
    seq![
        h.num_required_signatures,
        h.num_readonly_signed_accounts,
        h.num_readonly_unsigned_accounts,
    ]
}

/// The encoding of a message: header, account keys (compact length,
/// then 32-byte entries), blockhash, instructions (compact length,
/// then the entries).
pub open spec fn enc_message(m: MessageModel) -> Seq<u8> {
    enc_header(m.header) + enc_cu16(m.account_keys.len() as u16) + enc_chunks(m.account_keys)
        + m.recent_blockhash + enc_cu16(m.instructions.len() as u16)
        + enc_instructions(m.instructions)
}

/// Reads a message at position `i`.
pub open spec fn parse_message(d: Seq<u8>, i: int) -> Option<(MessageModel, int)> {
    if 0 <= i && i + 3 <= d.len() {
        let header = MessageHeader {
            num_required_signatures: d[i],
            num_readonly_signed_accounts: d[i + 1],
            num_readonly_unsigned_accounts: d[i + 2],
        };
        match parse_cu16(d, i + 3) {
            None => None,
            Some((nkeys, j)) => match parse_chunks(d, j, nkeys as int, 32) {
                None => None,
                Some((keys, j2)) => if j2 + 32 <= d.len() {
                    let blockhash = d.subrange(j2, j2 + 32);
                    match parse_cu16(d, j2 + 32) {
                        None => None,
                        Some((ninstr, j3)) => match parse_instructions(d, j3, ninstr as nat) {
                            None => None,
                            Some((instrs, j4)) => Some((
                                MessageModel {
                                    header,
                                    account_keys: keys,
                                    recent_blockhash: blockhash,
                                    instructions: instrs,
                                },
                                j4,
                            )),
                        },
                    }
                } else {
                    None
                },
            },
        }
    } else {
        None
    }
}

/// The encoding of a transaction: the signatures (compact length, then
/// 64-byte entries) followed by the message.
pub open spec fn enc_transaction(t: TransactionModel) -> Seq<u8> {
    enc_cu16(t.signatures.len() as u16) + enc_chunks(t.signatures) + enc_message(t.message)
}

/// Reads a whole transaction: the buffer must be consumed exactly.
pub open spec fn parse_transaction(d: Seq<u8>) -> Option<TransactionModel> {
    match parse_cu16(d, 0) {
        None => None,
        Some((nsigs, j)) => match parse_chunks(d, j, nsigs as int, 64) {
            None => None,
            Some((sigs, j2)) => match parse_message(d, j2) {
                None => None,
                Some((m, end)) => if end == d.len() {
                    Some(TransactionModel { signatures: sigs, message: m })
                } else {
                    None
                },
            },
        },
    }
}

// ---------------------------------------------------------------------------
// Round trip: parsing an encoding yields the encoded value.
// ---------------------------------------------------------------------------

/// Splits knowledge of a concatenation inside `d` into knowledge of its
/// two halves.
proof fn lemma_split_at(d: Seq<u8>, i: int, a: Seq<u8>, b: Seq<u8>)
    requires
        0 <= i,
        i + a.len() + b.len() <= d.len(),
        d.subrange(i, i + a.len() + b.len()) == a + b,
    ensures
        d.subrange(i, i + a.len() as int) == a,
        d.subrange(i + a.len() as int, i + a.len() + b.len()) == b,
{
    let n = a.len() as int;
    let m = b.len() as int;
    let ab = d.subrange(i, i + n + m);
    assert forall|k: int| 0 <= k < n implies #[trigger] d.subrange(i, i + n)[k] == a[k] by {
        assert(ab[k] == d[i + k]);
    }
    assert(d.subrange(i, i + n) =~= a);
    assert forall|k: int| 0 <= k < m implies #[trigger] d.subrange(i + n, i + n + m)[k] == b[k] by {
        assert(ab[n + k] == d[i + n + k]);
    }
    assert(d.subrange(i + n, i + n + m) =~= b);
}

/// Parsing reads back exactly the instruction that was encoded.
pub proof fn lemma_instruction_round_trip(d: Seq<u8>, i: int, x: InstructionModel)
    requires
        wf_instruction(x),
        0 <= i,
        i + enc_instruction(x).len() <= d.len(),
        d.subrange(i, i + enc_instruction(x).len()) == enc_instruction(x),
    ensures
        parse_instruction(d, i) == Some((x, i + enc_instruction(x).len())),
{
    let p1 = seq![x.program_id_index];
    let p2 = enc_cu16(x.accounts.len() as u16);
    let p3 = x.accounts;
    let p4 = enc_cu16(x.data.len() as u16);
    let p5 = x.data;
    let t5 = p5;
    let t4 = p4 + t5;
    let t3 = p3 + t4;
    let t2 = p2 + t3;
    let t1 = p1 + t2;
    assert(enc_instruction(x) =~= t1);
    let o1 = i + p1.len() as int;
    let o2 = o1 + p2.len() as int;
    let o3 = o2 + p3.len() as int;
    let o4 = o3 + p4.len() as int;
    let o5 = o4 + p5.len() as int;
    lemma_split_at(d, i, p1, t2);
    lemma_split_at(d, o1, p2, t3);
    lemma_split_at(d, o2, p3, t4);
    lemma_split_at(d, o3, p4, t5);
    assert(d[i] == d.subrange(i, o1)[0]);
    lemma_cu16_round_trip(d, o1, x.accounts.len() as u16);
    lemma_cu16_round_trip(d, o3, x.data.len() as u16);
    assert(d.subrange(o2, o3) == p3);
    assert(d.subrange(o4, o5) == p5);
}

/// Parsing reads back exactly the instruction list that was encoded.
pub proof fn lemma_instructions_round_trip(d: Seq<u8>, i: int, l: Seq<InstructionModel>)
    requires
        forall|k: int| 0 <= k < l.len() ==> wf_instruction(#[trigger] l[k]),
        0 <= i,
        i + enc_instructions(l).len() <= d.len(),
        d.subrange(i, i + enc_instructions(l).len()) == enc_instructions(l),
    ensures
        parse_instructions(d, i, l.len()) == Some((l, i + enc_instructions(l).len())),
    decreases l.len(),
{
    if l.len() == 0 {
    } else {
        let rest = l.drop_first();
        let a = enc_instruction(l[0]);
        let b = enc_instructions(rest);
        lemma_split_at(d, i, a, b);
        lemma_instruction_round_trip(d, i, l[0]);
        lemma_instructions_round_trip(d, i + a.len() as int, rest);
        assert(seq![l[0]] + rest =~= l);
    }
}

/// Parsing reads back exactly the message that was encoded.
pub proof fn lemma_message_round_trip(d: Seq<u8>, i: int, m: MessageModel)
    requires
        wf_message(m),
        0 <= i,
        i + enc_message(m).len() <= d.len(),
        d.subrange(i, i + enc_message(m).len()) == enc_message(m),
    ensures
        parse_message(d, i) == Some((m, i + enc_message(m).len())),
{
    let p1 = enc_header(m.header);
    let p2 = enc_cu16(m.account_keys.len() as u16);
    let p3 = enc_chunks(m.account_keys);
    let p4 = m.recent_blockhash;
    let p5 = enc_cu16(m.instructions.len() as u16);
    let p6 = enc_instructions(m.instructions);
    let t6 = p6;
    let t5 = p5 + t6;
    let t4 = p4 + t5;
    let t3 = p3 + t4;
    let t2 = p2 + t3;
    let t1 = p1 + t2;
    assert(enc_message(m) =~= t1);
    let o1 = i + p1.len() as int;
    let o2 = o1 + p2.len() as int;
    let o3 = o2 + p3.len() as int;
    let o4 = o3 + p4.len() as int;
    let o5 = o4 + p5.len() as int;
    lemma_split_at(d, i, p1, t2);
    lemma_split_at(d, o1, p2, t3);
    lemma_split_at(d, o2, p3, t4);
    lemma_split_at(d, o3, p4, t5);
    lemma_split_at(d, o4, p5, t6);
    assert(d[i] == d.subrange(i, o1)[0]);
    assert(d[i + 1] == d.subrange(i, o1)[1]);
    assert(d[i + 2] == d.subrange(i, o1)[2]);
    lemma_cu16_round_trip(d, o1, m.account_keys.len() as u16);
    lemma_enc_chunks_len(m.account_keys, 32);
    lemma_chunks_round_trip(d, o2, m.account_keys, 32);
    assert(d.subrange(o3, o4) =~= d.subrange(o3, o3 + 32));
    lemma_cu16_round_trip(d, o4, m.instructions.len() as u16);
    lemma_instructions_round_trip(d, o5, m.instructions);
    let parsed = parse_message(d, i);
    assert(parsed matches Some((pm, end)) && pm =~= m && end == i + enc_message(m).len());
}

/// A well-formed transaction survives a full encode-parse round trip:
/// parsing its exact encoding yields the transaction back.
pub proof fn lemma_transaction_round_trip(t: TransactionModel)
    requires
        wf_transaction(t),
    ensures
        parse_transaction(enc_transaction(t)) == Some(t),
{
    let d = enc_transaction(t);
    let p1 = enc_cu16(t.signatures.len() as u16);
    let p2 = enc_chunks(t.signatures);
    let p3 = enc_message(t.message);
    let t3 = p3;
    let t2 = p2 + t3;
    let t1 = p1 + t2;
    assert(d =~= t1);
    let o1 = p1.len() as int;
    let o2 = o1 + p2.len() as int;
    let o3 = o2 + p3.len() as int;
    assert(d.subrange(0, d.len() as int) =~= d);
    lemma_split_at(d, 0, p1, t2);
    lemma_split_at(d, o1, p2, t3);
    lemma_cu16_round_trip(d, 0, t.signatures.len() as u16);
    lemma_enc_chunks_len(t.signatures, 64);
    lemma_chunks_round_trip(d, o1, t.signatures, 64);
    lemma_message_round_trip(d, o2, t.message);
    let parsed = parse_transaction(d);
    assert(parsed matches Some(pt) && pt =~= t);
}

} // verus!
