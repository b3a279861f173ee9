use vstd::prelude::*;
use vstd::slice::{slice_subrange, slice_to_vec};
use vstd::arithmetic::mul::{
    lemma_mul_is_distributive_add_other_way, lemma_mul_inequality, lemma_mul_nonnegative,
};

use crate::record::{
    Instruction, InstructionModel, Message, MessageHeader, Transaction, wf_instruction,
    wf_message, wf_transaction,
};
use crate::wire::{
    enc_cu16, enc_chunks, enc_instruction, enc_instructions, enc_message, enc_transaction,
    lemma_enc_chunks_push, lemma_enc_instructions_push, parse_cu16, parse_chunks,
    parse_instruction, parse_instructions, parse_message, parse_transaction,
};

verus! {

/// Reads a compact length prefix; the executable twin of `parse_cu16`.
fn read_cu16(d: &[u8], i: usize) -> (r: Option<(u16, usize)>)
    ensures
        match r {
            Some((n, j)) => parse_cu16(d@, i as int) == Some((n, j as int)),
            None => parse_cu16(d@, i as int) is None,
        },
{
    if i >= d.len() {
        return None;
    }
    let b0 = d[i];
    if b0 < 0x80 {
        Some((b0 as u16, i + 1))
    } else if i + 1 < d.len() {
        let b1 = d[i + 1];
        if b1 == 0 {
            None
        } else if b1 < 0x80 {
            Some(((b0 - 0x80) as u16 + (b1 as u16) * 0x80, i + 2))
        } else if i + 2 < d.len() {
            let b2 = d[i + 2];
            if 1 <= b2 && b2 <= 3 {
                Some((
                    (b0 - 0x80) as u16 + ((b1 - 0x80) as u16) * 0x80 + (b2 as u16) * 0x4000,
                    i + 3,
                ))
            } else {
                None
            }
        } else {
            None
        }
    } else {
        None
    }
}

/// Reads `n` chunks of `w` bytes each; the executable twin of
/// `parse_chunks`.
fn read_chunks(d: &[u8], i: usize, n: u16, w: usize) -> (r: Option<(Vec<Vec<u8>>, usize)>)
    requires
        i <= d.len(),
        0 < w <= 64,
    ensures
        match r {
            Some((v, j)) => parse_chunks(d@, i as int, n as int, w as int)
                == Some((v.deep_view(), j as int)),
            None => parse_chunks(d@, i as int, n as int, w as int) is None,
        },
{
    proof {
        assert((n as int) * (w as int) <= 65535 * 64) by (nonlinear_arith)
            requires n as int <= 65535 && 0 < w as int <= 64;
        lemma_mul_nonnegative(n as int, w as int);
    }
    let total: usize = (n as usize) * w;
    if total > d.len() - i {
        return None;
    }
    let mut out: Vec<Vec<u8>> = Vec::new();
    let mut k: usize = 0;
    let mut cur: usize = i;
    while k < n as usize
        invariant
            k <= n as usize,
            0 < w <= 64,
            cur as int == i + k * (w as int),
            i + (n as int) * (w as int) <= d.len(),
            out@.len() == k,
            out.deep_view() == Seq::new(
                k as nat,
                |t: int| d@.subrange(i + t * (w as int), i + t * (w as int) + (w as int)),
            ),
        decreases n as usize - k,
    {
        proof {
            lemma_mul_is_distributive_add_other_way(w as int, k as int, 1);
            lemma_mul_inequality(k as int + 1, n as int, w as int);
            lemma_mul_nonnegative(k as int, w as int);
        }
        let chunk = slice_to_vec(slice_subrange(d, cur, cur + w));
        proof {
            assert(chunk.deep_view() =~= chunk@);
        }
        let ghost prev = out.deep_view();
        out.push(chunk);
        k = k + 1;
        cur = cur + w;
        proof {
            assert(out.deep_view() =~= prev.push(chunk@));
            let s2 = Seq::new(
                k as nat,
                |t: int| d@.subrange(i + t * (w as int), i + t * (w as int) + (w as int)),
            );
            assert forall|t: int| 0 <= t < k implies out.deep_view()[t] == s2[t] by {
                lemma_mul_is_distributive_add_other_way(w as int, t, 1);
                lemma_mul_nonnegative(t, w as int);
            }
            assert(out.deep_view() =~= s2);
        }
    }
    proof {
        if let Some((v, e)) = parse_chunks(d@, i as int, n as int, w as int) {
            assert(out.deep_view() =~= v);
        }
    }
    Some((out, cur))
}

/// Reads one instruction; the executable twin of `parse_instruction`.
fn read_instruction(d: &[u8], i: usize) -> (r: Option<(Instruction, usize)>)
    ensures
        match r {
            Some((x, j)) => parse_instruction(d@, i as int) == Some((x@, j as int)),
            None => parse_instruction(d@, i as int) is None,
        },
{
    if i >= d.len() {
        return None;
    }
    let pid = d[i];
    let (alen, j) = match read_cu16(d, i + 1) {
        None => { return None; },
        Some(p) => p,
    };
    assert(j <= d@.len());
    if alen as usize > d.len() - j {
        return None;
    }
    let accounts = slice_to_vec(slice_subrange(d, j, j + alen as usize));
    let (dlen, j2) = match read_cu16(d, j + alen as usize) {
        None => { return None; },
        Some(p) => p,
    };
    assert(j2 <= d@.len());
    if dlen as usize > d.len() - j2 {
        return None;
    }
    let data = slice_to_vec(slice_subrange(d, j2, j2 + dlen as usize));
    Some((Instruction { program_id_index: pid, accounts, data }, j2 + dlen as usize))
}

/// Reads `n` instructions; the executable twin of `parse_instructions`.
fn read_instructions(d: &[u8], i: usize, n: u16) -> (r: Option<(Vec<Instruction>, usize)>)
    ensures
        match r {
            Some((v, j)) => parse_instructions(d@, i as int, n as nat)
                == Some((v.deep_view(), j as int)),
            None => parse_instructions(d@, i as int, n as nat) is None,
        },
{
    let mut out: Vec<Instruction> = Vec::new();
    let mut k: usize = 0;
    let mut cur: usize = i;
    proof {
        if let Some((l, e)) = parse_instructions(d@, i as int, n as nat) {
            assert(Seq::<crate::record::InstructionModel>::empty() + l =~= l);
        }
    }
    while k < n as usize
        invariant
            k <= n as usize,
            out@.len() == k,
            parse_instructions(d@, i as int, n as nat) == match parse_instructions(
                d@,
                cur as int,
                (n as usize - k) as nat,
            ) {
                None => None::<(Seq<crate::record::InstructionModel>, int)>,
                Some((l, e)) => Some((out.deep_view() + l, e)),
            },
        decreases n as usize - k,
    {
        let (x, j) = match read_instruction(d, cur) {
            None => { return None; },
            Some(p) => p,
        };
        let ghost prev = out.deep_view();
        out.push(x);
        proof {
            assert(out.deep_view() =~= prev.push(x@));
            if let Some((l, e)) = parse_instructions(d@, j as int, (n as usize - k - 1) as nat) {
                assert(prev + (seq![x@] + l) =~= prev.push(x@) + l);
            }
        }
        k = k + 1;
        cur = j;
    }
    proof {
        if let Some((l, e)) = parse_instructions(d@, cur as int, 0) {
            assert(out.deep_view() + l =~= out.deep_view());
        }
    }
    Some((out, cur))
}

/// Reads a message; the executable twin of `parse_message`.
fn read_message(d: &[u8], i: usize) -> (r: Option<(Message, usize)>)
    ensures
        match r {
            Some((m, j)) => parse_message(d@, i as int) == Some((m@, j as int)),
            None => parse_message(d@, i as int) is None,
        },
{
    if d.len() < 3 || i > d.len() - 3 {
        return None;
    }
    let header = MessageHeader {
        num_required_signatures: d[i],
        num_readonly_signed_accounts: d[i + 1],
        num_readonly_unsigned_accounts: d[i + 2],
    };
    let (nkeys, j) = match read_cu16(d, i + 3) {
        None => { return None; },
        Some(p) => p,
    };
    assert(j <= d@.len());
    let (account_keys, j2) = match read_chunks(d, j, nkeys, 32) {
        None => { return None; },
        Some(p) => p,
    };
    assert(j2 <= d@.len());
    if d.len() < 32 || j2 > d.len() - 32 {
        return None;
    }
    let recent_blockhash = slice_to_vec(slice_subrange(d, j2, j2 + 32));
    let (ninstr, j3) = match read_cu16(d, j2 + 32) {
        None => { return None; },
        Some(p) => p,
    };
    let (instructions, j4) = match read_instructions(d, j3, ninstr) {
        None => { return None; },
        Some(p) => p,
    };
    let m = Message { header, account_keys, recent_blockhash, instructions };
    proof {
        if let Some((sm, se)) = parse_message(d@, i as int) {
            assert(m@ =~= sm);
        }
    }
    Some((m, j4))
}

/// Attempts to read a whole transaction out of a payload; succeeds
/// exactly when the bytes are a complete, exactly-sized encoding.
pub fn read_transaction(d: &[u8]) -> (r: Option<Transaction>)
    ensures
        match r {
            Some(t) => parse_transaction(d@) == Some(t@),
            None => parse_transaction(d@) is None,
        },
{
    let (nsigs, j) = match read_cu16(d, 0) {
        None => { return None; },
        Some(p) => p,
    };
    assert(j <= d@.len());
    let (signatures, j2) = match read_chunks(d, j, nsigs, 64) {
        None => { return None; },
        Some(p) => p,
    };
    let (message, end) = match read_message(d, j2) {
        None => { return None; },
        Some(p) => p,
    };
    if end != d.len() {
        return None;
    }
    let t = Transaction { signatures, message };
    proof {
        if let Some(st) = parse_transaction(d@) {
            assert(t@ =~= st);
        }
    }
    Some(t)
}

// ---------------------------------------------------------------------------
// Encoder.
// ---------------------------------------------------------------------------

/// Appends the bytes of `src` to `out`.
fn push_bytes(out: &mut Vec<u8>, src: &[u8])
    ensures
        final(out)@ == old(out)@ + src@,
{
    proof {
        assert(old(out)@ + src@.subrange(0, 0) =~= old(out)@);
    }
    let mut k: usize = 0;
    while k < src.len()
        invariant
            k <= src.len(),
            out@ == old(out)@ + src@.subrange(0, k as int),
        decreases src.len() - k,
    {
        let ghost prev = out@;
        out.push(src[k]);
        k = k + 1;
        proof {
            assert(out@ =~= old(out)@ + src@.subrange(0, k as int));
        }
    }
    proof {
        assert(src@.subrange(0, src@.len() as int) =~= src@);
    }
}

/// Appends the minimal compact encoding of `n` to `out`.
fn push_cu16(out: &mut Vec<u8>, n: u16)
    ensures
        final(out)@ == old(out)@ + enc_cu16(n),
{
    if n < 0x80 {
        out.push(n as u8);
        proof {
            assert(out@ =~= old(out)@ + enc_cu16(n));
        }
    } else if n < 0x4000 {
        out.push((n % 0x80 + 0x80) as u8);
        out.push((n / 0x80) as u8);
        proof {
            assert(out@ =~= old(out)@ + enc_cu16(n));
        }
    } else {
        out.push((n % 0x80 + 0x80) as u8);
        out.push(((n / 0x80) % 0x80 + 0x80) as u8);
        out.push((n / 0x4000) as u8);
        proof {
            assert(out@ =~= old(out)@ + enc_cu16(n));
        }
    }
}

/// Appends each chunk of `l` to `out`, back to back.
fn push_all_chunks(out: &mut Vec<u8>, l: &Vec<Vec<u8>>)
    ensures
        final(out)@ == old(out)@ + enc_chunks(l.deep_view()),
{
    let ghost dv = l.deep_view();
    proof {
        assert(dv.subrange(0, 0) =~= Seq::<Seq<u8>>::empty());
        assert(out@ =~= old(out)@ + enc_chunks(dv.subrange(0, 0)));
    }
    let mut k: usize = 0;
    while k < l.len()
        invariant
            k <= l.len(),
            dv == l.deep_view(),
            out@ == old(out)@ + enc_chunks(dv.subrange(0, k as int)),
        decreases l.len() - k,
    {
        push_bytes(out, l[k].as_slice());
        k = k + 1;
        proof {
            let part = dv.subrange(0, k - 1);
            lemma_enc_chunks_push(part, dv[k - 1]);
            assert(dv.subrange(0, k as int) =~= part.push(dv[k - 1]));
            assert(dv[k - 1] =~= l@[k - 1]@);
            assert(out@ =~= old(out)@ + enc_chunks(dv.subrange(0, k as int)));
        }
    }
    proof {
        assert(dv.subrange(0, dv.len() as int) =~= dv);
    }
}

/// Appends the encoding of one instruction to `out`.
fn push_instruction(out: &mut Vec<u8>, x: &Instruction)
    requires
        wf_instruction(x@),
    ensures
        final(out)@ == old(out)@ + enc_instruction(x@),
{
    out.push(x.program_id_index);
    push_cu16(out, x.accounts.len() as u16);
    push_bytes(out, x.accounts.as_slice());
    push_cu16(out, x.data.len() as u16);
    push_bytes(out, x.data.as_slice());
    proof {
        assert(out@ =~= old(out)@ + enc_instruction(x@));
    }
}

/// Appends the encoding of a message to `out`.
fn push_message(out: &mut Vec<u8>, m: &Message)
    requires
        wf_message(m@),
    ensures
        final(out)@ == old(out)@ + enc_message(m@),
{
    out.push(m.header.num_required_signatures);
    out.push(m.header.num_readonly_signed_accounts);
    out.push(m.header.num_readonly_unsigned_accounts);
    push_cu16(out, m.account_keys.len() as u16);
    push_all_chunks(out, &m.account_keys);
    push_bytes(out, m.recent_blockhash.as_slice());
    push_cu16(out, m.instructions.len() as u16);
    let ghost base = out@;
    let ghost idv = m.instructions.deep_view();
    proof {
        assert(idv.subrange(0, 0) =~= Seq::<InstructionModel>::empty());
        assert(out@ =~= base + enc_instructions(idv.subrange(0, 0)));
    }
    let mut k: usize = 0;
    while k < m.instructions.len()
        invariant
            k <= m.instructions.len(),
            idv == m.instructions.deep_view(),
            forall|t: int| 0 <= t < idv.len() ==> wf_instruction(#[trigger] idv[t]),
            out@ == base + enc_instructions(idv.subrange(0, k as int)),
        decreases m.instructions.len() - k,
    {
        proof {
            assert(wf_instruction(idv[k as int]));
        }
        push_instruction(out, &m.instructions[k]);
        k = k + 1;
        proof {
            let part = idv.subrange(0, k - 1);
            lemma_enc_instructions_push(part, idv[k - 1]);
            assert(idv.subrange(0, k as int) =~= part.push(idv[k - 1]));
            assert(out@ =~= base + enc_instructions(idv.subrange(0, k as int)));
        }
    }
    proof {
        assert(idv.subrange(0, idv.len() as int) =~= idv);
        assert(out@ =~= old(out)@ + enc_message(m@));
    }
}

/// Serializes a transaction into its exact wire encoding.
pub fn encode_transaction(t: &Transaction) -> (r: Vec<u8>)
    requires
        wf_transaction(t@),
    ensures
        r@ == enc_transaction(t@),
{
    let mut out: Vec<u8> = Vec::new();
    push_cu16(&mut out, t.signatures.len() as u16);
    push_all_chunks(&mut out, &t.signatures);
    push_message(&mut out, &t.message);
    proof {
        assert(out@ =~= enc_transaction(t@));
    }
    out
}

} // verus!
