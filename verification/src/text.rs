use vstd::prelude::*;
use vstd::string::StringExecFns;

use crate::record::{Instruction, InstructionModel};

verus! {

/// The base58 text of a byte string.
pub uninterp spec fn base58_of(s: Seq<u8>) -> Seq<char>;

/// Relies on bs58::encode for the base58 text of a byte string; the
/// result is a function of the bytes alone.
#[verifier::external_body]
pub(crate) fn encode_base58(bytes: &[u8]) -> (r: String)
    ensures
        r@ == base58_of(bytes@),
{
    bs58::encode(bytes).into_string()
}

/// The decimal digit character for a value below ten.
pub open spec fn digit_char(d: int) -> char {
    if d == 0 {
        '0'
    } else if d == 1 {
        '1'
    } else if d == 2 {
        '2'
    } else if d == 3 {
        '3'
    } else if d == 4 {
        '4'
    } else if d == 5 {
        '5'
    } else if d == 6 {
        '6'
    } else if d == 7 {
        '7'
    } else if d == 8 {
        '8'
    } else {
        '9'
    }
}

/// The decimal text of a byte value, without leading zeroes.
pub open spec fn u8_dec(n: u8) -> Seq<char> {
    if n < 10 {
        seq![digit_char(n as int)]
    } else if n < 100 {
        seq![digit_char(n as int / 10), digit_char(n as int % 10)]
    } else {
        seq![
            digit_char(n as int / 100),
            digit_char((n as int / 10) % 10),
            digit_char(n as int % 10),
        ]
    }
}

/// Appends one decimal digit character.
fn push_digit(s: &mut String, d: u8)
    requires
        d < 10,
    ensures
        final(s)@ == old(s)@ + seq![digit_char(d as int)],
{
    let digit: &str = if d == 0 {
        proof { reveal_strlit("0"); }
        "0"
    } else if d == 1 {
        proof { reveal_strlit("1"); }
        "1"
    } else if d == 2 {
        proof { reveal_strlit("2"); }
        "2"
    } else if d == 3 {
        proof { reveal_strlit("3"); }
        "3"
    } else if d == 4 {
        proof { reveal_strlit("4"); }
        "4"
    } else if d == 5 {
        proof { reveal_strlit("5"); }
        "5"
    } else if d == 6 {
        proof { reveal_strlit("6"); }
        "6"
    } else if d == 7 {
        proof { reveal_strlit("7"); }
        "7"
    } else if d == 8 {
        proof { reveal_strlit("8"); }
        "8"
    } else {
        proof { reveal_strlit("9"); }
        "9"
    };
    assert(digit@ =~= seq![digit_char(d as int)]);
    s.append(digit);
}

/// Appends the decimal text of a byte value.
fn push_u8_dec(s: &mut String, n: u8)
    ensures
        final(s)@ == old(s)@ + u8_dec(n),
{
    if n < 10 {
        push_digit(s, n);
    } else if n < 100 {
        push_digit(s, n / 10);
        push_digit(s, n % 10);
        proof {
            assert(s@ =~= old(s)@ + u8_dec(n));
        }
    } else {
        push_digit(s, n / 100);
        push_digit(s, (n / 10) % 10);
        push_digit(s, n % 10);
        proof {
            assert(s@ =~= old(s)@ + u8_dec(n));
        }
    }
}

/// The comma-separated decimal text of a byte list's elements.
pub open spec fn bytes_desc_inner(s: Seq<u8>) -> Seq<char>
    decreases s.len(),
{
    if s.len() == 0 {
        Seq::empty()
    } else if s.len() == 1 {
        u8_dec(s[0])
    } else {
        bytes_desc_inner(s.drop_last()) + ", "@ + u8_dec(s.last())
    }
}

/// The bracketed decimal text of a byte list.
pub open spec fn bytes_desc(s: Seq<u8>) -> Seq<char> {
    "["@ + bytes_desc_inner(s) + "]"@
}

/// Appends the bracketed decimal text of a byte list.
fn push_bytes_desc(s: &mut String, v: &[u8])
    ensures
        final(s)@ == old(s)@ + bytes_desc(v@),
{
    s.append("[");
    let ghost base = s@;
    proof {
        assert(s@ =~= base + bytes_desc_inner(v@.subrange(0, 0)));
    }
    let mut k: usize = 0;
    while k < v.len()
        invariant
            k <= v.len(),
            s@ == base + bytes_desc_inner(v@.subrange(0, k as int)),
        decreases v.len() - k,
    {
        if k > 0 {
            s.append(", ");
        }
        push_u8_dec(s, v[k]);
        k = k + 1;
        proof {
            let part = v@.subrange(0, k as int);
            assert(part.drop_last() =~= v@.subrange(0, k - 1));
            assert(s@ =~= base + bytes_desc_inner(part));
        }
    }
    proof {
        assert(v@.subrange(0, v@.len() as int) =~= v@);
    }
    s.append("]");
    proof {
        assert(s@ =~= old(s)@ + bytes_desc(v@));
    }
}

/// The log text of one instruction.
pub open spec fn instruction_desc(x: InstructionModel) -> Seq<char> {
    "Instruction { program_id_index: "@ + u8_dec(x.program_id_index) + ", accounts: "@
        + bytes_desc(x.accounts) + ", data: "@ + bytes_desc(x.data) + " }"@
}

/// Renders one instruction in a debug style sufficient for logging.
pub fn describe_instruction(x: &Instruction) -> (r: String)
    ensures
        r@ == instruction_desc(x@),
{
    let mut s = String::new();
    s.append("Instruction { program_id_index: ");
    push_u8_dec(&mut s, x.program_id_index);
    s.append(", accounts: ");
    push_bytes_desc(&mut s, x.accounts.as_slice());
    s.append(", data: ");
    push_bytes_desc(&mut s, x.data.as_slice());
    s.append(" }");
    proof {
        assert(s@ =~= instruction_desc(x@));
    }
    s
}

} // verus!
