//! LEB128 encodings used by the WebAssembly binary format.

use vstd::arithmetic::div_mod::lemma_fundamental_div_mod_converse;
use vstd::prelude::*;

verus! {

/// Unsigned LEB128: seven bits per byte, least significant group first, the
/// continuation bit set on every byte but the last.
pub open spec fn uleb(n: nat) -> Seq<u8>
    decreases n,
{
    if n < 128 {
        seq![n as u8]
    } else {
        seq![(128 + n % 128) as u8] + uleb(n / 128)
    }
}

/// Signed LEB128: groups of seven bits of the two's complement value, stopping as
/// soon as the rest of the value is the sign extension of the last group.
pub open spec fn sleb(v: int) -> Seq<u8>
    decreases (if v >= 0 { v } else { -v }),
{
    let low = v % 128;
    let rest = v / 128;
    if (rest == 0 && low < 64) || (rest == -1 && low >= 64) {
        seq![low as u8]
    } else {
        seq![(128 + low) as u8] + sleb(rest)
    }
}

/// The value of a 32-bit pattern read as a two's complement integer.
pub open spec fn as_i32(x: u32) -> int {
    if x < 0x8000_0000 {
        x as int
    } else {
        x as int - 0x1_0000_0000
    }
}

/// Appends the unsigned LEB128 encoding of `n`.
pub fn push_uleb(v: &mut Vec<u8>, n: usize)
    ensures
        final(v)@ == old(v)@ + uleb(n as nat),
{
    let mut m: usize = n;
    while m >= 128
        invariant
            v@ + uleb(m as nat) == old(v)@ + uleb(n as nat),
        decreases m,
    {
        let ghost before = v@;
        v.push((128 + m % 128) as u8);
        proof {
            assert(uleb(m as nat) == seq![(128 + m % 128) as u8] + uleb((m / 128) as nat));
            assert(before + uleb(m as nat) =~= v@ + uleb((m / 128) as nat));
        }
        m = m / 128;
    }
    v.push(m as u8);
    proof {
        assert(uleb(m as nat) == seq![m as u8]);
    }
}

/// The value whose signed encoding remains to be written, for a sign and a
/// magnitude `m` (a negative value `v` is held as `-v - 1`).
spec fn signed_value(neg: bool, m: nat) -> int {
    if neg {
        -(m as int) - 1
    } else {
        m as int
    }
}

proof fn lemma_signed_step(neg: bool, m: nat)
    ensures
        signed_value(neg, m) % 128 == (if neg { 127 - (m % 128) as int } else { (m % 128) as int }),
        signed_value(neg, m) / 128 == signed_value(neg, m / 128),
{
    if neg {
        let q = -((m / 128) as int) - 1;
        let r = 127 - (m % 128) as int;
        assert(signed_value(neg, m) == q * 128 + r) by (nonlinear_arith)
            requires
                q == -((m / 128) as int) - 1,
                r == 127 - (m % 128) as int,
                m == (m / 128) * 128 + m % 128,
                signed_value(neg, m) == -(m as int) - 1,
        ;
        lemma_fundamental_div_mod_converse(signed_value(neg, m), 128, q, r);
    }
}

/// Appends the signed LEB128 encoding of `n` read as a 32-bit two's complement value.
pub fn push_sleb_u32(v: &mut Vec<u8>, n: u32)
    ensures
        final(v)@ == old(v)@ + sleb(as_i32(n)),
{
    let neg = n >= 0x8000_0000;
    let mut m: u32 = if neg {
        0xffff_ffff - n
    } else {
        n
    };
    assert(signed_value(neg, m as nat) == as_i32(n));
    while m >= 64
        invariant
            v@ + sleb(signed_value(neg, m as nat)) == old(v)@ + sleb(as_i32(n)),
        decreases m,
    {
        let low: u32 = if neg {
            127 - m % 128
        } else {
            m % 128
        };
        let ghost before = v@;
        proof {
            lemma_signed_step(neg, m as nat);
            let w = signed_value(neg, m as nat);
            assert(sleb(w) == seq![(128 + w % 128) as u8] + sleb(w / 128));
            assert(before + sleb(w) =~= before.push((128 + low) as u8) + sleb(
                signed_value(neg, (m / 128) as nat),
            ));
        }
        v.push((128 + low) as u8);
        m = m / 128;
    }
    let low: u32 = if neg {
        127 - m
    } else {
        m
    };
    proof {
        lemma_signed_step(neg, m as nat);
        let w = signed_value(neg, m as nat);
        assert(sleb(w) == seq![(w % 128) as u8]);
    }
    v.push(low as u8);
}

} // verus!
