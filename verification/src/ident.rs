//! Fresh ids in the canonical dashed shape, derived from host-supplied
//! entropy.
//!
//! The host hands in what only it knows — its clock, its caller's bytes and
//! a call counter — and gets back a dashed, versioned id formed from the
//! digest of that material.

use sha2::{Digest, Sha256};
use vstd::bytes::{spec_u64_to_le_bytes, u64_to_le_bytes};
use vstd::prelude::*;

use crate::respond::push_char;

verus! {

/// What the SHA-256 digest of a byte string is; the digest depends on the
/// bytes alone.
pub uninterp spec fn sha256_of(bytes: Seq<u8>) -> Seq<u8>;

/// Relies on sha2's `Sha256`: the digest of the bytes, thirty-two bytes
/// long.
#[verifier::external_body]
fn sha256(bytes: &Vec<u8>) -> (r: Vec<u8>)
    ensures
        r@ == sha256_of(bytes@),
        r@.len() == 32,
{
    let mut hasher = Sha256::new();
    hasher.update(bytes.as_slice());
    hasher.finalize().to_vec()
}

/// The hexadecimal digit of a value below sixteen.
pub open spec fn hex_digit(n: int) -> char {
    if n < 10 {
        (48 + n) as char
    } else {
        (87 + n) as char
    }
}

/// The lowest `width` hexadecimal digits of a value, highest first.
pub open spec fn hex_of(n: int, width: int) -> Seq<char>
    decreases width,
{
    if width <= 0 {
        Seq::empty()
    } else {
        hex_of(n / 16, width - 1).push(hex_digit(n % 16))
    }
}

/// A fixed-width run of hexadecimal digits has that width.
pub proof fn lemma_hex_of_len(n: int, width: int)
    requires
        width >= 0,
    ensures
        hex_of(n, width).len() == width,
    decreases width,
{
    if width > 0 {
        lemma_hex_of_len(n / 16, width - 1);
    }
}

/// The dashed id a sixteen-byte digest prefix yields: eight, four, four,
/// four and twelve hexadecimal digits, with the third group opening on the
/// version digit and the fourth group's top bits pinned.
pub open spec fn id_of(d: Seq<u8>) -> Seq<char> {
    let g1 = d[0] * 0x100_0000 + d[1] * 0x1_0000 + d[2] * 0x100 + d[3];
    let g2 = d[4] * 0x100 + d[5];
    let g3 = (d[6] * 0x100 + d[7]) % 0x1000;
    let g4 = (d[8] * 0x100 + d[9]) % 0x4000 + 0x8000;
    let g5 = d[10] * 0x100_0000_0000 + d[11] * 0x1_0000_0000 + d[12] * 0x100_0000 + d[13]
        * 0x1_0000 + d[14] * 0x100 + d[15];
    hex_of(g1 as int, 8) + seq!['-'] + hex_of(g2 as int, 4) + seq!['-', '4'] + hex_of(
        g3 as int,
        3,
    ) + seq!['-'] + hex_of(g4 as int, 4) + seq!['-'] + hex_of(g5 as int, 12)
}

/// The material an id is derived from: the clock, the caller's bytes, and
/// the call counter.
pub open spec fn id_material(time: u64, caller: Seq<u8>, counter: u64) -> Seq<u8> {
    spec_u64_to_le_bytes(time) + caller + spec_u64_to_le_bytes(counter)
}

/// One hexadecimal digit.
fn hex_digit_char(n: u64) -> (r: char)
    requires
        n < 16,
    ensures
        r == hex_digit(n as int),
{
    if n < 10 {
        (48 + n as u8) as char
    } else {
        (87 + n as u8) as char
    }
}

/// Append the lowest `width` hexadecimal digits of a value, highest first.
fn push_hex(out: &mut String, x: u64, width: usize)
    ensures
        final(out)@ == old(out)@ + hex_of(x as int, width as int),
    decreases width,
{
    if width == 0 {
        proof {
            assert(old(out)@ + hex_of(x as int, 0) =~= old(out)@);
        }
        return ;
    }
    push_hex(out, x / 16, width - 1);
    push_char(out, hex_digit_char(x % 16));
    proof {
        assert(final(out)@ =~= old(out)@ + hex_of(x as int, width as int));
    }
}

/// Derive a fresh dashed id from the host's entropy: the clock, the
/// caller's bytes and a call counter are digested, and the digest's first
/// sixteen bytes are written out in the canonical dashed shape.
#[verifier::loop_isolation(false)]
pub fn uuid_from_entropy(time: u64, caller: &Vec<u8>, counter: u64) -> (r: String)
    ensures
        r@ == id_of(sha256_of(id_material(time, caller@, counter))),
        r@.len() == 36,
{
    let mut material = u64_to_le_bytes(time);
    let mut caller_bytes: Vec<u8> = Vec::new();
    let mut i: usize = 0;
    while i < caller.len()
        invariant
            0 <= i <= caller@.len(),
            caller_bytes@ == caller@.subrange(0, i as int),
        decreases caller@.len() - i,
    {
        caller_bytes.push(caller[i]);
        proof {
            assert(caller_bytes@ =~= caller@.subrange(0, i as int + 1));
        }
        i = i + 1;
    }
    proof {
        assert(caller_bytes@ =~= caller@);
    }
    material.append(&mut caller_bytes);
    let mut counter_bytes = u64_to_le_bytes(counter);
    material.append(&mut counter_bytes);
    proof {
        assert(material@ =~= id_material(time, caller@, counter));
    }
    let d = sha256(&material);
    let g1: u64 = (d[0] as u64) * 0x100_0000 + (d[1] as u64) * 0x1_0000 + (d[2] as u64) * 0x100 + (
    d[3] as u64);
    let g2: u64 = (d[4] as u64) * 0x100 + (d[5] as u64);
    let g3: u64 = ((d[6] as u64) * 0x100 + (d[7] as u64)) % 0x1000;
    let g4: u64 = ((d[8] as u64) * 0x100 + (d[9] as u64)) % 0x4000 + 0x8000;
    let g5: u64 = (d[10] as u64) * 0x100_0000_0000 + (d[11] as u64) * 0x1_0000_0000 + (
    d[12] as u64) * 0x100_0000 + (d[13] as u64) * 0x1_0000 + (d[14] as u64) * 0x100 + (
    d[15] as u64);
    let mut out = String::new();
    push_hex(&mut out, g1, 8);
    push_char(&mut out, '-');
    push_hex(&mut out, g2, 4);
    push_char(&mut out, '-');
    push_char(&mut out, '4');
    push_hex(&mut out, g3, 3);
    push_char(&mut out, '-');
    push_hex(&mut out, g4, 4);
    push_char(&mut out, '-');
    push_hex(&mut out, g5, 12);
    proof {
        let dig = sha256_of(id_material(time, caller@, counter));
        lemma_hex_of_len(g1 as int, 8);
        lemma_hex_of_len(g2 as int, 4);
        lemma_hex_of_len(g3 as int, 3);
        lemma_hex_of_len(g4 as int, 4);
        lemma_hex_of_len(g5 as int, 12);
        assert(out@ =~= id_of(dig));
    }
    out
}

} // verus!
