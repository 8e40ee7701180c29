//! 3-bit cells read MSB-first out of byte strings, and the contexts built from them.
use vstd::prelude::*;

verus! {

/// Bit `bit` of `bytes`, counting from the most significant bit of byte 0.
pub open spec fn bit_msb_spec(bytes: Seq<u8>, bit: nat) -> nat {
    ((bytes[(bit / 8) as int] >> ((7 - bit % 8) as u8)) & 1) as nat
}

/// The 3-bit cell starting at `start_bit`, most significant bit first.
pub open spec fn cell3_spec(bytes: Seq<u8>, start_bit: nat) -> nat {
    4 * bit_msb_spec(bytes, start_bit) + 2 * bit_msb_spec(bytes, start_bit + 1) + bit_msb_spec(
        bytes,
        start_bit + 2,
    )
}

/// Bit `bit` of `bytes`, most significant bit of byte 0 first.
pub fn bit_msb(bytes: &[u8], bit: usize) -> (r: u8)
    requires
        bit / 8 < bytes@.len(),
    ensures
        r == bit_msb_spec(bytes@, bit as nat),
        r <= 1,
{
    proof {
        crate::bitfacts::lemma_usize_masks(bit);
    }
    let byte = bytes[bit >> 3];
    let shift = (7 - (bit & 7)) as u8;
    proof {
        crate::bitfacts::lemma_u8_masks(byte >> shift);
    }
    (byte >> shift) & 1
}

/// The 3-bit cell at `start_bit`.
pub fn cell3(bytes: &[u8], start_bit: usize) -> (r: usize)
    requires
        start_bit + 2 <= usize::MAX,
        (start_bit + 2) / 8 < bytes@.len(),
    ensures
        r == cell3_spec(bytes@, start_bit as nat),
        r < 8,
{
    assert(start_bit / 8 <= (start_bit + 1) / 8 <= (start_bit + 2) / 8) by (nonlinear_arith);
    let a = bit_msb(bytes, start_bit) as usize;
    let b = bit_msb(bytes, start_bit + 1) as usize;
    let c = bit_msb(bytes, start_bit + 2) as usize;
    assert((a << 2usize) | (b << 1usize) | c == 4 * a + 2 * b + c) by (bit_vector)
        requires
            a <= 1,
            b <= 1,
            c <= 1,
    ;
    (a << 2) | (b << 1) | c
}

/// Packs three cells into a 9-bit context.
pub open spec fn context9(a: nat, b: nat, c: nat) -> nat {
    64 * a + 8 * b + c
}

proof fn lemma_pack9(a: usize, b: usize, c: usize)
    requires
        a < 8,
        b < 8,
        c < 8,
    ensures
        (a << 6usize) | (b << 3usize) | c == 64 * a + 8 * b + c,
        64 * a + 8 * b + c < 512,
{
    assert((a << 6usize) | (b << 3usize) | c == 64 * a + 8 * b + c) by (bit_vector)
        requires
            a < 8,
            b < 8,
            c < 8,
    ;
}

/// Number of whole 3-bit cells in an 80-byte header.
pub const INPUT_CELLS: usize = 213;
/// Number of whole 3-bit cells in a 32-byte digest.
pub const OUTPUT_CELLS: usize = 85;

/// The three header cells that predict output cell `output_cell`, packed.
pub fn input_context(header: &[u8; 80], output_cell: usize) -> (r: usize)
    requires
        output_cell * 149 + 137 <= usize::MAX,
    ensures
        r == context9(
            cell3_spec(header@, ((output_cell * 7) % 213 * 3) as nat),
            cell3_spec(header@, ((output_cell * 73 + 71) % 213 * 3) as nat),
            cell3_spec(header@, ((output_cell * 149 + 137) % 213 * 3) as nat),
        ),
        r < 512,
{
    let a = (output_cell * 7) % INPUT_CELLS;
    let b = (output_cell * 73 + 71) % INPUT_CELLS;
    let c = (output_cell * 149 + 137) % INPUT_CELLS;
    let sa = cell3(header, a * 3);
    let sb = cell3(header, b * 3);
    let sc = cell3(header, c * 3);
    proof {
        lemma_pack9(sa, sb, sc);
    }
    (sa << 6) | (sb << 3) | sc
}

/// Output cell `output_cell` of a digest.
pub fn output_state(digest: &[u8; 32], output_cell: usize) -> (r: usize)
    requires
        output_cell < OUTPUT_CELLS,
    ensures
        r == cell3_spec(digest@, (output_cell * 3) as nat),
        r < 8,
{
    cell3(digest, output_cell * 3)
}

/// The job context: header cells at bits 0, 213 and 426, packed.
pub fn job_context(header: &[u8; 80]) -> (r: usize)
    ensures
        r == context9(cell3_spec(header@, 0), cell3_spec(header@, 213), cell3_spec(header@, 426)),
        r < 512,
{
    let a = cell3(header, 0);
    let b = cell3(header, 213);
    let c = cell3(header, 426);
    proof {
        lemma_pack9(a, b, c);
    }
    (a << 6) | (b << 3) | c
}

/// The three input figures read before hashing: header bits 0..2, 213..215 and 426..428.
pub fn context_from_input(header: &[u8; 80]) -> (r: [u8; 3])
    ensures
        r@[0] == cell3_spec(header@, 0),
        r@[1] == cell3_spec(header@, 213),
        r@[2] == cell3_spec(header@, 426),
{
    [cell3(header, 0) as u8, cell3(header, 213) as u8, cell3(header, 426) as u8]
}

/// The first figure of a digest: its three most significant bits.
pub fn first_digest_figure(digest: &[u8; 32]) -> (r: u8)
    ensures
        r == digest@[0] / 32,
        r == cell3_spec(digest@, 0),
        r < 8,
{
    let b = digest[0];
    assert(b >> 5u8 == b / 32 && b >> 5u8 < 8 && b / 32 == 4 * ((b >> 7u8) & 1) + 2 * ((b >> 6u8) & 1)
        + ((b >> 5u8) & 1)) by (bit_vector);
    b >> 5
}

/// Context law: a packed context determines its three cells.
pub proof fn lemma_context9_unpacks(a: nat, b: nat, c: nat)
    requires
        a < 8,
        b < 8,
        c < 8,
    ensures
        context9(a, b, c) / 64 == a,
        (context9(a, b, c) / 8) % 8 == b,
        context9(a, b, c) % 8 == c,
        context9(a, b, c) < 512,
{
    assert(context9(a, b, c) / 64 == a && (context9(a, b, c) / 8) % 8 == b && context9(a, b, c) % 8
        == c) by (nonlinear_arith)
        requires
            a < 8,
            b < 8,
            c < 8,
    ;
}

} // verus!
