//! Unsigned integers in bincode's variable-length form (its standard
//! configuration): a value up to 250 is its own single byte; a larger one is a
//! tag byte (251, 252 or 253) followed by the value in 2, 4 or 8
//! little-endian bytes.

use vstd::prelude::*;

use crate::error::DecodeError;

verus! {

/// Largest tag a `u32` may carry.
pub const U32_MAX_TAG: u8 = 252;

/// Largest tag a `u64` may carry.
pub const U64_MAX_TAG: u8 = 253;

#[verifier::external_type_specification]
#[verifier::external_body]
pub struct ExEncodeError(bincode::error::EncodeError);

/// `256` to the power `n`.
pub open spec fn pow256(n: nat) -> nat
    decreases n,
{
    if n == 0 {
        1
    } else {
        256 * pow256((n - 1) as nat)
    }
}

/// The low `n` bytes of `v`, least significant first.
pub open spec fn le_bytes(v: nat, n: nat) -> Seq<u8>
    decreases n,
{
    if n == 0 {
        seq![]
    } else {
        seq![(v % 256) as u8] + le_bytes(v / 256, (n - 1) as nat)
    }
}

/// The number that the little-endian bytes `s` stand for.
pub open spec fn le_value(s: Seq<u8>) -> nat
    decreases s.len(),
{
    if s.len() == 0 {
        0
    } else {
        s[0] as nat + 256 * le_value(s.drop_first())
    }
}

/// Number of little-endian bytes that follow the tag byte `tag`.
pub open spec fn tag_width(tag: u8) -> nat {
    if tag == 251 {
        2
    } else if tag == 252 {
        4
    } else {
        8
    }
}

/// The variable-length form of `v` (meant for `v < 2^64`), in its shortest
/// form.
pub open spec fn varint_bytes(v: nat) -> Seq<u8> {
    if v <= 250 {
        seq![v as u8]
    } else if v <= 0xffff {
        seq![251u8] + le_bytes(v, 2)
    } else if v <= 0xffff_ffff {
        seq![252u8] + le_bytes(v, 4)
    } else {
        seq![253u8] + le_bytes(v, 8)
    }
}

/// Reads an integer of a type whose largest tag is `max_tag` from the front of
/// `s`: its value and the number of bytes it took. Longer forms than needed
/// are accepted.
pub open spec fn read_varint(s: Seq<u8>, max_tag: u8) -> Result<(nat, nat), DecodeError> {
    if s.len() == 0 {
        Err(DecodeError::UnexpectedEnd)
    } else if s[0] <= 250 {
        Ok((s[0] as nat, 1))
    } else if s[0] > max_tag {
        Err(DecodeError::InvalidInteger)
    } else if s.len() < 1 + tag_width(s[0]) {
        Err(DecodeError::UnexpectedEnd)
    } else {
        Ok((le_value(s.subrange(1, 1 + tag_width(s[0]) as int)), 1 + tag_width(s[0])))
    }
}

/// Relies on `bincode::encode_to_vec` with `bincode::config::standard()`: a
/// `u32` is written by `varint_encode_u32`, and writing into a `Vec` never
/// fails.
#[verifier::external_body]
fn encode_u32(v: u32) -> (r: Result<Vec<u8>, bincode::error::EncodeError>)
    ensures
        r is Ok,
        r->Ok_0@ == varint_bytes(v as nat),
{
    bincode::encode_to_vec(v, bincode::config::standard())
}

/// Relies on `bincode::encode_to_vec` with `bincode::config::standard()`: a
/// `u64` is written by `varint_encode_u64`, and writing into a `Vec` never
/// fails.
#[verifier::external_body]
fn encode_u64(v: u64) -> (r: Result<Vec<u8>, bincode::error::EncodeError>)
    ensures
        r is Ok,
        r->Ok_0@ == varint_bytes(v as nat),
{
    bincode::encode_to_vec(v, bincode::config::standard())
}

/// Relies on `bincode::decode_from_slice::<u32, _>` with
/// `bincode::config::standard()`: `varint_decode_u32` reads a tag byte and
/// then 0, 2 or 4 little-endian bytes, fails with `UnexpectedEnd` where the
/// slice is short and with `InvalidIntegerType` on a tag above 252; the count
/// returned is the number of bytes read.
#[verifier::external_body]
fn decode_u32(bytes: &[u8]) -> (r: Result<(u32, usize), DecodeError>)
    ensures
        r is Ok ==> read_varint(bytes@, U32_MAX_TAG) == Ok::<(nat, nat), DecodeError>(
            (r->Ok_0.0 as nat, r->Ok_0.1 as nat),
        ),
        r is Err ==> read_varint(bytes@, U32_MAX_TAG) == Err::<(nat, nat), DecodeError>(r->Err_0),
{
    match bincode::decode_from_slice::<u32, _>(bytes, bincode::config::standard()) {
        Ok(pair) => Ok(pair),
        Err(bincode::error::DecodeError::UnexpectedEnd { .. }) => Err(DecodeError::UnexpectedEnd),
        Err(_) => Err(DecodeError::InvalidInteger),
    }
}

/// Relies on `bincode::decode_from_slice::<u64, _>` with
/// `bincode::config::standard()`: `varint_decode_u64` reads a tag byte and
/// then 0, 2, 4 or 8 little-endian bytes, fails with `UnexpectedEnd` where the
/// slice is short and with `InvalidIntegerType` on a tag above 253; the count
/// returned is the number of bytes read.
#[verifier::external_body]
fn decode_u64(bytes: &[u8]) -> (r: Result<(u64, usize), DecodeError>)
    ensures
        r is Ok ==> read_varint(bytes@, U64_MAX_TAG) == Ok::<(nat, nat), DecodeError>(
            (r->Ok_0.0 as nat, r->Ok_0.1 as nat),
        ),
        r is Err ==> read_varint(bytes@, U64_MAX_TAG) == Err::<(nat, nat), DecodeError>(r->Err_0),
{
    match bincode::decode_from_slice::<u64, _>(bytes, bincode::config::standard()) {
        Ok(pair) => Ok(pair),
        Err(bincode::error::DecodeError::UnexpectedEnd { .. }) => Err(DecodeError::UnexpectedEnd),
        Err(_) => Err(DecodeError::InvalidInteger),
    }
}

/// Appends the variable-length form of `v` to `out`.
pub fn put_u32(out: &mut Vec<u8>, v: u32)
    ensures
        final(out)@ == old(out)@ + varint_bytes(v as nat),
{
    match encode_u32(v) {
        Ok(mut b) => out.append(&mut b),
        Err(_) => {},
    }
}

/// Appends the variable-length form of `v` to `out`.
pub fn put_u64(out: &mut Vec<u8>, v: u64)
    ensures
        final(out)@ == old(out)@ + varint_bytes(v as nat),
{
    match encode_u64(v) {
        Ok(mut b) => out.append(&mut b),
        Err(_) => {},
    }
}

/// Reads a `u32` starting at `pos`: its value and the position just after it.
pub fn get_u32(bytes: &[u8], pos: usize) -> (r: Result<(u32, usize), DecodeError>)
    requires
        pos <= bytes@.len(),
    ensures
        r is Ok ==> pos < r->Ok_0.1 <= bytes@.len() && read_varint(bytes@.skip(pos as int), U32_MAX_TAG)
            == Ok::<(nat, nat), DecodeError>((r->Ok_0.0 as nat, (r->Ok_0.1 - pos) as nat)),
        r is Err ==> read_varint(bytes@.skip(pos as int), U32_MAX_TAG) == Err::<(nat, nat), DecodeError>(r->Err_0),
{
    let tail = &bytes[pos..bytes.len()];
    assert(tail@ == bytes@.skip(pos as int));
    match decode_u32(tail) {
        Ok((v, n)) => Ok((v, pos + n)),
        Err(e) => Err(e),
    }
}

/// Reads a `u64` starting at `pos`: its value and the position just after it.
pub fn get_u64(bytes: &[u8], pos: usize) -> (r: Result<(u64, usize), DecodeError>)
    requires
        pos <= bytes@.len(),
    ensures
        r is Ok ==> pos < r->Ok_0.1 <= bytes@.len() && read_varint(bytes@.skip(pos as int), U64_MAX_TAG)
            == Ok::<(nat, nat), DecodeError>((r->Ok_0.0 as nat, (r->Ok_0.1 - pos) as nat)),
        r is Err ==> read_varint(bytes@.skip(pos as int), U64_MAX_TAG) == Err::<(nat, nat), DecodeError>(r->Err_0),
{
    let tail = &bytes[pos..bytes.len()];
    assert(tail@ == bytes@.skip(pos as int));
    match decode_u64(tail) {
        Ok((v, n)) => Ok((v, pos + n)),
        Err(e) => Err(e),
    }
}

/// `le_bytes(v, n)` has `n` bytes.
pub proof fn lemma_le_bytes_len(v: nat, n: nat)
    ensures
        le_bytes(v, n).len() == n,
    decreases n,
{
    if n > 0 {
        lemma_le_bytes_len(v / 256, (n - 1) as nat);
    }
}

/// Reading back `n` little-endian bytes of a value below `256^n` gives the
/// value.
pub proof fn lemma_le_round_trip(v: nat, n: nat)
    requires
        v < pow256(n),
    ensures
        le_value(le_bytes(v, n)) == v,
    decreases n,
{
    if n > 0 {
        let p = pow256((n - 1) as nat);
        assert(v / 256 < p) by (nonlinear_arith)
            requires
                v < 256 * p,
        ;
        lemma_le_round_trip(v / 256, (n - 1) as nat);
        assert(le_bytes(v, n).drop_first() =~= le_bytes(v / 256, (n - 1) as nat));
        assert(v == v % 256 + 256 * (v / 256)) by (nonlinear_arith);
    }
}

/// An integer written in its variable-length form reads back as itself, with
/// the length of that form, whatever follows it; `max_tag` admits the form's
/// tag.
pub proof fn lemma_varint_round_trip(v: nat, max_tag: u8, rest: Seq<u8>)
    requires
        v <= 0xffff_ffff ==> max_tag >= U32_MAX_TAG,
        v > 0xffff_ffff ==> v <= 0xffff_ffff_ffff_ffff && max_tag >= U64_MAX_TAG,
    ensures
        read_varint(varint_bytes(v) + rest, max_tag) == Ok::<(nat, nat), DecodeError>((v, varint_bytes(v).len())),
{
    let s = varint_bytes(v) + rest;
    assert(pow256(0) == 1);
    assert(pow256(1) == 0x100);
    assert(pow256(2) == 0x1_0000);
    assert(pow256(3) == 0x100_0000);
    assert(pow256(4) == 0x1_0000_0000);
    assert(pow256(5) == 0x100_0000_0000);
    assert(pow256(6) == 0x1_0000_0000_0000);
    assert(pow256(7) == 0x100_0000_0000_0000);
    assert(pow256(8) == 0x1_0000_0000_0000_0000);
    if v > 250 {
        let w: nat = if v <= 0xffff {
            2
        } else if v <= 0xffff_ffff {
            4
        } else {
            8
        };
        lemma_le_bytes_len(v, w);
        lemma_le_round_trip(v, w);
        assert(s.subrange(1, 1 + w as int) =~= le_bytes(v, w));
    }
}

/// A proper prefix of an integer's variable-length form reads as
/// [`DecodeError::UnexpectedEnd`]; `max_tag` admits the form's tag.
pub proof fn lemma_varint_truncated(v: nat, max_tag: u8, k: nat)
    requires
        v <= 0xffff_ffff ==> max_tag >= U32_MAX_TAG,
        v > 0xffff_ffff ==> v <= 0xffff_ffff_ffff_ffff && max_tag >= U64_MAX_TAG,
        k < varint_bytes(v).len(),
    ensures
        read_varint(varint_bytes(v).take(k as int), max_tag) == Err::<(nat, nat), DecodeError>(
            DecodeError::UnexpectedEnd,
        ),
{
    lemma_le_bytes_len(v, 2);
    lemma_le_bytes_len(v, 4);
    lemma_le_bytes_len(v, 8);
}

} // verus!
