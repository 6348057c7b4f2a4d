//! The trusted interface to the `octets` crate, the bounds-checked byte
//! cursor the codec reads from and writes to. Each wrapper's contract
//! states, over the cursor's buffer contents and offset, exactly what the
//! corresponding `octets` operation does; Verus believes these contracts
//! and everything else in the crate is proved from them.

use crate::varint::{fits_varint, spec_varint_bytes, spec_varint_len, varint_at};
use crate::wire::{be16_bytes, splice, u16_at};
use vstd::prelude::*;

verus! {

#[verifier::external_type_specification]
#[verifier::external_body]
pub struct ExOctets<'a>(octets::Octets<'a>);

#[verifier::external_type_specification]
#[verifier::external_body]
pub struct ExOctetsMut<'a>(octets::OctetsMut<'a>);

#[verifier::external_type_specification]
#[verifier::external_body]
pub struct ExBufferTooShortError(octets::BufferTooShortError);

/// The bytes of the buffer an `octets::Octets` cursor ranges over.
pub uninterp spec fn octets_data(b: octets::Octets) -> Seq<u8>;

/// The current offset of an `octets::Octets` cursor into its buffer.
pub uninterp spec fn octets_off(b: octets::Octets) -> int;

/// The bytes of the buffer an `octets::OctetsMut` cursor ranges over.
pub uninterp spec fn octets_mut_data(b: octets::OctetsMut) -> Seq<u8>;

/// The current offset of an `octets::OctetsMut` cursor into its buffer.
pub uninterp spec fn octets_mut_off(b: octets::OctetsMut) -> int;

/// Relies on octets::Octets::get_varint: reads the variable-length
/// integer at the offset and advances past it; fails without advancing
/// if the buffer ends before the integer's self-described width.
#[verifier::external_body]
pub(crate) fn get_varint(b: &mut octets::Octets) -> (r: Result<u64, octets::BufferTooShortError>)
    ensures
        octets_data(*final(b)) == octets_data(*old(b)),
        0 <= octets_off(*old(b)) <= octets_off(*final(b)) <= octets_data(*final(b)).len()
            <= usize::MAX,
        match r {
            Ok(v) => varint_at(octets_data(*old(b)), octets_off(*old(b))) == Some(
                (v, octets_off(*final(b)) - octets_off(*old(b))),
            ),
            Err(_) => varint_at(octets_data(*old(b)), octets_off(*old(b))) is None && octets_off(
                *final(b),
            ) == octets_off(*old(b)),
        },
{
    b.get_varint()
}

/// Relies on octets::Octets::get_u16: reads a 16-bit integer in network
/// byte order and advances by two; fails without advancing if fewer than
/// two bytes remain.
#[verifier::external_body]
pub(crate) fn get_u16(b: &mut octets::Octets) -> (r: Result<u16, octets::BufferTooShortError>)
    ensures
        octets_data(*final(b)) == octets_data(*old(b)),
        0 <= octets_off(*old(b)) <= octets_off(*final(b)) <= octets_data(*final(b)).len()
            <= usize::MAX,
        match r {
            Ok(v) => u16_at(octets_data(*old(b)), octets_off(*old(b))) == Some(v) && octets_off(
                *final(b),
            ) == octets_off(*old(b)) + 2,
            Err(_) => octets_off(*old(b)) + 2 > octets_data(*old(b)).len() && octets_off(*final(b))
                == octets_off(*old(b)),
        },
{
    b.get_u16()
}

/// Relies on octets::Octets::get_u8: reads one byte and advances past
/// it; fails without advancing if the buffer is exhausted.
#[verifier::external_body]
pub(crate) fn get_u8(b: &mut octets::Octets) -> (r: Result<u8, octets::BufferTooShortError>)
    ensures
        octets_data(*final(b)) == octets_data(*old(b)),
        0 <= octets_off(*old(b)) <= octets_off(*final(b)) <= octets_data(*final(b)).len()
            <= usize::MAX,
        match r {
            Ok(v) => octets_off(*old(b)) < octets_data(*old(b)).len() && v == octets_data(
                *old(b),
            )[octets_off(*old(b))] && octets_off(*final(b)) == octets_off(*old(b)) + 1,
            Err(_) => octets_off(*old(b)) + 1 > octets_data(*old(b)).len() && octets_off(*final(b))
                == octets_off(*old(b)),
        },
{
    b.get_u8()
}

/// Relies on octets::Octets::get_bytes (and Octets::to_vec to copy the
/// returned view out): reads `len` bytes and advances past them; fails
/// without advancing if fewer than `len` bytes remain.
#[verifier::external_body]
pub(crate) fn get_bytes_vec(b: &mut octets::Octets, len: usize) -> (r: Result<
    Vec<u8>,
    octets::BufferTooShortError,
>)
    ensures
        octets_data(*final(b)) == octets_data(*old(b)),
        0 <= octets_off(*old(b)) <= octets_off(*final(b)) <= octets_data(*final(b)).len()
            <= usize::MAX,
        match r {
            Ok(v) => v@ == octets_data(*old(b)).subrange(
                octets_off(*old(b)),
                octets_off(*old(b)) + len,
            ) && octets_off(*final(b)) == octets_off(*old(b)) + len,
            Err(_) => octets_off(*old(b)) + len > octets_data(*old(b)).len() && octets_off(
                *final(b),
            ) == octets_off(*old(b)),
        },
{
    match b.get_bytes(len) {
        Ok(v) => Ok(v.to_vec()),
        Err(e) => Err(e),
    }
}

/// Relies on octets::Octets::cap: the number of bytes remaining past the
/// current offset.
#[verifier::external_body]
pub(crate) fn cap(b: &octets::Octets) -> (r: usize)
    ensures
        r == octets_data(*b).len() - octets_off(*b),
        r <= octets_data(*b).len() <= usize::MAX,
{
    b.cap()
}

/// Relies on octets::OctetsMut::put_varint: writes `v` as a
/// variable-length integer at the offset and advances past it; fails
/// without writing if the encoding does not fit in the remaining bytes.
#[verifier::external_body]
pub(crate) fn put_varint(b: &mut octets::OctetsMut, v: u64) -> (r: Result<
    (),
    octets::BufferTooShortError,
>)
    requires
        fits_varint(v),
    ensures
        octets_mut_data(*final(b)).len() == octets_mut_data(*old(b)).len(),
        0 <= octets_mut_off(*old(b)) <= octets_mut_off(*final(b)) <= octets_mut_data(
            *final(b),
        ).len() <= usize::MAX,
        match r {
            Ok(_) => octets_mut_data(*final(b)) == splice(
                octets_mut_data(*old(b)),
                octets_mut_off(*old(b)),
                spec_varint_bytes(v),
            ) && octets_mut_off(*final(b)) == octets_mut_off(*old(b)) + spec_varint_len(v),
            Err(_) => octets_mut_data(*old(b)).len() < octets_mut_off(*old(b)) + spec_varint_len(v)
                && octets_mut_data(*final(b)) == octets_mut_data(*old(b)) && octets_mut_off(
                *final(b),
            ) == octets_mut_off(*old(b)),
        },
{
    match b.put_varint(v) {
        Ok(_) => Ok(()),
        Err(e) => Err(e),
    }
}

/// Relies on octets::OctetsMut::put_u16: writes a 16-bit integer in
/// network byte order and advances by two; fails without writing if
/// fewer than two bytes remain.
#[verifier::external_body]
pub(crate) fn put_u16(b: &mut octets::OctetsMut, v: u16) -> (r: Result<
    (),
    octets::BufferTooShortError,
>)
    ensures
        octets_mut_data(*final(b)).len() == octets_mut_data(*old(b)).len(),
        0 <= octets_mut_off(*old(b)) <= octets_mut_off(*final(b)) <= octets_mut_data(
            *final(b),
        ).len() <= usize::MAX,
        match r {
            Ok(_) => octets_mut_data(*final(b)) == splice(
                octets_mut_data(*old(b)),
                octets_mut_off(*old(b)),
                be16_bytes(v),
            ) && octets_mut_off(*final(b)) == octets_mut_off(*old(b)) + 2,
            Err(_) => octets_mut_data(*old(b)).len() < octets_mut_off(*old(b)) + 2
                && octets_mut_data(*final(b)) == octets_mut_data(*old(b)) && octets_mut_off(
                *final(b),
            ) == octets_mut_off(*old(b)),
        },
{
    match b.put_u16(v) {
        Ok(_) => Ok(()),
        Err(e) => Err(e),
    }
}

/// Relies on octets::OctetsMut::put_u8: writes one byte and advances
/// past it; fails without writing if the buffer is exhausted.
#[verifier::external_body]
pub(crate) fn put_u8(b: &mut octets::OctetsMut, v: u8) -> (r: Result<
    (),
    octets::BufferTooShortError,
>)
    ensures
        octets_mut_data(*final(b)).len() == octets_mut_data(*old(b)).len(),
        0 <= octets_mut_off(*old(b)) <= octets_mut_off(*final(b)) <= octets_mut_data(
            *final(b),
        ).len() <= usize::MAX,
        match r {
            Ok(_) => octets_mut_data(*final(b)) == splice(
                octets_mut_data(*old(b)),
                octets_mut_off(*old(b)),
                seq![v],
            ) && octets_mut_off(*final(b)) == octets_mut_off(*old(b)) + 1,
            Err(_) => octets_mut_data(*old(b)).len() < octets_mut_off(*old(b)) + 1
                && octets_mut_data(*final(b)) == octets_mut_data(*old(b)) && octets_mut_off(
                *final(b),
            ) == octets_mut_off(*old(b)),
        },
{
    match b.put_u8(v) {
        Ok(_) => Ok(()),
        Err(e) => Err(e),
    }
}

/// Relies on octets::OctetsMut::put_bytes: writes the whole run `v` at
/// the offset and advances past it; fails without writing if the run
/// does not fit in the remaining bytes.
#[verifier::external_body]
pub(crate) fn put_bytes(b: &mut octets::OctetsMut, v: &[u8]) -> (r: Result<
    (),
    octets::BufferTooShortError,
>)
    ensures
        octets_mut_data(*final(b)).len() == octets_mut_data(*old(b)).len(),
        0 <= octets_mut_off(*old(b)) <= octets_mut_off(*final(b)) <= octets_mut_data(
            *final(b),
        ).len() <= usize::MAX,
        match r {
            Ok(_) => octets_mut_data(*final(b)) == splice(
                octets_mut_data(*old(b)),
                octets_mut_off(*old(b)),
                v@,
            ) && octets_mut_off(*final(b)) == octets_mut_off(*old(b)) + v@.len(),
            Err(_) => octets_mut_data(*old(b)).len() < octets_mut_off(*old(b)) + v@.len()
                && octets_mut_data(*final(b)) == octets_mut_data(*old(b)) && octets_mut_off(
                *final(b),
            ) == octets_mut_off(*old(b)),
        },
{
    b.put_bytes(v)
}

/// Relies on octets::OctetsMut::cap: the number of bytes remaining past
/// the current offset.
#[verifier::external_body]
pub(crate) fn cap_mut(b: &octets::OctetsMut) -> (r: usize)
    ensures
        r == octets_mut_data(*b).len() - octets_mut_off(*b),
        r <= octets_mut_data(*b).len() <= usize::MAX,
{
    b.cap()
}

/// Relies on octets::varint_len: the number of bytes the variable-length
/// encoding of `v` occupies.
#[verifier::external_body]
pub(crate) fn varint_len(v: u64) -> (r: usize)
    requires
        fits_varint(v),
    ensures
        r == spec_varint_len(v),
{
    octets::varint_len(v)
}

} // verus!
