//! Parsers recognizing numbers in binary formats
//!
//! An integer of `n` bytes is read from the first `n` tokens of the input; the value of the
//! bytes is [`be_value`] for big endian and [`le_value`] for little endian, and signed
//! integers are read in two's complement ([`signed_value`]).
use core::marker::PhantomData;
use vstd::prelude::*;
use crate::error::{ErrMode, ErrorKind, Needed, ParseError};
use crate::input::Input;
use crate::parser::{backtrack_at, incomplete_by, IResult, Parser};

verus! {

/// Configurable endianness
#[derive(Debug, PartialEq, Eq, Clone, Copy)]
pub enum Endianness {
    /// Big endian
    Big,
    /// Little endian
    Little,
    /// Will match the host's endianness
    Native,
}

/// `256` to the power `k`
pub open spec fn pow256(k: nat) -> nat
    decreases k,
{
    if k == 0 {
        1
    } else {
        256 * pow256((k - 1) as nat)
    }
}

/// The value of bytes read most significant first
pub open spec fn be_value(s: Seq<u8>) -> int
    decreases s.len(),
{
    if s.len() == 0 {
        0
    } else {
        be_value(s.drop_last()) * 256 + s.last() as int
    }
}

/// The value of bytes read least significant first
pub open spec fn le_value(s: Seq<u8>) -> int
    decreases s.len(),
{
    if s.len() == 0 {
        0
    } else {
        s[0] as int + 256 * le_value(s.skip(1))
    }
}

/// The value of `v`, an unsigned integer of `bits` bits, read in two's complement
pub open spec fn signed_value(v: int, bits: nat) -> int {
    if v >= vstd::arithmetic::power2::pow2((bits - 1) as nat) {
        v - vstd::arithmetic::power2::pow2(bits)
    } else {
        v
    }
}

/// The outcome of reading an `n`-byte number whose value is `expected` from `input`, the
/// result's value being taken through `value_of`.
///
/// When fewer than `n` tokens remain, a streaming input asks for the missing ones and a
/// complete one fails with [`ErrorKind::Eof`].
pub open spec fn fixed_rel<I: Input, T, E: ParseError<I>>(
    input: I,
    n: int,
    r: IResult<I, T, E>,
    value_of: spec_fn(T) -> int,
    expected: int,
) -> bool {
    if input.tokens().len() >= n {
        r matches Ok((rest, v)) && input.advances(rest, n) && value_of(v) == expected
    } else if input.partial() {
        incomplete_by(r, n - input.tokens().len())
    } else {
        backtrack_at(r, input, ErrorKind::Eof)
    }
}

/// `be_value(s)` fits in `s.len()` bytes.
pub proof fn lemma_be_value_bound(s: Seq<u8>)
    ensures
        be_value(s) < pow256(s.len()),
    decreases s.len(),
{
    if s.len() > 0 {
        lemma_be_value_bound(s.drop_last());
        let a = be_value(s.drop_last());
        let p = pow256(s.drop_last().len());
        assert(a * 256 + s.last() < 256 * p) by (nonlinear_arith)
            requires
                a < p,
                s.last() < 256,
        ;
    }
}

/// `le_value(s)` fits in `s.len()` bytes.
pub proof fn lemma_le_value_bound(s: Seq<u8>)
    ensures
        le_value(s) < pow256(s.len()),
    decreases s.len(),
{
    if s.len() > 0 {
        lemma_le_value_bound(s.skip(1));
        let a = le_value(s.skip(1));
        let p = pow256(s.skip(1).len());
        assert(s[0] + 256 * a < 256 * p) by (nonlinear_arith)
            requires
                a < p,
                s[0] < 256,
        ;
    }
}

/// The powers of 256 that bound integers of each width.
pub proof fn lemma_pow256_values()
    ensures
        pow256(1) == 0x100,
        pow256(2) == 0x10000,
        pow256(3) == 0x1000000,
        pow256(4) == 0x100000000,
        pow256(8) == 0x10000000000000000,
        pow256(16) == 0x100000000000000000000000000000000,
        vstd::arithmetic::power2::pow2(7) == 0x80,
        vstd::arithmetic::power2::pow2(8) == 0x100,
        vstd::arithmetic::power2::pow2(15) == 0x8000,
        vstd::arithmetic::power2::pow2(16) == 0x10000,
        vstd::arithmetic::power2::pow2(23) == 0x800000,
        vstd::arithmetic::power2::pow2(24) == 0x1000000,
        vstd::arithmetic::power2::pow2(31) == 0x80000000,
        vstd::arithmetic::power2::pow2(32) == 0x100000000,
        vstd::arithmetic::power2::pow2(63) == 0x8000000000000000,
        vstd::arithmetic::power2::pow2(64) == 0x10000000000000000,
        vstd::arithmetic::power2::pow2(127) == 0x80000000000000000000000000000000,
        vstd::arithmetic::power2::pow2(128) == 0x100000000000000000000000000000000,
{
    reveal_with_fuel(pow256, 17);
    vstd::arithmetic::power2::lemma2_to64();
    vstd::arithmetic::power2::lemma2_to64_rest();
    vstd::arithmetic::power2::lemma_pow2_adds(64, 63);
    vstd::arithmetic::power2::lemma_pow2_adds(64, 64);
}

/// Reads the first `n` bytes of `input` as an unsigned integer, most significant byte first
/// when `big` holds.
fn read_uint<I: Input<Token = u8>, E: ParseError<I>>(input: I, n: usize, big: bool) -> (r: IResult<I, u128, E>)
    requires
        1 <= n <= 16,
    ensures
        fixed_rel(
            input,
            n as int,
            r,
            |v: u128| v as int,
            if big {
                be_value(input.tokens().take(n as int))
            } else {
                le_value(input.tokens().take(n as int))
            },
        ),
{
    let len = input.token_count();
    if len < n {
        if input.is_partial() {
            return Err(ErrMode::Incomplete(Needed::new(n - len)));
        } else {
            return Err(ErrMode::Backtrack(E::from_error_kind(input, ErrorKind::Eof)));
        }
    }
    let ghost bytes = input.tokens().take(n as int);
    proof {
        lemma_pow256_values();
        lemma_pow256_mono(n as nat, 16);
    }
    let mut v: u128 = 0;
    if big {
        let mut k: usize = 0;
        while k < n
            invariant
                k <= n <= 16,
                n <= input.tokens().len(),
                bytes == input.tokens().take(n as int),
                v == be_value(bytes.take(k as int)),
                pow256(16) == 0x100000000000000000000000000000000,
            decreases n - k,
        {
            proof {
                lemma_be_value_bound(bytes.take(k as int));
                lemma_pow256_mono(k as nat, 15);
                assert(bytes.take(k + 1).drop_last() =~= bytes.take(k as int));
            }
            let b = input.token_at(k);
            assert(v * 256 + b < pow256(16)) by (nonlinear_arith)
                requires
                    v < pow256(k as nat),
                    pow256(k as nat) <= pow256(15),
                    pow256(16) == 256 * pow256(15),
                    b < 256,
            ;
            v = v * 256 + b as u128;
            k = k + 1;
        }
        assert(bytes.take(n as int) =~= bytes);
    } else {
        let mut k: usize = n;
        while k > 0
            invariant
                k <= n <= 16,
                n <= input.tokens().len(),
                bytes == input.tokens().take(n as int),
                v == le_value(bytes.skip(k as int)),
                pow256(16) == 0x100000000000000000000000000000000,
            decreases k,
        {
            proof {
                lemma_le_value_bound(bytes.skip(k as int));
                lemma_pow256_mono((n - k) as nat, 15);
                assert(bytes.skip(k - 1).skip(1) =~= bytes.skip(k as int));
            }
            let b = input.token_at(k - 1);
            assert(b + 256 * v < pow256(16)) by (nonlinear_arith)
                requires
                    v < pow256((n - k) as nat),
                    pow256((n - k) as nat) <= pow256(15),
                    pow256(16) == 256 * pow256(15),
                    b < 256,
            ;
            v = b as u128 + 256 * v;
            k = k - 1;
        }
        assert(bytes.skip(0) =~= bytes);
    }
    let (rest, _) = input.next_tokens(n);
    Ok((rest, v))
}

/// Powers of 256 grow with the exponent.
pub proof fn lemma_pow256_mono(a: nat, b: nat)
    requires
        a <= b,
    ensures
        pow256(a) <= pow256(b),
    decreases b,
{
    if a < b {
        lemma_pow256_mono(a, (b - 1) as nat);
    }
}

/// Whether the host stores integers least significant byte first, by the endianness that
/// vstd names for the executing hardware
pub open spec fn host_is_little() -> bool {
    vstd::endian::endianness() == vstd::endian::Endian::Little
}

/// The byte order of the host, as an [`Endianness`] other than `Native`
pub open spec fn host_endianness() -> Endianness {
    if host_is_little() {
        Endianness::Little
    } else {
        Endianness::Big
    }
}

/// Reads two bytes in the host's byte order, with `u16::from_ne_bytes`.
///
/// The contract claims what the documentation states: the value is that of the bytes read in
/// the byte order of the executing hardware, least significant first on a little-endian host
/// and most significant first otherwise; that order is vstd's `endianness()`.
#[verifier::external_body]
fn host_u16(bytes: [u8; 2]) -> (r: u16)
    ensures
        r == (if host_is_little() {
            bytes@[0] + 256 * bytes@[1]
        } else {
            256 * bytes@[0] + bytes@[1]
        }),
{
    u16::from_ne_bytes(bytes)
}

/// Whether the host stores integers least significant byte first
fn native_is_little() -> (r: bool)
    ensures
        r == host_is_little(),
{
    host_u16([1, 0]) == 1
}

/// A number parser of the given endianness and width in bytes; see [`u16`] and its siblings
pub struct Number<T> {
    /// The byte order
    pub endian: Endianness,
    /// The number of bytes
    pub width: usize,
    /// Marks the type of the number
    pub phantom: PhantomData<T>,
}

/// Recognizes a big endian unsigned 1-byte integer
///
/// *Complete version*: Returns an error if there is not enough input data.
///
/// *Streaming version*: Will return `Err(ErrMode::Incomplete(_))` if there is not enough input data.
pub fn be_u8<I: Input<Token = u8>, E: ParseError<I>>(input: I) -> (r: IResult<I, u8, E>)
    ensures
        fixed_rel(input, 1, r, |v: u8| v as int, be_value(input.tokens().take(1))),
{
    match read_uint(input, 1, true) {
        Ok((rest, v)) => {
            proof {
                lemma_be_value_bound(input.tokens().take(1));
                lemma_pow256_values();
            }
            assert(v < pow256(1));
            let x: u8 = v as u8;
            Ok((rest, x))
        },
        Err(e) => Err(e),
    }
}

/// Recognizes a big endian unsigned 2-byte integer
///
/// *Complete version*: Returns an error if there is not enough input data.
///
/// *Streaming version*: Will return `Err(ErrMode::Incomplete(_))` if there is not enough input data.
pub fn be_u16<I: Input<Token = u8>, E: ParseError<I>>(input: I) -> (r: IResult<I, u16, E>)
    ensures
        fixed_rel(input, 2, r, |v: u16| v as int, be_value(input.tokens().take(2))),
{
    match read_uint(input, 2, true) {
        Ok((rest, v)) => {
            proof {
                lemma_be_value_bound(input.tokens().take(2));
                lemma_pow256_values();
            }
            assert(v < pow256(2));
            let x: u16 = v as u16;
            Ok((rest, x))
        },
        Err(e) => Err(e),
    }
}

/// Recognizes a big endian unsigned 3-byte integer
///
/// *Complete version*: Returns an error if there is not enough input data.
///
/// *Streaming version*: Will return `Err(ErrMode::Incomplete(_))` if there is not enough input data.
pub fn be_u24<I: Input<Token = u8>, E: ParseError<I>>(input: I) -> (r: IResult<I, u32, E>)
    ensures
        fixed_rel(input, 3, r, |v: u32| v as int, be_value(input.tokens().take(3))),
{
    match read_uint(input, 3, true) {
        Ok((rest, v)) => {
            proof {
                lemma_be_value_bound(input.tokens().take(3));
                lemma_pow256_values();
            }
            assert(v < pow256(3));
            let x: u32 = v as u32;
            Ok((rest, x))
        },
        Err(e) => Err(e),
    }
}

/// Recognizes a big endian unsigned 4-byte integer
///
/// *Complete version*: Returns an error if there is not enough input data.
///
/// *Streaming version*: Will return `Err(ErrMode::Incomplete(_))` if there is not enough input data.
pub fn be_u32<I: Input<Token = u8>, E: ParseError<I>>(input: I) -> (r: IResult<I, u32, E>)
    ensures
        fixed_rel(input, 4, r, |v: u32| v as int, be_value(input.tokens().take(4))),
{
    match read_uint(input, 4, true) {
        Ok((rest, v)) => {
            proof {
                lemma_be_value_bound(input.tokens().take(4));
                lemma_pow256_values();
            }
            assert(v < pow256(4));
            let x: u32 = v as u32;
            Ok((rest, x))
        },
        Err(e) => Err(e),
    }
}

/// Recognizes a big endian unsigned 8-byte integer
///
/// *Complete version*: Returns an error if there is not enough input data.
///
/// *Streaming version*: Will return `Err(ErrMode::Incomplete(_))` if there is not enough input data.
pub fn be_u64<I: Input<Token = u8>, E: ParseError<I>>(input: I) -> (r: IResult<I, u64, E>)
    ensures
        fixed_rel(input, 8, r, |v: u64| v as int, be_value(input.tokens().take(8))),
{
    match read_uint(input, 8, true) {
        Ok((rest, v)) => {
            proof {
                lemma_be_value_bound(input.tokens().take(8));
                lemma_pow256_values();
            }
            assert(v < pow256(8));
            let x: u64 = v as u64;
            Ok((rest, x))
        },
        Err(e) => Err(e),
    }
}

/// Recognizes a big endian unsigned 16-byte integer
///
/// *Complete version*: Returns an error if there is not enough input data.
///
/// *Streaming version*: Will return `Err(ErrMode::Incomplete(_))` if there is not enough input data.
pub fn be_u128<I: Input<Token = u8>, E: ParseError<I>>(input: I) -> (r: IResult<I, u128, E>)
    ensures
        fixed_rel(input, 16, r, |v: u128| v as int, be_value(input.tokens().take(16))),
{
    match read_uint(input, 16, true) {
        Ok((rest, v)) => {
            proof {
                lemma_be_value_bound(input.tokens().take(16));
                lemma_pow256_values();
            }
            assert(v < pow256(16));
            let x: u128 = v as u128;
            Ok((rest, x))
        },
        Err(e) => Err(e),
    }
}

/// Recognizes a big endian signed 1-byte integer
///
/// *Complete version*: Returns an error if there is not enough input data.
///
/// *Streaming version*: Will return `Err(ErrMode::Incomplete(_))` if there is not enough input data.
pub fn be_i8<I: Input<Token = u8>, E: ParseError<I>>(input: I) -> (r: IResult<I, i8, E>)
    ensures
        fixed_rel(input, 1, r, |v: i8| v as int, signed_value(be_value(input.tokens().take(1)), 8)),
{
    match read_uint(input, 1, true) {
        Ok((rest, v)) => {
            proof {
                lemma_be_value_bound(input.tokens().take(1));
                lemma_pow256_values();
            }
            assert(v < pow256(1));
            let x: i8 = if v >= 0x80u128 { ((v as i128) - 0x100i128) as i8 } else { v as i8 };
            Ok((rest, x))
        },
        Err(e) => Err(e),
    }
}

/// Recognizes a big endian signed 2-byte integer
///
/// *Complete version*: Returns an error if there is not enough input data.
///
/// *Streaming version*: Will return `Err(ErrMode::Incomplete(_))` if there is not enough input data.
pub fn be_i16<I: Input<Token = u8>, E: ParseError<I>>(input: I) -> (r: IResult<I, i16, E>)
    ensures
        fixed_rel(input, 2, r, |v: i16| v as int, signed_value(be_value(input.tokens().take(2)), 16)),
{
    match read_uint(input, 2, true) {
        Ok((rest, v)) => {
            proof {
                lemma_be_value_bound(input.tokens().take(2));
                lemma_pow256_values();
            }
            assert(v < pow256(2));
            let x: i16 = if v >= 0x8000u128 { ((v as i128) - 0x10000i128) as i16 } else { v as i16 };
            Ok((rest, x))
        },
        Err(e) => Err(e),
    }
}

/// Recognizes a big endian signed 3-byte integer
///
/// *Complete version*: Returns an error if there is not enough input data.
///
/// *Streaming version*: Will return `Err(ErrMode::Incomplete(_))` if there is not enough input data.
pub fn be_i24<I: Input<Token = u8>, E: ParseError<I>>(input: I) -> (r: IResult<I, i32, E>)
    ensures
        fixed_rel(input, 3, r, |v: i32| v as int, signed_value(be_value(input.tokens().take(3)), 24)),
{
    match read_uint(input, 3, true) {
        Ok((rest, v)) => {
            proof {
                lemma_be_value_bound(input.tokens().take(3));
                lemma_pow256_values();
            }
            assert(v < pow256(3));
            let x: i32 = if v >= 0x800000u128 { ((v as i128) - 0x1000000i128) as i32 } else { v as i32 };
            Ok((rest, x))
        },
        Err(e) => Err(e),
    }
}

/// Recognizes a big endian signed 4-byte integer
///
/// *Complete version*: Returns an error if there is not enough input data.
///
/// *Streaming version*: Will return `Err(ErrMode::Incomplete(_))` if there is not enough input data.
pub fn be_i32<I: Input<Token = u8>, E: ParseError<I>>(input: I) -> (r: IResult<I, i32, E>)
    ensures
        fixed_rel(input, 4, r, |v: i32| v as int, signed_value(be_value(input.tokens().take(4)), 32)),
{
    match read_uint(input, 4, true) {
        Ok((rest, v)) => {
            proof {
                lemma_be_value_bound(input.tokens().take(4));
                lemma_pow256_values();
            }
            assert(v < pow256(4));
            let x: i32 = if v >= 0x80000000u128 { ((v as i128) - 0x100000000i128) as i32 } else { v as i32 };
            Ok((rest, x))
        },
        Err(e) => Err(e),
    }
}

/// Recognizes a big endian signed 8-byte integer
///
/// *Complete version*: Returns an error if there is not enough input data.
///
/// *Streaming version*: Will return `Err(ErrMode::Incomplete(_))` if there is not enough input data.
pub fn be_i64<I: Input<Token = u8>, E: ParseError<I>>(input: I) -> (r: IResult<I, i64, E>)
    ensures
        fixed_rel(input, 8, r, |v: i64| v as int, signed_value(be_value(input.tokens().take(8)), 64)),
{
    match read_uint(input, 8, true) {
        Ok((rest, v)) => {
            proof {
                lemma_be_value_bound(input.tokens().take(8));
                lemma_pow256_values();
            }
            assert(v < pow256(8));
            let x: i64 = if v >= 0x8000000000000000u128 { ((v as i128) - 0x10000000000000000i128) as i64 } else { v as i64 };
            Ok((rest, x))
        },
        Err(e) => Err(e),
    }
}

/// Recognizes a big endian signed 16-byte integer
///
/// *Complete version*: Returns an error if there is not enough input data.
///
/// *Streaming version*: Will return `Err(ErrMode::Incomplete(_))` if there is not enough input data.
pub fn be_i128<I: Input<Token = u8>, E: ParseError<I>>(input: I) -> (r: IResult<I, i128, E>)
    ensures
        fixed_rel(input, 16, r, |v: i128| v as int, signed_value(be_value(input.tokens().take(16)), 128)),
{
    match read_uint(input, 16, true) {
        Ok((rest, v)) => {
            proof {
                lemma_be_value_bound(input.tokens().take(16));
                lemma_pow256_values();
            }
            assert(v < pow256(16));
            let x: i128 = if v >= 0x80000000000000000000000000000000u128 { (v - 0x80000000000000000000000000000000u128) as i128 + i128::MIN } else { v as i128 };
            Ok((rest, x))
        },
        Err(e) => Err(e),
    }
}

/// Recognizes a little endian unsigned 1-byte integer
///
/// *Complete version*: Returns an error if there is not enough input data.
///
/// *Streaming version*: Will return `Err(ErrMode::Incomplete(_))` if there is not enough input data.
pub fn le_u8<I: Input<Token = u8>, E: ParseError<I>>(input: I) -> (r: IResult<I, u8, E>)
    ensures
        fixed_rel(input, 1, r, |v: u8| v as int, le_value(input.tokens().take(1))),
{
    match read_uint(input, 1, false) {
        Ok((rest, v)) => {
            proof {
                lemma_le_value_bound(input.tokens().take(1));
                lemma_pow256_values();
            }
            assert(v < pow256(1));
            let x: u8 = v as u8;
            Ok((rest, x))
        },
        Err(e) => Err(e),
    }
}

/// Recognizes a little endian unsigned 2-byte integer
///
/// *Complete version*: Returns an error if there is not enough input data.
///
/// *Streaming version*: Will return `Err(ErrMode::Incomplete(_))` if there is not enough input data.
pub fn le_u16<I: Input<Token = u8>, E: ParseError<I>>(input: I) -> (r: IResult<I, u16, E>)
    ensures
        fixed_rel(input, 2, r, |v: u16| v as int, le_value(input.tokens().take(2))),
{
    match read_uint(input, 2, false) {
        Ok((rest, v)) => {
            proof {
                lemma_le_value_bound(input.tokens().take(2));
                lemma_pow256_values();
            }
            assert(v < pow256(2));
            let x: u16 = v as u16;
            Ok((rest, x))
        },
        Err(e) => Err(e),
    }
}

/// Recognizes a little endian unsigned 3-byte integer
///
/// *Complete version*: Returns an error if there is not enough input data.
///
/// *Streaming version*: Will return `Err(ErrMode::Incomplete(_))` if there is not enough input data.
pub fn le_u24<I: Input<Token = u8>, E: ParseError<I>>(input: I) -> (r: IResult<I, u32, E>)
    ensures
        fixed_rel(input, 3, r, |v: u32| v as int, le_value(input.tokens().take(3))),
{
    match read_uint(input, 3, false) {
        Ok((rest, v)) => {
            proof {
                lemma_le_value_bound(input.tokens().take(3));
                lemma_pow256_values();
            }
            assert(v < pow256(3));
            let x: u32 = v as u32;
            Ok((rest, x))
        },
        Err(e) => Err(e),
    }
}

/// Recognizes a little endian unsigned 4-byte integer
///
/// *Complete version*: Returns an error if there is not enough input data.
///
/// *Streaming version*: Will return `Err(ErrMode::Incomplete(_))` if there is not enough input data.
pub fn le_u32<I: Input<Token = u8>, E: ParseError<I>>(input: I) -> (r: IResult<I, u32, E>)
    ensures
        fixed_rel(input, 4, r, |v: u32| v as int, le_value(input.tokens().take(4))),
{
    match read_uint(input, 4, false) {
        Ok((rest, v)) => {
            proof {
                lemma_le_value_bound(input.tokens().take(4));
                lemma_pow256_values();
            }
            assert(v < pow256(4));
            let x: u32 = v as u32;
            Ok((rest, x))
        },
        Err(e) => Err(e),
    }
}

/// Recognizes a little endian unsigned 8-byte integer
///
/// *Complete version*: Returns an error if there is not enough input data.
///
/// *Streaming version*: Will return `Err(ErrMode::Incomplete(_))` if there is not enough input data.
pub fn le_u64<I: Input<Token = u8>, E: ParseError<I>>(input: I) -> (r: IResult<I, u64, E>)
    ensures
        fixed_rel(input, 8, r, |v: u64| v as int, le_value(input.tokens().take(8))),
{
    match read_uint(input, 8, false) {
        Ok((rest, v)) => {
            proof {
                lemma_le_value_bound(input.tokens().take(8));
                lemma_pow256_values();
            }
            assert(v < pow256(8));
            let x: u64 = v as u64;
            Ok((rest, x))
        },
        Err(e) => Err(e),
    }
}

/// Recognizes a little endian unsigned 16-byte integer
///
/// *Complete version*: Returns an error if there is not enough input data.
///
/// *Streaming version*: Will return `Err(ErrMode::Incomplete(_))` if there is not enough input data.
pub fn le_u128<I: Input<Token = u8>, E: ParseError<I>>(input: I) -> (r: IResult<I, u128, E>)
    ensures
        fixed_rel(input, 16, r, |v: u128| v as int, le_value(input.tokens().take(16))),
{
    match read_uint(input, 16, false) {
        Ok((rest, v)) => {
            proof {
                lemma_le_value_bound(input.tokens().take(16));
                lemma_pow256_values();
            }
            assert(v < pow256(16));
            let x: u128 = v as u128;
            Ok((rest, x))
        },
        Err(e) => Err(e),
    }
}

/// Recognizes a little endian signed 1-byte integer
///
/// *Complete version*: Returns an error if there is not enough input data.
///
/// *Streaming version*: Will return `Err(ErrMode::Incomplete(_))` if there is not enough input data.
pub fn le_i8<I: Input<Token = u8>, E: ParseError<I>>(input: I) -> (r: IResult<I, i8, E>)
    ensures
        fixed_rel(input, 1, r, |v: i8| v as int, signed_value(le_value(input.tokens().take(1)), 8)),
{
    match read_uint(input, 1, false) {
        Ok((rest, v)) => {
            proof {
                lemma_le_value_bound(input.tokens().take(1));
                lemma_pow256_values();
            }
            assert(v < pow256(1));
            let x: i8 = if v >= 0x80u128 { ((v as i128) - 0x100i128) as i8 } else { v as i8 };
            Ok((rest, x))
        },
        Err(e) => Err(e),
    }
}

/// Recognizes a little endian signed 2-byte integer
///
/// *Complete version*: Returns an error if there is not enough input data.
///
/// *Streaming version*: Will return `Err(ErrMode::Incomplete(_))` if there is not enough input data.
pub fn le_i16<I: Input<Token = u8>, E: ParseError<I>>(input: I) -> (r: IResult<I, i16, E>)
    ensures
        fixed_rel(input, 2, r, |v: i16| v as int, signed_value(le_value(input.tokens().take(2)), 16)),
{
    match read_uint(input, 2, false) {
        Ok((rest, v)) => {
            proof {
                lemma_le_value_bound(input.tokens().take(2));
                lemma_pow256_values();
            }
            assert(v < pow256(2));
            let x: i16 = if v >= 0x8000u128 { ((v as i128) - 0x10000i128) as i16 } else { v as i16 };
            Ok((rest, x))
        },
        Err(e) => Err(e),
    }
}

/// Recognizes a little endian signed 3-byte integer
///
/// *Complete version*: Returns an error if there is not enough input data.
///
/// *Streaming version*: Will return `Err(ErrMode::Incomplete(_))` if there is not enough input data.
pub fn le_i24<I: Input<Token = u8>, E: ParseError<I>>(input: I) -> (r: IResult<I, i32, E>)
    ensures
        fixed_rel(input, 3, r, |v: i32| v as int, signed_value(le_value(input.tokens().take(3)), 24)),
{
    match read_uint(input, 3, false) {
        Ok((rest, v)) => {
            proof {
                lemma_le_value_bound(input.tokens().take(3));
                lemma_pow256_values();
            }
            assert(v < pow256(3));
            let x: i32 = if v >= 0x800000u128 { ((v as i128) - 0x1000000i128) as i32 } else { v as i32 };
            Ok((rest, x))
        },
        Err(e) => Err(e),
    }
}

/// Recognizes a little endian signed 4-byte integer
///
/// *Complete version*: Returns an error if there is not enough input data.
///
/// *Streaming version*: Will return `Err(ErrMode::Incomplete(_))` if there is not enough input data.
pub fn le_i32<I: Input<Token = u8>, E: ParseError<I>>(input: I) -> (r: IResult<I, i32, E>)
    ensures
        fixed_rel(input, 4, r, |v: i32| v as int, signed_value(le_value(input.tokens().take(4)), 32)),
{
    match read_uint(input, 4, false) {
        Ok((rest, v)) => {
            proof {
                lemma_le_value_bound(input.tokens().take(4));
                lemma_pow256_values();
            }
            assert(v < pow256(4));
            let x: i32 = if v >= 0x80000000u128 { ((v as i128) - 0x100000000i128) as i32 } else { v as i32 };
            Ok((rest, x))
        },
        Err(e) => Err(e),
    }
}

/// Recognizes a little endian signed 8-byte integer
///
/// *Complete version*: Returns an error if there is not enough input data.
///
/// *Streaming version*: Will return `Err(ErrMode::Incomplete(_))` if there is not enough input data.
pub fn le_i64<I: Input<Token = u8>, E: ParseError<I>>(input: I) -> (r: IResult<I, i64, E>)
    ensures
        fixed_rel(input, 8, r, |v: i64| v as int, signed_value(le_value(input.tokens().take(8)), 64)),
{
    match read_uint(input, 8, false) {
        Ok((rest, v)) => {
            proof {
                lemma_le_value_bound(input.tokens().take(8));
                lemma_pow256_values();
            }
            assert(v < pow256(8));
            let x: i64 = if v >= 0x8000000000000000u128 { ((v as i128) - 0x10000000000000000i128) as i64 } else { v as i64 };
            Ok((rest, x))
        },
        Err(e) => Err(e),
    }
}

/// Recognizes a little endian signed 16-byte integer
///
/// *Complete version*: Returns an error if there is not enough input data.
///
/// *Streaming version*: Will return `Err(ErrMode::Incomplete(_))` if there is not enough input data.
pub fn le_i128<I: Input<Token = u8>, E: ParseError<I>>(input: I) -> (r: IResult<I, i128, E>)
    ensures
        fixed_rel(input, 16, r, |v: i128| v as int, signed_value(le_value(input.tokens().take(16)), 128)),
{
    match read_uint(input, 16, false) {
        Ok((rest, v)) => {
            proof {
                lemma_le_value_bound(input.tokens().take(16));
                lemma_pow256_values();
            }
            assert(v < pow256(16));
            let x: i128 = if v >= 0x80000000000000000000000000000000u128 { (v - 0x80000000000000000000000000000000u128) as i128 + i128::MIN } else { v as i128 };
            Ok((rest, x))
        },
        Err(e) => Err(e),
    }
}

impl<I: Input<Token = u8>, E: ParseError<I>> Parser<I, u16, E> for Number<u16> {
    open spec fn parse_req(&self, input: I) -> bool {
        self.width == 2
    }

    open spec fn parse_rel(&self, input: I, r: IResult<I, u16, E>) -> bool {
        match self.endian {
                Endianness::Big => fixed_rel(input, 2, r, |v: u16| v as int, be_value(input.tokens().take(2))),
                Endianness::Little => fixed_rel(input, 2, r, |v: u16| v as int, le_value(input.tokens().take(2))),
                Endianness::Native => if host_is_little() {
                        fixed_rel(input, 2, r, |v: u16| v as int, le_value(input.tokens().take(2)))
                    } else {
                        fixed_rel(input, 2, r, |v: u16| v as int, be_value(input.tokens().take(2)))
                    },
            }
    }

    fn parse_next(&mut self, input: I) -> (r: IResult<I, u16, E>) {
        match self.endian {
            Endianness::Big => be_u16(input),
            Endianness::Little => le_u16(input),
            Endianness::Native => if native_is_little() {
                le_u16(input)
            } else {
                be_u16(input)
            },
        }
    }
}

impl<I: Input<Token = u8>, E: ParseError<I>> Parser<I, u32, E> for Number<u32> {
    open spec fn parse_req(&self, input: I) -> bool {
        self.width == 3 || self.width == 4
    }

    open spec fn parse_rel(&self, input: I, r: IResult<I, u32, E>) -> bool {
        if self.width == 3 {
            match self.endian {
                Endianness::Big => fixed_rel(input, 3, r, |v: u32| v as int, be_value(input.tokens().take(3))),
                Endianness::Little => fixed_rel(input, 3, r, |v: u32| v as int, le_value(input.tokens().take(3))),
                Endianness::Native => if host_is_little() {
                        fixed_rel(input, 3, r, |v: u32| v as int, le_value(input.tokens().take(3)))
                    } else {
                        fixed_rel(input, 3, r, |v: u32| v as int, be_value(input.tokens().take(3)))
                    },
            }
        } else {
            match self.endian {
                Endianness::Big => fixed_rel(input, 4, r, |v: u32| v as int, be_value(input.tokens().take(4))),
                Endianness::Little => fixed_rel(input, 4, r, |v: u32| v as int, le_value(input.tokens().take(4))),
                Endianness::Native => if host_is_little() {
                        fixed_rel(input, 4, r, |v: u32| v as int, le_value(input.tokens().take(4)))
                    } else {
                        fixed_rel(input, 4, r, |v: u32| v as int, be_value(input.tokens().take(4)))
                    },
            }
        }
    }

    fn parse_next(&mut self, input: I) -> (r: IResult<I, u32, E>) {
        if self.width == 3 {
            match self.endian {
            Endianness::Big => be_u24(input),
            Endianness::Little => le_u24(input),
            Endianness::Native => if native_is_little() {
                le_u24(input)
            } else {
                be_u24(input)
            },
        }
        } else {
            match self.endian {
            Endianness::Big => be_u32(input),
            Endianness::Little => le_u32(input),
            Endianness::Native => if native_is_little() {
                le_u32(input)
            } else {
                be_u32(input)
            },
        }
        }
    }
}

impl<I: Input<Token = u8>, E: ParseError<I>> Parser<I, u64, E> for Number<u64> {
    open spec fn parse_req(&self, input: I) -> bool {
        self.width == 8
    }

    open spec fn parse_rel(&self, input: I, r: IResult<I, u64, E>) -> bool {
        match self.endian {
                Endianness::Big => fixed_rel(input, 8, r, |v: u64| v as int, be_value(input.tokens().take(8))),
                Endianness::Little => fixed_rel(input, 8, r, |v: u64| v as int, le_value(input.tokens().take(8))),
                Endianness::Native => if host_is_little() {
                        fixed_rel(input, 8, r, |v: u64| v as int, le_value(input.tokens().take(8)))
                    } else {
                        fixed_rel(input, 8, r, |v: u64| v as int, be_value(input.tokens().take(8)))
                    },
            }
    }

    fn parse_next(&mut self, input: I) -> (r: IResult<I, u64, E>) {
        match self.endian {
            Endianness::Big => be_u64(input),
            Endianness::Little => le_u64(input),
            Endianness::Native => if native_is_little() {
                le_u64(input)
            } else {
                be_u64(input)
            },
        }
    }
}

impl<I: Input<Token = u8>, E: ParseError<I>> Parser<I, u128, E> for Number<u128> {
    open spec fn parse_req(&self, input: I) -> bool {
        self.width == 16
    }

    open spec fn parse_rel(&self, input: I, r: IResult<I, u128, E>) -> bool {
        match self.endian {
                Endianness::Big => fixed_rel(input, 16, r, |v: u128| v as int, be_value(input.tokens().take(16))),
                Endianness::Little => fixed_rel(input, 16, r, |v: u128| v as int, le_value(input.tokens().take(16))),
                Endianness::Native => if host_is_little() {
                        fixed_rel(input, 16, r, |v: u128| v as int, le_value(input.tokens().take(16)))
                    } else {
                        fixed_rel(input, 16, r, |v: u128| v as int, be_value(input.tokens().take(16)))
                    },
            }
    }

    fn parse_next(&mut self, input: I) -> (r: IResult<I, u128, E>) {
        match self.endian {
            Endianness::Big => be_u128(input),
            Endianness::Little => le_u128(input),
            Endianness::Native => if native_is_little() {
                le_u128(input)
            } else {
                be_u128(input)
            },
        }
    }
}

impl<I: Input<Token = u8>, E: ParseError<I>> Parser<I, i16, E> for Number<i16> {
    open spec fn parse_req(&self, input: I) -> bool {
        self.width == 2
    }

    open spec fn parse_rel(&self, input: I, r: IResult<I, i16, E>) -> bool {
        match self.endian {
                Endianness::Big => fixed_rel(input, 2, r, |v: i16| v as int, signed_value(be_value(input.tokens().take(2)), 16)),
                Endianness::Little => fixed_rel(input, 2, r, |v: i16| v as int, signed_value(le_value(input.tokens().take(2)), 16)),
                Endianness::Native => if host_is_little() {
                        fixed_rel(input, 2, r, |v: i16| v as int, signed_value(le_value(input.tokens().take(2)), 16))
                    } else {
                        fixed_rel(input, 2, r, |v: i16| v as int, signed_value(be_value(input.tokens().take(2)), 16))
                    },
            }
    }

    fn parse_next(&mut self, input: I) -> (r: IResult<I, i16, E>) {
        match self.endian {
            Endianness::Big => be_i16(input),
            Endianness::Little => le_i16(input),
            Endianness::Native => if native_is_little() {
                le_i16(input)
            } else {
                be_i16(input)
            },
        }
    }
}

impl<I: Input<Token = u8>, E: ParseError<I>> Parser<I, i32, E> for Number<i32> {
    open spec fn parse_req(&self, input: I) -> bool {
        self.width == 3 || self.width == 4
    }

    open spec fn parse_rel(&self, input: I, r: IResult<I, i32, E>) -> bool {
        if self.width == 3 {
            match self.endian {
                Endianness::Big => fixed_rel(input, 3, r, |v: i32| v as int, signed_value(be_value(input.tokens().take(3)), 24)),
                Endianness::Little => fixed_rel(input, 3, r, |v: i32| v as int, signed_value(le_value(input.tokens().take(3)), 24)),
                Endianness::Native => if host_is_little() {
                        fixed_rel(input, 3, r, |v: i32| v as int, signed_value(le_value(input.tokens().take(3)), 24))
                    } else {
                        fixed_rel(input, 3, r, |v: i32| v as int, signed_value(be_value(input.tokens().take(3)), 24))
                    },
            }
        } else {
            match self.endian {
                Endianness::Big => fixed_rel(input, 4, r, |v: i32| v as int, signed_value(be_value(input.tokens().take(4)), 32)),
                Endianness::Little => fixed_rel(input, 4, r, |v: i32| v as int, signed_value(le_value(input.tokens().take(4)), 32)),
                Endianness::Native => if host_is_little() {
                        fixed_rel(input, 4, r, |v: i32| v as int, signed_value(le_value(input.tokens().take(4)), 32))
                    } else {
                        fixed_rel(input, 4, r, |v: i32| v as int, signed_value(be_value(input.tokens().take(4)), 32))
                    },
            }
        }
    }

    fn parse_next(&mut self, input: I) -> (r: IResult<I, i32, E>) {
        if self.width == 3 {
            match self.endian {
            Endianness::Big => be_i24(input),
            Endianness::Little => le_i24(input),
            Endianness::Native => if native_is_little() {
                le_i24(input)
            } else {
                be_i24(input)
            },
        }
        } else {
            match self.endian {
            Endianness::Big => be_i32(input),
            Endianness::Little => le_i32(input),
            Endianness::Native => if native_is_little() {
                le_i32(input)
            } else {
                be_i32(input)
            },
        }
        }
    }
}

impl<I: Input<Token = u8>, E: ParseError<I>> Parser<I, i64, E> for Number<i64> {
    open spec fn parse_req(&self, input: I) -> bool {
        self.width == 8
    }

    open spec fn parse_rel(&self, input: I, r: IResult<I, i64, E>) -> bool {
        match self.endian {
                Endianness::Big => fixed_rel(input, 8, r, |v: i64| v as int, signed_value(be_value(input.tokens().take(8)), 64)),
                Endianness::Little => fixed_rel(input, 8, r, |v: i64| v as int, signed_value(le_value(input.tokens().take(8)), 64)),
                Endianness::Native => if host_is_little() {
                        fixed_rel(input, 8, r, |v: i64| v as int, signed_value(le_value(input.tokens().take(8)), 64))
                    } else {
                        fixed_rel(input, 8, r, |v: i64| v as int, signed_value(be_value(input.tokens().take(8)), 64))
                    },
            }
    }

    fn parse_next(&mut self, input: I) -> (r: IResult<I, i64, E>) {
        match self.endian {
            Endianness::Big => be_i64(input),
            Endianness::Little => le_i64(input),
            Endianness::Native => if native_is_little() {
                le_i64(input)
            } else {
                be_i64(input)
            },
        }
    }
}

impl<I: Input<Token = u8>, E: ParseError<I>> Parser<I, i128, E> for Number<i128> {
    open spec fn parse_req(&self, input: I) -> bool {
        self.width == 16
    }

    open spec fn parse_rel(&self, input: I, r: IResult<I, i128, E>) -> bool {
        match self.endian {
                Endianness::Big => fixed_rel(input, 16, r, |v: i128| v as int, signed_value(be_value(input.tokens().take(16)), 128)),
                Endianness::Little => fixed_rel(input, 16, r, |v: i128| v as int, signed_value(le_value(input.tokens().take(16)), 128)),
                Endianness::Native => if host_is_little() {
                        fixed_rel(input, 16, r, |v: i128| v as int, signed_value(le_value(input.tokens().take(16)), 128))
                    } else {
                        fixed_rel(input, 16, r, |v: i128| v as int, signed_value(be_value(input.tokens().take(16)), 128))
                    },
            }
    }

    fn parse_next(&mut self, input: I) -> (r: IResult<I, i128, E>) {
        match self.endian {
            Endianness::Big => be_i128(input),
            Endianness::Little => le_i128(input),
            Endianness::Native => if native_is_little() {
                le_i128(input)
            } else {
                be_i128(input)
            },
        }
    }
}

/// Recognizes a unsigned 2-byte integer of the given endianness
pub fn u16(endian: Endianness) -> (r: Number<u16>)
    ensures
        r.endian == endian,
        r.width == 2,
{
    Number { endian, width: 2, phantom: PhantomData }
}

/// Recognizes a unsigned 3-byte integer of the given endianness
pub fn u24(endian: Endianness) -> (r: Number<u32>)
    ensures
        r.endian == endian,
        r.width == 3,
{
    Number { endian, width: 3, phantom: PhantomData }
}

/// Recognizes a unsigned 4-byte integer of the given endianness
pub fn u32(endian: Endianness) -> (r: Number<u32>)
    ensures
        r.endian == endian,
        r.width == 4,
{
    Number { endian, width: 4, phantom: PhantomData }
}

/// Recognizes a unsigned 8-byte integer of the given endianness
pub fn u64(endian: Endianness) -> (r: Number<u64>)
    ensures
        r.endian == endian,
        r.width == 8,
{
    Number { endian, width: 8, phantom: PhantomData }
}

/// Recognizes a unsigned 16-byte integer of the given endianness
pub fn u128(endian: Endianness) -> (r: Number<u128>)
    ensures
        r.endian == endian,
        r.width == 16,
{
    Number { endian, width: 16, phantom: PhantomData }
}

/// Recognizes a signed 2-byte integer of the given endianness
pub fn i16(endian: Endianness) -> (r: Number<i16>)
    ensures
        r.endian == endian,
        r.width == 2,
{
    Number { endian, width: 2, phantom: PhantomData }
}

/// Recognizes a signed 3-byte integer of the given endianness
pub fn i24(endian: Endianness) -> (r: Number<i32>)
    ensures
        r.endian == endian,
        r.width == 3,
{
    Number { endian, width: 3, phantom: PhantomData }
}

/// Recognizes a signed 4-byte integer of the given endianness
pub fn i32(endian: Endianness) -> (r: Number<i32>)
    ensures
        r.endian == endian,
        r.width == 4,
{
    Number { endian, width: 4, phantom: PhantomData }
}

/// Recognizes a signed 8-byte integer of the given endianness
pub fn i64(endian: Endianness) -> (r: Number<i64>)
    ensures
        r.endian == endian,
        r.width == 8,
{
    Number { endian, width: 8, phantom: PhantomData }
}

/// Recognizes a signed 16-byte integer of the given endianness
pub fn i128(endian: Endianness) -> (r: Number<i128>)
    ensures
        r.endian == endian,
        r.width == 16,
{
    Number { endian, width: 16, phantom: PhantomData }
}

/// Recognizes an unsigned 1 byte integer
///
/// *Complete version*: Returns an error if there is not enough input data.
///
/// *Streaming version*: Will return `Err(ErrMode::Incomplete(_))` if there is not enough input data.
pub fn u8<I: Input<Token = u8>, E: ParseError<I>>(input: I) -> (r: IResult<I, u8, E>)
    ensures
        fixed_rel(input, 1, r, |v: u8| v as int, be_value(input.tokens().take(1))),
{
    be_u8(input)
}

/// Recognizes a signed 1 byte integer
///
/// *Complete version*: Returns an error if there is not enough input data.
///
/// *Streaming version*: Will return `Err(ErrMode::Incomplete(_))` if there is not enough input data.
pub fn i8<I: Input<Token = u8>, E: ParseError<I>>(input: I) -> (r: IResult<I, i8, E>)
    ensures
        fixed_rel(input, 1, r, |v: i8| v as int, signed_value(be_value(input.tokens().take(1)), 8)),
{
    be_i8(input)
}

/// The number parser of the given byte order and width
pub open spec fn number_parser<T>(endian: Endianness, width: usize) -> Number<T> {
    Number { endian, width, phantom: PhantomData }
}

/// `Endianness::Native` reads in the byte order of the host: a number parser of any width and
/// type with `Native` gives exactly the results of the same parser with `Little` on a
/// little-endian host and with `Big` on a big-endian one, which [`host_u16`] tells apart by
/// reading the bytes `[1, 0]` as `1` only on a little-endian host.
pub proof fn law_native_is_host_order<I: Input<Token = u8>, E: ParseError<I>>(
    width: usize,
    input: I,
    r_u16: IResult<I, u16, E>,
    r_u32: IResult<I, u32, E>,
    r_u64: IResult<I, u64, E>,
    r_u128: IResult<I, u128, E>,
    r_i16: IResult<I, i16, E>,
    r_i32: IResult<I, i32, E>,
    r_i64: IResult<I, i64, E>,
    r_i128: IResult<I, i128, E>,
)
    ensures
        host_is_little() ==> host_endianness() == Endianness::Little,
        !host_is_little() ==> host_endianness() == Endianness::Big,
        number_parser::<u16>(Endianness::Native, width).parse_rel(input, r_u16)
            <==> number_parser::<u16>(host_endianness(), width).parse_rel(input, r_u16),
        number_parser::<u32>(Endianness::Native, width).parse_rel(input, r_u32)
            <==> number_parser::<u32>(host_endianness(), width).parse_rel(input, r_u32),
        number_parser::<u64>(Endianness::Native, width).parse_rel(input, r_u64)
            <==> number_parser::<u64>(host_endianness(), width).parse_rel(input, r_u64),
        number_parser::<u128>(Endianness::Native, width).parse_rel(input, r_u128)
            <==> number_parser::<u128>(host_endianness(), width).parse_rel(input, r_u128),
        number_parser::<i16>(Endianness::Native, width).parse_rel(input, r_i16)
            <==> number_parser::<i16>(host_endianness(), width).parse_rel(input, r_i16),
        number_parser::<i32>(Endianness::Native, width).parse_rel(input, r_i32)
            <==> number_parser::<i32>(host_endianness(), width).parse_rel(input, r_i32),
        number_parser::<i64>(Endianness::Native, width).parse_rel(input, r_i64)
            <==> number_parser::<i64>(host_endianness(), width).parse_rel(input, r_i64),
        number_parser::<i128>(Endianness::Native, width).parse_rel(input, r_i128)
            <==> number_parser::<i128>(host_endianness(), width).parse_rel(input, r_i128),
{
}

} // verus!
