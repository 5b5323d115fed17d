//! Hex dumps of byte streams
//!
//! A dump shows the bytes in lines of `chunk_size`: each line holds the address of its
//! first byte (in hexadecimal, at least 8 digits), the bytes in hexadecimal, and the bytes
//! themselves, with `.` in place of control characters.
use vstd::prelude::*;
use vstd::string::*;
use crate::input::{Located, Streaming};

verus! {

/// The lowercase hexadecimal digit of `d`, as a byte.
pub open spec fn hex_digit(d: nat) -> u8 {
    if d < 10 {
        (48 + d) as u8
    } else {
        (87 + d) as u8
    }
}

/// The hexadecimal digits of `n`, most significant first.
pub open spec fn hex_digits(n: nat) -> Seq<u8>
    decreases n,
{
    if n < 16 {
        seq![hex_digit(n)]
    } else {
        hex_digits(n / 16).push(hex_digit(n % 16))
    }
}

/// The address column of a line: the hexadecimal digits of `n`, padded with zeros to 8.
pub open spec fn hex_address(n: nat) -> Seq<u8> {
    let d = hex_digits(n);
    if d.len() < 8 {
        Seq::new((8 - d.len()) as nat, |j: int| 48u8) + d
    } else {
        d
    }
}

/// Each byte of `chunk` as two hexadecimal digits and a space.
pub open spec fn hex_bytes(chunk: Seq<u8>) -> Seq<u8>
    decreases chunk.len(),
{
    if chunk.len() == 0 {
        Seq::empty()
    } else {
        let b = chunk.last();
        hex_bytes(chunk.drop_last()) + seq![hex_digit((b / 16) as nat), hex_digit((b % 16) as nat), 32u8]
    }
}

/// How a byte is shown in the text column: control characters become `.`.
pub open spec fn shown_byte(b: u8) -> u8 {
    if (32 <= b && b <= 126) || b >= 128 {
        b
    } else {
        46
    }
}

/// The dump line of `chunk`, whose first byte is at `address`.
pub open spec fn hex_line(chunk: Seq<u8>, chunk_size: nat, address: nat) -> Seq<u8> {
    hex_address(address) + seq![9u8] + hex_bytes(chunk) + Seq::new(
        (3 * (chunk_size - chunk.len())) as nat,
        |j: int| 32u8,
    ) + seq![9u8] + chunk.map_values(|b: u8| shown_byte(b)) + seq![10u8]
}

/// The size of the first chunk of `len` bytes.
pub open spec fn first_chunk(len: nat, chunk_size: nat) -> nat {
    if len < chunk_size {
        len
    } else {
        chunk_size
    }
}

/// The dump of `bytes` in lines of `chunk_size`, the first at `address`.
pub open spec fn hex_dump(bytes: Seq<u8>, chunk_size: nat, address: nat) -> Seq<u8>
    decreases bytes.len(),
{
    if bytes.len() == 0 || chunk_size == 0 {
        Seq::empty()
    } else {
        let k = first_chunk(bytes.len(), chunk_size) as int;
        hex_line(bytes.take(k), chunk_size, address) + hex_dump(
            bytes.skip(k),
            chunk_size,
            address + chunk_size,
        )
    }
}

/// Whether the address of every line of the dump, and the one after the last, fits in a
/// `usize`.
pub open spec fn hex_fits(len: nat, chunk_size: nat, address: nat) -> bool
    decreases len,
{
    if len == 0 || chunk_size == 0 {
        true
    } else {
        address + chunk_size <= usize::MAX && hex_fits(
            (len - first_chunk(len, chunk_size)) as nat,
            chunk_size,
            address + chunk_size,
        )
    }
}

/// Every byte of `s` is ASCII.
pub open spec fn all_ascii(s: Seq<u8>) -> bool {
    forall|i: int| 0 <= i < s.len() ==> #[trigger] s[i] < 128
}

/// Joining ASCII byte strings gives an ASCII byte string.
proof fn lemma_ascii_concat(a: Seq<u8>, b: Seq<u8>)
    requires
        all_ascii(a),
        all_ascii(b),
    ensures
        all_ascii(a + b),
{
    assert forall|i: int| 0 <= i < (a + b).len() implies #[trigger] (a + b)[i] < 128 by {
        if i < a.len() {
            assert((a + b)[i] == a[i]);
        } else {
            assert((a + b)[i] == b[i - a.len()]);
        }
    }
}

/// The hexadecimal digits of a number are ASCII.
proof fn lemma_hex_digits_ascii(n: nat)
    ensures
        all_ascii(hex_digits(n)),
    decreases n,
{
    if n >= 16 {
        lemma_hex_digits_ascii(n / 16);
        assert(hex_digit(n % 16) < 128);
        lemma_ascii_concat(hex_digits(n / 16), seq![hex_digit(n % 16)]);
        assert(hex_digits(n / 16).push(hex_digit(n % 16)) =~= hex_digits(n / 16) + seq![hex_digit(n % 16)]);
    } else {
        assert(hex_digit(n) < 128);
    }
}

/// The hexadecimal columns of a chunk are ASCII.
proof fn lemma_hex_bytes_ascii(chunk: Seq<u8>)
    ensures
        all_ascii(hex_bytes(chunk)),
    decreases chunk.len(),
{
    if chunk.len() > 0 {
        let b = chunk.last();
        lemma_hex_bytes_ascii(chunk.drop_last());
        let tail = seq![hex_digit((b / 16) as nat), hex_digit((b % 16) as nat), 32u8];
        assert(all_ascii(tail));
        lemma_ascii_concat(hex_bytes(chunk.drop_last()), tail);
    }
}

/// The dump of ASCII bytes is ASCII.
proof fn lemma_hex_dump_ascii(bytes: Seq<u8>, chunk_size: nat, address: nat)
    requires
        all_ascii(bytes),
    ensures
        all_ascii(hex_dump(bytes, chunk_size, address)),
    decreases bytes.len(),
{
    if bytes.len() > 0 && chunk_size > 0 {
        let k = first_chunk(bytes.len(), chunk_size) as int;
        let chunk = bytes.take(k);
        let d = hex_digits(address);
        lemma_hex_digits_ascii(address);
        if d.len() < 8 {
            lemma_ascii_concat(Seq::new((8 - d.len()) as nat, |j: int| 48u8), d);
        }
        lemma_hex_bytes_ascii(chunk);
        let pad = Seq::new((3 * (chunk_size - chunk.len())) as nat, |j: int| 32u8);
        let shown = chunk.map_values(|b: u8| shown_byte(b));
        assert(all_ascii(shown)) by {
            assert forall|i: int| 0 <= i < shown.len() implies #[trigger] shown[i] < 128 by {
                assert(chunk[i] == bytes[i]);
            }
        }
        lemma_ascii_concat(hex_address(address), seq![9u8]);
        lemma_ascii_concat(hex_address(address) + seq![9u8], hex_bytes(chunk));
        lemma_ascii_concat(hex_address(address) + seq![9u8] + hex_bytes(chunk), pad);
        lemma_ascii_concat(hex_address(address) + seq![9u8] + hex_bytes(chunk) + pad, seq![9u8]);
        lemma_ascii_concat(hex_address(address) + seq![9u8] + hex_bytes(chunk) + pad + seq![9u8], shown);
        lemma_ascii_concat(
            hex_address(address) + seq![9u8] + hex_bytes(chunk) + pad + seq![9u8] + shown,
            seq![10u8],
        );
        let rest = bytes.skip(k);
        assert(all_ascii(rest)) by {
            assert forall|i: int| 0 <= i < rest.len() implies #[trigger] rest[i] < 128 by {
                assert(rest[i] == bytes[i + k]);
            }
        }
        lemma_hex_dump_ascii(rest, chunk_size, address + chunk_size);
        lemma_ascii_concat(hex_line(chunk, chunk_size, address), hex_dump(rest, chunk_size, address + chunk_size));
    }
}

/// What `String::from_utf8_lossy` makes of `bytes`.
pub uninterp spec fn lossy_text(bytes: Seq<u8>) -> Seq<char>;

/// Decodes `bytes` with `String::from_utf8_lossy`, taking ownership of the text.
///
/// The contract names the text `lossy_text(bytes@)`, and states what the documentation of
/// `from_utf8_lossy` gives for valid UTF-8: bytes that are all ASCII are kept, one
/// character each.
#[verifier::external_body]
fn lossy_string(bytes: &[u8]) -> (s: String)
    ensures
        s@ == lossy_text(bytes@),
        (forall|i: int| 0 <= i < bytes@.len() ==> #[trigger] bytes@[i] < 128) ==> s@
            == bytes@.map_values(|b: u8| b as char),
{
    String::from_utf8_lossy(bytes).into_owned()
}

/// The number of hexadecimal digits of `n`.
fn hex_digit_count(n: usize) -> (r: usize)
    ensures
        r == hex_digits(n as nat).len(),
        1 <= r <= n + 1,
    decreases n,
{
    if n < 16 {
        1
    } else {
        let c = hex_digit_count(n / 16);
        c + 1
    }
}

/// The byte of the hexadecimal digit `d`.
fn hex_digit_byte(d: u8) -> (r: u8)
    requires
        d < 16,
    ensures
        r == hex_digit(d as nat),
{
    if d < 10 {
        48 + d
    } else {
        87 + d
    }
}

/// Appends the hexadecimal digits of `n`.
fn push_hex_digits(v: &mut Vec<u8>, n: usize)
    ensures
        final(v)@ == old(v)@ + hex_digits(n as nat),
    decreases n,
{
    if n >= 16 {
        push_hex_digits(v, n / 16);
    }
    let d = hex_digit_byte((n % 16) as u8);
    v.push(d);
    assert(v@ =~= old(v)@ + hex_digits(n as nat));
}

/// Appends `count` copies of `b`.
fn push_repeated(v: &mut Vec<u8>, b: u8, count: usize)
    ensures
        final(v)@ == old(v)@ + Seq::new(count as nat, |j: int| b),
{
    let mut k: usize = 0;
    while k < count
        invariant
            k <= count,
            v@ == old(v)@ + Seq::new(k as nat, |j: int| b),
        decreases count - k,
    {
        v.push(b);
        k += 1;
        assert(v@ =~= old(v)@ + Seq::new(k as nat, |j: int| b));
    }
}

/// Appends the dump line of `bytes[start..start + len]`, whose first byte is at `address`.
fn push_hex_line(v: &mut Vec<u8>, bytes: &[u8], start: usize, len: usize, chunk_size: usize, address: usize)
    requires
        start + len <= bytes@.len(),
        len <= chunk_size,
    ensures
        final(v)@ == old(v)@ + hex_line(
            bytes@.subrange(start as int, start + len),
            chunk_size as nat,
            address as nat,
        ),
{
    let ghost chunk = bytes@.subrange(start as int, start + len);
    let n = bytes.len();
    let digits = hex_digit_count(address);
    if digits < 8 {
        push_repeated(v, 48u8, 8 - digits);
    }
    push_hex_digits(v, address);
    assert(v@ =~= old(v)@ + hex_address(address as nat));
    v.push(9u8);
    let ghost mark = v@;
    let mut k: usize = 0;
    while k < len
        invariant
            k <= len,
            start + len <= bytes@.len(),
            n == bytes@.len(),
            chunk == bytes@.subrange(start as int, start + len),
            v@ == mark + hex_bytes(chunk.take(k as int)),
        decreases len - k,
    {
        let b = bytes[start + k];
        assert(chunk.take(k + 1).drop_last() =~= chunk.take(k as int));
        v.push(hex_digit_byte(b / 16));
        v.push(hex_digit_byte(b % 16));
        v.push(32u8);
        k += 1;
        assert(v@ =~= mark + hex_bytes(chunk.take(k as int)));
    }
    assert(chunk.take(len as int) =~= chunk);
    let ghost mark1 = v@;
    let mut j: usize = 0;
    while j < chunk_size - len
        invariant
            j <= chunk_size - len,
            v@ == mark1 + Seq::new((3 * j) as nat, |x: int| 32u8),
        decreases chunk_size - len - j,
    {
        v.push(32u8);
        v.push(32u8);
        v.push(32u8);
        j += 1;
        assert(v@ =~= mark1 + Seq::new((3 * j) as nat, |x: int| 32u8));
    }
    v.push(9u8);
    let ghost mark2 = v@;
    let mut k: usize = 0;
    while k < len
        invariant
            k <= len,
            start + len <= bytes@.len(),
            n == bytes@.len(),
            chunk == bytes@.subrange(start as int, start + len),
            v@ == mark2 + chunk.take(k as int).map_values(|b: u8| shown_byte(b)),
        decreases len - k,
    {
        let b = bytes[start + k];
        let shown = if (32 <= b && b <= 126) || b >= 128 {
            b
        } else {
            46u8
        };
        v.push(shown);
        k += 1;
        assert(v@ =~= mark2 + chunk.take(k as int).map_values(|b: u8| shown_byte(b)));
    }
    v.push(10u8);
    assert(v@ =~= old(v)@ + hex_line(chunk, chunk_size as nat, address as nat));
}

/// The bytes of the dump of `bytes` in lines of `chunk_size`, the first at `from`.
fn hex_dump_bytes(bytes: &[u8], chunk_size: usize, from: usize) -> (v: Vec<u8>)
    requires
        chunk_size > 0,
        hex_fits(bytes@.len(), chunk_size as nat, from as nat),
    ensures
        v@ == hex_dump(bytes@, chunk_size as nat, from as nat),
{
    let mut v: Vec<u8> = Vec::new();
    let mut i: usize = from;
    let mut pos: usize = 0;
    let n = bytes.len();
    assert(bytes@.skip(0) =~= bytes@);
    assert(v@ + bytes@ =~= bytes@);
    while pos < n
        invariant
            pos <= n,
            n == bytes@.len(),
            chunk_size > 0,
            hex_fits((n - pos) as nat, chunk_size as nat, i as nat),
            hex_dump(bytes@, chunk_size as nat, from as nat) == v@ + hex_dump(
                bytes@.skip(pos as int),
                chunk_size as nat,
                i as nat,
            ),
        decreases n - pos,
    {
        let len = if n - pos < chunk_size {
            n - pos
        } else {
            chunk_size
        };
        let ghost rest = bytes@.skip(pos as int);
        assert(rest.take(len as int) =~= bytes@.subrange(pos as int, pos + len));
        assert(rest.skip(len as int) =~= bytes@.skip(pos + len));
        push_hex_line(&mut v, bytes, pos, len, chunk_size, i);
        i = i + chunk_size;
        pos = pos + len;
        assert(hex_dump(bytes@, chunk_size as nat, from as nat) =~= v@ + hex_dump(
            bytes@.skip(pos as int),
            chunk_size as nat,
            i as nat,
        ));
    }
    assert(bytes@.skip(pos as int).len() == 0);
    assert(v@ =~= v@ + hex_dump(bytes@.skip(pos as int), chunk_size as nat, i as nat));
    v
}

/// Helper trait to show a byte slice as a hex dump
pub trait HexDisplay {
    /// The bytes that the dump shows
    spec fn dump_bytes(&self) -> Seq<u8>;

    /// Converts the value of `self` to a hex dump, returning the owned
    /// `String`.
    fn to_hex(&self, chunk_size: usize) -> (r: String)
        requires
            chunk_size > 0,
            hex_fits(self.dump_bytes().len(), chunk_size as nat, 0),
        ensures
            r@ == lossy_text(hex_dump(self.dump_bytes(), chunk_size as nat, 0)),
            all_ascii(self.dump_bytes()) ==> r@ == hex_dump(self.dump_bytes(), chunk_size as nat, 0)
                .map_values(|b: u8| b as char),
    ;

    /// Converts the value of `self` to a hex dump beginning at `from` address, returning the owned
    /// `String`.
    fn to_hex_from(&self, chunk_size: usize, from: usize) -> (r: String)
        requires
            chunk_size > 0,
            hex_fits(self.dump_bytes().len(), chunk_size as nat, from as nat),
        ensures
            r@ == lossy_text(hex_dump(self.dump_bytes(), chunk_size as nat, from as nat)),
            all_ascii(self.dump_bytes()) ==> r@ == hex_dump(
                self.dump_bytes(),
                chunk_size as nat,
                from as nat,
            ).map_values(|b: u8| b as char),
    ;
}

impl<'a> HexDisplay for &'a [u8] {
    open spec fn dump_bytes(&self) -> Seq<u8> {
        self@
    }

    fn to_hex(&self, chunk_size: usize) -> (r: String) {
        self.to_hex_from(chunk_size, 0)
    }

    fn to_hex_from(&self, chunk_size: usize, from: usize) -> (r: String) {
        let v = hex_dump_bytes(*self, chunk_size, from);
        proof {
            if all_ascii(self@) {
                lemma_hex_dump_ascii(self@, chunk_size as nat, from as nat);
            }
        }
        lossy_string(v.as_slice())
    }
}

impl<'a> HexDisplay for &'a str {
    open spec fn dump_bytes(&self) -> Seq<u8> {
        self.spec_bytes()
    }

    fn to_hex(&self, chunk_size: usize) -> (r: String) {
        self.to_hex_from(chunk_size, 0)
    }

    fn to_hex_from(&self, chunk_size: usize, from: usize) -> (r: String) {
        let b: &[u8] = self.as_bytes();
        b.to_hex_from(chunk_size, from)
    }
}

impl<I: HexDisplay> HexDisplay for Located<I> {
    open spec fn dump_bytes(&self) -> Seq<u8> {
        self.input.dump_bytes()
    }

    fn to_hex(&self, chunk_size: usize) -> (r: String) {
        self.input.to_hex(chunk_size)
    }

    fn to_hex_from(&self, chunk_size: usize, from: usize) -> (r: String) {
        self.input.to_hex_from(chunk_size, from)
    }
}

impl<I: HexDisplay> HexDisplay for Streaming<I> {
    open spec fn dump_bytes(&self) -> Seq<u8> {
        self.0.dump_bytes()
    }

    fn to_hex(&self, chunk_size: usize) -> (r: String) {
        self.0.to_hex(chunk_size)
    }

    fn to_hex_from(&self, chunk_size: usize, from: usize) -> (r: String) {
        self.0.to_hex_from(chunk_size, from)
    }
}

} // verus!
