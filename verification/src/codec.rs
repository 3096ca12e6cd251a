//! Little-endian byte formats shared by the durable encodings.
//!
//! A format is described twice: `x_bytes` says which bytes stand for a value,
//! and `get_x` says what reading the front of a byte sequence yields, together
//! with the bytes that are left.

use vstd::prelude::*;
use vstd::bytes::{
    lemma_auto_spec_u128_to_from_le_bytes, lemma_auto_spec_u16_to_from_le_bytes,
    lemma_auto_spec_u32_to_from_le_bytes, lemma_auto_spec_u64_to_from_le_bytes,
    spec_u128_from_le_bytes, spec_u128_to_le_bytes, spec_u16_from_le_bytes, spec_u16_to_le_bytes,
    spec_u32_from_le_bytes, spec_u32_to_le_bytes, spec_u64_from_le_bytes, spec_u64_to_le_bytes,
    u128_from_le_bytes, u128_to_le_bytes, u16_from_le_bytes, u16_to_le_bytes, u32_from_le_bytes,
    u32_to_le_bytes, u64_from_le_bytes, u64_to_le_bytes,
};
use vstd::slice::{slice_subrange, slice_to_vec};
use vstd::utf8::{
    decode_utf8, encode_utf8, encode_utf8_decode_utf8, encode_utf8_valid_utf8, valid_utf8,
};

verus! {

// ---------------------------------------------------------------------------
// What the bytes of a value are.

pub open spec fn u8_bytes(value: u8) -> Seq<u8> {
    seq![value]
}

pub open spec fn u16_bytes(value: u16) -> Seq<u8> {
    spec_u16_to_le_bytes(value)
}

pub open spec fn u32_bytes(value: u32) -> Seq<u8> {
    spec_u32_to_le_bytes(value)
}

pub open spec fn u64_bytes(value: u64) -> Seq<u8> {
    spec_u64_to_le_bytes(value)
}

pub open spec fn u128_bytes(value: u128) -> Seq<u8> {
    spec_u128_to_le_bytes(value)
}

/// A byte string behind its length as a `u32`.
#[verifier::opaque]
pub open spec fn blob32_bytes(value: Seq<u8>) -> Seq<u8> {
    u32_bytes(value.len() as u32) + value
}

/// A byte string behind its length as a `u64`.
#[verifier::opaque]
pub open spec fn blob64_bytes(value: Seq<u8>) -> Seq<u8> {
    u64_bytes(value.len() as u64) + value
}

/// An optional `u64`: a presence byte, then the value.
pub open spec fn optional_u64_bytes(value: Option<u64>) -> Seq<u8> {
    match value {
        None => u8_bytes(0),
        Some(v) => u8_bytes(1) + u64_bytes(v),
    }
}

// ---------------------------------------------------------------------------
// What reading the front of a byte sequence yields.

/// The first `count` bytes and what is left; nothing where there are fewer.
pub open spec fn get_bytes(bytes: Seq<u8>, count: nat) -> Option<(Seq<u8>, Seq<u8>)> {
    if count <= bytes.len() {
        Some((bytes.take(count as int), bytes.skip(count as int)))
    } else {
        None
    }
}

#[verifier::opaque]
pub open spec fn get_u8(bytes: Seq<u8>) -> Option<(u8, Seq<u8>)> {
    match get_bytes(bytes, 1) {
        Some((front, rest)) => Some((front[0], rest)),
        None => None,
    }
}

#[verifier::opaque]
pub open spec fn get_u16(bytes: Seq<u8>) -> Option<(u16, Seq<u8>)> {
    match get_bytes(bytes, 2) {
        Some((front, rest)) => Some((spec_u16_from_le_bytes(front), rest)),
        None => None,
    }
}

#[verifier::opaque]
pub open spec fn get_u32(bytes: Seq<u8>) -> Option<(u32, Seq<u8>)> {
    match get_bytes(bytes, 4) {
        Some((front, rest)) => Some((spec_u32_from_le_bytes(front), rest)),
        None => None,
    }
}

#[verifier::opaque]
pub open spec fn get_u64(bytes: Seq<u8>) -> Option<(u64, Seq<u8>)> {
    match get_bytes(bytes, 8) {
        Some((front, rest)) => Some((spec_u64_from_le_bytes(front), rest)),
        None => None,
    }
}

#[verifier::opaque]
pub open spec fn get_u128(bytes: Seq<u8>) -> Option<(u128, Seq<u8>)> {
    match get_bytes(bytes, 16) {
        Some((front, rest)) => Some((spec_u128_from_le_bytes(front), rest)),
        None => None,
    }
}

/// Text held as UTF-8: the characters, where the bytes are valid.
pub open spec fn text_of(bytes: Seq<u8>) -> Option<Seq<char>> {
    if valid_utf8(bytes) {
        Some(decode_utf8(bytes))
    } else {
        None
    }
}

/// `got` and the bytes left behind are what `want` says.
pub open spec fn reads_as<V>(got: Option<V>, rest: Seq<u8>, want: Option<(V, Seq<u8>)>) -> bool {
    match want {
        Some((value, left)) => got == Some(value) && rest == left,
        None => got is None,
    }
}

/// A result with value and error replaced by their views.
pub open spec fn outcome<T: View, E: View>(result: Result<T, E>) -> Result<T::V, E::V> {
    match result {
        Ok(value) => Ok(value@),
        Err(error) => Err(error@),
    }
}

/// `got` and the bytes left behind are what `want` says; after an error
/// nothing is said of the bytes left.
pub open spec fn parsed<V, E>(
    got: Result<V, E>,
    rest: Seq<u8>,
    want: Result<(V, Seq<u8>), E>,
) -> bool {
    match want {
        Ok((value, left)) => got == Ok::<V, E>(value) && rest == left,
        Err(error) => got == Err::<V, E>(error),
    }
}

/// A read that fails with `error` where too few bytes are left.
pub open spec fn required<V, E>(got: Option<(V, Seq<u8>)>, error: E) -> Result<(V, Seq<u8>), E> {
    match got {
        Some(value) => Ok(value),
        None => Err(error),
    }
}

// ---------------------------------------------------------------------------
// Reading back what was written.

pub broadcast proof fn concat_is_associative(a: Seq<u8>, b: Seq<u8>, c: Seq<u8>)
    ensures
        #[trigger] ((a + b) + c) == a + (b + c),
{
    assert(((a + b) + c) =~= a + (b + c));
}

pub broadcast proof fn get_bytes_of_concat(value: Seq<u8>, rest: Seq<u8>)
    ensures
        #[trigger] get_bytes(value + rest, value.len()) == Some((value, rest)),
{
    assert((value + rest).take(value.len() as int) =~= value);
    assert((value + rest).skip(value.len() as int) =~= rest);
}

pub broadcast proof fn get_u8_of_bytes(value: u8, rest: Seq<u8>)
    ensures
        #[trigger] get_u8(u8_bytes(value) + rest) == Some((value, rest)),
{
    reveal(get_u8);
    get_bytes_of_concat(u8_bytes(value), rest);
}

pub broadcast proof fn get_u16_of_bytes(value: u16, rest: Seq<u8>)
    ensures
        #[trigger] get_u16(u16_bytes(value) + rest) == Some((value, rest)),
{
    reveal(get_u16);
    lemma_auto_spec_u16_to_from_le_bytes();
    get_bytes_of_concat(u16_bytes(value), rest);
}

pub broadcast proof fn get_u32_of_bytes(value: u32, rest: Seq<u8>)
    ensures
        #[trigger] get_u32(u32_bytes(value) + rest) == Some((value, rest)),
{
    reveal(get_u32);
    lemma_auto_spec_u32_to_from_le_bytes();
    get_bytes_of_concat(u32_bytes(value), rest);
}

pub broadcast proof fn get_u64_of_bytes(value: u64, rest: Seq<u8>)
    ensures
        #[trigger] get_u64(u64_bytes(value) + rest) == Some((value, rest)),
{
    reveal(get_u64);
    lemma_auto_spec_u64_to_from_le_bytes();
    get_bytes_of_concat(u64_bytes(value), rest);
}

pub broadcast proof fn get_u128_of_bytes(value: u128, rest: Seq<u8>)
    ensures
        #[trigger] get_u128(u128_bytes(value) + rest) == Some((value, rest)),
{
    reveal(get_u128);
    lemma_auto_spec_u128_to_from_le_bytes();
    get_bytes_of_concat(u128_bytes(value), rest);
}

pub broadcast proof fn text_of_encoded(text: Seq<char>)
    ensures
        #[trigger] text_of(encode_utf8(text)) == Some(text),
{
    encode_utf8_valid_utf8(text);
    encode_utf8_decode_utf8(text);
}

/// Byte lengths of the fixed-width integers.
pub broadcast proof fn u64_bytes_len(value: u64)
    ensures
        #[trigger] u64_bytes(value).len() == 8,
{
    lemma_auto_spec_u64_to_from_le_bytes();
}

pub broadcast proof fn u32_bytes_len(value: u32)
    ensures
        #[trigger] u32_bytes(value).len() == 4,
{
    lemma_auto_spec_u32_to_from_le_bytes();
}

pub broadcast group group_codec {
    concat_is_associative,
    get_bytes_of_concat,
    get_u8_of_bytes,
    get_u16_of_bytes,
    get_u32_of_bytes,
    get_u64_of_bytes,
    get_u128_of_bytes,
    text_of_encoded,
}

// Fields behind a tag, grouped from the right.

pub(crate) proof fn regroup1(t: Seq<u8>, a: Seq<u8>, rest: Seq<u8>)
    ensures
        t + a + rest == t + (a + rest),
{
    assert(t + a + rest =~= t + (a + rest));
}

pub(crate) proof fn regroup2(t: Seq<u8>, a: Seq<u8>, b: Seq<u8>, rest: Seq<u8>)
    ensures
        t + a + b + rest == t + (a + (b + rest)),
{
    assert(t + a + b + rest =~= t + (a + (b + rest)));
}

pub(crate) proof fn regroup3(t: Seq<u8>, a: Seq<u8>, b: Seq<u8>, c: Seq<u8>, rest: Seq<u8>)
    ensures
        t + a + b + c + rest == t + (a + (b + (c + rest))),
{
    assert(t + a + b + c + rest =~= t + (a + (b + (c + rest))));
}

pub(crate) proof fn regroup4(
    t: Seq<u8>,
    a: Seq<u8>,
    b: Seq<u8>,
    c: Seq<u8>,
    d: Seq<u8>,
    rest: Seq<u8>,
)
    ensures
        t + a + b + c + d + rest == t + (a + (b + (c + (d + rest)))),
{
    assert(t + a + b + c + d + rest =~= t + (a + (b + (c + (d + rest)))));
}

pub(crate) proof fn regroup5(
    t: Seq<u8>,
    a: Seq<u8>,
    b: Seq<u8>,
    c: Seq<u8>,
    d: Seq<u8>,
    e: Seq<u8>,
    rest: Seq<u8>,
)
    ensures
        t + a + b + c + d + e + rest == t + (a + (b + (c + (d + (e + rest))))),
{
    assert(t + a + b + c + d + e + rest =~= t + (a + (b + (c + (d + (e + rest))))));
}

// ---------------------------------------------------------------------------
// Writing.

pub fn put_u8(out: &mut Vec<u8>, value: u8)
    ensures
        final(out)@ == old(out)@ + u8_bytes(value),
{
    out.push(value);
    assert(out@ =~= old(out)@ + u8_bytes(value));
}

pub fn put_bytes(out: &mut Vec<u8>, value: &[u8])
    ensures
        final(out)@ == old(out)@ + value@,
{
    out.extend_from_slice(value);
    assert(out@ =~= old(out)@ + value@);
}

pub fn put_u16(out: &mut Vec<u8>, value: u16)
    ensures
        final(out)@ == old(out)@ + u16_bytes(value),
{
    let bytes = u16_to_le_bytes(value);
    put_bytes(out, bytes.as_slice());
}

pub fn put_u32(out: &mut Vec<u8>, value: u32)
    ensures
        final(out)@ == old(out)@ + u32_bytes(value),
{
    let bytes = u32_to_le_bytes(value);
    put_bytes(out, bytes.as_slice());
}

pub fn put_u64(out: &mut Vec<u8>, value: u64)
    ensures
        final(out)@ == old(out)@ + u64_bytes(value),
{
    let bytes = u64_to_le_bytes(value);
    put_bytes(out, bytes.as_slice());
}

pub fn put_u128(out: &mut Vec<u8>, value: u128)
    ensures
        final(out)@ == old(out)@ + u128_bytes(value),
{
    let bytes = u128_to_le_bytes(value);
    put_bytes(out, bytes.as_slice());
}

pub fn put_array(out: &mut Vec<u8>, value: &[u8; 32])
    ensures
        final(out)@ == old(out)@ + value@,
{
    put_bytes(out, value.as_slice());
}

pub fn put_optional_u64(out: &mut Vec<u8>, value: Option<u64>)
    ensures
        final(out)@ == old(out)@ + optional_u64_bytes(value),
{
    broadcast use concat_is_associative;
    match value {
        None => put_u8(out, 0),
        Some(v) => {
            put_u8(out, 1);
            put_u64(out, v);
        }
    }
}

// ---------------------------------------------------------------------------
// Reading.

/// The bytes that have not been read yet.
pub struct Reader<'a> {
    pub rest: &'a [u8],
}

impl<'a> Reader<'a> {
    pub open spec fn left(&self) -> Seq<u8> {
        self.rest@
    }

    pub fn new(bytes: &'a [u8]) -> (reader: Reader<'a>)
        ensures
            reader.left() == bytes@,
    {
        Reader { rest: bytes }
    }

    pub fn is_done(&self) -> (done: bool)
        ensures
            done == (self.left().len() == 0),
    {
        self.rest.len() == 0
    }

    pub fn take(&mut self, count: usize) -> (front: Option<&'a [u8]>)
        ensures
            match get_bytes(old(self).left(), count as nat) {
                Some((bytes, left)) => {
                    front is Some && front->0@ == bytes && final(self).left() == left
                },
                None => front is None,
            },
    {
        let length: usize = self.rest.len();
        if count > length {
            return None;
        }
        let front = slice_subrange(self.rest, 0, count);
        self.rest = slice_subrange(self.rest, count, length);
        Some(front)
    }

    pub fn u8(&mut self) -> (value: Option<u8>)
        ensures
            reads_as(value, final(self).left(), get_u8(old(self).left())),
    {
        reveal(get_u8);
        let Some(front) = self.take(1) else {
            return None;
        };
        Some(front[0])
    }

    pub fn u16(&mut self) -> (value: Option<u16>)
        ensures
            reads_as(value, final(self).left(), get_u16(old(self).left())),
    {
        reveal(get_u16);
        let Some(front) = self.take(2) else {
            return None;
        };
        Some(u16_from_le_bytes(front))
    }

    pub fn u32(&mut self) -> (value: Option<u32>)
        ensures
            reads_as(value, final(self).left(), get_u32(old(self).left())),
    {
        reveal(get_u32);
        let Some(front) = self.take(4) else {
            return None;
        };
        Some(u32_from_le_bytes(front))
    }

    pub fn u64(&mut self) -> (value: Option<u64>)
        ensures
            reads_as(value, final(self).left(), get_u64(old(self).left())),
    {
        reveal(get_u64);
        let Some(front) = self.take(8) else {
            return None;
        };
        Some(u64_from_le_bytes(front))
    }

    pub fn u128(&mut self) -> (value: Option<u128>)
        ensures
            reads_as(value, final(self).left(), get_u128(old(self).left())),
    {
        reveal(get_u128);
        let Some(front) = self.take(16) else {
            return None;
        };
        Some(u128_from_le_bytes(front))
    }

    /// Reads a 32-byte digest.
    pub fn array(&mut self) -> (value: Option<[u8; 32]>)
        ensures
            match get_bytes(old(self).left(), 32) {
                Some((bytes, left)) => {
                    value is Some && value->0@ == bytes && final(self).left() == left
                },
                None => value is None,
            },
    {
        let Some(front) = self.take(32) else {
            return None;
        };
        let mut value: [u8; 32] = [0u8; 32];
        let mut index: usize = 0;
        while index < 32
            invariant
                index <= 32,
                front@.len() == 32,
                forall|i: int| 0 <= i < index ==> value@[i] == front@[i],
            decreases 32 - index,
        {
            value[index] = front[index];
            index += 1;
        }
        assert(value@ =~= front@);
        Some(value)
    }
}

/// `String::from_utf8`: the bytes as text where they are valid UTF-8, and
/// nothing otherwise.
#[verifier::external_body]
pub(crate) fn string_from_utf8(bytes: Vec<u8>) -> (text: Option<String>)
    ensures
        match text {
            Some(text) => text_of(bytes@) == Some(text@),
            None => text_of(bytes@) is None,
        },
{
    String::from_utf8(bytes).ok()
}

pub(crate) fn text_from(bytes: &[u8]) -> (text: Option<String>)
    ensures
        match text {
            Some(text) => text_of(bytes@) == Some(text@),
            None => text_of(bytes@) is None,
        },
{
    string_from_utf8(slice_to_vec(bytes))
}

} // verus!
