//! Byte-level building blocks shared by every codec: little-endian integers,
//! counted byte runs, UTF-8 text and null-terminated identifiers.
use crate::error::DecodeError;
use vstd::prelude::*;
use vstd::slice::slice_subrange;
use vstd::slice::slice_to_vec;
use vstd::utf8::decode_utf8;
use vstd::utf8::decode_utf8_encode_utf8;
use vstd::utf8::encode_utf8;
use vstd::utf8::encode_utf8_decode_utf8;
use vstd::utf8::encode_utf8_valid_utf8;
use vstd::utf8::valid_utf8;

verus! {

/// The outcome of an executable parse as a mathematical value: the remainder
/// by its bytes.
pub open spec fn parsed<T>(r: Result<(&[u8], T), DecodeError>) -> Result<
    (Seq<u8>, T),
    DecodeError,
> {
    match r {
        Ok((rest, v)) => Ok((rest@, v)),
        Err(e) => Err(e),
    }
}

/// The outcome of an executable parse as a mathematical value: the remainder
/// by its bytes, the result by its view.
pub open spec fn parsed_view<T: View>(r: Result<(&[u8], T), DecodeError>) -> Result<
    (Seq<u8>, T::V),
    DecodeError,
> {
    match r {
        Ok((rest, v)) => Ok((rest@, v@)),
        Err(e) => Err(e),
    }
}

/// The two bytes of `v`, least significant first.
pub open spec fn u16_le(v: u16) -> Seq<u8> {
    seq![(v % 256) as u8, (v / 256) as u8]
}

/// The number whose little-endian form is the first two bytes of `bytes`.
pub open spec fn u16_from_le(bytes: Seq<u8>) -> u16
    recommends
        bytes.len() >= 2,
{
    (bytes[0] + 256 * bytes[1]) as u16
}

/// The four bytes of `v`, least significant first.
pub open spec fn u32_le(v: u32) -> Seq<u8> {
    seq![
        (v % 256) as u8,
        ((v / 256) % 256) as u8,
        ((v / 65536) % 256) as u8,
        (v / 16777216) as u8,
    ]
}

/// The number whose little-endian form is the first four bytes of `bytes`.
pub open spec fn u32_from_le(bytes: Seq<u8>) -> u32
    recommends
        bytes.len() >= 4,
{
    (bytes[0] + 256 * bytes[1] + 65536 * bytes[2] + 16777216 * bytes[3]) as u32
}

/// The bytes of a text: its characters in UTF-8.
#[verifier::opaque]
pub open spec fn text_bytes(text: Seq<char>) -> Seq<u8> {
    encode_utf8(text)
}

/// Whether `bytes` are the bytes of a text: whether they are valid UTF-8.
#[verifier::opaque]
pub open spec fn is_text(bytes: Seq<u8>) -> bool {
    valid_utf8(bytes)
}

/// The text that `bytes` are the bytes of, where they are the bytes of one.
#[verifier::opaque]
pub open spec fn text_of(bytes: Seq<u8>) -> Seq<char>
    recommends
        is_text(bytes),
{
    decode_utf8(bytes)
}

/// The position of the first zero byte of `bytes`, or `bytes.len()` if there
/// is none.
pub open spec fn first_null(bytes: Seq<u8>) -> int
    decreases bytes.len(),
{
    if bytes.len() == 0 || bytes[0] == 0 {
        0
    } else {
        1 + first_null(bytes.skip(1))
    }
}

/// An identifier as it is transmitted: followed by one zero byte, unless its
/// last byte already is one.
pub open spec fn terminated(text: Seq<u8>) -> Seq<u8> {
    if text.len() > 0 && text.last() == 0 {
        text
    } else {
        text.push(0)
    }
}

/// The encodings of `items`, one after the other.
pub open spec fn concat_all<T>(items: Seq<T>, enc: spec_fn(T) -> Seq<u8>) -> Seq<u8>
    decreases items.len(),
{
    if items.len() == 0 {
        Seq::empty()
    } else {
        enc(items[0]) + concat_all(items.skip(1), enc)
    }
}

/// What decoding item after item gives, until no byte is left.
///
/// An item that cannot be decoded for want of bytes leaves bytes over:
/// `TrailingInput`. Any other failure of an item is the failure of the whole.
/// (An item decoded from no bytes at all could be repeated for ever; its
/// input counts as left over.)
pub open spec fn parse_all<T>(
    bytes: Seq<u8>,
    dec: spec_fn(Seq<u8>) -> Result<(Seq<u8>, T), DecodeError>,
) -> Result<Seq<T>, DecodeError>
    decreases bytes.len(),
{
    if bytes.len() == 0 {
        Ok(Seq::empty())
    } else {
        match dec(bytes) {
            Err(DecodeError::TruncatedInput) => Err(DecodeError::TrailingInput),
            Err(e) => Err(e),
            Ok((rest, item)) => if rest.len() < bytes.len() {
                match parse_all(rest, dec) {
                    Ok(items) => Ok(seq![item] + items),
                    Err(e) => Err(e),
                }
            } else {
                Err(DecodeError::TrailingInput)
            },
        }
    }
}

/// The items decoded so far, put in front of what the rest decodes to.
pub open spec fn prepend_items<T>(done: Seq<T>, rest: Result<Seq<T>, DecodeError>) -> Result<
    Seq<T>,
    DecodeError,
> {
    match rest {
        Ok(items) => Ok(done + items),
        Err(e) => Err(e),
    }
}

/// Reading back the little-endian form of a 16-bit number gives the number,
/// and re-encoding any two bytes that were read gives those bytes.
pub proof fn lemma_u16_le_round_trip(v: u16, bytes: Seq<u8>)
    ensures
        u16_le(v).len() == 2,
        u16_from_le(u16_le(v)) == v,
        bytes.len() == 2 ==> u16_le(u16_from_le(bytes)) == bytes,
{
    if bytes.len() == 2 {
        assert(u16_le(u16_from_le(bytes)) =~= bytes);
    }
}

/// Reading back the little-endian form of a 32-bit number gives the number,
/// and re-encoding any four bytes that were read gives those bytes.
pub proof fn lemma_u32_le_round_trip(v: u32, bytes: Seq<u8>)
    ensures
        u32_le(v).len() == 4,
        u32_from_le(u32_le(v)) == v,
        bytes.len() == 4 ==> u32_le(u32_from_le(bytes)) == bytes,
{
    assert(u32_from_le(u32_le(v)) == v) by {
        let q1 = v / 256;
        let q2 = v / 65536;
        let q3 = v / 16777216;
        assert(q2 == q1 / 256);
        assert(q3 == q2 / 256);
        assert(v == v % 256 + 256 * q1);
        assert(q1 == q1 % 256 + 256 * q2);
        assert(q2 == q2 % 256 + 256 * q3);
    }
    if bytes.len() == 4 {
        let n = bytes[0] + 256 * bytes[1] + 65536 * bytes[2] + 16777216 * bytes[3];
        let r1 = bytes[1] + 256 * bytes[2] + 65536 * bytes[3];
        let r2 = bytes[2] + 256 * bytes[3];
        assert(n == bytes[0] + 256 * r1);
        assert(r1 == bytes[1] + 256 * r2);
        assert(n % 256 == bytes[0] && n / 256 == r1);
        assert(r1 % 256 == bytes[1] && r1 / 256 == r2);
        assert(r2 % 256 == bytes[2] && r2 / 256 == bytes[3]);
        assert(n / 65536 == r2);
        assert(n / 16777216 == bytes[3]);
        assert(u32_le(u32_from_le(bytes)) =~= bytes);
    }
}

/// Bytes that begin with a 32-bit number are the little-endian form of that
/// number followed by the bytes after the fourth.
pub proof fn lemma_u32_prefix(bytes: Seq<u8>)
    requires
        bytes.len() >= 4,
    ensures
        bytes == u32_le(u32_from_le(bytes)) + bytes.skip(4),
{
    let head = bytes.take(4);
    lemma_u32_le_round_trip(0, head);
    assert(u32_from_le(head) == u32_from_le(bytes));
    assert(bytes =~= head + bytes.skip(4));
}

/// The little-endian form of a 32-bit number, followed by anything, is read
/// as that number, and what followed comes after the fourth byte.
pub proof fn lemma_u32_prefix_of(v: u32, tail: Seq<u8>)
    ensures
        (u32_le(v) + tail).len() >= 4,
        u32_from_le(u32_le(v) + tail) == v,
        (u32_le(v) + tail).skip(4) == tail,
{
    let bytes = u32_le(v) + tail;
    lemma_u32_le_round_trip(v, Seq::empty());
    assert(u32_from_le(bytes) == u32_from_le(u32_le(v)));
    assert(bytes.skip(4) =~= tail);
}

/// Bytes that begin with a 16-bit number are the little-endian form of that
/// number followed by the bytes after the second.
pub proof fn lemma_u16_prefix(bytes: Seq<u8>)
    requires
        bytes.len() >= 2,
    ensures
        bytes == u16_le(u16_from_le(bytes)) + bytes.skip(2),
{
    let head = bytes.take(2);
    lemma_u16_le_round_trip(0, head);
    assert(u16_from_le(head) == u16_from_le(bytes));
    assert(bytes =~= head + bytes.skip(2));
}

/// The little-endian form of a 16-bit number, followed by anything, is read
/// as that number, and what followed comes after the second byte.
pub proof fn lemma_u16_prefix_of(v: u16, tail: Seq<u8>)
    ensures
        (u16_le(v) + tail).len() >= 2,
        u16_from_le(u16_le(v) + tail) == v,
        (u16_le(v) + tail).skip(2) == tail,
{
    let bytes = u16_le(v) + tail;
    lemma_u16_le_round_trip(v, Seq::empty());
    assert(u16_from_le(bytes) == u16_from_le(u16_le(v)));
    assert(bytes.skip(2) =~= tail);
}

/// Bytes that are not empty are their first byte followed by the others.
pub proof fn lemma_first_byte(bytes: Seq<u8>)
    requires
        bytes.len() >= 1,
    ensures
        bytes == seq![bytes[0]] + bytes.skip(1),
{
    assert(bytes =~= seq![bytes[0]] + bytes.skip(1));
}

/// A byte followed by anything is the first byte of the whole, and what
/// followed comes after it.
pub proof fn lemma_first_byte_of(b: u8, tail: Seq<u8>)
    ensures
        (seq![b] + tail).len() >= 1,
        (seq![b] + tail)[0] == b,
        (seq![b] + tail).skip(1) == tail,
{
    assert((seq![b] + tail).skip(1) =~= tail);
}

/// A text found before the first zero byte holds no zero byte, and the bytes
/// it was found in are the text, a zero byte, and what follows.
pub proof fn lemma_text_before_first_null(bytes: Seq<u8>)
    requires
        first_null(bytes) < bytes.len(),
    ensures
        !bytes.take(first_null(bytes)).contains(0),
        terminated(bytes.take(first_null(bytes))) == bytes.take(first_null(bytes)) + seq![0u8],
        bytes == terminated(bytes.take(first_null(bytes))) + bytes.skip(first_null(bytes) + 1),
{
    let end = first_null(bytes);
    let text = bytes.take(end);
    lemma_first_null(bytes);
    assert(!text.contains(0)) by {
        if text.contains(0) {
            let k = choose|k: int| 0 <= k < text.len() && text[k] == 0;
            assert(bytes[k] == text[k]);
        }
    }
    if text.len() > 0 {
        assert(text.contains(text.last()));
    }
    assert(terminated(text) =~= text + seq![0u8]);
    assert(bytes =~= text + seq![0u8] + bytes.skip(end + 1));
}

/// A text without zero bytes, transmitted with its terminator and followed
/// by anything, ends at the first zero byte, and what followed comes after
/// it.
pub proof fn lemma_terminated_prefix_of(text: Seq<u8>, tail: Seq<u8>)
    requires
        !text.contains(0),
    ensures
        first_null(terminated(text) + tail) == text.len(),
        first_null(terminated(text) + tail) < (terminated(text) + tail).len(),
        (terminated(text) + tail).take(text.len() as int) == text,
        (terminated(text) + tail).skip(text.len() as int + 1) == tail,
{
    let bytes = terminated(text) + tail;
    if text.len() > 0 {
        assert(text.contains(text.last()));
    }
    assert(terminated(text) =~= text + seq![0u8]);
    assert(bytes =~= text + seq![0u8] + tail);
    lemma_first_null_after_text(text, tail);
    assert(bytes.take(text.len() as int) =~= text);
    assert(bytes.skip(text.len() as int + 1) =~= tail);
}

/// The bytes of a text are the bytes of a text, and of that text.
pub proof fn lemma_text_round_trip(text: Seq<char>)
    ensures
        is_text(text_bytes(text)),
        text_of(text_bytes(text)) == text,
{
    reveal(text_bytes);
    reveal(is_text);
    reveal(text_of);
    encode_utf8_valid_utf8(text);
    encode_utf8_decode_utf8(text);
}

/// Bytes that are the bytes of a text are the bytes of the text they are
/// read as.
pub proof fn lemma_text_of_bytes(bytes: Seq<u8>)
    requires
        is_text(bytes),
    ensures
        text_bytes(text_of(bytes)) == bytes,
{
    reveal(text_bytes);
    reveal(is_text);
    reveal(text_of);
    decode_utf8_encode_utf8(bytes);
}

/// `first_null` finds a zero byte exactly when there is one, and no byte
/// before the position it returns is zero.
pub proof fn lemma_first_null(bytes: Seq<u8>)
    ensures
        0 <= first_null(bytes) <= bytes.len(),
        first_null(bytes) < bytes.len() ==> bytes[first_null(bytes)] == 0,
        forall|k: int| 0 <= k < first_null(bytes) ==> bytes[k] != 0,
    decreases bytes.len(),
{
    if bytes.len() == 0 || bytes[0] == 0 {
    } else {
        let tail = bytes.skip(1);
        lemma_first_null(tail);
        assert forall|k: int| 0 <= k < first_null(bytes) implies bytes[k] != 0 by {
            if k > 0 {
                assert(bytes[k] == tail[k - 1]);
            }
        }
    }
}

/// A text without zero bytes, followed by a zero byte and anything else, is
/// found again as the bytes before the first zero.
pub proof fn lemma_first_null_after_text(text: Seq<u8>, tail: Seq<u8>)
    requires
        !text.contains(0),
    ensures
        first_null(text + seq![0u8] + tail) == text.len(),
    decreases text.len(),
{
    let all = text + seq![0u8] + tail;
    if text.len() == 0 {
        assert(all[0] == 0);
    } else {
        assert(text.contains(text[0]));
        assert(all[0] == text[0]);
        let shorter = text.skip(1);
        assert forall|k: int| 0 <= k < shorter.len() implies shorter[k] != 0 by {
            assert(text.contains(text[k + 1]));
        }
        assert(all.skip(1) =~= shorter + seq![0u8] + tail);
        lemma_first_null_after_text(shorter, tail);
    }
}

/// With nothing decoded yet, the outcome is that of the whole input.
pub proof fn lemma_prepend_nothing<T>(rest: Result<Seq<T>, DecodeError>)
    ensures
        prepend_items(Seq::empty(), rest) == rest,
{
    if let Ok(items) = rest {
        assert(Seq::<T>::empty() + items =~= items);
    }
}

/// One more item decoded moves from what is still to come to what is done.
pub proof fn lemma_prepend_pushed<T>(done: Seq<T>, item: T, rest: Result<Seq<T>, DecodeError>)
    ensures
        prepend_items(done, prepend_items(seq![item], rest)) == prepend_items(
            done.push(item),
            rest,
        ),
{
    if let Ok(items) = rest {
        assert(done + (seq![item] + items) =~= done.push(item) + items);
    }
}

/// With nothing left to decode, the outcome is what is done.
pub proof fn lemma_prepend_to_nothing<T>(done: Seq<T>)
    ensures
        prepend_items(done, Ok(Seq::empty())) == Ok::<Seq<T>, DecodeError>(done),
{
    assert(done + Seq::<T>::empty() =~= done);
}

/// One step of decoding item by item: where an item is decoded and bytes are
/// used up, the outcome is that item in front of the outcome of the rest.
pub proof fn lemma_parse_all_step<T>(
    bytes: Seq<u8>,
    dec: spec_fn(Seq<u8>) -> Result<(Seq<u8>, T), DecodeError>,
)
    requires
        dec(bytes) is Ok,
        dec(bytes)->Ok_0.0.len() < bytes.len(),
    ensures
        parse_all(bytes, dec) == prepend_items(
            seq![dec(bytes)->Ok_0.1],
            parse_all(dec(bytes)->Ok_0.0, dec),
        ),
{
}

/// An identifier is always transmitted with a zero byte at its end: one that
/// ends in a zero byte goes out unchanged, with no second terminator, and
/// any other gets exactly one zero byte added.
pub proof fn lemma_terminated(text: Seq<u8>)
    ensures
        terminated(text).len() > 0,
        terminated(text).last() == 0,
        text.len() > 0 && text.last() == 0 ==> terminated(text) == text,
        !(text.len() > 0 && text.last() == 0) ==> terminated(text) == text + seq![0u8],
        terminated(terminated(text)) == terminated(text),
{
    assert(text.push(0) =~= text + seq![0u8]);
}

/// Encoding items one after the other can be split after the first `k` of
/// them.
pub proof fn lemma_concat_all_split<T>(items: Seq<T>, enc: spec_fn(T) -> Seq<u8>, k: int)
    requires
        0 <= k <= items.len(),
    ensures
        concat_all(items, enc) == concat_all(items.take(k), enc) + concat_all(items.skip(k), enc),
    decreases k,
{
    if k == 0 {
        assert(items.take(0) =~= Seq::<T>::empty());
        assert(items.skip(0) =~= items);
        assert(concat_all(items, enc) =~= Seq::<u8>::empty() + concat_all(items, enc));
    } else {
        let tail = items.skip(1);
        lemma_concat_all_split(tail, enc, k - 1);
        assert(tail.take(k - 1) =~= items.take(k).skip(1));
        assert(tail.skip(k - 1) =~= items.skip(k));
        assert(items.take(k)[0] == items[0]);
        assert(concat_all(items, enc) =~= concat_all(items.take(k), enc) + concat_all(
            items.skip(k),
            enc,
        ));
    }
}

/// Appending one item appends its encoding.
pub proof fn lemma_concat_all_push<T>(items: Seq<T>, enc: spec_fn(T) -> Seq<u8>, item: T)
    ensures
        concat_all(items.push(item), enc) == concat_all(items, enc) + enc(item),
{
    let all = items.push(item);
    lemma_concat_all_split(all, enc, items.len() as int);
    assert(all.take(items.len() as int) =~= items);
    let last = all.skip(items.len() as int);
    assert(last.skip(1) =~= Seq::<T>::empty());
    assert(last[0] == item);
    assert(concat_all(last.skip(1), enc) =~= Seq::<u8>::empty());
    assert(concat_all(last, enc) =~= enc(item));
}

/// Decoding what was encoded gives the items back, provided that each item,
/// in front of the items that follow it, decodes to itself and leaves exactly
/// those that follow, and that no item is encoded by nothing.
pub proof fn lemma_parse_all_concat<T>(
    items: Seq<T>,
    enc: spec_fn(T) -> Seq<u8>,
    dec: spec_fn(Seq<u8>) -> Result<(Seq<u8>, T), DecodeError>,
)
    requires
        forall|k: int|
            0 <= k < items.len() ==> enc(#[trigger] items[k]).len() > 0 && dec(
                enc(items[k]) + concat_all(items.skip(k + 1), enc),
            ) == Ok::<(Seq<u8>, T), DecodeError>((concat_all(items.skip(k + 1), enc), items[k])),
    ensures
        parse_all(concat_all(items, enc), dec) == Ok::<Seq<T>, DecodeError>(items),
    decreases items.len(),
{
    if items.len() == 0 {
        assert(items =~= Seq::<T>::empty());
    } else {
        let tail = items.skip(1);
        assert forall|k: int| 0 <= k < tail.len() implies enc(#[trigger] tail[k]).len() > 0 && dec(
            enc(tail[k]) + concat_all(tail.skip(k + 1), enc),
        ) == Ok::<(Seq<u8>, T), DecodeError>((concat_all(tail.skip(k + 1), enc), tail[k])) by {
            assert(tail[k] == items[k + 1]);
            assert(tail.skip(k + 1) =~= items.skip(k + 2));
        }
        lemma_parse_all_concat(tail, enc, dec);
        assert(items.skip(1) =~= tail);
        assert(seq![items[0]] + tail =~= items);
    }
}

/// What was decoded item after item is encoded by the very bytes it was
/// decoded from, provided that each single item is.
pub proof fn lemma_concat_all_parse_all<T>(
    bytes: Seq<u8>,
    enc: spec_fn(T) -> Seq<u8>,
    dec: spec_fn(Seq<u8>) -> Result<(Seq<u8>, T), DecodeError>,
)
    requires
        forall|b: Seq<u8>| #[trigger]
            dec(b) matches Ok((rest, item)) ==> b == enc(item) + rest,
    ensures
        parse_all(bytes, dec) matches Ok(items) ==> concat_all(items, enc) == bytes,
    decreases bytes.len(),
{
    if bytes.len() == 0 {
        assert(concat_all(Seq::<T>::empty(), enc) =~= bytes);
    } else {
        match dec(bytes) {
            Ok((rest, item)) => {
                if rest.len() < bytes.len() {
                    lemma_concat_all_parse_all(rest, enc, dec);
                    match parse_all(rest, dec) {
                        Ok(items) => {
                            let all = seq![item] + items;
                            assert(all.skip(1) =~= items);
                            assert(all[0] == item);
                        },
                        Err(_) => {},
                    }
                }
            },
            Err(_) => {},
        }
    }
}

/// Reads one byte with nom's `number::complete::le_u8`.
///
/// Claimed of nom: on an empty slice it reports an error; otherwise it
/// returns the first byte together with the slice that follows it.
#[verifier::external_body]
pub(crate) fn le_u8<'a>(i: &'a [u8]) -> (r: Option<(&'a [u8], u8)>)
    ensures
        r is Some <==> i@.len() >= 1,
        r matches Some((rest, v)) ==> rest@ == i@.skip(1) && v == i@[0],
{
    match nom::number::complete::le_u8::<&[u8], nom::error::Error<&[u8]>>(i) {
        Ok((rest, v)) => Some((rest, v)),
        Err(_) => None,
    }
}

/// Reads a 16-bit little-endian number with nom's `number::complete::le_u16`.
///
/// Claimed of nom: on fewer than two bytes it reports an error; otherwise it
/// returns the number formed by the first two bytes, least significant
/// first, together with the slice that follows them.
#[verifier::external_body]
pub(crate) fn le_u16<'a>(i: &'a [u8]) -> (r: Option<(&'a [u8], u16)>)
    ensures
        r is Some <==> i@.len() >= 2,
        r matches Some((rest, v)) ==> rest@ == i@.skip(2) && v == u16_from_le(i@),
{
    match nom::number::complete::le_u16::<&[u8], nom::error::Error<&[u8]>>(i) {
        Ok((rest, v)) => Some((rest, v)),
        Err(_) => None,
    }
}

/// Reads a 32-bit little-endian number with nom's `number::complete::le_u32`.
///
/// Claimed of nom: on fewer than four bytes it reports an error; otherwise it
/// returns the number formed by the first four bytes, least significant
/// first, together with the slice that follows them.
#[verifier::external_body]
pub(crate) fn le_u32<'a>(i: &'a [u8]) -> (r: Option<(&'a [u8], u32)>)
    ensures
        r is Some <==> i@.len() >= 4,
        r matches Some((rest, v)) ==> rest@ == i@.skip(4) && v == u32_from_le(i@),
{
    match nom::number::complete::le_u32::<&[u8], nom::error::Error<&[u8]>>(i) {
        Ok((rest, v)) => Some((rest, v)),
        Err(_) => None,
    }
}

/// Turns bytes into text with std's `String::from_utf8`.
///
/// Claimed of std: the conversion succeeds exactly on valid UTF-8, and the
/// string it returns is encoded by the very bytes it was given.
#[verifier::external_body]
pub(crate) fn string_from_utf8(bytes: Vec<u8>) -> (r: Option<String>)
    ensures
        r is Some <==> valid_utf8(bytes@),
        r matches Some(s) ==> encode_utf8(s@) == bytes@,
{
    match String::from_utf8(bytes) {
        Ok(s) => Some(s),
        Err(_) => None,
    }
}

/// Decodes `bytes` as UTF-8 text.
///
/// Succeeds exactly when the bytes are valid UTF-8, with the characters they
/// encode.
pub fn decode_text(bytes: &[u8]) -> (r: Option<String>)
    ensures
        r is Some <==> is_text(bytes@),
        r matches Some(s) ==> s@ == text_of(bytes@) && text_bytes(s@) == bytes@,
{
    let r = string_from_utf8(slice_to_vec(bytes));
    proof {
        reveal(text_bytes);
        reveal(is_text);
        reveal(text_of);
        if r is Some {
            encode_utf8_decode_utf8(r->0@);
        }
    }
    r
}

/// Splits off the first `n` bytes of `i`.
///
/// Returns the remainder and the bytes taken, or `None` when fewer than `n`
/// bytes are there.
pub fn take_bytes<'a>(i: &'a [u8], n: usize) -> (r: Option<(&'a [u8], &'a [u8])>)
    ensures
        r is Some <==> n <= i@.len(),
        r matches Some((rest, taken)) ==> taken@ == i@.take(n as int) && rest@ == i@.skip(
            n as int,
        ),
{
    if n <= i.len() {
        let taken = slice_subrange(i, 0, n);
        let rest = slice_subrange(i, n, i.len());
        Some((rest, taken))
    } else {
        None
    }
}

/// Splits a null-terminated identifier off the front of `i`.
///
/// Returns the remainder after the terminator and the bytes before it, or
/// `None` when `i` holds no zero byte.
pub fn take_terminated<'a>(i: &'a [u8]) -> (r: Option<(&'a [u8], &'a [u8])>)
    ensures
        r is Some <==> first_null(i@) < i@.len(),
        r matches Some((rest, text)) ==> text@ == i@.take(first_null(i@)) && rest@ == i@.skip(
            first_null(i@) + 1,
        ),
{
    let mut k: usize = 0;
    assert(i@.skip(0) =~= i@);
    while k < i.len() && i[k] != 0
        invariant
            k <= i@.len(),
            first_null(i@) == k + first_null(i@.skip(k as int)),
        decreases i@.len() - k,
    {
        assert(i@.skip(k as int).skip(1) =~= i@.skip(k + 1));
        k += 1;
    }
    proof {
        lemma_first_null(i@);
        assert(i@.skip(k as int).len() == 0 || i@.skip(k as int)[0] == 0);
    }
    if k < i.len() {
        let text = slice_subrange(i, 0, k);
        let rest = slice_subrange(i, k + 1, i.len());
        Some((rest, text))
    } else {
        None
    }
}

/// Tells whether the bytes of `text` hold no zero byte, so that the text can
/// be transmitted as a null-terminated identifier and found again.
pub fn holds_no_null(text: &str) -> (ok: bool)
    ensures
        ok == !text_bytes(text@).contains(0),
{
    proof {
        reveal(text_bytes);
    }
    let bytes = text.as_bytes();
    let mut k: usize = 0;
    while k < bytes.len()
        invariant
            k <= bytes@.len(),
            bytes@ == text_bytes(text@),
            forall|j: int| 0 <= j < k ==> bytes@[j] != 0,
        decreases bytes@.len() - k,
    {
        if bytes[k] == 0 {
            assert(bytes@.contains(bytes@[k as int]));
            return false;
        }
        k += 1;
    }
    true
}

/// Appends the two bytes of `v`, least significant first.
pub fn push_u16_le(out: &mut Vec<u8>, v: u16)
    ensures
        final(out)@ == old(out)@ + u16_le(v),
{
    out.push((v % 256) as u8);
    out.push((v / 256) as u8);
    assert(out@ =~= old(out)@ + u16_le(v));
}

/// Appends the four bytes of `v`, least significant first.
pub fn push_u32_le(out: &mut Vec<u8>, v: u32)
    ensures
        final(out)@ == old(out)@ + u32_le(v),
{
    out.push((v % 256) as u8);
    out.push(((v / 256) % 256) as u8);
    out.push(((v / 65536) % 256) as u8);
    out.push((v / 16777216) as u8);
    assert(out@ =~= old(out)@ + u32_le(v));
}

/// Appends the UTF-8 bytes of `text`.
pub fn push_text(out: &mut Vec<u8>, text: &str)
    ensures
        final(out)@ == old(out)@ + text_bytes(text@),
{
    proof {
        reveal(text_bytes);
    }
    out.extend_from_slice(text.as_bytes());
}

/// Appends `text` as a null-terminated identifier: its UTF-8 bytes, then a
/// zero byte unless the text already ends in one.
pub fn push_terminated(out: &mut Vec<u8>, text: &str)
    ensures
        final(out)@ == old(out)@ + terminated(text_bytes(text@)),
{
    proof {
        reveal(text_bytes);
    }
    let bytes = text.as_bytes();
    out.extend_from_slice(bytes);
    let n = bytes.len();
    if n == 0 || bytes[n - 1] != 0 {
        out.push(0);
    }
    assert(out@ =~= old(out)@ + terminated(text_bytes(text@)));
}

} // verus!
