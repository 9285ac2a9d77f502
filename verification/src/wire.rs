//! Little-endian words and UTF-8 text, the vocabulary that bundle files are written in.

use byteorder::{LittleEndian, ReadBytesExt, WriteBytesExt};
use vstd::prelude::*;
use vstd::utf8::*;

verus! {

/// The two bytes of `x`, least significant first.
pub open spec fn u16_bytes(x: u16) -> Seq<u8> {
    seq![(x % 256) as u8, (x / 256) as u8]
}

/// The number whose little-endian bytes are the first two of `s`.
pub open spec fn u16_value(s: Seq<u8>) -> u16 {
    (s[0] + 256 * s[1]) as u16
}

/// The four bytes of `x`, least significant first.
pub open spec fn u32_bytes(x: u32) -> Seq<u8> {
    seq![
        (x % 256) as u8,
        ((x / 256) % 256) as u8,
        ((x / 65536) % 256) as u8,
        (x / 16777216) as u8,
    ]
}

/// The number whose little-endian bytes are the first four of `s`.
pub open spec fn u32_value(s: Seq<u8>) -> u32 {
    (s[0] + 256 * s[1] + 65536 * s[2] + 16777216 * s[3]) as u32
}

/// The bytes of a run of words, one after the other.
pub open spec fn words_bytes(words: Seq<u32>) -> Seq<u8>
    decreases words.len(),
{
    if words.len() == 0 {
        Seq::empty()
    } else {
        words_bytes(words.drop_last()) + u32_bytes(words.last())
    }
}

/// The first `n` words of `s`, which holds at least `4 * n` bytes.
pub open spec fn words_value(s: Seq<u8>, n: nat) -> Seq<u32> {
    Seq::new(n, |i: int| u32_value(s.subrange(4 * i, 4 * i + 4)))
}

/// Reading two bytes back gives the number that was written.
pub proof fn u16_round_trip(x: u16)
    ensures
        u16_bytes(x).len() == 2,
        u16_value(u16_bytes(x)) == x,
{
}

/// Reading four bytes back gives the number that was written.
pub proof fn u32_round_trip(x: u32)
    ensures
        u32_bytes(x).len() == 4,
        u32_value(u32_bytes(x)) == x,
{
}

/// `n` words take `4 * n` bytes.
pub proof fn words_bytes_len(words: Seq<u32>)
    ensures
        words_bytes(words).len() == 4 * words.len(),
    decreases words.len(),
{
    if words.len() > 0 {
        words_bytes_len(words.drop_last());
    }
}

/// Reading a run of words back gives the words that were written, whatever follows them.
pub proof fn words_round_trip(words: Seq<u32>, rest: Seq<u8>)
    ensures
        words_value(words_bytes(words) + rest, words.len()) == words,
    decreases words.len(),
{
    let s = words_bytes(words) + rest;
    words_bytes_len(words);
    if words.len() > 0 {
        let init = words.drop_last();
        let tail = u32_bytes(words.last()) + rest;
        words_bytes_len(init);
        words_round_trip(init, tail);
        assert(s =~= words_bytes(init) + tail);
        assert forall|i: int| 0 <= i < words.len() implies words_value(s, words.len())[i]
            == words[i] by {
            if i < init.len() {
                assert(words_value(s, init.len())[i] == init[i]);
            } else {
                assert(s.subrange(4 * i, 4 * i + 4) =~= u32_bytes(words.last()));
                u32_round_trip(words.last());
            }
        }
    }
    assert(words_value(s, words.len()) =~= words);
}

/// `byteorder::ReadBytesExt::read_u16` on the bytes from `pos` on: the little-endian number
/// that starts there, or nothing where fewer than two bytes are left.
#[verifier::external_body]
pub(crate) fn read_u16(bytes: &[u8], pos: usize) -> (r: Option<u16>)
    requires
        pos <= bytes@.len(),
    ensures
        r == (if pos + 2 <= bytes@.len() {
            Some(u16_value(bytes@.subrange(pos as int, pos + 2)))
        } else {
            None
        }),
{
    let mut rest = &bytes[pos..];
    rest.read_u16::<LittleEndian>().ok()
}

/// `byteorder::ReadBytesExt::read_u32` on the bytes from `pos` on: the little-endian number
/// that starts there, or nothing where fewer than four bytes are left.
#[verifier::external_body]
pub(crate) fn read_u32(bytes: &[u8], pos: usize) -> (r: Option<u32>)
    requires
        pos <= bytes@.len(),
    ensures
        r == (if pos + 4 <= bytes@.len() {
            Some(u32_value(bytes@.subrange(pos as int, pos + 4)))
        } else {
            None
        }),
{
    let mut rest = &bytes[pos..];
    rest.read_u32::<LittleEndian>().ok()
}

/// `byteorder::WriteBytesExt::write_u16` on a byte vector: appends the two little-endian
/// bytes of `n`. Writing to a vector does not fail.
#[verifier::external_body]
pub(crate) fn write_u16(out: &mut Vec<u8>, n: u16)
    ensures
        final(out)@ == old(out)@ + u16_bytes(n),
{
    out.write_u16::<LittleEndian>(n).unwrap()
}

/// `byteorder::WriteBytesExt::write_u32` on a byte vector: appends the four little-endian
/// bytes of `n`. Writing to a vector does not fail.
#[verifier::external_body]
pub(crate) fn write_u32(out: &mut Vec<u8>, n: u32)
    ensures
        final(out)@ == old(out)@ + u32_bytes(n),
{
    out.write_u32::<LittleEndian>(n).unwrap()
}

/// `String::from_utf8`: the text that the bytes encode, or nothing where they are not UTF-8.
#[verifier::external_body]
pub(crate) fn text_from_utf8(bytes: Vec<u8>) -> (r: Option<String>)
    ensures
        match r {
            Some(s) => valid_utf8(bytes@) && s@ == decode_utf8(bytes@),
            None => !valid_utf8(bytes@),
        },
{
    String::from_utf8(bytes).ok()
}

/// Appends each word in little-endian order.
pub fn write_words(out: &mut Vec<u8>, words: &Vec<u32>)
    ensures
        final(out)@ == old(out)@ + words_bytes(words@),
{
    let ghost start = out@;
    let mut i: usize = 0;
    assert(words@.take(0) =~= Seq::empty());
    assert(out@ =~= start + words_bytes(words@.take(0)));
    while i < words.len()
        invariant
            i <= words@.len(),
            out@ == start + words_bytes(words@.take(i as int)),
        decreases words@.len() - i,
    {
        write_u32(out, words[i]);
        proof {
            let next = words@.take(i + 1);
            assert(next.drop_last() =~= words@.take(i as int));
            assert(out@ =~= start + words_bytes(next));
        }
        i = i + 1;
    }
    assert(words@.take(words@.len() as int) =~= words@);
}

/// The `n` words from `pos` on, or nothing where the bytes end before them.
pub fn read_words(bytes: &[u8], pos: usize, n: usize) -> (r: Option<Vec<u32>>)
    requires
        pos <= bytes@.len(),
    ensures
        match r {
            Some(words) => 4 * n <= bytes@.len() - pos && words@ == words_value(
                bytes@.skip(pos as int),
                n as nat,
            ),
            None => 4 * n > bytes@.len() - pos,
        },
{
    if n > (bytes.len() - pos) / 4 {
        return None;
    }
    let mut words: Vec<u32> = Vec::new();
    let mut i: usize = 0;
    while i < n
        invariant
            i <= n,
            pos <= bytes@.len() <= usize::MAX,
            4 * n <= bytes@.len() - pos,
            words@.len() == i,
            forall|j: int|
                0 <= j < i ==> words@[j] == u32_value(
                    bytes@.skip(pos as int).subrange(4 * j, 4 * j + 4),
                ),
        decreases n - i,
    {
        let at: usize = pos + 4 * i;
        match read_u32(bytes, at) {
            Some(w) => {
                assert(bytes@.subrange(at as int, at + 4) =~= bytes@.skip(pos as int).subrange(
                    4 * i,
                    4 * i + 4,
                ));
                words.push(w);
            },
            None => {
                return None;
            },
        }
        i = i + 1;
    }
    assert(words@ =~= words_value(bytes@.skip(pos as int), n as nat));
    Some(words)
}

/// Appends the bytes of `more`.
pub fn write_bytes(out: &mut Vec<u8>, more: &[u8])
    ensures
        final(out)@ == old(out)@ + more@,
{
    let ghost start = out@;
    let mut i: usize = 0;
    while i < more.len()
        invariant
            i <= more@.len(),
            out@ == start + more@.take(i as int),
        decreases more@.len() - i,
    {
        out.push(more[i]);
        assert(start + more@.take(i + 1) =~= (start + more@.take(i as int)).push(more@[i as int]));
        i = i + 1;
    }
    assert(more@.take(more@.len() as int) =~= more@);
}

/// The `n` bytes from `pos` on, or nothing where the bytes end before them.
pub fn read_bytes(bytes: &[u8], pos: usize, n: usize) -> (r: Option<Vec<u8>>)
    requires
        pos <= bytes@.len(),
    ensures
        match r {
            Some(v) => n <= bytes@.len() - pos && v@ == bytes@.subrange(pos as int, pos + n),
            None => n > bytes@.len() - pos,
        },
{
    if n > bytes.len() - pos {
        return None;
    }
    let mut v: Vec<u8> = Vec::new();
    let mut i: usize = 0;
    while i < n
        invariant
            i <= n,
            pos <= bytes@.len() <= usize::MAX,
            n <= bytes@.len() - pos,
            v@ == bytes@.subrange(pos as int, pos + i),
        decreases n - i,
    {
        v.push(bytes[pos + i]);
        assert(v@ =~= bytes@.subrange(pos as int, pos + i + 1));
        i = i + 1;
    }
    Some(v)
}

} // verus!
