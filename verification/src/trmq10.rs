//! The TRMQ10 deployment bundle: two-bit ternary matrices beside dense FP32 leftovers.
//!
//! A bundle file is, in this order: the magic, a version, ten header words, the packed
//! matrices in name order and the dense tensors in name order. All numbers are little-endian;
//! FP32 values are carried as their bit patterns.

use crate::named;
use crate::named::NameMap;
use crate::network::NetworkConfig;
use crate::quantize::{PackModel, TernaryPacked};
use crate::recursion::{ModelConfig, TrmConfig};
use crate::tensor;
use crate::tensor::{DenseModel, DenseTensor};
use crate::wire;
use vstd::prelude::*;
use vstd::utf8::*;

verus! {

/// The first six bytes of every bundle: `TRMQ10`.
pub const MAGIC: [u8; 6] = [84, 82, 77, 81, 49, 48];

/// The one version of the format.
pub const VERSION: u16 = 1;

/// The header words of a bundle.
#[derive(Debug, Clone, Copy, PartialEq, Eq, Structural)]
pub struct TrmqHeader {
    pub dim: u32,
    pub heads: u32,
    pub max_seq: u32,
    pub vocab: u32,
    pub layers: u32,
    pub z_seq: u32,
    pub n_l: u32,
    pub n_sup: u32,
    pub max_puzzles: u32,
    pub flags: u32,
}

/// The magic as a sequence.
pub open spec fn magic() -> Seq<u8> {
    seq![84u8, 82, 77, 81, 49, 48]
}

impl TrmqHeader {
    /// The header words in file order.
    pub open spec fn words(self) -> Seq<u32> {
        seq![
            self.dim,
            self.heads,
            self.max_seq,
            self.vocab,
            self.layers,
            self.z_seq,
            self.n_l,
            self.n_sup,
            self.max_puzzles,
            self.flags,
        ]
    }
}

/// The header whose words are `w`.
pub open spec fn header_of(w: Seq<u32>) -> TrmqHeader {
    TrmqHeader {
        dim: w[0],
        heads: w[1],
        max_seq: w[2],
        vocab: w[3],
        layers: w[4],
        z_seq: w[5],
        n_l: w[6],
        n_sup: w[7],
        max_puzzles: w[8],
        flags: w[9],
    }
}

/// What a bundle holds.
#[verifier::ext_equal]
pub struct BundleModel {
    pub header: TrmqHeader,
    pub quantized: Seq<(Seq<char>, PackModel<u32>)>,
    pub fp32: Seq<(Seq<char>, DenseModel<u32>)>,
}

/// Why bytes are no bundle.
pub enum Fault {
    UnexpectedEof,
    NotTrmq10,
    UnsupportedVersion(u16),
    InvalidName,
    ShapeMismatch(Seq<char>),
}

/// The bytes of a name: its length in bytes, then its UTF-8 encoding.
#[verifier::opaque]
pub open spec fn name_bytes(name: Seq<char>) -> Seq<u8> {
    wire::u32_bytes(encode_utf8(name).len() as u32) + encode_utf8(name)
}

/// The bytes of a packed matrix.
pub open spec fn pack_bytes(e: (Seq<char>, PackModel<u32>)) -> Seq<u8> {
    name_bytes(e.0) + (wire::u32_bytes(e.1.out_dim as u32) + (wire::u32_bytes(e.1.in_dim as u32) + (wire::u32_bytes(
        e.1.alphas.len() as u32,
    ) + (wire::words_bytes(e.1.alphas) + (wire::u32_bytes(e.1.packed.len() as u32) + e.1.packed)))))
}

/// The dimensions as words.
pub open spec fn dim_words(dims: Seq<usize>) -> Seq<u32> {
    Seq::new(dims.len(), |i: int| dims[i] as u32)
}

/// The bytes of a dense tensor.
pub open spec fn dense_bytes(e: (Seq<char>, DenseModel<u32>)) -> Seq<u8> {
    name_bytes(e.0) + (wire::u32_bytes(e.1.dims.len() as u32) + (wire::words_bytes(dim_words(e.1.dims)) + (
    wire::u32_bytes(e.1.data.len() as u32) + wire::words_bytes(e.1.data))))
}

/// The bytes of the packed matrices, one after the other.
pub open spec fn packs_bytes(s: Seq<(Seq<char>, PackModel<u32>)>) -> Seq<u8>
    decreases s.len(),
{
    if s.len() == 0 {
        Seq::empty()
    } else {
        pack_bytes(s[0]) + packs_bytes(s.drop_first())
    }
}

/// The bytes of the dense tensors, one after the other.
pub open spec fn denses_bytes(s: Seq<(Seq<char>, DenseModel<u32>)>) -> Seq<u8>
    decreases s.len(),
{
    if s.len() == 0 {
        Seq::empty()
    } else {
        dense_bytes(s[0]) + denses_bytes(s.drop_first())
    }
}

/// The bytes of a bundle.
pub open spec fn bundle_bytes(b: BundleModel) -> Seq<u8> {
    magic() + (wire::u16_bytes(VERSION) + (wire::words_bytes(b.header.words()) + (wire::u32_bytes(
        b.quantized.len() as u32,
    ) + (packs_bytes(b.quantized) + (wire::u32_bytes(b.fp32.len() as u32) + denses_bytes(b.fp32))))))
}

/// The word at the front of `b` and what follows it.
#[verifier::opaque]
pub open spec fn take_u32(b: Seq<u8>) -> Option<(u32, Seq<u8>)> {
    if b.len() >= 4 {
        Some((wire::u32_value(b.take(4)), b.skip(4)))
    } else {
        None
    }
}

/// The `n` bytes at the front of `b` and what follows them.
#[verifier::opaque]
pub open spec fn take_bytes(b: Seq<u8>, n: nat) -> Option<(Seq<u8>, Seq<u8>)> {
    if b.len() >= n {
        Some((b.take(n as int), b.skip(n as int)))
    } else {
        None
    }
}

/// The `n` words at the front of `b` and what follows them.
#[verifier::opaque]
pub open spec fn take_words(b: Seq<u8>, n: nat) -> Option<(Seq<u32>, Seq<u8>)> {
    if b.len() >= 4 * n {
        Some((wire::words_value(b, n), b.skip(4 * n as int)))
    } else {
        None
    }
}

/// The name at the front of `b`.
#[verifier::opaque]
pub open spec fn parse_name(b: Seq<u8>) -> Result<(Seq<char>, Seq<u8>), Fault> {
    match take_u32(b) {
        None => Err(Fault::UnexpectedEof),
        Some((n, b1)) => match take_bytes(b1, n as nat) {
            None => Err(Fault::UnexpectedEof),
            Some((raw, b2)) => if valid_utf8(raw) {
                Ok((decode_utf8(raw), b2))
            } else {
                Err(Fault::InvalidName)
            },
        },
    }
}

/// A counted run of words at the front of `b`.
#[verifier::opaque]
pub open spec fn parse_counted_words(b: Seq<u8>) -> Option<(Seq<u32>, Seq<u8>)> {
    match take_u32(b) {
        None => None,
        Some((n, b1)) => take_words(b1, n as nat),
    }
}

/// A counted run of bytes at the front of `b`.
#[verifier::opaque]
pub open spec fn parse_counted_bytes(b: Seq<u8>) -> Option<(Seq<u8>, Seq<u8>)> {
    match take_u32(b) {
        None => None,
        Some((n, b1)) => take_bytes(b1, n as nat),
    }
}

/// The packed matrix at the front of `b`.
#[verifier::opaque]
pub open spec fn parse_pack(b: Seq<u8>) -> Result<
    ((Seq<char>, PackModel<u32>), Seq<u8>),
    Fault,
> {
    match parse_name(b) {
        Err(e) => Err(e),
        Ok((name, b1)) => match take_u32(b1) {
            None => Err(Fault::UnexpectedEof),
            Some((out_dim, b2)) => match take_u32(b2) {
                None => Err(Fault::UnexpectedEof),
                Some((in_dim, b3)) => match parse_counted_words(b3) {
                    None => Err(Fault::UnexpectedEof),
                    Some((alphas, b4)) => match parse_counted_bytes(b4) {
                        None => Err(Fault::UnexpectedEof),
                        Some((packed, b5)) => Ok(
                            (
                                (
                                    name,
                                    PackModel {
                                        out_dim: out_dim as usize,
                                        in_dim: in_dim as usize,
                                        packed,
                                        alphas,
                                    },
                                ),
                                b5,
                            ),
                        ),
                    },
                },
            },
        },
    }
}

/// Words read as dimensions.
pub open spec fn word_dims(words: Seq<u32>) -> Seq<usize> {
    Seq::new(words.len(), |i: int| words[i] as usize)
}

/// The dense tensor at the front of `b`. Its dimensions must account for its elements.
#[verifier::opaque]
pub open spec fn parse_dense(b: Seq<u8>) -> Result<
    ((Seq<char>, DenseModel<u32>), Seq<u8>),
    Fault,
> {
    match parse_name(b) {
        Err(e) => Err(e),
        Ok((name, b1)) => match parse_counted_words(b1) {
            None => Err(Fault::UnexpectedEof),
            Some((dims, b2)) => match parse_counted_words(b2) {
                None => Err(Fault::UnexpectedEof),
                Some((data, b3)) => {
                    let t = DenseModel { dims: word_dims(dims), data };
                    if t.wf() {
                        Ok(((name, t), b3))
                    } else {
                        Err(Fault::ShapeMismatch(name))
                    }
                },
            },
        },
    }
}

/// `n` packed matrices from the front of `b`, put into `acc` one by one.
pub open spec fn parse_packs(
    b: Seq<u8>,
    n: nat,
    acc: Seq<(Seq<char>, PackModel<u32>)>,
) -> Result<(Seq<(Seq<char>, PackModel<u32>)>, Seq<u8>), Fault>
    decreases n,
{
    if n == 0 {
        Ok((acc, b))
    } else {
        match parse_pack(b) {
            Err(e) => Err(e),
            Ok((e, rest)) => parse_packs(rest, (n - 1) as nat, named::inserted(acc, e.0, e.1)),
        }
    }
}

/// `n` dense tensors from the front of `b`, put into `acc` one by one.
pub open spec fn parse_denses(
    b: Seq<u8>,
    n: nat,
    acc: Seq<(Seq<char>, DenseModel<u32>)>,
) -> Result<(Seq<(Seq<char>, DenseModel<u32>)>, Seq<u8>), Fault>
    decreases n,
{
    if n == 0 {
        Ok((acc, b))
    } else {
        match parse_dense(b) {
            Err(e) => Err(e),
            Ok((e, rest)) => parse_denses(rest, (n - 1) as nat, named::inserted(acc, e.0, e.1)),
        }
    }
}

/// The header and both tables at the front of `b`. Bytes after them are not looked at.
#[verifier::opaque]
pub open spec fn parse_body(b: Seq<u8>) -> Result<BundleModel, Fault> {
    match take_words(b, 10) {
        None => Err(Fault::UnexpectedEof),
        Some((words, b1)) => match take_u32(b1) {
            None => Err(Fault::UnexpectedEof),
            Some((n_q, b2)) => match parse_packs(b2, n_q as nat, Seq::empty()) {
                Err(e) => Err(e),
                Ok((quantized, b3)) => match take_u32(b3) {
                    None => Err(Fault::UnexpectedEof),
                    Some((n_fp, b4)) => match parse_denses(b4, n_fp as nat, Seq::empty()) {
                        Err(e) => Err(e),
                        Ok((fp32, _)) => Ok(
                            BundleModel { header: header_of(words), quantized, fp32 },
                        ),
                    },
                },
            },
        },
    }
}

/// The bundle that `b` starts with.
pub open spec fn parse_bundle(b: Seq<u8>) -> Result<BundleModel, Fault> {
    if b.len() < 6 {
        Err(Fault::UnexpectedEof)
    } else if b.take(6) != magic() {
        Err(Fault::NotTrmq10)
    } else if b.len() < 8 {
        Err(Fault::UnexpectedEof)
    } else if wire::u16_value(b.subrange(6, 8)) != VERSION {
        Err(Fault::UnsupportedVersion(wire::u16_value(b.subrange(6, 8))))
    } else {
        parse_body(b.skip(8))
    }
}

/// Every length and dimension of the matrix fits a header word.
pub open spec fn pack_fits(e: (Seq<char>, PackModel<u32>)) -> bool {
    &&& encode_utf8(e.0).len() <= u32::MAX
    &&& e.1.out_dim <= u32::MAX
    &&& e.1.in_dim <= u32::MAX
    &&& e.1.alphas.len() <= u32::MAX
    &&& e.1.packed.len() <= u32::MAX
}

/// Every length and dimension of the tensor fits a header word, and it is well formed.
pub open spec fn dense_fits(e: (Seq<char>, DenseModel<u32>)) -> bool {
    &&& encode_utf8(e.0).len() <= u32::MAX
    &&& e.1.dims.len() <= u32::MAX
    &&& forall|i: int| 0 <= i < e.1.dims.len() ==> #[trigger] e.1.dims[i] <= u32::MAX
    &&& e.1.data.len() <= u32::MAX
    &&& e.1.wf()
}

/// A bundle that the format can carry: sorted tables whose entries all fit.
pub open spec fn bundle_fits(b: BundleModel) -> bool {
    &&& named::sorted(b.quantized)
    &&& named::sorted(b.fp32)
    &&& b.quantized.len() <= u32::MAX
    &&& b.fp32.len() <= u32::MAX
    &&& forall|i: int| 0 <= i < b.quantized.len() ==> pack_fits(#[trigger] b.quantized[i])
    &&& forall|i: int| 0 <= i < b.fp32.len() ==> dense_fits(#[trigger] b.fp32[i])
}

proof fn regroup(a: Seq<u8>, b: Seq<u8>, c: Seq<u8>)
    ensures
        (a + b) + c == a + (b + c),
{
    assert((a + b) + c =~= a + (b + c));
}

proof fn take_u32_of(x: u32, rest: Seq<u8>)
    ensures
        take_u32(wire::u32_bytes(x) + rest) == Some((x, rest)),
{
    reveal(take_u32);
    let b = wire::u32_bytes(x) + rest;
    wire::u32_round_trip(x);
    assert(b.take(4) =~= wire::u32_bytes(x));
    assert(b.skip(4) =~= rest);
}

proof fn take_words_of(words: Seq<u32>, rest: Seq<u8>)
    ensures
        take_words(wire::words_bytes(words) + rest, words.len()) == Some((words, rest)),
{
    reveal(take_words);
    let b = wire::words_bytes(words) + rest;
    wire::words_bytes_len(words);
    wire::words_round_trip(words, rest);
    assert(b.skip(4 * words.len() as int) =~= rest);
}

proof fn take_bytes_of(raw: Seq<u8>, rest: Seq<u8>)
    ensures
        take_bytes(raw + rest, raw.len()) == Some((raw, rest)),
{
    reveal(take_bytes);
    let b = raw + rest;
    assert(b.take(raw.len() as int) =~= raw);
    assert(b.skip(raw.len() as int) =~= rest);
}

proof fn name_round_trip(name: Seq<char>, rest: Seq<u8>)
    requires
        encode_utf8(name).len() <= u32::MAX,
    ensures
        parse_name(name_bytes(name) + rest) == Ok::<(Seq<char>, Seq<u8>), Fault>((name, rest)),
{
    reveal(name_bytes);
    reveal(parse_name);
    let raw = encode_utf8(name);
    let b = name_bytes(name) + rest;
    assert(b =~= wire::u32_bytes(raw.len() as u32) + (raw + rest));
    take_u32_of(raw.len() as u32, raw + rest);
    take_bytes_of(raw, rest);
    encode_utf8_valid_utf8(name);
    encode_utf8_decode_utf8(name);
}

proof fn counted_words_round_trip(words: Seq<u32>, rest: Seq<u8>)
    requires
        words.len() <= u32::MAX,
    ensures
        parse_counted_words(wire::u32_bytes(words.len() as u32) + (wire::words_bytes(words) + rest)) == Some(
            (words, rest),
        ),
{
    reveal(parse_counted_words);
    take_u32_of(words.len() as u32, wire::words_bytes(words) + rest);
    take_words_of(words, rest);
}

proof fn counted_bytes_round_trip(raw: Seq<u8>, rest: Seq<u8>)
    requires
        raw.len() <= u32::MAX,
    ensures
        parse_counted_bytes(wire::u32_bytes(raw.len() as u32) + (raw + rest)) == Some((raw, rest)),
{
    reveal(parse_counted_bytes);
    take_u32_of(raw.len() as u32, raw + rest);
    take_bytes_of(raw, rest);
}

proof fn pack_round_trip(e: (Seq<char>, PackModel<u32>), rest: Seq<u8>)
    requires
        pack_fits(e),
    ensures
        parse_pack(pack_bytes(e) + rest) == Ok::<
            ((Seq<char>, PackModel<u32>), Seq<u8>),
            Fault,
        >((e, rest)),
{
    reveal(parse_pack);
    let p = e.1;
    let t5 = wire::u32_bytes(p.packed.len() as u32) + (p.packed + rest);
    let t4 = wire::u32_bytes(p.alphas.len() as u32) + (wire::words_bytes(p.alphas) + t5);
    let t3 = wire::u32_bytes(p.in_dim as u32) + t4;
    let t2 = wire::u32_bytes(p.out_dim as u32) + t3;
    let s5 = wire::u32_bytes(p.packed.len() as u32) + p.packed;
    let s4 = wire::words_bytes(p.alphas) + s5;
    let s3 = wire::u32_bytes(p.alphas.len() as u32) + s4;
    let s2 = wire::u32_bytes(p.in_dim as u32) + s3;
    let s1 = wire::u32_bytes(p.out_dim as u32) + s2;
    regroup(wire::u32_bytes(p.packed.len() as u32), p.packed, rest);
    regroup(wire::words_bytes(p.alphas), s5, rest);
    regroup(wire::u32_bytes(p.alphas.len() as u32), s4, rest);
    regroup(wire::u32_bytes(p.in_dim as u32), s3, rest);
    regroup(wire::u32_bytes(p.out_dim as u32), s2, rest);
    regroup(name_bytes(e.0), s1, rest);
    name_round_trip(e.0, t2);
    take_u32_of(p.out_dim as u32, t3);
    take_u32_of(p.in_dim as u32, t4);
    counted_words_round_trip(p.alphas, t5);
    counted_bytes_round_trip(p.packed, rest);
}

proof fn dense_round_trip(e: (Seq<char>, DenseModel<u32>), rest: Seq<u8>)
    requires
        dense_fits(e),
    ensures
        parse_dense(dense_bytes(e) + rest) == Ok::<
            ((Seq<char>, DenseModel<u32>), Seq<u8>),
            Fault,
        >((e, rest)),
{
    reveal(parse_dense);
    let t = e.1;
    let t3 = wire::u32_bytes(t.data.len() as u32) + (wire::words_bytes(t.data) + rest);
    let t2 = wire::u32_bytes(t.dims.len() as u32) + (wire::words_bytes(dim_words(t.dims)) + t3);
    let s3 = wire::u32_bytes(t.data.len() as u32) + wire::words_bytes(t.data);
    let s2 = wire::words_bytes(dim_words(t.dims)) + s3;
    let s1 = wire::u32_bytes(t.dims.len() as u32) + s2;
    regroup(wire::u32_bytes(t.data.len() as u32), wire::words_bytes(t.data), rest);
    regroup(wire::words_bytes(dim_words(t.dims)), s3, rest);
    regroup(wire::u32_bytes(t.dims.len() as u32), s2, rest);
    regroup(name_bytes(e.0), s1, rest);
    name_round_trip(e.0, t2);
    counted_words_round_trip(dim_words(t.dims), t3);
    counted_words_round_trip(t.data, rest);
    assert(word_dims(dim_words(t.dims)) =~= t.dims);
}

proof fn packs_round_trip(s: Seq<(Seq<char>, PackModel<u32>)>, i: int, rest: Seq<u8>)
    requires
        named::sorted(s),
        0 <= i <= s.len(),
        forall|j: int| 0 <= j < s.len() ==> pack_fits(#[trigger] s[j]),
    ensures
        parse_packs(packs_bytes(s.skip(i)) + rest, (s.len() - i) as nat, s.take(i)) == Ok::<
            (Seq<(Seq<char>, PackModel<u32>)>, Seq<u8>),
            Fault,
        >((s, rest)),
    decreases s.len() - i,
{
    if i == s.len() {
        assert(s.take(i) =~= s);
        assert(packs_bytes(s.skip(i)) + rest =~= rest);
    } else {
        let tail = packs_bytes(s.skip(i + 1)) + rest;
        assert(s.skip(i).drop_first() =~= s.skip(i + 1));
        assert(packs_bytes(s.skip(i)) + rest =~= pack_bytes(s[i]) + tail);
        pack_round_trip(s[i], tail);
        named::append_is_insert(s, i);
        packs_round_trip(s, i + 1, rest);
    }
}

proof fn denses_round_trip(s: Seq<(Seq<char>, DenseModel<u32>)>, i: int, rest: Seq<u8>)
    requires
        named::sorted(s),
        0 <= i <= s.len(),
        forall|j: int| 0 <= j < s.len() ==> dense_fits(#[trigger] s[j]),
    ensures
        parse_denses(denses_bytes(s.skip(i)) + rest, (s.len() - i) as nat, s.take(i)) == Ok::<
            (Seq<(Seq<char>, DenseModel<u32>)>, Seq<u8>),
            Fault,
        >((s, rest)),
    decreases s.len() - i,
{
    if i == s.len() {
        assert(s.take(i) =~= s);
        assert(denses_bytes(s.skip(i)) + rest =~= rest);
    } else {
        let tail = denses_bytes(s.skip(i + 1)) + rest;
        assert(s.skip(i).drop_first() =~= s.skip(i + 1));
        assert(denses_bytes(s.skip(i)) + rest =~= dense_bytes(s[i]) + tail);
        dense_round_trip(s[i], tail);
        named::append_is_insert(s, i);
        denses_round_trip(s, i + 1, rest);
    }
}

proof fn prefix_parts(body: Seq<u8>)
    ensures
        ({
            let all = magic() + (wire::u16_bytes(VERSION) + body);
            &&& all.len() >= 8
            &&& all.take(6) == magic()
            &&& wire::u16_value(all.subrange(6, 8)) == VERSION
            &&& all.skip(8) == body
        }),
{
    let all = magic() + (wire::u16_bytes(VERSION) + body);
    wire::u16_round_trip(VERSION);
    assert(all.take(6) =~= magic());
    assert(all.subrange(6, 8) =~= wire::u16_bytes(VERSION));
    assert(all.skip(8) =~= body);
}

/// Reading a written bundle back gives the bundle, whatever bytes follow it.
pub proof fn bundle_round_trip(b: BundleModel, rest: Seq<u8>)
    requires
        bundle_fits(b),
    ensures
        parse_bundle(bundle_bytes(b) + rest) == Ok::<BundleModel, Fault>(b),
{
    reveal(parse_body);
    let t5 = wire::u32_bytes(b.fp32.len() as u32) + (denses_bytes(b.fp32) + rest);
    let t4 = wire::u32_bytes(b.quantized.len() as u32) + (packs_bytes(b.quantized) + t5);
    let t3 = wire::words_bytes(b.header.words()) + t4;
    let all = bundle_bytes(b) + rest;
    let s5 = wire::u32_bytes(b.fp32.len() as u32) + denses_bytes(b.fp32);
    let s4 = packs_bytes(b.quantized) + s5;
    let s3 = wire::u32_bytes(b.quantized.len() as u32) + s4;
    let s2 = wire::words_bytes(b.header.words()) + s3;
    let s1 = wire::u16_bytes(VERSION) + s2;
    regroup(wire::u32_bytes(b.fp32.len() as u32), denses_bytes(b.fp32), rest);
    regroup(packs_bytes(b.quantized), s5, rest);
    regroup(wire::u32_bytes(b.quantized.len() as u32), s4, rest);
    regroup(wire::words_bytes(b.header.words()), s3, rest);
    regroup(wire::u16_bytes(VERSION), s2, rest);
    regroup(magic(), s1, rest);
    prefix_parts(t3);
    take_words_of(b.header.words(), t4);
    assert(header_of(b.header.words()) == b.header);
    take_u32_of(b.quantized.len() as u32, packs_bytes(b.quantized) + t5);
    packs_round_trip(b.quantized, 0, t5);
    assert(b.quantized.skip(0) =~= b.quantized);
    assert(b.quantized.take(0) =~= Seq::empty());
    take_u32_of(b.fp32.len() as u32, denses_bytes(b.fp32) + rest);
    denses_round_trip(b.fp32, 0, rest);
    assert(b.fp32.skip(0) =~= b.fp32);
    assert(b.fp32.take(0) =~= Seq::empty());
}

/// Two different bundles that the format can carry are written differently.
pub proof fn bundle_bytes_injective(a: BundleModel, b: BundleModel)
    requires
        bundle_fits(a),
        bundle_fits(b),
        bundle_bytes(a) == bundle_bytes(b),
    ensures
        a == b,
{
    bundle_round_trip(a, Seq::empty());
    bundle_round_trip(b, Seq::empty());
}

/// A bundle in memory.
#[derive(Debug, Clone)]
pub struct Bundle {
    pub header: TrmqHeader,
    pub quantized: NameMap<TernaryPacked<u32>>,
    pub fp32: NameMap<DenseTensor<u32>>,
}

impl View for Bundle {
    type V = BundleModel;

    open spec fn view(&self) -> BundleModel {
        BundleModel {
            header: self.header,
            quantized: named::modelled(self.quantized@),
            fp32: named::modelled(self.fp32@),
        }
    }
}

/// Why bytes could not be read as a bundle.
#[derive(Debug, Clone, PartialEq, Eq)]
pub enum LoadError {
    UnexpectedEof,
    NotTrmq10,
    UnsupportedVersion(u16),
    InvalidName,
    ShapeMismatch(String),
}

impl View for LoadError {
    type V = Fault;

    open spec fn view(&self) -> Fault {
        match self {
            LoadError::UnexpectedEof => Fault::UnexpectedEof,
            LoadError::NotTrmq10 => Fault::NotTrmq10,
            LoadError::UnsupportedVersion(v) => Fault::UnsupportedVersion(*v),
            LoadError::InvalidName => Fault::InvalidName,
            LoadError::ShapeMismatch(name) => Fault::ShapeMismatch(name@),
        }
    }
}

/// What a reader at `pos` of `bytes` returns: what `parsed` gives of the bytes from there on.
pub open spec fn reads<T: View>(
    bytes: Seq<u8>,
    pos: int,
    r: Result<(T, usize), LoadError>,
    parsed: Result<(T::V, Seq<u8>), Fault>,
) -> bool {
    match r {
        Ok((v, next)) => pos <= next <= bytes.len() && parsed == Ok::<(T::V, Seq<u8>), Fault>(
            (v@, bytes.skip(next as int)),
        ),
        Err(e) => parsed == Err::<(T::V, Seq<u8>), Fault>(e@),
    }
}

fn read_word(bytes: &[u8], pos: usize) -> (r: Option<(u32, usize)>)
    requires
        pos <= bytes@.len(),
    ensures
        match r {
            Some((w, next)) => pos <= next <= bytes@.len() && take_u32(bytes@.skip(pos as int))
                == Some((w, bytes@.skip(next as int))),
            None => take_u32(bytes@.skip(pos as int)) is None,
        },
{
    reveal(take_u32);
    let n: usize = bytes.len();
    match wire::read_u32(bytes, pos) {
        Some(w) => {
            assert(bytes@.skip(pos as int).take(4) =~= bytes@.subrange(pos as int, pos + 4));
            assert(bytes@.skip(pos as int).skip(4) =~= bytes@.skip(pos + 4));
            Some((w, pos + 4))
        },
        None => None,
    }
}

fn read_counted_words(bytes: &[u8], pos: usize) -> (r: Option<(Vec<u32>, usize)>)
    requires
        pos <= bytes@.len(),
    ensures
        match r {
            Some((words, next)) => pos <= next <= bytes@.len() && parse_counted_words(
                bytes@.skip(pos as int),
            ) == Some((words@, bytes@.skip(next as int))),
            None => parse_counted_words(bytes@.skip(pos as int)) is None,
        },
{
    reveal(parse_counted_words);
    reveal(take_words);
    match read_word(bytes, pos) {
        Some((n, at)) => {
            let len: usize = bytes.len();
            match wire::read_words(bytes, at, n as usize) {
                Some(words) => {
                    assert(bytes@.skip(at as int).skip(4 * n as int) =~= bytes@.skip(at + 4 * n));
                    Some((words, at + 4 * (n as usize)))
                },
                None => None,
            }
        },
        None => None,
    }
}

fn read_counted_bytes(bytes: &[u8], pos: usize) -> (r: Option<(Vec<u8>, usize)>)
    requires
        pos <= bytes@.len(),
    ensures
        match r {
            Some((raw, next)) => pos <= next <= bytes@.len() && parse_counted_bytes(
                bytes@.skip(pos as int),
            ) == Some((raw@, bytes@.skip(next as int))),
            None => parse_counted_bytes(bytes@.skip(pos as int)) is None,
        },
{
    reveal(parse_counted_bytes);
    reveal(take_bytes);
    match read_word(bytes, pos) {
        Some((n, at)) => {
            let len: usize = bytes.len();
            match wire::read_bytes(bytes, at, n as usize) {
                Some(raw) => {
                    assert(bytes@.skip(at as int).skip(n as int) =~= bytes@.skip(at + n));
                    assert(bytes@.skip(at as int).take(n as int) =~= raw@);
                    Some((raw, at + n as usize))
                },
                None => None,
            }
        },
        None => None,
    }
}

/// The name at `pos`: a counted run of bytes that must be UTF-8.
pub fn read_name(bytes: &[u8], pos: usize) -> (r: Result<(String, usize), LoadError>)
    requires
        pos <= bytes@.len(),
    ensures
        reads(bytes@, pos as int, r, parse_name(bytes@.skip(pos as int))),
{
    reveal(parse_name);
    reveal(parse_counted_bytes);
    match read_counted_bytes(bytes, pos) {
        Some((raw, next)) => match wire::text_from_utf8(raw) {
            Some(name) => Ok((name, next)),
            None => Err(LoadError::InvalidName),
        },
        None => Err(LoadError::UnexpectedEof),
    }
}

fn read_pack(bytes: &[u8], pos: usize) -> (r: Result<
    (String, TernaryPacked<u32>, usize),
    LoadError,
>)
    requires
        pos <= bytes@.len(),
    ensures
        match r {
            Ok((name, pack, next)) => pos <= next <= bytes@.len() && parse_pack(
                bytes@.skip(pos as int),
            ) == Ok::<((Seq<char>, PackModel<u32>), Seq<u8>), Fault>(
                ((name@, pack@), bytes@.skip(next as int)),
            ),
            Err(e) => parse_pack(bytes@.skip(pos as int)) == Err::<
                ((Seq<char>, PackModel<u32>), Seq<u8>),
                Fault,
            >(e@),
        },
{
    reveal(parse_pack);
    let (name, p1) = match read_name(bytes, pos) {
        Ok(v) => v,
        Err(e) => {
            return Err(e);
        },
    };
    let (out_dim, p2) = match read_word(bytes, p1) {
        Some(v) => v,
        None => {
            return Err(LoadError::UnexpectedEof);
        },
    };
    let (in_dim, p3) = match read_word(bytes, p2) {
        Some(v) => v,
        None => {
            return Err(LoadError::UnexpectedEof);
        },
    };
    let (alphas, p4) = match read_counted_words(bytes, p3) {
        Some(v) => v,
        None => {
            return Err(LoadError::UnexpectedEof);
        },
    };
    let (packed, p5) = match read_counted_bytes(bytes, p4) {
        Some(v) => v,
        None => {
            return Err(LoadError::UnexpectedEof);
        },
    };
    let pack = TernaryPacked {
        out_dim: out_dim as usize,
        in_dim: in_dim as usize,
        packed,
        alphas,
    };
    Ok((name, pack, p5))
}

fn dims_of_words(words: &Vec<u32>) -> (r: Vec<usize>)
    ensures
        r@ == word_dims(words@),
{
    let mut dims: Vec<usize> = Vec::new();
    let mut i: usize = 0;
    while i < words.len()
        invariant
            i <= words@.len(),
            dims@.len() == i,
            forall|j: int| 0 <= j < i ==> dims@[j] == words@[j] as usize,
        decreases words@.len() - i,
    {
        dims.push(words[i] as usize);
        i = i + 1;
    }
    assert(dims@ =~= word_dims(words@));
    dims
}

fn read_dense(bytes: &[u8], pos: usize) -> (r: Result<
    (String, DenseTensor<u32>, usize),
    LoadError,
>)
    requires
        pos <= bytes@.len(),
    ensures
        match r {
            Ok((name, t, next)) => pos <= next <= bytes@.len() && parse_dense(
                bytes@.skip(pos as int),
            ) == Ok::<((Seq<char>, DenseModel<u32>), Seq<u8>), Fault>(
                ((name@, t@), bytes@.skip(next as int)),
            ),
            Err(e) => parse_dense(bytes@.skip(pos as int)) == Err::<
                ((Seq<char>, DenseModel<u32>), Seq<u8>),
                Fault,
            >(e@),
        },
{
    reveal(parse_dense);
    let (name, p1) = match read_name(bytes, pos) {
        Ok(v) => v,
        Err(e) => {
            return Err(e);
        },
    };
    let (words, p2) = match read_counted_words(bytes, p1) {
        Some(v) => v,
        None => {
            return Err(LoadError::UnexpectedEof);
        },
    };
    let (data, p3) = match read_counted_words(bytes, p2) {
        Some(v) => v,
        None => {
            return Err(LoadError::UnexpectedEof);
        },
    };
    let dims = dims_of_words(&words);
    if !tensor::fills(&dims, data.len()) {
        return Err(LoadError::ShapeMismatch(name));
    }
    Ok((name, DenseTensor { dims, data }, p3))
}

fn read_packs(bytes: &[u8], pos: usize, n: u32) -> (r: Result<
    (NameMap<TernaryPacked<u32>>, usize),
    LoadError,
>)
    requires
        pos <= bytes@.len(),
    ensures
        match r {
            Ok((m, next)) => m.wf() && pos <= next <= bytes@.len() && parse_packs(
                bytes@.skip(pos as int),
                n as nat,
                Seq::empty(),
            ) == Ok::<(Seq<(Seq<char>, PackModel<u32>)>, Seq<u8>), Fault>(
                (named::modelled(m@), bytes@.skip(next as int)),
            ),
            Err(e) => parse_packs(bytes@.skip(pos as int), n as nat, Seq::empty()) == Err::<
                (Seq<(Seq<char>, PackModel<u32>)>, Seq<u8>),
                Fault,
            >(e@),
        },
{
    let ghost whole = parse_packs(bytes@.skip(pos as int), n as nat, Seq::empty());
    let mut m: NameMap<TernaryPacked<u32>> = NameMap::new();
    let mut at: usize = pos;
    let mut i: u32 = 0;
    assert(named::modelled(m@) =~= Seq::empty());
    while i < n
        invariant
            i <= n,
            pos <= at <= bytes@.len(),
            m.wf(),
            whole == parse_packs(bytes@.skip(pos as int), n as nat, Seq::empty()),
            whole == parse_packs(
                bytes@.skip(at as int),
                (n - i) as nat,
                named::modelled(m@),
            ),
        decreases n - i,
    {
        match read_pack(bytes, at) {
            Ok((name, pack, next)) => {
                proof {
                    named::modelled_inserted(m@, name@, pack);
                }
                m.insert(name, pack);
                at = next;
            },
            Err(e) => {
                return Err(e);
            },
        }
        i = i + 1;
    }
    Ok((m, at))
}

fn read_denses(bytes: &[u8], pos: usize, n: u32) -> (r: Result<
    (NameMap<DenseTensor<u32>>, usize),
    LoadError,
>)
    requires
        pos <= bytes@.len(),
    ensures
        match r {
            Ok((m, next)) => m.wf() && pos <= next <= bytes@.len() && parse_denses(
                bytes@.skip(pos as int),
                n as nat,
                Seq::empty(),
            ) == Ok::<(Seq<(Seq<char>, DenseModel<u32>)>, Seq<u8>), Fault>(
                (named::modelled(m@), bytes@.skip(next as int)),
            ),
            Err(e) => parse_denses(bytes@.skip(pos as int), n as nat, Seq::empty()) == Err::<
                (Seq<(Seq<char>, DenseModel<u32>)>, Seq<u8>),
                Fault,
            >(e@),
        },
{
    let ghost whole = parse_denses(bytes@.skip(pos as int), n as nat, Seq::empty());
    let mut m: NameMap<DenseTensor<u32>> = NameMap::new();
    let mut at: usize = pos;
    let mut i: u32 = 0;
    assert(named::modelled(m@) =~= Seq::empty());
    while i < n
        invariant
            i <= n,
            pos <= at <= bytes@.len(),
            m.wf(),
            whole == parse_denses(bytes@.skip(pos as int), n as nat, Seq::empty()),
            whole == parse_denses(
                bytes@.skip(at as int),
                (n - i) as nat,
                named::modelled(m@),
            ),
        decreases n - i,
    {
        match read_dense(bytes, at) {
            Ok((name, t, next)) => {
                proof {
                    named::modelled_inserted(m@, name@, t);
                }
                m.insert(name, t);
                at = next;
            },
            Err(e) => {
                return Err(e);
            },
        }
        i = i + 1;
    }
    Ok((m, at))
}

/// Whether a file that starts with `bytes` is a bundle by its magic.
pub fn is_trmq10(bytes: &[u8]) -> (r: bool)
    ensures
        r == (bytes@.len() >= 6 && bytes@.take(6) == magic()),
{
    if bytes.len() < 6 {
        return false;
    }
    let r = bytes[0] == 84 && bytes[1] == 82 && bytes[2] == 77 && bytes[3] == 81 && bytes[4] == 49
        && bytes[5] == 48;
    proof {
        let front = bytes@.take(6);
        assert(front.len() == 6);
        if r {
            assert(front =~= magic());
        } else {
            assert(front[0] != magic()[0] || front[1] != magic()[1] || front[2] != magic()[2]
                || front[3] != magic()[3] || front[4] != magic()[4] || front[5] != magic()[5]);
        }
    }
    r
}

/// Reads a bundle. Bytes after its last table are ignored.
pub fn load_trmq10(bytes: &[u8]) -> (r: Result<Bundle, LoadError>)
    ensures
        match r {
            Ok(b) => parse_bundle(bytes@) == Ok::<BundleModel, Fault>(b@) && b.quantized.wf()
                && b.fp32.wf(),
            Err(e) => parse_bundle(bytes@) == Err::<BundleModel, Fault>(e@),
        },
{
    reveal(parse_body);
    reveal(take_words);
    if bytes.len() < 6 {
        return Err(LoadError::UnexpectedEof);
    }
    if !is_trmq10(bytes) {
        return Err(LoadError::NotTrmq10);
    }
    let version: u16 = match wire::read_u16(bytes, 6) {
        Some(v) => v,
        None => {
            return Err(LoadError::UnexpectedEof);
        },
    };
    if version != VERSION {
        return Err(LoadError::UnsupportedVersion(version));
    }
    let words = match wire::read_words(bytes, 8, 10) {
        Some(w) => w,
        None => {
            return Err(LoadError::UnexpectedEof);
        },
    };
    assert(bytes@.skip(8).skip(40) =~= bytes@.skip(48));
    let header = TrmqHeader {
        dim: words[0],
        heads: words[1],
        max_seq: words[2],
        vocab: words[3],
        layers: words[4],
        z_seq: words[5],
        n_l: words[6],
        n_sup: words[7],
        max_puzzles: words[8],
        flags: words[9],
    };
    let (n_q, p1) = match read_word(bytes, 48) {
        Some(v) => v,
        None => {
            return Err(LoadError::UnexpectedEof);
        },
    };
    let (quantized, p2) = match read_packs(bytes, p1, n_q) {
        Ok(v) => v,
        Err(e) => {
            return Err(e);
        },
    };
    let (n_fp, p3) = match read_word(bytes, p2) {
        Some(v) => v,
        None => {
            return Err(LoadError::UnexpectedEof);
        },
    };
    let (fp32, _p4) = match read_denses(bytes, p3, n_fp) {
        Ok(v) => v,
        Err(e) => {
            return Err(e);
        },
    };
    Ok(Bundle { header, quantized, fp32 })
}

/// The header that records a model's configuration. Sizes keep their low 32 bits; bit 0 of the
/// flags says that the model has a learned halt head.
pub open spec fn header_for<F>(model: ModelConfig<F>) -> TrmqHeader {
    TrmqHeader {
        dim: model.net_cfg.dim as u32,
        heads: model.net_cfg.num_heads as u32,
        max_seq: model.net_cfg.max_seq_len as u32,
        vocab: model.net_cfg.vocab_size as u32,
        layers: model.net_cfg.num_layers as u32,
        z_seq: model.trm_cfg.z_seq as u32,
        n_l: model.trm_cfg.n_l_cycles as u32,
        n_sup: model.trm_cfg.n_sup as u32,
        max_puzzles: model.trm_cfg.max_puzzles as u32,
        flags: if model.trm_cfg.use_learned_halt_head {
            1
        } else {
            0
        },
    }
}

/// `base` with the sizes that the header records.
pub open spec fn network_of<F>(header: TrmqHeader, base: NetworkConfig<F>) -> NetworkConfig<F> {
    NetworkConfig {
        dim: header.dim as usize,
        num_heads: header.heads as usize,
        max_seq_len: header.max_seq as usize,
        vocab_size: header.vocab as usize,
        num_layers: header.layers as usize,
        ..base
    }
}

/// The recursion settings that the header records; solving for a fixed point is the caller's
/// choice.
pub open spec fn trm_of(header: TrmqHeader, use_deq: bool) -> TrmConfig {
    TrmConfig {
        z_seq: header.z_seq as usize,
        n_l_cycles: header.n_l as usize,
        n_sup: header.n_sup as usize,
        max_puzzles: header.max_puzzles as usize,
        use_learned_halt_head: header.flags % 2 == 1,
        use_deq,
    }
}

/// The sizes of the configuration fit header words.
pub open spec fn config_fits<F>(model: ModelConfig<F>) -> bool {
    &&& model.net_cfg.dim <= u32::MAX
    &&& model.net_cfg.num_heads <= u32::MAX
    &&& model.net_cfg.max_seq_len <= u32::MAX
    &&& model.net_cfg.vocab_size <= u32::MAX
    &&& model.net_cfg.num_layers <= u32::MAX
    &&& model.trm_cfg.z_seq <= u32::MAX
    &&& model.trm_cfg.n_l_cycles <= u32::MAX
    &&& model.trm_cfg.n_sup <= u32::MAX
    &&& model.trm_cfg.max_puzzles <= u32::MAX
}

/// A configuration whose sizes fit is restored by the header written for it: the recursion
/// settings whole, the network settings on top of the base they were made from.
pub proof fn header_round_trip<F>(model: ModelConfig<F>)
    requires
        config_fits(model),
    ensures
        network_of(header_for(model), model.net_cfg) == model.net_cfg,
        trm_of(header_for(model), model.trm_cfg.use_deq) == model.trm_cfg,
{
}

impl TrmqHeader {
    /// The header for a model with this configuration.
    pub fn from_model<F>(model: &ModelConfig<F>) -> (r: Self)
        ensures
            r == header_for(*model),
    {
        let mut flags: u32 = 0;
        if model.trm_cfg.use_learned_halt_head {
            flags = 1;
        }
        TrmqHeader {
            dim: #[verifier::truncate]
            (model.net_cfg.dim as u32),
            heads: #[verifier::truncate]
            (model.net_cfg.num_heads as u32),
            max_seq: #[verifier::truncate]
            (model.net_cfg.max_seq_len as u32),
            vocab: #[verifier::truncate]
            (model.net_cfg.vocab_size as u32),
            layers: #[verifier::truncate]
            (model.net_cfg.num_layers as u32),
            z_seq: #[verifier::truncate]
            (model.trm_cfg.z_seq as u32),
            n_l: #[verifier::truncate]
            (model.trm_cfg.n_l_cycles as u32),
            n_sup: #[verifier::truncate]
            (model.trm_cfg.n_sup as u32),
            max_puzzles: #[verifier::truncate]
            (model.trm_cfg.max_puzzles as u32),
            flags,
        }
    }

    /// The network configuration of the header, with the settings it does not record from
    /// `base`.
    pub fn network_config<F>(&self, base: NetworkConfig<F>) -> (r: NetworkConfig<F>)
        ensures
            r == network_of(*self, base),
    {
        NetworkConfig {
            dim: self.dim as usize,
            num_heads: self.heads as usize,
            max_seq_len: self.max_seq as usize,
            vocab_size: self.vocab as usize,
            num_layers: self.layers as usize,
            ..base
        }
    }

    /// The recursion settings of the header.
    pub fn trm_config(&self, use_deq: bool) -> (r: TrmConfig)
        ensures
            r == trm_of(*self, use_deq),
    {
        let flags: u32 = self.flags;
        assert((flags & 1 != 0) == (flags % 2 == 1)) by (bit_vector);
        TrmConfig {
            z_seq: self.z_seq as usize,
            n_l_cycles: self.n_l as usize,
            n_sup: self.n_sup as usize,
            max_puzzles: self.max_puzzles as usize,
            use_learned_halt_head: flags & 1 != 0,
            use_deq,
        }
    }
}

/// Appends a name.
pub fn write_name(out: &mut Vec<u8>, name: &str)
    ensures
        final(out)@ == old(out)@ + name_bytes(name@),
{
    reveal(name_bytes);
    let raw = name.as_bytes();
    let ghost start = out@;
    wire::write_u32(out, #[verifier::truncate]
    (raw.len() as u32));
    wire::write_bytes(out, raw);
    assert(out@ =~= start + name_bytes(name@));
}

fn write_pack(out: &mut Vec<u8>, name: &str, pack: &TernaryPacked<u32>)
    ensures
        final(out)@ == old(out)@ + pack_bytes((name@, pack@)),
{
    let ghost start = out@;
    write_name(out, name);
    wire::write_u32(out, #[verifier::truncate]
    (pack.out_dim as u32));
    wire::write_u32(out, #[verifier::truncate]
    (pack.in_dim as u32));
    wire::write_u32(out, #[verifier::truncate]
    (pack.alphas.len() as u32));
    wire::write_words(out, &pack.alphas);
    wire::write_u32(out, #[verifier::truncate]
    (pack.packed.len() as u32));
    wire::write_bytes(out, pack.packed.as_slice());
    proof {
        let a = name_bytes(name@);
        let b = wire::u32_bytes(pack.out_dim as u32);
        let c = wire::u32_bytes(pack.in_dim as u32);
        let d = wire::u32_bytes(pack.alphas@.len() as u32);
        let e = wire::words_bytes(pack.alphas@);
        let f = wire::u32_bytes(pack.packed@.len() as u32);
        let g = pack.packed@;
        seven(start, a, b, c, d, e, f, g);
    }
}

proof fn seven(
    s: Seq<u8>,
    a: Seq<u8>,
    b: Seq<u8>,
    c: Seq<u8>,
    d: Seq<u8>,
    e: Seq<u8>,
    f: Seq<u8>,
    g: Seq<u8>,
)
    ensures
        s + a + b + c + d + e + f + g == s + (a + (b + (c + (d + (e + (f + g)))))),
{
    assert(s + a + b + c + d + e + f + g =~= s + (a + (b + (c + (d + (e + (f + g)))))));
}

fn words_of_dims(dims: &Vec<usize>) -> (r: Vec<u32>)
    ensures
        r@ == dim_words(dims@),
{
    let mut words: Vec<u32> = Vec::new();
    let mut i: usize = 0;
    while i < dims.len()
        invariant
            i <= dims@.len(),
            words@.len() == i,
            forall|j: int| 0 <= j < i ==> words@[j] == dims@[j] as u32,
        decreases dims@.len() - i,
    {
        words.push(#[verifier::truncate]
        (dims[i] as u32));
        i = i + 1;
    }
    assert(words@ =~= dim_words(dims@));
    words
}

fn write_dense(out: &mut Vec<u8>, name: &str, t: &DenseTensor<u32>)
    ensures
        final(out)@ == old(out)@ + dense_bytes((name@, t@)),
{
    let ghost start = out@;
    write_name(out, name);
    wire::write_u32(out, #[verifier::truncate]
    (t.dims.len() as u32));
    wire::write_words(out, &words_of_dims(&t.dims));
    wire::write_u32(out, #[verifier::truncate]
    (t.data.len() as u32));
    wire::write_words(out, &t.data);
    proof {
        let a = name_bytes(name@);
        let b = wire::u32_bytes(t.dims@.len() as u32);
        let c = wire::words_bytes(dim_words(t.dims@));
        let d = wire::u32_bytes(t.data@.len() as u32);
        let e = wire::words_bytes(t.data@);
        let n = Seq::<u8>::empty();
        seven(start, a, b, c, d, e, n, n);
        assert(start + a + b + c + d + e + n + n =~= start + a + b + c + d + e);
        assert(e + (n + n) =~= e);
    }
}

fn write_packs(out: &mut Vec<u8>, m: &NameMap<TernaryPacked<u32>>)
    ensures
        final(out)@ == old(out)@ + packs_bytes(named::modelled(m@)),
{
    let ghost s = named::modelled(m@);
    let ghost start = out@;
    let mut i: usize = 0;
    assert(s.skip(0) =~= s);
    while i < m.len()
        invariant
            i <= m@.len(),
            s == named::modelled(m@),
            out@ + packs_bytes(s.skip(i as int)) == start + packs_bytes(s),
        decreases m@.len() - i,
    {
        let ghost before = out@;
        write_pack(out, m.name_at(i).as_str(), m.value_at(i));
        proof {
            assert(s.skip(i as int).drop_first() =~= s.skip(i + 1));
            assert(s[i as int] == (m@[i as int].0, m@[i as int].1@));
            regroup(before, pack_bytes(s[i as int]), packs_bytes(s.skip(i + 1)));
        }
        i = i + 1;
    }
    assert(out@ + packs_bytes(s.skip(i as int)) =~= out@);
}

fn write_denses(out: &mut Vec<u8>, m: &NameMap<DenseTensor<u32>>)
    ensures
        final(out)@ == old(out)@ + denses_bytes(named::modelled(m@)),
{
    let ghost s = named::modelled(m@);
    let ghost start = out@;
    let mut i: usize = 0;
    assert(s.skip(0) =~= s);
    while i < m.len()
        invariant
            i <= m@.len(),
            s == named::modelled(m@),
            out@ + denses_bytes(s.skip(i as int)) == start + denses_bytes(s),
        decreases m@.len() - i,
    {
        let ghost before = out@;
        write_dense(out, m.name_at(i).as_str(), m.value_at(i));
        proof {
            assert(s.skip(i as int).drop_first() =~= s.skip(i + 1));
            assert(s[i as int] == (m@[i as int].0, m@[i as int].1@));
            regroup(before, dense_bytes(s[i as int]), denses_bytes(s.skip(i + 1)));
        }
        i = i + 1;
    }
    assert(out@ + denses_bytes(s.skip(i as int)) =~= out@);
}

/// The bytes of a bundle file.
pub fn write_bundle(bundle: &Bundle) -> (r: Vec<u8>)
    ensures
        r@ == bundle_bytes(bundle@),
{
    let h = &bundle.header;
    let words: Vec<u32> = vec![
        h.dim,
        h.heads,
        h.max_seq,
        h.vocab,
        h.layers,
        h.z_seq,
        h.n_l,
        h.n_sup,
        h.max_puzzles,
        h.flags,
    ];
    assert(words@ =~= bundle.header.words());
    let mut out: Vec<u8> = Vec::new();
    wire::write_bytes(&mut out, MAGIC.as_slice());
    assert(out@ =~= magic());
    wire::write_u16(&mut out, VERSION);
    wire::write_words(&mut out, &words);
    wire::write_u32(&mut out, #[verifier::truncate]
    (bundle.quantized.len() as u32));
    write_packs(&mut out, &bundle.quantized);
    wire::write_u32(&mut out, #[verifier::truncate]
    (bundle.fp32.len() as u32));
    write_denses(&mut out, &bundle.fp32);
    proof {
        let n = Seq::<u8>::empty();
        let a = magic();
        let b = wire::u16_bytes(VERSION);
        let c = wire::words_bytes(bundle.header.words());
        let d = wire::u32_bytes(bundle@.quantized.len() as u32);
        let e = packs_bytes(bundle@.quantized);
        let f = wire::u32_bytes(bundle@.fp32.len() as u32);
        let g = denses_bytes(bundle@.fp32);
        seven(n, a, b, c, d, e, f, g);
        assert(n + a =~= a);
        assert(n + bundle_bytes(bundle@) =~= bundle_bytes(bundle@));
    }
    out
}

/// A tensor is packed where it is a matrix with at least one row and a width that is a multiple
/// of four.
pub open spec fn packable(dims: Seq<usize>) -> bool {
    dims.len() == 2 && dims[1] % 4 == 0 && dims[0] > 0
}

fn can_pack(dims: &Vec<usize>) -> (r: bool)
    ensures
        r == packable(dims@),
{
    dims.len() == 2 && dims[1] % 4 == 0 && dims[0] > 0
}

/// `picks` holds, for every packable tensor of `named`, what `quantize` made of it.
pub open spec fn quantized_by<Q>(
    named: Seq<(String, DenseTensor<u32>)>,
    quantize: Q,
    picks: Seq<TernaryPacked<u32>>,
) -> bool where Q: Fn(&Vec<u32>, usize, usize) -> TernaryPacked<u32> {
    &&& picks.len() == named.len()
    &&& forall|i: int|
        0 <= i < named.len() && packable((#[trigger] named[i]).1.dims@) ==> call_ensures(
            quantize,
            (&named[i].1.data, named[i].1.dims@[0], named[i].1.dims@[1]),
            picks[i],
        )
}

/// The packed table of the first `n` tensors: each packable one under its name, a later one in
/// place of an earlier one.
pub open spec fn packed_table(
    named: Seq<(String, DenseTensor<u32>)>,
    picks: Seq<TernaryPacked<u32>>,
    n: nat,
) -> Seq<(Seq<char>, PackModel<u32>)>
    decreases n,
{
    if n == 0 {
        Seq::empty()
    } else {
        let before = packed_table(named, picks, (n - 1) as nat);
        if packable(named[n - 1].1.dims@) {
            named::inserted(before, named[n - 1].0@, picks[n - 1]@)
        } else {
            before
        }
    }
}

/// The dense table of the first `n` tensors: each one that is not packable under its name, a
/// later one in place of an earlier one.
pub open spec fn dense_table(named: Seq<(String, DenseTensor<u32>)>, n: nat) -> Seq<
    (Seq<char>, DenseModel<u32>),
>
    decreases n,
{
    if n == 0 {
        Seq::empty()
    } else {
        let before = dense_table(named, (n - 1) as nat);
        if packable(named[n - 1].1.dims@) {
            before
        } else {
            named::inserted(before, named[n - 1].0@, named[n - 1].1@)
        }
    }
}

/// One of the first `n` tensors is called `k` and is packable or not, as asked.
pub open spec fn listed(
    named: Seq<(String, DenseTensor<u32>)>,
    n: nat,
    k: Seq<char>,
    pack: bool,
) -> bool {
    exists|i: int|
        0 <= i < n && (#[trigger] named[i]).0@ == k && packable(named[i].1.dims@) == pack
}

/// A name is in the packed table exactly where a packable tensor of that name is listed, and in
/// the dense table exactly where another tensor of that name is; both tables are sorted.
pub proof fn every_tensor_kept(
    named: Seq<(String, DenseTensor<u32>)>,
    picks: Seq<TernaryPacked<u32>>,
    n: nat,
    k: Seq<char>,
)
    requires
        n <= named.len(),
    ensures
        named::sorted(packed_table(named, picks, n)),
        named::sorted(dense_table(named, n)),
        (named::found(packed_table(named, picks, n), k) is Some) == listed(named, n, k, true),
        (named::found(dense_table(named, n), k) is Some) == listed(named, n, k, false),
    decreases n,
{
    if n > 0 {
        let m = (n - 1) as nat;
        let last = named[n - 1];
        every_tensor_kept(named, picks, m, k);
        named::insert_then_find(packed_table(named, picks, m), last.0@, picks[n - 1]@, k);
        named::insert_then_find(dense_table(named, m), last.0@, last.1@, k);
        assert forall|pack: bool| #[trigger]
            listed(named, n, k, pack) == (listed(named, m, k, pack) || (last.0@ == k && packable(
                last.1.dims@,
            ) == pack)) by {
            if listed(named, n, k, pack) {
                let i = choose|i: int|
                    0 <= i < n && (#[trigger] named[i]).0@ == k && packable(named[i].1.dims@)
                        == pack;
                if i < m {
                    assert(listed(named, m, k, pack));
                }
            }
        }
        assert(listed(named, n, k, true) || !listed(named, n, k, true));
        assert(listed(named, n, k, false) || !listed(named, n, k, false));
    }
}

/// Parts tensors into packed matrices and dense leftovers.
pub fn part_named<Q>(named: &Vec<(String, DenseTensor<u32>)>, quantize: &Q) -> (r: (
    NameMap<TernaryPacked<u32>>,
    NameMap<DenseTensor<u32>>,
)) where Q: Fn(&Vec<u32>, usize, usize) -> TernaryPacked<u32>
    requires
        forall|i: int|
            0 <= i < named@.len() && packable((#[trigger] named@[i]).1.dims@) ==> call_requires(
                *quantize,
                (&named@[i].1.data, named@[i].1.dims@[0], named@[i].1.dims@[1]),
            ),
    ensures
        r.0.wf(),
        r.1.wf(),
        named::modelled(r.1@) == dense_table(named@, named@.len()),
        exists|picks: Seq<TernaryPacked<u32>>|
            {
                &&& quantized_by(named@, *quantize, picks)
                &&& named::modelled(r.0@) == #[trigger] packed_table(named@, picks, named@.len())
            },
{
    let mut packs: NameMap<TernaryPacked<u32>> = NameMap::new();
    let mut denses: NameMap<DenseTensor<u32>> = NameMap::new();
    let mut i: usize = 0;
    let ghost mut picks: Seq<TernaryPacked<u32>> = Seq::empty();
    proof {
        assert(named::modelled(packs@) =~= Seq::empty());
        assert(named::modelled(denses@) =~= Seq::empty());
    }
    while i < named.len()
        invariant
            i <= named@.len(),
            packs.wf(),
            denses.wf(),
            picks.len() == i,
            forall|j: int|
                0 <= j < named@.len() && packable((#[trigger] named@[j]).1.dims@)
                    ==> call_requires(
                    *quantize,
                    (&named@[j].1.data, named@[j].1.dims@[0], named@[j].1.dims@[1]),
                ),
            forall|j: int|
                0 <= j < i && packable((#[trigger] named@[j]).1.dims@) ==> call_ensures(
                    *quantize,
                    (&named@[j].1.data, named@[j].1.dims@[0], named@[j].1.dims@[1]),
                    picks[j],
                ),
            named::modelled(packs@) == packed_table(named@, picks, i as nat),
            named::modelled(denses@) == dense_table(named@, i as nat),
        decreases named@.len() - i,
    {
        let entry = &named[i];
        let name: String = entry.0.clone();
        let t = &entry.1;
        let ghost before = picks;
        if can_pack(&t.dims) {
            let pack = quantize(&t.data, t.dims[0], t.dims[1]);
            proof {
                named::modelled_inserted(packs@, name@, pack);
                picks = picks.push(pack);
                packed_table_prefix(named@, before, picks, i as nat);
            }
            packs.insert(name, pack);
        } else {
            let copy = t.duplicate();
            proof {
                named::modelled_inserted(denses@, name@, copy);
                picks = picks.push(arbitrary());
                packed_table_prefix(named@, before, picks, i as nat);
            }
            denses.insert(name, copy);
        }
        i = i + 1;
    }
    assert(quantized_by(named@, *quantize, picks));
    (packs, denses)
}

proof fn packed_table_prefix(
    named: Seq<(String, DenseTensor<u32>)>,
    a: Seq<TernaryPacked<u32>>,
    b: Seq<TernaryPacked<u32>>,
    n: nat,
)
    requires
        n <= a.len() <= b.len(),
        forall|i: int| 0 <= i < n ==> a[i] == b[i],
    ensures
        packed_table(named, a, n) == packed_table(named, b, n),
    decreases n,
{
    if n > 0 {
        packed_table_prefix(named, a, b, (n - 1) as nat);
    }
}

/// The bytes of the bundle file for a model: its header, its packable tensors through
/// `quantize`, and the rest as they are.
pub fn save_trmq10<F, Q>(
    model: &ModelConfig<F>,
    named: &Vec<(String, DenseTensor<u32>)>,
    quantize: &Q,
) -> (r: Vec<u8>) where Q: Fn(&Vec<u32>, usize, usize) -> TernaryPacked<u32>
    requires
        forall|i: int|
            0 <= i < named@.len() && packable((#[trigger] named@[i]).1.dims@) ==> call_requires(
                *quantize,
                (&named@[i].1.data, named@[i].1.dims@[0], named@[i].1.dims@[1]),
            ),
    ensures
        exists|picks: Seq<TernaryPacked<u32>>|
            {
                &&& quantized_by(named@, *quantize, picks)
                &&& r@ == bundle_bytes(
                    (BundleModel {
                        header: header_for(*model),
                        quantized: #[trigger] packed_table(named@, picks, named@.len()),
                        fp32: dense_table(named@, named@.len()),
                    }),
                )
            },
{
    let header = TrmqHeader::from_model(model);
    let (quantized, fp32) = part_named(named, quantize);
    write_bundle(&Bundle { header, quantized, fp32 })
}

proof fn tables_fit(
    named: Seq<(String, DenseTensor<u32>)>,
    picks: Seq<TernaryPacked<u32>>,
    n: nat,
)
    requires
        n <= named.len(),
        forall|i: int|
            0 <= i < n ==> if packable((#[trigger] named[i]).1.dims@) {
                pack_fits((named[i].0@, picks[i]@))
            } else {
                dense_fits((named[i].0@, named[i].1@))
            },
    ensures
        packed_table(named, picks, n).len() <= n,
        dense_table(named, n).len() <= n,
        forall|j: int|
            0 <= j < packed_table(named, picks, n).len() ==> pack_fits(
                #[trigger] packed_table(named, picks, n)[j],
            ),
        forall|j: int|
            0 <= j < dense_table(named, n).len() ==> dense_fits(
                #[trigger] dense_table(named, n)[j],
            ),
    decreases n,
{
    if n > 0 {
        let m = (n - 1) as nat;
        tables_fit(named, picks, m);
        every_tensor_kept(named, picks, m, Seq::empty());
        let last = named[n - 1];
        if packable(last.1.dims@) {
            named::rank_parts(packed_table(named, picks, m), last.0@);
        } else {
            named::rank_parts(dense_table(named, m), last.0@);
        }
    }
}

/// A saved model reads back: where every length fits a header word and every dense tensor is
/// well formed, reading the saved bytes gives the header and both tables.
pub proof fn saved_model_loads<F>(
    model: ModelConfig<F>,
    named: Seq<(String, DenseTensor<u32>)>,
    picks: Seq<TernaryPacked<u32>>,
    rest: Seq<u8>,
)
    requires
        named.len() <= u32::MAX,
        forall|i: int|
            0 <= i < named.len() ==> if packable((#[trigger] named[i]).1.dims@) {
                pack_fits((named[i].0@, picks[i]@))
            } else {
                dense_fits((named[i].0@, named[i].1@))
            },
    ensures
        ({
            let b = BundleModel {
                header: header_for(model),
                quantized: packed_table(named, picks, named.len()),
                fp32: dense_table(named, named.len()),
            };
            parse_bundle(bundle_bytes(b) + rest) == Ok::<BundleModel, Fault>(b)
        }),
{
    let b = BundleModel {
        header: header_for(model),
        quantized: packed_table(named, picks, named.len()),
        fp32: dense_table(named, named.len()),
    };
    tables_fit(named, picks, named.len());
    every_tensor_kept(named, picks, named.len(), Seq::empty());
    bundle_round_trip(b, rest);
}

/// How a model file is to be read.
#[derive(Debug, Clone, Copy, PartialEq, Eq, Structural)]
pub enum ModelFormat {
    Trmq10,
    Safetensors,
}

/// A file with the bundle magic is read as a bundle, any other as safetensors.
pub fn model_format(bytes: &[u8]) -> (r: ModelFormat)
    ensures
        r == (if bytes@.len() >= 6 && bytes@.take(6) == magic() {
            ModelFormat::Trmq10
        } else {
            ModelFormat::Safetensors
        }),
{
    if is_trmq10(bytes) {
        ModelFormat::Trmq10
    } else {
        ModelFormat::Safetensors
    }
}

/// Why the tensors of a bundle could not be put into a model.
#[derive(Debug, Clone, PartialEq, Eq)]
pub enum ApplyError {
    /// The unpacked weights do not fill the matrix.
    Unpack(String),
    /// The model has no variable of that name.
    NotInModel(String),
    /// The variable has another shape.
    Shape(String),
}

/// What an [`ApplyError`] says.
pub enum ApplyFault {
    Unpack(Seq<char>),
    NotInModel(Seq<char>),
    Shape(Seq<char>),
}

impl View for ApplyError {
    type V = ApplyFault;

    open spec fn view(&self) -> ApplyFault {
        match self {
            ApplyError::Unpack(name) => ApplyFault::Unpack(name@),
            ApplyError::NotInModel(name) => ApplyFault::NotInModel(name@),
            ApplyError::Shape(name) => ApplyFault::Shape(name@),
        }
    }
}

/// The variables after tensor `t` has been put into the one called `name`.
pub open spec fn set_var<N>(
    vars: Seq<(Seq<char>, DenseModel<N>)>,
    name: Seq<char>,
    t: DenseModel<N>,
) -> Result<Seq<(Seq<char>, DenseModel<N>)>, ApplyFault> {
    match named::found(vars, name) {
        None => Err(ApplyFault::NotInModel(name)),
        Some(v) => if v.dims == t.dims {
            Ok(named::inserted(vars, name, t))
        } else {
            Err(ApplyFault::Shape(name))
        },
    }
}

/// The variables after the first `n` dense tensors have been put in.
pub open spec fn set_denses<N>(
    vars: Seq<(Seq<char>, DenseModel<N>)>,
    denses: Seq<(Seq<char>, DenseModel<N>)>,
    n: nat,
) -> Result<Seq<(Seq<char>, DenseModel<N>)>, ApplyFault>
    decreases n,
{
    if n == 0 {
        Ok(vars)
    } else {
        match set_denses(vars, denses, (n - 1) as nat) {
            Err(e) => Err(e),
            Ok(v) => set_var(v, denses[n - 1].0, denses[n - 1].1),
        }
    }
}

/// The matrix that unpacked weights make.
pub open spec fn unpacked_tensor<N>(p: PackModel<N>, data: Seq<N>) -> DenseModel<N> {
    DenseModel { dims: seq![p.out_dim, p.in_dim], data }
}

/// The variables after the first `n` packed matrices, whose weights are `unpacked`, have been
/// put in.
pub open spec fn set_packs<N>(
    vars: Seq<(Seq<char>, DenseModel<N>)>,
    packs: Seq<(Seq<char>, PackModel<N>)>,
    unpacked: Seq<Vec<N>>,
    n: nat,
) -> Result<Seq<(Seq<char>, DenseModel<N>)>, ApplyFault>
    decreases n,
{
    if n == 0 {
        Ok(vars)
    } else {
        match set_packs(vars, packs, unpacked, (n - 1) as nat) {
            Err(e) => Err(e),
            Ok(v) => {
                let name = packs[n - 1].0;
                let p = packs[n - 1].1;
                let t = unpacked_tensor(p, unpacked[n - 1]@);
                if t.wf() {
                    set_var(v, name, t)
                } else {
                    Err(ApplyFault::Unpack(name))
                }
            },
        }
    }
}

fn put_var<N>(vars: &mut NameMap<DenseTensor<N>>, name: &String, t: DenseTensor<N>) -> (r: Result<
    (),
    ApplyError,
>)
    requires
        old(vars).wf(),
    ensures
        final(vars).wf(),
        match r {
            Ok(()) => set_var(named::modelled(old(vars)@), name@, t@) == Ok::<
                Seq<(Seq<char>, DenseModel<N>)>,
                ApplyFault,
            >(named::modelled(final(vars)@)),
            Err(e) => set_var(named::modelled(old(vars)@), name@, t@) == Err::<
                Seq<(Seq<char>, DenseModel<N>)>,
                ApplyFault,
            >(e@),
        },
{
    proof {
        named::modelled_found(vars@, name@);
        named::modelled_inserted(vars@, name@, t);
    }
    let fits = match vars.get(name.as_str()) {
        None => {
            return Err(ApplyError::NotInModel(name.clone()));
        },
        Some(v) => tensor::same_dims(&v.dims, &t.dims),
    };
    if !fits {
        return Err(ApplyError::Shape(name.clone()));
    }
    vars.insert(name.clone(), t);
    Ok(())
}

/// `unpacked` holds what `unpack` made of the first packs, one for one.
pub open spec fn unpacks_to<N, U>(
    packs: Seq<(Seq<char>, TernaryPacked<N>)>,
    unpack: U,
    unpacked: Seq<Vec<N>>,
) -> bool where U: Fn(&TernaryPacked<N>) -> Vec<N> {
    &&& unpacked.len() <= packs.len()
    &&& forall|i: int|
        0 <= i < unpacked.len() ==> call_ensures(
            unpack,
            (&(#[trigger] packs[i]).1,),
            unpacked[i],
        )
}

/// The variables after the packed matrices, then the dense tensors, have been put in. The first
/// tensor that does not go in ends it.
pub open spec fn applied<N>(
    vars: Seq<(Seq<char>, DenseModel<N>)>,
    packs: Seq<(Seq<char>, PackModel<N>)>,
    unpacked: Seq<Vec<N>>,
    denses: Seq<(Seq<char>, DenseModel<N>)>,
) -> Result<Seq<(Seq<char>, DenseModel<N>)>, ApplyFault> {
    match set_packs(vars, packs, unpacked, unpacked.len()) {
        Err(e) => Err(e),
        Ok(mid) => set_denses(mid, denses, denses.len()),
    }
}

proof fn set_packs_prefix<N>(
    vars: Seq<(Seq<char>, DenseModel<N>)>,
    packs: Seq<(Seq<char>, PackModel<N>)>,
    a: Seq<Vec<N>>,
    b: Seq<Vec<N>>,
    n: nat,
)
    requires
        n <= a.len() <= b.len(),
        forall|i: int| 0 <= i < n ==> a[i] == b[i],
    ensures
        set_packs(vars, packs, a, n) == set_packs(vars, packs, b, n),
    decreases n,
{
    if n > 0 {
        set_packs_prefix(vars, packs, a, b, (n - 1) as nat);
    }
}

proof fn set_denses_stops<N>(
    vars: Seq<(Seq<char>, DenseModel<N>)>,
    denses: Seq<(Seq<char>, DenseModel<N>)>,
    k: nat,
    n: nat,
)
    requires
        k <= n,
        set_denses(vars, denses, k) is Err,
    ensures
        set_denses(vars, denses, n) == set_denses(vars, denses, k),
    decreases n,
{
    if k < n {
        set_denses_stops(vars, denses, k, (n - 1) as nat);
    }
}

/// The same names, with the same shapes.
pub open spec fn same_shapes<N>(
    a: Seq<(Seq<char>, DenseModel<N>)>,
    b: Seq<(Seq<char>, DenseModel<N>)>,
) -> bool {
    forall|k: Seq<char>|
        match (#[trigger] named::found(a, k), named::found(b, k)) {
            (Some(x), Some(y)) => x.dims == y.dims,
            (None, None) => true,
            _ => false,
        }
}

proof fn set_var_effect<N>(
    vars: Seq<(Seq<char>, DenseModel<N>)>,
    name: Seq<char>,
    t: DenseModel<N>,
    k: Seq<char>,
)
    requires
        named::sorted(vars),
        set_var(vars, name, t) is Ok,
    ensures
        ({
            let end = set_var(vars, name, t)->Ok_0;
            &&& named::sorted(end)
            &&& same_shapes(vars, end)
            &&& named::found(end, k) == if k == name {
                Some(t)
            } else {
                named::found(vars, k)
            }
        }),
{
    let end = set_var(vars, name, t)->Ok_0;
    named::insert_then_find(vars, name, t, k);
    assert forall|q: Seq<char>|
        match (#[trigger] named::found(vars, q), named::found(end, q)) {
            (Some(x), Some(y)) => x.dims == y.dims,
            (None, None) => true,
            _ => false,
        } by {
        named::insert_then_find(vars, name, t, q);
    }
}

proof fn same_shapes_transitive<N>(
    a: Seq<(Seq<char>, DenseModel<N>)>,
    b: Seq<(Seq<char>, DenseModel<N>)>,
    c: Seq<(Seq<char>, DenseModel<N>)>,
)
    requires
        same_shapes(a, b),
        same_shapes(b, c),
    ensures
        same_shapes(a, c),
{
    assert forall|q: Seq<char>|
        match (#[trigger] named::found(a, q), named::found(c, q)) {
            (Some(x), Some(y)) => x.dims == y.dims,
            (None, None) => true,
            _ => false,
        } by {
        let m = named::found(b, q);
        assert(m is Some || m is None);
    }
}

proof fn set_denses_effect<N>(
    vars: Seq<(Seq<char>, DenseModel<N>)>,
    denses: Seq<(Seq<char>, DenseModel<N>)>,
    n: nat,
    k: Seq<char>,
)
    requires
        named::sorted(vars),
        named::sorted(denses),
        n <= denses.len(),
        set_denses(vars, denses, n) is Ok,
    ensures
        ({
            let end = set_denses(vars, denses, n)->Ok_0;
            &&& named::sorted(end)
            &&& same_shapes(vars, end)
            &&& forall|i: int|
                0 <= i < n && (#[trigger] denses[i]).0 == k ==> named::found(end, k) == Some(
                    denses[i].1,
                )
            &&& (forall|i: int| 0 <= i < n ==> (#[trigger] denses[i]).0 != k) ==> named::found(
                end,
                k,
            ) == named::found(vars, k)
        }),
    decreases n,
{
    if n > 0 {
        let m = (n - 1) as nat;
        set_denses_effect(vars, denses, m, k);
        let mid = set_denses(vars, denses, m)->Ok_0;
        let last = denses[n - 1];
        set_var_effect(mid, last.0, last.1, k);
        same_shapes_transitive(vars, mid, set_denses(vars, denses, n)->Ok_0);
        assert forall|i: int| 0 <= i < m && (#[trigger] denses[i]).0 == k implies last.0 != k by {
            named::name_lt_strict_total(k, k, k);
            assert(named::name_lt(denses[i].0, denses[n - 1].0));
        }
    }
}

proof fn set_packs_effect<N>(
    vars: Seq<(Seq<char>, DenseModel<N>)>,
    packs: Seq<(Seq<char>, PackModel<N>)>,
    unpacked: Seq<Vec<N>>,
    n: nat,
    k: Seq<char>,
)
    requires
        named::sorted(vars),
        named::sorted(packs),
        n <= packs.len(),
        set_packs(vars, packs, unpacked, n) is Ok,
    ensures
        ({
            let end = set_packs(vars, packs, unpacked, n)->Ok_0;
            &&& named::sorted(end)
            &&& same_shapes(vars, end)
            &&& forall|i: int|
                0 <= i < n && (#[trigger] packs[i]).0 == k ==> named::found(end, k) == Some(
                    unpacked_tensor(packs[i].1, unpacked[i]@),
                )
            &&& (forall|i: int| 0 <= i < n ==> (#[trigger] packs[i]).0 != k) ==> named::found(
                end,
                k,
            ) == named::found(vars, k)
        }),
    decreases n,
{
    if n > 0 {
        let m = (n - 1) as nat;
        set_packs_effect(vars, packs, unpacked, m, k);
        let mid = set_packs(vars, packs, unpacked, m)->Ok_0;
        let last = packs[n - 1];
        set_var_effect(mid, last.0, unpacked_tensor(last.1, unpacked[n - 1]@), k);
        same_shapes_transitive(vars, mid, set_packs(vars, packs, unpacked, n)->Ok_0);
        assert forall|i: int| 0 <= i < m && (#[trigger] packs[i]).0 == k implies last.0 != k by {
            named::name_lt_strict_total(k, k, k);
            assert(named::name_lt(packs[i].0, packs[n - 1].0));
        }
    }
}

/// Where the tensors of a bundle go into a model, the model keeps its names and shapes; the
/// variable `k` then holds the dense tensor called `k`, or else the unpacked matrix called `k`,
/// or else what it held before.
pub proof fn applied_tensors_stand<N>(
    vars: Seq<(Seq<char>, DenseModel<N>)>,
    packs: Seq<(Seq<char>, PackModel<N>)>,
    unpacked: Seq<Vec<N>>,
    denses: Seq<(Seq<char>, DenseModel<N>)>,
    k: Seq<char>,
)
    requires
        named::sorted(vars),
        named::sorted(packs),
        named::sorted(denses),
        unpacked.len() == packs.len(),
        applied(vars, packs, unpacked, denses) is Ok,
    ensures
        ({
            let end = applied(vars, packs, unpacked, denses)->Ok_0;
            &&& same_shapes(vars, end)
            &&& named::found(end, k) == match named::found(denses, k) {
                Some(t) => Some(t),
                None => match named::found(packs, k) {
                    Some(p) => Some(
                        unpacked_tensor(p, unpacked[named::rank(packs, k) as int]@),
                    ),
                    None => named::found(vars, k),
                },
            }
        }),
{
    set_packs_effect(vars, packs, unpacked, packs.len(), k);
    let mid = set_packs(vars, packs, unpacked, packs.len())->Ok_0;
    set_denses_effect(mid, denses, denses.len(), k);
    same_shapes_transitive(vars, mid, applied(vars, packs, unpacked, denses)->Ok_0);
    named::found_at(denses, k);
    named::found_at(packs, k);
}

/// Puts the tensors of a bundle into the variables of a model: first the packed matrices in
/// name order, each unpacked, then the dense tensors in name order. Every tensor must have a
/// variable of its name and shape; the first one that has none ends it.
pub fn apply_named<N: Copy, U>(
    vars: NameMap<DenseTensor<N>>,
    quantized: &NameMap<TernaryPacked<N>>,
    fp32: &NameMap<DenseTensor<N>>,
    unpack: &U,
) -> (r: Result<NameMap<DenseTensor<N>>, ApplyError>) where U: Fn(&TernaryPacked<N>) -> Vec<N>
    requires
        vars.wf(),
        forall|i: int|
            0 <= i < quantized@.len() ==> call_requires(*unpack, (&(#[trigger] quantized@[i]).1,)),
    ensures
        exists|unpacked: Seq<Vec<N>>|
            {
                let end = #[trigger] applied(
                    named::modelled(vars@),
                    named::modelled(quantized@),
                    unpacked,
                    named::modelled(fp32@),
                );
                &&& unpacks_to(quantized@, *unpack, unpacked)
                &&& match r {
                    Ok(v) => v.wf() && unpacked.len() == quantized@.len() && end == Ok::<
                        Seq<(Seq<char>, DenseModel<N>)>,
                        ApplyFault,
                    >(named::modelled(v@)),
                    Err(e) => end == Err::<Seq<(Seq<char>, DenseModel<N>)>, ApplyFault>(e@) && (
                    unpacked.len() == quantized@.len() || set_packs(
                        named::modelled(vars@),
                        named::modelled(quantized@),
                        unpacked,
                        unpacked.len(),
                    ) is Err),
                }
            },
{
    let ghost start = named::modelled(vars@);
    let mut now = vars;
    let ghost packs = named::modelled(quantized@);
    let ghost denses = named::modelled(fp32@);
    let ghost mut unpacked: Seq<Vec<N>> = Seq::empty();
    let mut i: usize = 0;
    while i < quantized.len()
        invariant
            i <= quantized@.len(),
            start == named::modelled(vars@),
            now.wf(),
            packs == named::modelled(quantized@),
            denses == named::modelled(fp32@),
            unpacked.len() == i,
            unpacks_to(quantized@, *unpack, unpacked),
            forall|j: int|
                0 <= j < quantized@.len() ==> call_requires(
                    *unpack,
                    (&(#[trigger] quantized@[j]).1,),
                ),
            set_packs(start, packs, unpacked, i as nat) == Ok::<
                Seq<(Seq<char>, DenseModel<N>)>,
                ApplyFault,
            >(named::modelled(now@)),
        decreases quantized@.len() - i,
    {
        let name = quantized.name_at(i);
        let pack = quantized.value_at(i);
        let data = unpack(pack);
        let ghost longer = unpacked.push(data);
        let dims: Vec<usize> = vec![pack.out_dim, pack.in_dim];
        proof {
            set_packs_prefix(start, packs, unpacked, longer, i as nat);
            assert(dims@ =~= seq![pack.out_dim, pack.in_dim]);
            assert(packs[i as int] == (name@, pack@));
            assert(unpacks_to(quantized@, *unpack, longer));
            unpacked = longer;
        }
        if !tensor::fills(&dims, data.len()) {
            assert(applied(start, packs, unpacked, denses) is Err);
            return Err(ApplyError::Unpack(name.clone()));
        }
        let t = DenseTensor { dims, data };
        match put_var(&mut now, name, t) {
            Ok(()) => {},
            Err(e) => {
                assert(applied(start, packs, unpacked, denses) is Err);
                return Err(e);
            },
        }
        i = i + 1;
    }
    let ghost mid = named::modelled(now@);
    let mut k: usize = 0;
    while k < fp32.len()
        invariant
            k <= fp32@.len(),
            start == named::modelled(vars@),
            now.wf(),
            packs == named::modelled(quantized@),
            denses == named::modelled(fp32@),
            unpacked.len() == quantized@.len(),
            unpacks_to(quantized@, *unpack, unpacked),
            set_packs(start, packs, unpacked, unpacked.len()) == Ok::<
                Seq<(Seq<char>, DenseModel<N>)>,
                ApplyFault,
            >(mid),
            set_denses(mid, denses, k as nat) == Ok::<
                Seq<(Seq<char>, DenseModel<N>)>,
                ApplyFault,
            >(named::modelled(now@)),
        decreases fp32@.len() - k,
    {
        let name = fp32.name_at(k);
        let t = fp32.value_at(k).duplicate();
        assert(denses[k as int] == (name@, t@));
        match put_var(&mut now, name, t) {
            Ok(()) => {},
            Err(e) => {
                proof {
                    set_denses_stops(mid, denses, (k + 1) as nat, denses.len());
                }
                assert(applied(start, packs, unpacked, denses) is Err);
                return Err(e);
            },
        }
        k = k + 1;
    }
    assert(applied(start, packs, unpacked, denses) is Ok);
    Ok(now)
}

} // verus!
