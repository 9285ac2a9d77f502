//! What a bundle file holds, byte by byte, and which tensors it packs.

use crate::named;
use crate::quantize::{PackModel, TernaryPacked};
use crate::recursion::ModelConfig;
use crate::tensor::{DenseModel, DenseTensor};
use crate::trmq10;
use crate::trmq10::{BundleModel, TrmqHeader};
use crate::wire;
use vstd::prelude::*;
use vstd::utf8::*;

verus! {

/// A number in four bytes, the lowest first.
#[verifier::opaque]
pub open spec fn word(x: int) -> Seq<u8> {
    seq![
        (x % 256) as u8,
        (x / 256 % 256) as u8,
        (x / 65536 % 256) as u8,
        (x / 16777216 % 256) as u8,
    ]
}

/// Numbers in four bytes each.
#[verifier::opaque]
pub open spec fn row(words: Seq<u32>) -> Seq<u8> {
    Seq::new(4 * words.len(), |k: int| word(words[k / 4] as int)[k % 4])
}

proof fn word_written(x: u32)
    ensures
        wire::u32_bytes(x) == word(x as int),
{
    reveal(word);
    assert(wire::u32_bytes(x) =~= word(x as int));
}

proof fn row_written(words: Seq<u32>)
    ensures
        wire::words_bytes(words) == row(words),
    decreases words.len(),
{
    reveal(row);
    if words.len() > 0 {
        let front = words.drop_last();
        row_written(front);
        word_written(words.last());
        reveal(word);
        assert(row(words) =~= row(front) + word(words.last() as int)) by {
            assert forall|k: int| 0 <= k < 4 * words.len() implies #[trigger] row(words)[k] == (row(
                front,
            ) + word(words.last() as int))[k] by {
                if k < 4 * front.len() {
                    assert(words[k / 4] == front[k / 4]);
                } else {
                    assert(k / 4 == words.len() - 1 && k % 4 == k - 4 * front.len());
                }
            }
        }
    } else {
        assert(wire::words_bytes(words) =~= row(words));
    }
}

/// A bundle is the letters of its kind, the number one in two bytes, the ten words of its header,
/// the packed matrices behind their number, and the other tensors behind theirs.
pub proof fn bundle_is_laid_out_in_order(b: BundleModel)
    requires
        b.quantized.len() <= u32::MAX,
        b.fp32.len() <= u32::MAX,
    ensures
        ({
            let h = b.header;
            trmq10::bundle_bytes(b) == seq![
                'T' as u8,
                'R' as u8,
                'M' as u8,
                'Q' as u8,
                '1' as u8,
                '0' as u8,
                1u8,
                0u8,
            ] + row(
                seq![
                    h.dim,
                    h.heads,
                    h.max_seq,
                    h.vocab,
                    h.layers,
                    h.z_seq,
                    h.n_l,
                    h.n_sup,
                    h.max_puzzles,
                    h.flags,
                ],
            ) + word(b.quantized.len() as int) + Seq::new(
                b.quantized.len(),
                |i: int| packed_entry(b.quantized[i]),
            ).flatten() + word(b.fp32.len() as int) + Seq::new(
                b.fp32.len(),
                |i: int| dense_entry(b.fp32[i]),
            ).flatten()
        }),
{
    row_written(b.header.words());
    word_written(b.quantized.len() as u32);
    word_written(b.fp32.len() as u32);
    packs_written(b.quantized);
    denses_written(b.fp32);
    let h = b.header;
    assert(h.words() =~= seq![
        h.dim,
        h.heads,
        h.max_seq,
        h.vocab,
        h.layers,
        h.z_seq,
        h.n_l,
        h.n_sup,
        h.max_puzzles,
        h.flags,
    ]);
    let front = seq![
        'T' as u8,
        'R' as u8,
        'M' as u8,
        'Q' as u8,
        '1' as u8,
        '0' as u8,
        1u8,
        0u8,
    ];
    assert(trmq10::magic() + wire::u16_bytes(trmq10::VERSION) =~= front);
    let packs = Seq::new(b.quantized.len(), |i: int| packed_entry(b.quantized[i])).flatten();
    let denses = Seq::new(b.fp32.len(), |i: int| dense_entry(b.fp32[i])).flatten();
    let (m, v) = (trmq10::magic(), wire::u16_bytes(trmq10::VERSION));
    grouped(
        m,
        v,
        row(h.words()),
        word(b.quantized.len() as int),
        packs,
        word(b.fp32.len() as int),
        denses,
    );
}

/// The bytes of a packed matrix: its name behind the length of it, how many outputs and inputs
/// there are, the scales behind their number, and the codes behind theirs.
pub open spec fn packed_entry(e: (Seq<char>, PackModel<u32>)) -> Seq<u8> {
    let name = encode_utf8(e.0);
    word(name.len() as u32 as int) + name + word(e.1.out_dim as u32 as int) + word(
        e.1.in_dim as u32 as int,
    ) + word(e.1.alphas.len() as u32 as int) + row(e.1.alphas) + word(
        e.1.packed.len() as u32 as int,
    ) + e.1.packed
}

/// Dimensions as words.
pub open spec fn narrowed(dims: Seq<usize>) -> Seq<u32> {
    dims.map_values(|d: usize| d as u32)
}

/// The bytes of another tensor: its name behind the length of it, its dimensions behind their
/// number, and its elements behind theirs.
pub open spec fn dense_entry(e: (Seq<char>, DenseModel<u32>)) -> Seq<u8> {
    let name = encode_utf8(e.0);
    word(name.len() as u32 as int) + name + word(e.1.dims.len() as u32 as int) + row(
        narrowed(e.1.dims),
    ) + word(e.1.data.len() as u32 as int) + row(e.1.data)
}

proof fn grouped(
    n: Seq<u8>,
    a: Seq<u8>,
    b: Seq<u8>,
    c: Seq<u8>,
    d: Seq<u8>,
    e: Seq<u8>,
    f: Seq<u8>,
)
    ensures
        n + (a + (b + (c + d))) == n + a + b + c + d,
        n + (a + (b + (c + (d + (e + f))))) == n + a + b + c + d + e + f,
{
    assert(n + (a + (b + (c + d))) =~= n + a + b + c + d);
    let g = c + (d + (e + f));
    assert(c + d + e + f =~= g);
    assert(n + (a + (b + g)) =~= n + a + b + g);
    assert(n + a + b + c + d + e + f =~= n + a + b + (c + d + e + f));
}

proof fn alike(a: Seq<u8>, b: Seq<u8>)
    requires
        a == b,
    ensures
        a =~= b,
{
}

proof fn pack_written(e: (Seq<char>, PackModel<u32>))
    ensures
        trmq10::pack_bytes(e) == packed_entry(e),
{
    reveal(trmq10::name_bytes);
    let name = encode_utf8(e.0);
    word_written(name.len() as u32);
    word_written(e.1.out_dim as u32);
    word_written(e.1.in_dim as u32);
    word_written(e.1.alphas.len() as u32);
    row_written(e.1.alphas);
    word_written(e.1.packed.len() as u32);
    grouped(
        word(name.len() as u32 as int) + name,
        word(e.1.out_dim as u32 as int),
        word(e.1.in_dim as u32 as int),
        word(e.1.alphas.len() as u32 as int),
        row(e.1.alphas),
        word(e.1.packed.len() as u32 as int),
        e.1.packed,
    );
    alike(trmq10::pack_bytes(e), packed_entry(e));
}

proof fn dense_written(e: (Seq<char>, DenseModel<u32>))
    ensures
        trmq10::dense_bytes(e) == dense_entry(e),
{
    reveal(trmq10::name_bytes);
    let name = encode_utf8(e.0);
    let dims = narrowed(e.1.dims);
    word_written(name.len() as u32);
    word_written(e.1.dims.len() as u32);
    assert(trmq10::dim_words(e.1.dims) =~= dims);
    row_written(dims);
    word_written(e.1.data.len() as u32);
    row_written(e.1.data);
    grouped(
        word(name.len() as u32 as int) + name,
        word(e.1.dims.len() as u32 as int),
        row(dims),
        word(e.1.data.len() as u32 as int),
        row(e.1.data),
        Seq::empty(),
        Seq::empty(),
    );
    alike(trmq10::dense_bytes(e), dense_entry(e));
}

proof fn packs_written(s: Seq<(Seq<char>, PackModel<u32>)>)
    ensures
        trmq10::packs_bytes(s) == Seq::new(s.len(), |i: int| packed_entry(s[i])).flatten(),
    decreases s.len(),
{
    let all = Seq::new(s.len(), |i: int| packed_entry(s[i]));
    if s.len() > 0 {
        let e = s[0];
        let rest = s.drop_first();
        packs_written(rest);
        assert(all.drop_first() =~= Seq::new(rest.len(), |i: int| packed_entry(rest[i])));
        pack_written(e);
        assert(all[0] == packed_entry(e));
    }
}

proof fn denses_written(s: Seq<(Seq<char>, DenseModel<u32>)>)
    ensures
        trmq10::denses_bytes(s) == Seq::new(s.len(), |i: int| dense_entry(s[i])).flatten(),
    decreases s.len(),
{
    let all = Seq::new(s.len(), |i: int| dense_entry(s[i]));
    if s.len() > 0 {
        let e = s[0];
        let rest = s.drop_first();
        denses_written(rest);
        assert(all.drop_first() =~= Seq::new(rest.len(), |i: int| dense_entry(rest[i])));
        dense_written(e);
        assert(all[0] == dense_entry(e));
    }
}

/// The header of a model tells each of its sizes in the word of that name, and the learned halt
/// head in the lowest bit of the flags, of which no other is set.
pub proof fn header_tells_the_sizes<F>(model: ModelConfig<F>, h: TrmqHeader)
    requires
        trmq10::config_fits(model),
        h == trmq10::header_for(model),
    ensures
        h.dim == model.net_cfg.dim,
        h.heads == model.net_cfg.num_heads,
        h.max_seq == model.net_cfg.max_seq_len,
        h.vocab == model.net_cfg.vocab_size,
        h.layers == model.net_cfg.num_layers,
        h.z_seq == model.trm_cfg.z_seq,
        h.n_l == model.trm_cfg.n_l_cycles,
        h.n_sup == model.trm_cfg.n_sup,
        h.max_puzzles == model.trm_cfg.max_puzzles,
        h.flags == if model.trm_cfg.use_learned_halt_head {
            1int
        } else {
            0
        },
{
}

/// A matrix that is not empty and whose width is a multiple of four goes into the bundle packed,
/// as the quantizer made it; any other tensor goes in as it is. Of tensors of one name the last
/// one counts.
pub proof fn shape_decides_what_is_packed(
    named: Seq<(String, DenseTensor<u32>)>,
    picks: Seq<TernaryPacked<u32>>,
    n: nat,
    i: int,
)
    requires
        0 <= i < n <= named.len(),
        n <= picks.len(),
        forall|j: int| i < j < n ==> (#[trigger] named[j]).0@ != named[i].0@,
    ensures
        ({
            let dims = named[i].1.dims@;
            let name = named[i].0@;
            if dims.len() == 2 && dims[0] > 0 && dims[1] % 4 == 0 {
                named::found(trmq10::packed_table(named, picks, n), name) == Some(picks[i]@)
            } else {
                named::found(trmq10::dense_table(named, n), name) == Some(named[i].1@)
            }
        }),
    decreases n,
{
    let m = (n - 1) as nat;
    let last = named[n - 1];
    trmq10::every_tensor_kept(named, picks, m, last.0@);
    named::insert_then_find(
        trmq10::packed_table(named, picks, m),
        last.0@,
        picks[n - 1]@,
        named[i].0@,
    );
    named::insert_then_find(trmq10::dense_table(named, m), last.0@, last.1@, named[i].0@);
    if i < n - 1 {
        shape_decides_what_is_packed(named, picks, m, i);
    }
}

/// The file of a model is the bundle with its header and with every tensor in the place that its
/// shape decides, a packed one as the quantizer made it of its elements, rows and columns.
pub proof fn saved_file_holds_every_tensor<F, Q>(
    model: &ModelConfig<F>,
    named: &Vec<(String, DenseTensor<u32>)>,
    quantize: &Q,
    r: Vec<u8>,
    i: int,
) -> (b: BundleModel) where Q: Fn(&Vec<u32>, usize, usize) -> TernaryPacked<u32>
    requires
        call_ensures(trmq10::save_trmq10::<F, Q>, (model, named, quantize), r),
        0 <= i < named@.len(),
        forall|j: int| i < j < named@.len() ==> (#[trigger] named@[j]).0@ != named@[i].0@,
    ensures
        r@ == trmq10::bundle_bytes(b),
        b.header == trmq10::header_for(*model),
        ({
            let (name, t) = (named@[i].0@, named@[i].1);
            let dims = t.dims@;
            if dims.len() == 2 && dims[0] > 0 && dims[1] % 4 == 0 {
                exists|pick: TernaryPacked<u32>| #[trigger]
                    call_ensures(*quantize, (&t.data, dims[0], dims[1]), pick) && named::found(
                        b.quantized,
                        name,
                    ) == Some(pick@)
            } else {
                named::found(b.fp32, name) == Some(t@)
            }
        }),
{
    let n = named@.len();
    let picks = choose|picks: Seq<TernaryPacked<u32>>|
        {
            &&& trmq10::quantized_by(named@, *quantize, picks)
            &&& r@ == trmq10::bundle_bytes(
                (BundleModel {
                    header: trmq10::header_for(*model),
                    quantized: #[trigger] trmq10::packed_table(named@, picks, n),
                    fp32: trmq10::dense_table(named@, n),
                }),
            )
        };
    shape_decides_what_is_packed(named@, picks, n, i);
    assert(trmq10::packable(named@[i].1.dims@) ==> call_ensures(
        *quantize,
        (&named@[i].1.data, named@[i].1.dims@[0], named@[i].1.dims@[1]),
        picks[i],
    ));
    BundleModel {
        header: trmq10::header_for(*model),
        quantized: trmq10::packed_table(named@, picks, n),
        fp32: trmq10::dense_table(named@, n),
    }
}

} // verus!
