//! Checkpoints: what is recorded of a run, and the names of its files.

use crate::text;
use crate::text::{joined, number};
use vstd::prelude::*;

verus! {

/// What is recorded of a run beside its weights. `F` is the type of accuracies and losses.
#[derive(Debug, Clone, Copy)]
pub struct TrainingMeta<F> {
    pub epoch: usize,
    pub global_step: u64,
    pub best_val_acc: F,
    pub best_val_loss: F,
    pub rng_seed: u64,
    pub ema_decay: F,
    pub ema_warmup: u64,
    pub ema_step: u64,
    pub current_batch_size: usize,
}

impl<F> TrainingMeta<F> {
    /// The record of a run that has not started: no accuracy yet, and a loss that any other
    /// beats.
    pub fn fresh(none_right: F, worst_loss: F, ema_decay: F) -> (r: Self)
        ensures
            r == (TrainingMeta {
                epoch: 0,
                global_step: 0,
                best_val_acc: none_right,
                best_val_loss: worst_loss,
                rng_seed: 42,
                ema_decay,
                ema_warmup: 1000,
                ema_step: 0,
                current_batch_size: 32,
            }),
    {
        TrainingMeta {
            epoch: 0,
            global_step: 0,
            best_val_acc: none_right,
            best_val_loss: worst_loss,
            rng_seed: 42,
            ema_decay,
            ema_warmup: 1000,
            ema_step: 0,
            current_batch_size: 32,
        }
    }
}

/// The name of the file that holds the weights.
pub open spec fn model_name(tag: Seq<char>) -> Seq<char> {
    tag + ".safetensors"@
}

/// The name of the file that holds the averaged weights.
pub open spec fn ema_name(tag: Seq<char>) -> Seq<char> {
    tag + ".ema.safetensors"@
}

/// The name of the file that holds the record of the run.
pub open spec fn meta_name(tag: Seq<char>) -> Seq<char> {
    tag + ".meta.json"@
}

/// The name of the file that holds the weights.
pub fn model_file(tag: &str) -> (r: String)
    ensures
        r@ == model_name(tag@),
{
    joined(tag, ".safetensors")
}

/// The name of the file that holds the averaged weights.
pub fn ema_file(tag: &str) -> (r: String)
    ensures
        r@ == ema_name(tag@),
{
    joined(tag, ".ema.safetensors")
}

/// The name of the file that holds the record of the run.
pub fn meta_file(tag: &str) -> (r: String)
    ensures
        r@ == meta_name(tag@),
{
    joined(tag, ".meta.json")
}

/// The tag of the checkpoint that is saved after an epoch, counted from one.
pub fn epoch_tag(epoch: usize) -> (r: String)
    ensures
        r@ == "epoch_"@ + text::decimal(epoch as nat),
{
    joined("epoch_", number(epoch).as_str())
}

proof fn stem_of(a: Seq<char>, b: Seq<char>, end: Seq<char>)
    requires
        a + end == b + end,
    ensures
        a == b,
{
    let (x, y) = (a + end, b + end);
    assert(x.len() == a.len() + end.len() && y.len() == b.len() + end.len());
    assert(x.take(a.len() as int) =~= a);
    assert(y.take(b.len() as int) =~= b);
}

/// Checkpoints under different tags do not share a file of one sort.
pub proof fn tags_do_not_clash(a: Seq<char>, b: Seq<char>)
    requires
        a != b,
    ensures
        model_name(a) != model_name(b),
        ema_name(a) != ema_name(b),
        meta_name(a) != meta_name(b),
{
    if model_name(a) == model_name(b) {
        stem_of(a, b, ".safetensors"@);
    }
    if ema_name(a) == ema_name(b) {
        stem_of(a, b, ".ema.safetensors"@);
    }
    if meta_name(a) == meta_name(b) {
        stem_of(a, b, ".meta.json"@);
    }
}

/// The three files of a checkpoint are different files.
pub proof fn files_do_not_clash(tag: Seq<char>)
    ensures
        model_name(tag) != ema_name(tag),
        model_name(tag) != meta_name(tag),
        ema_name(tag) != meta_name(tag),
{
    reveal_strlit(".safetensors");
    reveal_strlit(".ema.safetensors");
    reveal_strlit(".meta.json");
    assert(model_name(tag).len() == tag.len() + 12);
    assert(ema_name(tag).len() == tag.len() + 16);
    assert(meta_name(tag).len() == tag.len() + 10);
}

} // verus!
