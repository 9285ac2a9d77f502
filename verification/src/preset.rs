//! Named architectures. Training scales the width; the depth stays two.
//!
//! | preset | dim | heads | layers |
//! |--------|-----|-------|--------|
//! | tiny   | 32  | 4     | 2      |
//! | paper  | 256 | 8     | 2      |
//! | 7m     | 448 | 8     | 2      |

use crate::named::str_same;
use crate::network::NetworkConfig;
use crate::text;
use crate::text_laws;
use vstd::prelude::*;

verus! {

/// The shape of a named architecture.
#[derive(Debug, Clone, Copy, PartialEq, Eq)]
pub struct Architecture {
    pub name: &'static str,
    pub dim: usize,
    pub heads: usize,
    pub layers: usize,
    pub vocab: usize,
}

/// What an [`Architecture`] says.
pub struct Shape {
    pub name: Seq<char>,
    pub dim: usize,
    pub heads: usize,
    pub layers: usize,
    pub vocab: usize,
}

impl View for Architecture {
    type V = Shape;

    open spec fn view(&self) -> Shape {
        Shape {
            name: self.name@,
            dim: self.dim,
            heads: self.heads,
            layers: self.layers,
            vocab: self.vocab,
        }
    }
}

/// The smoke-test shape.
pub open spec fn tiny_shape() -> Shape {
    Shape { name: "tiny"@, dim: 32, heads: 4, layers: 2, vocab: 11 }
}

/// The paper's shape.
pub open spec fn paper_shape() -> Shape {
    Shape { name: "paper"@, dim: 256, heads: 8, layers: 2, vocab: 11 }
}

/// The shape with about seven million parameters.
pub open spec fn seven_m_shape() -> Shape {
    Shape { name: "7m"@, dim: 448, heads: 8, layers: 2, vocab: 11 }
}

/// The shape that a normalised name stands for.
pub open spec fn shape_named(key: Seq<char>) -> Option<Shape> {
    if key == "tiny"@ || key == "smoke"@ {
        Some(tiny_shape())
    } else if key == "paper"@ || key == "default"@ || key == "2.67m"@ {
        Some(paper_shape())
    } else if key == "7m"@ || key == "7"@ || key == "seven"@ {
        Some(seven_m_shape())
    } else {
        None
    }
}

/// Names are looked up without white space at their ends and without regard to case.
pub open spec fn normalised(name: Seq<char>) -> Seq<char> {
    text::lowered(text::trim(name))
}

/// No architecture has that name, given here as it was looked up.
#[derive(Debug, Clone, PartialEq, Eq)]
pub struct UnknownPreset {
    pub name: String,
}

impl Architecture {
    /// Gives a configuration the width, heads, depth and vocabulary of the architecture.
    pub fn apply_network<F>(&self, cfg: &mut NetworkConfig<F>)
        ensures
            *final(cfg) == (NetworkConfig {
                dim: self.dim,
                num_heads: self.heads,
                num_layers: self.layers,
                vocab_size: self.vocab,
                ..*old(cfg)
            }),
    {
        cfg.dim = self.dim;
        cfg.num_heads = self.heads;
        cfg.num_layers = self.layers;
        cfg.vocab_size = self.vocab;
    }
}

/// The smoke-test architecture.
pub fn tiny() -> (r: Architecture)
    ensures
        r@ == tiny_shape(),
{
    Architecture { name: "tiny", dim: 32, heads: 4, layers: 2, vocab: 11 }
}

/// The paper's architecture.
pub fn paper() -> (r: Architecture)
    ensures
        r@ == paper_shape(),
{
    Architecture { name: "paper", dim: 256, heads: 8, layers: 2, vocab: 11 }
}

/// The architecture with about seven million parameters: wider, not deeper.
pub fn seven_m() -> (r: Architecture)
    ensures
        r@ == seven_m_shape(),
{
    Architecture { name: "7m", dim: 448, heads: 8, layers: 2, vocab: 11 }
}

/// The architecture of that name.
pub fn parse(name: &str) -> (r: Result<Architecture, UnknownPreset>)
    ensures
        match r {
            Ok(a) => shape_named(normalised(name@)) == Some(a@),
            Err(e) => shape_named(normalised(name@)) is None && e.name@ == normalised(name@),
        },
{
    let trimmed = text::trimmed(name);
    let key = text::lower_text(trimmed.as_str());
    let k = key.as_str();
    if str_same(k, "tiny") || str_same(k, "smoke") {
        Ok(tiny())
    } else if str_same(k, "paper") || str_same(k, "default") || str_same(k, "2.67m") {
        Ok(paper())
    } else if str_same(k, "7m") || str_same(k, "7") || str_same(k, "seven") {
        Ok(seven_m())
    } else {
        Err(UnknownPreset { name: key })
    }
}

/// The width, heads and depth to use: those of the preset where one is named, else the ones
/// given.
pub fn resolve(preset: Option<&str>, dim: usize, heads: usize, layers: usize) -> (r: Result<
    (usize, usize, usize),
    UnknownPreset,
>)
    ensures
        match preset {
            None => r == Ok::<(usize, usize, usize), UnknownPreset>((dim, heads, layers)),
            Some(name) => match (shape_named(normalised(name@)), r) {
                (Some(s), Ok(t)) => t == (s.dim, s.heads, s.layers),
                (None, Err(e)) => e.name@ == normalised(name@),
                _ => false,
            },
        },
{
    match preset {
        None => Ok((dim, heads, layers)),
        Some(name) => match parse(name) {
            Ok(a) => Ok((a.dim, a.heads, a.layers)),
            Err(e) => Err(e),
        },
    }
}

/// A name stands for the same architecture in capital or small letters and with white space at
/// its ends.
pub proof fn names_ignore_case_and_space(name: Seq<char>, c: char)
    requires
        text::is_space(c),
    ensures
        shape_named(normalised(text::lowered(name))) == shape_named(normalised(name)),
        shape_named(normalised(seq![c] + name)) == shape_named(normalised(name)),
        shape_named(normalised(name.push(c))) == shape_named(normalised(name)),
{
    text_laws::trimming_and_lowering_commute(name);
    let t = text::trim(name);
    assert(text::lowered(text::lowered(t)) =~= text::lowered(t));
    text_laws::trimming_ignores_outer_space(name, c);
}

/// The width of every named architecture is a multiple of its heads, and its depth is two.
pub proof fn shapes_divide(key: Seq<char>)
    ensures
        shape_named(key) matches Some(s) ==> s.dim % s.heads == 0 && s.layers == 2,
{
}

} // verus!
