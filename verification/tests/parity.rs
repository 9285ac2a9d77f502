use trm_omega::arith::Arith;
use trm_omega::forward::{Layers, Pass, Site};
use trm_omega::kernel_dispatch::{DispatchError, Linear, NoBank, Norm, Part};
use trm_omega::network::{Block, NetworkConfig, SharedNetwork, TransformerBlock};
use trm_omega::quantize::{quantize_rowwise_ternary, unpack_ternary, TernaryPacked};
use trm_omega::tensor::DenseTensor;

type Dense = DenseTensor<f64>;

struct F64;

impl Arith for F64 {
    type Num = f64;

    fn whole(&self, n: i128) -> f64 {
        n as f64
    }
    fn plus(&self, a: f64, b: f64) -> f64 {
        a + b
    }
    fn minus(&self, a: f64, b: f64) -> f64 {
        a - b
    }
    fn times(&self, a: f64, b: f64) -> f64 {
        a * b
    }
    fn over(&self, a: f64, b: f64) -> f64 {
        a / b
    }
    fn negated(&self, a: f64) -> f64 {
        -a
    }
    fn magnitude(&self, a: f64) -> f64 {
        a.abs()
    }
    fn exp(&self, a: f64) -> f64 {
        a.exp()
    }
    fn sqrt(&self, a: f64) -> f64 {
        a.sqrt()
    }
    fn exceeds(&self, a: f64, b: f64) -> bool {
        a > b
    }
    fn lowest(&self) -> f64 {
        f64::NEG_INFINITY
    }
    fn speck(&self) -> f64 {
        1e-12
    }
}

fn at(d: &[usize], i: usize, j: usize, k: usize, l: usize) -> usize {
    ((i * d[1] + j) * d[2] + k) * d[3] + l
}

fn four(d: [usize; 4], f: impl Fn(usize, usize, usize, usize) -> f64) -> Result<Dense, String> {
    let mut data = Vec::new();
    for i in 0..d[0] {
        for j in 0..d[1] {
            for k in 0..d[2] {
                for l in 0..d[3] {
                    data.push(f(i, j, k, l));
                }
            }
        }
    }
    Ok(DenseTensor { dims: d.to_vec(), data })
}

fn each(a: &Dense, b: &Dense, f: impl Fn(f64, f64) -> f64) -> Result<Dense, String> {
    if a.dims != b.dims {
        return Err("shapes differ".to_string());
    }
    let data = a.data.iter().zip(b.data.iter()).map(|(x, y)| f(*x, *y)).collect();
    Ok(DenseTensor { dims: a.dims.clone(), data })
}

/// Tensor operations on plain numbers, with the layers of a block.
struct Plain<'a> {
    block: &'a TransformerBlock<f64>,
}

impl<'a> Pass for Plain<'a> {
    type N = f64;
    type A = F64;
    type B = NoBank;
    type T = Dense;
    type E = String;

    fn arith(&self) -> &F64 {
        &F64
    }
    fn bank(&self) -> &NoBank {
        &NoBank
    }
    fn plain(&self, xs: &Dense) -> Result<Dense, String> {
        Ok(xs.clone())
    }
    fn tensor(&self, xs: Dense) -> Result<Dense, String> {
        Ok(xs)
    }
    fn refused(&self, e: DispatchError) -> String {
        format!("{e:?}")
    }
    fn dims3(&self, xs: &Dense) -> Result<(usize, usize, usize), String> {
        match xs.dims[..] {
            [a, b, c] => Ok((a, b, c)),
            _ => Err("not three dimensions".to_string()),
        }
    }
    fn layer_norm(&self, _site: Site, xs: &Dense) -> Result<Dense, String> {
        let mut data = Vec::new();
        for row in xs.data.chunks(xs.dims[2]) {
            let n = row.len() as f64;
            let mean = row.iter().sum::<f64>() / n;
            let spread = row.iter().map(|x| (x - mean) * (x - mean)).sum::<f64>() / n;
            data.extend(row.iter().map(|x| (x - mean) / (spread + 1e-5).sqrt()));
        }
        Ok(DenseTensor { dims: xs.dims.clone(), data })
    }
    fn linear(&self, _site: Site, part: Part, xs: &Dense) -> Result<Dense, String> {
        let lin = match part {
            Part::Query => &self.block.attn.q_proj,
            Part::Key => &self.block.attn.k_proj,
            Part::Value => &self.block.attn.v_proj,
            Part::Output => &self.block.attn.o_proj,
            Part::Gate => &self.block.ffn.gate,
            Part::FfnValue => &self.block.ffn.value,
            Part::Down => &self.block.ffn.down,
        }
        .inner();
        let (out, n) = (lin.weight.dims[0], lin.weight.dims[1]);
        let mut data = Vec::new();
        for row in xs.data.chunks(n) {
            for o in 0..out {
                let w = &lin.weight.data[o * n..(o + 1) * n];
                let dot: f64 = w.iter().zip(row).map(|(a, b)| a * b).sum();
                data.push(dot + lin.bias.as_ref().map_or(0.0, |b| b[o]));
            }
        }
        Ok(DenseTensor { dims: vec![xs.dims[0], xs.dims[1], out], data })
    }
    fn dims4(&self, xs: &Dense) -> Result<(usize, usize, usize, usize), String> {
        match xs.dims[..] {
            [a, b, c, d] => Ok((a, b, c, d)),
            _ => Err("not four dimensions".to_string()),
        }
    }
    fn reshape3(&self, xs: &Dense, d: (usize, usize, usize)) -> Result<Dense, String> {
        Ok(DenseTensor { dims: vec![d.0, d.1, d.2], data: xs.data.clone() })
    }
    fn reshape4(&self, xs: &Dense, d: (usize, usize, usize, usize)) -> Result<Dense, String> {
        Ok(DenseTensor { dims: vec![d.0, d.1, d.2, d.3], data: xs.data.clone() })
    }
    fn transpose(&self, xs: &Dense, a: usize, b: usize) -> Result<Dense, String> {
        let d = &xs.dims;
        if (a, b) == (1, 2) {
            four([d[0], d[2], d[1], d[3]], |i, j, k, l| xs.data[at(d, i, k, j, l)])
        } else {
            four([d[0], d[1], d[3], d[2]], |i, j, k, l| xs.data[at(d, i, j, l, k)])
        }
    }
    fn contiguous(&self, xs: &Dense) -> Result<Dense, String> {
        Ok(xs.clone())
    }
    fn narrow(&self, xs: &Dense, dim: usize, start: usize, len: usize) -> Result<Dense, String> {
        let d = &xs.dims;
        if start + len > d[dim] {
            return Err("too few entries".to_string());
        }
        if dim == 0 {
            let data = xs.data[start * d[1]..(start + len) * d[1]].to_vec();
            return Ok(DenseTensor { dims: vec![len, d[1]], data });
        }
        four([d[0], d[1], d[2], len], |i, j, k, l| xs.data[at(d, i, j, k, start + l)])
    }
    fn table(&self, entries: &Vec<f64>, rows: usize, cols: usize) -> Result<Dense, String> {
        Ok(DenseTensor { dims: vec![rows, cols], data: entries.clone() })
    }
    fn joined(&self, a: &Dense, b: &Dense) -> Result<Dense, String> {
        let (d, e) = (&a.dims, &b.dims);
        four([d[0], d[1], d[2], d[3] + e[3]], |i, j, k, l| {
            if l < d[3] {
                a.data[at(d, i, j, k, l)]
            } else {
                b.data[at(e, i, j, k, l - d[3])]
            }
        })
    }
    fn pick_heads(&self, xs: &Dense, places: &Vec<usize>) -> Result<Dense, String> {
        let d = &xs.dims;
        four([d[0], places.len(), d[2], d[3]], |i, j, k, l| xs.data[at(d, i, places[j], k, l)])
    }
    fn matmul(&self, a: &Dense, b: &Dense) -> Result<Dense, String> {
        let (d, e) = (&a.dims, &b.dims);
        four([d[0], d[1], d[2], e[3]], |i, j, k, l| {
            (0..d[3]).map(|m| a.data[at(d, i, j, k, m)] * b.data[at(e, i, j, m, l)]).sum()
        })
    }
    fn scaled(&self, xs: &Dense, head_dim: usize) -> Result<Dense, String> {
        let root = (head_dim as f64).sqrt();
        let data = xs.data.iter().map(|x| x / root).collect();
        Ok(DenseTensor { dims: xs.dims.clone(), data })
    }
    fn masked(&self, scores: &Dense, mask: &Dense) -> Result<Dense, String> {
        let (d, e) = (&scores.dims, &mask.dims);
        four([d[0], d[1], d[2], d[3]], |i, j, k, l| {
            let b = if e[0] == 1 { 0 } else { i };
            scores.data[at(d, i, j, k, l)] + mask.data[at(e, b, 0, k, l)]
        })
    }
    fn softmax(&self, xs: &Dense) -> Result<Dense, String> {
        let mut data = Vec::new();
        for row in xs.data.chunks(xs.dims[3]) {
            let top = row.iter().fold(f64::NEG_INFINITY, |a, b| a.max(*b));
            let weights: Vec<f64> = row.iter().map(|x| (x - top).exp()).collect();
            let sum: f64 = weights.iter().sum();
            data.extend(weights.iter().map(|w| w / sum));
        }
        Ok(DenseTensor { dims: xs.dims.clone(), data })
    }
    fn silu(&self, xs: &Dense) -> Result<Dense, String> {
        let data = xs.data.iter().map(|x| x / (1.0 + (-x).exp())).collect();
        Ok(DenseTensor { dims: xs.dims.clone(), data })
    }
    fn times(&self, a: &Dense, b: &Dense) -> Result<Dense, String> {
        if a.dims == b.dims {
            return each(a, b, |x, y| x * y);
        }
        let (d, e) = (&a.dims, &b.dims);
        four([d[0], d[1], d[2], d[3]], |i, j, k, l| {
            a.data[at(d, i, j, k, l)] * b.data[at(e, 0, 0, k, l)]
        })
    }
    fn minus(&self, a: &Dense, b: &Dense) -> Result<Dense, String> {
        each(a, b, |x, y| x - y)
    }
    fn plus(&self, a: &Dense, b: &Dense) -> Result<Dense, String> {
        each(a, b, |x, y| x + y)
    }
    fn fold(&self, _xs: &Dense, _dims: (usize, usize, usize)) -> Result<Dense, String> {
        Err("not part of a transformer".to_string())
    }
    fn unfold(&self, _xs: &Dense, _dims: (usize, usize, usize)) -> Result<Dense, String> {
        Err("not part of a transformer".to_string())
    }
}

fn wave(i: usize) -> f64 {
    ((i * 7 + 3) % 11) as f64 / 5.0 - 1.0
}

fn make(name: &str, inputs: usize, outputs: usize) -> Result<Linear<f64>, String> {
    let weights = (0..inputs * outputs).map(|i| wave(i + 5 * name.len() + i / inputs)).collect();
    Ok(Linear {
        weight: DenseTensor { dims: vec![outputs, inputs], data: weights },
        bias: Some((0..outputs).map(|i| wave(i * i) / 4.0).collect()),
    })
}

fn quantize(w: &Dense) -> TernaryPacked<f64> {
    quantize_rowwise_ternary(&F64, &w.data, w.dims[0], w.dims[1])
}

fn make_unpacked(name: &str, inputs: usize, outputs: usize) -> Result<Linear<f64>, String> {
    let mut lin = make(name, inputs, outputs)?;
    let weights = unpack_ternary(&F64, &quantize(&lin.weight));
    assert_ne!(weights, lin.weight.data);
    lin.weight.data = weights;
    Ok(lin)
}

fn make_ln(_name: &str, dim: usize) -> Result<Norm<f64>, String> {
    Ok(Norm { weight: vec![1.0; dim], bias: None })
}

fn angle(pos: usize, i: usize) -> (f64, f64) {
    let a = pos as f64 / (i + 1) as f64;
    (a.cos(), a.sin())
}

type Net = SharedNetwork<f64, f64>;

/// A packed network and the network of its unpacked weights.
fn networks() -> (Net, Net) {
    let mut cfg: NetworkConfig<f64> = NetworkConfig::standard(8.0 / 3.0, 0.0, 10_000.0);
    cfg.dim = 16;
    cfg.num_heads = 4;
    cfg.num_kv_heads = Some(2);
    cfg.max_seq_len = 4;
    let mut packed = SharedNetwork::new(&make, &make_ln, &angle, "net", cfg, 24).ok().unwrap();
    packed.pack_from_weights(&quantize).unwrap();
    assert!(packed.transformer_stack_packed());
    let plain = SharedNetwork::new(&make_unpacked, &make_ln, &angle, "net", cfg, 24).ok().unwrap();
    assert_eq!(plain.packed_linear_count(), 0);
    (packed, plain)
}

fn block(net: &Net, i: usize) -> Plain<'_> {
    match &net.blocks[i] {
        Block::Transformer(b) => Plain { block: b },
        Block::Mixer(_) => unreachable!(),
    }
}

struct PlainLayers<'a> {
    passes: Vec<Plain<'a>>,
}

fn layers(net: &Net) -> PlainLayers<'_> {
    PlainLayers { passes: (0..net.blocks.len()).map(|i| block(net, i)).collect() }
}

impl<'a> Layers<f64> for PlainLayers<'a> {
    type P = Plain<'a>;

    fn block(&self, i: usize) -> &Plain<'a> {
        &self.passes[i]
    }
    fn copy(&self, xs: &Dense) -> Dense {
        xs.clone()
    }
}

fn sample() -> Dense {
    DenseTensor { dims: vec![2, 3, 16], data: (0..96).map(wave).collect() }
}

fn causal(batch: usize) -> Dense {
    let low = f64::NEG_INFINITY;
    let one = [0.0, low, low, 0.0, 0.0, low, 0.0, 0.0, 0.0];
    DenseTensor { dims: vec![batch, 1, 3, 3], data: one.repeat(batch) }
}

fn assert_alike(y: &Dense, z: &Dense) {
    assert_eq!(y.dims, z.dims);
    for (a, b) in y.data.iter().zip(z.data.iter()) {
        assert!((a - b).abs() < 1e-9, "{a} is not {b}");
    }
}

fn attend(mask: Option<&Dense>) -> Vec<f64> {
    let (packed, plain) = networks();
    let (p, u) = (block(&packed, 0), block(&plain, 0));
    let rope = packed.rope.as_ref().unwrap();
    let y = p.block.attn.forward(&p, rope, &sample(), mask).unwrap();
    let z = u.block.attn.forward(&u, rope, &sample(), mask).unwrap();
    assert_eq!(y.dims, sample().dims);
    assert_alike(&y, &z);
    z.data
}

#[test]
fn packed_and_unpacked_attention_agree() {
    let free = attend(None);
    let masked = attend(Some(&causal(1)));
    assert_ne!(free, masked);
    assert_eq!(attend(Some(&causal(2))), masked);
    // the last position sees all others either way
    assert_eq!(free[32..48], masked[32..48]);
}

#[test]
fn packed_and_unpacked_feed_forward_layers_agree() {
    let (packed, plain) = networks();
    let (p, u) = (block(&packed, 1), block(&plain, 1));
    let y = p.block.ffn.forward(&p, Site::FeedForward, &sample()).unwrap();
    let z = u.block.ffn.forward(&u, Site::FeedForward, &sample()).unwrap();
    assert_eq!(y.dims, sample().dims);
    assert_alike(&y, &z);
    assert_ne!(y.data, sample().data);
}

#[test]
fn packed_and_unpacked_networks_agree() {
    let (packed, plain) = networks();
    let xs = sample();
    for mask in [None, Some(causal(2)), Some(causal(1))] {
        let y = packed.forward(&layers(&packed), 0.0, &xs, mask.as_ref()).ok().unwrap();
        let z = plain.forward(&layers(&plain), 0.0, &xs, mask.as_ref()).ok().unwrap();
        assert_eq!(y.dims, xs.dims);
        assert_alike(&y, &z);
    }
    // the weights themselves are not those before packing
    let before = SharedNetwork::new(&make, &make_ln, &angle, "net", *packed.config(), 24);
    let before = before.ok().unwrap();
    let z = before.forward(&layers(&before), 0.0, &xs, None).ok().unwrap();
    let y = packed.forward(&layers(&packed), 0.0, &xs, None).ok().unwrap();
    assert!(y.data.iter().zip(z.data.iter()).any(|(a, b)| (a - b).abs() > 1e-3));
}
