use trm_omega::arith::Arith;
use trm_omega::quantize::{pack_levels, quantize_rowwise_ternary, unpack_ternary, unpack_w};

struct F32;

impl Arith for F32 {
    type Num = f32;

    fn whole(&self, n: i128) -> f32 {
        n as f32
    }
    fn plus(&self, a: f32, b: f32) -> f32 {
        a + b
    }
    fn minus(&self, a: f32, b: f32) -> f32 {
        a - b
    }
    fn times(&self, a: f32, b: f32) -> f32 {
        a * b
    }
    fn over(&self, a: f32, b: f32) -> f32 {
        a / b
    }
    fn negated(&self, a: f32) -> f32 {
        -a
    }
    fn magnitude(&self, a: f32) -> f32 {
        a.abs()
    }
    fn exp(&self, a: f32) -> f32 {
        a.exp()
    }
    fn sqrt(&self, a: f32) -> f32 {
        a.sqrt()
    }
    fn exceeds(&self, a: f32, b: f32) -> bool {
        a > b
    }
    fn lowest(&self) -> f32 {
        f32::NEG_INFINITY
    }
    fn speck(&self) -> f32 {
        1e-12
    }
}

fn relative_l2_error(a: &[f32], b: &[f32]) -> f32 {
    let diff: f32 = a.iter().zip(b.iter()).map(|(x, y)| (x - y) * (x - y)).sum();
    let norm: f32 = a.iter().map(|x| x * x).sum();
    diff.sqrt() / norm.sqrt().max(1e-12)
}

#[test]
fn pack_unpack_roundtrip_and_l2_bound() {
    let out_dim = 8;
    let in_dim = 16;
    let weights: Vec<f32> = (0..(out_dim * in_dim))
        .map(|i| ((i % 13) as f32 / 6.0) - 1.0)
        .collect();
    let packed = quantize_rowwise_ternary(&F32, &weights, out_dim, in_dim);
    let unpacked = unpack_ternary(&F32, &packed);
    assert_eq!(unpacked.len(), weights.len());
    assert_eq!(packed.alphas.len(), out_dim);

    let err = relative_l2_error(&weights, &unpacked);
    assert!(err.is_finite());
    assert!(
        err < 0.85,
        "row-wise ternary relative L2 {err} is unreasonably high"
    );

    for o in 0..out_dim {
        let alpha = packed.alphas[o];
        for j in 0..in_dim {
            let v = unpacked[o * in_dim + j];
            let level = v / alpha.max(1e-8);
            let ok = (level - (-1.0)).abs() < 1e-5
                || level.abs() < 1e-5
                || (level - 1.0).abs() < 1e-5;
            assert!(ok, "unpacked[{o},{j}]={v} is not alpha {alpha} times ternary");
        }
    }
}

#[test]
fn codes_stand_for_minus_one_zero_and_one() {
    // 00, 01, 10, 00 from the low bits up
    let byte = 0b00_10_01_00u8;
    assert_eq!(unpack_w(byte, 0), -1);
    assert_eq!(unpack_w(byte, 1), 0);
    assert_eq!(unpack_w(byte, 2), 1);
    assert_eq!(unpack_w(byte, 3), -1);
}

#[test]
fn levels_pack_four_to_a_byte() {
    assert_eq!(pack_levels(&vec![-1, 0, 1, -1]), vec![0b00_10_01_00u8]);
    assert_eq!(pack_levels(&vec![1, 1, 1, 1, 0, 0, 0, 0]), vec![0b10101010u8, 0b01010101]);
    assert_eq!(pack_levels(&vec![]), Vec::<u8>::new());
}

#[test]
fn a_row_is_scaled_by_its_mean_magnitude() {
    let packed = quantize_rowwise_ternary(&F32, &[2.0, -2.0, 0.5, -0.5], 1, 4);
    assert_eq!(packed.alphas, vec![1.25]);
    assert_eq!(unpack_ternary(&F32, &packed), vec![1.25, -1.25, 0.0, 0.0]);
}

#[test]
fn a_row_of_zeros_stays_zero() {
    let packed = quantize_rowwise_ternary(&F32, &[0.0; 8], 2, 4);
    assert_eq!(packed.alphas, vec![0.0, 0.0]);
    assert_eq!(unpack_ternary(&F32, &packed), vec![0.0; 8]);
}

#[test]
fn a_pack_without_rows_is_empty() {
    let packed = quantize_rowwise_ternary(&F32, &[], 0, 4);
    assert!(packed.packed.is_empty() && packed.alphas.is_empty());
    assert!(unpack_ternary(&F32, &packed).is_empty());
}

#[test]
fn duplicates_hold_the_same_weights() {
    let packed = quantize_rowwise_ternary(&F32, &[1.0, -1.0, 0.0, 1.0], 1, 4);
    let copy = packed.duplicate();
    assert_eq!(copy.packed, packed.packed);
    assert_eq!(copy.alphas, packed.alphas);
    assert_eq!((copy.out_dim, copy.in_dim), (1, 4));
}
