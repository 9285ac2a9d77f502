use trm_omega::named::NameMap;
use trm_omega::network::NetworkConfig;
use trm_omega::quantize::TernaryPacked;
use trm_omega::recursion::{ModelConfig, TrmConfig};
use trm_omega::tensor::DenseTensor;
use trm_omega::trmq10::{
    apply_named, is_trmq10, load_trmq10, model_format, part_named, read_name, save_trmq10,
    write_bundle, write_name, ApplyError, Bundle, LoadError, ModelFormat, TrmqHeader, MAGIC,
};

fn config() -> ModelConfig<f64> {
    let mut net_cfg = NetworkConfig::standard(2.0, 0.0, 10_000.0);
    net_cfg.dim = 32;
    net_cfg.num_heads = 4;
    net_cfg.max_seq_len = 243;
    ModelConfig {
        net_cfg,
        trm_cfg: TrmConfig {
            z_seq: 81,
            n_l_cycles: 6,
            n_sup: 16,
            max_puzzles: 4096,
            use_learned_halt_head: true,
            use_deq: false,
        },
    }
}

fn header() -> TrmqHeader {
    TrmqHeader::from_model(&config())
}

fn pack(out_dim: usize, in_dim: usize) -> TernaryPacked<u32> {
    TernaryPacked {
        out_dim,
        in_dim,
        packed: (0..out_dim * in_dim / 4).map(|i| i as u8).collect(),
        alphas: (0..out_dim as u32).map(|i| 1.0f32.to_bits() + i).collect(),
    }
}

fn dense(dims: &[usize], data: &[f32]) -> DenseTensor<u32> {
    DenseTensor { dims: dims.to_vec(), data: data.iter().map(|x| x.to_bits()).collect() }
}

fn bundle() -> Bundle {
    let mut quantized = NameMap::new();
    quantized.insert("b.weight".to_string(), pack(2, 8));
    quantized.insert("a.weight".to_string(), pack(1, 4));
    let mut fp32 = NameMap::new();
    fp32.insert("bias".to_string(), dense(&[3], &[0.5, -1.0, f32::INFINITY]));
    fp32.insert("scalar".to_string(), dense(&[], &[2.5]));
    fp32.insert("empty".to_string(), dense(&[0, 7], &[]));
    Bundle { header: header(), quantized, fp32 }
}

fn why(bytes: &[u8]) -> LoadError {
    match load_trmq10(bytes) {
        Ok(_) => panic!("the bundle loaded"),
        Err(e) => e,
    }
}

#[test]
fn a_bundle_reads_back_as_it_was_written() {
    let b = bundle();
    let bytes = write_bundle(&b);
    assert_eq!(&bytes[..6], &MAGIC);
    assert!(is_trmq10(&bytes));
    let back = load_trmq10(&bytes).ok().unwrap();
    assert_eq!(back.header, b.header);
    assert_eq!(back.quantized.len(), 2);
    assert_eq!(back.quantized.name_at(0), "a.weight");
    for i in 0..2 {
        let (x, y) = (back.quantized.value_at(i), b.quantized.value_at(i));
        assert_eq!((x.out_dim, x.in_dim), (y.out_dim, y.in_dim));
        assert_eq!(x.packed, y.packed);
        assert_eq!(x.alphas, y.alphas);
    }
    assert_eq!(back.fp32.len(), 3);
    for i in 0..3 {
        assert_eq!(back.fp32.name_at(i), b.fp32.name_at(i));
        assert_eq!(back.fp32.value_at(i).dims, b.fp32.value_at(i).dims);
        assert_eq!(back.fp32.value_at(i).data, b.fp32.value_at(i).data);
    }
}

#[test]
fn the_first_bytes_are_magic_version_and_header() {
    let bytes = write_bundle(&Bundle {
        header: header(),
        quantized: NameMap::new(),
        fp32: NameMap::new(),
    });
    assert_eq!(&bytes[..6], b"TRMQ10");
    assert_eq!(&bytes[6..8], &[1, 0]);
    assert_eq!(&bytes[8..12], &[32, 0, 0, 0]);
    assert_eq!(&bytes[12..16], &[4, 0, 0, 0]);
    assert_eq!(&bytes[16..20], &[243, 0, 0, 0]);
    // ten header words, then two empty tables
    assert_eq!(bytes.len(), 8 + 40 + 8);
    assert_eq!(&bytes[48..], &[0; 8]);
}

#[test]
fn a_cut_bundle_ends_too_early() {
    let bytes = write_bundle(&bundle());
    for n in 6..bytes.len() {
        assert_eq!(why(&bytes[..n]), LoadError::UnexpectedEof);
    }
    assert_eq!(why(&bytes[..3]), LoadError::UnexpectedEof);
}

#[test]
fn foreign_files_and_versions_are_refused() {
    let mut bytes = write_bundle(&bundle());
    bytes[6] = 9;
    assert_eq!(why(&bytes), LoadError::UnsupportedVersion(9));
    bytes[0] = b'X';
    assert_eq!(why(&bytes), LoadError::NotTrmq10);
    assert!(!is_trmq10(&bytes));
    assert!(!is_trmq10(b"TRM"));
}

#[test]
fn names_are_length_and_text() {
    let mut out = Vec::new();
    write_name(&mut out, "w\u{e9}");
    assert_eq!(out, vec![3, 0, 0, 0, b'w', 0xc3, 0xa9]);
    let (name, next) = read_name(&out, 0).unwrap();
    assert_eq!((name.as_str(), next), ("w\u{e9}", 7));
    assert_eq!(read_name(&[2, 0, 0, 0, 0xff, 0xfe], 0).unwrap_err(), LoadError::InvalidName);
    assert_eq!(read_name(&[2, 0, 0, 0, b'a'], 0).unwrap_err(), LoadError::UnexpectedEof);
}

#[test]
fn the_header_keeps_the_shape_of_the_model() {
    let h = header();
    let mut base = NetworkConfig::standard(2.0, 0.0, 10_000.0);
    base.dropout_p = 0.25;
    let net = h.network_config(base);
    assert_eq!((net.dim, net.num_heads, net.max_seq_len, net.num_layers), (32, 4, 243, 2));
    assert_eq!(net.dropout_p, 0.25);
    let trm = h.trm_config(true);
    assert_eq!((trm.z_seq, trm.n_l_cycles, trm.n_sup, trm.max_puzzles), (81, 6, 16, 4096));
    assert!(trm.use_learned_halt_head);
    assert!(trm.use_deq);
    assert!(!h.trm_config(false).use_deq);
}

fn quantize(w: &Vec<u32>, out_dim: usize, in_dim: usize) -> TernaryPacked<u32> {
    TernaryPacked {
        out_dim,
        in_dim,
        packed: vec![w.len() as u8; out_dim * in_dim / 4],
        alphas: vec![7; out_dim],
    }
}

fn named() -> Vec<(String, DenseTensor<u32>)> {
    vec![
        ("net.gate.weight".to_string(), dense(&[2, 4], &[1.0; 8])),
        ("net.odd.weight".to_string(), dense(&[2, 3], &[1.0; 6])),
        ("net.gate.bias".to_string(), dense(&[2], &[0.0; 2])),
    ]
}

#[test]
fn matrices_that_can_be_packed_are_packed_and_the_rest_kept() {
    let (q, f) = part_named(&named(), &quantize);
    assert_eq!(q.len(), 1);
    assert_eq!(q.name_at(0), "net.gate.weight");
    assert_eq!(f.len(), 2);
    assert!(f.get("net.odd.weight").is_some() && f.get("net.gate.bias").is_some());
}

#[test]
fn a_saved_model_loads() {
    let bytes = save_trmq10(&config(), &named(), &quantize);
    let b = load_trmq10(&bytes).ok().unwrap();
    assert_eq!(b.header, header());
    assert_eq!(b.quantized.get("net.gate.weight").unwrap().packed, vec![8, 8]);
    assert_eq!(b.fp32.get("net.odd.weight").unwrap().dims, vec![2, 3]);
}

#[test]
fn the_format_is_told_by_the_magic() {
    assert!(matches!(model_format(b"TRMQ10 and more"), ModelFormat::Trmq10));
    assert!(matches!(model_format(b"{\"__metadata__\""), ModelFormat::Safetensors));
    assert!(matches!(model_format(b""), ModelFormat::Safetensors));
}

fn vars() -> NameMap<DenseTensor<u32>> {
    let mut v = NameMap::new();
    v.insert("a.weight".to_string(), dense(&[1, 4], &[0.0; 4]));
    v.insert("bias".to_string(), dense(&[2], &[0.0; 2]));
    v
}

#[test]
fn loaded_tensors_replace_the_variables() {
    let mut q = NameMap::new();
    q.insert("a.weight".to_string(), pack(1, 4));
    let mut f = NameMap::new();
    f.insert("bias".to_string(), dense(&[2], &[1.0, 2.0]));
    let unpack = |p: &TernaryPacked<u32>| vec![5u32; p.out_dim * p.in_dim];
    let out = apply_named(vars(), &q, &f, &unpack).ok().unwrap();
    assert_eq!(out.get("a.weight").unwrap().data, vec![5; 4]);
    assert_eq!(out.get("bias").unwrap().data, dense(&[2], &[1.0, 2.0]).data);
}

#[test]
fn tensors_that_do_not_fit_the_model_are_refused() {
    let unpack = |p: &TernaryPacked<u32>| vec![5u32; p.out_dim * p.in_dim];
    let short = |_: &TernaryPacked<u32>| vec![5u32; 3];
    let none: NameMap<TernaryPacked<u32>> = NameMap::new();
    let mut q = NameMap::new();
    q.insert("a.weight".to_string(), pack(1, 4));
    let empty: NameMap<DenseTensor<u32>> = NameMap::new();
    assert!(matches!(
        apply_named(vars(), &q, &empty, &short),
        Err(ApplyError::Unpack(n)) if n == "a.weight"
    ));
    let mut f = NameMap::new();
    f.insert("who".to_string(), dense(&[1], &[1.0]));
    assert!(matches!(
        apply_named(vars(), &none, &f, &unpack),
        Err(ApplyError::NotInModel(n)) if n == "who"
    ));
    let mut f = NameMap::new();
    f.insert("bias".to_string(), dense(&[3], &[1.0; 3]));
    assert!(matches!(
        apply_named(vars(), &none, &f, &unpack),
        Err(ApplyError::Shape(n)) if n == "bias"
    ));
}
