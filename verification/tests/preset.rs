use trm_omega::network::NetworkConfig;
use trm_omega::preset::{paper, parse, resolve, seven_m, tiny};

#[test]
fn resolve_without_preset_keeps_cli() {
    assert_eq!(resolve(None, 99, 3, 2).unwrap(), (99, 3, 2));
}

#[test]
fn resolve_preset_overrides_cli_dim() {
    assert_eq!(resolve(Some("7m"), 256, 8, 2).unwrap(), (448, 8, 2));
}

#[test]
fn parse_7m_is_dim_448_heads_8_layers_2() {
    let a = parse("7m").expect("7m preset");
    assert_eq!(a.name, "7m");
    assert_eq!(a.dim, 448);
    assert_eq!(a.heads, 8);
    assert_eq!(a.layers, 2);
    assert_eq!(a.vocab, 11);
    assert_eq!(a.dim % a.heads, 0);
}

#[test]
fn parse_aliases() {
    assert_eq!(parse("7M").unwrap().name, "7m");
    assert_eq!(parse("paper").unwrap().dim, 256);
    assert_eq!(parse("tiny").unwrap().dim, 32);
    assert!(parse("not-a-preset").is_err());
}

#[test]
fn every_alias_leads_to_its_architecture() {
    for name in ["tiny", "smoke", " Smoke\n"] {
        assert_eq!(parse(name).unwrap(), tiny());
    }
    for name in ["paper", "DEFAULT", "2.67M"] {
        assert_eq!(parse(name).unwrap(), paper());
    }
    for name in ["7m", "7", "\tseven "] {
        assert_eq!(parse(name).unwrap(), seven_m());
    }
}

#[test]
fn an_unknown_preset_is_named_as_it_was_looked_up() {
    assert_eq!(parse("  Huge ").unwrap_err().name, "huge");
    assert_eq!(resolve(Some("Huge"), 1, 1, 1).unwrap_err().name, "huge");
    assert_eq!(parse("").unwrap_err().name, "");
}

#[test]
fn applying_an_architecture_leaves_the_rest_alone() {
    let mut cfg = NetworkConfig::standard(2.0f64, 0.0, 10_000.0);
    cfg.max_seq_len = 243;
    seven_m().apply_network(&mut cfg);
    assert_eq!((cfg.dim, cfg.num_heads, cfg.num_layers, cfg.vocab_size), (448, 8, 2, 11));
    assert_eq!(cfg.max_seq_len, 243);
    assert_eq!(cfg.rope_base, 10_000.0);
}

#[test]
fn named_shapes_divide_evenly() {
    for a in [tiny(), paper(), seven_m()] {
        assert_eq!(a.dim % a.heads, 0);
        assert_eq!(a.layers, 2);
    }
}
