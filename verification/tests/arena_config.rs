use murk::arena::config::ArenaConfig;

#[test]
fn default_segment_size_is_64mb() {
    let config = ArenaConfig::new(100);
    assert_eq!(config.segment_bytes(), 64 * 1024 * 1024);
}

#[test]
fn cell_count_preserved() {
    let config = ArenaConfig::new(10_000);
    assert_eq!(config.cell_count, 10_000);
}

#[test]
fn default_config_has_no_cells() {
    let config = ArenaConfig::default();
    assert_eq!(config.cell_count, 0);
    assert_eq!(config.segment_size, 16_777_216);
    assert_eq!(config.max_segments, 16);
    assert_eq!(config.max_generation_age, 1);
}
