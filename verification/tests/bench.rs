use murk::bench::init_agent_positions;

#[test]
fn init_agent_positions_no_collisions() {
    let positions = init_agent_positions(100, 10, 42);
    assert_eq!(positions.len(), 10);

    let indices: Vec<usize> = positions.iter().map(|&(_, idx)| idx).collect();
    let unique: std::collections::HashSet<usize> = indices.iter().copied().collect();
    assert_eq!(unique.len(), 10, "all positions should be unique");

    for &(_, idx) in &positions {
        assert!(idx < 100, "position {idx} out of bounds");
    }
}

#[test]
fn init_agent_positions_deterministic() {
    let a = init_agent_positions(1000, 5, 42);
    let b = init_agent_positions(1000, 5, 42);
    assert_eq!(a, b);
}

#[test]
fn init_agent_positions_zero_cells_returns_empty() {
    let positions = init_agent_positions(0, 5, 42);
    assert!(positions.is_empty());
}

#[test]
fn init_agent_positions_more_agents_than_cells_clamps() {
    let positions = init_agent_positions(3, 10, 42);
    assert_eq!(positions.len(), 3);

    let indices: Vec<usize> = positions.iter().map(|&(_, idx)| idx).collect();
    let unique: std::collections::HashSet<usize> = indices.iter().copied().collect();
    assert_eq!(unique.len(), 3, "all positions should be unique");
}

#[test]
fn init_agent_positions_exactly_fills_grid() {
    let positions = init_agent_positions(4, 4, 99);
    assert_eq!(positions.len(), 4);

    let indices: Vec<usize> = positions.iter().map(|&(_, idx)| idx).collect();
    let unique: std::collections::HashSet<usize> = indices.iter().copied().collect();
    assert_eq!(unique.len(), 4);
}

#[test]
fn init_agent_positions_first_agent_at_seeded_hash() {
    // Agent 0 starts at seed * 6364136223846793005 (wrapping) modulo the cell count.
    let seed: u64 = 42;
    let expected = (seed.wrapping_mul(6364136223846793005) % 100) as usize;
    let positions = init_agent_positions(100, 1, seed);
    assert_eq!(positions, vec![(0u16, expected)]);
}

#[test]
fn init_agent_positions_agent_ids_count_up() {
    let positions = init_agent_positions(50, 20, 7);
    for (i, &(id, _)) in positions.iter().enumerate() {
        assert_eq!(id as usize, i);
    }
}

#[test]
fn init_agent_positions_many_agents_do_not_overflow() {
    // Indices beyond 12 make the index hash wrap; placement still works.
    let positions = init_agent_positions(200, 100, 3);
    assert_eq!(positions.len(), 100);
    let unique: std::collections::HashSet<usize> = positions.iter().map(|&(_, p)| p).collect();
    assert_eq!(unique.len(), 100);
}

#[test]
fn init_agent_positions_probes_past_taken_cell() {
    // One cell: every agent after the first would collide; only one is placed.
    let positions = init_agent_positions(1, 3, 5);
    assert_eq!(positions, vec![(0u16, 0usize)]);
    // Two cells, two agents: the second takes the other cell.
    let positions = init_agent_positions(2, 2, 5);
    assert_eq!(positions.len(), 2);
    assert_ne!(positions[0].1, positions[1].1);
}
