use redstone_java::compiled::passes::optimize_dependencies;
use redstone_java::compiled::window::{
    RecompileWindow, AUTO_RECOMPILE_LIMIT, AUTO_RECOMPILE_WINDOW_TICKS,
};
use redstone_java::position::{BlockPos, Direction};
use redstone_java::update_order::{default_wire_update_positions, java_hash_map_bucket};

#[test]
fn default_wire_positions_follow_java_hash_set_bucket_order() {
    let pos = BlockPos::new(1, 1, 0);

    assert_eq!(
        default_wire_update_positions(pos),
        [
            pos,
            pos.relative(Direction::North),
            pos.relative(Direction::Down),
            pos.relative(Direction::South),
            pos.relative(Direction::East),
            pos.relative(Direction::Up),
            pos.relative(Direction::West),
        ]
    );
}

#[test]
fn hash_buckets_spread_the_java_position_hash() {
    assert_eq!(java_hash_map_bucket(BlockPos::new(0, 0, 0)), 0);
    assert_eq!(java_hash_map_bucket(BlockPos::new(1, 0, 0)), 1);
    assert_eq!(java_hash_map_bucket(BlockPos::new(0, 1, 0)), 15);
    assert_eq!(java_hash_map_bucket(BlockPos::new(0, 0, 1)), 1);
    assert_eq!(java_hash_map_bucket(BlockPos::new(0, 0, 70_000)), 2);
    assert_eq!(java_hash_map_bucket(BlockPos::new(-5, 3, -100)), 10);
}

#[test]
fn duplicate_dependencies_are_removed_in_stable_order() {
    let mut dependencies = vec![
        BlockPos::new(2, 0, 0),
        BlockPos::new(1, 0, 0),
        BlockPos::new(2, 0, 0),
    ];

    optimize_dependencies(&mut dependencies);

    assert_eq!(
        dependencies.as_slice(),
        [BlockPos::new(1, 0, 0), BlockPos::new(2, 0, 0)]
    );
}

#[test]
fn dependencies_sort_by_x_then_y_then_z() {
    let mut dependencies = vec![
        BlockPos::new(0, 1, 0),
        BlockPos::new(0, 0, 5),
        BlockPos::new(-1, 9, 9),
        BlockPos::new(0, 0, 5),
    ];
    optimize_dependencies(&mut dependencies);
    assert_eq!(
        dependencies,
        [BlockPos::new(-1, 9, 9), BlockPos::new(0, 0, 5), BlockPos::new(0, 1, 0)]
    );
}

fn reason(count: usize) -> String {
    format!(
        "{} topology recompilations within {} game ticks",
        count, AUTO_RECOMPILE_WINDOW_TICKS
    )
}

#[test]
fn auto_recompile_window_falls_back_after_more_than_ten_recompilations() {
    let mut window = RecompileWindow::new();
    for tick in 0..10 {
        assert!(window.auto_recompile_fallback_reason(true, tick * 19).is_none());
    }
    let count = window.auto_recompile_fallback_reason(true, 199).unwrap();
    assert!(reason(count).contains("11 topology recompilations within 200 game ticks"));
}

#[test]
fn auto_recompile_window_resets_and_forced_compiled_never_falls_back() {
    let mut auto = RecompileWindow::new();
    for tick in 0..10 {
        assert!(auto.auto_recompile_fallback_reason(true, tick).is_none());
    }
    assert!(auto.auto_recompile_fallback_reason(true, 200).is_none());

    let mut compiled = RecompileWindow::new();
    for tick in 0..20 {
        assert!(compiled.auto_recompile_fallback_reason(false, tick).is_none());
    }
}

#[test]
fn an_earlier_tick_restarts_the_window() {
    let mut window = RecompileWindow::new();
    for tick in 100..110 {
        assert!(window.auto_recompile_fallback_reason(true, tick).is_none());
    }
    assert!(window.auto_recompile_fallback_reason(true, 50).is_none());
    for tick in 51..60 {
        assert!(window.auto_recompile_fallback_reason(true, tick).is_none());
    }
    assert_eq!(window.auto_recompile_fallback_reason(true, 60), Some(AUTO_RECOMPILE_LIMIT));
    window.clear();
    assert!(window.auto_recompile_fallback_reason(true, 61).is_none());
}
