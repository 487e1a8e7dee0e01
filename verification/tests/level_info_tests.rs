use levelgen::level_info::LevelInfo;

#[test]
fn starts_at_first_world() {
    let info = LevelInfo::new();
    assert_eq!(info.world(), 1);
    assert_eq!(info.level(), 0);
    let by_default = LevelInfo::default();
    assert_eq!(by_default.world(), 1);
    assert_eq!(by_default.level(), 0);
}

#[test]
fn level_counter_rolls_over_after_four_levels() {
    let mut info = LevelInfo::new();
    let expected = [(1u8, 1u8), (1, 2), (1, 3), (1, 4), (2, 1), (2, 2), (2, 3), (2, 4), (3, 1)];
    for &(world, level) in expected.iter() {
        info.update();
        assert_eq!(info.world(), world);
        assert_eq!(info.level(), level);
    }
}
