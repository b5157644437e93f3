use rain_collected::accumulate::{depth, fold_step, pour};
use rain_collected::index_of_maximum;
use rain_collected::stair::{fold_ascending, fold_descending};
use rain_collected::terrain::{elevation_from, random_terrain};
use rain_collected::{compute_rain_collected, trap};

#[test]
fn depth_is_the_difference_or_nothing() {
    assert_eq!(depth(5, 2), 3);
    assert_eq!(depth(2, 2), 0);
    assert_eq!(depth(2, 5), 0);
    assert_eq!(depth(-2, -5), 3);
    assert_eq!(depth(i64::MAX, i64::MIN), u64::MAX);
    assert_eq!(depth(i64::MIN, i64::MAX), 0);
    assert_eq!(depth(0, i64::MIN), 1u64 << 63);
}

#[test]
fn pour_adds_modulo_two_to_the_64() {
    assert_eq!(pour(0, 0), 0);
    assert_eq!(pour(2, 3), 5);
    assert_eq!(pour(u64::MAX, 0), u64::MAX);
    assert_eq!(pour(u64::MAX, 1), 0);
    assert_eq!(pour(u64::MAX, u64::MAX), u64::MAX - 1);
}

#[test]
fn fold_step_raises_the_stair_before_it_measures() {
    assert_eq!(fold_step((i64::MIN, 0), 4), (4, 0));
    assert_eq!(fold_step((4, 0), 1), (4, 3));
    assert_eq!(fold_step((4, 3), 4), (4, 3));
    assert_eq!(fold_step((4, 3), 6), (6, 3));
    assert_eq!(fold_step((i64::MAX, 1), i64::MIN), (i64::MAX, 0));
}

#[test]
fn fold_ascending_climbs() {
    assert_eq!(fold_ascending(&[]), (i64::MIN, 0));
    assert_eq!(fold_ascending(&[3]), (3, 0));
    // steps 1, 4, 4, 5, 5: water 0, 0, 2, 0, 2
    assert_eq!(fold_ascending(&[1, 4, 2, 5, 3]), (5, 4));
    assert_eq!(fold_ascending(&[5, 4, 3]), (5, 3));
}

#[test]
fn fold_descending_climbs_from_the_right() {
    assert_eq!(fold_descending(&[]), (i64::MIN, 0));
    assert_eq!(fold_descending(&[3]), (3, 0));
    // from the right: steps 3, 5, 5, 5, 5: water 0, 0, 3, 1, 4
    assert_eq!(fold_descending(&[1, 4, 2, 5, 3]), (5, 8));
    assert_eq!(fold_descending(&[3, 4, 5]), (5, 3));
}

#[test]
fn index_of_maximum_is_the_first_of_equals() {
    assert_eq!(index_of_maximum(&[]), None);
    assert_eq!(index_of_maximum(&[9]), Some(0));
    assert_eq!(index_of_maximum(&[1, 7, 3]), Some(1));
    assert_eq!(index_of_maximum(&[5, 4, 2, 6, 6, 6, 4, 5]), Some(3));
    assert_eq!(index_of_maximum(&[2, 2, 2]), Some(0));
    assert_eq!(index_of_maximum(&[-3, -1, -1, -2]), Some(1));
    assert_eq!(index_of_maximum(&[i64::MIN, i64::MIN]), Some(0));
}

#[test]
fn elevation_from_keeps_the_sign_of_what_was_drawn() {
    assert_eq!(elevation_from(7, 3), 1);
    assert_eq!(elevation_from(-7, 3), -1);
    assert_eq!(elevation_from(6, 3), 0);
    assert_eq!(elevation_from(-6, 3), 0);
    assert_eq!(elevation_from(0, 3), 0);
    assert_eq!(elevation_from(2, 100000), 2);
    assert_eq!(elevation_from(-2, 100000), -2);
    assert_eq!(elevation_from(i64::MAX, 100000), 75807);
    assert_eq!(elevation_from(i64::MIN, 100000), -75808);
    assert_eq!(elevation_from(i64::MIN, 1), 0);
    assert_eq!(elevation_from(i64::MIN, i64::MAX), -1);
}

#[test]
fn random_terrain_has_the_size_and_the_spread_asked_for() {
    let terrain = random_terrain(1000);
    assert_eq!(terrain.len(), 1000);
    assert!(terrain.iter().all(|&x| -1000 < x && x < 1000));
    let flat = random_terrain(1);
    assert_eq!(flat, vec![0]);
}

#[test]
fn random_terrain_of_no_size_is_empty() {
    assert_eq!(random_terrain(0), Vec::<i64>::new());
    assert_eq!(random_terrain(-5), Vec::<i64>::new());
    assert_eq!(random_terrain(i64::MIN), Vec::<i64>::new());
}

#[test]
fn random_terrain_is_drawn_anew() {
    let one = random_terrain(64);
    let other = random_terrain(64);
    assert_ne!(one, other);
}

#[test]
fn strategies_agree_on_a_random_terrain() {
    let terrain = random_terrain(5000);
    assert_eq!(trap(&terrain), compute_rain_collected(&terrain));
}
