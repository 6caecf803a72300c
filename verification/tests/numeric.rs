use fete::grid::{Grid, GRID_DIM};
use fete::rng::{Rng, Xorshift32};
use fete::sim::{workgroup_count_1d, workgroup_count_2d};
use fete::video::{deal, frame_bytes, is_clip_extension, shuffled_playlists};

#[test]
fn workgroups_cover_the_texture() {
    assert_eq!(workgroup_count_2d((1920, 1080), 16), (120, 68, 1));
    assert_eq!(workgroup_count_2d((10, 10), 0), (10, 10, 1));
    assert_eq!(workgroup_count_1d(0, 64), (1, 0, 1));
    assert_eq!(workgroup_count_1d(1_000, 64), (16, 1, 1));
    assert_eq!(workgroup_count_1d(10_000_000, 64), (65535, 3, 1));
}

#[test]
fn the_grid_buckets_in_order_and_drops_the_seam() {
    let mut grid = Grid::new();
    grid.rebuild(&[(0, 0), (5, 7), (0, 0), (-1, 3), (101, 0), (100, 100)]);
    assert_eq!(grid.at(0, 0), &[0, 2]);
    assert_eq!(grid.at(5, 7), &[1]);
    assert!(grid.at(-1, 3).is_empty());
    assert!(grid.at(101, 0).is_empty());
    assert_eq!(grid.at(100, 100), &[5]);
    assert_eq!(Grid::index(3, 2), Some(2 * GRID_DIM + 3));
    grid.rebuild(&[(5, 7)]);
    assert!(grid.at(0, 0).is_empty());
    assert_eq!(grid.at(5, 7), &[0]);
}

#[test]
fn xorshift_matches_the_reference_steps() {
    let mut g = Xorshift32::new(1);
    assert_eq!(g.next_u32(), 270_369);
    let mut x: u32 = 0x9E37_79B9;
    x ^= x << 13;
    x ^= x >> 17;
    x ^= x << 5;
    let mut g = Xorshift32::new(0x9E37_79B9);
    assert_eq!(g.next_u32(), x);
    assert_eq!(g.state, x);
}

#[test]
fn the_flock_generator_is_reproducible() {
    let mut a = Rng::new(42);
    let mut b = Rng::new(42);
    let seq_a: Vec<u64> = (0..8).map(|_| a.next_u64()).collect();
    let seq_b: Vec<u64> = (0..8).map(|_| b.next_u64()).collect();
    assert_eq!(seq_a, seq_b);
    let c = Rng::new(0);
    assert_eq!(c.state, 1_442_695_040_888_963_407 | 1);
    assert!(a.next_unit_bits() < 1 << 24);
}

#[test]
fn clips_are_dealt_round_robin() {
    let clips: Vec<String> = (0..5).map(|i| format!("clip{i}.mp4")).collect();
    let sets = deal(&clips, 3);
    assert_eq!(sets.len(), 3);
    assert_eq!(sets[0], vec!["clip0.mp4", "clip3.mp4"]);
    assert_eq!(sets[1], vec!["clip1.mp4", "clip4.mp4"]);
    assert_eq!(sets[2], vec!["clip2.mp4"]);
    assert_eq!(deal(&clips[..2].to_vec(), 8).len(), 2);

    let shuffled = shuffled_playlists(clips.clone(), 8);
    assert_eq!(shuffled.len(), 5);
    let mut all: Vec<String> = shuffled.into_iter().flatten().collect();
    all.sort();
    assert_eq!(all, clips);
}

#[test]
fn clip_extensions_and_frame_size() {
    assert!(is_clip_extension("mp4"));
    assert!(is_clip_extension("MPEG"));
    assert!(!is_clip_extension("txt"));
    assert!(!is_clip_extension("mp"));
    assert_eq!(frame_bytes((320, 240)), 320 * 240 * 4);
}
