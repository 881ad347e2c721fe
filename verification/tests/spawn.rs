use falling_sand::colour::ColourMap;
use falling_sand::grid::Grid;
use falling_sand::spawner::Spawner;
use rand::RngCore;
use rand_chacha::rand_core::SeedableRng;
use rand_chacha::ChaCha8Rng;

// The top row that a spawn must leave on an empty grid: one generator, read
// word after word.
fn expected_top_row(width: usize, seed: u64, skipped: usize, draws: usize, colour: u8) -> Vec<u8> {
    let mut rng = ChaCha8Rng::seed_from_u64(seed);
    for _ in 0..skipped {
        rng.next_u32();
    }
    let mut row = vec![0u8; width];
    for _ in 0..draws {
        let x = rng.next_u32() as usize % width;
        if row[x] == 0 {
            row[x] = colour;
        }
    }
    row
}

#[test]
fn stream_gives_the_words_of_one_generator() {
    let mut direct = ChaCha8Rng::seed_from_u64(42);
    let mut stream = Spawner::new(42);
    for _ in 0..200 {
        assert_eq!(stream.next_u32(), direct.next_u32());
    }
}

#[test]
fn stream_depends_on_the_seed() {
    let mut a = Spawner::new(1);
    let mut b = Spawner::new(2);
    let first: Vec<u32> = (0..8).map(|_| a.next_u32()).collect();
    let second: Vec<u32> = (0..8).map(|_| b.next_u32()).collect();
    assert_ne!(first, second);
    let mut direct = ChaCha8Rng::seed_from_u64(2);
    assert_eq!(second[0], direct.next_u32());
}

#[test]
fn spawn_fills_the_top_row_only() {
    let mut g = Grid::new(100, 4, Some(2), 7, ColourMap::Discrete);
    g.spawn(0);
    let front = g.get_front().clone();
    assert_eq!(&front[..100], &expected_top_row(100, 7, 0, 5, 1)[..]);
    assert!(front[100..].iter().all(|&v| v == 0));
}

#[test]
fn spawn_draws_a_twentieth_of_the_width_rounded_up() {
    // 20 columns: one word; 21 columns: two words; 1 column: one word.
    let mut g = Grid::new(20, 2, Some(1), 3, ColourMap::Discrete);
    g.spawn(0);
    assert_eq!(&g.get_front()[..20], &expected_top_row(20, 3, 0, 1, 1)[..]);
    g.spawn(5);
    let mut row = expected_top_row(20, 3, 0, 1, 1);
    let second = expected_top_row(20, 3, 1, 1, 2);
    for x in 0..20 {
        if row[x] == 0 {
            row[x] = second[x];
        }
    }
    assert_eq!(&g.get_front()[..20], &row[..]);

    let mut g = Grid::new(21, 2, Some(1), 3, ColourMap::Discrete);
    g.spawn(0);
    assert_eq!(&g.get_front()[..21], &expected_top_row(21, 3, 0, 2, 1)[..]);

    let mut g = Grid::new(1, 2, Some(1), 3, ColourMap::Discrete);
    g.spawn(0);
    assert_eq!(g.get_front(), &vec![1, 0]);
}

#[test]
fn spawn_colour_steps_every_five_frames() {
    for (frame, colour) in [(0u32, 1u8), (4, 1), (5, 2), (9, 2), (1269, 254), (1270, 1), (u32::MAX, 4)] {
        let mut g = Grid::new(1, 2, Some(1), 0, ColourMap::Discrete);
        g.spawn(frame);
        assert_eq!(g.get_front()[0], colour, "frame {}", frame);
    }
}

#[test]
fn spawn_leaves_an_occupied_cell_as_it_is() {
    let mut g = Grid::new(1, 2, Some(1), 0, ColourMap::Discrete);
    g.set_px(0, 0, 77);
    g.spawn(50);
    assert_eq!(g.get_front(), &vec![77, 0]);
}

#[test]
fn advance_spawns_then_steps() {
    let mut g = Grid::new(40, 4, Some(1), 11, ColourMap::Discrete);
    g.advance(0);
    let front = g.get_front().clone();
    assert!(front[..40].iter().all(|&v| v == 0));
    assert_eq!(&front[40..80], &expected_top_row(40, 11, 0, 2, 1)[..]);
    g.advance(5);
    let front = g.get_front().clone();
    assert_eq!(&front[40..80], &expected_top_row(40, 11, 2, 2, 2)[..]);
    assert_eq!(&front[80..120], &expected_top_row(40, 11, 0, 2, 1)[..]);
}

#[test]
fn run_is_advance_frame_by_frame() {
    let mut a = Grid::new(60, 8, Some(2), 5, ColourMap::Continuous);
    let mut b = Grid::new(60, 8, Some(2), 5, ColourMap::Continuous);
    a.run(12);
    for frame in 0..12 {
        b.advance(frame);
    }
    assert_eq!(a.get_front(), b.get_front());
    assert!(a.get_front().iter().any(|&v| v != 0));
    assert!(a.get_front().iter().any(|&v| v == 3));
}

#[test]
fn a_word_picks_its_column_by_remainder() {
    let mut g = Grid::new(5, 2, Some(1), 0, ColourMap::Discrete);
    g.spawn_at(7, 9);
    assert_eq!(g.get_front(), &vec![0, 0, 9, 0, 0, 0, 0, 0, 0, 0]);
    g.spawn_at(12, 8);
    assert_eq!(g.get_front(), &vec![0, 0, 9, 0, 0, 0, 0, 0, 0, 0]);
    g.spawn_at(u32::MAX, 8);
    assert_eq!(g.get_front(), &vec![8, 0, 9, 0, 0, 0, 0, 0, 0, 0]);
    g.spawn_at(4, 200);
    assert_eq!(g.get_front(), &vec![8, 0, 9, 0, 200, 0, 0, 0, 0, 0]);
    g.spawn_at(3, 0);
    assert_eq!(g.get_front(), &vec![8, 0, 9, 0, 200, 0, 0, 0, 0, 0]);
}
