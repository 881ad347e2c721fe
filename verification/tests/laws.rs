use falling_sand::colour::ColourMap;
use falling_sand::config::Config;
use falling_sand::grid::Grid;
use falling_sand::ribbon::{generate_target_ribbons, propagate_ribbon};

fn count(cells: &[u8]) -> usize {
    cells.iter().filter(|&&v| v != 0).count()
}

// A grid with particles strewn over it, the same for every worker count.
fn strewn(width: usize, height: usize, workers: usize, seed: u64) -> Grid {
    let mut g = Grid::new(width, height, Some(workers), seed, ColourMap::Discrete);
    let mut state = seed.wrapping_mul(6364136223846793005).wrapping_add(1442695040888963407);
    for y in 0..height {
        for x in 0..width {
            state = state.wrapping_mul(6364136223846793005).wrapping_add(1442695040888963407);
            if (state >> 33) % 3 == 0 {
                g.set_px(x, y, ((state >> 40) % 200 + 1) as u8);
            }
        }
    }
    g
}

#[test]
fn no_cell_is_written_by_two_workers() {
    for workers in [1usize, 2, 3] {
        let width = 5;
        let height = 12;
        let g = strewn(width, height, workers, 9);
        let cfg = Config::new(width, height, Some(workers));
        let source = g.get_front().clone();
        let half = cfg.ribbon_len() / 2;
        let mut writers = vec![0usize; source.len()];
        for offset in [half, 0] {
            let start_of = |i: usize| offset + i * cfg.ribbon_len();
            let mut target = vec![255u8; source.len()];
            {
                let ribbons = generate_target_ribbons(&mut target, offset, cfg.ribbon_len());
                assert_eq!(ribbons.len(), workers);
                for (i, ribbon) in ribbons.into_iter().enumerate() {
                    let before = ribbon.to_vec();
                    propagate_ribbon(&cfg, &source, ribbon, i, offset);
                    for k in 0..before.len() {
                        if ribbon[k] != before[k] {
                            writers[start_of(i) + k] += 1;
                        }
                    }
                }
            }
        }
        assert!(writers.iter().all(|&n| n <= 1), "{:?}", writers);
        // every particle was written somewhere
        assert!(writers.iter().filter(|&&n| n == 1).count() >= count(&source));
    }
}

#[test]
fn a_step_keeps_the_particles_that_do_not_collide() {
    // one column of particles with gaps: nothing collides
    let mut g = Grid::new(3, 8, Some(2), 0, ColourMap::Discrete);
    g.set_px(1, 0, 5);
    g.set_px(1, 3, 6);
    g.set_px(0, 7, 7);
    g.set_px(2, 5, 8);
    for _ in 0..10 {
        let before = count(g.get_front());
        g.next();
        assert_eq!(count(g.get_front()), before);
    }
    assert_eq!(count(g.get_front()), 4);
}

#[test]
fn a_frame_adds_the_particles_that_were_spawned() {
    let mut g = Grid::new(100, 40, Some(4), 1, ColourMap::Discrete);
    for frame in 0..3 {
        let before = count(g.get_front());
        g.spawn(frame);
        let spawned = count(g.get_front()) - before;
        assert!(spawned >= 1 && spawned <= 5);
        g.next();
        // the new particles are far apart or fall straight: none is lost
        assert_eq!(count(g.get_front()), before + spawned);
    }
}

#[test]
fn two_particles_that_go_to_one_cell_leave_one() {
    // the left particle is blocked and goes down and right, where the middle one falls
    let mut g = Grid::new(2, 2, Some(1), 0, ColourMap::Discrete);
    g.set_px(0, 0, 1);
    g.set_px(1, 0, 2);
    g.set_px(0, 1, 3);
    g.next();
    assert_eq!(g.get_front(), &vec![0, 0, 3, 1]);
}

#[test]
fn same_seed_gives_the_same_grids() {
    let mut a = Grid::new(50, 16, Some(2), 1234, ColourMap::Discrete);
    let mut b = Grid::new(50, 16, Some(2), 1234, ColourMap::Discrete);
    let mut c = Grid::new(50, 16, Some(2), 1235, ColourMap::Discrete);
    let mut differs = false;
    for frame in 0..40 {
        a.advance(frame);
        b.advance(frame);
        c.advance(frame);
        assert_eq!(a.get_front(), b.get_front());
        differs = differs || a.get_front() != c.get_front();
    }
    assert!(differs);
}

#[test]
fn worker_count_changes_nothing() {
    let mut one = strewn(7, 16, 1, 77);
    let mut four = strewn(7, 16, 4, 77);
    let mut eight = strewn(7, 16, 8, 77);
    assert_eq!(one.get_front(), four.get_front());
    for frame in 0..30 {
        one.advance(frame);
        four.advance(frame);
        eight.advance(frame);
        assert_eq!(one.get_front(), four.get_front());
        assert_eq!(one.get_front(), eight.get_front());
    }
    assert!(count(one.get_front()) > 0);
}

#[test]
fn a_particle_on_the_floor_stays() {
    let mut g = Grid::new(3, 4, Some(2), 3, ColourMap::Discrete);
    g.set_px(2, 3, 9);
    for frame in 0..10 {
        g.advance(frame);
        assert_eq!(g.get_front()[3 * 3 + 2], 9);
    }
}

#[test]
fn a_particle_falls_one_row_in_a_step() {
    let mut g = Grid::new(3, 8, Some(2), 0, ColourMap::Discrete);
    g.set_px(1, 0, 4);
    for y in 0..7 {
        assert_eq!(g.get_front()[y * 3 + 1], 4);
        g.next();
        assert_eq!(g.get_front()[y * 3 + 1], 0);
        assert_eq!(g.get_front()[(y + 1) * 3 + 1], 4);
    }
    g.next();
    assert_eq!(g.get_front()[7 * 3 + 1], 4);
    assert_eq!(count(g.get_front()), 1);
}

#[test]
fn blocked_neighbours_go_apart() {
    // two particles side by side on a full row below, with room at both ends
    let mut g = Grid::new(4, 2, Some(1), 0, ColourMap::Discrete);
    g.set_px(1, 0, 1);
    g.set_px(2, 0, 2);
    g.set_px(1, 1, 3);
    g.set_px(2, 1, 4);
    g.next();
    assert_eq!(g.get_front(), &vec![0, 0, 0, 0, 1, 3, 4, 2]);
}

#[test]
fn a_blocked_particle_goes_right_before_left() {
    let mut g = Grid::new(3, 2, Some(1), 0, ColourMap::Discrete);
    g.set_px(1, 0, 1);
    g.set_px(1, 1, 2);
    g.next();
    assert_eq!(g.get_front(), &vec![0, 0, 0, 0, 2, 1]);
    let mut g = Grid::new(3, 2, Some(1), 0, ColourMap::Discrete);
    g.set_px(1, 0, 1);
    g.set_px(1, 1, 2);
    g.set_px(2, 1, 3);
    g.next();
    assert_eq!(g.get_front(), &vec![0, 0, 0, 1, 2, 3]);
    let mut g = Grid::new(3, 2, Some(1), 0, ColourMap::Discrete);
    g.set_px(1, 0, 1);
    g.set_px(0, 1, 4);
    g.set_px(1, 1, 2);
    g.set_px(2, 1, 3);
    g.next();
    assert_eq!(g.get_front(), &vec![0, 1, 0, 4, 2, 3]);
}

#[test]
fn of_particles_that_meet_the_leftmost_is_seen() {
    // three particles go to the middle cell of the second row
    let mut g = Grid::new(5, 2, Some(1), 0, ColourMap::Discrete);
    g.set_px(1, 0, 11);
    g.set_px(2, 0, 12);
    g.set_px(3, 0, 13);
    g.set_px(1, 1, 1);
    g.set_px(3, 1, 1);
    g.set_px(4, 1, 1);
    g.next();
    assert_eq!(g.get_front(), &vec![0, 0, 0, 0, 0, 0, 1, 11, 1, 1]);
}
