use falling_sand::buffer::DoubleBuffer;
use falling_sand::colour::{discrete_rgb, get_convert_colour, ColourMap};
use falling_sand::config::{Config, N_THREADS};
use falling_sand::dump::{count_leading_whitespace, format_row, skip_n_chars};
use falling_sand::grid::Grid;
use falling_sand::ribbon::generate_target_ribbons;
use falling_sand::rule::{move_lateral, next_pixel};

#[test]
fn config_keeps_a_height_that_fits() {
    let cfg = Config::new(100, 64, Some(4));
    assert_eq!(cfg.get_dims(), (100, 64));
    assert_eq!(cfg.size(), 6400);
    assert_eq!(cfg.ribbon_len(), 1600);
    assert_eq!(cfg.n_threads(), 4);
    assert_eq!(cfg.width(), 100);
    assert_eq!(cfg.height(), 64);
}

#[test]
fn config_cuts_the_height_down() {
    assert_eq!(Config::new(3, 7, Some(2)).get_dims(), (3, 4));
    assert_eq!(Config::new(3, 7, Some(1)).get_dims(), (3, 6));
    assert_eq!(Config::new(3, 7, Some(4)).get_dims(), (3, 0));
    assert_eq!(Config::new(3, 8, Some(4)).get_dims(), (3, 8));
    assert_eq!(Config::new(3, 100, None).get_dims(), (3, 96));
    assert_eq!(Config::new(3, 100, None).n_threads(), N_THREADS);
    assert_eq!(Config::new(10, 100, None).ribbon_len(), 240);
    assert_eq!(Config::new(0, 10, Some(1)).size(), 0);
}

#[test]
fn config_finds_column_and_row() {
    let cfg = Config::new(7, 4, Some(2));
    assert_eq!(cfg.index_to_coords(0), (0, 0));
    assert_eq!(cfg.index_to_coords(6), (6, 0));
    assert_eq!(cfg.index_to_coords(7), (0, 1));
    assert_eq!(cfg.index_to_coords(27), (6, 3));
    assert_eq!(cfg.index_to_y(20), 2);
    assert_eq!(cfg.index_to_y(21), 3);
}

#[test]
fn buffers_start_empty_and_trade_places() {
    let cfg = Config::new(3, 2, Some(1));
    let mut buf = DoubleBuffer::new(&cfg);
    assert_eq!(buf.get_front(), &vec![0u8; 6]);
    buf.get_front_mut()[0] = 1;
    buf.get_back_mut()[5] = 2;
    assert_eq!(buf.get_front(), &vec![1, 0, 0, 0, 0, 0]);
    {
        let (front, back) = buf.get_pair();
        assert_eq!(front, &vec![1, 0, 0, 0, 0, 0]);
        assert_eq!(back, &vec![0, 0, 0, 0, 0, 2]);
        back[1] = 3;
    }
    buf.switch_buffers();
    assert_eq!(buf.get_front(), &vec![0, 3, 0, 0, 0, 2]);
    buf.empty_back();
    buf.switch_buffers();
    assert_eq!(buf.get_front(), &vec![0u8; 6]);
    buf.switch_buffers();
    assert_eq!(buf.get_front(), &vec![0, 3, 0, 0, 0, 2]);
}

#[test]
fn ribbons_are_cut_in_order() {
    let mut cells: Vec<u8> = (0..10).collect();
    {
        let ribbons = generate_target_ribbons(&mut cells, 2, 3);
        let lens: Vec<usize> = ribbons.iter().map(|r| r.len()).collect();
        assert_eq!(lens, vec![3, 3, 2]);
        assert_eq!(&ribbons[0][..], &[2, 3, 4]);
        assert_eq!(&ribbons[2][..], &[8, 9]);
        for ribbon in ribbons {
            ribbon[0] = 99;
        }
    }
    assert_eq!(cells, vec![0, 1, 99, 3, 4, 99, 6, 7, 99, 9]);
    let mut cells = vec![1u8; 4];
    assert_eq!(generate_target_ribbons(&mut cells, 4, 2).len(), 0);
    assert_eq!(generate_target_ribbons(&mut cells, 0, 2).len(), 2);
    assert_eq!(generate_target_ribbons(&mut cells, 0, 9).len(), 1);
}

#[test]
fn a_pixel_moves_or_stays() {
    let cfg = Config::new(3, 2, Some(1));
    // falls straight
    let source = vec![0, 5, 0, 0, 0, 0];
    let mut target = vec![0u8; 6];
    next_pixel(&cfg, &source, &mut target, 1, 1);
    assert_eq!(target, vec![0, 0, 0, 0, 5, 0]);
    // stays on the floor
    let source = vec![0, 0, 0, 0, 5, 0];
    let mut target = vec![0u8; 6];
    next_pixel(&cfg, &source, &mut target, 4, 4);
    assert_eq!(target, vec![0, 0, 0, 0, 5, 0]);
    // an empty cell writes nothing
    let mut target = vec![9u8; 6];
    next_pixel(&cfg, &source, &mut target, 0, 0);
    assert_eq!(target, vec![9u8; 6]);
    // blocked on all sides: stays
    let source = vec![0, 5, 0, 1, 1, 1];
    let mut target = vec![0u8; 6];
    next_pixel(&cfg, &source, &mut target, 1, 1);
    assert_eq!(target, vec![0, 5, 0, 0, 0, 0]);
}

#[test]
fn a_pixel_on_the_floor_needs_no_room_below() {
    // the target is one row only, and the indices lie in different columns
    let cfg = Config::new(3, 2, Some(1));
    let source = vec![0, 0, 0, 0, 0, 7];
    let mut target = vec![1u8, 1, 1];
    next_pixel(&cfg, &source, &mut target, 0, 5);
    assert_eq!(target, vec![7, 1, 1]);
    next_pixel(&cfg, &source, &mut target, 2, 3);
    assert_eq!(target, vec![7, 1, 1]);
}

#[test]
fn a_lateral_move_needs_room_inside_the_grid() {
    let cfg = Config::new(3, 2, Some(1));
    let source = vec![5, 0, 6, 1, 0, 1];
    let mut target = vec![0u8; 6];
    assert!(move_lateral(&cfg, 0, 1, &source, &mut target, 0, 0));
    assert_eq!(target, vec![0, 0, 0, 0, 5, 0]);
    let mut target = vec![0u8; 6];
    assert!(!move_lateral(&cfg, 0, -1, &source, &mut target, 0, 0));
    assert!(!move_lateral(&cfg, 2, 1, &source, &mut target, 2, 2));
    assert_eq!(target, vec![0u8; 6]);
    assert!(move_lateral(&cfg, 2, -1, &source, &mut target, 2, 2));
    assert_eq!(target, vec![0, 0, 0, 0, 6, 0]);
}

#[test]
fn discrete_colours_are_red_green_blue() {
    assert_eq!(discrete_rgb(0), 0xffff_0000);
    assert_eq!(discrete_rgb(1), 0xffff_0000);
    assert_eq!(discrete_rgb(84), 0xffff_0000);
    assert_eq!(discrete_rgb(85), 0xff00_ff00);
    assert_eq!(discrete_rgb(100), 0xff00_ff00);
    assert_eq!(discrete_rgb(130), 0xff00_ff00);
    assert_eq!(discrete_rgb(169), 0xff00_ff00);
    assert_eq!(discrete_rgb(170), 0xff00_00ff);
    assert_eq!(discrete_rgb(255), 0xff00_00ff);
}

#[test]
fn each_discrete_colour_is_one_run_of_values() {
    let colours: Vec<u32> = (1..=255u8).map(discrete_rgb).collect();
    let changes = colours.windows(2).filter(|w| w[0] != w[1]).count();
    assert_eq!(changes, 2);
    assert_eq!(colours.iter().filter(|&&c| c == 0xffff_0000).count(), 84);
    assert_eq!(colours.iter().filter(|&&c| c == 0xff00_ff00).count(), 85);
    assert_eq!(colours.iter().filter(|&&c| c == 0xff00_00ff).count(), 86);
}

#[test]
fn the_first_switch_picks_the_colour_map() {
    assert_eq!(get_convert_colour(true, false), ColourMap::Continuous);
    assert_eq!(get_convert_colour(true, true), ColourMap::Continuous);
    assert_eq!(get_convert_colour(false, true), ColourMap::Discrete);
    let g = Grid::new(3, 2, Some(1), 0, ColourMap::Continuous);
    assert_eq!(g.colour_map(), ColourMap::Continuous);
}

#[test]
fn rows_are_columns_of_four() {
    assert_eq!(format_row(&[0, 2, 0]), "   0    2    0");
    assert_eq!(format_row(&[255]), " 255");
    assert_eq!(format_row(&[10, 99, 100]), "  10   99  100");
    assert_eq!(format_row(&[]), "");
}

#[test]
fn leading_blanks_are_counted_and_skipped() {
    assert_eq!(count_leading_whitespace("   0    2"), 3);
    assert_eq!(count_leading_whitespace("0  "), 0);
    assert_eq!(count_leading_whitespace("  "), 2);
    assert_eq!(count_leading_whitespace(""), 0);
    assert_eq!(skip_n_chars("   0    2", 3), "0    2");
    assert_eq!(skip_n_chars("abc", 0), "abc");
    assert_eq!(skip_n_chars("abc", 3), "");
    assert_eq!(skip_n_chars("abc", 7), "");
}

#[test]
fn text_keeps_the_columns_in_line() {
    let mut g = Grid::new(2, 4, Some(1), 0, ColourMap::Discrete);
    g.set_px(0, 0, 7);
    g.set_px(1, 1, 42);
    g.set_px(0, 3, 100);
    assert_eq!(g.to_string(), "  7    0\n  0   42\n  0    0\n100    0");
    assert_eq!(g.get_dims(), (2, 4));
    let g = Grid::new(2, 1, Some(1), 0, ColourMap::Discrete);
    assert_eq!(g.to_string(), "");
    assert_eq!(g.get_dims(), (2, 0));
}
