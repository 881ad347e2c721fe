use falling_sand::colour::ColourMap;
use falling_sand::grid::Grid;

// Strips the line breaks at both ends of a block of text and the
// indentation that all of its lines share.
fn unindent(block: &str) -> String {
    let mut lines: Vec<&str> = block.split('\n').collect();
    if lines.first().map_or(false, |l| l.trim().is_empty()) {
        lines.remove(0);
    }
    if lines.last().map_or(false, |l| l.trim().is_empty()) {
        lines.pop();
    }
    let indent = lines
        .iter()
        .filter(|l| !l.trim().is_empty())
        .map(|l| l.len() - l.trim_start().len())
        .min()
        .unwrap_or(0);
    lines
        .iter()
        .map(|l| if l.len() >= indent { &l[indent..] } else { "" })
        .collect::<Vec<_>>()
        .join("\n")
}

const DUMMY_CONVERT_COLOUR: ColourMap = ColourMap::Discrete;

#[test]
fn stays_on_ground() {
    let mut g = Grid::new(3, 2, Some(1), 0, DUMMY_CONVERT_COLOUR);
    g.set_px(1, 1, 2);
    assert_eq!(
        g.to_string(),
        unindent(
            r#"
            0    0    0
            0    2    0
        "#
        )
    );
    g.next();
    assert_eq!(
        g.to_string(),
        unindent(
            r#"
            0    0    0
            0    2    0
        "#
        )
    );
}

#[test]
fn falls_straight() {
    let mut g = Grid::new(3, 2, Some(1), 0, DUMMY_CONVERT_COLOUR);
    g.set_px(1, 0, 2);
    assert_eq!(
        g.to_string(),
        unindent(
            r#"
            0    2    0
            0    0    0
        "#
        )
    );
    g.next();
    assert_eq!(
        g.to_string(),
        unindent(
            r#"
            0    0    0
            0    2    0
        "#
        )
    );
}

#[test]
fn falls_laterally() {
    let mut g = Grid::new(3, 2, Some(1), 0, DUMMY_CONVERT_COLOUR);
    g.set_px(0, 1, 255);
    g.set_px(0, 0, 255);
    assert_eq!(
        g.to_string(),
        unindent(
            r#"
            255    0    0
            255    0    0
        "#
        )
    );
    g.next();
    assert_eq!(
        g.to_string(),
        unindent(
            r#"
              0    0    0
            255  255    0
        "#
        )
    );
}

#[test]
fn falls_laterally_both() {
    let mut g = Grid::new(3, 6, Some(1), 0, DUMMY_CONVERT_COLOUR);
    g.set_px(1, 4, 3);
    g.set_px(1, 2, 3);
    g.set_px(1, 0, 3);
    assert_eq!(
        g.to_string(),
        unindent(
            r#"
            0    3    0
            0    0    0
            0    3    0
            0    0    0
            0    3    0
            0    0    0
        "#
        )
    );
    g.next();
    assert_eq!(
        g.to_string(),
        unindent(
            r#"
            0    0    0
            0    3    0
            0    0    0
            0    3    0
            0    0    0
            0    3    0
        "#
        )
    );
}

#[test]
fn falls_laterally_both_multithreaded() {
    let mut g = Grid::new(3, 6, Some(3), 0, DUMMY_CONVERT_COLOUR);
    g.set_px(1, 4, 3);
    g.set_px(1, 2, 3);
    g.set_px(1, 0, 3);
    assert_eq!(
        g.to_string(),
        unindent(
            r#"
            0    3    0
            0    0    0
            0    3    0
            0    0    0
            0    3    0
            0    0    0
        "#
        )
    );
    g.next();
    assert_eq!(
        g.to_string(),
        unindent(
            r#"
            0    0    0
            0    3    0
            0    0    0
            0    3    0
            0    0    0
            0    3    0
        "#
        )
    );
    g.next();
    g.next();
    g.next();
    g.next();
    assert_eq!(
        g.to_string(),
        unindent(
            r#"
            0    0    0
            0    0    0
            0    0    0
            0    0    0
            0    0    0
            3    3    3
        "#
        )
    );
}
