//! The grid as text: one line for each row, the values in columns.

use vstd::prelude::*;
use vstd::slice::slice_subrange;
use vstd::string::StringExecFns;
use crate::grid::Grid;

verus! {

/// The character of the decimal digit `d`.
pub open spec fn digit_char(d: int) -> char {
    if d == 0 {
        '0'
    } else if d == 1 {
        '1'
    } else if d == 2 {
        '2'
    } else if d == 3 {
        '3'
    } else if d == 4 {
        '4'
    } else if d == 5 {
        '5'
    } else if d == 6 {
        '6'
    } else if d == 7 {
        '7'
    } else if d == 8 {
        '8'
    } else {
        '9'
    }
}

/// The decimal digits of `v`, the first of them not `0` unless `v` is.
pub open spec fn decimal(v: nat) -> Seq<char>
    decreases v,
{
    if v < 10 {
        seq![digit_char(v as int)]
    } else {
        decimal(v / 10).push(digit_char((v % 10) as int))
    }
}

/// `n` blanks.
pub open spec fn blanks(n: int) -> Seq<char> {
    Seq::new(n as nat, |i: int| ' ')
}

/// The value of a cell in a column of four characters, flush right.
pub open spec fn cell_text(v: u8) -> Seq<char> {
    blanks(4 - decimal(v as nat).len()) + decimal(v as nat)
}

/// The values of a row, a blank between one column and the next.
pub open spec fn row_text(cells: Seq<u8>) -> Seq<char>
    decreases cells.len(),
{
    if cells.len() == 0 {
        Seq::empty()
    } else if cells.len() == 1 {
        cell_text(cells[0])
    } else {
        row_text(cells.drop_last()) + seq![' '] + cell_text(cells.last())
    }
}

/// How many blanks `t` starts with.
pub open spec fn leading_blanks(t: Seq<char>) -> nat
    decreases t.len(),
{
    if t.len() > 0 && t[0] == ' ' {
        1 + leading_blanks(t.subrange(1, t.len() as int))
    } else {
        0
    }
}

/// Row `y` of a grid of rows of `w` cells.
pub open spec fn grid_row(w: int, s: Seq<u8>, y: int) -> Seq<u8> {
    s.subrange(y * w, y * w + w)
}

/// The least number of blanks that one of the first `n` rows starts with,
/// as text; `0` where `n` is `0`.
pub open spec fn common_indent(w: int, s: Seq<u8>, n: nat) -> nat
    decreases n,
{
    if n == 0 {
        0
    } else {
        let here = leading_blanks(row_text(grid_row(w, s, n - 1)));
        if n == 1 {
            here
        } else {
            let above = common_indent(w, s, (n - 1) as nat);
            if here < above {
                here
            } else {
                above
            }
        }
    }
}

/// `t` without its first `n` characters, or without all of them where it
/// has fewer.
pub open spec fn without_first(t: Seq<char>, n: int) -> Seq<char> {
    if n <= t.len() {
        t.subrange(n, t.len() as int)
    } else {
        Seq::empty()
    }
}

/// The first `n` rows as text, each without its first `indent` characters,
/// a line break between one row and the next.
pub open spec fn rows_text(w: int, s: Seq<u8>, n: nat, indent: int) -> Seq<char>
    decreases n,
{
    if n == 0 {
        Seq::empty()
    } else {
        let here = without_first(row_text(grid_row(w, s, n - 1)), indent);
        if n == 1 {
            here
        } else {
            rows_text(w, s, (n - 1) as nat, indent) + seq!['\n'] + here
        }
    }
}

/// The grid `s` of `h` rows of `w` cells as text: the rows in columns four
/// wide, without the blanks that every row starts with.
pub open spec fn grid_text(w: int, h: nat, s: Seq<u8>) -> Seq<char> {
    rows_text(w, s, h, common_indent(w, s, h) as int)
}

/// The text of one decimal digit.
fn digit_str(d: u8) -> (text: &'static str)
    requires
        d < 10,
    ensures
        text@ == seq![digit_char(d as int)],
{
    proof {
        reveal_strlit("0");
        reveal_strlit("1");
        reveal_strlit("2");
        reveal_strlit("3");
        reveal_strlit("4");
        reveal_strlit("5");
        reveal_strlit("6");
        reveal_strlit("7");
        reveal_strlit("8");
        reveal_strlit("9");
    }
    let text = if d == 0 {
        "0"
    } else if d == 1 {
        "1"
    } else if d == 2 {
        "2"
    } else if d == 3 {
        "3"
    } else if d == 4 {
        "4"
    } else if d == 5 {
        "5"
    } else if d == 6 {
        "6"
    } else if d == 7 {
        "7"
    } else if d == 8 {
        "8"
    } else {
        "9"
    };
    assert(text@ =~= seq![digit_char(d as int)]);
    text
}

/// Adds the value `v` to `out`, in a column of four characters.
pub fn push_cell(out: &mut String, v: u8)
    ensures
        final(out)@ == old(out)@ + cell_text(v),
{
    proof {
        reveal_strlit(" ");
        reveal_strlit("  ");
        reveal_strlit("   ");
        reveal_with_fuel(decimal, 3);
    }
    let ghost before = out@;
    if v < 10 {
        out.append("   ");
        out.append(digit_str(v));
    } else if v < 100 {
        out.append("  ");
        out.append(digit_str(v / 10));
        out.append(digit_str(v % 10));
    } else {
        out.append(" ");
        out.append(digit_str(v / 100));
        out.append(digit_str((v / 10) % 10));
        out.append(digit_str(v % 10));
    }
    assert(out@ =~= before + cell_text(v));
}

/// The text of one row.
pub fn format_row(row: &[u8]) -> (text: String)
    ensures
        text@ == row_text(row@),
{
    let mut text = String::new();
    let mut i: usize = 0;
    proof {
        reveal_strlit(" ");
    }
    while i < row.len()
        invariant
            i <= row@.len(),
            text@ == row_text(row@.subrange(0, i as int)),
            " "@ == seq![' '],
        decreases row@.len() - i,
    {
        if i > 0 {
            text.append(" ");
        }
        push_cell(&mut text, row[i]);
        proof {
            let now = row@.subrange(0, i + 1);
            assert(now.drop_last() =~= row@.subrange(0, i as int));
            assert(now.last() == row@[i as int]);
            if i == 0 {
                assert(text@ =~= cell_text(row@[0]));
            }
        }
        i += 1;
    }
    assert(row@.subrange(0, i as int) =~= row@);
    text
}

/// How many blanks `s` starts with.
pub fn count_leading_whitespace(s: &str) -> (n: usize)
    ensures
        n == leading_blanks(s@),
{
    let len = s.unicode_len();
    let mut n: usize = 0;
    assert(s@.subrange(0, len as int) =~= s@);
    while n < len && s.get_char(n) == ' '
        invariant
            n <= len,
            len == s@.len(),
            leading_blanks(s@) == n + leading_blanks(s@.subrange(n as int, len as int)),
        decreases len - n,
    {
        proof {
            let rest = s@.subrange(n as int, len as int);
            assert(rest[0] == ' ');
            assert(rest.subrange(1, rest.len() as int) =~= s@.subrange(n + 1, len as int));
        }
        n += 1;
    }
    proof {
        let rest = s@.subrange(n as int, len as int);
        if n < len {
            assert(rest[0] == s@[n as int]);
        }
    }
    n
}

/// `s` without its first `n` characters.
pub fn skip_n_chars(s: &str, n: usize) -> (text: String)
    ensures
        text@ == without_first(s@, n as int),
{
    let len = s.unicode_len();
    if n <= len {
        String::from_str(s.substring_char(n, len))
    } else {
        String::new()
    }
}

impl Grid {
    /// The current generation as text: a line for each row, the values in
    /// columns four wide with a blank between them, without the blanks that
    /// every line starts with.
    pub fn to_string(&self) -> (text: String)
        requires
            self.wf(),
            self.config().cols() > 0,
        ensures
            text@ == grid_text(self.config().cols(), self.config().rows() as nat, self.front()),
    {
        let (w, h) = self.get_dims();
        let front = self.get_front();
        let cells = front.len();
        let ghost s = front@;
        let ghost wi = w as int;
        let mut rows: Vec<String> = Vec::new();
        let mut y: usize = 0;
        while y < h
            invariant
                y <= h,
                w > 0,
                wi == w,
                s == front@,
                s.len() == w * h,
                s.len() == cells,
                rows@.len() == y,
                forall|j: int| 0 <= j < y ==> (#[trigger] rows@[j])@ == row_text(grid_row(wi, s, j)),
            decreases h - y,
        {
            proof {
                lemma_row_bounds(wi, h as int, y as int);
            }
            let row = format_row(slice_subrange(front.as_slice(), y * w, y * w + w));
            rows.push(row);
            y += 1;
        }
        let mut indent: usize = 0;
        let mut y: usize = 0;
        while y < h
            invariant
                y <= h,
                rows@.len() == h,
                forall|j: int| 0 <= j < h ==> (#[trigger] rows@[j])@ == row_text(grid_row(wi, s, j)),
                indent == common_indent(wi, s, y as nat),
            decreases h - y,
        {
            let here = count_leading_whitespace(rows[y].as_str());
            if y == 0 || here < indent {
                indent = here;
            }
            y += 1;
        }
        let mut text = String::new();
        let mut y: usize = 0;
        proof {
            reveal_strlit("\n");
        }
        while y < h
            invariant
                y <= h,
                rows@.len() == h,
                forall|j: int| 0 <= j < h ==> (#[trigger] rows@[j])@ == row_text(grid_row(wi, s, j)),
                text@ == rows_text(wi, s, y as nat, indent as int),
                "\n"@ == seq!['\n'],
            decreases h - y,
        {
            if y > 0 {
                text.append("\n");
            }
            let stripped = skip_n_chars(rows[y].as_str(), indent);
            text.append(stripped.as_str());
            proof {
                if y == 0 {
                    assert(text@ =~= without_first(row_text(grid_row(wi, s, 0)), indent as int));
                }
            }
            y += 1;
        }
        text
    }
}

/// Row `y` of `h` rows of `w` cells lies inside the `w * h` cells.
proof fn lemma_row_bounds(w: int, h: int, y: int)
    requires
        0 < w,
        0 <= y < h,
    ensures
        0 <= y * w,
        y * w + w <= w * h,
{
    assert(0 <= y * w && y * w + w <= w * h) by (nonlinear_arith)
        requires
            0 < w,
            0 <= y,
            y + 1 <= h,
    ;
}

} // verus!
