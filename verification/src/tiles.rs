//! Trap-tile floor generation: each row is derived from the previous one by a
//! local three-cell rule, and the count of safe tiles is tracked across the
//! whole floor.

use vstd::prelude::*;

use vstd::string::StrSliceExecFns;

use crate::chars::push_char;

verus! {

/// A tile is a trap exactly when, of the three tiles above it (left, centre,
/// right, with walls counting as safe), either only the left pair or only the
/// right pair contains a trap.
pub open spec fn is_trap_at(prev: Seq<bool>, i: int) -> bool
    recommends
        0 <= i < prev.len(),
{
    let left = if i > 0 {
        prev[i - 1]
    } else {
        false
    };
    let centre = prev[i];
    let right = if i < prev.len() - 1 {
        prev[i + 1]
    } else {
        false
    };
    (left && centre && !right) || (!left && centre && right) || (left && !centre && !right) || (
    !left && !centre && right)
}

/// The row generated below `prev`.
pub open spec fn next_row_spec(prev: Seq<bool>) -> Seq<bool> {
    Seq::new(prev.len(), |i: int| is_trap_at(prev, i))
}

/// The number of safe (non-trap) tiles in one row.
pub open spec fn row_safe_count(row: Seq<bool>) -> nat
    decreases row.len(),
{
    if row.len() == 0 {
        0
    } else {
        row_safe_count(row.drop_last()) + if row.last() {
            0nat
        } else {
            1nat
        }
    }
}

/// The number of safe tiles across all rows.
pub open spec fn total_safe_count(rows: Seq<Seq<bool>>) -> nat
    decreases rows.len(),
{
    if rows.len() == 0 {
        0
    } else {
        total_safe_count(rows.drop_last()) + row_safe_count(rows.last())
    }
}

/// The row described by one line of text: `^` is a trap, `.` is safe.
pub open spec fn row_of_chars(s: Seq<char>) -> Seq<bool> {
    Seq::new(s.len(), |i: int| s[i] == '^')
}

pub open spec fn valid_row_chars(s: Seq<char>) -> bool {
    forall|i: int| 0 <= i < s.len() ==> s[i] == '^' || #[trigger] s[i] == '.'
}

/// One row rendered back to text.
pub open spec fn row_chars(row: Seq<bool>) -> Seq<char> {
    Seq::new(
        row.len(),
        |i: int|
            if row[i] {
                '^'
            } else {
                '.'
            },
    )
}

/// The newline-joined rendering of all rows after the first.
pub open spec fn render_tail(rows: Seq<Seq<bool>>) -> Seq<char>
    decreases rows.len(),
{
    if rows.len() == 0 {
        Seq::empty()
    } else {
        seq!['\n'] + row_chars(rows[0]) + render_tail(rows.skip(1))
    }
}

/// All rows rendered as text, joined by newlines.
pub open spec fn render_rows(rows: Seq<Seq<bool>>) -> Seq<char> {
    if rows.len() == 0 {
        Seq::empty()
    } else {
        row_chars(rows[0]) + render_tail(rows.skip(1))
    }
}

/// Repeated row generation: `grow(rows, n)` appends `n` derived rows.
pub open spec fn grow(rows: Seq<Seq<bool>>, num: nat) -> Seq<Seq<bool>>
    recommends
        rows.len() > 0,
    decreases num,
{
    if num == 0 {
        rows
    } else {
        grow(rows.push(next_row_spec(rows.last())), (num - 1) as nat)
    }
}

proof fn lemma_row_safe_le(row: Seq<bool>)
    ensures
        row_safe_count(row) <= row.len(),
    decreases row.len(),
{
    if row.len() > 0 {
        lemma_row_safe_le(row.drop_last());
    }
}

proof fn lemma_total_safe_le(rows: Seq<Seq<bool>>, w: nat)
    requires
        forall|i: int| 0 <= i < rows.len() ==> (#[trigger] rows[i]).len() == w,
    ensures
        total_safe_count(rows) <= rows.len() * w,
    decreases rows.len(),
{
    if rows.len() > 0 {
        assert(forall|i: int|
            0 <= i < rows.drop_last().len() ==> (#[trigger] rows.drop_last()[i]).len() == w);
        lemma_total_safe_le(rows.drop_last(), w);
        lemma_row_safe_le(rows.last());
        assert((rows.len() - 1) * w + w == rows.len() * w) by (nonlinear_arith);
    }
}

/// A floor of trap and safe tiles, row by row, with a running count of the
/// safe tiles seen so far.
pub struct Floor {
    pub tiles: Vec<Vec<bool>>,
    pub safe_count: usize,
}

impl Floor {
    /// The rows as mathematical sequences.
    pub open spec fn rows(&self) -> Seq<Seq<bool>> {
        self.tiles@.map_values(|r: Vec<bool>| r@)
    }

    /// The common width of the rows.
    pub open spec fn width(&self) -> nat {
        self.rows()[0].len()
    }

    /// At least one row, all rows of the same width, and the safe count equal
    /// to the number of safe tiles.
    pub open spec fn wf(&self) -> bool {
        &&& self.rows().len() >= 1
        &&& forall|i: int| 0 <= i < self.rows().len() ==> (#[trigger] self.rows()[i]).len()
            == self.width()
        &&& self.safe_count == total_safe_count(self.rows())
    }

    /// A floor consisting of the row that `first_row` describes; `None`
    /// exactly when the text contains a character other than `.` and `^`.
    pub fn new(first_row: &str) -> (r: Option<Floor>)
        ensures
            r is Some <==> valid_row_chars(first_row@),
            r matches Some(f) ==> f.wf() && f.rows() == seq![row_of_chars(first_row@)],
    {
        let n = first_row.unicode_len();
        let mut row: Vec<bool> = Vec::new();
        let mut safe: usize = 0;
        let mut i: usize = 0;
        while i < n
            invariant
                i <= n,
                n == first_row@.len(),
                row@.len() == i,
                forall|k: int| 0 <= k < i ==> first_row@[k] == '^' || #[trigger] first_row@[k]
                    == '.',
                row@ =~= row_of_chars(first_row@.take(i as int)),
                safe == row_safe_count(row@),
                safe <= i,
            decreases n - i,
        {
            let c = first_row.get_char(i);
            let ghost pre = row@;
            if c == '^' {
                row.push(true);
            } else if c == '.' {
                row.push(false);
                safe = safe + 1;
            } else {
                return None;
            }
            proof {
                assert(row@.drop_last() =~= pre);
                assert(row@ =~= row_of_chars(first_row@.take(i as int + 1)));
            }
            i = i + 1;
        }
        proof {
            assert(first_row@.take(n as int) =~= first_row@);
            assert(row@ =~= row_of_chars(first_row@));
        }
        let mut tiles: Vec<Vec<bool>> = Vec::new();
        tiles.push(row);
        let f = Floor { tiles, safe_count: safe };
        proof {
            assert(f.rows() =~= seq![row_of_chars(first_row@)]);
            assert(f.rows().len() == 1);
            assert(f.rows().drop_last() =~= Seq::<Seq<bool>>::empty());
            assert(total_safe_count(Seq::<Seq<bool>>::empty()) == 0);
            assert(total_safe_count(f.rows()) == total_safe_count(f.rows().drop_last())
                + row_safe_count(f.rows().last()));
            assert(f.rows().last() == row@);
        }
        Some(f)
    }

    /// Appends the row generated from the current last row, keeping the safe
    /// count accurate.
    pub fn gen_next_row(&mut self)
        requires
            old(self).wf(),
            old(self).safe_count + old(self).width() <= usize::MAX,
        ensures
            final(self).wf(),
            final(self).rows() == old(self).rows().push(next_row_spec(old(self).rows().last())),
    {
        let n_rows = self.tiles.len();
        let w = self.tiles[n_rows - 1].len();
        let ghost prev = self.rows().last();
        proof {
            assert(self.rows()[n_rows - 1] == self.tiles@[n_rows - 1]@);
            assert(prev.len() == w);
        }
        let mut row: Vec<bool> = Vec::new();
        let mut added_safe: usize = 0;
        let mut i: usize = 0;
        while i < w
            invariant
                i <= w,
                n_rows == self.tiles@.len(),
                n_rows >= 1,
                w == prev.len(),
                prev == self.tiles@[n_rows - 1]@,
                row@.len() == i,
                forall|k: int| 0 <= k < i ==> row@[k] == is_trap_at(prev, k),
                added_safe == row_safe_count(row@),
                added_safe <= i,
            decreases w - i,
        {
            let left = if i > 0 {
                self.tiles[n_rows - 1][i - 1]
            } else {
                false
            };
            let centre = self.tiles[n_rows - 1][i];
            let right = if i + 1 < w {
                self.tiles[n_rows - 1][i + 1]
            } else {
                false
            };
            let is_trap = (left && centre && !right) || (!left && centre && right) || (left
                && !centre && !right) || (!left && !centre && right);
            let ghost pre = row@;
            row.push(is_trap);
            if !is_trap {
                added_safe = added_safe + 1;
            }
            proof {
                assert(row@.drop_last() =~= pre);
            }
            i = i + 1;
        }
        proof {
            assert(row@ =~= next_row_spec(prev));
        }
        let ghost old_rows = self.rows();
        self.safe_count = self.safe_count + added_safe;
        self.tiles.push(row);
        proof {
            assert(self.rows() =~= old_rows.push(next_row_spec(prev)));
            assert(self.rows().drop_last() =~= old_rows);
            assert(self.rows().last() == next_row_spec(prev));
        }
    }

    /// Appends `num` generated rows.
    pub fn gen_rows(&mut self, num: usize)
        requires
            old(self).wf(),
            (old(self).rows().len() + num) * old(self).width() <= usize::MAX,
        ensures
            final(self).wf(),
            final(self).rows() == grow(old(self).rows(), num as nat),
            final(self).width() == old(self).width(),
    {
        let ghost w = self.width();
        let ghost goal = grow(self.rows(), num as nat);
        let mut k: usize = 0;
        while k < num
            invariant
                k <= num,
                self.wf(),
                self.width() == w,
                self.rows().len() == old(self).rows().len() + k,
                (self.rows().len() + (num - k)) * w <= usize::MAX,
                goal == grow(self.rows(), (num - k) as nat),
            decreases num - k,
        {
            proof {
                lemma_total_safe_le(self.rows(), w);
                assert(self.rows().len() * w + w <= (self.rows().len() + (num - k)) * w) by (
                nonlinear_arith)
                    requires
                        num - k >= 1,
                        w >= 0,
                        self.rows().len() >= 0,
                ;
            }
            self.gen_next_row();
            k = k + 1;
        }
        proof {
            assert(grow(self.rows(), 0) == self.rows());
        }
    }

    /// The floor rendered as text: one character per tile (`^` trap, `.`
    /// safe), rows joined by newlines.
    pub fn as_string(&self) -> (r: String)
        requires
            self.wf(),
        ensures
            r@ == render_rows(self.rows()),
    {
        let mut out = String::new();
        let n_rows = self.tiles.len();
        let mut r: usize = 0;
        while r < n_rows
            invariant
                self.wf(),
                r <= n_rows,
                n_rows == self.tiles@.len(),
                r == 0 ==> out@ =~= Seq::<char>::empty(),
                r >= 1 ==> render_rows(self.rows()) == out@ + render_tail(
                    self.rows().skip(r as int),
                ),
            decreases n_rows - r,
        {
            if r > 0 {
                push_char(&mut out, '\n');
            }
            let width = self.tiles[r].len();
            let ghost row = self.rows()[r as int];
            proof {
                assert(row == self.tiles@[r as int]@);
            }
            let mut c: usize = 0;
            let ghost base = out@;
            while c < width
                invariant
                    c <= width,
                    r < n_rows,
                    n_rows == self.tiles@.len(),
                    width == row.len(),
                    row == self.tiles@[r as int]@,
                    out@ =~= base + row_chars(row).take(c as int),
                decreases width - c,
            {
                let t = self.tiles[r][c];
                if t {
                    push_char(&mut out, '^');
                } else {
                    push_char(&mut out, '.');
                }
                proof {
                    assert(row_chars(row).take(c as int + 1) =~= row_chars(row).take(
                        c as int,
                    ).push(row_chars(row)[c as int]));
                }
                c = c + 1;
            }
            proof {
                assert(row_chars(row).take(width as int) =~= row_chars(row));
                if r == 0 {
                    assert(out@ =~= row_chars(self.rows()[0]));
                    assert(render_rows(self.rows()) == row_chars(self.rows()[0]) + render_tail(
                        self.rows().skip(1),
                    ));
                    assert(render_rows(self.rows()) == out@ + render_tail(self.rows().skip(1)));
                } else {
                    assert(render_tail(self.rows().skip(r as int)) == seq!['\n'] + row_chars(
                        self.rows().skip(r as int)[0],
                    ) + render_tail(self.rows().skip(r as int).skip(1)));
                    assert(self.rows().skip(r as int)[0] == row);
                    assert(self.rows().skip(r as int).skip(1) =~= self.rows().skip(r as int + 1));
                    assert(out@ =~= base.drop_last().push('\n') + (row_chars(row) + render_tail(
                        self.rows().skip(r as int + 1),
                    )).take(row_chars(row).len() as int));
                }
            }
            r = r + 1;
        }
        proof {
            if n_rows >= 1 {
                assert(self.rows().skip(n_rows as int) =~= Seq::<Seq<bool>>::empty());
                assert(out@ =~= render_rows(self.rows()));
            }
        }
        out
    }

    /// The number of safe tiles on the whole floor.
    pub fn num_safe_tiles(&self) -> (r: usize)
        requires
            self.wf(),
        ensures
            r == total_safe_count(self.rows()),
    {
        self.safe_count
    }
}

} // verus!
