//! Properties of the screen that hold across calls, proved over the models
//! that the operations' contracts speak of.
use vstd::prelude::*;

use crate::colored_text::{styled, StyledCell};
use crate::scr::{
    blank_cell, changes, filled, flushed, frame_seq, goto_seq, grid_changes, placed, row_changes,
    sentinel_cell, writes_seq, Grid, ScreenModel,
};

verus! {

proof fn lemma_row_unchanged(row: int, cells: Seq<StyledCell>, n: int)
    ensures
        row_changes(row, cells, cells, n) == Seq::<(int, int, StyledCell)>::empty(),
    decreases n,
{
    if n > 0 {
        lemma_row_unchanged(row, cells, n - 1);
    }
}

proof fn lemma_grid_unchanged(g: Grid, width: int, n: int)
    ensures
        grid_changes(g, g, width, n) == Seq::<(int, int, StyledCell)>::empty(),
    decreases n,
{
    if n > 0 {
        lemma_grid_unchanged(g, width, n - 1);
        lemma_row_unchanged(n - 1, g[n - 1], width);
        assert(grid_changes(g, g, width, n) =~= Seq::<(int, int, StyledCell)>::empty());
    }
}

/// A flush right after a flush writes no cell: all it emits is the
/// directive that parks the cursor.
pub proof fn lemma_flush_twice(m: ScreenModel)
    requires
        m.wf(),
    ensures
        changes(flushed(m)) == Seq::<(int, int, StyledCell)>::empty(),
        frame_seq(changes(flushed(m)), m.width, m.height) == goto_seq(
            (m.height - 1) as nat,
            m.width,
        ),
{
    lemma_grid_unchanged(m.pending, m.width as int, m.height as int);
    assert(writes_seq(changes(flushed(m))) == Seq::<char>::empty());
    assert(frame_seq(changes(flushed(m)), m.width, m.height) =~= goto_seq(
        (m.height - 1) as nat,
        m.width,
    ));
}

/// Text longer than the room left in a row shows only its first
/// `width - start` characters, from `start` to the end of the row; the
/// cells before `start` keep what they held.
pub proof fn lemma_clipping(row: Seq<StyledCell>, start: int, text: Seq<char>, style: Seq<char>)
    requires
        0 <= start <= row.len(),
        text.len() > row.len() - start,
    ensures
        placed(row, start, text, style) == row.subrange(0, start) + text.subrange(
            0,
            row.len() - start,
        ).map_values(|c: char| styled(c, style)),
{
    let a = placed(row, start, text, style);
    let b = row.subrange(0, start) + text.subrange(0, row.len() - start).map_values(
        |c: char| styled(c, style),
    );
    assert forall|j: int| 0 <= j < row.len() implies a[j] == b[j] by {
        if j >= start {
            assert(b[j] == text.subrange(0, row.len() - start).map_values(
                |c: char| styled(c, style),
            )[j - start]);
        }
    }
    assert(a =~= b);
}

proof fn lemma_row_all_differ(row: int, want: Seq<StyledCell>, have: Seq<StyledCell>, n: int)
    requires
        0 <= n <= want.len(),
        n <= have.len(),
        forall|j: int| 0 <= j < n ==> want[j] != have[j],
    ensures
        row_changes(row, want, have, n).len() == n,
        forall|k: int|
            0 <= k < n ==> #[trigger] row_changes(row, want, have, n)[k] == (row, k, want[k]),
    decreases n,
{
    if n > 0 {
        lemma_row_all_differ(row, want, have, n - 1);
    }
}

proof fn lemma_grid_all_differ(m: ScreenModel, n: int)
    requires
        m.wf(),
        0 <= n <= m.height,
        forall|a: int, b: int|
            0 <= a < m.height && 0 <= b < m.width ==> m.pending[a][b] != m.rendered[a][b],
    ensures
        grid_changes(m.pending, m.rendered, m.width as int, n).len() == n * m.width,
        forall|k: int|
            0 <= k < n * m.width ==> (#[trigger] grid_changes(
                m.pending,
                m.rendered,
                m.width as int,
                n,
            )[k]) == (k / m.width as int, k % m.width as int, m.pending[k / m.width as int][k
                % m.width as int]),
    decreases n,
{
    if n > 0 {
        let w = m.width as int;
        lemma_grid_all_differ(m, n - 1);
        lemma_row_all_differ(n - 1, m.pending[n - 1], m.rendered[n - 1], w);
        assert((n - 1) * w + w == n * w) by (nonlinear_arith);
        let g = grid_changes(m.pending, m.rendered, w, n);
        assert forall|k: int| 0 <= k < n * w implies #[trigger] g[k] == (
            k / w,
            k % w,
            m.pending[k / w][k % w],
        ) by {
            if k < (n - 1) * w {
            } else {
                let c = k - (n - 1) * w;
                assert(0 <= c < w);
                assert(k / w == n - 1 && k % w == c) by (nonlinear_arith)
                    requires
                        k == (n - 1) * w + c,
                        0 <= c < w,
                ;
            }
        }
    }
}

/// On a fresh screen, whose pending grid is blank and whose rendered grid
/// holds the sentinel, the first flush writes every cell, row by row, each
/// as a blank.
pub proof fn lemma_first_flush_paints_all(m: ScreenModel)
    requires
        m.wf(),
        m.pending == filled(m.width, m.height, blank_cell()),
        m.rendered == filled(m.width, m.height, sentinel_cell()),
    ensures
        changes(m).len() == m.width * m.height,
        forall|k: int|
            0 <= k < m.width * m.height ==> #[trigger] changes(m)[k] == (
                k / m.width as int,
                k % m.width as int,
                blank_cell(),
            ),
{
    let w = m.width as int;
    let h = m.height as int;
    assert forall|a: int, b: int| 0 <= a < h && 0 <= b < w implies m.pending[a][b]
        != m.rendered[a][b] by {
        assert(m.pending[a][b].ch == ' ');
        assert(m.rendered[a][b].ch == '*');
    }
    lemma_grid_all_differ(m, h);
    assert(h * w == w * h) by (nonlinear_arith);
    assert forall|k: int| 0 <= k < w * h implies #[trigger] changes(m)[k] == (
        k / w,
        k % w,
        blank_cell(),
    ) by {
        assert(0 <= k / w < h && 0 <= k % w < w) by (nonlinear_arith)
            requires
                0 <= k < w * h,
                w > 0,
        ;
        assert(changes(m)[k] == (k / w, k % w, m.pending[k / w][k % w]));
    }
}

/// The cells, as (row, column), at which `want` and `have` differ.
pub open spec fn differing(want: Grid, have: Grid, width: nat, height: nat) -> Set<(int, int)> {
    Set::new(
        |pos: (int, int)|
            0 <= pos.0 < height && 0 <= pos.1 < width && want[pos.0][pos.1] != have[pos.0][pos.1],
    )
}

/// Where each write lands, as (row, column).
pub open spec fn positions(ws: Seq<(int, int, StyledCell)>) -> Seq<(int, int)> {
    ws.map_values(|w: (int, int, StyledCell)| (w.0, w.1))
}

/// The model after the pending grid is replaced by `g`.
pub open spec fn with_pending(m: ScreenModel, g: Grid) -> ScreenModel {
    ScreenModel { pending: g, ..m }
}

spec fn before(r1: int, c1: int, r2: int, c2: int) -> bool {
    r1 < r2 || (r1 == r2 && c1 < c2)
}

proof fn lemma_row_changes_exact(row: int, want: Seq<StyledCell>, have: Seq<StyledCell>, n: int)
    requires
        0 <= n <= want.len(),
        n <= have.len(),
    ensures
        forall|k: int|
            0 <= k < row_changes(row, want, have, n).len() ==> {
                let c = #[trigger] row_changes(row, want, have, n)[k];
                &&& c.0 == row
                &&& 0 <= c.1 < n
                &&& want[c.1] != have[c.1]
                &&& c.2 == want[c.1]
            },
        forall|i: int, j: int|
            0 <= i < j < row_changes(row, want, have, n).len() ==> (#[trigger] row_changes(
                row,
                want,
                have,
                n,
            )[i]).1 < (#[trigger] row_changes(row, want, have, n)[j]).1,
        forall|b: int|
            0 <= b < n && #[trigger] want[b] != have[b] ==> exists|k: int|
                0 <= k < row_changes(row, want, have, n).len() && (#[trigger] row_changes(
                    row,
                    want,
                    have,
                    n,
                )[k]).1 == b,
    decreases n,
{
    if n > 0 {
        lemma_row_changes_exact(row, want, have, n - 1);
        let prev = row_changes(row, want, have, n - 1);
        let cur = row_changes(row, want, have, n);
        assert forall|b: int| 0 <= b < n && #[trigger] want[b] != have[b] implies exists|k: int|
            0 <= k < cur.len() && (#[trigger] cur[k]).1 == b by {
            if b < n - 1 {
                let k = choose|k: int| 0 <= k < prev.len() && (#[trigger] prev[k]).1 == b;
                assert(cur[k] == prev[k]);
            } else {
                assert(cur[prev.len() as int].1 == b);
            }
        }
    }
}

proof fn lemma_grid_changes_exact(want: Grid, have: Grid, width: nat, n: int)
    requires
        0 <= n <= want.len(),
        n <= have.len(),
        forall|a: int| 0 <= a < n ==> (#[trigger] want[a]).len() == width && have[a].len() == width,
    ensures
        forall|k: int|
            0 <= k < grid_changes(want, have, width as int, n).len() ==> {
                let c = #[trigger] grid_changes(want, have, width as int, n)[k];
                &&& 0 <= c.0 < n
                &&& 0 <= c.1 < width
                &&& want[c.0][c.1] != have[c.0][c.1]
                &&& c.2 == want[c.0][c.1]
            },
        forall|i: int, j: int|
            0 <= i < j < grid_changes(want, have, width as int, n).len() ==> before(
                (#[trigger] grid_changes(want, have, width as int, n)[i]).0,
                grid_changes(want, have, width as int, n)[i].1,
                (#[trigger] grid_changes(want, have, width as int, n)[j]).0,
                grid_changes(want, have, width as int, n)[j].1,
            ),
        forall|a: int, b: int|
            0 <= a < n && 0 <= b < width && #[trigger] want[a][b] != have[a][b] ==> exists|k: int|
                0 <= k < grid_changes(want, have, width as int, n).len() && (#[trigger] grid_changes(
                    want,
                    have,
                    width as int,
                    n,
                )[k]).0 == a && grid_changes(want, have, width as int, n)[k].1 == b,
    decreases n,
{
    if n > 0 {
        lemma_grid_changes_exact(want, have, width, n - 1);
        lemma_row_changes_exact(n - 1, want[n - 1], have[n - 1], width as int);
        let prev = grid_changes(want, have, width as int, n - 1);
        let row = row_changes(n - 1, want[n - 1], have[n - 1], width as int);
        let cur = grid_changes(want, have, width as int, n);
        assert(cur == prev + row);
        assert forall|k: int| 0 <= k < cur.len() implies {
            let c = #[trigger] cur[k];
            &&& 0 <= c.0 < n
            &&& 0 <= c.1 < width
            &&& want[c.0][c.1] != have[c.0][c.1]
            &&& c.2 == want[c.0][c.1]
        } by {
            if k >= prev.len() {
                assert(cur[k] == row[k - prev.len()]);
            }
        }
        assert forall|i: int, j: int| 0 <= i < j < cur.len() implies before(
            (#[trigger] cur[i]).0,
            cur[i].1,
            (#[trigger] cur[j]).0,
            cur[j].1,
        ) by {
            if j >= prev.len() {
                assert(cur[j] == row[j - prev.len()]);
                if i >= prev.len() {
                    assert(cur[i] == row[i - prev.len()]);
                }
            }
        }
        assert forall|a: int, b: int|
            0 <= a < n && 0 <= b < width && #[trigger] want[a][b] != have[a][b] implies exists|k: int|
            0 <= k < cur.len() && (#[trigger] cur[k]).0 == a && cur[k].1 == b by {
            if a < n - 1 {
                let k = choose|k: int| 0 <= k < prev.len() && (#[trigger] prev[k]).0 == a && prev[k].1 == b;
                assert(cur[k] == prev[k]);
            } else {
                assert(want[n - 1][b] != have[n - 1][b]);
                let k = choose|k: int| 0 <= k < row.len() && (#[trigger] row[k]).1 == b;
                assert(cur[prev.len() + k] == row[k]);
            }
        }
    }
}

/// A flush writes exactly the cells at which the pending grid differs from
/// what the previous flush left on the terminal: each such cell once, with
/// its pending content, and no other. So the number of writes is the
/// Hamming distance between the two pending grids.
pub proof fn lemma_minimal_diff(prev: ScreenModel, next: Grid)
    requires
        prev.wf(),
        prev.is_grid(next),
    ensures
        ({
            let ws = changes(with_pending(flushed(prev), next));
            &&& positions(ws).no_duplicates()
            &&& positions(ws).to_set() == differing(next, prev.pending, prev.width, prev.height)
            &&& ws.len() == differing(next, prev.pending, prev.width, prev.height).len()
            &&& forall|k: int|
                0 <= k < ws.len() ==> (#[trigger] ws[k]).2 == next[ws[k].0][ws[k].1]
        }),
{
    let m = with_pending(flushed(prev), next);
    let ws = changes(m);
    let ps = positions(ws);
    let d = differing(next, prev.pending, prev.width, prev.height);
    lemma_grid_changes_exact(next, prev.pending, prev.width, prev.height as int);
    assert forall|i: int, j: int| 0 <= i < ps.len() && 0 <= j < ps.len() && i != j implies ps[i]
        != ps[j] by {
        if i < j {
            assert(before(ws[i].0, ws[i].1, ws[j].0, ws[j].1));
        } else {
            assert(before(ws[j].0, ws[j].1, ws[i].0, ws[i].1));
        }
    }
    assert forall|pos: (int, int)| d.contains(pos) implies ps.to_set().contains(pos) by {
        assert(next[pos.0][pos.1] != prev.pending[pos.0][pos.1]);
        let k = choose|k: int| 0 <= k < ws.len() && (#[trigger] ws[k]).0 == pos.0 && ws[k].1 == pos.1;
        assert(ps[k] == pos);
    }
    assert forall|pos: (int, int)| ps.to_set().contains(pos) implies d.contains(pos) by {
        let k = choose|k: int| 0 <= k < ps.len() && ps[k] == pos;
        assert(ws[k] == ws[k]);
    }
    assert(ps.to_set() =~= d);
    ps.unique_seq_to_set();
}

} // verus!
