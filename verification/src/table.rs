//! Table grid reconstruction: a row-oriented cell stream with merge flags
//! becomes a dense two-dimensional grid of cell statuses, rendered as an
//! HTML table with rowspan/colspan attributes.

use vstd::prelude::*;

use crate::context::{ConversionContext, lemma_ctx_growth_refl, lemma_ctx_growth_trans,
    spec_ctx_growth};
use crate::error::Error;
use crate::model::{TableCellNode, TableNode, TableRowContentNode, TableRowNode,
    VMergeState};
use crate::paragraph::ParagraphConverter;
use crate::text::{push_char, spec_dec_digits, u64_to_string};

verus! {

/// The state of one grid slot after merge resolution.
#[derive(Debug)]
pub enum CellStatus {
    /// A real cell with rendered content and its spans.
    Occupied { content: String, rowspan: usize, colspan: usize },
    /// Absorbed into a cell to its left (part of a colspan).
    MergedLeft,
    /// Absorbed into a cell above (part of a rowspan).
    MergedUp,
    /// A placeholder slot that no cell claimed.
    Empty,
}

/// The grid as a sequence of rows of statuses.
pub open spec fn spec_grid_view(g: Seq<Vec<CellStatus>>) -> Seq<Seq<CellStatus>> {
    g.map_values(|r: Vec<CellStatus>| r@)
}

/// A row padded with empty slots up to the given length.
pub open spec fn spec_pad_row(row: Seq<CellStatus>, col: int) -> Seq<CellStatus> {
    if row.len() <= col {
        row + Seq::new((col + 1 - row.len()) as nat, |i: int| CellStatus::Empty)
    } else {
        row
    }
}

/// The grid padded with empty rows up to the given length.
pub open spec fn spec_pad_grid(g: Seq<Seq<CellStatus>>, row: int) -> Seq<Seq<CellStatus>> {
    if g.len() <= row {
        g + Seq::new((row + 1 - g.len()) as nat, |i: int| Seq::<CellStatus>::empty())
    } else {
        g
    }
}

/// Writing one status into the grid, growing it as needed.
pub open spec fn spec_set_grid_cell(
    g: Seq<Seq<CellStatus>>,
    row: int,
    col: int,
    status: CellStatus,
) -> Seq<Seq<CellStatus>> {
    let g1 = spec_pad_grid(g, row);
    let r1 = spec_pad_row(g1[row], col);
    g1.update(row, r1.update(col, status))
}

/// Writes one status into the grid, growing rows and columns with empty
/// slots as needed.
pub fn set_grid_cell(grid: &mut Vec<Vec<CellStatus>>, row: usize, col: usize, status: CellStatus)
    requires
        row < usize::MAX,
        col < usize::MAX,
    ensures
        spec_grid_view(final(grid)@) == spec_set_grid_cell(
            spec_grid_view(old(grid)@),
            row as int,
            col as int,
            status,
        ),
{
    let ghost g0 = spec_grid_view(grid@);
    if grid.len() <= row {
        let mut k = grid.len();
        while k < row + 1
            invariant
                g0.len() <= k == grid@.len() <= row + 1,
                row < usize::MAX,
                g0 == spec_grid_view(old(grid)@),
                forall|j: int| 0 <= j < g0.len() ==> (#[trigger] grid@[j])@ == g0[j],
                forall|j: int| g0.len() <= j < k ==> (#[trigger] grid@[j])@.len() == 0,
            decreases row + 1 - k,
        {
            grid.push(Vec::new());
            k = k + 1;
        }
    }
    let ghost g1 = spec_pad_grid(g0, row as int);
    proof {
        assert(spec_grid_view(grid@) =~~= g1);
    }
    let ghost r0 = g1[row as int];
    if grid[row].len() <= col {
        let rl = grid[row].len();
        let mut k = rl;
        while k < col + 1
            invariant
                row < grid@.len(),
                col < usize::MAX,
                r0.len() <= k == grid@[row as int]@.len() <= col + 1,
                forall|j: int| 0 <= j < r0.len() ==> grid@[row as int]@[j] == r0[j],
                forall|j: int|
                    r0.len() <= j < k ==> grid@[row as int]@[j] is Empty,
                forall|j: int|
                    0 <= j < grid@.len() && j != row ==> (#[trigger] grid@[j])@ == g1[j],
                grid@.len() == g1.len(),
            decreases col + 1 - k,
        {
            grid[row].push(CellStatus::Empty);
            k = k + 1;
        }
    }
    let ghost r1 = spec_pad_row(r0, col as int);
    proof {
        assert(grid@[row as int]@ =~= r1);
        assert(spec_grid_view(grid@) =~~= g1.update(row as int, r1));
    }
    grid[row][col] = status;
    proof {
        assert(spec_grid_view(grid@) =~~= g1.update(row as int, r1.update(col as int, status)));
    }
}

/// A cell's rowspan raised by one (saturating at the type bound).
pub open spec fn spec_bump_rowspan(c: CellStatus) -> CellStatus {
    match c {
        CellStatus::Occupied { content, rowspan, colspan } => CellStatus::Occupied {
            content,
            rowspan: if rowspan == usize::MAX {
                rowspan
            } else {
                (rowspan + 1) as usize
            },
            colspan,
        },
        _ => c,
    }
}

/// The horizontal master covering a column: scanning left from the column,
/// past absorbed slots, to an occupied cell whose span still covers it.
pub open spec fn spec_find_master(row: Seq<CellStatus>, j: int, col: int) -> Option<int>
    decreases j + 1,
{
    if j < 0 {
        Option::None
    } else {
        match row[j] {
            CellStatus::MergedLeft => spec_find_master(row, j - 1, col),
            CellStatus::Occupied { content, rowspan, colspan } => if j + colspan > col {
                Option::Some(j)
            } else {
                Option::None
            },
            _ => Option::None,
        }
    }
}

/// The search for the master of a vertical-merge continuation: upward
/// through absorbed slots, or left along a colspan, to the occupied cell
/// whose rowspan the continuation extends. A grid where no master can be
/// traced is returned unchanged.
pub open spec fn spec_incr_search(g: Seq<Seq<CellStatus>>, tr: int, col: int) -> Seq<
    Seq<CellStatus>,
>
    decreases tr + 1,
{
    if tr < 0 || g.len() <= tr || g[tr].len() <= col {
        g
    } else {
        match g[tr][col] {
            CellStatus::Occupied { content, rowspan, colspan } => g.update(
                tr,
                g[tr].update(col, spec_bump_rowspan(g[tr][col])),
            ),
            CellStatus::MergedUp => if tr == 0 {
                g
            } else {
                spec_incr_search(g, tr - 1, col)
            },
            CellStatus::MergedLeft => match spec_find_master(g[tr], col - 1, col) {
                Option::Some(mc) => g.update(tr, g[tr].update(mc, spec_bump_rowspan(g[tr][mc]))),
                Option::None => g,
            },
            CellStatus::Empty => g,
        }
    }
}

pub open spec fn spec_increment_rowspan(g: Seq<Seq<CellStatus>>, current_row: int, col: int) -> Seq<
    Seq<CellStatus>,
> {
    if current_row == 0 {
        g
    } else {
        spec_incr_search(g, current_row - 1, col)
    }
}

/// The master search never changes the number of rows.
pub proof fn lemma_incr_search_len(g: Seq<Seq<CellStatus>>, tr: int, col: int)
    ensures
        spec_incr_search(g, tr, col).len() == g.len(),
    decreases tr + 1,
{
    if !(tr < 0 || g.len() <= tr || g[tr].len() <= col) {
        match g[tr][col] {
            CellStatus::MergedUp => {
                if tr > 0 {
                    lemma_incr_search_len(g, tr - 1, col);
                }
            },
            _ => {
            },
        }
    }
}

pub proof fn lemma_increment_rowspan_len(g: Seq<Seq<CellStatus>>, current_row: int, col: int)
    ensures
        spec_increment_rowspan(g, current_row, col).len() == g.len(),
{
    if current_row != 0 {
        lemma_incr_search_len(g, current_row - 1, col);
    }
}

fn bump_rowspan_at(grid: &mut Vec<Vec<CellStatus>>, row: usize, col: usize)
    requires
        row < old(grid)@.len(),
        col < old(grid)@[row as int]@.len(),
    ensures
        spec_grid_view(final(grid)@) == spec_grid_view(old(grid)@).update(
            row as int,
            spec_grid_view(old(grid)@)[row as int].update(
                col as int,
                spec_bump_rowspan(spec_grid_view(old(grid)@)[row as int][col as int]),
            ),
        ),
{
    let cell = &grid[row][col];
    let nc: CellStatus = match cell {
        CellStatus::Occupied { content, rowspan, colspan } => {
            let rs: usize = if *rowspan == usize::MAX {
                *rowspan
            } else {
                *rowspan + 1
            };
            CellStatus::Occupied { content: content.clone(), rowspan: rs, colspan: *colspan }
        },
        CellStatus::MergedLeft => CellStatus::MergedLeft,
        CellStatus::MergedUp => CellStatus::MergedUp,
        CellStatus::Empty => CellStatus::Empty,
    };
    proof {
        assert(nc == spec_bump_rowspan(spec_grid_view(grid@)[row as int][col as int]));
    }
    grid[row][col] = nc;
    proof {
        assert(spec_grid_view(grid@) =~= spec_grid_view(old(grid)@).update(
            row as int,
            spec_grid_view(old(grid)@)[row as int].update(
                col as int,
                spec_bump_rowspan(spec_grid_view(old(grid)@)[row as int][col as int]),
            ),
        ));
    }
}

/// Finds the master cell that a vertical-merge continuation at
/// (current_row, col) extends, and raises its rowspan by one. Malformed
/// merge metadata leaves the grid unchanged rather than failing.
pub fn increment_rowspan(grid: &mut Vec<Vec<CellStatus>>, current_row: usize, col: usize)
    ensures
        spec_grid_view(final(grid)@) == spec_increment_rowspan(
            spec_grid_view(old(grid)@),
            current_row as int,
            col as int,
        ),
{
    if current_row == 0 {
        return;
    }
    let ghost g0 = spec_grid_view(grid@);
    let mut target_row = current_row - 1;
    loop
        invariant
            0 <= target_row < current_row,
            g0 == spec_grid_view(old(grid)@),
            spec_grid_view(grid@) == g0,
            spec_incr_search(g0, current_row - 1, col as int) == spec_incr_search(
                g0,
                target_row as int,
                col as int,
            ),
        decreases target_row,
    {
        if grid.len() <= target_row || grid[target_row].len() <= col {
            proof {
                assert(g0.len() <= target_row || g0[target_row as int].len() <= col);
                assert(spec_incr_search(g0, target_row as int, col as int) == g0);
            }
            return;
        }
        let is_occupied = matches!(&grid[target_row][col], CellStatus::Occupied { .. });
        let is_merged_up = matches!(&grid[target_row][col], CellStatus::MergedUp);
        let is_merged_left = matches!(&grid[target_row][col], CellStatus::MergedLeft);
        if is_occupied {
            proof {
                assert(g0[target_row as int][col as int] is Occupied);
            }
            bump_rowspan_at(grid, target_row, col);
            proof {
                assert(spec_grid_view(grid@) =~~= spec_incr_search(
                    g0,
                    target_row as int,
                    col as int,
                ));
            }
            return;
        } else if is_merged_up {
            if target_row == 0 {
                proof {
                    assert(g0[0][col as int] is MergedUp);
                    assert(spec_incr_search(g0, 0, col as int) == g0);
                }
                return;
            }
            proof {
                assert(g0[target_row as int][col as int] is MergedUp);
            }
            target_row = target_row - 1;
        } else if is_merged_left {
            // The master lies to the left along a colspan in this row.
            let ghost trow = spec_grid_view(grid@)[target_row as int];
            let mut mc = col;
            let mut found: Option<usize> = Option::None;
            let mut done = false;
            proof {
                assert(spec_find_master(trow, col - 1, col as int) == spec_find_master(
                    trow,
                    mc - 1,
                    col as int,
                ));
            }
            while !done && mc > 0
                invariant
                    target_row < grid@.len(),
                    col < grid@[target_row as int]@.len(),
                    trow == spec_grid_view(grid@)[target_row as int],
                    spec_grid_view(grid@) == g0,
                    0 <= mc <= col,
                    !done ==> found is None && spec_find_master(trow, col - 1, col as int)
                        == spec_find_master(trow, mc - 1, col as int),
                    done ==> (match found {
                        Option::Some(m) => m < trow.len() && spec_find_master(
                            trow,
                            col - 1,
                            col as int,
                        ) == Option::Some(m as int) && trow[m as int] is Occupied,
                        Option::None => spec_find_master(trow, col - 1, col as int) is None,
                    }),
                decreases mc,
            {
                mc = mc - 1;
                match &grid[target_row][mc] {
                    CellStatus::MergedLeft => {
                    },
                    CellStatus::Occupied { content, rowspan, colspan } => {
                        if *colspan > col - mc {
                            found = Option::Some(mc);
                        }
                        done = true;
                    },
                    _ => {
                        done = true;
                    },
                }
            }
            proof {
                if !done {
                    assert(mc == 0);
                    assert(spec_find_master(trow, -1, col as int) is None);
                }
            }
            match found {
                Option::Some(m) => {
                    proof {
                        assert(g0[target_row as int][col as int] is MergedLeft);
                    }
                    bump_rowspan_at(grid, target_row, m);
                    proof {
                        assert(spec_grid_view(grid@) =~~= spec_incr_search(
                            g0,
                            target_row as int,
                            col as int,
                        ));
                    }
                    return;
                },
                Option::None => {
                    proof {
                        assert(g0[target_row as int][col as int] is MergedLeft);
                        assert(spec_incr_search(g0, target_row as int, col as int) == g0);
                    }
                    return;
                },
            }
        } else {
            proof {
                assert(g0[target_row as int][col as int] is Empty);
                assert(spec_incr_search(g0, target_row as int, col as int) == g0);
            }
            return;
        }
    }
}

/// What one grid slot renders as: a td tag with span attributes only above
/// one, nothing for absorbed slots, an empty cell for unclaimed slots.
pub open spec fn spec_render_cell(c: CellStatus) -> Seq<char> {
    match c {
        CellStatus::Occupied { content, rowspan, colspan } => {
            let attrs = (if rowspan > 1 {
                " rowspan=\""@ + spec_dec_digits(rowspan as nat) + "\""@
            } else {
                Seq::<char>::empty()
            }) + (if colspan > 1 {
                " colspan=\""@ + spec_dec_digits(colspan as nat) + "\""@
            } else {
                Seq::<char>::empty()
            });
            "    <td"@ + attrs + ">"@ + content@ + "</td>\n"@
        },
        CellStatus::MergedLeft => Seq::empty(),
        CellStatus::MergedUp => Seq::empty(),
        CellStatus::Empty => "    <td></td>\n"@,
    }
}

pub open spec fn spec_render_cells(row: Seq<CellStatus>) -> Seq<char>
    decreases row.len(),
{
    if row.len() == 0 {
        Seq::empty()
    } else {
        spec_render_cells(row.drop_last()) + spec_render_cell(row.last())
    }
}

pub open spec fn spec_render_row(row: Seq<CellStatus>) -> Seq<char> {
    "  <tr>\n"@ + spec_render_cells(row) + "  </tr>\n"@
}

pub open spec fn spec_render_rows(g: Seq<Seq<CellStatus>>) -> Seq<char>
    decreases g.len(),
{
    if g.len() == 0 {
        Seq::empty()
    } else {
        spec_render_rows(g.drop_last()) + spec_render_row(g.last())
    }
}

/// The rendered table.
pub open spec fn spec_render_grid(g: Seq<Seq<CellStatus>>) -> Seq<char> {
    "<table>\n"@ + spec_render_rows(g) + "</table>"@
}

/// Renders a grid as an HTML table. Pure: never fails, and emits an empty
/// cell for any slot left unclaimed by malformed merge metadata.
#[verifier::rlimit(60)]
pub fn render_grid(grid: &Vec<Vec<CellStatus>>) -> (r: String)
    ensures
        r@ == spec_render_grid(spec_grid_view(grid@)),
{
    let ghost g = spec_grid_view(grid@);
    let mut html = String::from_str("<table>\n");
    let nr = grid.len();
    let mut i: usize = 0;
    proof {
        assert(g.take(0) =~= Seq::<Seq<CellStatus>>::empty());
        assert(html@ =~= "<table>\n"@ + spec_render_rows(g.take(0)));
    }
    while i < nr
        invariant
            nr == grid@.len(),
            g == spec_grid_view(grid@),
            0 <= i <= nr,
            html@ == "<table>\n"@ + spec_render_rows(g.take(i as int)),
        decreases nr - i,
    {
        html.append("  <tr>\n");
        let ghost row = g[i as int];
        let nc = grid[i].len();
        let mut j: usize = 0;
        proof {
            assert(row.take(0) =~= Seq::<CellStatus>::empty());
        }
        while j < nc
            invariant
                nr == grid@.len(),
                g == spec_grid_view(grid@),
                0 <= i < nr,
                row == g[i as int],
                nc == grid@[i as int]@.len(),
                0 <= j <= nc,
                html@ == "<table>\n"@ + spec_render_rows(g.take(i as int)) + "  <tr>\n"@
                    + spec_render_cells(row.take(j as int)),
            decreases nc - j,
        {
            match &grid[i][j] {
                CellStatus::Occupied { content, rowspan, colspan } => {
                    let mut attrs = String::new();
                    if *rowspan > 1 {
                        attrs.append(" rowspan=\"");
                        let d = u64_to_string(*rowspan as u64);
                        attrs.append(d.as_str());
                        attrs.append("\"");
                    }
                    if *colspan > 1 {
                        attrs.append(" colspan=\"");
                        let d = u64_to_string(*colspan as u64);
                        attrs.append(d.as_str());
                        attrs.append("\"");
                    }
                    html.append("    <td");
                    html.append(attrs.as_str());
                    html.append(">");
                    html.append(content.as_str());
                    html.append("</td>\n");
                },
                CellStatus::MergedLeft => {
                },
                CellStatus::MergedUp => {
                },
                CellStatus::Empty => {
                    html.append("    <td></td>\n");
                },
            }
            proof {
                assert(row.take(j + 1).drop_last() =~= row.take(j as int));
                assert(row.take(j + 1).last() == row[j as int]);
            }
            j = j + 1;
        }
        html.append("  </tr>\n");
        proof {
            assert(row.take(nc as int) =~= row);
            assert(g.take(i + 1).drop_last() =~= g.take(i as int));
            assert(g.take(i + 1).last() == g[i as int]);
        }
        i = i + 1;
    }
    html.append("</table>");
    proof {
        assert(g.take(nr as int) =~= g);
    }
    html
}

/// A merge-free, uniform table: every cell spans one column, no cell takes
/// part in a vertical merge, and every row has the same number of cells,
/// within the addressable column range.
pub open spec fn spec_simple_cell(c: TableRowContentNode) -> bool {
    match c {
        TableRowContentNode::Cell(cell) => (cell.grid_span is None || cell.grid_span
            == Option::Some(1usize)) && cell.v_merge is NoMerge,
        TableRowContentNode::Sdt => false,
    }
}

/// The column count of a table, read off its first row.
pub open spec fn spec_table_width(t: TableNode) -> int {
    if t.rows@.len() == 0 {
        0
    } else {
        t.rows@[0].cells@.len() as int
    }
}

pub open spec fn spec_simple_table(t: TableNode) -> bool {
    &&& spec_table_width(t) < 0x1000_0000
    &&& forall|r: int|
        0 <= r < t.rows@.len() ==> (#[trigger] t.rows@[r]).cells@.len() == spec_table_width(t)
    &&& forall|r: int, cc: int|
        0 <= r < t.rows@.len() && 0 <= cc < t.rows@[r].cells@.len() ==> spec_simple_cell(
            #[trigger] t.rows@[r].cells@[cc],
        )
}

/// Grid rectangularity: every row tiles the same column count with an
/// occupied single-span cell in every slot, so there are no gaps and no
/// overlaps.
pub open spec fn spec_rectangular(g: Seq<Seq<CellStatus>>, rows: int, w: int) -> bool {
    &&& g.len() == rows
    &&& forall|r: int| 0 <= r < g.len() ==> (#[trigger] g[r]).len() == w
    &&& forall|r: int, cc: int|
        0 <= r < g.len() && 0 <= cc < g[r].len() ==> ((#[trigger] g[r][cc]) is Occupied
            && g[r][cc]->Occupied_rowspan == 1 && g[r][cc]->Occupied_colspan == 1)
}

/// How many hyperlinks with embedded images a table's cells hold; when
/// none, table conversion never fails.
pub open spec fn spec_cell_no_link_images(cell: TableCellNode) -> nat
    decreases cell,
{
    crate::paragraph::spec_para_list_no_link_images(cell.content@)
}

pub open spec fn spec_row_no_link_images(row: TableRowNode) -> nat
    decreases row,
{
    spec_rc_list_no_link_images(row.cells@)
}

pub open spec fn spec_rc_list_no_link_images(s: Seq<TableRowContentNode>) -> nat
    decreases s,
{
    if s.len() == 0 {
        0
    } else {
        (match s[0] {
            TableRowContentNode::Cell(cell) => spec_cell_no_link_images(cell),
            TableRowContentNode::Sdt => 0,
        }) + spec_rc_list_no_link_images(s.skip(1))
    }
}

pub open spec fn spec_table_no_link_images(t: TableNode) -> nat
    decreases t,
{
    spec_row_list_no_link_images(t.rows@)
}

pub open spec fn spec_row_list_no_link_images(s: Seq<TableRowNode>) -> nat
    decreases s,
{
    if s.len() == 0 {
        0
    } else {
        spec_row_no_link_images(s[0]) + spec_row_list_no_link_images(s.skip(1))
    }
}

proof fn lemma_rc_list_nli_elem(s: Seq<TableRowContentNode>, i: int)
    requires
        0 <= i < s.len(),
    ensures
        (match s[i] {
            TableRowContentNode::Cell(cell) => spec_cell_no_link_images(cell),
            TableRowContentNode::Sdt => 0,
        }) <= spec_rc_list_no_link_images(s),
    decreases s.len(),
{
    if i > 0 {
        lemma_rc_list_nli_elem(s.skip(1), i - 1);
        assert(s.skip(1)[i - 1] == s[i]);
    }
}

proof fn lemma_row_list_nli_elem(s: Seq<TableRowNode>, i: int)
    requires
        0 <= i < s.len(),
    ensures
        spec_row_no_link_images(s[i]) <= spec_row_list_no_link_images(s),
    decreases s.len(),
{
    if i > 0 {
        lemma_row_list_nli_elem(s.skip(1), i - 1);
        assert(s.skip(1)[i - 1] == s[i]);
    }
}

/// Converter for table elements.
pub struct TableConverter;

impl TableConverter {
    /// Renders one cell's paragraphs, separated by line-break tags.
    fn convert_cell_content(cell: &TableCellNode, context: &mut ConversionContext) -> (r: Result<
        String,
        Error,
    >)
        requires
            old(context).wf(),
        ensures
            final(context).wf(),
            spec_ctx_growth(*old(context), *final(context)),
            spec_cell_no_link_images(*cell) == 0 ==> r is Ok,
    {
        let ghost ctx0 = *context;
        proof {
            lemma_ctx_growth_refl(ctx0);
        }
        let mut content = String::new();
        let n = cell.content.len();
        let mut i: usize = 0;
        while i < n
            invariant
                old(context).wf(),
                context.wf(),
                n == cell.content@.len(),
                0 <= i <= n,
                ctx0 == *old(context),
                spec_ctx_growth(ctx0, *context),
            decreases n - i,
        {
            let ghost pre = *context;
            proof {
                if spec_cell_no_link_images(*cell) == 0 {
                    crate::paragraph::lemma_para_list_nli_elem_pub(cell.content@, i as int);
                }
            }
            let res = ParagraphConverter::convert(&cell.content[i], context);
            proof {
                lemma_ctx_growth_trans(ctx0, pre, *context);
            }
            match res {
                Ok(para_content) => {
                    if para_content.unicode_len() > 0 {
                        if content.unicode_len() > 0 {
                            content.append("<br/>");
                        }
                        content.append(para_content.as_str());
                    }
                },
                Err(e) => {
                    proof {
                        if spec_cell_no_link_images(*cell) == 0 {
                            assert(false);
                        }
                    }
                    return Err(e);
                },
            }
            i = i + 1;
        }
        Ok(content)
    }

    /// Converts a table to HTML: the row-oriented cell stream becomes a
    /// dense grid (the renderer is not invoked for vertical-merge
    /// continuation cells, whose master's rowspan grows instead), and the
    /// grid is rendered with span attributes. Malformed merge metadata
    /// degrades to empty cells; it never fails.
    pub fn convert(table: &TableNode, context: &mut ConversionContext) -> (r: Result<String, Error>)
        requires
            old(context).wf(),
        ensures
            final(context).wf(),
            spec_ctx_growth(*old(context), *final(context)),
            // Grid rectangularity: a merge-free uniform table converts to a
            // grid in which every row tiles the same column count with no
            // gaps and no overlaps.
            spec_table_no_link_images(*table) == 0 ==> r is Ok,
            spec_simple_table(*table) && r is Ok ==> exists|g: Seq<Seq<CellStatus>>|
                r->Ok_0@ == spec_render_grid(g) && #[trigger] spec_rectangular(
                    g,
                    table.rows@.len() as int,
                    spec_table_width(*table),
                ),
    {
        let ghost ctx0 = *context;
        let ghost simple = spec_simple_table(*table);
        let ghost w = spec_table_width(*table);
        proof {
            lemma_ctx_growth_refl(ctx0);
        }
        let mut grid: Vec<Vec<CellStatus>> = Vec::new();
        let nrows = table.rows.len();
        let mut row_idx: usize = 0;
        proof {
            if simple {
                assert(spec_rectangular(spec_grid_view(grid@), 0, w));
            }
        }
        while row_idx < nrows
            invariant
                old(context).wf(),
                context.wf(),
                nrows == table.rows@.len(),
                0 <= row_idx <= nrows,
                grid@.len() >= row_idx,
                ctx0 == *old(context),
                simple == spec_simple_table(*table),
                w == spec_table_width(*table),
                spec_ctx_growth(ctx0, *context),
                simple ==> spec_rectangular(spec_grid_view(grid@), row_idx as int, w),
            decreases nrows - row_idx,
        {
            let ghost gv_row_pre = spec_grid_view(grid@);
            if grid.len() <= row_idx {
                grid.push(Vec::new());
            }
            proof {
                if simple {
                    assert(gv_row_pre.len() == row_idx);
                    assert(spec_grid_view(grid@) =~= gv_row_pre.push(Seq::<CellStatus>::empty()));
                    assert(spec_grid_view(grid@).len() == row_idx + 1);
                    assert(spec_grid_view(grid@)[row_idx as int].len() == 0);
                    assert(spec_grid_view(grid@).take(row_idx as int) =~= gv_row_pre);
                    assert(spec_rectangular(
                        spec_grid_view(grid@).take(row_idx as int),
                        row_idx as int,
                        w,
                    ));
                }
            }
            let mut col_idx: usize = 0;
            let ncells = table.rows[row_idx].cells.len();
            let mut ci: usize = 0;
            while ci < ncells
                invariant
                    old(context).wf(),
                    context.wf(),
                    nrows == table.rows@.len(),
                    0 <= row_idx < nrows,
                    row_idx < grid@.len(),
                    ncells == table.rows@[row_idx as int].cells@.len(),
                    0 <= ci <= ncells,
                    ctx0 == *old(context),
                    simple == spec_simple_table(*table),
                    w == spec_table_width(*table),
                    spec_ctx_growth(ctx0, *context),
                    simple ==> {
                        &&& spec_grid_view(grid@).len() == row_idx + 1
                        &&& spec_rectangular(
                            spec_grid_view(grid@).take(row_idx as int),
                            row_idx as int,
                            w,
                        )
                        &&& spec_grid_view(grid@)[row_idx as int].len() == ci
                        &&& forall|cc: int|
                            0 <= cc < ci ==> ((#[trigger] spec_grid_view(
                                grid@,
                            )[row_idx as int][cc]) is Occupied && spec_grid_view(
                                grid@,
                            )[row_idx as int][cc]->Occupied_rowspan == 1 && spec_grid_view(
                                grid@,
                            )[row_idx as int][cc]->Occupied_colspan == 1)
                        &&& col_idx == ci
                        &&& ncells == w
                    },
                decreases ncells - ci,
            {
                proof {
                    if simple {
                        assert(table.rows@[row_idx as int].cells@.len() == w);
                        assert(spec_simple_cell(table.rows@[row_idx as int].cells@[ci as int]));
                    }
                }
                match &table.rows[row_idx].cells[ci] {
                    TableRowContentNode::Cell(cell) => {
                        // Skip slots already claimed by a merge from a prior
                        // row or a prior cell's colspan.
                        while col_idx < grid[row_idx].len() && !matches!(
                            grid[row_idx][col_idx],
                            CellStatus::Empty,
                        )
                            invariant
                                row_idx < grid@.len(),
                                0 <= col_idx,
                                simple ==> (col_idx == ci && spec_grid_view(
                                    grid@,
                                )[row_idx as int].len() == ci),
                            decreases grid@[row_idx as int]@.len() - col_idx,
                        {
                            proof {
                                if simple {
                                    assert(false);
                                }
                            }
                            col_idx = col_idx + 1;
                        }
                        let grid_span: usize = match cell.grid_span {
                            Option::Some(g) => g,
                            Option::None => 1,
                        };
                        proof {
                            if simple {
                                assert(grid_span == 1);
                            }
                        }
                        // A cursor or span beyond the addressable range
                        // cannot be placed; leave the rest of the row
                        // unclaimed rather than failing.
                        if col_idx > usize::MAX - 2 || grid_span > usize::MAX - 1 - col_idx {
                            proof {
                                if simple {
                                    assert(ci < w < 0x1000_0000);
                                    assert(false);
                                }
                            }
                            ci = ncells;
                        } else {
                            let ghost g_before_pad = spec_grid_view(grid@);
                            let ghost row_pre = spec_grid_view(grid@)[row_idx as int];
                            if grid[row_idx].len() <= col_idx {
                                let target = col_idx;
                                while grid[row_idx].len() < target + 1
                                    invariant
                                        row_idx < grid@.len(),
                                        target < usize::MAX,
                                        grid@[row_idx as int]@.len() <= target + 1,
                                        spec_grid_view(grid@).len() == g_before_pad.len(),
                                        forall|j: int|
                                            0 <= j < g_before_pad.len() && j != row_idx
                                                ==> (#[trigger] spec_grid_view(grid@)[j])
                                                == g_before_pad[j],
                                        spec_grid_view(grid@)[row_idx as int].len()
                                            >= row_pre.len(),
                                        spec_grid_view(grid@)[row_idx as int].take(
                                            row_pre.len() as int,
                                        ) == row_pre,
                                        forall|cc: int|
                                            row_pre.len() <= cc < spec_grid_view(
                                                grid@,
                                            )[row_idx as int].len() ==> (#[trigger] spec_grid_view(
                                                grid@,
                                            )[row_idx as int][cc]) is Empty,
                                    decreases target + 1 - grid@[row_idx as int]@.len(),
                                {
                                    let ghost vpre = spec_grid_view(grid@);
                                    grid[row_idx].push(CellStatus::Empty);
                                    proof {
                                        assert(spec_grid_view(grid@)[row_idx as int]
                                            =~= vpre[row_idx as int].push(CellStatus::Empty));
                                        assert(spec_grid_view(grid@)[row_idx as int].take(
                                            row_pre.len() as int,
                                        ) =~= row_pre);
                                        assert forall|j: int|
                                            0 <= j < g_before_pad.len() && j != row_idx
                                            implies (#[trigger] spec_grid_view(grid@)[j])
                                            == g_before_pad[j] by {
                                            assert(spec_grid_view(grid@)[j] == vpre[j]);
                                        }
                                    }
                                }
                            }
                            let is_continue = matches!(cell.v_merge, VMergeState::Continue);
                            let mut content = String::new();
                            if !is_continue {
                                let ghost pre = *context;
                                proof {
                                    if spec_table_no_link_images(*table) == 0 {
                                        lemma_row_list_nli_elem(table.rows@, row_idx as int);
                                        lemma_rc_list_nli_elem(
                                            table.rows@[row_idx as int].cells@,
                                            ci as int,
                                        );
                                        assert(spec_cell_no_link_images(*cell) == 0);
                                    }
                                }
                                let res = Self::convert_cell_content(cell, context);
                                proof {
                                    lemma_ctx_growth_trans(ctx0, pre, *context);
                                }
                                match res {
                                    Ok(cc) => {
                                        content = cc;
                                    },
                                    Err(e) => {
                                        proof {
                                            if spec_table_no_link_images(*table) == 0 {
                                                assert(false);
                                            }
                                        }
                                        return Err(e);
                                    },
                                }
                            }
                            if is_continue {
                                proof {
                                    if simple {
                                        assert(false);
                                    }
                                }
                                let ghost g_pre = spec_grid_view(grid@);
                                increment_rowspan(&mut grid, row_idx, col_idx);
                                proof {
                                    lemma_increment_rowspan_len(
                                        g_pre,
                                        row_idx as int,
                                        col_idx as int,
                                    );
                                }
                                let mut k: usize = 0;
                                while k < grid_span
                                    invariant
                                        0 <= k <= grid_span,
                                        col_idx <= usize::MAX - 2,
                                        grid_span <= usize::MAX - 1 - col_idx,
                                        row_idx < usize::MAX,
                                        row_idx < grid@.len(),
                                    decreases grid_span - k,
                                {
                                    set_grid_cell(
                                        &mut grid,
                                        row_idx,
                                        col_idx + k,
                                        CellStatus::MergedUp,
                                    );
                                    proof {
                                        assert(spec_grid_view(grid@).len() > row_idx);
                                    }
                                    k = k + 1;
                                }
                            } else {
                                let ghost g_set_pre = spec_grid_view(grid@);
                                set_grid_cell(
                                    &mut grid,
                                    row_idx,
                                    col_idx,
                                    CellStatus::Occupied { content, rowspan: 1, colspan: grid_span },
                                );
                                proof {
                                    assert(spec_grid_view(grid@).len() > row_idx);
                                    if simple {
                                        assert(row_pre.len() == ci);
                                        assert(g_set_pre[row_idx as int].len() == ci + 1);
                                        assert(spec_pad_grid(g_set_pre, row_idx as int)
                                            =~= g_set_pre);
                                        assert(spec_pad_row(g_set_pre[row_idx as int], ci as int)
                                            =~= g_set_pre[row_idx as int]);
                                        assert(spec_grid_view(grid@) =~= g_set_pre.update(
                                            row_idx as int,
                                            g_set_pre[row_idx as int].update(
                                                ci as int,
                                                CellStatus::Occupied {
                                                    content,
                                                    rowspan: 1,
                                                    colspan: grid_span,
                                                },
                                            ),
                                        ));
                                        assert(spec_grid_view(grid@)[row_idx as int].len() == ci
                                            + 1);
                                        assert forall|j: int|
                                            0 <= j < g_before_pad.len() && j != row_idx
                                            implies (#[trigger] spec_grid_view(grid@)[j])
                                            == g_before_pad[j] by {
                                            assert(spec_grid_view(grid@)[j] == g_set_pre[j]);
                                        }
                                        assert forall|cc: int|
                                            0 <= cc < ci implies ((#[trigger] spec_grid_view(
                                            grid@,
                                        )[row_idx as int][cc]) is Occupied && spec_grid_view(
                                            grid@,
                                        )[row_idx as int][cc]->Occupied_rowspan == 1
                                            && spec_grid_view(
                                            grid@,
                                        )[row_idx as int][cc]->Occupied_colspan == 1) by {
                                            assert(spec_grid_view(grid@)[row_idx as int][cc]
                                                == g_set_pre[row_idx as int][cc]);
                                            assert(g_set_pre[row_idx as int].take(ci as int)[cc]
                                                == g_set_pre[row_idx as int][cc]);
                                            assert(row_pre[cc]
                                                == g_before_pad[row_idx as int][cc]);
                                        }
                                        assert(spec_grid_view(grid@)[row_idx as int][ci as int]
                                            is Occupied);
                                    }
                                }
                                let ghost g_after_set = spec_grid_view(grid@);
                                let mut k: usize = 1;
                                while k < grid_span
                                    invariant
                                        1 <= k <= grid_span || (grid_span == 0 && k == 1),
                                        col_idx <= usize::MAX - 2,
                                        grid_span <= usize::MAX - 1 - col_idx,
                                        row_idx < usize::MAX,
                                        row_idx < grid@.len(),
                                        simple ==> (k >= grid_span && spec_grid_view(grid@)
                                            == g_after_set),
                                    decreases grid_span - k,
                                {
                                    proof {
                                        if simple {
                                            assert(false);
                                        }
                                    }
                                    set_grid_cell(
                                        &mut grid,
                                        row_idx,
                                        col_idx + k,
                                        CellStatus::MergedLeft,
                                    );
                                    proof {
                                        assert(spec_grid_view(grid@).len() > row_idx);
                                    }
                                    k = k + 1;
                                }
                            }
                            col_idx = col_idx + grid_span;
                            ci = ci + 1;
                            proof {
                                if simple {
                                    assert forall|j: int|
                                        0 <= j < row_idx implies (#[trigger] spec_grid_view(
                                        grid@,
                                    ).take(row_idx as int)[j]) == g_before_pad.take(
                                        row_idx as int,
                                    )[j] by {
                                        assert(spec_grid_view(grid@)[j] == g_before_pad[j]);
                                    }
                                    assert(spec_grid_view(grid@).take(row_idx as int)
                                        =~= g_before_pad.take(row_idx as int));
                                    assert(g_before_pad.take(row_idx as int) =~= spec_grid_view(
                                        grid@,
                                    ).take(row_idx as int));
                                    assert(spec_rectangular(
                                        spec_grid_view(grid@).take(row_idx as int),
                                        row_idx as int,
                                        w,
                                    ));
                                }
                            }
                        }
                    },
                    TableRowContentNode::Sdt => {
                        proof {
                            if simple {
                                assert(false);
                            }
                        }
                        ci = ci + 1;
                    },
                }
            }
            proof {
                if simple {
                    let gv = spec_grid_view(grid@);
                    assert(gv[row_idx as int].len() == w);
                    assert forall|r2: int, cc: int|
                        0 <= r2 < row_idx + 1 && 0 <= cc < gv[r2].len() implies ((
                        #[trigger] gv[r2][cc]) is Occupied && gv[r2][cc]->Occupied_rowspan == 1
                        && gv[r2][cc]->Occupied_colspan == 1) by {
                        if r2 < row_idx {
                            assert(gv.take(row_idx as int)[r2] == gv[r2]);
                        }
                    }
                    assert forall|r2: int| 0 <= r2 < row_idx + 1 implies (#[trigger] gv[r2]).len()
                        == w by {
                        if r2 < row_idx {
                            assert(gv.take(row_idx as int)[r2] == gv[r2]);
                        }
                    }
                    assert(spec_rectangular(gv, row_idx + 1, w));
                }
            }
            row_idx = row_idx + 1;
        }

        let html = render_grid(&grid);
        proof {
            if simple {
                let gv = spec_grid_view(grid@);
                assert(spec_rectangular(gv, table.rows@.len() as int, w));
                assert(html@ == spec_render_grid(gv));
            }
        }
        Ok(html)
    }
}

} // verus!