//! The accessibility of tables: header cells, data cells, rows, and the
//! table itself, with their indices and selection.
use vstd::prelude::*;
use crate::container::{copy_text, same_text};
use crate::group::present;
use crate::node::{find_node, first_with_id, next_id, Bounds, Node, Role};
use vstd::std_specs::convert::IntoSpec;
use crate::tree::{is_position, Tree};
use crate::widget::Widget;

verus! {

/// The direction used to sort a table column.
#[derive(Debug, Clone, Copy, PartialEq, Eq, Structural)]
pub enum SortDirection {
    /// Values are sorted in ascending order.
    Ascending,
    /// Values are sorted in descending order.
    Descending,
    /// Values use an application-defined ordering.
    Other,
}

/// The horizontal alignment of the cells of a column.
#[derive(Debug, Clone, Copy, PartialEq, Eq, Structural)]
pub enum Horizontal {
    /// Align left.
    Left,
    /// Horizontally centered.
    Center,
    /// Align right.
    Right,
}

/// The vertical alignment of the cells of a column.
#[derive(Debug, Clone, Copy, PartialEq, Eq, Structural)]
pub enum Vertical {
    /// Align top.
    Top,
    /// Vertically centered.
    Center,
    /// Align bottom.
    Bottom,
}

/// A vertical visualization of some data with a header: the header, the
/// view that produces the contents of a cell from the data of a row, the
/// alignment of its cells, and what it tells assistive technologies.
pub struct Column<Header, View> {
    /// The header.
    pub header: Header,
    /// The view of a cell.
    pub view: View,
    /// The horizontal alignment of the cells.
    pub align_x: Horizontal,
    /// The vertical alignment of the cells.
    pub align_y: Vertical,
    /// Whether the cells of the column are row headers.
    pub row_header: bool,
    /// How the column is sorted, if it is.
    pub sort_direction: Option<SortDirection>,
}

/// Creates a new [`Column`] with the given header and view function, its
/// cells aligned to the top left, neither row headers nor sorted.
///
/// The view function is called for each row of a table and produces the
/// contents of a cell.
pub fn column<Header, View>(header: Header, view: View) -> (r: Column<Header, View>)
    ensures
        r.header == header,
        r.view == view,
        r.align_x == Horizontal::Left,
        r.align_y == Vertical::Top,
        !r.row_header,
        r.sort_direction is None,
{
    Column {
        header,
        view,
        align_x: Horizontal::Left,
        align_y: Vertical::Top,
        row_header: false,
        sort_direction: None,
    }
}

impl<Header, View> Column<Header, View> {
    /// Sets the alignment for the horizontal axis of the [`Column`].
    pub fn align_x<A: Into<Horizontal>>(self, alignment: A) -> (r: Self)
        ensures
            <A as IntoSpec<Horizontal>>::obeys_into_spec() ==> r.align_x == alignment.into_spec(),
            r.header == self.header,
            r.view == self.view,
            r.align_y == self.align_y,
            r.row_header == self.row_header,
            r.sort_direction == self.sort_direction,
    {
        Column { align_x: alignment.into(), ..self }
    }

    /// Sets the alignment for the vertical axis of the [`Column`].
    pub fn align_y<A: Into<Vertical>>(self, alignment: A) -> (r: Self)
        ensures
            <A as IntoSpec<Vertical>>::obeys_into_spec() ==> r.align_y == alignment.into_spec(),
            r.header == self.header,
            r.view == self.view,
            r.align_x == self.align_x,
            r.row_header == self.row_header,
            r.sort_direction == self.sort_direction,
    {
        Column { align_y: alignment.into(), ..self }
    }

    /// Marks the cells in this column as row headers, or not.
    pub fn row_header(self, row_header: bool) -> (r: Self)
        ensures
            r.row_header == row_header,
            r.header == self.header,
            r.view == self.view,
            r.align_x == self.align_x,
            r.align_y == self.align_y,
            r.sort_direction == self.sort_direction,
    {
        Column { row_header, ..self }
    }

    /// Describes how this column is currently sorted.
    pub fn sort_direction(self, direction: SortDirection) -> (r: Self)
        ensures
            r.sort_direction == Some(direction),
            r.header == self.header,
            r.view == self.view,
            r.align_x == self.align_x,
            r.align_y == self.align_y,
            r.row_header == self.row_header,
    {
        Column { sort_direction: Some(direction), ..self }
    }
}


/// What a table column says of its cells to assistive technologies.
#[derive(Debug, Clone, Copy, PartialEq, Eq, Structural)]
pub struct ColumnSemantics {
    /// Whether the cells of the column are row headers.
    pub row_header: bool,
    /// How the column is sorted, if it is.
    pub sort_direction: Option<SortDirection>,
}

/// What `column` says of its cells to assistive technologies.
pub open spec fn semantics_of<Header, View>(column: Column<Header, View>) -> ColumnSemantics {
    ColumnSemantics { row_header: column.row_header, sort_direction: column.sort_direction }
}

/// Lays out the cells of a table with the given columns and rows: what
/// each column says of its cells, and the cells in row order, the header
/// row first; row `i` holds, for each column, the cell that the column's
/// view makes of a clone of the data of row `i`.
pub fn table_cells<Header, View: Fn(T) -> Header, T: Clone>(
    columns: Vec<Column<Header, View>>,
    rows: Vec<T>,
) -> (r: (Vec<ColumnSemantics>, Vec<Header>))
    requires
        forall|j: int, t: T| 0 <= j < columns@.len() ==> #[trigger] columns@[j].view.requires((t,)),
        columns@.len() * (rows@.len() + 1) <= usize::MAX,
    ensures
        r.0@.len() == columns@.len(),
        forall|j: int| 0 <= j < columns@.len() ==> #[trigger] r.0@[j] == semantics_of(columns@[j]),
        r.1@.len() == columns@.len() * (rows@.len() + 1),
        forall|j: int| 0 <= j < columns@.len() ==> #[trigger] r.1@[j] == columns@[j].header,
        forall|i: int, j: int|
            #![trigger is_position(i, rows@.len() as int), is_position(j, columns@.len() as int)]
            is_position(i, rows@.len() as int) && is_position(j, columns@.len() as int) ==> exists|data: T|
                {
                    &&& call_ensures(T::clone, (&rows@[i],), data)
                    &&& columns@[j].view.ensures((data,), r.1@[columns@.len() * (i + 1) + j])
                },
{
    let n = columns.len();
    let ghost original = columns@;
    let mut columns = columns;
    let mut semantics: Vec<ColumnSemantics> = Vec::new();
    let mut cells: Vec<Header> = Vec::new();
    let mut views: Vec<View> = Vec::new();
    let mut k: usize = 0;
    while k < n
        invariant
            n == original.len(),
            k <= n,
            columns@ == original.skip(k as int),
            semantics@.len() == k,
            cells@.len() == k,
            views@.len() == k,
            forall|j: int| 0 <= j < k ==> #[trigger] semantics@[j] == semantics_of(original[j]),
            forall|j: int| 0 <= j < k ==> #[trigger] cells@[j] == original[j].header,
            forall|j: int| 0 <= j < k ==> #[trigger] views@[j] == original[j].view,
        decreases n - k,
    {
        let column = columns.remove(0);
        assert(column == original[k as int]);
        assert(columns@ =~= original.skip(k + 1));
        semantics.push(ColumnSemantics { row_header: column.row_header, sort_direction: column.sort_direction });
        cells.push(column.header);
        views.push(column.view);
        k += 1;
    }
    let mut i: usize = 0;
    while i < rows.len()
        invariant
            n == original.len(),
            views@.len() == n,
            forall|j: int| 0 <= j < n ==> #[trigger] views@[j] == original[j].view,
            forall|j: int, t: T| 0 <= j < n ==> #[trigger] original[j].view.requires((t,)),
            n * (rows@.len() + 1) <= usize::MAX,
            i <= rows@.len(),
            cells@.len() == n * (i + 1),
            forall|j: int| 0 <= j < n ==> #[trigger] cells@[j] == original[j].header,
            forall|a: int, j: int|
                #![trigger is_position(a, i as int), is_position(j, n as int)]
                is_position(a, i as int) && is_position(j, n as int) ==> exists|data: T|
                    {
                        &&& call_ensures(T::clone, (&rows@[a],), data)
                        &&& original[j].view.ensures((data,), cells@[n * (a + 1) + j])
                    },
        decreases rows@.len() - i,
    {
        proof {
            assert(n * (i + 2) <= n * (rows@.len() + 1)) by (nonlinear_arith)
                requires
                    i < rows@.len(),
            ;
        }
        let ghost start = cells@;
        let mut j: usize = 0;
        while j < n
            invariant
                n == original.len(),
                views@.len() == n,
                forall|b: int| 0 <= b < n ==> #[trigger] views@[b] == original[b].view,
                forall|b: int, t: T| 0 <= b < n ==> #[trigger] original[b].view.requires((t,)),
                i < rows@.len(),
                j <= n,
                start.len() == n * (i + 1),
                n * (i + 2) <= usize::MAX,
                cells@.len() == start.len() + j,
                cells@.take(start.len() as int) == start,
                forall|b: int|
                    #![trigger is_position(b, j as int)]
                    is_position(b, j as int) ==> exists|data: T|
                        {
                            &&& call_ensures(T::clone, (&rows@[i as int],), data)
                            &&& original[b].view.ensures((data,), cells@[start.len() + b])
                        },
            decreases n - j,
        {
            let data = rows[i].clone();
            let cell = (views[j])(data);
            let ghost prev = cells@;
            cells.push(cell);
            proof {
                assert(cells@.take(start.len() as int) =~= prev.take(start.len() as int));
                assert forall|b: int|
                    #![trigger is_position(b, j + 1)]
                    is_position(b, j + 1) implies exists|data: T|
                        {
                            &&& call_ensures(T::clone, (&rows@[i as int],), data)
                            &&& original[b].view.ensures((data,), cells@[start.len() + b])
                        } by {
                    if b < j {
                        assert(is_position(b, j as int));
                        assert(cells@[start.len() + b] == prev[start.len() + b]);
                    }
                }
            }
            j += 1;
        }
        proof {
            assert(n * (i + 2) == n * (i + 1) + n) by (nonlinear_arith);
            assert forall|j: int| 0 <= j < n implies #[trigger] cells@[j] == original[j].header by {
                assert(n * (i + 1) >= n) by (nonlinear_arith);
                assert(cells@[j] == cells@.take(start.len() as int)[j]);
            }
            assert forall|a: int, b: int|
                #![trigger is_position(a, i + 1), is_position(b, n as int)]
                is_position(a, i + 1) && is_position(b, n as int) implies exists|data: T|
                    {
                        &&& call_ensures(T::clone, (&rows@[a],), data)
                        &&& original[b].view.ensures((data,), cells@[n * (a + 1) + b])
                    } by {
                if a < i {
                    assert(is_position(a, i as int));
                    assert(n * (a + 1) + b < n * (i + 1)) by (nonlinear_arith)
                        requires
                            0 <= a < i,
                            0 <= b < n,
                    ;
                    assert(cells@[n * (a + 1) + b] == start[n * (a + 1) + b]);
                } else {
                    assert(n * (a + 1) + b == start.len() + b);
                    assert(is_position(b, n as int));
                }
            }
        }
        i += 1;
    }
    (semantics, cells)
}

/// The name a cell takes from the node of its content: that node's label,
/// or else its value (none when there is no such node).
pub open spec fn cell_label(nodes: Seq<(u64, Node)>, id: u64) -> Option<String> {
    let k = first_with_id(nodes, id);
    if k < nodes.len() {
        match nodes[k].1.label {
            Some(l) => Some(l),
            None => nodes[k].1.value,
        }
    } else {
        None
    }
}

/// Finds the name a cell takes from the node `id` of its content.
fn find_cell_label(nodes: &Vec<(u64, Node)>, id: u64) -> (r: Option<String>)
    ensures
        same_text(r, cell_label(nodes@, id)),
{
    let k = find_node(nodes, id);
    if k < nodes.len() {
        let node = &nodes[k].1;
        match &node.label {
            Some(l) => Some(l.clone()),
            None => copy_text(&node.value),
        }
    } else {
        None
    }
}

/// Whether `x` occurs in `xs`.
fn contains_index(xs: &Vec<usize>, x: usize) -> (r: bool)
    ensures
        r == xs@.contains(x),
{
    let mut k: usize = 0;
    while k < xs.len()
        invariant
            k <= xs@.len(),
            forall|j: int| 0 <= j < k ==> xs@[j] != x,
        decreases xs@.len() - k,
    {
        if xs[k] == x {
            assert(xs@[k as int] == x);
            return true;
        }
        k += 1;
    }
    false
}

/// Whether `x` occurs in `xs`.
fn contains_pair(xs: &Vec<(usize, usize)>, x: (usize, usize)) -> (r: bool)
    ensures
        r == xs@.contains(x),
{
    let mut k: usize = 0;
    while k < xs.len()
        invariant
            k <= xs@.len(),
            forall|j: int| 0 <= j < k ==> xs@[j] != x,
        decreases xs@.len() - k,
    {
        if xs[k].0 == x.0 && xs[k].1 == x.1 {
            assert(xs@[k as int] == x);
            return true;
        }
        k += 1;
    }
    false
}

/// Whether a selection list, when there is one, holds `x`: `None` when
/// there is no list.
pub open spec fn selection_of<T>(list: Option<Vec<T>>, x: T) -> Option<bool> {
    match list {
        Some(l) => Some(l@.contains(x)),
        None => None,
    }
}

/// Whether `n` wraps the node `child` of the content of cell `i`, at row
/// `i / columns` and column `i % columns` of the grid: a column header (in
/// the header row, the first), a row header (row header column) or a data
/// cell, named after its content, spanning one row and one column; a header
/// carries its column's sort direction and selection, a data cell its
/// selection as the cell of data row `row - 1`.
pub open spec fn is_cell_wrapper(
    n: Node,
    i: int,
    columns: Seq<ColumnSemantics>,
    child: u64,
    label: Option<String>,
    selected_columns: Option<Vec<usize>>,
    selected_cells: Option<Vec<(usize, usize)>>,
) -> bool {
    let col = i % columns.len() as int;
    let row = i / columns.len() as int;
    let is_header = row == 0;
    &&& n.role == if is_header {
        Role::ColumnHeader
    } else if columns[col].row_header {
        Role::RowHeader
    } else {
        Role::Cell
    }
    &&& n.bounds == Bounds::Cell(i as usize)
    &&& n.children@ == seq![child]
    &&& same_text(n.label, label)
    &&& n.row_index == Some(row as usize)
    &&& n.column_index == Some(col as usize)
    &&& n.row_span == Some(1usize)
    &&& n.column_span == Some(1usize)
    &&& if is_header {
        &&& n.sort_direction == columns[col].sort_direction
        &&& n.selected == selection_of(selected_columns, col as usize)
    } else {
        &&& n.sort_direction is None
        &&& n.selected == selection_of(selected_cells, ((row - 1) as usize, col as usize))
    }
    &&& n.description is None
    &&& n.value is None
    &&& n.placeholder is None
    &&& n.controls@.len() == 0
    &&& n.actions@.len() == 0
    &&& n.child_actions@.len() == 0
    &&& !n.disabled
    &&& !n.read_only
    &&& !n.text_input_marked
    &&& !n.multiselectable
    &&& n.expanded is None
    &&& n.has_popup is None
    &&& n.row_count is None
    &&& n.column_count is None
    &&& n.text_selection is None
    &&& n.character_lengths@.len() == 0
    &&& n.word_starts@.len() == 0
}

/// Whether visiting cell `i`, whose content produced `child`, took the
/// nodes `nodes` and the counter `counter` to `nodes2` and `counter2`, and
/// gave the cell the wrapper `wrapper`: none and nothing added when the
/// content produced no node; else a wrapper (see [`is_cell_wrapper`]) that
/// takes the next identifier.
pub open spec fn wrapped(
    i: int,
    columns: Seq<ColumnSemantics>,
    child: Option<u64>,
    selected_columns: Option<Vec<usize>>,
    selected_cells: Option<Vec<(usize, usize)>>,
    nodes: Seq<(u64, Node)>,
    counter: u64,
    nodes2: Seq<(u64, Node)>,
    counter2: u64,
    wrapper: Option<u64>,
) -> bool {
    match child {
        None => {
            &&& nodes2 == nodes
            &&& counter2 == counter
            &&& wrapper is None
        },
        Some(c) => {
            &&& wrapper == Some(counter)
            &&& counter2 == counter + 1
            &&& nodes2.len() == nodes.len() + 1
            &&& nodes2.take(nodes.len() as int) == nodes
            &&& nodes2.last().0 == counter
            &&& is_cell_wrapper(
                nodes2.last().1,
                i,
                columns,
                c,
                cell_label(nodes, c),
                selected_columns,
                selected_cells,
            )
        },
    }
}

/// The number of rows begun by `visited` cells in `columns` columns.
pub open spec fn rows_begun(visited: int, columns: int) -> int {
    if visited <= 0 || columns <= 0 {
        0
    } else {
        (visited - 1) / columns + 1
    }
}

/// The wrappers of row `k` among the wrappers `ws` of the cells visited so
/// far, one or none per cell, in `columns` columns.
pub open spec fn row_wrappers(ws: Seq<Option<u64>>, columns: int, k: int) -> Seq<u64> {
    let end = if (k + 1) * columns < ws.len() {
        (k + 1) * columns
    } else {
        ws.len() as int
    };
    present(ws.subrange(k * columns, end))
}

/// The accessibility of a table while its cells are visited in order, the
/// header row first: the wrappers of the cells of each row begun so far.
pub struct TableAccessibility {
    /// The number of columns.
    pub columns: usize,
    /// The number of cells visited so far.
    pub visited: usize,
    /// The wrapper of each cell visited so far, if it has one.
    pub wrappers: Ghost<Seq<Option<u64>>>,
    /// The wrappers of the cells of each row begun so far.
    pub row_cell_ids: Vec<Vec<u64>>,
}

impl TableAccessibility {
    /// Whether the rows begun match the cells visited: a row begins with the
    /// first cell of every row, and holds the wrappers of its cells.
    pub open spec fn wf(self) -> bool {
        &&& (self.columns > 0 || self.visited == 0)
        &&& self.wrappers@.len() == self.visited
        &&& self.row_cell_ids@.len() == rows_begun(self.visited as int, self.columns as int)
        &&& forall|k: int|
            0 <= k < self.row_cell_ids@.len() ==> (#[trigger] self.row_cell_ids@[k])@ == row_wrappers(
                self.wrappers@,
                self.columns as int,
                k,
            )
    }

    /// Starts visiting the cells of a table with `columns` columns.
    pub fn new(columns: usize) -> (r: Self)
        ensures
            r.wf(),
            r.columns == columns,
            r.visited == 0,
    {
        TableAccessibility {
            columns,
            visited: 0,
            wrappers: Ghost(Seq::empty()),
            row_cell_ids: Vec::new(),
        }
    }

    /// Visits the next cell, after its content produced `child` (none when
    /// it produced no node, or when the cell has no layout).
    ///
    /// A cell whose content produced a node is wrapped in a node of its own
    /// that takes the next identifier (see [`wrapped`]); the wrapper joins
    /// the row of the cell.
    pub fn visit_cell(
        &mut self,
        child: Option<u64>,
        columns: &Vec<ColumnSemantics>,
        selected_columns: &Option<Vec<usize>>,
        selected_cells: &Option<Vec<(usize, usize)>>,
        nodes: &mut Vec<(u64, Node)>,
        id_counter: &mut u64,
    )
        requires
            old(self).wf(),
            old(self).columns > 0,
            columns@.len() == old(self).columns,
            old(self).visited < usize::MAX,
            child is Some ==> *old(id_counter) < u64::MAX,
        ensures
            final(self).wf(),
            final(self).columns == old(self).columns,
            final(self).visited == old(self).visited + 1,
            final(self).wrappers@.drop_last() == old(self).wrappers@,
            wrapped(
                old(self).visited as int,
                columns@,
                child,
                *selected_columns,
                *selected_cells,
                old(nodes)@,
                *old(id_counter),
                final(nodes)@,
                *final(id_counter),
                final(self).wrappers@.last(),
            ),
    {
        let i = self.visited;
        let ncols = self.columns;
        let col = i % ncols;
        let row = i / ncols;
        let is_header = row == 0;
        let data_row = if row > 0 {
            row - 1
        } else {
            0
        };
        let ghost ws = self.wrappers@;
        let ghost x: Option<u64> = match child {
            Some(_) => Some(*id_counter),
            None => None,
        };
        proof {
            lemma_rows_step(ws, x, ncols as int);
        }
        if col == 0 {
            self.row_cell_ids.push(Vec::new());
        }
        let ghost rows_mid = self.row_cell_ids@;
        if let Some(cell_id) = child {
            let wrapper_id = next_id(id_counter);
            let role = if is_header {
                Role::ColumnHeader
            } else if columns[col].row_header {
                Role::RowHeader
            } else {
                Role::Cell
            };
            let mut wrapper = Node::new(role);
            wrapper.children.push(cell_id);
            wrapper.label = find_cell_label(nodes, cell_id);
            wrapper.bounds = Bounds::Cell(i);
            wrapper.row_index = Some(row);
            wrapper.column_index = Some(col);
            wrapper.row_span = Some(1);
            wrapper.column_span = Some(1);
            if is_header {
                wrapper.sort_direction = columns[col].sort_direction;
                if let Some(selected) = selected_columns {
                    wrapper.selected = Some(contains_index(selected, col));
                }
            } else {
                if let Some(selected) = selected_cells {
                    wrapper.selected = Some(contains_pair(selected, (data_row, col)));
                }
            }
            proof {
                assert(wrapper.children@ =~= seq![cell_id]);
            }
            nodes.push((wrapper_id, wrapper));
            proof {
                assert(nodes@.take(old(nodes)@.len() as int) =~= old(nodes)@);
            }
            let last = self.row_cell_ids.len() - 1;
            self.row_cell_ids[last].push(wrapper_id);
        }
        self.visited = i + 1;
        self.wrappers = Ghost(ws.push(x));
        proof {
            assert(self.wrappers@.drop_last() =~= ws);
            let rows = self.row_cell_ids@;
            assert forall|k: int| 0 <= k < rows.len() implies (#[trigger] rows[k])@ == row_wrappers(
                self.wrappers@,
                ncols as int,
                k,
            ) by {
                if k < old(self).row_cell_ids@.len() && !(col != 0 && k == old(self).row_cell_ids@.len() - 1) {
                    assert(rows[k] == old(self).row_cell_ids@[k]);
                } else {
                    assert(k == row);
                    if col == 0 {
                        assert(present(seq![x].drop_last()) == Seq::<u64>::empty()) by {
                            assert(seq![x].drop_last() =~= Seq::<Option<u64>>::empty());
                        }
                        assert(rows[k]@ =~= present(seq![x]));
                    } else {
                        assert(rows_mid[k] == old(self).row_cell_ids@[k]);
                    }
                }
            }
        }
    }
}

/// How the rows begun and the wrappers of each row change when a cell
/// whose wrapper is `x` is visited after the cells whose wrappers are `ws`.
proof fn lemma_rows_step(ws: Seq<Option<u64>>, x: Option<u64>, c: int)
    requires
        c > 0,
    ensures
        ({
            let v = ws.len() as int;
            let ws2 = ws.push(x);
            let k = v / c;
            &&& rows_begun(v + 1, c) == rows_begun(v, c) + (if v % c == 0 {
                1int
            } else {
                0
            })
            &&& k == rows_begun(v + 1, c) - 1
            &&& (v % c == 0) == (k == rows_begun(v, c))
            &&& forall|j: int|
                0 <= j < k ==> #[trigger] row_wrappers(ws2, c, j) == row_wrappers(ws, c, j)
            &&& v % c == 0 ==> row_wrappers(ws2, c, k) == present(seq![x])
            &&& v % c != 0 ==> row_wrappers(ws2, c, k) == match x {
                Some(id) => row_wrappers(ws, c, k).push(id),
                None => row_wrappers(ws, c, k),
            }
        }),
{
    let v = ws.len() as int;
    let ws2 = ws.push(x);
    let k = v / c;
    assert(v == c * k + v % c && 0 <= v % c < c) by (nonlinear_arith)
        requires
            c > 0,
            k == v / c,
            v >= 0,
    ;
    assert(k >= 0) by (nonlinear_arith)
        requires
            c > 0,
            k == v / c,
            v >= 0,
    ;
    if v > 0 {
        let q = (v - 1) / c;
        assert(v - 1 == c * q + (v - 1) % c && 0 <= (v - 1) % c < c) by (nonlinear_arith)
            requires
                c > 0,
                q == (v - 1) / c,
                v >= 1,
        ;
        if v % c == 0 {
            assert(q == k - 1) by (nonlinear_arith)
                requires
                    v == c * k,
                    v - 1 == c * q + (v - 1) % c,
                    0 <= (v - 1) % c < c,
                    c > 0,
            ;
        } else {
            assert(q == k) by (nonlinear_arith)
                requires
                    v == c * k + v % c,
                    0 < v % c < c,
                    v - 1 == c * q + (v - 1) % c,
                    0 <= (v - 1) % c < c,
                    c > 0,
            ;
        }
    }
    assert(v / c == k);
    assert(((v + 1) - 1) / c == k);
    assert forall|j: int| 0 <= j < k implies #[trigger] row_wrappers(ws2, c, j) == row_wrappers(ws, c, j) by {
        assert((j + 1) * c <= k * c && 0 <= j * c) by (nonlinear_arith)
            requires
                0 <= j < k,
                c > 0,
        ;
        assert(k * c <= v) by (nonlinear_arith)
            requires
                v == c * k + v % c,
                0 <= v % c,
        ;
        assert(j * c <= (j + 1) * c) by (nonlinear_arith)
            requires
                c > 0,
        ;
        assert(ws2.subrange(j * c, (j + 1) * c) =~= ws.subrange(j * c, (j + 1) * c));
    }
    assert(k * c == v - v % c) by (nonlinear_arith)
        requires
            v == c * k + v % c,
    ;
    assert((k + 1) * c == k * c + c) by (nonlinear_arith);
    if v % c == 0 {
        assert(ws2.subrange(k * c, v + 1) =~= seq![x]);
    } else {
        let sub = ws.subrange(k * c, v);
        assert(ws2.subrange(k * c, v + 1) =~= sub.push(x));
        assert(sub.push(x).drop_last() =~= sub);
    }
}

/// Whether `n` is the node of row `row` of a table with `columns` columns,
/// holding the wrappers `cells`, bounded by them; a data row (any row after
/// the header row) is selected according to `selected_rows` as data row
/// `row - 1`.
pub open spec fn is_row_node(
    n: Node,
    row: int,
    columns: usize,
    cells: Seq<u64>,
    selected_rows: Option<Vec<usize>>,
) -> bool {
    &&& n.role == Role::TreeItem
    &&& n.bounds matches Bounds::UnionOf(ids) && ids@ == cells
    &&& n.children@ == cells
    &&& n.row_index == Some(row as usize)
    &&& n.column_index == Some(0usize)
    &&& n.column_span == Some(columns)
    &&& n.selected == if row == 0 {
        None
    } else {
        selection_of(selected_rows, (row - 1) as usize)
    }
    &&& n.label is None
    &&& n.description is None
    &&& n.value is None
    &&& n.placeholder is None
    &&& n.controls@.len() == 0
    &&& n.actions@.len() == 0
    &&& n.child_actions@.len() == 0
    &&& !n.disabled
    &&& !n.read_only
    &&& !n.text_input_marked
    &&& !n.multiselectable
    &&& n.expanded is None
    &&& n.has_popup is None
    &&& n.row_span is None
    &&& n.row_count is None
    &&& n.column_count is None
    &&& n.sort_direction is None
    &&& n.text_selection is None
    &&& n.character_lengths@.len() == 0
    &&& n.word_starts@.len() == 0
}

/// Whether some selection list, when there is one, holds more than one item.
pub open spec fn allows_many(
    rows: Option<Vec<usize>>,
    cells: Option<Vec<(usize, usize)>>,
    columns: Option<Vec<usize>>,
) -> bool {
    ||| rows matches Some(l) && l@.len() > 1
    ||| cells matches Some(l) && l@.len() > 1
    ||| columns matches Some(l) && l@.len() > 1
}

/// Whether `n` is the node of a grid with `columns` columns and `rows`
/// rows (the header row included), labelled `label`, holding `children`,
/// and able to select many items when a selection list holds more than one.
pub open spec fn is_table_node(
    n: Node,
    label: Option<String>,
    children: Seq<u64>,
    rows: usize,
    columns: usize,
    multiselectable: bool,
) -> bool {
    &&& n.role == Role::Grid
    &&& n.bounds is Widget
    &&& same_text(n.label, label)
    &&& n.children@ == children
    &&& n.row_count == Some(rows)
    &&& n.column_count == Some(columns)
    &&& n.multiselectable == multiselectable
    &&& n.description is None
    &&& n.value is None
    &&& n.placeholder is None
    &&& n.controls@.len() == 0
    &&& n.actions@.len() == 0
    &&& n.child_actions@.len() == 0
    &&& !n.disabled
    &&& !n.read_only
    &&& !n.text_input_marked
    &&& n.selected is None
    &&& n.expanded is None
    &&& n.has_popup is None
    &&& n.row_index is None
    &&& n.column_index is None
    &&& n.row_span is None
    &&& n.column_span is None
    &&& n.sort_direction is None
    &&& n.text_selection is None
    &&& n.character_lengths@.len() == 0
    &&& n.word_starts@.len() == 0
}

/// The number of rows of a table with `cells` cells in `columns` columns,
/// the header row included (none without columns).
pub open spec fn grid_rows(cells: int, columns: int) -> int {
    if columns > 0 {
        cells / columns
    } else {
        0
    }
}

/// Whether completing a table whose cells have the wrappers `ws`, in
/// `columns` columns, took the nodes `nodes` and the counter `counter` to
/// `nodes2` and `counter2`, and gave the table node `r`: each row begun
/// takes the next identifier in turn and holds the wrappers of its cells;
/// last, the table node takes the next identifier and holds the rows.
pub open spec fn finished(
    ws: Seq<Option<u64>>,
    columns: usize,
    cells: usize,
    accessible_label: Option<String>,
    selected_rows: Option<Vec<usize>>,
    selected_cells: Option<Vec<(usize, usize)>>,
    selected_columns: Option<Vec<usize>>,
    nodes: Seq<(u64, Node)>,
    counter: u64,
    nodes2: Seq<(u64, Node)>,
    counter2: u64,
    r: u64,
) -> bool {
    let base = nodes.len() as int;
    let rows = rows_begun(ws.len() as int, columns as int);
    let start = counter as int;
    &&& r == start + rows
    &&& counter2 == r + 1
    &&& nodes2.len() == base + rows + 1
    &&& nodes2.take(base) == nodes
    &&& forall|k: int|
        0 <= k < rows ==> {
            &&& (#[trigger] nodes2[base + k]).0 == start + k
            &&& is_row_node(
                nodes2[base + k].1,
                k,
                columns,
                row_wrappers(ws, columns as int, k),
                selected_rows,
            )
        }
    &&& nodes2.last().0 == r
    &&& is_table_node(
        nodes2.last().1,
        accessible_label,
        Seq::new(rows as nat, |k: int| (start + k) as u64),
        grid_rows(cells as int, columns as int) as usize,
        columns,
        allows_many(selected_rows, selected_cells, selected_columns),
    )
}

impl TableAccessibility {
    /// Completes the accessibility of the table once all its cells were
    /// visited (see [`finished`]). The table's row count, that of its
    /// `cells` cells, includes the header row.
    pub fn finish(
        self,
        cells: usize,
        accessible_label: &Option<String>,
        selected_rows: &Option<Vec<usize>>,
        selected_cells: &Option<Vec<(usize, usize)>>,
        selected_columns: &Option<Vec<usize>>,
        nodes: &mut Vec<(u64, Node)>,
        id_counter: &mut u64,
    ) -> (r: u64)
        requires
            self.wf(),
            *old(id_counter) + self.row_cell_ids@.len() + 1 <= u64::MAX,
        ensures
            finished(
                self.wrappers@,
                self.columns,
                cells,
                *accessible_label,
                *selected_rows,
                *selected_cells,
                *selected_columns,
                old(nodes)@,
                *old(id_counter),
                final(nodes)@,
                *final(id_counter),
                r,
            ),
    {
        let mut rows = self.row_cell_ids;
        let columns = self.columns;
        let ghost ws = self.wrappers@;
        let ghost base = nodes@.len();
        let ghost start = *id_counter as int;
        let ghost rows0 = rows@;
        let nrows = rows.len();
        let mut row_ids: Vec<u64> = Vec::new();
        let mut k: usize = 0;
        while k < nrows
            invariant
                nrows == rows@.len(),
                nrows == rows0.len(),
                k <= nrows,
                forall|j: int| k <= j < nrows ==> #[trigger] rows@[j] == rows0[j],
                forall|j: int| 0 <= j < nrows ==> (#[trigger] rows0[j])@ == row_wrappers(ws, columns as int, j),
                *id_counter == start + k,
                start + nrows + 1 <= u64::MAX,
                nodes@.len() == base + k,
                nodes@.take(base as int) == old(nodes)@,
                row_ids@ == Seq::new(k as nat, |j: int| (start + j) as u64),
                forall|j: int|
                    0 <= j < k ==> {
                        &&& (#[trigger] nodes@[base + j]).0 == start + j
                        &&& is_row_node(nodes@[base + j].1, j, columns, rows0[j]@, *selected_rows)
                    },
            decreases nrows - k,
        {
            let row_id = next_id(id_counter);
            let mut cells_of_row: Vec<u64> = Vec::new();
            std::mem::swap(&mut cells_of_row, &mut rows[k]);
            let mut row_builder = Node::new(Role::TreeItem);
            let mut bounded_by: Vec<u64> = Vec::new();
            let mut c: usize = 0;
            while c < cells_of_row.len()
                invariant
                    c <= cells_of_row@.len(),
                    bounded_by@ == cells_of_row@.take(c as int),
                decreases cells_of_row@.len() - c,
            {
                bounded_by.push(cells_of_row[c]);
                proof {
                    assert(cells_of_row@.take(c as int + 1) =~= cells_of_row@.take(c as int).push(
                        cells_of_row@[c as int],
                    ));
                }
                c += 1;
            }
            proof {
                assert(cells_of_row@.take(cells_of_row@.len() as int) =~= cells_of_row@);
            }
            row_builder.bounds = Bounds::UnionOf(bounded_by);
            row_builder.row_index = Some(k);
            row_builder.column_index = Some(0);
            row_builder.column_span = Some(columns);
            if k > 0 {
                if let Some(selected) = selected_rows {
                    row_builder.selected = Some(contains_index(selected, k - 1));
                }
            }
            row_builder.children = cells_of_row;
            let ghost prev = nodes@;
            nodes.push((row_id, row_builder));
            proof {
                assert(nodes@.take(base as int) =~= prev.take(base as int));
                assert forall|j: int| 0 <= j < k + 1 implies {
                    &&& (#[trigger] nodes@[base + j]).0 == start + j
                    &&& is_row_node(nodes@[base + j].1, j, columns, rows0[j]@, *selected_rows)
                } by {
                    if j < k {
                        assert(nodes@[base + j] == prev[base + j]);
                    }
                }
            }
            row_ids.push(row_id);
            proof {
                assert(row_ids@ =~= Seq::new((k + 1) as nat, |j: int| (start + j) as u64));
            }
            k += 1;
        }
        let ghost after_rows = nodes@;
        let mut children: Vec<u64> = Vec::new();
        let mut c: usize = 0;
        while c < row_ids.len()
            invariant
                c <= row_ids@.len(),
                children@ == row_ids@.take(c as int),
            decreases row_ids@.len() - c,
        {
            children.push(row_ids[c]);
            proof {
                assert(row_ids@.take(c as int + 1) =~= row_ids@.take(c as int).push(row_ids@[c as int]));
            }
            c += 1;
        }
        proof {
            assert(row_ids@.take(row_ids@.len() as int) =~= row_ids@);
        }
        let table_id = next_id(id_counter);
        let mut table = Node::new(Role::Grid);
        table.bounds = Bounds::Widget;
        table.label = copy_text(accessible_label);
        table.children = children;
        let grid_rows = if columns > 0 {
            cells / columns
        } else {
            0
        };
        table.row_count = Some(grid_rows);
        table.column_count = Some(columns);
        let many_rows = match selected_rows {
            Some(l) => l.len() > 1,
            None => false,
        };
        let many_cells = match selected_cells {
            Some(l) => l.len() > 1,
            None => false,
        };
        let many_columns = match selected_columns {
            Some(l) => l.len() > 1,
            None => false,
        };
        table.multiselectable = many_rows || many_cells || many_columns;
        nodes.push((table_id, table));
        proof {
            assert(nodes@.take(base as int) =~= old(nodes)@) by {
                assert(after_rows.take(base as int) == old(nodes)@);
                assert forall|j: int| 0 <= j < base implies nodes@[j] == after_rows[j] by {}
            }
            assert forall|j: int| 0 <= j < nrows implies {
                &&& (#[trigger] nodes@[base + j]).0 == start + j
                &&& is_row_node(nodes@[base + j].1, j, columns, row_wrappers(ws, columns as int, j), *selected_rows)
            } by {
                assert(nodes@[base + j] == after_rows[base + j]);
                assert(rows0[j]@ == row_wrappers(ws, columns as int, j));
            }
        }
        table_id
    }
}

/// Builds the accessibility nodes of a table whose cells, in row order
/// with the header row first, are `cells`, with their state trees
/// `cell_trees` (the first `laid_out` cells have a layout), and returns the
/// identifier of the table's node.
///
/// Each cell that has a state tree is built in turn: cell `i` is asked,
/// when it has a layout, to build its content's nodes from the nodes `ns[i]`
/// and the counter `cs[i]`, answering `answers[i]`, and is then visited
/// (see [`wrapped`]), which leaves `ns[i + 1]` and `cs[i + 1]` and gives it
/// the wrapper `ws[i]`; a cell without a layout is visited as having no
/// node. The rows and the table node follow (see [`finished`]). There is no
/// table node when the identifiers would run out.
pub fn accessibility<S, W: Widget<S>>(
    cells: &Vec<W>,
    cell_trees: &mut Vec<Tree<S>>,
    laid_out: usize,
    columns: &Vec<ColumnSemantics>,
    accessible_label: &Option<String>,
    selected_rows: &Option<Vec<usize>>,
    selected_cells: &Option<Vec<(usize, usize)>>,
    selected_columns: &Option<Vec<usize>>,
    nodes: &mut Vec<(u64, Node)>,
    id_counter: &mut u64,
) -> (r: Option<u64>)
    requires
        columns@.len() == 0 ==> cells@.len() == 0 || old(cell_trees)@.len() == 0,
    ensures
        final(cell_trees)@.len() == old(cell_trees)@.len(),
        exists|answers: Seq<Option<u64>>, ns: Seq<Seq<(u64, Node)>>, cs: Seq<u64>, ws: Seq<Option<u64>>|
            #![trigger answers.len(), ns.len(), cs.len(), ws.len()]
            {
                let count = if cells@.len() < old(cell_trees)@.len() {
                    cells@.len() as int
                } else {
                    old(cell_trees)@.len() as int
                };
                let k = answers.len() as int;
                &&& k <= count
                &&& ns.len() == k + 1
                &&& cs.len() == k + 1
                &&& ws.len() == k
                &&& ns[0] == old(nodes)@
                &&& cs[0] == *old(id_counter)
                &&& forall|i: int|
                    #![trigger is_position(i, k)]
                    is_position(i, k) ==> (if i < laid_out {
                        exists|t: &mut Tree<S>, nv: &mut Vec<(u64, Node)>, c: &mut u64|
                            {
                                &&& *t == old(cell_trees)@[i]
                                &&& *final(t) == final(cell_trees)@[i]
                                &&& (*nv)@ == ns[i]
                                &&& *c == cs[i]
                                &&& call_ensures(W::accessibility, (&cells@[i], t, nv, c), answers[i])
                                &&& wrapped(
                                    i,
                                    columns@,
                                    answers[i],
                                    *selected_columns,
                                    *selected_cells,
                                    final(nv)@,
                                    *final(c),
                                    ns[i + 1],
                                    cs[i + 1],
                                    ws[i],
                                )
                            }
                    } else {
                        &&& final(cell_trees)@[i] == old(cell_trees)@[i]
                        &&& answers[i] is None
                        &&& wrapped(i, columns@, None, *selected_columns, *selected_cells, ns[i], cs[i], ns[i + 1], cs[i + 1], ws[i])
                    })
                &&& forall|i: int|
                    (if r is None && k < count {
                        k + 1
                    } else {
                        k
                    }) <= i < old(cell_trees)@.len() ==> #[trigger] final(cell_trees)@[i] == old(cell_trees)@[i]
                &&& match r {
                    Some(id) => {
                        &&& k == count
                        &&& finished(
                            ws,
                            columns@.len() as usize,
                            cells@.len() as usize,
                            *accessible_label,
                            *selected_rows,
                            *selected_cells,
                            *selected_columns,
                            ns.last(),
                            cs.last(),
                            final(nodes)@,
                            *final(id_counter),
                            id,
                        )
                    },
                    None => if k == count {
                        &&& cs.last() + rows_begun(count, columns@.len() as int) + 1 > u64::MAX
                        &&& final(nodes)@ == ns.last()
                        &&& *final(id_counter) == cs.last()
                    } else {
                        &&& k < laid_out
                        &&& *final(id_counter) == u64::MAX
                        &&& exists|t: &mut Tree<S>, nv: &mut Vec<(u64, Node)>, c: &mut u64, a: Option<u64>|
                            {
                                &&& *t == old(cell_trees)@[k]
                                &&& *final(t) == final(cell_trees)@[k]
                                &&& (*nv)@ == ns.last()
                                &&& *c == cs.last()
                                &&& final(nv)@ == final(nodes)@
                                &&& *final(c) == *final(id_counter)
                                &&& a is Some
                                &&& call_ensures(W::accessibility, (&cells@[k], t, nv, c), a)
                            }
                    },
                }
            },
{
    let count = if cells.len() < cell_trees.len() {
        cells.len()
    } else {
        cell_trees.len()
    };
    let mut table = TableAccessibility::new(columns.len());
    let ghost mut answers: Seq<Option<u64>> = Seq::empty();
    let ghost mut ns: Seq<Seq<(u64, Node)>> = seq![nodes@];
    let ghost mut cs: Seq<u64> = seq![*id_counter];
    let mut i: usize = 0;
    while i < count
        invariant
            count <= cells@.len(),
            count <= cell_trees@.len(),
            count == cells@.len() || count == old(cell_trees)@.len(),
            cell_trees@.len() == old(cell_trees)@.len(),
            columns@.len() == 0 ==> count == 0,
            i <= count,
            table.wf(),
            table.columns == columns@.len(),
            table.visited == i,
            answers.len() == i,
            ns.len() == i + 1,
            cs.len() == i + 1,
            table.wrappers@.len() == i,
            ns[0] == old(nodes)@,
            cs[0] == *old(id_counter),
            ns.last() == nodes@,
            cs.last() == *id_counter,
            forall|j: int| i <= j < old(cell_trees)@.len() ==> #[trigger] cell_trees@[j] == old(cell_trees)@[j],
            forall|j: int|
                #![trigger is_position(j, i as int)]
                is_position(j, i as int) ==> (if j < laid_out {
                        exists|t: &mut Tree<S>, nv: &mut Vec<(u64, Node)>, c: &mut u64|
                            {
                                &&& *t == old(cell_trees)@[j]
                                &&& *final(t) == cell_trees@[j]
                                &&& (*nv)@ == ns[j]
                                &&& *c == cs[j]
                                &&& call_ensures(W::accessibility, (&cells@[j], t, nv, c), answers[j])
                                &&& wrapped(
                                    j,
                                    columns@,
                                    answers[j],
                                    *selected_columns,
                                    *selected_cells,
                                    final(nv)@,
                                    *final(c),
                                    ns[j + 1],
                                    cs[j + 1],
                                    table.wrappers@[j],
                                )
                            }
                    } else {
                        &&& cell_trees@[j] == old(cell_trees)@[j]
                        &&& answers[j] is None
                        &&& wrapped(j, columns@, None, *selected_columns, *selected_cells, ns[j], cs[j], ns[j + 1], cs[j + 1], table.wrappers@[j])
                    }),
        decreases count - i,
    {
        let ghost trees_before = cell_trees@;
        let ghost ws_before = table.wrappers@;
        let ghost nodes_before = nodes@;
        let ghost counter_before = *id_counter;
        let child = if i < laid_out {
            cells[i].accessibility(&mut cell_trees[i], nodes, id_counter)
        } else {
            None
        };
        let ghost mid_nodes = nodes@;
        let ghost mid_counter = *id_counter;
        proof {
            if i < laid_out {
                assert(exists|t: &mut Tree<S>, nv: &mut Vec<(u64, Node)>, c: &mut u64|
                    {
                        &&& *t == old(cell_trees)@[i as int]
                        &&& *final(t) == cell_trees@[i as int]
                        &&& (*nv)@ == nodes_before
                        &&& *c == counter_before
                        &&& final(nv)@ == mid_nodes
                        &&& *final(c) == mid_counter
                        &&& call_ensures(W::accessibility, (&cells@[i as int], t, nv, c), child)
                    });
            }
        }
        if child.is_some() && *id_counter == u64::MAX {
            assert(answers.len() == ns.len() - 1 && cs.len() == ns.len() && table.wrappers@.len() == answers.len());
            assert(exists|t: &mut Tree<S>, nv: &mut Vec<(u64, Node)>, c: &mut u64, a: Option<u64>|
                {
                    &&& *t == old(cell_trees)@[i as int]
                    &&& *final(t) == cell_trees@[i as int]
                    &&& (*nv)@ == ns.last()
                    &&& *c == cs.last()
                    &&& final(nv)@ == nodes@
                    &&& *final(c) == *id_counter
                    &&& a is Some
                    &&& call_ensures(W::accessibility, (&cells@[i as int], t, nv, c), a)
                });
            return None;
        }
        table.visit_cell(child, columns, selected_columns, selected_cells, nodes, id_counter);
        proof {
            answers = answers.push(child);
            ns = ns.push(nodes@);
            cs = cs.push(*id_counter);
        }
        let ghost i0 = i;
        i += 1;
        assert forall|j: int|
            #![trigger is_position(j, i as int)]
            is_position(j, i as int) implies (if j < laid_out {
                        exists|t: &mut Tree<S>, nv: &mut Vec<(u64, Node)>, c: &mut u64|
                            {
                                &&& *t == old(cell_trees)@[j]
                                &&& *final(t) == cell_trees@[j]
                                &&& (*nv)@ == ns[j]
                                &&& *c == cs[j]
                                &&& call_ensures(W::accessibility, (&cells@[j], t, nv, c), answers[j])
                                &&& wrapped(
                                    j,
                                    columns@,
                                    answers[j],
                                    *selected_columns,
                                    *selected_cells,
                                    final(nv)@,
                                    *final(c),
                                    ns[j + 1],
                                    cs[j + 1],
                                    table.wrappers@[j],
                                )
                            }
                    } else {
                        &&& cell_trees@[j] == old(cell_trees)@[j]
                        &&& answers[j] is None
                        &&& wrapped(j, columns@, None, *selected_columns, *selected_cells, ns[j], cs[j], ns[j + 1], cs[j + 1], table.wrappers@[j])
                    }) by {
            if j < i0 {
                assert(is_position(j, i0 as int));
                assert(cell_trees@[j] == trees_before[j]);
                assert(answers[j] == answers.drop_last()[j]);
                assert(ns[j] == ns.drop_last()[j] && ns[j + 1] == ns.drop_last()[j + 1]);
                assert(cs[j] == cs.drop_last()[j] && cs[j + 1] == cs.drop_last()[j + 1]);
                assert(table.wrappers@[j] == ws_before[j]);
            } else {
                assert(table.wrappers@[j] == table.wrappers@.last());
            }
        }
    }
    if *id_counter > u64::MAX - 1 || u64::MAX - 1 - *id_counter < table.row_cell_ids.len() as u64 {
        proof {
            let v = table.visited as int;
            let c = table.columns as int;
            if v > 0 {
                assert((v - 1) / c <= v - 1) by (nonlinear_arith)
                    requires
                        v > 0,
                        c > 0,
                ;
            }
            assert(table.row_cell_ids@.len() <= cells@.len());
        }
        assert(answers.len() == ns.len() - 1 && cs.len() == ns.len() && table.wrappers@.len() == answers.len());
        return None;
    }
    let ghost ws = table.wrappers@;
    let r = table.finish(
        cells.len(),
        accessible_label,
        selected_rows,
        selected_cells,
        selected_columns,
        nodes,
        id_counter,
    );
    assert(answers.len() == ns.len() - 1 && cs.len() == ns.len() && ws.len() == answers.len());
    Some(r)
}

/// Finds the cell that receives an action request: the first of the first
/// `cells` cells whose state tree holds the target node, if any.
pub fn cell_for_action<S>(cell_trees: &Vec<Tree<S>>, cells: usize, target: u64) -> (r: Option<usize>)
    ensures
        match r {
            Some(i) => {
                &&& i < cells
                &&& i < cell_trees@.len()
                &&& cell_trees@[i as int].has_node_id(target)
                &&& forall|j: int| 0 <= j < i ==> !(#[trigger] cell_trees@[j]).has_node_id(target)
            },
            None => forall|j: int|
                0 <= j < cells && j < cell_trees@.len() ==> !(#[trigger] cell_trees@[j]).has_node_id(target),
        },
{
    let mut i: usize = 0;
    while i < cells && i < cell_trees.len()
        invariant
            forall|j: int| 0 <= j < i ==> !(#[trigger] cell_trees@[j]).has_node_id(target),
        decreases cells - i,
    {
        if cell_trees[i].contains_accesskit_node_id(target) {
            return Some(i);
        }
        i += 1;
    }
    None
}

/// A cell of the header row (the first `columns.len()` cells) is wrapped in
/// a column header at row 0 and its column, selected exactly as its column
/// is in the selected-columns list (`Some(true)` or `Some(false)` when there
/// is a list, unset when there is none). Any later cell, at row `r` of the
/// grid, is selected exactly as data cell `(r - 1, column)` is in the
/// selected-cells list.
pub proof fn cell_selection_follows_the_lists(
    n: Node,
    i: int,
    columns: Seq<ColumnSemantics>,
    child: u64,
    label: Option<String>,
    selected_columns: Option<Vec<usize>>,
    selected_cells: Option<Vec<(usize, usize)>>,
)
    requires
        columns.len() > 0,
        0 <= i,
        is_cell_wrapper(n, i, columns, child, label, selected_columns, selected_cells),
    ensures
        i < columns.len() ==> {
            &&& n.role == Role::ColumnHeader
            &&& n.row_index == Some(0usize)
            &&& n.column_index == Some(i as usize)
            &&& match selected_columns {
                Some(l) => n.selected == Some(l@.contains(i as usize)),
                None => n.selected is None,
            }
        },
        i >= columns.len() ==> {
            let c = columns.len() as int;
            &&& n.role != Role::ColumnHeader
            &&& n.row_index == Some((i / c) as usize)
            &&& n.column_index == Some((i % c) as usize)
            &&& match selected_cells {
                Some(l) => n.selected == Some(l@.contains((((i / c) - 1) as usize, (i % c) as usize))),
                None => n.selected is None,
            }
        },
{
    let c = columns.len() as int;
    if i < c {
        assert(i / c == 0 && i % c == i) by (nonlinear_arith)
            requires
                0 <= i < c,
        ;
    } else {
        assert(i / c >= 1) by (nonlinear_arith)
            requires
                i >= c,
                c > 0,
        ;
    }
}

/// A row node of a table reports its grid row, the header row being row 0;
/// the header row is never selected, and any later row `r` is selected
/// exactly as data row `r - 1` is in the selected-rows list (unset when
/// there is no list).
pub proof fn row_selection_skips_the_header(
    n: Node,
    row: int,
    columns: usize,
    cells: Seq<u64>,
    selected_rows: Option<Vec<usize>>,
)
    requires
        0 <= row,
        is_row_node(n, row, columns, cells, selected_rows),
    ensures
        n.role == Role::TreeItem,
        n.row_index == Some(row as usize),
        n.children@ == cells,
        row == 0 ==> n.selected is None,
        row > 0 ==> match selected_rows {
            Some(l) => n.selected == Some(l@.contains((row - 1) as usize)),
            None => n.selected is None,
        },
{
}

/// A finished table is a grid whose row count is its number of cells over
/// its number of columns, the header row included; it holds one row node
/// per row begun, in order, each with the identifiers that follow the
/// counter it started from, and its own node takes the identifier after
/// them.
pub proof fn finished_grid_counts_the_header_row(
    ws: Seq<Option<u64>>,
    columns: usize,
    cells: usize,
    accessible_label: Option<String>,
    selected_rows: Option<Vec<usize>>,
    selected_cells: Option<Vec<(usize, usize)>>,
    selected_columns: Option<Vec<usize>>,
    nodes: Seq<(u64, Node)>,
    counter: u64,
    nodes2: Seq<(u64, Node)>,
    counter2: u64,
    r: u64,
)
    requires
        columns > 0,
        finished(
            ws,
            columns,
            cells,
            accessible_label,
            selected_rows,
            selected_cells,
            selected_columns,
            nodes,
            counter,
            nodes2,
            counter2,
            r,
        ),
    ensures
        nodes2.last().1.role == Role::Grid,
        nodes2.last().1.row_count == Some((cells / columns) as usize),
        nodes2.last().1.column_count == Some(columns),
        nodes2.last().0 == r,
        counter2 == r + 1,
        nodes2.last().1.children@.len() == r - counter,
        forall|k: int|
            0 <= k < r - counter ==> {
                &&& #[trigger] nodes2.last().1.children@[k] == counter + k
                &&& nodes2[nodes.len() + k].0 == counter + k
                &&& nodes2[nodes.len() + k].1.role == Role::TreeItem
                &&& nodes2[nodes.len() + k].1.row_index == Some(k as usize)
            },
{
    let rows = rows_begun(ws.len() as int, columns as int);
    assert forall|k: int| 0 <= k < r - counter implies {
        &&& #[trigger] nodes2.last().1.children@[k] == counter + k
        &&& nodes2[nodes.len() + k].0 == counter + k
        &&& nodes2[nodes.len() + k].1.role == Role::TreeItem
        &&& nodes2[nodes.len() + k].1.row_index == Some(k as usize)
    } by {
        assert(0 <= k < rows);
        assert(nodes2[nodes.len() + k].0 == counter + k);
    }
}

} // verus!
