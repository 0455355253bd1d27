//! Multi-pane screen that shows several views side by side, configured through the `[layout]`
//! table in the config file.

use vstd::prelude::*;

use super::event::{local, local_position, Event, MouseButton, MouseEvent};
use super::paint::{
    blank_at, secondary_style, text_at, title_primary_style, title_secondary_style, Frame, InkView,
    StrokeView, Style,
};
use super::scroll::MOST_CELLS;
use super::width::{text_width, width};
use crate::command::{Command, PaneDirection};
use crate::config::{icon_text, ColumnConfig, ConfigValues, IconKind, LayoutConfig};
use crate::geometry::{centre, centred, less, max, min, monus, smaller, Rect, Vec2};
use crate::text::same_text;

verus! {

/// Stands for a view.
pub type ViewId = u64;

/// Height of the per-pane title row.
pub const TITLE_HEIGHT: usize = 1;

#[derive(Debug)]
pub struct Pane {
    pub kind: String,
    /// The height of the pane in percent of its column, if it is set.
    pub height_pct: Option<u8>,
    /// Stack of views; the last entry is shown. `Back` pops down to the first (root) view, which
    /// is never removed.
    pub views: Vec<ViewId>,
    /// Empty cells on either side of the content.
    pub padding: Vec2,
    /// Area of this pane, computed during layout. In view coordinates.
    pub rect: Rect,
}

#[derive(Debug)]
pub struct Column {
    pub width_pct: u8,
    pub panes: Vec<Pane>,
}

#[derive(Debug)]
pub struct PaneLayoutView {
    pub columns: Vec<Column>,
    /// (column, row) of the focused pane.
    pub focused: (usize, usize),
    /// Empty cells between two panes, and between a pane and the edge of the screen.
    pub gap: Vec2,
    pub last_size: Vec2,
}

/// Gaps and paddings are small numbers.
pub open spec fn spacing_fits(spacing: Vec2) -> bool {
    spacing.x <= u8::MAX && spacing.y <= u8::MAX
}

/// The rectangle is in order and on the terminal.
pub open spec fn rect_fits(rect: Rect) -> bool {
    &&& rect.wf()
    &&& rect.bottom_right.x <= MOST_CELLS
    &&& rect.bottom_right.y <= MOST_CELLS
}

impl Pane {
    /// A pane always shows a view.
    pub open spec fn wf(self) -> bool {
        &&& self.views@.len() > 0
        &&& spacing_fits(self.padding)
        &&& rect_fits(self.rect)
    }

    /// The view that the pane shows.
    pub open spec fn top(self) -> ViewId {
        self.views@.last()
    }
}

/// The sum of the widths of the first `n` columns, in percent.
pub open spec fn total_width(columns: Seq<Column>, n: nat) -> int
    decreases n,
{
    if n == 0 {
        0
    } else {
        total_width(columns, (n - 1) as nat) + columns[n - 1].width_pct
    }
}

impl PaneLayoutView {
    pub open spec fn has_pane(self, at: (usize, usize)) -> bool {
        at.0 < self.columns@.len() && at.1 < self.columns@[at.0 as int].panes@.len()
    }

    pub open spec fn pane(self, at: (usize, usize)) -> Pane {
        self.columns@[at.0 as int].panes@[at.1 as int]
    }

    /// No column is empty, the columns fit side by side, every pane shows a view, and the focus is
    /// on a pane if there is one.
    pub open spec fn wf(self) -> bool {
        &&& forall|i: int|
            0 <= i < self.columns@.len() ==> (#[trigger] self.columns@[i]).panes@.len() > 0
        &&& forall|i: int, j: int|
            0 <= i < self.columns@.len() && 0 <= j < self.columns@[i].panes@.len()
                ==> (#[trigger] self.columns@[i].panes@[j]).wf()
        &&& total_width(self.columns@, self.columns@.len()) <= 100
        &&& spacing_fits(self.gap)
        &&& self.columns@.len() > 0 ==> self.has_pane(self.focused)
    }

    pub fn is_empty(&self) -> (empty: bool)
        ensures
            empty == (self.columns@.len() == 0),
    {
        self.columns.len() == 0
    }
}

// Building the layout

/// The sum of the widths of the first `n` columns of a configuration, in percent.
pub open spec fn configured_width(columns: Seq<ColumnConfig>, n: nat) -> int
    decreases n,
{
    if n == 0 {
        0
    } else {
        configured_width(columns, (n - 1) as nat) + columns[n - 1].width
    }
}

/// Whether a configuration can be used: it has columns, and they fit side by side.
pub open spec fn is_valid(config: LayoutConfig) -> bool {
    &&& config.columns@.len() > 0
    &&& configured_width(config.columns@, config.columns@.len()) <= 100
}

proof fn lemma_configured_width_grows(columns: Seq<ColumnConfig>, i: nat, n: nat)
    requires
        i <= n,
    ensures
        0 <= configured_width(columns, i) <= configured_width(columns, n),
    decreases n,
{
    if i < n {
        lemma_configured_width_grows(columns, i, (n - 1) as nat);
    } else if n > 0 {
        lemma_configured_width_grows(columns, (n - 1) as nat, (n - 1) as nat);
    }
}

/// Whether a configuration can be used; the default is used in place of one that cannot.
pub fn valid(config: &LayoutConfig) -> (yes: bool)
    ensures
        yes == is_valid(*config),
{
    if config.columns.len() == 0 {
        return false;
    }
    let mut total: u32 = 0;
    let mut n: usize = 0;
    while n < config.columns.len()
        invariant
            n <= config.columns@.len(),
            config.columns@.len() > 0,
            total == configured_width(config.columns@, n as nat),
            total <= 100,
        decreases config.columns@.len() - n,
    {
        total = total + config.columns[n].width as u32;
        n += 1;
        if total > 100 {
            proof {
                lemma_configured_width_grows(
                    config.columns@,
                    n as nat,
                    config.columns@.len(),
                );
            }
            return false;
        }
    }
    true
}

/// The configuration that is used: the given one, or the default where that one cannot be used.
pub fn usable_config(config: LayoutConfig) -> (used: LayoutConfig)
    ensures
        is_valid(used),
        is_valid(config) ==> used == config,
        !is_valid(config) ==> call_ensures(LayoutConfig::default, (), used),
{
    if valid(&config) {
        config
    } else {
        let default = LayoutConfig::default();
        assert(configured_width(default.columns@, 2) == 100) by {
            reveal_with_fuel(configured_width, 3);
        }
        default
    }
}

/// The height that is set for entry `j` of a column. Heights are only used if there is one for
/// each entry.
pub open spec fn configured_height(config: ColumnConfig, j: int) -> Option<u8> {
    match config.heights {
        Some(heights) => if heights@.len() == config.panes@.len() {
            Some(heights@[j])
        } else {
            None
        },
        None => None,
    }
}

/// A setting: the one for the direction, or else the one for both, or else the default.
pub open spec fn spacing(own: Option<u8>, both: Option<u8>, default: u8) -> u8 {
    match own {
        Some(cells) => cells,
        None => match both {
            Some(cells) => cells,
            None => default,
        },
    }
}

fn spacing_or(own: Option<u8>, both: Option<u8>, default: u8) -> (cells: u8)
    ensures
        cells == spacing(own, both, default),
{
    match own {
        Some(cells) => cells,
        None => match both {
            Some(cells) => cells,
            None => default,
        },
    }
}

/// The empty cells around the panes of a configuration; one by default.
pub open spec fn configured_gap(config: LayoutConfig) -> Vec2 {
    Vec2 {
        x: spacing(config.gap_x, config.gap, 1) as usize,
        y: spacing(config.gap_y, config.gap, 1) as usize,
    }
}

/// The empty cells around the content of the panes of a configuration; none by default.
pub open spec fn configured_padding(config: LayoutConfig) -> Vec2 {
    Vec2 {
        x: spacing(config.padding_x, config.padding, 0) as usize,
        y: spacing(config.padding_y, config.padding, 0) as usize,
    }
}

/// The panes are those of the first `n` entries of a column for which a view is known, in their
/// order, each with its view.
pub open spec fn panes_are(
    panes: Seq<Pane>,
    config: ColumnConfig,
    padding: Vec2,
    views: Seq<Option<ViewId>>,
    n: nat,
) -> bool
    decreases n,
{
    if n == 0 {
        panes.len() == 0
    } else {
        match views[n - 1] {
            Some(view) => {
                let last = panes.last();
                &&& panes.len() > 0
                &&& last.kind@ == config.panes@[n - 1]@
                &&& last.height_pct == configured_height(config, n - 1)
                &&& last.views@ == seq![view]
                &&& last.padding == padding
                &&& last.rect == Rect::sized(0, 0, 0, 0)
                &&& panes_are(panes.drop_last(), config, padding, views, (n - 1) as nat)
            },
            None => panes_are(panes, config, padding, views, (n - 1) as nat),
        }
    }
}

/// Whether a view is known for any of the first `n` entries of a column.
pub open spec fn any_view(views: Seq<Option<ViewId>>, n: nat) -> bool
    decreases n,
{
    n > 0 && (views[n - 1] is Some || any_view(views, (n - 1) as nat))
}

/// The columns are those of the first `n` columns of a configuration in which a view is known for
/// some entry, in their order.
pub open spec fn columns_are(
    columns: Seq<Column>,
    config: Seq<ColumnConfig>,
    padding: Vec2,
    views: Seq<Vec<Option<ViewId>>>,
    n: nat,
) -> bool
    decreases n,
{
    if n == 0 {
        columns.len() == 0
    } else if any_view(views[n - 1]@, config[n - 1].panes@.len()) {
        &&& columns.len() > 0
        &&& columns.last().width_pct == config[n - 1].width
        &&& panes_are(
            columns.last().panes@,
            config[n - 1],
            padding,
            views[n - 1]@,
            config[n - 1].panes@.len(),
        )
        &&& columns_are(columns.drop_last(), config, padding, views, (n - 1) as nat)
    } else {
        columns_are(columns, config, padding, views, (n - 1) as nat)
    }
}

/// There is an answer for each pane of a configuration.
pub open spec fn answers_fit(config: LayoutConfig, views: Seq<Vec<Option<ViewId>>>) -> bool {
    &&& views.len() == config.columns@.len()
    &&& forall|i: int|
        0 <= i < views.len() ==> (#[trigger] views[i])@.len() == config.columns@[i].panes@.len()
}

fn build_panes(
    config: &ColumnConfig,
    padding: Vec2,
    views: &Vec<Option<ViewId>>,
) -> (panes: Vec<Pane>)
    requires
        views@.len() == config.panes@.len(),
        spacing_fits(padding),
    ensures
        panes_are(panes@, *config, padding, views@, views@.len()),
        forall|j: int| 0 <= j < panes@.len() ==> (#[trigger] panes@[j]).wf(),
        (panes@.len() > 0) == any_view(views@, views@.len()),
{
    let mut panes: Vec<Pane> = Vec::new();
    let mut n: usize = 0;
    while n < views.len()
        invariant
            n <= views@.len(),
            views@.len() == config.panes@.len(),
            spacing_fits(padding),
            panes_are(panes@, *config, padding, views@, n as nat),
            forall|j: int| 0 <= j < panes@.len() ==> (#[trigger] panes@[j]).wf(),
            (panes@.len() > 0) == any_view(views@, n as nat),
        decreases views@.len() - n,
    {
        if let Some(view) = views[n] {
            let height_pct = match &config.heights {
                Some(heights) => if heights.len() == config.panes.len() {
                    Some(heights[n])
                } else {
                    None
                },
                None => None,
            };
            let mut stack: Vec<ViewId> = Vec::new();
            stack.push(view);
            let rect = Rect::from_size(Vec2::zero(), Vec2::zero());
            let ghost before = panes@;
            panes.push(
                Pane { kind: config.panes[n].clone(), height_pct, views: stack, padding, rect },
            );
            assert(panes@.drop_last() =~= before);
            assert(panes@.last().views@ =~= seq![view]);
        }
        n += 1;
    }
    panes
}

impl PaneLayoutView {
    /// Builds the pane layout from a configuration, with the views for its panes. Panes for which
    /// no view is known are left out, and columns without panes too.
    pub fn new(config: &LayoutConfig, views: &Vec<Vec<Option<ViewId>>>) -> (view: PaneLayoutView)
        requires
            is_valid(*config),
            answers_fit(*config, views@),
        ensures
            view.wf(),
            columns_are(
                view.columns@,
                config.columns@,
                configured_padding(*config),
                views@,
                views@.len(),
            ),
            view.gap == configured_gap(*config),
            view.focused == (0usize, 0usize),
            view.last_size == (Vec2 { x: 0, y: 0 }),
    {
        let gap = Vec2 {
            x: spacing_or(config.gap_x, config.gap, 1) as usize,
            y: spacing_or(config.gap_y, config.gap, 1) as usize,
        };
        let padding = Vec2 {
            x: spacing_or(config.padding_x, config.padding, 0) as usize,
            y: spacing_or(config.padding_y, config.padding, 0) as usize,
        };
        let mut columns: Vec<Column> = Vec::new();
        let mut n: usize = 0;
        while n < views.len()
            invariant
                n <= views@.len(),
                padding == configured_padding(*config),
                answers_fit(*config, views@),
                columns_are(columns@, config.columns@, padding, views@, n as nat),
                0 <= total_width(columns@, columns@.len()) <= configured_width(
                    config.columns@,
                    n as nat,
                ),
                forall|i: int|
                    0 <= i < columns@.len() ==> (#[trigger] columns@[i]).panes@.len() > 0,
                forall|i: int, j: int|
                    0 <= i < columns@.len() && 0 <= j < columns@[i].panes@.len()
                        ==> (#[trigger] columns@[i].panes@[j]).wf(),
            decreases views@.len() - n,
        {
            let column = &config.columns[n];
            let panes = build_panes(column, padding, &views[n]);
            if panes.len() > 0 {
                let ghost before = columns@;
                columns.push(Column { width_pct: column.width, panes });
                assert(columns@.drop_last() =~= before);
                proof {
                    lemma_total_width_prefix(before, columns@, before.len());
                }
            }
            n += 1;
        }
        PaneLayoutView { columns, focused: (0, 0), gap, last_size: Vec2::zero() }
    }
}

proof fn lemma_total_width_prefix(a: Seq<Column>, b: Seq<Column>, n: nat)
    requires
        n <= a.len(),
        n <= b.len(),
        forall|i: int| 0 <= i < n ==> (#[trigger] a[i]).width_pct == (#[trigger] b[i]).width_pct,
    ensures
        total_width(a, n) == total_width(b, n),
    decreases n,
{
    if n > 0 {
        lemma_total_width_prefix(a, b, (n - 1) as nat);
        assert(a[n - 1].width_pct == b[n - 1].width_pct);
    }
}

// Layout

/// The column of the screen at which column `i` of the layout starts.
pub open spec fn column_left(columns: Seq<Column>, size_x: int, i: int) -> int
    decreases i, 0int,
{
    if i <= 0 {
        0
    } else {
        column_left(columns, size_x, i - 1) + column_width(columns, size_x, i - 1)
    }
}

/// The width of column `i` of the layout: its share of the screen, and all that is left for the
/// last one.
pub open spec fn column_width(columns: Seq<Column>, size_x: int, i: int) -> int
    decreases i, 1int,
{
    if i + 1 == columns.len() {
        monus(size_x, column_left(columns, size_x, i))
    } else {
        size_x * columns[i].width_pct / 100
    }
}

/// The row of the screen at which pane `j` of a column starts.
pub open spec fn pane_top(panes: Seq<Pane>, size_y: int, j: int) -> int
    decreases j, 0int,
{
    if j <= 0 {
        0
    } else {
        pane_top(panes, size_y, j - 1) + pane_height(panes, size_y, j - 1)
    }
}

/// The height of pane `j` of a column: its share of the column as far as there is room, or an equal
/// share where none is set, and all that is left for the last one.
pub open spec fn pane_height(panes: Seq<Pane>, size_y: int, j: int) -> int
    decreases j, 1int,
{
    let left = monus(size_y, pane_top(panes, size_y, j));
    if j + 1 == panes.len() {
        left
    } else {
        min(
            left,
            match panes[j].height_pct {
                Some(pct) => size_y * pct / 100,
                None => size_y / panes.len() as int,
            },
        )
    }
}

/// Where a pane starts in its share of the screen, along one direction: the first one leaves a gap
/// to the edge of the screen.
pub open spec fn pane_start(from: int, cells: int, gap: int, first: bool) -> int {
    if first {
        from + min(gap, cells)
    } else {
        from
    }
}

/// What is left for a pane of its share of the screen, along one direction: every pane leaves a gap
/// behind it, and the first one also leaves a gap before it.
pub open spec fn pane_cells(cells: int, gap: int, first: bool) -> int {
    if first {
        monus(cells, 2 * gap)
    } else {
        monus(cells, gap)
    }
}

/// The area of pane `j` of column `i`: its share of the screen without the gaps.
pub open spec fn pane_rect(
    columns: Seq<Column>,
    gap: Vec2,
    size: Vec2,
    i: int,
    j: int,
) -> Rect {
    let left = column_left(columns, size.x as int, i);
    let top = pane_top(columns[i].panes@, size.y as int, j);
    let width = column_width(columns, size.x as int, i);
    let height = pane_height(columns[i].panes@, size.y as int, j);
    Rect::sized(
        pane_start(left, width, gap.x as int, i == 0),
        pane_start(top, height, gap.y as int, j == 0),
        pane_cells(width, gap.x as int, i == 0),
        pane_cells(height, gap.y as int, j == 0),
    )
}

/// The panes are the same but for their areas.
pub open spec fn same_panes(a: Seq<Pane>, b: Seq<Pane>) -> bool {
    &&& a.len() == b.len()
    &&& forall|j: int|
        0 <= j < a.len() ==> (#[trigger] a[j]).kind == (#[trigger] b[j]).kind && a[j].height_pct
            == b[j].height_pct && a[j].views == b[j].views && a[j].padding == b[j].padding
}

/// The columns are the same but for the areas of their panes.
pub open spec fn same_columns(a: Seq<Column>, b: Seq<Column>) -> bool {
    &&& a.len() == b.len()
    &&& forall|i: int|
        0 <= i < a.len() ==> (#[trigger] a[i]).width_pct == (#[trigger] b[i]).width_pct
            && same_panes(a[i].panes@, b[i].panes@)
}

proof fn lemma_pane_top_fits(panes: Seq<Pane>, size_y: int, j: int)
    requires
        0 <= j <= panes.len(),
        0 <= size_y,
        panes.len() > 0,
    ensures
        0 <= pane_top(panes, size_y, j) <= size_y,
        j < panes.len() ==> 0 <= pane_height(panes, size_y, j) <= size_y - pane_top(
            panes,
            size_y,
            j,
        ),
    decreases j,
{
    if j > 0 {
        lemma_pane_top_fits(panes, size_y, j - 1);
    }
    if j < panes.len() && j + 1 != panes.len() {
        match panes[j].height_pct {
            Some(pct) => {
                assert(0 <= size_y * pct / 100) by (nonlinear_arith)
                    requires
                        size_y >= 0,
                        pct >= 0,
                ;
            },
            None => {
                assert(0 <= size_y / panes.len() as int) by (nonlinear_arith)
                    requires
                        size_y >= 0,
                        panes.len() > 0,
                ;
            },
        }
    }
}

proof fn lemma_column_left_fits(columns: Seq<Column>, size_x: int, i: int)
    requires
        0 <= i <= columns.len(),
        0 <= size_x,
        total_width(columns, columns.len()) <= 100,
    ensures
        0 <= column_left(columns, size_x, i) <= size_x,
        i < columns.len() ==> 100 * column_left(columns, size_x, i) <= size_x * total_width(
            columns,
            i as nat,
        ),
        i < columns.len() ==> 0 <= column_width(columns, size_x, i) <= size_x - column_left(
            columns,
            size_x,
            i,
        ),
    decreases i,
{
    if i > 0 {
        lemma_column_left_fits(columns, size_x, i - 1);
        if i < columns.len() {
            let before = column_left(columns, size_x, i - 1);
            let w = size_x * columns[i - 1].width_pct / 100;
            let t = total_width(columns, (i - 1) as nat);
            let pct = columns[i - 1].width_pct as int;
            assert(100 * (before + w) <= size_x * (t + pct)) by (nonlinear_arith)
                requires
                    100 * before <= size_x * t,
                    w == size_x * pct / 100,
                    size_x >= 0,
                    pct >= 0,
            ;
        }
    } else {
        assert(size_x * 0 == 0) by (nonlinear_arith);
    }
    if i < columns.len() {
        lemma_total_width_grows(columns, i as nat, columns.len());
        let t = total_width(columns, i as nat);
        let left = column_left(columns, size_x, i);
        assert(left <= size_x) by (nonlinear_arith)
            requires
                100 * left <= size_x * t,
                t <= 100,
                size_x >= 0,
        ;
        if i + 1 != columns.len() {
            lemma_total_width_grows(columns, (i + 1) as nat, columns.len());
            let pct = columns[i].width_pct as int;
            assert(total_width(columns, (i + 1) as nat) == t + pct);
            assert(0 <= size_x * pct / 100 && left + size_x * pct / 100 <= size_x)
                by (nonlinear_arith)
                requires
                    100 * left <= size_x * t,
                    t + pct <= 100,
                    size_x >= 0,
                    pct >= 0,
                    t >= 0,
            ;
        }
    }
}

proof fn lemma_total_width_grows(columns: Seq<Column>, i: nat, n: nat)
    requires
        i <= n,
    ensures
        0 <= total_width(columns, i) <= total_width(columns, n),
    decreases n,
{
    if i < n {
        lemma_total_width_grows(columns, i, (n - 1) as nat);
    } else if n > 0 {
        lemma_total_width_grows(columns, (n - 1) as nat, (n - 1) as nat);
    }
}

proof fn lemma_same_top(a: Seq<Pane>, b: Seq<Pane>, size_y: int, j: int)
    requires
        same_panes(a, b),
        0 <= j <= a.len(),
    ensures
        pane_top(a, size_y, j) == pane_top(b, size_y, j),
    decreases j,
{
    if j > 0 {
        lemma_same_top(a, b, size_y, j - 1);
        assert(a[j - 1].height_pct == b[j - 1].height_pct);
        assert(pane_height(a, size_y, j - 1) == pane_height(b, size_y, j - 1));
    }
}

/// The columns cover the whole width of the screen, one behind the other.
pub proof fn lemma_columns_tile_the_screen(columns: Seq<Column>, size_x: int)
    requires
        columns.len() > 0,
        0 <= size_x,
        total_width(columns, columns.len()) <= 100,
    ensures
        column_left(columns, size_x, 0) == 0,
        forall|i: int|
            0 <= i < columns.len() ==> #[trigger] column_left(columns, size_x, i + 1)
                == column_left(columns, size_x, i) + column_width(columns, size_x, i),
        column_left(columns, size_x, columns.len() as int) == size_x,
{
    lemma_column_left_fits(columns, size_x, columns.len() - 1);
}

/// The panes of a column cover its whole height, one below the other.
pub proof fn lemma_panes_tile_the_column(panes: Seq<Pane>, size_y: int)
    requires
        panes.len() > 0,
        0 <= size_y,
    ensures
        pane_top(panes, size_y, 0) == 0,
        forall|j: int|
            0 <= j < panes.len() ==> #[trigger] pane_top(panes, size_y, j + 1) == pane_top(
                panes,
                size_y,
                j,
            ) + pane_height(panes, size_y, j),
        pane_top(panes, size_y, panes.len() as int) == size_y,
{
    lemma_pane_top_fits(panes, size_y, panes.len() - 1);
}

/// The panes keep the gap: to the edges of the screen, to the panes of the next column, and to the
/// pane below. This holds of every pane whose share of the screen is larger than its gaps.
pub proof fn lemma_panes_keep_the_gap(
    columns: Seq<Column>,
    gap: Vec2,
    size: Vec2,
    i: int,
    j: int,
)
    requires
        0 <= i < columns.len(),
        0 <= j < columns[i].panes@.len(),
        total_width(columns, columns.len()) <= 100,
        pane_cells(column_width(columns, size.x as int, i), gap.x as int, i == 0) > 0,
        pane_cells(pane_height(columns[i].panes@, size.y as int, j), gap.y as int, j == 0) > 0,
    ensures
        ({
            let rect = pane_rect(columns, gap, size, i, j);
            &&& i == 0 ==> rect.top_left.x == gap.x
            &&& j == 0 ==> rect.top_left.y == gap.y
            &&& i + 1 == columns.len() ==> rect.bottom_right.x + 1 + gap.x == size.x
            &&& j + 1 == columns[i].panes@.len() ==> rect.bottom_right.y + 1 + gap.y == size.y
            &&& i + 1 < columns.len() ==> forall|k: int|
                (#[trigger] pane_rect(columns, gap, size, i + 1, k)).top_left.x
                    == rect.bottom_right.x + 1 + gap.x
            &&& j + 1 < columns[i].panes@.len() ==> pane_rect(
                columns,
                gap,
                size,
                i,
                j + 1,
            ).top_left.y == rect.bottom_right.y + 1 + gap.y
        }),
{
    lemma_column_left_fits(columns, size.x as int, i);
    lemma_pane_top_fits(columns[i].panes@, size.y as int, j);
    if i + 1 < columns.len() {
        lemma_column_left_fits(columns, size.x as int, i + 1);
    }
    if j + 1 < columns[i].panes@.len() {
        lemma_pane_top_fits(columns[i].panes@, size.y as int, j + 1);
    }
}

/// Where a pane starts in its share of the screen, and how many cells of it are left for the pane.
fn without_gaps(from: usize, cells: usize, gap: usize, first: bool) -> (kept: (usize, usize))
    requires
        from + cells <= MOST_CELLS,
        gap <= u8::MAX,
    ensures
        kept.0 == pane_start(from as int, cells as int, gap as int, first),
        kept.1 == pane_cells(cells as int, gap as int, first),
        kept.0 + kept.1 <= MOST_CELLS,
{
    if first {
        (from + smaller(gap, cells), less(cells, 2 * gap))
    } else {
        (from, less(cells, gap))
    }
}

/// Gives the panes of a column their areas, in `column_cells` columns of the screen from `x` on.
fn layout_column(
    column: &mut Column,
    x: usize,
    column_cells: usize,
    gap_y: usize,
    size_y: usize,
)
    requires
        gap_y <= u8::MAX,
        old(column).panes@.len() > 0,
        forall|j: int|
            0 <= j < old(column).panes@.len() ==> (#[trigger] old(column).panes@[j]).wf(),
        x + column_cells <= MOST_CELLS,
        size_y <= MOST_CELLS,
    ensures
        final(column).width_pct == old(column).width_pct,
        same_panes(old(column).panes@, final(column).panes@),
        forall|j: int|
            0 <= j < final(column).panes@.len() ==> (#[trigger] final(column).panes@[j]).wf()
                && final(column).panes@[j].rect == Rect::sized(
                x as int,
                pane_start(
                    pane_top(old(column).panes@, size_y as int, j),
                    pane_height(old(column).panes@, size_y as int, j),
                    gap_y as int,
                    j == 0,
                ),
                column_cells as int,
                pane_cells(
                    pane_height(old(column).panes@, size_y as int, j),
                    gap_y as int,
                    j == 0,
                ),
            ),
{
    let ghost before = column.panes@;
    let count: usize = column.panes.len();
    let mut y: usize = 0;
    let mut j: usize = 0;
    while j < count
        invariant
            count == before.len(),
            count > 0,
            j <= count,
            gap_y <= u8::MAX,
            x + column_cells <= MOST_CELLS,
            size_y <= MOST_CELLS,
            y == pane_top(before, size_y as int, j as int),
            y <= size_y,
            same_panes(before, column.panes@),
            column.width_pct == old(column).width_pct,
            forall|k: int| 0 <= k < count ==> (#[trigger] column.panes@[k]).wf(),
            forall|k: int|
                0 <= k < j ==> (#[trigger] column.panes@[k]).rect == Rect::sized(
                    x as int,
                    pane_start(
                        pane_top(before, size_y as int, k),
                        pane_height(before, size_y as int, k),
                        gap_y as int,
                        k == 0,
                    ),
                    column_cells as int,
                    pane_cells(pane_height(before, size_y as int, k), gap_y as int, k == 0),
                ),
        decreases count - j,
    {
        proof {
            lemma_pane_top_fits(before, size_y as int, j as int);
        }
        let left: usize = size_y - y;
        assert(column.panes@[j as int].height_pct == before[j as int].height_pct);
        let height: usize = if j == count - 1 {
            left
        } else {
            let share: usize = match column.panes[j].height_pct {
                Some(pct) => {
                    assert(size_y * pct <= 0xffff * 255) by (nonlinear_arith)
                        requires
                            size_y <= 0xffff,
                            pct <= 255,
                    ;
                    size_y * pct as usize / 100
                },
                None => size_y / count,
            };
            smaller(left, share)
        };
        assert(height == pane_height(before, size_y as int, j as int));
        let (top, rows) = without_gaps(y, height, gap_y, j == 0);
        let rect = Rect::from_size(
            Vec2 { x, y: top },
            Vec2 { x: column_cells, y: rows },
        );
        column.panes[j].rect = rect;
        y = y + height;
        j += 1;
    }
}

impl PaneLayoutView {
    /// Gives every pane its area.
    pub fn layout(&mut self, size: Vec2)
        requires
            old(self).wf(),
            size.x <= MOST_CELLS,
            size.y <= MOST_CELLS,
        ensures
            final(self).wf(),
            final(self).last_size == size,
            final(self).focused == old(self).focused,
            final(self).gap == old(self).gap,
            same_columns(old(self).columns@, final(self).columns@),
            forall|i: int, j: int|
                0 <= i < final(self).columns@.len() && 0 <= j
                    < final(self).columns@[i].panes@.len() ==> (
                #[trigger] final(self).columns@[i].panes@[j]).rect == pane_rect(
                    old(self).columns@,
                    old(self).gap,
                    size,
                    i,
                    j,
                ),
    {
        let ghost before = self.columns@;
        let gap = self.gap;
        self.last_size = size;
        let count: usize = self.columns.len();
        let mut x: usize = 0;
        let mut i: usize = 0;
        while i < count
            invariant
                count == before.len(),
                i <= count,
                size.x <= MOST_CELLS,
                size.y <= MOST_CELLS,
                x == column_left(before, size.x as int, i as int),
                x <= size.x,
                total_width(before, before.len()) <= 100,
                self.last_size == size,
                self.focused == old(self).focused,
                self.gap == gap,
                spacing_fits(gap),
                same_columns(before, self.columns@),
                forall|k: int|
                    0 <= k < count ==> (#[trigger] self.columns@[k]).panes@.len() > 0,
                forall|k: int, j: int|
                    0 <= k < count && 0 <= j < self.columns@[k].panes@.len() ==> (
                    #[trigger] self.columns@[k].panes@[j]).wf(),
                forall|k: int, j: int|
                    0 <= k < i && 0 <= j < self.columns@[k].panes@.len() ==> (
                    #[trigger] self.columns@[k].panes@[j]).rect == pane_rect(
                        before,
                        gap,
                        size,
                        k,
                        j,
                    ),
            decreases count - i,
        {
            proof {
                lemma_column_left_fits(before, size.x as int, i as int);
            }
            assert(self.columns@[i as int].width_pct == before[i as int].width_pct);
            let cells: usize = if i == count - 1 {
                less(size.x, x)
            } else {
                let pct: usize = self.columns[i].width_pct as usize;
                assert(size.x * pct <= 0xffff * 255) by (nonlinear_arith)
                    requires
                        size.x <= 0xffff,
                        pct <= 255,
                ;
                size.x * pct / 100
            };
            assert(cells == column_width(before, size.x as int, i as int));
            let ghost now = self.columns@;
            let (left, kept) = without_gaps(x, cells, gap.x, i == 0);
            layout_column(&mut self.columns[i], left, kept, gap.y, size.y);
            proof {
                assert forall|k: int, j: int|
                    0 <= k < i + 1 && 0 <= j < self.columns@[k].panes@.len() implies (
                #[trigger] self.columns@[k].panes@[j]).rect == pane_rect(
                    before,
                    gap,
                    size,
                    k,
                    j,
                ) by {
                    if k == i {
                        lemma_same_top(
                            before[k].panes@,
                            now[k].panes@,
                            size.y as int,
                            j,
                        );
                        assert(before[k].panes@[j].height_pct == now[k].panes@[j].height_pct);
                    } else {
                        assert(self.columns@[k] == now[k]);
                        assert(now[k].panes@[j].rect == pane_rect(before, gap, size, k, j));
                    }
                }
                assert(same_columns(before, self.columns@)) by {
                    assert forall|k: int| 0 <= k < before.len() implies (
                    #[trigger] before[k]).width_pct == (#[trigger] self.columns@[k]).width_pct
                        && same_panes(before[k].panes@, self.columns@[k].panes@) by {
                        assert(now[k].width_pct == before[k].width_pct);
                        assert(same_panes(before[k].panes@, now[k].panes@));
                        if k == i {
                            lemma_same_panes_chain(
                                before[k].panes@,
                                now[k].panes@,
                                self.columns@[k].panes@,
                            );
                        }
                    }
                }
            }
            x = x + cells;
            i += 1;
        }
        proof {
            lemma_total_width_prefix(before, self.columns@, before.len());
        }
    }

    /// The area below the title of a pane and inside its padding, relative to the layout: its corner
    /// and its size.
    pub fn content_area(pane: &Pane) -> (area: (Vec2, Vec2))
        requires
            pane.wf(),
        ensures
            area == (content_corner(*pane), content_size(*pane)),
    {
        (
            Vec2 {
                x: pane.rect.top_left.x + pane.padding.x,
                y: pane.rect.top_left.y + TITLE_HEIGHT + pane.padding.y,
            },
            Vec2 {
                x: less(pane.rect.width(), 2 * pane.padding.x),
                y: less(pane.rect.height(), TITLE_HEIGHT + 2 * pane.padding.y),
            },
        )
    }
}

/// The first cell of the view in a pane, below the title and inside the padding.
pub open spec fn content_corner(pane: Pane) -> Vec2 {
    Vec2 {
        x: (pane.rect.top_left.x + pane.padding.x) as usize,
        y: (pane.rect.top_left.y + TITLE_HEIGHT + pane.padding.y) as usize,
    }
}

/// The size of the view in a pane, below the title and inside the padding.
pub open spec fn content_size(pane: Pane) -> Vec2 {
    Vec2 {
        x: monus(pane.rect.width_spec(), 2 * pane.padding.x) as usize,
        y: monus(pane.rect.height_spec(), TITLE_HEIGHT + 2 * pane.padding.y) as usize,
    }
}

/// Whether a cell belongs to the view in a pane.
pub open spec fn in_content(pane: Pane, at: Vec2) -> bool {
    let corner = content_corner(pane);
    let size = content_size(pane);
    corner.x <= at.x < corner.x + size.x && corner.y <= at.y < corner.y + size.y
}

/// Without padding the view has all cells of the pane but those of the title row.
pub proof fn lemma_content_fills_the_pane(pane: Pane, at: Vec2)
    requires
        pane.wf(),
        pane.padding == (Vec2 { x: 0, y: 0 }),
    ensures
        in_content(pane, at) == (pane.rect.holds(at.x as int, at.y as int) && at.y
            != pane.rect.top_left.y),
{
}

proof fn lemma_same_panes_chain(a: Seq<Pane>, b: Seq<Pane>, c: Seq<Pane>)
    requires
        same_panes(a, b),
        same_panes(b, c),
    ensures
        same_panes(a, c),
{
    assert forall|j: int| 0 <= j < a.len() implies (#[trigger] a[j]).kind == (#[trigger] c[j]).kind
        && a[j].height_pct == c[j].height_pct && a[j].views == c[j].views && a[j].padding
        == c[j].padding by {
        assert(a[j].kind == b[j].kind);
        assert(b[j].kind == c[j].kind);
    }
}

// Focus

/// The pane that a direction leads to, which may be the same one.
pub open spec fn focus_after(view: PaneLayoutView, direction: PaneDirection) -> (int, int) {
    let col = view.focused.0 as int;
    let row = view.focused.1 as int;
    let count = view.columns@.len() as int;
    let (to_col, to_row) = match direction {
        PaneDirection::Left => if col > 0 {
            (col - 1, row)
        } else {
            (col, row)
        },
        PaneDirection::Right => if col + 1 < count {
            (col + 1, row)
        } else {
            (col, row)
        },
        PaneDirection::Up => if row > 0 {
            (col, row - 1)
        } else {
            (col, row)
        },
        PaneDirection::Down => if row + 1 < view.columns@[col].panes@.len() {
            (col, row + 1)
        } else {
            (col, row)
        },
        PaneDirection::Next => if row + 1 < view.columns@[col].panes@.len() {
            (col, row + 1)
        } else if col + 1 < count {
            (col + 1, 0)
        } else {
            (0, 0)
        },
    };
    (to_col, min(to_row, view.columns@[to_col].panes@.len() - 1))
}

/// The view is the same but for the focus.
pub open spec fn only_focus_moved(before: PaneLayoutView, after: PaneLayoutView) -> bool {
    after.columns == before.columns && after.last_size == before.last_size && after.gap
        == before.gap
}

impl PaneLayoutView {
    /// Moves the focus. Gives the view that was left, if the focus has moved.
    pub fn move_focus(&mut self, direction: PaneDirection) -> (left: Option<ViewId>)
        requires
            old(self).wf(),
            old(self).columns@.len() > 0,
        ensures
            final(self).wf(),
            only_focus_moved(*old(self), *final(self)),
            (final(self).focused.0 as int, final(self).focused.1 as int) == focus_after(
                *old(self),
                direction,
            ),
            left == if final(self).focused != old(self).focused {
                Some(old(self).pane(old(self).focused).top())
            } else {
                None
            },
    {
        let (col, row) = self.focused;
        let count: usize = self.columns.len();
        let rows: usize = self.columns[col].panes.len();
        let (to_col, to_row): (usize, usize) = match direction {
            PaneDirection::Left => if col > 0 {
                (col - 1, row)
            } else {
                (col, row)
            },
            PaneDirection::Right => if col < count - 1 {
                (col + 1, row)
            } else {
                (col, row)
            },
            PaneDirection::Up => if row > 0 {
                (col, row - 1)
            } else {
                (col, row)
            },
            PaneDirection::Down => if row < rows - 1 {
                (col, row + 1)
            } else {
                (col, row)
            },
            PaneDirection::Next => if row < rows - 1 {
                (col, row + 1)
            } else if col < count - 1 {
                (col + 1, 0)
            } else {
                (0, 0)
            },
        };
        assert(self.columns@[to_col as int].panes@.len() > 0);
        let to_row: usize = smaller(to_row, self.columns[to_col].panes.len() - 1);
        if to_col == col && to_row == row {
            return None;
        }
        assert(self.columns@[col as int].panes@[row as int].wf());
        let views = &self.columns[col].panes[row].views;
        let left: ViewId = views[views.len() - 1];
        self.focused = (to_col, to_row);
        Some(left)
    }
}

/// Repeated steps to the next pane come round to every pane of the column and then go on to the
/// next column.
pub proof fn lemma_next_walks_the_panes(view: PaneLayoutView)
    requires
        view.wf(),
        view.columns@.len() > 0,
    ensures
        ({
            let (col, row) = focus_after(view, PaneDirection::Next);
            &&& 0 <= col < view.columns@.len()
            &&& 0 <= row < view.columns@[col].panes@.len()
            &&& row > 0 ==> col == view.focused.0 && row == view.focused.1 + 1
            &&& row == 0 ==> view.focused.1 + 1
                == view.columns@[view.focused.0 as int].panes@.len()
            &&& row == 0 ==> col == (view.focused.0 + 1) % view.columns@.len() as int
        }),
{
    let count = view.columns@.len() as int;
    let col = view.focused.0 as int;
    assert(view.columns@[col].panes@.len() > 0);
    if col + 1 < count {
        assert(view.columns@[col + 1].panes@.len() > 0);
        assert((col + 1) % count == col + 1) by (nonlinear_arith)
            requires
                0 <= col + 1 < count,
        ;
    } else {
        assert(view.columns@[0].panes@.len() > 0);
        assert(count % count == 0) by (nonlinear_arith)
            requires
                count > 0,
        ;
    }
}

// Stacks of views

/// The place of the first pane of a kind, column by column, from column `i` and pane `j` on.
pub open spec fn find_kind(columns: Seq<Column>, kind: Seq<char>, i: int, j: int) -> Option<
    (int, int),
>
    decreases columns.len() - i, columns[i].panes@.len() - j,
{
    if i < 0 || j < 0 || i >= columns.len() {
        None
    } else if j >= columns[i].panes@.len() {
        find_kind(columns, kind, i + 1, 0)
    } else if columns[i].panes@[j].kind@ == kind {
        Some((i, j))
    } else {
        find_kind(columns, kind, i, j + 1)
    }
}

/// The columns are the same but for the stack of views of one pane.
pub open spec fn same_but_stack(
    before: Seq<Column>,
    after: Seq<Column>,
    at: (usize, usize),
) -> bool {
    &&& after.len() == before.len()
    &&& forall|i: int|
        0 <= i < before.len() && i != at.0 ==> #[trigger] after[i] == before[i]
    &&& after[at.0 as int].width_pct == before[at.0 as int].width_pct
    &&& after[at.0 as int].panes@.len() == before[at.0 as int].panes@.len()
    &&& forall|j: int|
        0 <= j < before[at.0 as int].panes@.len() && j != at.1
            ==> #[trigger] after[at.0 as int].panes@[j] == before[at.0 as int].panes@[j]
    &&& after[at.0 as int].panes@[at.1 as int].kind
        == before[at.0 as int].panes@[at.1 as int].kind
    &&& after[at.0 as int].panes@[at.1 as int].height_pct
        == before[at.0 as int].panes@[at.1 as int].height_pct
    &&& after[at.0 as int].panes@[at.1 as int].padding
        == before[at.0 as int].panes@[at.1 as int].padding
    &&& after[at.0 as int].panes@[at.1 as int].rect
        == before[at.0 as int].panes@[at.1 as int].rect
}

/// What has to be done after a stack of views has changed.
#[derive(Clone, Copy, Debug, PartialEq, Eq, Structural)]
pub struct StackChange {
    /// The view that is no longer shown.
    pub left: ViewId,
    /// The view that is shown now.
    pub shown: ViewId,
    /// The size of the view that is shown now.
    pub size: Vec2,
}

/// A view was pushed onto the stack of the first pane of a kind, which has the focus now. Where
/// there is no such pane, nothing has changed.
pub open spec fn pushes(
    before: PaneLayoutView,
    after: PaneLayoutView,
    kind: Seq<char>,
    view: ViewId,
    change: Option<StackChange>,
) -> bool {
    &&& after.last_size == before.last_size
    &&& after.gap == before.gap
    &&& match find_kind(before.columns@, kind, 0, 0) {
        Some(place) => {
            let at = after.focused;
            &&& place == (at.0 as int, at.1 as int)
            &&& before.has_pane(at)
            &&& change == Some(
                StackChange {
                    left: before.pane(at).top(),
                    shown: view,
                    size: content_size(before.pane(at)),
                },
            )
            &&& same_but_stack(before.columns@, after.columns@, at)
            &&& after.pane(at).views@ == before.pane(at).views@.push(view)
        },
        None => change is None && after == before,
    }
}

/// The last view was popped off the stack of the focused pane. Where only its first view was left,
/// nothing has changed.
pub open spec fn pops(
    before: PaneLayoutView,
    after: PaneLayoutView,
    change: Option<StackChange>,
) -> bool {
    let at = before.focused;
    let stack = before.pane(at).views@;
    if before.columns@.len() > 0 && stack.len() > 1 {
        &&& after.last_size == before.last_size
        &&& after.gap == before.gap
        &&& after.focused == at
        &&& change == Some(
            StackChange {
                left: stack.last(),
                shown: stack[stack.len() - 2],
                size: content_size(before.pane(at)),
            },
        )
        &&& same_but_stack(before.columns@, after.columns@, at)
        &&& after.pane(at).views@ == stack.drop_last()
    } else {
        &&& change is None
        &&& after == before
    }
}

impl PaneLayoutView {
    fn locate(&self, kind: &str) -> (at: Option<(usize, usize)>)
        ensures
            match at {
                Some(at) => self.has_pane(at) && find_kind(self.columns@, kind@, 0, 0) == Some(
                    (at.0 as int, at.1 as int),
                ),
                None => find_kind(self.columns@, kind@, 0, 0) is None,
            },
    {
        let mut i: usize = 0;
        while i < self.columns.len()
            invariant
                i <= self.columns@.len(),
                find_kind(self.columns@, kind@, i as int, 0) == find_kind(
                    self.columns@,
                    kind@,
                    0,
                    0,
                ),
            decreases self.columns@.len() - i,
        {
            let mut j: usize = 0;
            while j < self.columns[i].panes.len()
                invariant
                    i < self.columns@.len(),
                    j <= self.columns@[i as int].panes@.len(),
                    find_kind(self.columns@, kind@, i as int, j as int) == find_kind(
                        self.columns@,
                        kind@,
                        0,
                        0,
                    ),
                decreases self.columns@[i as int].panes@.len() - j,
            {
                if same_text(self.columns[i].panes[j].kind.as_str(), kind) {
                    return Some((i, j));
                }
                j += 1;
            }
            i += 1;
        }
        None
    }

    /// Pushes a view onto the stack of the first pane of `kind`, and moves the focus there. Gives
    /// nothing, and changes nothing, when no pane of that kind is configured.
    pub fn push_to_pane(&mut self, kind: &str, view: ViewId) -> (change: Option<StackChange>)
        requires
            old(self).wf(),
        ensures
            final(self).wf(),
            pushes(*old(self), *final(self), kind@, view, change),
    {
        let at = match self.locate(kind) {
            Some(at) => at,
            None => return None,
        };
        let (i, j) = at;
        let ghost before = self.columns@;
        assert(self.columns@[i as int].panes@[j as int].wf());
        let depth: usize = self.columns[i].panes[j].views.len();
        let left: ViewId = self.columns[i].panes[j].views[depth - 1];
        let (_, size) = PaneLayoutView::content_area(&self.columns[i].panes[j]);
        self.columns[i].panes[j].views.push(view);
        self.focused = at;
        proof {
            lemma_total_width_prefix(before, self.columns@, before.len());
        }
        Some(StackChange { left, shown: view, size })
    }

    /// Shows a view in the "tracks" pane while the panes are on the screen. Gives nothing where it
    /// has to be shown on the full screen instead. This is for views that are opened past the
    /// commands (mouse clicks, context menu actions).
    pub fn show_view(&mut self, on_screen: bool, view: ViewId) -> (change: Option<StackChange>)
        requires
            old(self).wf(),
        ensures
            final(self).wf(),
            on_screen ==> pushes(*old(self), *final(self), "tracks"@, view, change),
            !on_screen ==> change is None && *final(self) == *old(self),
    {
        if on_screen {
            self.push_to_pane("tracks", view)
        } else {
            None
        }
    }

    /// Pops the focused pane's stack. Gives nothing, and changes nothing, when only its first view
    /// is left.
    pub fn pop_focused(&mut self) -> (change: Option<StackChange>)
        requires
            old(self).wf(),
        ensures
            final(self).wf(),
            pops(*old(self), *final(self), change),
    {
        if self.columns.len() == 0 {
            return None;
        }
        let (i, j) = self.focused;
        assert(self.columns@[i as int].panes@[j as int].wf());
        let ghost before = self.columns@;
        let depth: usize = self.columns[i].panes[j].views.len();
        if depth <= 1 {
            return None;
        }
        let left: ViewId = self.columns[i].panes[j].views[depth - 1];
        let shown: ViewId = self.columns[i].panes[j].views[depth - 2];
        let (_, size) = PaneLayoutView::content_area(&self.columns[i].panes[j]);
        self.columns[i].panes[j].views.truncate(depth - 1);
        assert(self.columns@[i as int].panes@[j as int].views@
            =~= before[i as int].panes@[j as int].views@.drop_last());
        proof {
            lemma_total_width_prefix(before, self.columns@, before.len());
        }
        Some(StackChange { left, shown, size })
    }
}

/// To pop a view right after it was pushed leaves every pane as it was, with the view that it showed
/// and the stack that it had. Only the focus stays on the pane that the view was pushed to.
pub proof fn lemma_pop_undoes_push(
    first: PaneLayoutView,
    second: PaneLayoutView,
    third: PaneLayoutView,
    kind: Seq<char>,
    view: ViewId,
    push: StackChange,
    pop: Option<StackChange>,
)
    requires
        first.wf(),
        pushes(first, second, kind, view, Some(push)),
        pops(second, third, pop),
    ensures
        pop == Some(StackChange { left: push.shown, shown: push.left, size: push.size }),
        third.focused == second.focused,
        third.last_size == first.last_size,
        third.gap == first.gap,
        same_but_stack(first.columns@, third.columns@, second.focused),
        third.pane(second.focused).views@ == first.pane(second.focused).views@,
{
    let at = second.focused;
    assert(first.columns@[at.0 as int].panes@[at.1 as int].wf());
    let stack = first.pane(at).views@;
    assert(stack.push(view).drop_last() =~= stack);
    assert forall|i: int| 0 <= i < first.columns@.len() && i != at.0 implies
        #[trigger] third.columns@[i] == first.columns@[i] by {
        assert(second.columns@[i] == first.columns@[i]);
    }
    assert forall|j: int|
        0 <= j < first.columns@[at.0 as int].panes@.len() && j != at.1 implies
        #[trigger] third.columns@[at.0 as int].panes@[j] == first.columns@[at.0 as int].panes@[j] by {
        assert(second.columns@[at.0 as int].panes@[j] == first.columns@[at.0 as int].panes@[j]);
    }
}

// Drawing

/// What a view says of its title.
#[derive(Clone, Debug)]
pub struct PaneTitle {
    pub title: String,
    /// Whether a click on the title opens a menu.
    pub has_menu: bool,
}

/// The title of a pane: a marker before it if there is a view to go back to, and one behind it if
/// it opens a menu.
pub open spec fn shown_title(pane: Pane, title: PaneTitle, values: ConfigValues) -> Seq<char> {
    let back = if pane.views@.len() > 1 {
        icon_text(values, IconKind::PaneBack)
    } else {
        Seq::empty()
    };
    let menu = if title.has_menu {
        icon_text(values, IconKind::PaneMenu)
    } else {
        Seq::empty()
    };
    back + title.title@ + menu
}

/// The strokes of the title row of a pane.
pub open spec fn title_strokes(
    pane: Pane,
    focused: bool,
    title: PaneTitle,
    values: ConfigValues,
) -> Seq<StrokeView> {
    let style = if focused {
        title_primary_style()
    } else {
        title_secondary_style()
    };
    let x = pane.rect.top_left.x as int;
    let y = pane.rect.top_left.y as int;
    let columns = pane.rect.width_spec();
    let text = shown_title(pane, title, values);
    seq![
        blank_at(x, y, columns, style),
        text_at(x + centred(text_width(text) as int, columns), y, text, style),
    ]
}

impl PaneLayoutView {
    /// The strokes of the title row of a pane. The title of the focused pane is highlighted.
    pub fn draw_title(
        &self,
        at: (usize, usize),
        title: &PaneTitle,
        values: &ConfigValues,
    ) -> (frame: Frame)
        requires
            self.wf(),
            self.has_pane(at),
        ensures
            frame@ == title_strokes(self.pane(at), at == self.focused, *title, *values),
    {
        let (i, j) = at;
        let pane = &self.columns[i].panes[j];
        assert(self.columns@[i as int].panes@[j as int].wf());
        let style = if i == self.focused.0 && j == self.focused.1 {
            Style::title_primary()
        } else {
            Style::title_secondary()
        };
        let mut text = String::new();
        assert(text@ =~= Seq::<char>::empty());
        if pane.views.len() > 1 {
            text = values.icon(IconKind::PaneBack);
        }
        text.append(title.title.as_str());
        if title.has_menu {
            text.append(values.icon(IconKind::PaneMenu).as_str());
        } else {
            assert(text@ + Seq::<char>::empty() =~= text@);
        }
        assert(text@ =~= shown_title(*pane, *title, *values));
        let columns: usize = pane.rect.width();
        let mut frame = Frame::new();
        frame.blank(pane.rect.top_left.x, pane.rect.top_left.y, columns, style);
        let indent: usize = centre(width(text.as_str()), columns);
        frame.print(
            pane.rect.top_left.x + indent,
            pane.rect.top_left.y,
            text.as_str(),
            style,
        );
        assert(frame@ =~= title_strokes(*pane, at == self.focused, *title, *values));
        frame
    }
}

// Events and commands

/// The place of the first pane that holds a cell, from column `i` and pane `j` on.
pub open spec fn find_cell(columns: Seq<Column>, x: int, y: int, i: int, j: int) -> Option<
    (int, int),
>
    decreases columns.len() - i, columns[i].panes@.len() - j,
{
    if i < 0 || j < 0 || i >= columns.len() {
        None
    } else if j >= columns[i].panes@.len() {
        find_cell(columns, x, y, i + 1, 0)
    } else if columns[i].panes@[j].rect.holds(x, y) {
        Some((i, j))
    } else {
        find_cell(columns, x, y, i, j + 1)
    }
}

/// What follows from an event.
#[derive(Clone, Copy, Debug, PartialEq, Eq, Structural)]
pub enum PaneAction {
    Ignore,
    /// The title of a view was clicked.
    TitleAction(ViewId),
    /// The title of a view was clicked with the right button.
    TitleRightClick(ViewId),
    /// The event is for a view.
    Forward(ViewId, Event),
}

pub open spec fn is_press(event: Event) -> bool {
    event matches Event::Mouse { event: MouseEvent::Press(_), .. }
}

pub open spec fn is_right_press(event: Event) -> bool {
    event matches Event::Mouse { event: MouseEvent::Press(MouseButton::Right), .. }
}

/// The place of a mouse event can be counted.
pub open spec fn event_fits(event: Event) -> bool {
    event matches Event::Mouse { offset, .. } ==> offset.x <= MOST_CELLS && offset.y <= MOST_CELLS
}

/// What an event comes to, and the pane that has the focus after it. A mouse event is for the pane
/// under the mouse; a press moves the focus there, and on the title row is for the title. A mouse
/// event on the padding goes no further. Any other event is for the focused pane.
pub open spec fn event_result(view: PaneLayoutView, event: Event) -> (PaneAction, (usize, usize)) {
    match event {
        Event::Mouse { position, offset, .. } => {
            let at = local_position(position, offset);
            match find_cell(view.columns@, at.x as int, at.y as int, 0, 0) {
                Some(place) => {
                    let target = (place.0 as usize, place.1 as usize);
                    let pane = view.pane(target);
                    let focus = if is_press(event) {
                        target
                    } else {
                        view.focused
                    };
                    let on_title = at.y == pane.rect.top_left.y;
                    if on_title && is_right_press(event) {
                        (PaneAction::TitleRightClick(pane.top()), focus)
                    } else if on_title && is_press(event) {
                        (PaneAction::TitleAction(pane.top()), focus)
                    } else if on_title || in_content(pane, at) {
                        (
                            PaneAction::Forward(
                                pane.top(),
                                event.shifted(content_corner(pane)),
                            ),
                            focus,
                        )
                    } else {
                        (PaneAction::Ignore, focus)
                    }
                },
                None => (PaneAction::Ignore, view.focused),
            }
        },
        _ => if view.columns@.len() > 0 {
            (PaneAction::Forward(view.pane(view.focused).top(), event), view.focused)
        } else {
            (PaneAction::Ignore, view.focused)
        },
    }
}

/// What a view has made of a command.
#[derive(Clone, Copy, Debug, PartialEq, Eq, Structural)]
pub enum ViewReply {
    Ignored,
    Consumed,
    /// The view wants another view to be shown.
    View(ViewId),
    /// The view wants a dialog to be shown.
    Modal,
}

/// What follows from a command.
#[derive(Clone, Copy, Debug, PartialEq, Eq, Structural)]
pub enum PaneCommand {
    /// The focus was moved; a view may have been left.
    Focused(Option<ViewId>),
    /// The command is for a view.
    Forward(ViewId),
    Ignore,
}

/// What a command comes to after a view has replied to it.
#[derive(Clone, Copy, Debug, PartialEq, Eq, Structural)]
pub enum PaneReply {
    /// The stack of a pane has changed.
    Changed(StackChange),
    /// The reply of the view stands.
    Reply(ViewReply),
}

impl PaneLayoutView {
    /// The pane under a cell, if there is one.
    pub fn pane_at(&self, position: Vec2) -> (at: Option<(usize, usize)>)
        ensures
            match at {
                Some(at) => self.has_pane(at) && find_cell(
                    self.columns@,
                    position.x as int,
                    position.y as int,
                    0,
                    0,
                ) == Some((at.0 as int, at.1 as int)),
                None => find_cell(self.columns@, position.x as int, position.y as int, 0, 0)
                    is None,
            },
    {
        let ghost x = position.x as int;
        let ghost y = position.y as int;
        let mut i: usize = 0;
        while i < self.columns.len()
            invariant
                i <= self.columns@.len(),
                x == position.x,
                y == position.y,
                find_cell(self.columns@, x, y, i as int, 0) == find_cell(
                    self.columns@,
                    x,
                    y,
                    0,
                    0,
                ),
            decreases self.columns@.len() - i,
        {
            let mut j: usize = 0;
            while j < self.columns[i].panes.len()
                invariant
                    i < self.columns@.len(),
                    j <= self.columns@[i as int].panes@.len(),
                    x == position.x,
                    y == position.y,
                    find_cell(self.columns@, x, y, i as int, j as int) == find_cell(
                        self.columns@,
                        x,
                        y,
                        0,
                        0,
                    ),
                decreases self.columns@[i as int].panes@.len() - j,
            {
                if self.columns[i].panes[j].rect.contains(position) {
                    return Some((i, j));
                }
                j += 1;
            }
            i += 1;
        }
        None
    }

    fn top_of(&self, at: (usize, usize)) -> (view: ViewId)
        requires
            self.wf(),
            self.has_pane(at),
        ensures
            view == self.pane(at).top(),
    {
        let (i, j) = at;
        assert(self.columns@[i as int].panes@[j as int].wf());
        let views = &self.columns[i].panes[j].views;
        views[views.len() - 1]
    }

    /// Acts on an event. Tells which view it is for.
    pub fn on_event(&mut self, event: Event) -> (action: PaneAction)
        requires
            old(self).wf(),
            event_fits(event),
        ensures
            final(self).wf(),
            only_focus_moved(*old(self), *final(self)),
            (action, final(self).focused) == event_result(*old(self), event),
    {
        match event {
            Event::Mouse { position, offset, event: mouse } => {
                let inside = local(position, offset);
                let target = match self.pane_at(inside) {
                    Some(target) => target,
                    None => return PaneAction::Ignore,
                };
                let view = self.top_of(target);
                let (i, j) = target;
                assert(self.columns@[i as int].panes@[j as int].wf());
                let on_title = inside.y == self.columns[i].panes[j].rect.top_left.y;
                let (corner, size) = PaneLayoutView::content_area(&self.columns[i].panes[j]);
                match mouse {
                    MouseEvent::Press(button) => {
                        self.focused = target;
                        if on_title {
                            return match button {
                                MouseButton::Right => PaneAction::TitleRightClick(view),
                                _ => PaneAction::TitleAction(view),
                            };
                        }
                    },
                    _ => {},
                }
                let in_view = corner.x <= inside.x && inside.x - corner.x < size.x && corner.y
                    <= inside.y && inside.y - corner.y < size.y;
                if on_title || in_view {
                    PaneAction::Forward(view, event.relativized(corner))
                } else {
                    PaneAction::Ignore
                }
            },
            _ => if self.columns.len() > 0 {
                PaneAction::Forward(self.top_of(self.focused), event)
            } else {
                PaneAction::Ignore
            },
        }
    }

    /// The view that the focused pane shows, if there is one; it is left when the screen is left.
    pub fn focused_view(&self) -> (view: Option<ViewId>)
        requires
            self.wf(),
        ensures
            view == if self.columns@.len() > 0 {
                Some(self.pane(self.focused).top())
            } else {
                None
            },
    {
        if self.columns.len() > 0 {
            Some(self.top_of(self.focused))
        } else {
            None
        }
    }

    /// Acts on a command, or tells which view it is for. The focus can only be moved where there
    /// are panes.
    pub fn on_command(&mut self, command: &Command) -> (result: PaneCommand)
        requires
            old(self).wf(),
            command is FocusPane ==> old(self).columns@.len() > 0,
        ensures
            final(self).wf(),
            only_focus_moved(*old(self), *final(self)),
            match *command {
                Command::FocusPane(direction) => {
                    &&& (final(self).focused.0 as int, final(self).focused.1 as int) == focus_after(
                        *old(self),
                        direction,
                    )
                    &&& result == PaneCommand::Focused(
                        if final(self).focused != old(self).focused {
                            Some(old(self).pane(old(self).focused).top())
                        } else {
                            None
                        },
                    )
                },
                _ => {
                    &&& *final(self) == *old(self)
                    &&& result == if old(self).columns@.len() > 0 {
                        PaneCommand::Forward(old(self).pane(old(self).focused).top())
                    } else {
                        PaneCommand::Ignore
                    }
                },
            },
    {
        match command {
            Command::FocusPane(direction) => PaneCommand::Focused(self.move_focus(*direction)),
            _ => match self.focused_view() {
                Some(view) => PaneCommand::Forward(view),
                None => PaneCommand::Ignore,
            },
        }
    }

    /// Takes in what the focused view has made of a command. A view that is to be shown goes onto
    /// the stack of the "tracks" pane, if there is one. `Back` pops the focused pane's stack if the
    /// view had no use for it.
    pub fn after_command(&mut self, command: &Command, reply: ViewReply) -> (result: PaneReply)
        requires
            old(self).wf(),
        ensures
            final(self).wf(),
            final(self).last_size == old(self).last_size,
            final(self).gap == old(self).gap,
            ({
                let place = find_kind(old(self).columns@, "tracks"@, 0, 0);
                let stack = old(self).pane(old(self).focused).views@;
                match reply {
                    ViewReply::View(view) if place is Some => {
                        let at = final(self).focused;
                        &&& place == Some((at.0 as int, at.1 as int))
                        &&& result == PaneReply::Changed(
                            StackChange {
                                left: old(self).pane(at).top(),
                                shown: view,
                                size: content_size(old(self).pane(at)),
                            },
                        )
                        &&& same_but_stack(old(self).columns@, final(self).columns@, at)
                        &&& final(self).pane(at).views@ == old(self).pane(at).views@.push(view)
                    },
                    ViewReply::Ignored if command is Back && old(self).columns@.len() > 0
                        && stack.len() > 1 => {
                        let at = old(self).focused;
                        &&& final(self).focused == at
                        &&& result == PaneReply::Changed(
                            StackChange {
                                left: stack.last(),
                                shown: stack[stack.len() - 2],
                                size: content_size(old(self).pane(at)),
                            },
                        )
                        &&& same_but_stack(old(self).columns@, final(self).columns@, at)
                        &&& final(self).pane(at).views@ == stack.drop_last()
                    },
                    _ => {
                        &&& result == PaneReply::Reply(reply)
                        &&& *final(self) == *old(self)
                    },
                }
            }),
    {
        match reply {
            ViewReply::View(view) => match self.push_to_pane("tracks", view) {
                Some(change) => PaneReply::Changed(change),
                None => PaneReply::Reply(reply),
            },
            ViewReply::Ignored => {
                let back = match command {
                    Command::Back => true,
                    _ => false,
                };
                if back {
                    if let Some(change) = self.pop_focused() {
                        return PaneReply::Changed(change);
                    }
                }
                PaneReply::Reply(reply)
            },
            _ => PaneReply::Reply(reply),
        }
    }
}

// The placeholder

/// Empty pane content shown until a real view is swapped in (e.g. the tracks pane before a
/// playlist was opened).
#[derive(Clone, Debug)]
pub struct PlaceholderPane {
    pub title: String,
    pub text: String,
}

impl PlaceholderPane {
    pub fn new(title: String, text: String) -> (pane: PlaceholderPane)
        ensures
            pane == (PlaceholderPane { title, text }),
    {
        PlaceholderPane { title, text }
    }

    /// The text in the middle of the pane.
    pub fn draw(&self, size: Vec2) -> (frame: Frame)
        ensures
            frame@ == seq![
                text_at(
                    centred(text_width(self.text@) as int, size.x as int),
                    size.y as int / 2,
                    self.text@,
                    secondary_style(),
                ),
            ],
    {
        let mut frame = Frame::new();
        let x: usize = centre(width(self.text.as_str()), size.x);
        frame.print(x, size.y / 2, self.text.as_str(), Style::secondary());
        assert(frame@ =~= seq![
            text_at(
                centred(text_width(self.text@) as int, size.x as int),
                size.y as int / 2,
                self.text@,
                secondary_style(),
            ),
        ]);
        frame
    }
}

// What holds of the layout as a whole

/// In a column for which no heights are set, every pane but the last has an equal share of the rows,
/// and the last has what is left: less than a row more for each pane. So no pane is without rows
/// while there are as many as panes.
pub proof fn lemma_panes_share_the_column(panes: Seq<Pane>, size_y: int, j: int, k: int)
    requires
        0 <= size_y,
        0 <= j < panes.len(),
        0 <= k < panes.len(),
        forall|i: int| 0 <= i < panes.len() ==> (#[trigger] panes[i]).height_pct is None,
    ensures
        j + 1 < panes.len() ==> pane_height(panes, size_y, j) == size_y / panes.len() as int,
        size_y / panes.len() as int <= pane_height(panes, size_y, j) < size_y / panes.len() as int
            + panes.len(),
        pane_height(panes, size_y, j) - pane_height(panes, size_y, k) < panes.len(),
        size_y >= panes.len() ==> pane_height(panes, size_y, j) > 0,
{
    lemma_equal_share(panes, size_y, j);
    lemma_equal_share(panes, size_y, k);
    let n = panes.len() as int;
    if size_y >= n {
        assert(size_y / n >= 1) by (nonlinear_arith)
            requires
                size_y >= n,
                n > 0,
        ;
    }
}

proof fn lemma_equal_share(panes: Seq<Pane>, size_y: int, j: int)
    requires
        0 <= size_y,
        0 <= j < panes.len(),
        forall|i: int| 0 <= i < panes.len() ==> (#[trigger] panes[i]).height_pct is None,
    ensures
        pane_top(panes, size_y, j) == j * (size_y / panes.len() as int),
        j + 1 < panes.len() ==> pane_height(panes, size_y, j) == size_y / panes.len() as int,
        j + 1 == panes.len() ==> pane_height(panes, size_y, j) == size_y - (panes.len() - 1) * (
        size_y / panes.len() as int),
        size_y / panes.len() as int <= pane_height(panes, size_y, j) < size_y / panes.len() as int
            + panes.len(),
    decreases j,
{
    let n = panes.len() as int;
    let q = size_y / n;
    if j > 0 {
        lemma_equal_share(panes, size_y, j - 1);
    }
    assert(j * q == if j > 0 {
        (j - 1) * q + q
    } else {
        0
    }) by (nonlinear_arith)
        requires
            0 <= j,
    ;
    assert(n * q <= size_y < n * q + n && 0 <= q) by (nonlinear_arith)
        requires
            q == size_y / n,
            n > 0,
            0 <= size_y,
    ;
    assert(j * q + q <= n * q) by (nonlinear_arith)
        requires
            j + 1 <= n,
            0 <= q,
    ;
    assert((n - 1) * q + q == n * q) by (nonlinear_arith);
    assert(panes[j].height_pct is None);
}

/// The sum of the heights that are set for the first `n` panes, in percent.
pub open spec fn total_height(panes: Seq<Pane>, n: nat) -> int
    decreases n,
{
    if n == 0 {
        0
    } else {
        total_height(panes, (n - 1) as nat) + match panes[n - 1].height_pct {
            Some(pct) => pct as int,
            None => 0,
        }
    }
}

/// A pane for which a height is set has that percentage of the rows, rounded down, unless it is the
/// last of its column. This holds while the heights down to that pane come to no more than all rows.
pub proof fn lemma_panes_have_the_heights_set(panes: Seq<Pane>, size_y: int, j: int)
    requires
        0 <= size_y,
        0 <= j < panes.len() - 1,
        forall|i: int| 0 <= i <= j ==> (#[trigger] panes[i]).height_pct is Some,
        total_height(panes, (j + 1) as nat) <= 100,
    ensures
        100 * pane_height(panes, size_y, j) <= size_y * panes[j].height_pct->0 < 100 * (pane_height(
            panes,
            size_y,
            j,
        ) + 1),
{
    lemma_tops_keep_to_the_heights(panes, size_y, j);
    let pct = panes[j].height_pct->0 as int;
    let t = total_height(panes, j as nat);
    let top = pane_top(panes, size_y, j);
    let share = size_y * pct / 100;
    assert(panes[j].height_pct is Some);
    assert(100 * share <= size_y * pct < 100 * (share + 1) && share <= size_y - top)
        by (nonlinear_arith)
        requires
            share == size_y * pct / 100,
            100 * top <= size_y * t,
            t + pct <= 100,
            size_y >= 0,
            pct >= 0,
    ;
}

proof fn lemma_tops_keep_to_the_heights(panes: Seq<Pane>, size_y: int, j: int)
    requires
        0 <= size_y,
        0 <= j < panes.len(),
        forall|i: int| 0 <= i < j ==> (#[trigger] panes[i]).height_pct is Some,
    ensures
        0 <= 100 * pane_top(panes, size_y, j) <= size_y * total_height(panes, j as nat),
    decreases j,
{
    lemma_pane_top_fits(panes, size_y, j);
    if j > 0 {
        lemma_tops_keep_to_the_heights(panes, size_y, j - 1);
        let pct = panes[j - 1].height_pct->0 as int;
        let t = total_height(panes, (j - 1) as nat);
        let top = pane_top(panes, size_y, j - 1);
        let h = pane_height(panes, size_y, j - 1);
        assert(panes[j - 1].height_pct is Some);
        assert(100 * (top + h) <= size_y * (t + pct)) by (nonlinear_arith)
            requires
                100 * top <= size_y * t,
                h <= size_y * pct / 100,
                size_y >= 0,
                pct >= 0,
        ;
    } else {
        assert(size_y * 0 == 0) by (nonlinear_arith);
    }
}

/// Every column but the last has its percentage of the columns of the screen, rounded down; the last
/// one has no less than that.
pub proof fn lemma_columns_have_their_share(columns: Seq<Column>, size_x: int, i: int)
    requires
        0 <= size_x,
        0 <= i < columns.len(),
        total_width(columns, columns.len()) <= 100,
    ensures
        ({
            let width = column_width(columns, size_x, i);
            let share = size_x * columns[i].width_pct;
            &&& i + 1 < columns.len() ==> 100 * width <= share < 100 * (width + 1)
            &&& i + 1 == columns.len() ==> share <= 100 * width
        }),
{
    lemma_column_left_fits(columns, size_x, i);
    let pct = columns[i].width_pct as int;
    if i + 1 == columns.len() {
        let t = total_width(columns, i as nat);
        let left = column_left(columns, size_x, i);
        assert(total_width(columns, (i + 1) as nat) == t + pct);
        assert(size_x * pct <= 100 * (size_x - left)) by (nonlinear_arith)
            requires
                100 * left <= size_x * t,
                t + pct <= 100,
                size_x >= 0,
        ;
    }
}

/// A pane takes up its share of the screen but for the gaps: one behind it, and one before it where
/// it is the first.
pub proof fn lemma_panes_take_up_their_share(
    columns: Seq<Column>,
    gap: Vec2,
    size: Vec2,
    i: int,
    j: int,
)
    requires
        0 <= i < columns.len(),
        0 <= j < columns[i].panes@.len(),
        total_width(columns, columns.len()) <= 100,
        column_width(columns, size.x as int, i) > 2 * gap.x,
        pane_height(columns[i].panes@, size.y as int, j) > 2 * gap.y,
    ensures
        ({
            let rect = pane_rect(columns, gap, size, i, j);
            let width = column_width(columns, size.x as int, i);
            let height = pane_height(columns[i].panes@, size.y as int, j);
            &&& i == 0 ==> rect.width_spec() + 2 * gap.x == width
            &&& i > 0 ==> rect.width_spec() + gap.x == width
            &&& j == 0 ==> rect.height_spec() + 2 * gap.y == height
            &&& j > 0 ==> rect.height_spec() + gap.y == height
        }),
{
    lemma_column_left_fits(columns, size.x as int, i);
    lemma_pane_top_fits(columns[i].panes@, size.y as int, j);
}

/// The pane with the focus moved to another pane.
pub open spec fn with_focus(view: PaneLayoutView, at: (int, int)) -> PaneLayoutView {
    PaneLayoutView { focused: (at.0 as usize, at.1 as usize), ..view }
}

/// A step to the left or right leads to the neighbouring column, a step up or down to the
/// neighbouring pane, and nowhere else; at the edge the focus stays.
pub proof fn lemma_focus_goes_to_the_neighbour(view: PaneLayoutView)
    requires
        view.wf(),
        view.columns@.len() > 0,
    ensures
        ({
            let (col, row) = (view.focused.0 as int, view.focused.1 as int);
            let left = focus_after(view, PaneDirection::Left);
            let right = focus_after(view, PaneDirection::Right);
            let up = focus_after(view, PaneDirection::Up);
            let down = focus_after(view, PaneDirection::Down);
            &&& left.0 == max(col - 1, 0)
            &&& right.0 == min(col + 1, view.columns@.len() - 1)
            &&& left.1 <= row && right.1 <= row
            &&& row < view.columns@[left.0].panes@.len() ==> left.1 == row
            &&& row < view.columns@[right.0].panes@.len() ==> right.1 == row
            &&& up == (col, max(row - 1, 0))
            &&& down == (col, min(row + 1, view.columns@[col].panes@.len() - 1))
        }),
{
    assert(view.columns@[view.focused.0 as int].panes@.len() > 0);
}

/// A step and the step back come to the same pane, unless the column between has fewer panes.
pub proof fn lemma_steps_of_the_focus_undo_each_other(view: PaneLayoutView)
    requires
        view.wf(),
        view.columns@.len() > 0,
    ensures
        ({
            let at = (view.focused.0 as int, view.focused.1 as int);
            let right = focus_after(view, PaneDirection::Right);
            let down = focus_after(view, PaneDirection::Down);
            &&& right.0 != at.0 && right.1 == at.1 ==> focus_after(
                with_focus(view, right),
                PaneDirection::Left,
            ) == at
            &&& down != at ==> focus_after(with_focus(view, down), PaneDirection::Up) == at
        }),
{
    let (col, row) = (view.focused.0 as int, view.focused.1 as int);
    assert(view.columns.len() == view.columns@.len());
    assert(view.columns@[col].panes.len() == view.columns@[col].panes@.len());
    assert(view.columns@[col].panes@.len() > 0);
    if col + 1 < view.columns@.len() {
        assert(view.columns@[col + 1].panes@.len() > 0);
        assert(view.columns@[col + 1].panes.len() == view.columns@[col + 1].panes@.len());
    }
}

/// The pane that is found under a cell holds the cell, and where none is found, none does.
pub proof fn lemma_cells_find_their_pane(columns: Seq<Column>, x: int, y: int, i: int, j: int)
    requires
        0 <= i,
        0 <= j,
    ensures
        match find_cell(columns, x, y, i, j) {
            Some(at) => i <= at.0 < columns.len() && 0 <= at.1 < columns[at.0].panes@.len()
                && columns[at.0].panes@[at.1].rect.holds(x, y),
            None => forall|k: int, l: int|
                (i < k < columns.len() && 0 <= l < columns[k].panes@.len() || k == i < columns.len()
                    && j <= l < columns[k].panes@.len())
                    ==> !(#[trigger] columns[k].panes@[l]).rect.holds(x, y),
        },
    decreases columns.len() - i, columns[i].panes@.len() - j,
{
    if i < columns.len() {
        if j >= columns[i].panes@.len() {
            lemma_cells_find_their_pane(columns, x, y, i + 1, 0);
            if find_cell(columns, x, y, i, j) is None {
                assert forall|k: int, l: int|
                    (i < k < columns.len() && 0 <= l < columns[k].panes@.len() || k == i
                        < columns.len() && j <= l < columns[k].panes@.len()) implies !(
                #[trigger] columns[k].panes@[l]).rect.holds(x, y) by {
                    if k == i + 1 {
                        assert(0 <= l);
                    }
                }
            }
        } else if !columns[i].panes@[j].rect.holds(x, y) {
            lemma_cells_find_their_pane(columns, x, y, i, j + 1);
        }
    }
}

/// A mouse event on the content of a pane is for the view that the pane shows, which sees it where
/// the mouse is on its content; a press also moves the focus to that pane.
pub proof fn lemma_mouse_is_for_the_pane_under_it(
    view: PaneLayoutView,
    position: Vec2,
    offset: Vec2,
    mouse: MouseEvent,
)
    requires
        view.wf(),
        position.x >= offset.x,
        position.y >= offset.y,
        offset.x <= MOST_CELLS,
        offset.y <= MOST_CELLS,
    ensures
        ({
            let event = Event::Mouse { position, offset, event: mouse };
            let cell = Vec2 {
                x: (position.x - offset.x) as usize,
                y: (position.y - offset.y) as usize,
            };
            let (action, focus) = event_result(view, event);
            match find_cell(view.columns@, cell.x as int, cell.y as int, 0, 0) {
                Some(place) => {
                    let at = (place.0 as usize, place.1 as usize);
                    let pane = view.pane(at);
                    &&& focus == if mouse is Press {
                        at
                    } else {
                        view.focused
                    }
                    &&& in_content(pane, cell) ==> {
                        &&& action matches PaneAction::Forward(id, forwarded)
                        &&& id == pane.top()
                        &&& forwarded matches Event::Mouse { position: to, offset: from, event: same }
                        &&& same == mouse && to == position
                        &&& to.x - from.x == cell.x - content_corner(pane).x
                        &&& to.y - from.y == cell.y - content_corner(pane).y
                    }
                    &&& cell.y == pane.rect.top_left.y && mouse is Press ==> action == if mouse
                        == MouseEvent::Press(MouseButton::Right) {
                        PaneAction::TitleRightClick(pane.top())
                    } else {
                        PaneAction::TitleAction(pane.top())
                    }
                },
                None => action is Ignore && focus == view.focused,
            }
        }),
{
    let x = position.x - offset.x;
    let y = position.y - offset.y;
    lemma_cells_find_their_pane(view.columns@, x, y, 0, 0);
    if let Some(place) = find_cell(view.columns@, x, y, 0, 0) {
        assert(view.columns@[place.0].panes@[place.1].wf());
        assert(view.columns.len() == view.columns@.len());
        assert(view.columns@[place.0].panes.len() == view.columns@[place.0].panes@.len());
    }
}

/// Any other event is for the focused pane, as it is.
pub proof fn lemma_keys_are_for_the_focused_pane(view: PaneLayoutView, event: Event)
    requires
        view.wf(),
        view.columns@.len() > 0,
        !(event is Mouse),
    ensures
        event_result(view, event) == (
            PaneAction::Forward(view.pane(view.focused).top(), event),
            view.focused,
        ),
{
}

/// The pane that is found for a kind is of that kind, and none before it is; where none is found,
/// there is none.
pub proof fn lemma_kinds_find_their_pane(columns: Seq<Column>, kind: Seq<char>, i: int, j: int)
    requires
        0 <= i,
        0 <= j,
    ensures
        match find_kind(columns, kind, i, j) {
            Some(at) => i <= at.0 < columns.len() && 0 <= at.1 < columns[at.0].panes@.len()
                && columns[at.0].panes@[at.1].kind@ == kind && (forall|k: int, l: int|
                (i < k < at.0 && 0 <= l < columns[k].panes@.len() || k == i && j <= l
                    < columns[k].panes@.len() && (k < at.0 || l < at.1) || i < k == at.0 && 0 <= l
                    < at.1) ==> (#[trigger] columns[k].panes@[l]).kind@ != kind),
            None => forall|k: int, l: int|
                (i < k < columns.len() && 0 <= l < columns[k].panes@.len() || k == i < columns.len()
                    && j <= l < columns[k].panes@.len()) ==> (
                #[trigger] columns[k].panes@[l]).kind@ != kind,
        },
    decreases columns.len() - i, columns[i].panes@.len() - j,
{
    if i < columns.len() {
        if j >= columns[i].panes@.len() {
            lemma_kinds_find_their_pane(columns, kind, i + 1, 0);
        } else if columns[i].panes@[j].kind@ != kind {
            lemma_kinds_find_their_pane(columns, kind, i, j + 1);
        }
    }
}

/// Where a view is known for every entry of a column, each entry has its pane, in their order, with
/// its kind, its view and its height.
pub proof fn lemma_entries_become_panes(
    panes: Seq<Pane>,
    config: ColumnConfig,
    padding: Vec2,
    views: Seq<Option<ViewId>>,
    n: nat,
)
    requires
        panes_are(panes, config, padding, views, n),
        n <= views.len(),
        forall|i: int| 0 <= i < n ==> (#[trigger] views[i]) is Some,
    ensures
        panes.len() == n,
        forall|i: int|
            0 <= i < n ==> (#[trigger] panes[i]).kind@ == config.panes@[i]@ && panes[i].views@
                == seq![views[i]->0] && panes[i].padding == padding && panes[i].height_pct
                == configured_height(config, i),
    decreases n,
{
    if n > 0 {
        assert(views[n - 1] is Some);
        lemma_entries_become_panes(panes.drop_last(), config, padding, views, (n - 1) as nat);
        assert forall|i: int| 0 <= i < n implies (#[trigger] panes[i]).kind@ == config.panes@[i]@
            && panes[i].views@ == seq![views[i]->0] && panes[i].padding == padding
            && panes[i].height_pct == configured_height(config, i) by {
            if i < n - 1 {
                assert(panes.drop_last()[i] == panes[i]);
            }
        }
    }
}

/// A setting for one direction goes before the one for both, and either before the default.
pub proof fn lemma_spacing_is_overridden(own: u8, both: Option<u8>, default: u8)
    ensures
        spacing(Some(own), both, default) == own,
        both matches Some(cells) ==> spacing(None, both, default) == cells,
        spacing(None, None, default) == default,
{
}

/// The gap is one cell by default, and there is no padding by default.
pub proof fn lemma_default_spacing(config: LayoutConfig)
    requires
        config.gap is None,
        config.padding is None,
    ensures
        config.gap_x is None ==> configured_gap(config).x == 1,
        config.gap_y is None ==> configured_gap(config).y == 1,
        config.padding_x is None ==> configured_padding(config).x == 0,
        config.padding_y is None ==> configured_padding(config).y == 0,
        config.gap_x matches Some(cells) ==> configured_gap(config).x == cells,
        config.gap_y matches Some(cells) ==> configured_gap(config).y == cells,
        config.padding_x matches Some(cells) ==> configured_padding(config).x == cells,
        config.padding_y matches Some(cells) ==> configured_padding(config).y == cells,
{
}

/// The title of a pane is painted over its first row, in the middle of it, and highlighted just if
/// the pane is focused.
pub proof fn lemma_titles_stand_in_the_first_row(
    pane: Pane,
    focused: bool,
    title: PaneTitle,
    values: ConfigValues,
)
    requires
        pane.wf(),
    ensures
        ({
            let strokes = title_strokes(pane, focused, title, values);
            let text = shown_title(pane, title, values);
            let columns = pane.rect.width_spec();
            &&& strokes.len() == 2
            &&& strokes[0].y == pane.rect.top_left.y && strokes[1].y == pane.rect.top_left.y
            &&& strokes[0].x == pane.rect.top_left.x && strokes[0].ink == InkView::Blank(columns)
            &&& strokes[1].ink == InkView::Text(text)
            &&& text_width(text) <= columns ==> ({
                let before = strokes[1].x - pane.rect.top_left.x;
                let after = columns - text_width(text) - before;
                0 <= before <= after <= before + 1
            })
            &&& focused ==> strokes[1].style == title_primary_style()
            &&& !focused ==> strokes[1].style == title_secondary_style()
            &&& strokes[0].style == strokes[1].style
        }),
{
}

/// A title shows what can be done with the pane: a marker before it where there is a view to go back
/// to, and one behind it where it opens a menu.
pub proof fn lemma_titles_show_what_can_be_done(pane: Pane, title: PaneTitle, values: ConfigValues)
    ensures
        ({
            let back = icon_text(values, IconKind::PaneBack);
            let menu = icon_text(values, IconKind::PaneMenu);
            let deep = pane.views@.len() > 1;
            &&& !deep && !title.has_menu ==> shown_title(pane, title, values) == title.title@
            &&& deep && !title.has_menu ==> shown_title(pane, title, values) == back
                + title.title@
            &&& !deep && title.has_menu ==> shown_title(pane, title, values) == title.title@ + menu
            &&& deep && title.has_menu ==> shown_title(pane, title, values) == back + title.title@
                + menu
        }),
{
    let none = Seq::<char>::empty();
    assert(none + title.title@ =~= title.title@);
    assert(title.title@ + none =~= title.title@);
    let back = icon_text(values, IconKind::PaneBack);
    assert(back + title.title@ + none =~= back + title.title@);
    assert(none + title.title@ + none =~= title.title@);
}

/// A configuration can be used just where it has columns that are together no wider than the
/// screen: with one column more, by no more than what is left.
pub proof fn lemma_columns_have_to_fit(columns: Seq<ColumnConfig>, column: ColumnConfig)
    ensures
        configured_width(columns.push(column), (columns.len() + 1) as nat) == configured_width(
            columns,
            columns.len(),
        ) + column.width,
        configured_width(Seq::empty(), 0) == 0,
{
    lemma_width_of_the_first(columns, columns.push(column), columns.len());
}

proof fn lemma_width_of_the_first(a: Seq<ColumnConfig>, b: Seq<ColumnConfig>, n: nat)
    requires
        n <= a.len(),
        n <= b.len(),
        forall|i: int| 0 <= i < n ==> a[i] == b[i],
    ensures
        configured_width(a, n) == configured_width(b, n),
    decreases n,
{
    if n > 0 {
        lemma_width_of_the_first(a, b, (n - 1) as nat);
        assert(a[n - 1] == b[n - 1]);
    }
}

/// A configuration without columns, or with columns wider than the screen, cannot be used; any other
/// can.
pub proof fn lemma_what_can_be_laid_out(config: LayoutConfig)
    ensures
        is_valid(config) ==> config.columns@.len() > 0,
        config.columns@.len() == 1 ==> (is_valid(config) <==> config.columns@[0].width <= 100),
        config.columns@.len() > 0 && configured_width(config.columns@, config.columns@.len()) > 100
            ==> !is_valid(config),
        config.columns@.len() > 0 && configured_width(config.columns@, config.columns@.len())
            == 100 ==> is_valid(config),
{
    if config.columns@.len() == 1 {
        assert(configured_width(config.columns@, 0) == 0);
        assert(configured_width(config.columns@, 1) == config.columns@[0].width);
    }
}

/// Where a view is known for some entry of each column, each column of the configuration has its
/// column, in their order and with its width; a column without any view is left out.
pub proof fn lemma_columns_of_the_configuration(
    columns: Seq<Column>,
    config: Seq<ColumnConfig>,
    padding: Vec2,
    views: Seq<Vec<Option<ViewId>>>,
    n: nat,
    known: Seq<int>,
)
    requires
        columns_are(columns, config, padding, views, n),
        n <= config.len(),
        known.len() == config.len(),
        forall|i: int|
            0 <= i < n ==> 0 <= #[trigger] known[i] < config[i].panes@.len() && views[i]@[known[i]]
                is Some,
    ensures
        columns.len() == n,
        forall|i: int| 0 <= i < n ==> (#[trigger] columns[i]).width_pct == config[i].width,
        forall|i: int|
            0 <= i < n ==> panes_are(
                (#[trigger] columns[i]).panes@,
                config[i],
                padding,
                views[i]@,
                config[i].panes@.len(),
            ),
    decreases n,
{
    if n > 0 {
        assert(0 <= known[n - 1] < config[n - 1].panes@.len());
        lemma_any_view_is_known(views[n - 1]@, config[n - 1].panes@.len(), known[n - 1]);
        let before = columns.drop_last();
        lemma_columns_of_the_configuration(
            before,
            config,
            padding,
            views,
            (n - 1) as nat,
            known,
        );
        assert forall|i: int| 0 <= i < n implies (#[trigger] columns[i]).width_pct
            == config[i].width && panes_are(
            columns[i].panes@,
            config[i],
            padding,
            views[i]@,
            config[i].panes@.len(),
        ) by {
            if i < n - 1 {
                assert(before[i] == columns[i]);
            }
        }
    }
}

/// A view is known for some of the first entries just where one of them has one.
pub proof fn lemma_any_view_is_known(views: Seq<Option<ViewId>>, n: nat, i: int)
    ensures
        0 <= i < n && views[i] is Some ==> any_view(views, n),
        any_view(views, n) ==> exists|k: int| 0 <= k < n && (#[trigger] views[k]) is Some,
    decreases n,
{
    if n > 0 {
        lemma_any_view_is_known(views, (n - 1) as nat, i);
    }
}

/// Heights count just where there is one for each entry of the column.
pub proof fn lemma_heights_count_if_all_are_set(config: ColumnConfig, heights: Vec<u8>, j: int)
    ensures
        config.heights is None ==> configured_height(config, j) is None,
        config.heights == Some(heights) && heights@.len() == config.panes@.len()
            ==> configured_height(config, j) == Some(heights@[j]),
        config.heights == Some(heights) && heights@.len() != config.panes@.len()
            ==> configured_height(config, j) is None,
{
}

/// The view of a pane fills it below the title and inside the padding: the padding before it, the
/// view and the padding behind it make up the pane.
pub proof fn lemma_view_is_inside_the_padding(pane: Pane)
    requires
        pane.wf(),
        pane.rect.wf(),
        2 * pane.padding.x <= pane.rect.width_spec(),
        TITLE_HEIGHT + 2 * pane.padding.y <= pane.rect.height_spec(),
    ensures
        ({
            let corner = content_corner(pane);
            let size = content_size(pane);
            &&& corner.x == pane.rect.top_left.x + pane.padding.x
            &&& corner.x + size.x + pane.padding.x == pane.rect.bottom_right.x + 1
            &&& corner.y == pane.rect.top_left.y + TITLE_HEIGHT + pane.padding.y
            &&& corner.y + size.y + pane.padding.y == pane.rect.bottom_right.y + 1
        }),
{
}

/// A view that is pushed shows in the pane of its kind, in place of the one that showed there, at
/// the size that the pane has for it; the pane has the focus then, and nothing else changes.
pub proof fn lemma_pushed_view_shows(
    before: PaneLayoutView,
    after: PaneLayoutView,
    kind: Seq<char>,
    view: ViewId,
    change: Option<StackChange>,
)
    requires
        before.wf(),
        pushes(before, after, kind, view, change),
    ensures
        after.last_size == before.last_size && after.gap == before.gap,
        change is Some <==> find_kind(before.columns@, kind, 0, 0) is Some,
        change is None ==> after == before,
        change matches Some(change) ==> {
            let at = after.focused;
            &&& find_kind(before.columns@, kind, 0, 0) == Some((at.0 as int, at.1 as int))
            &&& change.shown == view && after.pane(at).top() == view
            &&& change.left == before.pane(at).top()
            &&& change.size == content_size(before.pane(at))
            &&& after.pane(at).views@.len() == before.pane(at).views@.len() + 1
        },
{
}

/// A view that is popped makes room for the one below it. The last view of a pane stays.
pub proof fn lemma_popped_view_makes_room(
    before: PaneLayoutView,
    after: PaneLayoutView,
    change: Option<StackChange>,
)
    requires
        before.wf(),
        pops(before, after, change),
    ensures
        after.last_size == before.last_size && after.gap == before.gap,
        after.focused == before.focused,
        change is Some <==> before.columns@.len() > 0 && before.pane(before.focused).views@.len()
            > 1,
        change is None ==> after == before,
        change matches Some(change) ==> {
            let at = before.focused;
            &&& change.left == before.pane(at).top()
            &&& change.shown == after.pane(at).top()
            &&& change.size == content_size(before.pane(at))
            &&& after.pane(at).views@.len() + 1 == before.pane(at).views@.len()
        },
{
}

} // verus!
