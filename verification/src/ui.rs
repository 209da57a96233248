//! What the screen shows of the session: which lines, and how each stretch
//! of a line is styled.

use crate::app::{App, AppView};
use crate::layout::{position_before, rows};
use vstd::prelude::*;

verus! {

/// How a character is shown.
#[derive(Clone, Copy, Debug, PartialEq, Eq, Structural)]
pub enum Style {
    /// Outside the sample.
    Dim,
    /// Typed already.
    Typed,
    /// Under the cursor.
    Cursor,
    /// Still to be typed.
    Pending,
}

/// The columns from `start` up to but not including `end` of a line, all in
/// one style.
#[derive(Clone, Copy, Debug, PartialEq, Eq, Structural)]
pub struct Span {
    pub start: usize,
    pub end: usize,
    pub style: Style,
}

/// One line on the screen: its number among the display lines, and its
/// spans from left to right.
#[derive(Debug, PartialEq, Eq)]
pub struct Row {
    pub line: usize,
    pub spans: Vec<Span>,
}

/// The screen: the number of rows left empty above the text, and the lines
/// shown below them.
#[derive(Debug, PartialEq, Eq)]
pub struct Screen {
    pub first_row: usize,
    pub rows: Vec<Row>,
}

/// The lowest height at which the screen has room for the text.
pub const MIN_HEIGHT: usize = 6;

/// The style of the character at `pos`, where the sample starts at `start`,
/// the cursor stands at `cursor` and the sample ends at `end`: dim before
/// the sample and from its end on, typed before the cursor, pending after
/// it.
pub open spec fn style_at(
    pos: (usize, usize),
    start: (usize, usize),
    cursor: (usize, usize),
    end: (usize, usize),
) -> Style {
    if position_before(pos, start) {
        Style::Dim
    } else if position_before(pos, cursor) {
        Style::Typed
    } else if pos == cursor {
        Style::Cursor
    } else if position_before(pos, end) {
        Style::Pending
    } else {
        Style::Dim
    }
}

/// The spans lie side by side from column 0 to column `n`, and none is
/// empty.
pub open spec fn covers(spans: Seq<Span>, n: int) -> bool {
    &&& forall|k: int| 0 <= k < spans.len() ==> (#[trigger] spans[k]).start < spans[k].end
    &&& forall|j: int, k: int|
        0 <= j && k == j + 1 && k < spans.len() ==> (#[trigger] spans[j]).end == (
        #[trigger] spans[k]).start
    &&& if spans.len() == 0 {
        n == 0
    } else {
        spans[0].start == 0 && spans[spans.len() - 1].end == n
    }
}

/// The spans are those of line `line` with `n` columns: they cover it, each
/// column has the style of its position, and neighbours differ in style.
pub open spec fn spans_of(
    spans: Seq<Span>,
    line: usize,
    n: int,
    start: (usize, usize),
    cursor: (usize, usize),
    end: (usize, usize),
) -> bool {
    &&& covers(spans, n)
    &&& forall|k: int, c: usize|
        0 <= k < spans.len() && (#[trigger] spans[k]).start <= c < spans[k].end ==> spans[k].style
            == #[trigger] style_at((line, c), start, cursor, end)
    &&& forall|j: int, k: int|
        0 <= j && k == j + 1 && k < spans.len() ==> (#[trigger] spans[j]).style != (
        #[trigger] spans[k]).style
}

/// The number of rows for text on a screen of `height` rows: two go to the
/// border.
pub open spec fn text_rows(height: usize) -> int {
    height - 2
}

/// The row of the screen on which the centred line stands.
pub open spec fn rows_to_center(height: usize) -> int {
    text_rows(height) / 2 - 2
}

/// The rows left empty above the text while the centred line is near the top.
pub open spec fn first_row(v: AppView, height: usize) -> int {
    if rows_to_center(height) >= v.display_line {
        rows_to_center(height) - v.display_line
    } else {
        0
    }
}

/// The display lines that are above the screen.
pub open spec fn skipped_lines(v: AppView, height: usize) -> int {
    let wanted = if v.display_line >= rows_to_center(height) {
        v.display_line - rows_to_center(height)
    } else {
        0
    };
    if wanted < v.lines.len() {
        wanted
    } else {
        v.lines.len() as int
    }
}

/// The number of display lines on the screen.
pub open spec fn shown_lines(v: AppView, height: usize) -> int {
    let left = v.lines.len() - skipped_lines(v, height);
    let room = text_rows(height) - first_row(v, height);
    if left < room {
        left
    } else {
        room
    }
}

/// `screen` shows the session `v` at the height `height`.
pub open spec fn shows(screen: Screen, v: AppView, height: usize) -> bool {
    &&& screen.first_row == first_row(v, height)
    &&& screen.rows@.len() == shown_lines(v, height)
    &&& forall|k: int|
        0 <= k < screen.rows@.len() ==> {
            let row = #[trigger] screen.rows@[k];
            &&& row.line == skipped_lines(v, height) + k
            &&& spans_of(
                row.spans@,
                row.line,
                v.lines[row.line as int].len() as int,
                v.index[v.sample_start_index as int],
                v.index[v.sample_start_index + v.cur_char],
                v.index[v.sample_start_index + v.sample_len],
            )
        }
}

/// The style of the character at `pos`.
pub fn style_of(
    pos: (usize, usize),
    start: (usize, usize),
    cursor: (usize, usize),
    end: (usize, usize),
) -> (style: Style)
    ensures
        style == style_at(pos, start, cursor, end),
{
    if pos.0 < start.0 || (pos.0 == start.0 && pos.1 < start.1) {
        Style::Dim
    } else if pos.0 < cursor.0 || (pos.0 == cursor.0 && pos.1 < cursor.1) {
        Style::Typed
    } else if pos.0 == cursor.0 && pos.1 == cursor.1 {
        Style::Cursor
    } else if pos.0 < end.0 || (pos.0 == end.0 && pos.1 < end.1) {
        Style::Pending
    } else {
        Style::Dim
    }
}

/// The spans of line `line`, which has `n` columns.
pub fn line_spans(
    line: usize,
    n: usize,
    start: (usize, usize),
    cursor: (usize, usize),
    end: (usize, usize),
) -> (spans: Vec<Span>)
    ensures
        spans_of(spans@, line, n as int, start, cursor, end),
{
    let mut spans: Vec<Span> = Vec::new();
    if n == 0 {
        return spans;
    }
    let mut from: usize = 0;
    let mut style: Style = style_of((line, 0), start, cursor, end);
    let mut c: usize = 1;
    while c < n
        invariant
            from < c <= n,
            covers(spans@, from as int),
            forall|col: usize| from <= col < c ==> style == #[trigger] style_at(
                (line, col),
                start,
                cursor,
                end,
            ),
            forall|k: int, col: usize|
                0 <= k < spans@.len() && (#[trigger] spans@[k]).start <= col < spans@[k].end
                    ==> spans@[k].style == #[trigger] style_at((line, col), start, cursor, end),
            forall|j: int, k: int|
                0 <= j && k == j + 1 && k < spans@.len() ==> (#[trigger] spans@[j]).style != (
                #[trigger] spans@[k]).style,
            spans@.len() > 0 ==> spans@[spans@.len() - 1].style != style,
        decreases n - c,
    {
        let next: Style = style_of((line, c), start, cursor, end);
        if next != style {
            spans.push(Span { start: from, end: c, style });
            from = c;
            style = next;
        }
        c += 1;
    }
    spans.push(Span { start: from, end: n, style });
    spans
}

/// Centres the display and lays out the screen of `height` rows. There is
/// no screen where the height is below `MIN_HEIGHT` or the session is over;
/// the session is then left as it was.
pub fn render(app: &mut App, height: usize) -> (screen: Option<Screen>)
    requires
        old(app).wf(),
    ensures
        final(app).wf(),
        screen is Some <==> height >= MIN_HEIGHT && old(app)@.running,
        screen is None ==> final(app)@ == old(app)@,
        screen matches Some(shown) ==> {
            &&& final(app)@ == (AppView {
                display_line: old(app)@.settled_line(),
                ..old(app)@
            })
            &&& shows(shown, final(app)@, height)
        },
{
    if height < MIN_HEIGHT {
        return None;
    }
    let (start, cursor, end) = match app.sample_bounds() {
        Some(bounds) => bounds,
        None => {
            return None;
        },
    };
    let display_line: usize = app.settle_display();
    let num_rows: usize = height - 2;
    let center: usize = num_rows / 2 - 2;
    let first: usize = if center >= display_line {
        center - display_line
    } else {
        0
    };
    let lines = app.book_lines();
    let wanted: usize = if display_line >= center {
        display_line - center
    } else {
        0
    };
    let skipped: usize = if wanted < lines.len() {
        wanted
    } else {
        lines.len()
    };
    let left: usize = lines.len() - skipped;
    let room: usize = num_rows - first;
    let shown: usize = if left < room {
        left
    } else {
        room
    };
    let mut rows_shown: Vec<Row> = Vec::new();
    let mut k: usize = 0;
    while k < shown
        invariant
            k <= shown,
            skipped + shown <= lines@.len() <= usize::MAX,
            rows(lines@) == app@.lines,
            rows_shown@.len() == k,
            forall|j: int|
                0 <= j < k ==> {
                    let row = #[trigger] rows_shown@[j];
                    &&& row.line == skipped + j
                    &&& spans_of(
                        row.spans@,
                        row.line,
                        app@.lines[row.line as int].len() as int,
                        start,
                        cursor,
                        end,
                    )
                },
        decreases shown - k,
    {
        let line: usize = skipped + k;
        let spans = line_spans(line, lines[line].len(), start, cursor, end);
        assert(rows(lines@)[line as int] == lines@[line as int]@);
        rows_shown.push(Row { line, spans });
        k += 1;
    }
    Some(Screen { first_row: first, rows: rows_shown })
}

} // verus!
