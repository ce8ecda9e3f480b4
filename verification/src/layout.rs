//! Where the controls of the macOS window stand, in points from its lower left corner.
use vstd::prelude::*;

verus! {

/// Free space along each edge of the window.
pub const MARGIN: u32 = 20;

/// Width of a picker's label.
pub const LABEL_W: u32 = 55;

/// Width of a device picker.
pub const POPUP_W: u32 = 200;

/// Width of a refresh button.
pub const BTN_W: u32 = 30;

/// Height of a row.
pub const ROW_H: u32 = 24;

/// Space between neighbours.
pub const GAP: u32 = 6;

/// Width of a level bar.
pub const BAR_W: u32 = 170;

/// Width of a level in decibels.
pub const DB_W: u32 = 60;

/// Width of a level's title.
pub const RMS_TITLE_W: u32 = 55;

/// Width of a section header.
pub const HEADER_W: u32 = 80;

/// Width of an "Enabled" box.
pub const CHECKBOX_W: u32 = 86;

/// Width of an "Active" box.
pub const ACTIVE_W: u32 = 78;

/// Height of the content: eight rows, with a double gap above each of the two section headers.
pub const CONTENT_H: u32 = 8 * ROW_H + 7 * GAP + 2 * GAP;

/// Width of the content: that of a device picker's row, which a meter's row matches.
pub const CONTENT_W: u32 = LABEL_W + GAP + POPUP_W + GAP + BTN_W;

/// Width of the window.
pub const WINDOW_W: u32 = MARGIN + CONTENT_W + MARGIN;

/// Height of the window.
pub const WINDOW_H: u32 = MARGIN + CONTENT_H + MARGIN;

/// A rectangle, given by its lower left corner and its size.
#[derive(Clone, Copy, Debug, PartialEq, Eq, Structural)]
pub struct Rect {
    pub x: u32,
    pub y: u32,
    pub w: u32,
    pub h: u32,
}

/// Three controls side by side.
#[derive(Clone, Copy, Debug, PartialEq, Eq, Structural)]
pub struct Row {
    pub first: Rect,
    pub second: Rect,
    pub third: Rect,
}

/// The rows of the window, from top to bottom.
#[derive(Clone, Copy, Debug, PartialEq, Eq, Structural)]
pub struct ControlLayout {
    /// Label, picker and refresh button of the output device.
    pub output: Row,
    /// Label, picker and refresh button of the input device.
    pub input: Row,
    /// Title, "Enabled" and "Active" of the playback chain.
    pub playback_header: Row,
    /// Title, bar and level of the raw playback.
    pub playback_raw: Row,
    /// Title, bar and level of the filtered playback.
    pub playback_filtered: Row,
    /// Title, "Enabled" and "Active" of the recording chain.
    pub recording_header: Row,
    /// Title, bar and level of the raw recording.
    pub recording_raw: Row,
    /// Title, bar and level of the filtered recording.
    pub recording_filtered: Row,
}

/// The lower edge of row `r`, counted from the top: rows 2 and 5 are section headers.
pub open spec fn row_y(r: int) -> int {
    WINDOW_H - MARGIN - ROW_H - r * (ROW_H + GAP) - (if r >= 2 {
        GAP as int
    } else {
        0
    }) - (if r >= 5 {
        GAP as int
    } else {
        0
    })
}

/// A row at height `y` of controls with these widths, a gap apart, from the left margin on.
pub open spec fn row_of(y: int, w1: u32, w2: u32, w3: u32) -> Row {
    Row {
        first: Rect { x: MARGIN, y: y as u32, w: w1, h: ROW_H },
        second: Rect { x: (MARGIN + w1 + GAP) as u32, y: y as u32, w: w2, h: ROW_H },
        third: Rect { x: (MARGIN + w1 + GAP + w2 + GAP) as u32, y: y as u32, w: w3, h: ROW_H },
    }
}

/// The layout of the window.
pub open spec fn the_layout() -> ControlLayout {
    ControlLayout {
        output: row_of(row_y(0), LABEL_W, POPUP_W, BTN_W),
        input: row_of(row_y(1), LABEL_W, POPUP_W, BTN_W),
        playback_header: row_of(row_y(2), HEADER_W, CHECKBOX_W, ACTIVE_W),
        playback_raw: row_of(row_y(3), RMS_TITLE_W, BAR_W, DB_W),
        playback_filtered: row_of(row_y(4), RMS_TITLE_W, BAR_W, DB_W),
        recording_header: row_of(row_y(5), HEADER_W, CHECKBOX_W, ACTIVE_W),
        recording_raw: row_of(row_y(6), RMS_TITLE_W, BAR_W, DB_W),
        recording_filtered: row_of(row_y(7), RMS_TITLE_W, BAR_W, DB_W),
    }
}

/// One row of controls.
fn place_row(y: u32, w1: u32, w2: u32, w3: u32) -> (row: Row)
    requires
        w1 <= POPUP_W,
        w2 <= POPUP_W,
    ensures
        row == row_of(y as int, w1, w2, w3),
{
    Row {
        first: Rect { x: MARGIN, y, w: w1, h: ROW_H },
        second: Rect { x: MARGIN + w1 + GAP, y, w: w2, h: ROW_H },
        third: Rect { x: MARGIN + w1 + GAP + w2 + GAP, y, w: w3, h: ROW_H },
    }
}

/// Lays the controls out from the top margin down.
pub fn layout_controls() -> (layout: ControlLayout)
    ensures
        layout == the_layout(),
{
    let mut y: u32 = WINDOW_H - MARGIN - ROW_H;
    let output = place_row(y, LABEL_W, POPUP_W, BTN_W);
    y -= ROW_H + GAP;
    let input = place_row(y, LABEL_W, POPUP_W, BTN_W);
    y -= ROW_H + GAP * 2;
    let playback_header = place_row(y, HEADER_W, CHECKBOX_W, ACTIVE_W);
    y -= ROW_H + GAP;
    let playback_raw = place_row(y, RMS_TITLE_W, BAR_W, DB_W);
    y -= ROW_H + GAP;
    let playback_filtered = place_row(y, RMS_TITLE_W, BAR_W, DB_W);
    y -= ROW_H + GAP * 2;
    let recording_header = place_row(y, HEADER_W, CHECKBOX_W, ACTIVE_W);
    y -= ROW_H + GAP;
    let recording_raw = place_row(y, RMS_TITLE_W, BAR_W, DB_W);
    y -= ROW_H + GAP;
    let recording_filtered = place_row(y, RMS_TITLE_W, BAR_W, DB_W);
    ControlLayout {
        output,
        input,
        playback_header,
        playback_raw,
        playback_filtered,
        recording_header,
        recording_raw,
        recording_filtered,
    }
}

/// The rows of a layout, from top to bottom.
pub open spec fn rows(layout: ControlLayout) -> Seq<Row> {
    seq![
        layout.output,
        layout.input,
        layout.playback_header,
        layout.playback_raw,
        layout.playback_filtered,
        layout.recording_header,
        layout.recording_raw,
        layout.recording_filtered,
    ]
}

/// The controls of a row stand side by side, a gap apart, inside the margins.
pub open spec fn row_fits(row: Row) -> bool {
    &&& row.first.y == row.second.y == row.third.y
    &&& row.first.h == row.second.h == row.third.h == ROW_H
    &&& row.first.x == MARGIN
    &&& row.first.x + row.first.w + GAP == row.second.x
    &&& row.second.x + row.second.w + GAP == row.third.x
    &&& row.third.x + row.third.w <= WINDOW_W - MARGIN
    &&& MARGIN <= row.first.y
    &&& row.first.y + ROW_H <= WINDOW_H - MARGIN
}

/// The window fits its content exactly: every control stands inside the margins, rows are at least
/// a gap apart, and the content reaches all four margins.
pub proof fn lemma_window_fits_content()
    ensures
        forall|r: int| 0 <= r < 8 ==> row_fits(#[trigger] rows(the_layout())[r]),
        forall|r: int, s: int|
            0 <= r < s < 8 ==> (#[trigger] rows(the_layout())[r]).first.y >= (#[trigger] rows(
                the_layout(),
            )[s]).first.y + ROW_H + GAP,
        the_layout().output.first.y + ROW_H == WINDOW_H - MARGIN,
        the_layout().recording_filtered.first.y == MARGIN,
        the_layout().output.third.x + the_layout().output.third.w == WINDOW_W - MARGIN,
        the_layout().playback_raw.third.x + the_layout().playback_raw.third.w == WINDOW_W - MARGIN,
{
}

/// How the rows follow each other: each stands a row and a gap below the one before it, and one more gap below
/// where a header begins a group.
pub proof fn lemma_groups_stand_apart()
    ensures
        the_layout().output.first.y - the_layout().input.first.y == 30,
        the_layout().input.first.y - the_layout().playback_header.first.y == 36,
        the_layout().playback_header.first.y - the_layout().playback_raw.first.y == 30,
        the_layout().playback_raw.first.y - the_layout().playback_filtered.first.y == 30,
        the_layout().playback_filtered.first.y - the_layout().recording_header.first.y == 36,
        the_layout().recording_header.first.y - the_layout().recording_raw.first.y == 30,
        the_layout().recording_raw.first.y - the_layout().recording_filtered.first.y == 30,
        the_layout().output.second.w == 200 && the_layout().input.second.w == 200,
        the_layout().playback_header.second.w == 86 && the_layout().recording_header.second.w == 86,
        the_layout().playback_raw.second.w == 170 && the_layout().recording_raw.second.w == 170,
        the_layout().playback_filtered.second.w == 170 && the_layout().recording_filtered.second.w == 170,
{
}

} // verus!
