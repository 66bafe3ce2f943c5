use vstd::prelude::*;
use vstd::string::{StrSliceExecFns, StringExecFns};

verus! {

pub const DIGIT_HEIGHT: usize = 5;
pub const DIGIT_WIDTH: usize = 6;
pub const DIGIT_SPACING: usize = 2;

/// Minimum width needed to display block digits with one character of
/// padding on each side: four digits of six columns, spacing, and a colon.
pub const TIMER_MIN_WIDTH: u16 = 38;

/// The five rows of block art for one decimal digit.
pub open spec fn digit_rows(d: int) -> Seq<Seq<char>> {
    if d == 0 {
        seq!["██████"@, "██  ██"@, "██  ██"@, "██  ██"@, "██████"@]
    } else if d == 1 {
        seq!["  ██  "@, "  ██  "@, "  ██  "@, "  ██  "@, "  ██  "@]
    } else if d == 2 {
        seq!["██████"@, "    ██"@, "██████"@, "██    "@, "██████"@]
    } else if d == 3 {
        seq!["██████"@, "    ██"@, "██████"@, "    ██"@, "██████"@]
    } else if d == 4 {
        seq!["██  ██"@, "██  ██"@, "██████"@, "    ██"@, "    ██"@]
    } else if d == 5 {
        seq!["██████"@, "██    "@, "██████"@, "    ██"@, "██████"@]
    } else if d == 6 {
        seq!["██████"@, "██    "@, "██████"@, "██  ██"@, "██████"@]
    } else if d == 7 {
        seq!["██████"@, "    ██"@, "    ██"@, "    ██"@, "    ██"@]
    } else if d == 8 {
        seq!["██████"@, "██  ██"@, "██████"@, "██  ██"@, "██████"@]
    } else {
        seq!["██████"@, "██  ██"@, "██████"@, "    ██"@, "██████"@]
    }
}

/// The five rows of the colon between minutes and seconds.
pub open spec fn colon_rows() -> Seq<Seq<char>> {
    seq!["  "@, "██"@, "  "@, "██"@, "  "@]
}

/// One display row of the full `MM:SS` clock face.
pub open spec fn time_row(minutes: u64, seconds: u64, i: int) -> Seq<char> {
    digit_rows(((minutes / 10) as u8 % 10) as int)[i] + "  "@ + digit_rows(
        ((minutes % 10) as u8 % 10) as int,
    )[i] + "  "@ + colon_rows()[i] + "  "@ + digit_rows(((seconds / 10) as u8 % 10) as int)[i]
        + "  "@ + digit_rows(((seconds % 10) as u8 % 10) as int)[i]
}

/// Block art rows of one digit; values above nine wrap around.
pub fn digit_lines(d: u8) -> (r: [&'static str; 5])
    ensures
        forall|i: int| 0 <= i < 5 ==> (#[trigger] r@[i])@ == digit_rows((d % 10) as int)[i],
{
    match d % 10 {
        0 => ["██████", "██  ██", "██  ██", "██  ██", "██████"],
        1 => ["  ██  ", "  ██  ", "  ██  ", "  ██  ", "  ██  "],
        2 => ["██████", "    ██", "██████", "██    ", "██████"],
        3 => ["██████", "    ██", "██████", "    ██", "██████"],
        4 => ["██  ██", "██  ██", "██████", "    ██", "    ██"],
        5 => ["██████", "██    ", "██████", "    ██", "██████"],
        6 => ["██████", "██    ", "██████", "██  ██", "██████"],
        7 => ["██████", "    ██", "    ██", "    ██", "    ██"],
        8 => ["██████", "██  ██", "██████", "██  ██", "██████"],
        _ => ["██████", "██  ██", "██████", "    ██", "██████"],
    }
}

/// The colon's block art row.
fn colon_line(i: usize) -> (r: &'static str)
    requires
        i < 5,
    ensures
        r@ == colon_rows()[i as int],
{
    match i {
        0 => "  ",
        1 => "██",
        2 => "  ",
        3 => "██",
        _ => "  ",
    }
}

/// The five rows of the `MM:SS` clock face for the given time.
pub fn render_time(minutes: u64, seconds: u64) -> (r: Vec<String>)
    ensures
        r@.len() == 5,
        forall|i: int| 0 <= i < 5 ==> (#[trigger] r@[i])@ == time_row(minutes, seconds, i),
{
    let m1 = (minutes / 10) as u8;
    let m2 = (minutes % 10) as u8;
    let s1 = (seconds / 10) as u8;
    let s2 = (seconds % 10) as u8;

    let d1 = digit_lines(m1);
    let d2 = digit_lines(m2);
    let d3 = digit_lines(s1);
    let d4 = digit_lines(s2);

    let mut rows: Vec<String> = Vec::new();
    let mut i: usize = 0;
    while i < 5
        invariant
            i <= 5,
            rows@.len() == i,
            forall|k: int| 0 <= k < 5 ==> (#[trigger] d1@[k])@ == digit_rows((m1 % 10) as int)[k],
            forall|k: int| 0 <= k < 5 ==> (#[trigger] d2@[k])@ == digit_rows((m2 % 10) as int)[k],
            forall|k: int| 0 <= k < 5 ==> (#[trigger] d3@[k])@ == digit_rows((s1 % 10) as int)[k],
            forall|k: int| 0 <= k < 5 ==> (#[trigger] d4@[k])@ == digit_rows((s2 % 10) as int)[k],
            m1 == (minutes / 10) as u8,
            m2 == (minutes % 10) as u8,
            s1 == (seconds / 10) as u8,
            s2 == (seconds % 10) as u8,
            forall|k: int| 0 <= k < i ==> (#[trigger] rows@[k])@ == time_row(minutes, seconds, k),
        decreases 5 - i,
    {
        let mut row = String::from_str(d1[i]);
        row.append("  ");
        row.append(d2[i]);
        row.append("  ");
        row.append(colon_line(i));
        row.append("  ");
        row.append(d3[i]);
        row.append("  ");
        row.append(d4[i]);
        rows.push(row);
        i = i + 1;
    }
    rows
}

/// The animated dot row of the wave indicator; `position` marks the large
/// dot, and anything past the last dot (or no position) shows all dots
/// small.
pub open spec fn wave_row(position: Option<usize>) -> Seq<char> {
    match position {
        Some(0usize) => "● · · · ·"@,
        Some(1usize) => "· ● · · ·"@,
        Some(2usize) => "· · ● · ·"@,
        Some(3usize) => "· · · ● ·"@,
        Some(4usize) => "· · · · ●"@,
        _ => "· · · · ·"@,
    }
}

pub fn render_wave(position: Option<usize>) -> (r: String)
    ensures
        r@ == wave_row(position),
{
    let s = match position {
        Some(0usize) => "● · · · ·",
        Some(1usize) => "· ● · · ·",
        Some(2usize) => "· · ● · ·",
        Some(3usize) => "· · · ● ·",
        Some(4usize) => "· · · · ●",
        _ => "· · · · ·",
    };
    String::from_str(s)
}

/// Wave position for an animation tick: the large dot bounces back and
/// forth over the five dots, eight ticks per full oscillation.
pub fn wave_position(tick_count: u32) -> (r: usize)
    ensures
        r <= 4,
        tick_count % 8 < 5 ==> r == tick_count % 8,
        tick_count % 8 >= 5 ==> r == 8 - tick_count % 8,
{
    let tick = (tick_count % 8) as usize;
    if tick < 5 {
        tick
    } else {
        8 - tick
    }
}

} // verus!
