//! Layout and shading decisions of the calendar heatmap.
use vstd::prelude::*;

verus! {

/// How a day's cell is shaded.
#[derive(Clone, Copy, Debug, PartialEq, Eq, Structural)]
pub enum CellShade {
    /// No commits.
    Empty,
    /// Commits today.
    Today,
    /// One to four commits.
    Low,
    /// Five to nine commits.
    Medium,
    /// Ten or more commits.
    High,
}

/// The shade of a cell with `count` commits.
pub fn cell_shade(count: u64, is_today: bool) -> (r: CellShade)
    ensures
        r == (if count == 0 {
            CellShade::Empty
        } else if is_today {
            CellShade::Today
        } else if count <= 4 {
            CellShade::Low
        } else if count <= 9 {
            CellShade::Medium
        } else {
            CellShade::High
        }),
{
    if count == 0 {
        CellShade::Empty
    } else if is_today {
        CellShade::Today
    } else if count <= 4 {
        CellShade::Low
    } else if count <= 9 {
        CellShade::Medium
    } else {
        CellShade::High
    }
}

/// The first day of the grid: the Sunday on or before `first_day`, given
/// how many days after a Sunday `first_day` falls.
pub fn grid_start(first_day: i32, days_from_sunday: u32) -> (r: i32)
    requires
        days_from_sunday < 7,
        first_day >= i32::MIN + 7,
    ensures
        r == first_day - days_from_sunday,
{
    first_day - days_from_sunday as i32
}

/// The number of week columns that `days` days fill, the last one perhaps
/// in part.
pub fn week_columns(days: u32) -> (r: u32)
    ensures
        r as int * 7 >= days,
        r as int * 7 < days + 7,
{
    let r = days / 7 + if days % 7 == 0 {
        0u32
    } else {
        1u32
    };
    r
}

/// The day shown in week column `col`, weekday row `row` of a grid that
/// starts on `start_day`, or `None` where that day is after `today`.
pub fn cell_day(start_day: i32, col: u32, row: u32, today: i32) -> (r: Option<i32>)
    ensures
        r == (if start_day + 7 * col + row <= today {
            Some((start_day + 7 * col + row) as i32)
        } else {
            None::<i32>
        }),
{
    let d: i64 = start_day as i64 + col as i64 * 7 + row as i64;
    if d <= today as i64 {
        Some(d as i32)
    } else {
        None
    }
}

} // verus!
