//! Areas of the terminal and how they are divided.

use vstd::prelude::*;

verus! {

/// A rectangle of terminal cells.
#[derive(Clone, Copy, Debug, PartialEq, Eq, Structural)]
pub struct Rect {
    pub x: u16,
    pub y: u16,
    pub width: u16,
    pub height: u16,
}

/// Whether an area is divided into columns or into rows.
#[derive(Clone, Copy, Debug, PartialEq, Eq, Structural)]
pub enum Direction {
    Horizontal,
    Vertical,
}

/// What is asked of the size of one part of an area.
#[derive(Clone, Copy, Debug, PartialEq, Eq, Structural)]
pub enum Constraint {
    Length(u16),
    Min(u16),
}

impl Rect {
    /// Whether the right and the bottom edge are coordinates too.
    pub open spec fn wf(self) -> bool {
        self.x + self.width <= u16::MAX && self.y + self.height <= u16::MAX
    }

    /// Whether the cell in column `x` and row `y` lies in the rectangle.
    pub open spec fn covers(self, x: u16, y: u16) -> bool {
        self.x <= x < self.x + self.width && self.y <= y < self.y + self.height
    }

    /// Whether the whole rectangle lies in another.
    pub open spec fn within(self, outer: Rect) -> bool {
        &&& outer.x <= self.x
        &&& outer.y <= self.y
        &&& self.x + self.width <= outer.x + outer.width
        &&& self.y + self.height <= outer.y + outer.height
    }

    /// A rectangle without cells at the origin.
    pub fn empty() -> (r: Rect)
        ensures
            r == (Rect { x: 0, y: 0, width: 0, height: 0 }),
            r.wf(),
    {
        Rect { x: 0, y: 0, width: 0, height: 0 }
    }

    /// Whether a cell lies in the rectangle.
    pub fn contains(&self, x: u16, y: u16) -> (r: bool)
        requires
            self.wf(),
        ensures
            r == self.covers(x, y),
    {
        y >= self.y && y < self.y + self.height && x >= self.x && x < self.x + self.width
    }
}

/// Where a rectangle starts in a direction.
pub open spec fn start_of(r: Rect, direction: Direction) -> int {
    match direction {
        Direction::Horizontal => r.x as int,
        Direction::Vertical => r.y as int,
    }
}

/// How far a rectangle reaches in a direction.
pub open spec fn size_of(r: Rect, direction: Direction) -> int {
    match direction {
        Direction::Horizontal => r.width as int,
        Direction::Vertical => r.height as int,
    }
}

/// The size that is asked of a part, at the least.
pub open spec fn asked_size(c: Constraint) -> nat {
    match c {
        Constraint::Length(n) => n as nat,
        Constraint::Min(n) => n as nat,
    }
}

/// The sizes that are asked of the parts together.
pub open spec fn asked_total(asked: Seq<Constraint>) -> nat
    decreases asked.len(),
{
    if asked.len() == 0 {
        0
    } else {
        asked_total(asked.drop_last()) + asked_size(asked.last())
    }
}

/// Whether a part has the size that is asked of it.
pub open spec fn meets(size: int, c: Constraint) -> bool {
    match c {
        Constraint::Length(n) => size == n,
        Constraint::Min(n) => size >= n,
    }
}

/// Whether the parts follow each other from the start of the area, with the sizes that are asked,
/// and reach to its end if one of them may be greater.
pub open spec fn tiles(
    parts: Seq<Rect>,
    direction: Direction,
    asked: Seq<Constraint>,
    area: Rect,
) -> bool {
    let last = parts.len() - 1;
    &&& start_of(parts[0], direction) == start_of(area, direction)
    &&& forall|i: int, j: int|
        0 <= i && j == i + 1 && j <= last ==> start_of(#[trigger] parts[j], direction) == start_of(
            #[trigger] parts[i],
            direction,
        ) + size_of(parts[i], direction)
    &&& forall|i: int|
        0 <= i <= last ==> meets(size_of(#[trigger] parts[i], direction), asked[i])
    &&& (exists|i: int| 0 <= i <= last && #[trigger] asked[i] is Min) ==> start_of(
        parts[last],
        direction,
    ) + size_of(parts[last], direction) == start_of(area, direction) + size_of(area, direction)
}

/// Whether an area is divided as asked: there is a part for each constraint, each part lies in the
/// area and is as wide (of rows) or as high (of columns) as the area itself; and where there is
/// room for all that is asked, the parts tile the area.
pub open spec fn divides(
    parts: Seq<Rect>,
    direction: Direction,
    asked: Seq<Constraint>,
    area: Rect,
) -> bool {
    &&& parts.len() == asked.len()
    &&& forall|i: int|
        0 <= i < parts.len() ==> {
            &&& (#[trigger] parts[i]).within(area)
            &&& match direction {
                Direction::Horizontal => parts[i].y == area.y && parts[i].height == area.height,
                Direction::Vertical => parts[i].x == area.x && parts[i].width == area.width,
            }
        }
    &&& asked_total(asked) <= size_of(area, direction) ==> tiles(parts, direction, asked, area)
}

/// Divides an area: `ratatui::layout::Layout::new` with the direction and the constraints, then
/// `split` on the area.
///
/// The number of the parts, their extent across the direction, and that their edges stay between
/// those of the area hold of every division: the solver behind `split` takes the last as required.
/// Where there is room for all that is asked, every constraint can be met at once, and is: a
/// `Length` sets the size, a `Min` sets the least size, there is no space between the parts, and a
/// `Min` grows into what is left over. How the parts give way where there is not enough room is not
/// claimed: it rests on a solver that walks seeded hash maps. A handful of constraints are enough
/// here, and a `Min` is read as a signed number of 16 bits.
#[verifier::external_body]
pub(crate) fn split(direction: Direction, constraints: &Vec<Constraint>, area: Rect) -> (parts: Vec<
    Rect,
>)
    requires
        0 < constraints@.len() <= 10,
        forall|i: int|
            0 <= i < constraints@.len() ==> (#[trigger] constraints@[i] matches Constraint::Min(n)
                ==> n <= i16::MAX),
        area.wf(),
    ensures
        divides(parts@, direction, constraints@, area),
{
    let direction = match direction {
        Direction::Horizontal => ratatui::layout::Direction::Horizontal,
        Direction::Vertical => ratatui::layout::Direction::Vertical,
    };
    let constraints = constraints.iter().map(|c| match c {
        Constraint::Length(n) => ratatui::layout::Constraint::Length(*n),
        Constraint::Min(n) => ratatui::layout::Constraint::Min(*n),
    });
    let area = ratatui::layout::Rect::new(area.x, area.y, area.width, area.height);
    let parts = ratatui::layout::Layout::new(direction, constraints).split(area);
    parts.iter().map(|r| Rect { x: r.x, y: r.y, width: r.width, height: r.height }).collect()
}

} // verus!
