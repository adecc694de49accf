use vstd::prelude::*;

verus! {

/// A grid position: column `.0`, row `.1`.
#[derive(Clone, Copy, Debug, PartialEq, Eq, Hash, Structural)]
pub struct Point(pub usize, pub usize);

/// The state of one cell; the flag says whether the level fixed the cell,
/// so that a player cannot edit it.
#[allow(non_camel_case_types)]
#[derive(Clone, Copy, Debug, PartialEq, Eq, Structural)]
pub enum CellType {
    EMPTY(bool),
    WIRE(bool),
    ELECTRON(bool),
    TAIL(bool),
}

pub open spec fn fixed_of(c: CellType) -> bool {
    match c {
        CellType::EMPTY(f) => f,
        CellType::WIRE(f) => f,
        CellType::ELECTRON(f) => f,
        CellType::TAIL(f) => f,
    }
}

/// The colours in which cells are drawn.
#[derive(Clone, Copy, Debug, PartialEq, Eq, Structural)]
pub enum CellColor {
    Yellow,
    Black,
    DarkGray,
    Red,
    DarkGreen,
    LimeGreen,
}

/// Electrons are yellow and tails red; fixed wire is black and free wire
/// dark gray; fixed empty cells are dark green and free ones lime green.
pub open spec fn color_of(c: CellType) -> CellColor {
    match c {
        CellType::ELECTRON(_) => CellColor::Yellow,
        CellType::WIRE(true) => CellColor::Black,
        CellType::WIRE(false) => CellColor::DarkGray,
        CellType::TAIL(_) => CellColor::Red,
        CellType::EMPTY(true) => CellColor::DarkGreen,
        CellType::EMPTY(false) => CellColor::LimeGreen,
    }
}

impl CellType {
    /// The colour in which the cell is drawn (see [`color_of`]).
    pub fn base_color(self) -> (r: CellColor)
        ensures
            r == color_of(self),
    {
        match self {
            CellType::ELECTRON(_) => CellColor::Yellow,
            CellType::WIRE(true) => CellColor::Black,
            CellType::WIRE(false) => CellColor::DarkGray,
            CellType::TAIL(_) => CellColor::Red,
            CellType::EMPTY(true) => CellColor::DarkGreen,
            _ => CellColor::LimeGreen,
        }
    }

    /// Whether the level author fixed this cell.
    pub fn is_fixed(&self) -> (r: bool)
        ensures
            r == fixed_of(*self),
    {
        match self {
            CellType::EMPTY(f) => *f,
            CellType::WIRE(f) => *f,
            CellType::ELECTRON(f) => *f,
            CellType::TAIL(f) => *f,
        }
    }

    pub fn is_electron(&self) -> (r: bool)
        ensures
            r == (*self is ELECTRON),
    {
        match self {
            CellType::ELECTRON(_) => true,
            _ => false,
        }
    }

    pub fn is_wire(&self) -> (r: bool)
        ensures
            r == (*self is WIRE),
    {
        match self {
            CellType::WIRE(_) => true,
            _ => false,
        }
    }
}


/// A cell of the grid together with its position.
#[derive(Clone, Copy, Debug, PartialEq, Eq, Structural)]
pub struct Cell {
    pub position: Point,
    pub cell_type: CellType,
}

impl Cell {
    pub fn is_fixed(&self) -> (r: bool)
        ensures
            r == fixed_of(self.cell_type),
    {
        self.cell_type.is_fixed()
    }
}

/// One cell that a tick changed.
#[derive(Clone, Copy, Debug, PartialEq, Eq, Structural)]
pub struct Change {
    pub position: Point,
    pub old_state: CellType,
    pub new_state: CellType,
}

/// An electron that an exercise injects at `position` when its tick count
/// reaches `instant`.
#[derive(Clone, Copy, Debug, PartialEq, Eq, Structural)]
pub struct ElectronSpawn {
    pub position: Point,
    pub instant: usize,
}

/// Where an expected output stands in its window.
#[derive(Clone, Copy, Debug, PartialEq, Eq, Hash, Structural)]
pub enum OutputStatus {
    Inactive,
    Waiting,
    Success,
    Fail,
}

/// An electron expected at `position` during ticks `from..until`.
#[derive(Clone, Copy, Debug, PartialEq, Eq, Structural)]
pub struct ExpectedOutput {
    pub position: Point,
    pub from: usize,
    pub until: usize,
    pub status: OutputStatus,
}

/// The running exercise: its index, the ticks since it started, and the
/// tick count after which it fails.
#[derive(Clone, Copy, Debug, PartialEq, Eq, Structural)]
pub struct Exercise {
    pub id: usize,
    pub ticks: usize,
    pub timeout: usize,
}

/// A request to start the exercise with this index.
#[derive(Clone, Copy, Debug, PartialEq, Eq, Structural)]
pub struct ChangeExercise(pub usize);

/// The mouse button of a player's click: the left one lays or removes wire,
/// the right one puts an electron on a wire.
#[derive(Clone, Copy, Debug, PartialEq, Eq, Structural)]
pub enum MouseButton {
    Left,
    Right,
}

} // verus!
