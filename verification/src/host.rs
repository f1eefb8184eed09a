//! Plain values that describe the machine and the terminals on it.
use vstd::prelude::*;

verus! {

/// The kind of system that the program runs on. Only on Windows are a dead
/// parser and a broken listening socket brought back to life.
#[derive(Clone, Copy, Debug, PartialEq, Eq, Structural)]
pub enum Platform {
    Windows,
    Other,
}

/// What becomes of a pane when its program ends.
#[derive(Clone, Copy, Debug, PartialEq, Eq, Structural)]
pub enum ExitBehavior {
    /// The pane goes away at once.
    Close,
    /// The pane goes away if the program ended well.
    CloseOnCleanExit,
    /// The pane stays until it is closed by hand.
    Hold,
}

/// The size of a terminal.
#[derive(Clone, Copy, Debug, PartialEq, Eq, Structural)]
pub struct TerminalSize {
    pub rows: usize,
    pub cols: usize,
    pub pixel_width: usize,
    pub pixel_height: usize,
    pub dpi: u32,
}

/// The unit of a distance on the screen.
#[derive(Clone, Copy, Debug, PartialEq, Eq, Structural)]
pub enum DimensionUnit {
    Points,
    Pixels,
    Percent,
    Cells,
}

/// A distance on the screen.
#[derive(Clone, Copy, Debug, PartialEq, Eq, Structural)]
pub struct Dimension {
    pub unit: DimensionUnit,
    /// How many of these units, as the bits of a single-precision number.
    pub amount_bits: u32,
}

/// What the position of a window is measured from.
#[derive(Clone, Debug, PartialEq)]
pub enum GeometryOrigin {
    ScreenCoordinateSystem,
    MainScreen,
    ActiveScreen,
    Named(String),
}

/// Where a window goes on the screen.
#[derive(Clone, Debug, PartialEq)]
pub struct GuiPosition {
    pub x: Dimension,
    pub y: Dimension,
    pub origin: GeometryOrigin,
}

/// The size of a terminal in the units that a pty understands.
#[derive(Clone, Copy, Debug, PartialEq, Eq, Structural)]
pub struct PtySize {
    pub rows: u16,
    pub cols: u16,
    pub pixel_width: u16,
    pub pixel_height: u16,
}

/// A measure of a terminal is larger than a pty can express.
#[derive(Clone, Copy, Debug, PartialEq, Eq, Structural)]
pub struct SizeOutOfRange;

impl TerminalSize {
    pub open spec fn fits_pty(self) -> bool {
        &&& self.rows <= u16::MAX
        &&& self.cols <= u16::MAX
        &&& self.pixel_width <= u16::MAX
        &&& self.pixel_height <= u16::MAX
    }
}

/// A size fits a pty exactly if each of its four measures fits in sixteen bits.
pub proof fn law_what_fits_a_pty(size: TerminalSize)
    ensures
        size.fits_pty() <==> size.rows < 65536 && size.cols < 65536 && size.pixel_width < 65536
            && size.pixel_height < 65536,
{
}

/// The size of the pty for a terminal of the given size; fails if any of the
/// four measures does not fit.
pub fn terminal_size_to_pty_size(size: TerminalSize) -> (pty: Result<PtySize, SizeOutOfRange>)
    ensures
        match pty {
            Ok(p) => {
                &&& p.rows == size.rows
                &&& p.cols == size.cols
                &&& p.pixel_width == size.pixel_width
                &&& p.pixel_height == size.pixel_height
            },
            Err(_) => !size.fits_pty(),
        },
{
    let max: usize = 65535;
    if size.rows > max || size.cols > max || size.pixel_height > max || size.pixel_width > max {
        return Err(SizeOutOfRange);
    }
    Ok(
        PtySize {
            rows: size.rows as u16,
            cols: size.cols as u16,
            pixel_height: size.pixel_height as u16,
            pixel_width: size.pixel_width as u16,
        },
    )
}

} // verus!
