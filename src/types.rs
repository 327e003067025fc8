//! Small enumerations of the editor's state that the library shares.
use vstd::prelude::*;

verus! {

/// Horizontal alignment of a cell's text.
#[derive(Clone, Copy, Debug, PartialEq, Eq, Structural)]
pub enum TextAlignment {
    Left,
    Center,
    Right,
}

impl Default for TextAlignment {
    fn default() -> (r: Self)
        ensures
            r == TextAlignment::Left,
    {
        TextAlignment::Left
    }
}

/// Vertical alignment of a cell's text.
#[derive(Clone, Copy, Debug, PartialEq, Eq, Structural)]
pub enum VerticalAlignment {
    Top,
    Center,
    Bottom,
}

impl Default for VerticalAlignment {
    fn default() -> (r: Self)
        ensures
            r == VerticalAlignment::Top,
    {
        VerticalAlignment::Top
    }
}

/// What visual mode is currently choosing.
#[derive(Clone, Copy, Debug, PartialEq, Eq, Structural)]
pub enum VisualSubMode {
    Main,
    TextColor,
    BackgroundColor,
    ColumnWidth,
    RowHeight,
    TextAlignment,
    VerticalAlignment,
}

/// The file format a sheet is saved in.
#[derive(Clone, Copy, Debug, PartialEq, Eq, Structural)]
pub enum SaveFormat {
    Csv,
    Tsv,
}

/// Whether whole rows or columns are being selected (`Off`: neither).
#[derive(Clone, Copy, Debug, PartialEq, Eq, Structural)]
pub enum RowColumnSelectMode {
    Off,
    RowSelect,
    ColumnSelect,
}

} // verus!
