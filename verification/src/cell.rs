use vstd::prelude::*;

verus! {

/// One value of one row of a result set, tagged with how the database typed
/// it, from the closed set of cell types the row codec supports.
///
/// Floating-point cells carry the raw IEEE-754 bit pattern (`f32::to_bits` /
/// `f64::to_bits` at the boundary), so the codec is a pure function over
/// integers, bytes and text. `Timestamp` is microseconds since the Unix
/// epoch. `Unsupported` records the database type name of a cell for which
/// no encoder exists; encoding a result set that contains one fails.
#[derive(Clone, PartialEq, Eq, Debug)]
pub enum Cell {
    Null,
    Bool(bool),
    Int(i64),
    Uint(u64),
    F32Bits(u32),
    F64Bits(u64),
    Text(String),
    Blob(Vec<u8>),
    Timestamp(i64),
    Unsupported(String),
}

/// The mathematical value of a `Cell`: text as its characters, blobs as
/// their bytes, everything else as itself.
pub enum CellModel {
    Null,
    Bool(bool),
    Int(i64),
    Uint(u64),
    F32Bits(u32),
    F64Bits(u64),
    Text(Seq<char>),
    Blob(Seq<u8>),
    Timestamp(i64),
    Unsupported(Seq<char>),
}

impl View for Cell {
    type V = CellModel;

    open spec fn view(&self) -> CellModel {
        match self {
            Cell::Null => CellModel::Null,
            Cell::Bool(b) => CellModel::Bool(*b),
            Cell::Int(i) => CellModel::Int(*i),
            Cell::Uint(u) => CellModel::Uint(*u),
            Cell::F32Bits(b) => CellModel::F32Bits(*b),
            Cell::F64Bits(b) => CellModel::F64Bits(*b),
            Cell::Text(s) => CellModel::Text(s@),
            Cell::Blob(b) => CellModel::Blob(b@),
            Cell::Timestamp(t) => CellModel::Timestamp(*t),
            Cell::Unsupported(s) => CellModel::Unsupported(s@),
        }
    }
}

impl DeepView for Cell {
    type V = CellModel;

    open spec fn deep_view(&self) -> CellModel {
        self.view()
    }
}

} // verus!
