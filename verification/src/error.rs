use vstd::prelude::*;

verus! {

/// Why an elevation model could not be built.
#[derive(Debug)]
pub enum DemError {
    /// The model file could not be read.
    Io(std::io::Error),
    /// The model file is not valid JSON of the expected shape.
    Parse(serde_json::Error),
    /// An `.hgt` tile has a byte count that matches no known resolution.
    InvalidHgtSize(usize),
    /// The tile's origin could not be read from its file name.
    HgtName(std::path::PathBuf),
    /// Rows of the grid differ in length.
    NonRectangular,
    /// The grid has no row, or its first row has no cell.
    Empty,
}

#[verifier::external_type_specification]
#[verifier::external_body]
pub struct ExIoError(std::io::Error);

#[verifier::external_type_specification]
#[verifier::external_body]
pub struct ExJsonError(serde_json::Error);

#[verifier::external_type_specification]
#[verifier::external_body]
pub struct ExPathBuf(std::path::PathBuf);

} // verus!
