//! Reading a grid definition: JSON text that lists the grid row by row, each
//! row a list of booleans that say which cells exist.

use vstd::prelude::*;
use crate::grid::Grid;
use crate::droplet::Droplet;
use crate::architecture::Architecture;
use crate::ids::DropletId;

verus! {

/// The error type of `serde_json`, passed on as it was received.
#[verifier::external_type_specification]
#[verifier::external_body]
pub struct ExJsonError(serde_json::Error);

/// What `serde_json::from_slice` makes of `bytes` when it is asked for rows of
/// booleans: the rows, or nothing where it rejects the bytes.
pub uninterp spec fn json_cells(bytes: Seq<u8>) -> Option<Seq<Seq<bool>>>;

/// The rows of `cells` as sequences.
pub open spec fn rows(cells: Vec<Vec<bool>>) -> Seq<Seq<bool>> {
    Seq::new(cells@.len(), |y: int| cells@[y]@)
}

/// Why a grid definition was rejected: where in the text the parser gave up,
/// by one-based line and column.
#[derive(PartialEq, Eq, Structural, Clone, Copy, Debug)]
pub struct DefinitionError {
    pub line: usize,
    pub column: usize,
}

/// Calls `serde_json::from_slice` for a `Vec<Vec<bool>>`. Trusted: the outcome
/// is a function of the bytes alone, so it is what `json_cells` names; nothing
/// is claimed about which texts are accepted.
#[verifier::external_body]
fn parse_cells(bytes: &[u8]) -> (parsed: Result<Vec<Vec<bool>>, serde_json::Error>)
    ensures
        match parsed {
            Ok(cells) => json_cells(bytes@) == Some(rows(cells)),
            Err(_) => json_cells(bytes@).is_none(),
        },
{
    serde_json::from_slice::<Vec<Vec<bool>>>(bytes)
}

/// Calls `serde_json::Error::line`. Trusted, with nothing claimed of the result.
#[verifier::external_body]
fn error_line(error: &serde_json::Error) -> usize {
    error.line()
}

/// Calls `serde_json::Error::column`. Trusted, with nothing claimed of the result.
#[verifier::external_body]
fn error_column(error: &serde_json::Error) -> usize {
    error.column()
}

/// Turns the parser's outcome into the library's: the grid over the rows that
/// were read, or the place at which the parser gave up.
pub fn grid_from_parsed(parsed: Result<Vec<Vec<bool>>, serde_json::Error>) -> (result: Result<
    Grid,
    DefinitionError,
>)
    ensures
        match parsed {
            Ok(cells) => result == Ok::<Grid, DefinitionError>(Grid { cells }),
            Err(_) => result.is_err(),
        },
{
    match parsed {
        Ok(cells) => Ok(Grid { cells }),
        Err(error) => Err(
            DefinitionError { line: error_line(&error), column: error_column(&error) },
        ),
    }
}

impl Grid {
    /// Reads a grid from its definition. Succeeds exactly on the texts that the
    /// JSON parser accepts as rows of booleans, with the grid of those rows.
    pub fn from_json(bytes: &[u8]) -> (result: Result<Grid, DefinitionError>)
        ensures
            match json_cells(bytes@) {
                Some(cells) => result.is_ok() && rows(result.unwrap().cells) == cells,
                None => result.is_err(),
            },
    {
        grid_from_parsed(parse_cells(bytes))
    }
}

impl Architecture {
    /// Reads a grid from its definition and builds an empty device over it, with
    /// both counters at zero. Fails exactly where the grid cannot be read.
    pub fn from_json(bytes: &[u8]) -> (result: Result<Architecture, DefinitionError>)
        ensures
            match json_cells(bytes@) {
                Some(cells) => {
                    &&& result.is_ok()
                    &&& rows(result.unwrap().grid.cells) == cells
                    &&& result.unwrap().droplets@ == Map::<DropletId, Droplet>::empty()
                    &&& result.unwrap().next_id() == 0
                    &&& result.unwrap().next_group() == 0
                    &&& result.unwrap().wf()
                },
                None => result.is_err(),
            },
    {
        match Grid::from_json(bytes) {
            Ok(grid) => Ok(Architecture::from_grid(grid)),
            Err(error) => Err(error),
        }
    }
}

} // verus!
