//! A 2D finite element library: mesh topology, element bookkeeping, the
//! Abaqus input-file reader and the text of the result writers that does not
//! depend on floating-point values,
//! with their behaviour stated and proved.

use vstd::prelude::*;

pub mod mesh;
pub mod output;
pub mod solver;
pub mod text;
pub mod types;

pub use mesh::Mesh;
pub use types::ElementType;

verus! {

/// `std::io::Error`, carried opaquely by [`FemError::IoError`].
#[verifier::external_type_specification]
#[verifier::external_body]
pub struct ExIoError(std::io::Error);

/// Errors of the library.
#[derive(Debug)]
pub enum FemError {
    /// File I/O errors
    IoError(std::io::Error),
    /// Parsing errors
    ParseError(String),
    /// Solver convergence issues
    ConvergenceError(String),
    /// Invalid input
    InvalidInput(String),
    /// Matrix assembly errors
    AssemblyError(String),
    /// Contact analysis errors
    ContactError(String),
}

/// `e` is a parse error with message `msg`.
pub open spec fn is_parse_error(e: FemError, msg: Seq<char>) -> bool {
    e matches FemError::ParseError(m) && m@ == msg
}

/// `e` is an invalid-input error with message `msg`.
pub open spec fn is_invalid_input(e: FemError, msg: Seq<char>) -> bool {
    e matches FemError::InvalidInput(m) && m@ == msg
}

/// The text of an I/O error (`Display` of `std::io::Error`).
///
/// Nothing is stated of the text: for an error that the operating system
/// reported it is the system's message, which depends on the machine.
#[verifier::external_body]
fn io_error_text(e: &std::io::Error) -> String {
    format!("{}", e)
}

impl FemError {
    /// The message of the error: a prefix naming the kind, then the detail.
    pub fn to_string(&self) -> (s: String)
        ensures
            match self {
                FemError::IoError(_) => s@.len() >= 10 && s@.subrange(0, 10) == "IO error: "@,
                FemError::ParseError(m) => s@ == "Parse error: "@ + m@,
                FemError::ConvergenceError(m) => s@ == "Convergence error: "@ + m@,
                FemError::InvalidInput(m) => s@ == "Invalid input: "@ + m@,
                FemError::AssemblyError(m) => s@ == "Assembly error: "@ + m@,
                FemError::ContactError(m) => s@ == "Contact error: "@ + m@,
            },
    {
        match self {
            FemError::IoError(e) => {
                let prefix = String::from_str("IO error: ");
                let detail = io_error_text(e);
                proof {
                    reveal_strlit("IO error: ");
                }
                let s = prefix.concat(detail.as_str());
                assert(s@.subrange(0, 10) =~= "IO error: "@);
                s
            },
            FemError::ParseError(m) => String::from_str("Parse error: ").concat(m.as_str()),
            FemError::ConvergenceError(m) => String::from_str("Convergence error: ").concat(
                m.as_str(),
            ),
            FemError::InvalidInput(m) => String::from_str("Invalid input: ").concat(m.as_str()),
            FemError::AssemblyError(m) => String::from_str("Assembly error: ").concat(m.as_str()),
            FemError::ContactError(m) => String::from_str("Contact error: ").concat(m.as_str()),
        }
    }
}

impl From<std::io::Error> for FemError {
    fn from(err: std::io::Error) -> (e: Self) {
        FemError::IoError(err)
    }
}

impl vstd::std_specs::convert::FromSpecImpl<std::io::Error> for FemError {
    open spec fn obeys_from_spec() -> bool {
        true
    }

    open spec fn from_spec(v: std::io::Error) -> Self {
        FemError::IoError(v)
    }
}

} // verus!
