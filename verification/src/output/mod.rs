//! The text of the result files that depends on the mesh topology alone:
//! element tables, cell lists, headers and the XDMF document. The coordinate and displacement
//! lines are written around these sections by the caller.

pub mod csv;
pub mod tecplot;
pub mod vtk;
pub mod xdmf;

pub use csv::CsvWriter;
pub use tecplot::TecplotWriter;
pub use vtk::VtkWriter;
pub use xdmf::XdmfWriter;
