//! Reading and writing PSY-Q object files (`LNK`) and archives of them
//! (`LIB`), as made by the toolchains of the PlayStation and other consoles of
//! the 1990s: the records of an object file and their relocation expressions,
//! the modules of an archive with their metadata, creation times and exported
//! names, and listings of both.
use vstd::prelude::*;

pub mod bytes;
pub mod text;
pub mod expression;
pub mod section;
pub mod object;
pub mod archive;
pub mod io;
pub mod timestamp;
pub mod names;
pub mod listing;
pub mod display;
pub mod cli;
pub mod cputype;

pub use archive::{Export, LIB, Module, ModuleMetadata, OpaqueModule};
pub use display::{CodeFormat, Options};
pub use expression::Expression;
pub use object::OBJ;
pub use section::{
    Code, Def, Def2, Dim, Filename, FunctionStart, GroupSymbol, LNKHeader, LocalSymbol, Patch,
    ProcedureCall, ProcedureDefinition, Section, SectionOffsetLine, SetMXInfo, SetSLDLineNum,
    SetSLDLineNumFile, XBSS, XDEF, XREF,
};
pub use timestamp::{DateTime, FromPSYQTimestamp};

verus! {

} // verus!
