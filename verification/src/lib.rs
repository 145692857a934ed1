//! Compiles a small modelling language into a typed model and generates code
//! from it.
//!
//! A source is parsed ([`parser`]) into declarations that still refer to
//! types by name ([`dangling`]), which are resolved into a model whose
//! references are places in a list of entities ([`ast`]). A target
//! ([`graphql`], [`typescript`]) turns the model into pages of code
//! ([`code`]), arranged as a tree of files ([`filestructure`]). A page that
//! is generated again is merged with what was written before, so that what
//! the user has taken over stays.
//!
//! Nothing here reads or writes files: sources arrive as text, and what is to
//! be written is handed out as a plan.

use vstd::prelude::*;

pub mod ast;
pub mod buffer;
pub mod code;
pub mod dangling;
pub mod error;
pub mod filestructure;
pub mod generator;
pub mod grammar;
pub mod graphql;
pub mod log;
pub mod parser;
pub mod project;
pub mod roundtrip;
pub mod target;
pub mod targets;
pub mod text;
pub mod typescript;

verus! {

/// The ending of the name of a file that holds a model.
pub const PAKKEN_FILE_ENDING: &'static str = ".pkn";

/// The ending of the name of a file that describes a generator.
pub const GENERATOR_FILE_ENDING: &'static str = ".pgen";

/// Where the source of a model lies.
#[derive(Debug, PartialEq, Eq)]
pub struct Model {
    pub path: String,
}

impl Model {
    /// The model whose source lies at `path`.
    pub fn new(path: String) -> (model: Model)
        ensures
            model.path == path,
    {
        Model { path }
    }
}

/// Reconciling a newly computed value with the one computed before.
pub trait Merge: Sized {
    /// Merges `other` into this value.
    fn merge(&self, other: &Self) -> Self;
}

/// Something that is written down as one piece of code with an id.
pub trait Generate {
    /// The code and its id.
    spec fn generated(&self) -> code::GeneratedCodeView;

    /// Writes the value down.
    fn generate(&self) -> (code: code::GeneratedCode)
        ensures
            code@ == self.generated(),
    ;
}

} // verus!
