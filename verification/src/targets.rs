//! The targets that come with the library.

use crate::error::{PakErrorView, PakResult};
use crate::filestructure::{FileStructure, FileStructureView};
use crate::graphql::{schema_from, GraphQLTarget};
use crate::target::{Target, TargetRepository};
use crate::typescript::{declarations_from, TypeScriptTarget};
use vstd::prelude::*;

verus! {

/// The targets that come with the library.
#[derive(Debug)]
pub enum BuiltinTarget {
    GraphQL(GraphQLTarget),
    TypeScript(TypeScriptTarget),
}

impl Target for BuiltinTarget {
    open spec fn name_spec(&self) -> Seq<char> {
        match self {
            BuiltinTarget::GraphQL(_) => "graphql"@,
            BuiltinTarget::TypeScript(_) => "typescript"@,
        }
    }

    open spec fn generated_from(&self, source: Seq<char>) -> Result<
        FileStructureView,
        PakErrorView,
    > {
        match self {
            BuiltinTarget::GraphQL(_) => schema_from(source),
            BuiltinTarget::TypeScript(_) => declarations_from(source),
        }
    }

    fn name(&self) -> (name: &'static str) {
        match self {
            BuiltinTarget::GraphQL(target) => target.name(),
            BuiltinTarget::TypeScript(target) => target.name(),
        }
    }

    fn generate_from(&self, source: &str) -> (generated: PakResult<FileStructure>) {
        match self {
            BuiltinTarget::GraphQL(target) => target.generate_from(source),
            BuiltinTarget::TypeScript(target) => target.generate_from(source),
        }
    }
}

/// The repository of the targets that come with the library: the GraphQL
/// target, then the TypeScript target.
pub fn load_targets() -> (repository: TargetRepository<BuiltinTarget>)
    ensures
        repository@ == seq![
            BuiltinTarget::GraphQL(GraphQLTarget {  }),
            BuiltinTarget::TypeScript(TypeScriptTarget {  }),
        ],
{
    let mut repository = TargetRepository::new();
    let _ = repository.add(BuiltinTarget::GraphQL(GraphQLTarget {  }));
    let _ = repository.add(BuiltinTarget::TypeScript(TypeScriptTarget {  }));
    assert(repository@ =~= seq![
        BuiltinTarget::GraphQL(GraphQLTarget {  }),
        BuiltinTarget::TypeScript(TypeScriptTarget {  }),
    ]);
    repository
}

} // verus!
