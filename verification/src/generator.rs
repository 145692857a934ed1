//! Generators, which tie a target to where its files go.

use crate::ast::Namespace;
use crate::error::{PakErrorView, PakResult};
use crate::filestructure::{merged_tree, FileStructure, FileStructureView};
use crate::target::{generation_view, target_position, Target, TargetRepository};
use crate::Merge;
use vstd::prelude::*;

verus! {

/// The options of a target. There are none yet.
#[derive(Debug, Clone, Copy, PartialEq, Eq, Structural)]
pub struct TargetOptions;

/// What generates the code of one target into one directory.
#[derive(Debug, PartialEq, Eq)]
pub struct Generator {
    pub target_name: String,
    pub path: String,
    pub options: Option<TargetOptions>,
}

/// Collects what a [`Generator`] needs.
pub struct GeneratorBuilder {
    target_name: String,
    options: Option<TargetOptions>,
}

/// What a [`Generator`] or a [`GeneratorBuilder`] stands for.
pub ghost struct GeneratorView {
    pub target_name: Seq<char>,
    pub path: Seq<char>,
    pub options: Option<TargetOptions>,
}

impl View for Generator {
    type V = GeneratorView;

    open spec fn view(&self) -> GeneratorView {
        GeneratorView { target_name: self.target_name@, path: self.path@, options: self.options }
    }
}

impl View for GeneratorBuilder {
    type V = GeneratorView;

    closed spec fn view(&self) -> GeneratorView {
        GeneratorView {
            target_name: self.target_name@,
            path: Seq::empty(),
            options: self.options,
        }
    }
}

impl GeneratorBuilder {
    /// A builder for the target called `target`, without options.
    pub fn new(target: &str) -> (builder: GeneratorBuilder)
        ensures
            builder@ == (GeneratorView {
                target_name: target@,
                path: Seq::empty(),
                options: None,
            }),
    {
        GeneratorBuilder { target_name: String::from_str(target), options: None }
    }

    /// Sets the options.
    pub fn with_options(&mut self, options: TargetOptions) -> (builder: &mut Self)
        ensures
            builder@ == (GeneratorView { options: Some(options), ..old(self)@ }),
            *final(self) == *final(builder),
    {
        self.options = Some(options);
        self
    }

    /// The generator that writes below `out_dir`.
    pub fn build(&self, out_dir: &str) -> (generator: Generator)
        ensures
            generator@ == (GeneratorView { path: out_dir@, ..self@ }),
    {
        Generator {
            path: String::from_str(out_dir),
            target_name: self.target_name.clone(),
            options: self.options,
        }
    }
}

/// What generating for the target called `target_name` gives for the source
/// of a model: what the first target of that name makes of it, and where
/// there is no such target, the error that names what was asked for.
pub open spec fn generated_by<T: Target>(
    targets: Seq<T>,
    target_name: Seq<char>,
    source: Seq<char>,
) -> Result<FileStructureView, PakErrorView> {
    match target_position(targets, target_name) {
        Some(i) => targets[i].generated_from(source),
        None => Err(PakErrorView::TargetNotFound(target_name)),
    }
}

/// The tree to write: the newly generated one, merged with what is on disk
/// where something is.
pub open spec fn reconciled(
    generated: FileStructureView,
    existing: Option<FileStructureView>,
) -> FileStructureView {
    match existing {
        Some(existing) => merged_tree(generated, existing),
        None => generated,
    }
}

/// The name of the file that describes the generator of the target called
/// `target`.
pub fn descriptor_name(target: &str) -> (name: String)
    ensures
        name@ == target@ + ".pgen"@,
{
    String::from_str(target).concat(crate::GENERATOR_FILE_ENDING)
}

impl Generator {
    /// Generates the files for the model whose source is `source` with this
    /// generator's target. Nothing is read or written: what lies where the
    /// files will go is merged in by [`Generator::reconcile`].
    pub fn generate<T: Target>(&self, target_repo: &TargetRepository<T>, source: &str) -> (generated:
        PakResult<FileStructure>)
        ensures
            generation_view(generated) == generated_by(target_repo@, self@.target_name, source@),
    {
        match target_repo.find(self.target_name.as_str()) {
            Ok(target) => target.generate_from(source),
            Err(error) => Err(error),
        }
    }

    /// The tree to write, given the newly generated tree and the tree that
    /// was read back from where it will be written, if anything was there.
    pub fn reconcile(generated: &FileStructure, existing: Option<&FileStructure>) -> (tree:
        FileStructure)
        ensures
            tree@ == reconciled(
                generated@,
                match existing {
                    Some(existing) => Some(existing@),
                    None => None,
                },
            ),
    {
        match existing {
            Some(existing) => generated.merge(existing),
            None => generated.clone(),
        }
    }
}

/// Making a value of one representation out of a model of another.
pub trait Transform<M>: Sized {
    /// The models that can be transformed.
    spec fn accepts(model: &M) -> bool;

    /// The value made of `model`.
    fn transform(model: &M) -> Self
        requires
            Self::accepts(model),
    ;
}

/// A part of a model together with the namespace that its references point
/// into.
pub struct Within<'a, T> {
    pub namespace: &'a Namespace,
    pub part: &'a T,
}

/// Making a value out of a model that is used up.
pub trait Generative<M>: Sized {
    /// The value made of `model`.
    fn generate(model: M) -> Self;
}

} // verus!
