//! Targets and the repository that finds them by name.

use crate::error::{PakError, PakErrorView, PakResult};
use crate::filestructure::{FileStructure, FileStructureView};
use crate::text::string_views;
use vstd::prelude::*;

verus! {

/// What a result of generating stands for.
pub open spec fn generation_view(result: PakResult<FileStructure>) -> Result<
    FileStructureView,
    PakErrorView,
> {
    match result {
        Ok(tree) => Ok(tree@),
        Err(error) => Err(error@),
    }
}

/// A code generator: it has a name and turns the source of a model into a
/// tree of files.
pub trait Target {
    /// The name under which the target is found.
    spec fn name_spec(&self) -> Seq<char>;

    /// What the target makes of the source of a model.
    spec fn generated_from(&self, source: Seq<char>) -> Result<FileStructureView, PakErrorView>;

    /// The name under which the target is found.
    fn name(&self) -> (name: &'static str)
        ensures
            name@ == self.name_spec(),
    ;

    /// Generates the files for the model whose source is `source`.
    fn generate_from(&self, source: &str) -> (generated: PakResult<FileStructure>)
        ensures
            generation_view(generated) == self.generated_from(source@),
    ;
}

/// The targets that can be asked for by name.
pub struct TargetRepository<T: Target> {
    targets: Vec<T>,
}

/// The place of the first of `targets` that is called `name`.
pub open spec fn target_position<T: Target>(targets: Seq<T>, name: Seq<char>) -> Option<int>
    decreases targets.len(),
{
    if targets.len() == 0 {
        None
    } else if targets[0].name_spec() == name {
        Some(0)
    } else {
        match target_position(targets.skip(1), name) {
            Some(i) => Some(i + 1),
            None => None,
        }
    }
}

impl<T: Target> View for TargetRepository<T> {
    type V = Seq<T>;

    closed spec fn view(&self) -> Seq<T> {
        self.targets@
    }
}

impl<T: Target> TargetRepository<T> {
    /// A repository without targets.
    pub fn new() -> (repository: Self)
        ensures
            repository@ == Seq::<T>::empty(),
    {
        TargetRepository { targets: Vec::new() }
    }

    /// Registers `target` after the targets that are registered already.
    pub fn add(&mut self, target: T) -> (added: PakResult<()>)
        ensures
            added is Ok,
            final(self)@ == old(self)@.push(target),
    {
        self.targets.push(target);
        Ok(())
    }

    /// The first target that is called `target_name`. Where there is none,
    /// the error names what was asked for.
    pub fn find(&self, target_name: &str) -> (found: PakResult<&T>)
        ensures
            match found {
                Ok(target) => target_position(self@, target_name@) matches Some(i) && *target
                    == self@[i],
                Err(error) => target_position(self@, target_name@) is None && error@
                    == PakErrorView::TargetNotFound(target_name@),
            },
    {
        let wanted = String::from_str(target_name);
        let mut i: usize = 0;
        assert(self@.skip(0) =~= self@);
        while i < self.targets.len()
            invariant
                i <= self.targets.len(),
                wanted@ == target_name@,
                target_position(self@, target_name@) == match target_position(
                    self@.skip(i as int),
                    target_name@,
                ) {
                    Some(k) => Some(k + i),
                    None => None,
                },
            decreases self.targets.len() - i,
        {
            let ghost rest = self@.skip(i as int);
            assert(rest[0] == self.targets@[i as int]);
            assert(rest.skip(1) =~= self@.skip(i + 1));
            if String::from_str(self.targets[i].name()) == wanted {
                return Ok(&self.targets[i]);
            }
            i = i + 1;
        }
        Err(PakError::TargetNotFound(wanted))
    }

    /// The names of the targets, in the order in which they were registered.
    pub fn list(&self) -> (names: Vec<String>)
        ensures
            string_views(names@) == Seq::new(self@.len(), |i: int| self@[i].name_spec()),
    {
        let mut names: Vec<String> = Vec::new();
        let mut i: usize = 0;
        while i < self.targets.len()
            invariant
                i <= self.targets.len(),
                names@.len() == i,
                forall|k: int| 0 <= k < i ==> (#[trigger] names@[k])@ == self@[k].name_spec(),
            decreases self.targets.len() - i,
        {
            names.push(String::from_str(self.targets[i].name()));
            i = i + 1;
        }
        assert(string_views(names@) =~= Seq::new(self@.len(), |i: int| self@[i].name_spec()));
        names
    }
}

} // verus!
