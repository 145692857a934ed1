//! Projects and the names of their files.

use crate::text::push_char;
use vstd::prelude::*;

verus! {

/// A project: its name and where the source of its model lies.
#[derive(Debug, PartialEq, Eq)]
pub struct Project {
    pub name: String,
    pub model: String,
}

/// What a [`Project`] stands for.
pub ghost struct ProjectView {
    pub name: Seq<char>,
    pub model: Seq<char>,
}

impl View for Project {
    type V = ProjectView;

    open spec fn view(&self) -> ProjectView {
        ProjectView { name: self.name@, model: self.model@ }
    }
}

/// Where a target comes from.
#[derive(Debug, PartialEq, Eq)]
pub enum TargetLocation {
    /// A repository on GitHub.
    GitHub(String),
    /// A directory on this machine.
    Local(String),
}

/// The name of the project that is asked for as `raw`: a name is no path, so
/// every slash in it becomes a hyphen.
pub open spec fn project_name_of(raw: Seq<char>) -> Seq<char> {
    Seq::new(
        raw.len(),
        |i: int|
            if raw[i] == '/' {
                '-'
            } else {
                raw[i]
            },
    )
}

/// The name of the project that is asked for as `raw`.
pub fn project_name(raw: &str) -> (name: String)
    ensures
        name@ == project_name_of(raw@),
{
    let mut name = String::new();
    for c in it: raw.chars()
        invariant
            it.seq() == raw@,
            name@ == project_name_of(raw@.take(it.index())),
    {
        let ghost done = raw@.take(it.index());
        let ghost next = raw@.take(it.index() + 1);
        if c == '/' {
            push_char(&mut name, '-');
        } else {
            push_char(&mut name, c);
        }
        assert(name@ =~= project_name_of(next));
    }
    assert(raw@.take(raw@.len() as int) =~= raw@);
    name
}

impl Project {
    /// A new project called `name`. Its model lies in the file that is
    /// called like the project, with the ending of model files.
    pub fn from(name: &str) -> (project: Project)
        ensures
            project@ == (ProjectView { name: name@, model: name@ + ".pkn"@ }),
    {
        let mut default_model_file = String::from_str(name);
        default_model_file.append(crate::PAKKEN_FILE_ENDING);
        Project { name: String::from_str(name), model: default_model_file }
    }
}

} // verus!
