//! Trees of generated files: merging a new tree with the one on disk, and
//! the plans for reading that one and writing the merged one.

use crate::code::{
    merged_page, page_text, parsed_page, stray_end_error, CodePage, CodePageView,
};
use crate::text::string_views;
use crate::error::{PakErrorView, PakResult};
use crate::Merge;
use vstd::prelude::*;

verus! {

/// A tree of generated files.
#[derive(Debug, PartialEq, Eq)]
pub enum FileStructure {
    /// A file: its name and its content.
    File(String, CodePage),
    /// A directory: its name and what it holds.
    Dir(String, Vec<FileStructure>),
}

/// What a [`FileStructure`] stands for.
pub ghost enum FileStructureView {
    File(Seq<char>, CodePageView),
    Dir(Seq<char>, Seq<FileStructureView>),
}

/// The trees that a list of trees stands for.
pub open spec fn tree_views(trees: Seq<FileStructure>) -> Seq<FileStructureView>
    decreases trees,
{
    Seq::new(
        trees.len(),
        |i: int|
            if 0 <= i < trees.len() {
                trees[i]@
            } else {
                arbitrary()
            },
    )
}

impl View for FileStructure {
    type V = FileStructureView;

    open spec fn view(&self) -> FileStructureView
        decreases self,
    {
        match self {
            FileStructure::File(name, content) => FileStructureView::File(name@, content@),
            FileStructure::Dir(name, content) => FileStructureView::Dir(
                name@,
                tree_views(content@),
            ),
        }
    }
}

impl FileStructureView {
    /// The name of the file or directory at the root of the tree.
    pub open spec fn name(self) -> Seq<char> {
        match self {
            FileStructureView::File(name, _) => name,
            FileStructureView::Dir(name, _) => name,
        }
    }

    /// Whether no directory of the tree holds two entries of one name.
    pub open spec fn well_formed(self) -> bool
        decreases self,
    {
        match self {
            FileStructureView::File(_, _) => true,
            FileStructureView::Dir(_, content) => {
                &&& distinct(content)
                &&& forall|i: int| 0 <= i < content.len() ==> (#[trigger] content[i]).well_formed()
            },
        }
    }
}

/// The position of the first entry of `content` that is called `name`.
pub open spec fn position_of(content: Seq<FileStructureView>, name: Seq<char>) -> Option<int>
    decreases content.len(),
{
    if content.len() == 0 {
        None
    } else if content[0].name() == name {
        Some(0)
    } else {
        match position_of(content.skip(1), name) {
            Some(i) => Some(i + 1),
            None => None,
        }
    }
}

/// The position found is that of the first entry of the name, and none is
/// found only where no entry has the name.
pub proof fn lemma_position_of(content: Seq<FileStructureView>, name: Seq<char>)
    ensures
        match position_of(content, name) {
            Some(i) => 0 <= i < content.len() && content[i].name() == name && forall|j: int|
                0 <= j < i ==> (#[trigger] content[j]).name() != name,
            None => forall|j: int| 0 <= j < content.len() ==> (#[trigger] content[j]).name() != name,
        },
    decreases content.len(),
{
    if content.len() > 0 && content[0].name() != name {
        let rest = content.skip(1);
        lemma_position_of(rest, name);
        match position_of(rest, name) {
            Some(i) => {
                assert forall|j: int| 0 <= j < i + 1 implies (#[trigger] content[j]).name()
                    != name by {
                    if j > 0 {
                        assert(rest[j - 1] == content[j]);
                    }
                }
            },
            None => {
                assert forall|j: int| 0 <= j < content.len() implies (#[trigger] content[j]).name()
                    != name by {
                    if j > 0 {
                        assert(rest[j - 1] == content[j]);
                    }
                }
            },
        }
    }
}

/// The name given to the directory that holds two trees which cannot be
/// merged into one.
pub open spec fn side_by_side_name() -> Seq<char> {
    "./"@
}

/// The tree that merging the new tree `fresh` with the earlier tree
/// `existing` gives.
///
/// Two files of one name merge their pages, two directories of one name
/// their content. Anything else is put side by side into a directory.
pub open spec fn merged_tree(
    fresh: FileStructureView,
    existing: FileStructureView,
) -> FileStructureView
    decreases fresh, 0nat,
{
    match (fresh, existing) {
        (FileStructureView::File(name, content), FileStructureView::File(other_name, other_content)) => {
            if name == other_name {
                FileStructureView::File(name, merged_page(content, other_content))
            } else {
                FileStructureView::Dir(side_by_side_name(), seq![fresh, existing])
            }
        },
        (FileStructureView::Dir(name, content), FileStructureView::Dir(other_name, other_content)) => {
            if name == other_name {
                FileStructureView::Dir(
                    name,
                    merged_entries(content, other_content) + only_in(other_content, content),
                )
            } else {
                FileStructureView::Dir(side_by_side_name(), seq![fresh, existing])
            }
        },
        _ => FileStructureView::Dir(side_by_side_name(), seq![fresh, existing]),
    }
}

/// What becomes of the entries of the new tree, given the entries of the
/// earlier directory: each one as [`merged_entry`] says, in their order.
pub open spec fn merged_entries(
    content: Seq<FileStructureView>,
    existing: Seq<FileStructureView>,
) -> Seq<FileStructureView>
    decreases content, 2nat,
{
    Seq::new(
        content.len(),
        |i: int|
            if 0 <= i < content.len() {
                merged_entry(content[i], existing)
            } else {
                arbitrary()
            },
    )
}

/// What becomes of one entry of the new tree, given the entries of the
/// earlier directory: it is merged with the first earlier entry of its name,
/// and stays as it is where there is none.
pub open spec fn merged_entry(
    entry: FileStructureView,
    existing: Seq<FileStructureView>,
) -> FileStructureView
    decreases entry, 1nat,
{
    match position_of(existing, entry.name()) {
        Some(j) => merged_tree(entry, existing[j]),
        None => entry,
    }
}

/// The entries of `content` whose name no entry of `others` has.
pub open spec fn only_in(
    content: Seq<FileStructureView>,
    others: Seq<FileStructureView>,
) -> Seq<FileStructureView> {
    content.filter(|entry: FileStructureView| position_of(others, entry.name()) is None)
}

impl Clone for FileStructure {
    fn clone(&self) -> (copy: Self)
        ensures
            copy@ == self@,
        decreases self,
    {
        match self {
            FileStructure::File(name, content) => FileStructure::File(
                name.clone(),
                content.clone(),
            ),
            FileStructure::Dir(name, content) => {
                let mut copies: Vec<FileStructure> = Vec::new();
                let mut i: usize = 0;
                while i < content.len()
                    invariant
                        i <= content.len(),
                        self is Dir,
                        self->Dir_1 == *content,
                        copies@.len() == i,
                        forall|j: int| 0 <= j < i ==> copies@[j]@ == content@[j]@,
                    decreases content.len() - i,
                {
                    assert(decreases_to!(*self => self->Dir_1));
                    assert(decreases_to!(*content => content[i as int]));
                    copies.push(content[i].clone());
                    i = i + 1;
                }
                assert(tree_views(copies@) =~= tree_views(content@));
                FileStructure::Dir(name.clone(), copies)
            },
        }
    }
}

impl FileStructure {
    /// The name of the file or directory at the root of the tree.
    pub fn get_name(&self) -> (name: &str)
        ensures
            name@ == self@.name(),
    {
        match self {
            FileStructure::File(name, _content) => name.as_str(),
            FileStructure::Dir(name, _content) => name.as_str(),
        }
    }

    /// The first entry of this directory that is called `name`, with its
    /// position. A file holds no entries.
    pub fn find<'a, 'b>(&'a self, name: &'b str) -> (found: Option<(usize, &'a FileStructure)>)
        ensures
            match found {
                Some((index, entry)) => self matches FileStructure::Dir(_, content) && position_of(
                    tree_views(content@),
                    name@,
                ) == Some(index as int) && *entry == content@[index as int],
                None => self matches FileStructure::Dir(_, content) ==> position_of(
                    tree_views(content@),
                    name@,
                ) is None,
            },
    {
        if let FileStructure::Dir(_name, content) = self {
            Self::find_in_content(content, name)
        } else {
            None
        }
    }

    /// The first entry of `content` that is called `name`, with its position.
    pub fn find_in_content<'a, 'b>(content: &'a Vec<FileStructure>, name: &'b str) -> (found:
        Option<(usize, &'a FileStructure)>)
        ensures
            match found {
                Some((index, entry)) => index < content@.len() && position_of(
                    tree_views(content@),
                    name@,
                ) == Some(index as int) && *entry == content@[index as int],
                None => position_of(tree_views(content@), name@) is None,
            },
    {
        let wanted = String::from_str(name);
        let ghost all = tree_views(content@);
        let mut index: usize = 0;
        assert(all.skip(0) =~= all);
        while index < content.len()
            invariant
                index <= content.len(),
                wanted@ == name@,
                all == tree_views(content@),
                position_of(all, name@) == match position_of(all.skip(index as int), name@) {
                    Some(k) => Some(k + index),
                    None => None,
                },
            decreases content.len() - index,
        {
            let entry = &content[index];
            let ghost rest = all.skip(index as int);
            assert(rest[0] == entry@);
            assert(rest.skip(1) =~= all.skip(index + 1));
            let matches = match entry {
                FileStructure::File(entry_name, _content) => *entry_name == wanted,
                FileStructure::Dir(entry_name, _content) => *entry_name == wanted,
            };
            if matches {
                return Some((index, entry));
            }
            index = index + 1;
        }
        None
    }
}

impl Merge for FileStructure {
    /// Merges a tree written earlier into this newly generated one.
    ///
    /// Two files of one name merge their pages, and two directories of one
    /// name their content: each entry of `self` is merged with the entry of
    /// that name in `other` where there is one, and the entries that only
    /// `other` has follow. Trees that do not match are put side by side into
    /// a directory called `./`.
    fn merge(&self, other: &Self) -> (merged: Self)
        ensures
            merged@ == merged_tree(self@, other@),
        decreases self,
    {
        match self {
            FileStructure::File(name, content) => {
                if let FileStructure::File(other_name, other_content) = other {
                    if *name == *other_name {
                        let new_content = content.merge(other_content);
                        return FileStructure::File(name.clone(), new_content);
                    }
                }
                side_by_side(self, other)
            },
            FileStructure::Dir(name, content) => {
                if let FileStructure::Dir(other_name, other_content) = other {
                    if *name == *other_name {
                        let ghost fresh = tree_views(content@);
                        let ghost existing = tree_views(other_content@);
                        let mut merged_content: Vec<FileStructure> = Vec::new();
                        let mut i: usize = 0;
                        while i < content.len()
                            invariant
                                i <= content.len(),
                                self is Dir,
                                self->Dir_1 == *content,
                                fresh == tree_views(content@),
                                existing == tree_views(other_content@),
                                merged_content@.len() == i,
                                forall|k: int|
                                    0 <= k < i ==> merged_content@[k]@ == merged_entry(
                                        fresh[k],
                                        existing,
                                    ),
                            decreases content.len() - i,
                        {
                            let entry = &content[i];
                            assert(decreases_to!(*self => self->Dir_1));
                            assert(decreases_to!(*content => content[i as int]));
                            assert(fresh[i as int] == entry@);
                            match Self::find_in_content(other_content, entry.get_name()) {
                                Some((index, found)) => {
                                    assert(existing[index as int] == found@);
                                    merged_content.push(entry.merge(found));
                                },
                                None => {
                                    merged_content.push(entry.clone());
                                },
                            }
                            i = i + 1;
                        }
                        assert(tree_views(merged_content@) =~= merged_entries(fresh, existing));
                        let mut j: usize = 0;
                        proof {
                            reveal(Seq::filter);
                            assert(only_in(existing.take(0), fresh) =~= Seq::<
                                FileStructureView,
                            >::empty());
                            assert(merged_entries(fresh, existing) + Seq::<
                                FileStructureView,
                            >::empty() =~= merged_entries(fresh, existing));
                        }
                        while j < other_content.len()
                            invariant
                                j <= other_content.len(),
                                fresh == tree_views(content@),
                                existing == tree_views(other_content@),
                                tree_views(merged_content@) == merged_entries(fresh, existing)
                                    + only_in(
                                    existing.take(j as int),
                                    fresh,
                                ),
                            decreases other_content.len() - j,
                        {
                            let entry = &other_content[j];
                            let ghost before = tree_views(merged_content@);
                            proof {
                                reveal(Seq::filter);
                                assert(existing.take(j + 1).drop_last() =~= existing.take(j as int));
                                assert(existing.take(j + 1).last() == entry@);
                            }
                            if Self::find_in_content(content, entry.get_name()).is_none() {
                                merged_content.push(entry.clone());
                                assert(tree_views(merged_content@) =~= before.push(entry@));
                                assert(before.push(entry@) =~= merged_entries(fresh, existing)
                                    + only_in(existing.take(j as int), fresh).push(entry@));
                            } else {
                                assert(tree_views(merged_content@) =~= before);
                            }
                            j = j + 1;
                        }
                        assert(existing.take(j as int) =~= existing);
                        return FileStructure::Dir(name.clone(), merged_content);
                    }
                }
                side_by_side(self, other)
            },
        }
    }
}

fn side_by_side(fresh: &FileStructure, existing: &FileStructure) -> (both: FileStructure)
    ensures
        both@ == FileStructureView::Dir(side_by_side_name(), seq![fresh@, existing@]),
{
    let mut content: Vec<FileStructure> = Vec::new();
    content.push(fresh.clone());
    content.push(existing.clone());
    assert(tree_views(content@) =~= seq![fresh@, existing@]);
    FileStructure::Dir(String::from_str("./"), content)
}

/// Whether two trees fit together: wherever an entry of the new tree meets
/// an entry of the same name in the earlier tree, both are files or both are
/// directories.
pub open spec fn fit(fresh: FileStructureView, existing: FileStructureView) -> bool
    decreases fresh,
{
    match (fresh, existing) {
        (FileStructureView::File(_, _), FileStructureView::File(_, _)) => true,
        (FileStructureView::Dir(name, content), FileStructureView::Dir(other_name, other_content)) => {
            name != other_name || forall|i: int|
                0 <= i < content.len() ==> (position_of(
                    other_content,
                    (#[trigger] content[i]).name(),
                ) matches Some(j) ==> fit(content[i], other_content[j]))
        },
        _ => fresh.name() != existing.name(),
    }
}

/// Whether no two of `content` have the same name.
pub open spec fn distinct(content: Seq<FileStructureView>) -> bool {
    forall|i: int, j: int|
        0 <= i < j < content.len() ==> (#[trigger] content[i]).name() != (
        #[trigger] content[j]).name()
}

/// Leaving entries out of a list of distinct names leaves distinct names.
proof fn lemma_filter_distinct(
    content: Seq<FileStructureView>,
    keep: spec_fn(FileStructureView) -> bool,
)
    requires
        distinct(content),
    ensures
        distinct(content.filter(keep)),
    decreases content.len(),
{
    reveal(Seq::filter);
    if content.len() > 0 {
        let init = content.drop_last();
        assert forall|i: int, j: int| 0 <= i < j < init.len() implies (#[trigger] init[i]).name()
            != (#[trigger] init[j]).name() by {
            assert(init[i] == content[i]);
            assert(init[j] == content[j]);
        }
        lemma_filter_distinct(init, keep);
        let kept = init.filter(keep);
        if keep(content.last()) {
            let all = kept.push(content.last());
            assert forall|i: int, j: int| 0 <= i < j < all.len() implies (#[trigger] all[i]).name()
                != (#[trigger] all[j]).name() by {
                if j == kept.len() {
                    assert(kept.contains(kept[i]));
                    init.lemma_filter_contains_rev(keep, kept[i]);
                    let k = choose|k: int| 0 <= k < init.len() && init[k] == kept[i];
                    assert(content[k] == init[k]);
                    assert(content[content.len() - 1] == content.last());
                } else {
                    assert(all[i] == kept[i]);
                    assert(all[j] == kept[j]);
                }
            }
        }
    }
}

/// Trees of one name that fit together merge into a tree of that name.
proof fn lemma_merged_name(fresh: FileStructureView, existing: FileStructureView)
    requires
        fit(fresh, existing),
        fresh.name() == existing.name(),
    ensures
        merged_tree(fresh, existing).name() == fresh.name(),
{
}

/// Merging keeps the names in a directory apart: where the new tree and the
/// earlier tree both hold no directory with two entries of one name, and
/// the two fit together, the merged tree holds no such directory either.
pub proof fn lemma_merge_well_formed(fresh: FileStructureView, existing: FileStructureView)
    requires
        fresh.well_formed(),
        existing.well_formed(),
        fit(fresh, existing),
    ensures
        merged_tree(fresh, existing).well_formed(),
    decreases fresh,
{
    let merged = merged_tree(fresh, existing);
    match (fresh, existing) {
        (FileStructureView::Dir(name, content), FileStructureView::Dir(other_name, other_content)) => {
            if name == other_name {
                let first = merged_entries(content, other_content);
                let keep = |entry: FileStructureView|
                    position_of(content, entry.name()) is None;
                let second = only_in(other_content, content);
                let all = first + second;
                assert(merged == FileStructureView::Dir(name, all));
                assert(distinct(other_content));
                lemma_filter_distinct(other_content, keep);
                assert forall|i: int| 0 <= i < first.len() implies (#[trigger] first[i]).name()
                    == content[i].name() && first[i].well_formed() by {
                    lemma_position_of(other_content, content[i].name());
                    match position_of(other_content, content[i].name()) {
                        Some(j) => {
                            lemma_merged_name(content[i], other_content[j]);
                            lemma_merge_well_formed(content[i], other_content[j]);
                        },
                        None => {},
                    }
                }
                assert forall|k: int| 0 <= k < second.len() implies (#[trigger] second[k]).well_formed()
                    && position_of(content, second[k].name()) is None by {
                    other_content.lemma_filter_pred(keep, k);
                    assert(second.contains(second[k]));
                    other_content.lemma_filter_contains_rev(keep, second[k]);
                    let j = choose|j: int|
                        0 <= j < other_content.len() && other_content[j] == second[k];
                    assert(other_content[j].well_formed());
                }
                assert forall|i: int, j: int| 0 <= i < j < all.len() implies (#[trigger] all[i]).name()
                    != (#[trigger] all[j]).name() by {
                    if j < first.len() {
                        assert(all[i] == first[i]);
                        assert(all[j] == first[j]);
                        assert(content[i].name() != content[j].name());
                    } else if i < first.len() {
                        assert(all[i] == first[i]);
                        assert(all[j] == second[j - first.len()]);
                        lemma_position_of(content, second[j - first.len()].name());
                        assert(content[i].name() != second[j - first.len()].name());
                    } else {
                        assert(all[i] == second[i - first.len()]);
                        assert(all[j] == second[j - first.len()]);
                    }
                }
                assert forall|i: int| 0 <= i < all.len() implies (#[trigger] all[i]).well_formed() by {
                    if i < first.len() {
                        assert(all[i] == first[i]);
                    } else {
                        assert(all[i] == second[i - first.len()]);
                    }
                }
            } else {
                let both = seq![fresh, existing];
                assert(merged == FileStructureView::Dir(side_by_side_name(), both));
            }
        },
        (FileStructureView::File(name, _), FileStructureView::File(other_name, _)) => {
            if name != other_name {
                let both = seq![fresh, existing];
                assert(merged == FileStructureView::Dir(side_by_side_name(), both));
            }
        },
        _ => {
            let both = seq![fresh, existing];
            assert(merged == FileStructureView::Dir(side_by_side_name(), both));
        },
    }
}

/// What lies on disk where a tree would be written, in the shape of that
/// tree.
#[derive(Debug, PartialEq, Eq)]
pub enum Found {
    /// Nothing lies there.
    Missing,
    /// A file lies there; holds its text.
    File(String),
    /// A directory lies there; holds what was found for each entry of the
    /// tree, in the order of the entries.
    Dir(Vec<Found>),
}

/// What a [`Found`] stands for.
pub ghost enum FoundView {
    Missing,
    File(Seq<char>),
    Dir(Seq<FoundView>),
}

/// What a list of finds stands for.
pub open spec fn found_views(found: Seq<Found>) -> Seq<FoundView>
    decreases found,
{
    Seq::new(
        found.len(),
        |i: int|
            if 0 <= i < found.len() {
                found[i]@
            } else {
                FoundView::Missing
            },
    )
}

impl View for Found {
    type V = FoundView;

    open spec fn view(&self) -> FoundView
        decreases self,
    {
        match self {
            Found::Missing => FoundView::Missing,
            Found::File(text) => FoundView::File(text@),
            Found::Dir(content) => FoundView::Dir(found_views(content@)),
        }
    }
}

/// What was found for the entry at `place`; nothing where the finds end
/// before it.
pub open spec fn found_at(found: Seq<FoundView>, place: int) -> FoundView {
    if 0 <= place < found.len() {
        found[place]
    } else {
        FoundView::Missing
    }
}

/// The tree that lies on disk in the shape of `template`, given what was
/// found there.
///
/// A file that lies there is read as a page with the comment token of the
/// template; a directory that lies there holds the entries of the template
/// that lie there. Where nothing lies, or a file where a directory is
/// expected or the other way round, there is no tree. A file that cannot be
/// read as a page is an error.
pub open spec fn shadow_of(template: FileStructureView, found: FoundView) -> Result<
    Option<FileStructureView>,
    PakErrorView,
>
    decreases template, 1nat,
{
    match (template, found) {
        (FileStructureView::File(name, page), FoundView::File(text)) => match parsed_page(
            page.comment_string,
            text,
        ) {
            Some(read) => Ok(Some(FileStructureView::File(name, read))),
            None => Err(stray_end_error()),
        },
        (FileStructureView::Dir(name, content), FoundView::Dir(found_content)) => match shadows_of(
            content,
            found_content,
            content.len() as int,
        ) {
            Ok(shadows) => Ok(Some(FileStructureView::Dir(name, shadows))),
            Err(error) => Err(error),
        },
        _ => Ok(None),
    }
}

/// The trees that lie on disk in the shape of the first `count` of
/// `content`, or the error of the first of them that cannot be read.
pub open spec fn shadows_of(
    content: Seq<FileStructureView>,
    found: Seq<FoundView>,
    count: int,
) -> Result<Seq<FileStructureView>, PakErrorView>
    decreases content, 0nat, count,
{
    if count <= 0 || count > content.len() {
        Ok(Seq::empty())
    } else {
        match shadows_of(content, found, count - 1) {
            Err(error) => Err(error),
            Ok(before) => match shadow_of(content[count - 1], found_at(found, count - 1)) {
                Err(error) => Err(error),
                Ok(Some(shadow)) => Ok(before.push(shadow)),
                Ok(None) => Ok(before),
            },
        }
    }
}

/// What a result of reading a tree back stands for.
pub open spec fn shadow_view(result: PakResult<Option<FileStructure>>) -> Result<
    Option<FileStructureView>,
    PakErrorView,
> {
    match result {
        Ok(Some(tree)) => Ok(Some(tree@)),
        Ok(None) => Ok(None),
        Err(error) => Err(error@),
    }
}

impl FileStructure {
    /// Puts together the tree that lies on disk in the shape of this tree,
    /// from what was found there.
    pub fn shadow_from(&self, found: &Found) -> (shadow: PakResult<Option<FileStructure>>)
        ensures
            shadow_view(shadow) == shadow_of(self@, found@),
        decreases self,
    {
        match self {
            FileStructure::File(name, code) => {
                if let Found::File(text) = found {
                    match CodePage::from(code.comment_string, text.as_str()) {
                        Ok(page) => Ok(Some(FileStructure::File(name.clone(), page))),
                        Err(error) => Err(error),
                    }
                } else {
                    Ok(None)
                }
            },
            FileStructure::Dir(name, content) => {
                if let Found::Dir(found_content) = found {
                    let ghost entries = tree_views(content@);
                    let ghost finds = found_views(found_content@);
                    let mut shadowed_content: Vec<FileStructure> = Vec::new();
                    let missing = Found::Missing;
                    let mut i: usize = 0;
                    assert(tree_views(shadowed_content@) =~= Seq::<FileStructureView>::empty());
                    while i < content.len()
                        invariant
                            i <= content.len(),
                            self is Dir,
                            self->Dir_1 == *content,
                            entries == tree_views(content@),
                            finds == found_views(found_content@),
                            self@ matches FileStructureView::Dir(_, c) && c == entries,
                            found@ == FoundView::Dir(finds),
                            missing@ == FoundView::Missing,
                            shadows_of(entries, finds, i as int) == Ok::<
                                Seq<FileStructureView>,
                                PakErrorView,
                            >(tree_views(shadowed_content@)),
                        decreases content.len() - i,
                    {
                        assert(decreases_to!(*self => self->Dir_1));
                        assert(decreases_to!(*content => content[i as int]));
                        assert(entries[i as int] == content@[i as int]@);
                        let entry_found = if i < found_content.len() {
                            assert(finds[i as int] == found_content@[i as int]@);
                            &found_content[i]
                        } else {
                            &missing
                        };
                        assert(entry_found@ == found_at(finds, i as int));
                        let ghost before = tree_views(shadowed_content@);
                        match content[i].shadow_from(entry_found) {
                            Ok(Some(new_fs)) => {
                                shadowed_content.push(new_fs);
                                assert(tree_views(shadowed_content@) =~= before.push(new_fs@));
                            },
                            Ok(None) => {},
                            Err(error) => {
                                proof {
                                    lemma_shadows_fail(entries, finds, i + 1, content.len() as int);
                                }
                                return Err(error);
                            },
                        }
                        i = i + 1;
                    }
                    Ok(Some(FileStructure::Dir(name.clone(), shadowed_content)))
                } else {
                    Ok(None)
                }
            },
        }
    }
}

/// Once one entry cannot be read, the error stays whatever follows.
proof fn lemma_shadows_fail(
    content: Seq<FileStructureView>,
    found: Seq<FoundView>,
    count: int,
    more: int,
)
    requires
        0 <= count <= more <= content.len(),
        shadows_of(content, found, count) is Err,
    ensures
        shadows_of(content, found, more) == shadows_of(content, found, count),
    decreases more - count,
{
    if count < more {
        lemma_shadows_fail(content, found, count, more - 1);
    }
}

/// One step of writing a tree to disk. A path is given by the names on
/// the way, from the directory that the tree is written into.
#[derive(Debug, PartialEq, Eq)]
pub enum SaveStep {
    /// Make the directory at this path, unless it is there already.
    Directory(Vec<String>),
    /// SaveStep this text to the file at this path, in place of what it held.
    Page(Vec<String>, String),
}

/// What a [`SaveStep`] stands for.
pub ghost enum SaveStepView {
    Directory(Seq<Seq<char>>),
    Page(Seq<Seq<char>>, Seq<char>),
}

impl View for SaveStep {
    type V = SaveStepView;

    open spec fn view(&self) -> SaveStepView {
        match self {
            SaveStep::Directory(path) => SaveStepView::Directory(string_views(path@)),
            SaveStep::Page(path, text) => SaveStepView::Page(string_views(path@), text@),
        }
    }
}

/// What a list of steps stands for.
pub open spec fn step_views(writes: Seq<SaveStep>) -> Seq<SaveStepView> {
    Seq::new(writes.len(), |i: int| writes[i]@)
}

/// The steps that write `tree` below the path `above`: a file is written
/// with the text of its page, a directory is made before what it holds is
/// written, entry by entry.
pub open spec fn steps_of(tree: FileStructureView, above: Seq<Seq<char>>) -> Seq<SaveStepView>
    decreases tree, 1nat,
{
    match tree {
        FileStructureView::File(name, page) => seq![
            SaveStepView::Page(above.push(name), page_text(page)),
        ],
        FileStructureView::Dir(name, content) => seq![SaveStepView::Directory(above.push(name))]
            + content_steps(content, above.push(name), content.len() as int),
    }
}

/// The steps that write the first `count` of `content` below the path
/// `above`.
pub open spec fn content_steps(
    content: Seq<FileStructureView>,
    above: Seq<Seq<char>>,
    count: int,
) -> Seq<SaveStepView>
    decreases content, 0nat, count,
{
    if count <= 0 || count > content.len() {
        Seq::empty()
    } else {
        content_steps(content, above, count - 1) + steps_of(content[count - 1], above)
    }
}

fn clone_path(path: &Vec<String>) -> (copy: Vec<String>)
    ensures
        string_views(copy@) == string_views(path@),
{
    let mut copy: Vec<String> = Vec::new();
    let mut i: usize = 0;
    while i < path.len()
        invariant
            i <= path.len(),
            copy@.len() == i,
            forall|k: int| 0 <= k < i ==> (#[trigger] copy@[k])@ == path@[k]@,
        decreases path.len() - i,
    {
        copy.push(path[i].clone());
        i = i + 1;
    }
    assert(string_views(copy@) =~= string_views(path@));
    copy
}

impl FileStructure {
    /// The steps that write this tree into a directory, in the order in
    /// which they are to be taken.
    pub fn save_plan(&self) -> (plan: Vec<SaveStep>)
        ensures
            step_views(plan@) == steps_of(self@, Seq::empty()),
    {
        let mut plan: Vec<SaveStep> = Vec::new();
        let above: Vec<String> = Vec::new();
        assert(string_views(above@) =~= Seq::<Seq<char>>::empty());
        assert(step_views(plan@) =~= Seq::<SaveStepView>::empty());
        self.plan_below(&above, &mut plan);
        assert(Seq::<SaveStepView>::empty() + steps_of(self@, Seq::empty()) =~= steps_of(
            self@,
            Seq::empty(),
        ));
        plan
    }

    fn plan_below(&self, above: &Vec<String>, plan: &mut Vec<SaveStep>)
        ensures
            step_views(final(plan)@) == step_views(old(plan)@) + steps_of(
                self@,
                string_views(above@),
            ),
        decreases self,
    {
        let ghost start = step_views(plan@);
        let ghost prefix = string_views(above@);
        let mut path = clone_path(above);
        match self {
            FileStructure::File(name, content) => {
                path.push(name.clone());
                assert(string_views(path@) =~= prefix.push(name@));
                let step = SaveStep::Page(path, content.build());
                plan.push(step);
                assert(step_views(plan@) =~= start + steps_of(self@, prefix));
            },
            FileStructure::Dir(name, content) => {
                path.push(name.clone());
                assert(string_views(path@) =~= prefix.push(name@));
                plan.push(SaveStep::Directory(clone_path(&path)));
                let ghost entries = tree_views(content@);
                let ghost below = string_views(path@);
                let ghost opened = step_views(plan@);
                assert(opened =~= start + seq![SaveStepView::Directory(below)]);
                assert(opened + content_steps(entries, below, 0) =~= opened);
                let mut i: usize = 0;
                while i < content.len()
                    invariant
                        i <= content.len(),
                        self is Dir,
                        self->Dir_1 == *content,
                        entries == tree_views(content@),
                        below == string_views(path@),
                        step_views(plan@) == opened + content_steps(entries, below, i as int),
                    decreases content.len() - i,
                {
                    assert(decreases_to!(*self => self->Dir_1));
                    assert(decreases_to!(*content => content[i as int]));
                    assert(entries[i as int] == content@[i as int]@);
                    content[i].plan_below(&path, plan);
                    assert(step_views(plan@) =~= opened + (content_steps(entries, below, i as int)
                        + steps_of(entries[i as int], below)));
                    i = i + 1;
                }
                assert(step_views(plan@) =~= start + steps_of(self@, prefix));
            },
        }
    }
}

} // verus!
