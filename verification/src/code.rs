//! Pages of generated code: fragments between marker lines, written down,
//! read back, and merged with what was written before.

use crate::buffer::Buffer;
use crate::error::{PakError, PakErrorView, PakResult};
use crate::text::{
    extend, lines, same, split_lines, starts_with, tail, texts, to_chars, to_text, trim, trimmed,
};
use crate::Merge;
use vstd::prelude::*;

verus! {

/// A piece of generated text together with the id that finds it again in
/// a page written earlier.
#[derive(Debug, PartialEq, Eq)]
pub struct GeneratedCode {
    pub code: String,
    pub id: String,
}

/// What a [`GeneratedCode`] stands for.
pub ghost struct GeneratedCodeView {
    pub code: Seq<char>,
    pub id: Seq<char>,
}

/// One region of a page.
#[derive(Debug, PartialEq, Eq)]
pub enum CodeFragment {
    /// Written by a generator, rewritten by the next run.
    Generated(GeneratedCode),
    /// Taken over by the user: a run keeps it as it is.
    NotGenerated(GeneratedCode),
    /// Free text between the marked regions.
    Other(String),
}

/// What a [`CodeFragment`] stands for.
pub ghost enum CodeFragmentView {
    Generated(GeneratedCodeView),
    NotGenerated(GeneratedCodeView),
    Other(Seq<char>),
}

/// The text of one generated file, as an ordered list of fragments, with the
/// token that starts a line comment in the file's language.
#[derive(Debug, PartialEq, Eq)]
pub struct CodePage {
    pub fragments: Vec<CodeFragment>,
    pub comment_string: &'static str,
}

/// What a [`CodePage`] stands for.
pub ghost struct CodePageView {
    pub fragments: Seq<CodeFragmentView>,
    pub comment_string: Seq<char>,
}

impl View for GeneratedCode {
    type V = GeneratedCodeView;

    open spec fn view(&self) -> GeneratedCodeView {
        GeneratedCodeView { code: self.code@, id: self.id@ }
    }
}

impl View for CodeFragment {
    type V = CodeFragmentView;

    open spec fn view(&self) -> CodeFragmentView {
        match self {
            CodeFragment::Generated(g) => CodeFragmentView::Generated(g@),
            CodeFragment::NotGenerated(g) => CodeFragmentView::NotGenerated(g@),
            CodeFragment::Other(text) => CodeFragmentView::Other(text@),
        }
    }
}

/// The fragments that a list of fragments stands for.
pub open spec fn fragment_views(fragments: Seq<CodeFragment>) -> Seq<CodeFragmentView> {
    Seq::new(fragments.len(), |i: int| fragments[i]@)
}

impl View for CodePage {
    type V = CodePageView;

    open spec fn view(&self) -> CodePageView {
        CodePageView {
            fragments: fragment_views(self.fragments@),
            comment_string: self.comment_string@,
        }
    }
}

impl Clone for GeneratedCode {
    fn clone(&self) -> (copy: Self)
        ensures
            copy == *self,
    {
        GeneratedCode { code: self.code.clone(), id: self.id.clone() }
    }
}

impl Clone for CodeFragment {
    fn clone(&self) -> (copy: Self)
        ensures
            copy == *self,
    {
        match self {
            CodeFragment::Generated(g) => CodeFragment::Generated(g.clone()),
            CodeFragment::NotGenerated(g) => CodeFragment::NotGenerated(g.clone()),
            CodeFragment::Other(text) => CodeFragment::Other(text.clone()),
        }
    }
}

impl Clone for CodePage {
    fn clone(&self) -> (copy: Self)
        ensures
            copy@ == self@,
    {
        let mut fragments: Vec<CodeFragment> = Vec::new();
        let mut i: usize = 0;
        while i < self.fragments.len()
            invariant
                i <= self.fragments.len(),
                fragments@ == self.fragments@.take(i as int),
            decreases self.fragments.len() - i,
        {
            fragments.push(self.fragments[i].clone());
            i = i + 1;
            assert(self.fragments@.take(i as int) =~= self.fragments@.take(i - 1).push(
                self.fragments@[i - 1],
            ));
        }
        assert(self.fragments@.take(i as int) =~= self.fragments@);
        CodePage { fragments, comment_string: self.comment_string }
    }
}

impl CodeFragmentView {
    /// The id of a marked fragment; free text has none.
    pub open spec fn id(self) -> Option<Seq<char>> {
        match self {
            CodeFragmentView::Generated(g) => Some(g.id),
            CodeFragmentView::NotGenerated(g) => Some(g.id),
            CodeFragmentView::Other(_) => None,
        }
    }
}

/// The banner that follows the comment token on the first line of a page.
pub open spec fn description() -> Seq<char> {
    " THIS FILE IS GENERATED BY PAKKEN. EVERY FRAGMENT MARKED WITH @GENERATED WILL BE OVERRIDEN ON THE NEXT GENERATION. TO PREVENT THIS CHANGE IT TO @NOT GENERATED."@
}

/// The line that opens a generated fragment, up to the id.
pub open spec fn start_generated(comment: Seq<char>) -> Seq<char> {
    comment + " "@ + "@GENERATED"@
}

/// The line that opens a fragment the user has taken over, up to the id.
pub open spec fn start_not_generated(comment: Seq<char>) -> Seq<char> {
    comment + " "@ + "@NOT GENERATED"@
}

/// The line that closes a fragment.
pub open spec fn end_comment(comment: Seq<char>) -> Seq<char> {
    comment + " "@ + "@END"@
}

/// The text of a marked fragment: its opening line with the id, the code, and
/// the closing line.
pub open spec fn marked_text(start: Seq<char>, comment: Seq<char>, g: GeneratedCodeView) -> Seq<
    char,
> {
    start + " "@ + g.id + seq!['\n'] + g.code + seq!['\n'] + end_comment(comment)
}

/// The text of one fragment as it stands in a page, without the line breaks
/// around it.
pub open spec fn fragment_text(comment: Seq<char>, fragment: CodeFragmentView) -> Seq<char> {
    match fragment {
        CodeFragmentView::Generated(g) => marked_text(start_generated(comment), comment, g),
        CodeFragmentView::NotGenerated(g) => marked_text(
            start_not_generated(comment),
            comment,
            g,
        ),
        CodeFragmentView::Other(text) => text,
    }
}

/// The text of a list of fragments: each one between two line breaks.
pub open spec fn fragments_text(comment: Seq<char>, fragments: Seq<CodeFragmentView>) -> Seq<
    char,
>
    decreases fragments.len(),
{
    if fragments.len() == 0 {
        Seq::empty()
    } else {
        fragments_text(comment, fragments.drop_last()) + seq!['\n'] + fragment_text(
            comment,
            fragments.last(),
        ) + seq!['\n']
    }
}

/// The text of a whole page: the banner line, then the fragments.
pub open spec fn page_text(page: CodePageView) -> Seq<char> {
    page.comment_string + description() + fragments_text(page.comment_string, page.fragments)
}

/// The first fragment of `fragments` that the user has taken over under `id`.
pub open spec fn first_not_generated(fragments: Seq<CodeFragmentView>, id: Seq<char>) -> Option<
    GeneratedCodeView,
>
    decreases fragments.len(),
{
    if fragments.len() == 0 {
        None
    } else {
        match fragments[0] {
            CodeFragmentView::NotGenerated(g) if g.id == id => Some(g),
            _ => first_not_generated(fragments.skip(1), id),
        }
    }
}

/// Whether the user has taken over a fragment under `id`.
pub open spec fn has_not_generated(fragments: Seq<CodeFragmentView>, id: Seq<char>) -> bool {
    exists|i: int|
        0 <= i < fragments.len() && (#[trigger] fragments[i] matches CodeFragmentView::NotGenerated(
            g,
        ) && g.id == id)
}

/// A fragment is found first exactly when one is there.
pub proof fn lemma_first_not_generated(fragments: Seq<CodeFragmentView>, id: Seq<char>)
    ensures
        first_not_generated(fragments, id) is Some <==> has_not_generated(fragments, id),
        first_not_generated(fragments, id) matches Some(g) ==> g.id == id && fragments.contains(
            CodeFragmentView::NotGenerated(g),
        ),
    decreases fragments.len(),
{
    if fragments.len() > 0 {
        let rest = fragments.skip(1);
        lemma_first_not_generated(rest, id);
        if fragments[0] matches CodeFragmentView::NotGenerated(g) && g.id == id {
            assert(fragments.contains(fragments[0]));
        } else {
            if has_not_generated(fragments, id) {
                let i = choose|i: int|
                    0 <= i < fragments.len() && (
                    #[trigger] fragments[i] matches CodeFragmentView::NotGenerated(g) && g.id
                        == id);
                assert(rest[i - 1] == fragments[i]);
            }
            if has_not_generated(rest, id) {
                let i = choose|i: int|
                    0 <= i < rest.len() && (#[trigger] rest[i] matches CodeFragmentView::NotGenerated(
                        g,
                    ) && g.id == id);
                assert(fragments[i + 1] == rest[i]);
            }
            if let Some(g) = first_not_generated(rest, id) {
                let i = choose|i: int|
                    0 <= i < rest.len() && rest[i] == CodeFragmentView::NotGenerated(g);
                assert(fragments[i + 1] == rest[i]);
            }
        }
    }
}

impl GeneratedCode {
    /// This code as a fragment that the next run rewrites.
    pub fn to_fragment(&self) -> (fragment: CodeFragment)
        ensures
            fragment@ == CodeFragmentView::Generated(self@),
    {
        CodeFragment::Generated(self.clone())
    }
}

/// Something that can be written down as one fragment of a page.
pub trait Fragment {
    fn fragment(&self) -> CodeFragment;
}

fn marker(comment_string: &str, word: &str) -> (line: String)
    ensures
        line@ == comment_string@ + " "@ + word@,
{
    let mut buffer = Buffer::default();
    buffer.push(comment_string);
    buffer.push(" ");
    buffer.push(word);
    assert(Seq::<char>::empty() + comment_string@ =~= comment_string@);
    buffer.flush()
}

fn push_marked(buffer: &mut Buffer, start: &str, comment_string: &str, code: &GeneratedCode)
    requires
        old(buffer)@.indents == 0,
    ensures
        final(buffer)@.indents == 0,
        final(buffer)@.text == old(buffer)@.text + marked_text(start@, comment_string@, code@),
{
    let end = CodePage::end_comment_str(comment_string);
    buffer.push(start);
    buffer.push(" ");
    buffer.push(code.id.as_str());
    buffer.new_line();
    buffer.push(code.code.as_str());
    buffer.new_line();
    buffer.push(end.as_str());
    assert(buffer@.text =~= old(buffer)@.text + marked_text(start@, comment_string@, code@));
}

impl CodePage {
    /// A page without fragments.
    pub fn default(comment_string: &'static str) -> (page: CodePage)
        ensures
            page@ == (CodePageView {
                fragments: Seq::empty(),
                comment_string: comment_string@,
            }),
            unique_ids(page@.fragments),
    {
        let page = CodePage { fragments: Vec::new(), comment_string };
        assert(page@.fragments =~= Seq::empty());
        page
    }

    /// Appends `fragment` to the page. The ids of the page stay apart where
    /// they were and the fragment brings no id that the page holds already.
    pub fn add(&mut self, fragment: CodeFragment)
        ensures
            final(self)@ == (CodePageView {
                fragments: old(self)@.fragments.push(fragment@),
                ..old(self)@
            }),
            unique_ids(old(self)@.fragments) && !holds_id(old(self)@.fragments, fragment@.id())
                ==> unique_ids(final(self)@.fragments),
    {
        self.fragments.push(fragment);
        assert(self@.fragments =~= old(self)@.fragments.push(fragment@));
        let ghost before = old(self)@.fragments;
        assert forall|i: int| 0 <= i < before.len() implies self@.fragments[i] == before[i] by {}
    }

    /// The line that opens a generated fragment, up to the id.
    pub fn start_generated_str(comment_string: &str) -> (line: String)
        ensures
            line@ == start_generated(comment_string@),
    {
        marker(comment_string, "@GENERATED")
    }

    /// The line that opens a fragment the user has taken over, up to the id.
    pub fn start_not_generated_str(comment_string: &str) -> (line: String)
        ensures
            line@ == start_not_generated(comment_string@),
    {
        marker(comment_string, "@NOT GENERATED")
    }

    /// The line that closes a fragment.
    pub fn end_comment_str(comment_string: &str) -> (line: String)
        ensures
            line@ == end_comment(comment_string@),
    {
        marker(comment_string, "@END")
    }

    /// Writes the page down: the banner line, then every fragment between two
    /// line breaks, the marked ones between their opening and closing lines.
    pub fn build(&self) -> (text: String)
        ensures
            text@ == page_text(self@),
    {
        let mut buffer = Buffer::default();
        buffer.push(self.comment_string);
        buffer.push(
            " THIS FILE IS GENERATED BY PAKKEN. EVERY FRAGMENT MARKED WITH @GENERATED WILL BE OVERRIDEN ON THE NEXT GENERATION. TO PREVENT THIS CHANGE IT TO @NOT GENERATED.",
        );
        proof {
            assert(Seq::<char>::empty() + self.comment_string@ =~= self.comment_string@);
            assert(fragments_text(self.comment_string@, self@.fragments.take(0)) =~= Seq::<
                char,
            >::empty());
            assert(buffer@.text =~= self.comment_string@ + description() + Seq::<char>::empty());
        }
        let mut i: usize = 0;
        while i < self.fragments.len()
            invariant
                i <= self.fragments.len(),
                buffer@.indents == 0,
                buffer@.text == self.comment_string@ + description() + fragments_text(
                    self.comment_string@,
                    self@.fragments.take(i as int),
                ),
            decreases self.fragments.len() - i,
        {
            let ghost before = buffer@.text;
            let ghost comment = self.comment_string@;
            let ghost done = self@.fragments.take(i as int);
            let ghost next = self@.fragments.take(i + 1);
            assert(next.drop_last() =~= done);
            assert(next.last() == self.fragments@[i as int]@);
            buffer.new_line();
            match &self.fragments[i] {
                CodeFragment::Generated(generated) => {
                    let start = Self::start_generated_str(self.comment_string);
                    push_marked(&mut buffer, start.as_str(), self.comment_string, generated);
                },
                CodeFragment::Other(code) => {
                    buffer.push(code.as_str());
                },
                CodeFragment::NotGenerated(not_generated) => {
                    let start = Self::start_not_generated_str(self.comment_string);
                    push_marked(&mut buffer, start.as_str(), self.comment_string, not_generated);
                },
            }
            assert(buffer@.text == before + seq!['\n'] + fragment_text(comment, next.last()));
            buffer.new_line();
            assert(buffer@.text =~= comment + description() + (fragments_text(comment, done)
                + seq!['\n'] + fragment_text(comment, next.last()) + seq!['\n']));
            i = i + 1;
        }
        assert(self@.fragments.take(i as int) =~= self@.fragments);
        buffer.flush()
    }

    /// The first fragment that the user has taken over under `code_id`.
    pub fn get_not_generated(&self, code_id: &str) -> (found: Option<GeneratedCode>)
        ensures
            match found {
                Some(g) => first_not_generated(self@.fragments, code_id@) == Some(g@),
                None => first_not_generated(self@.fragments, code_id@) is None,
            },
    {
        let wanted = String::from_str(code_id);
        let mut i: usize = 0;
        assert(self@.fragments.skip(0) =~= self@.fragments);
        while i < self.fragments.len()
            invariant
                i <= self.fragments.len(),
                wanted@ == code_id@,
                first_not_generated(self@.fragments, code_id@) == first_not_generated(
                    self@.fragments.skip(i as int),
                    code_id@,
                ),
            decreases self.fragments.len() - i,
        {
            let ghost rest = self@.fragments.skip(i as int);
            assert(rest[0] == self.fragments@[i as int]@);
            assert(rest.skip(1) =~= self@.fragments.skip(i + 1));
            if let CodeFragment::NotGenerated(generated) = &self.fragments[i] {
                if generated.id == wanted {
                    return Some(generated.clone());
                }
            }
            i = i + 1;
        }
        None
    }
}

/// Whether a fragment of the earlier page stays in the merged page: the free
/// text and what the user has taken over do, what a generator wrote does not.
pub open spec fn survives(fragment: CodeFragmentView) -> bool {
    !(fragment is Generated)
}

/// Whether a fragment of the new page enters the merged page, given the
/// fragments of the earlier one: a generated fragment does, unless the user
/// has taken over a fragment of the same id.
pub open spec fn enters(fragment: CodeFragmentView, existing: Seq<CodeFragmentView>) -> bool {
    fragment matches CodeFragmentView::Generated(g) && !has_not_generated(existing, g.id)
}

/// The fragments of the page that merging a new page with an earlier one
/// gives: first what survives of the earlier page, in its order, then what
/// enters from the new page, in its order.
pub open spec fn merged_fragments(
    fresh: Seq<CodeFragmentView>,
    existing: Seq<CodeFragmentView>,
) -> Seq<CodeFragmentView> {
    existing.filter(|f: CodeFragmentView| survives(f)) + fresh.filter(
        |f: CodeFragmentView| enters(f, existing),
    )
}

/// The page that merging the new page `fresh` with the earlier page
/// `existing` gives.
pub open spec fn merged_page(fresh: CodePageView, existing: CodePageView) -> CodePageView {
    CodePageView {
        fragments: merged_fragments(fresh.fragments, existing.fragments),
        comment_string: fresh.comment_string,
    }
}

impl Merge for CodePage {
    /// Merges a page written earlier into this newly generated one.
    ///
    /// Free text and the fragments that the user has taken over are kept from
    /// `other`; the generated fragments come from `self`, except where the
    /// user has taken over a fragment of the same id. What a generator wrote
    /// into `other` is dropped.
    fn merge(&self, other: &Self) -> (merged: Self)
        ensures
            merged@ == merged_page(self@, other@),
    {
        let mut fragments: Vec<CodeFragment> = Vec::new();
        let ghost fresh = self@.fragments;
        let ghost existing = other@.fragments;
        let ghost stay = |f: CodeFragmentView| survives(f);
        let ghost come = |f: CodeFragmentView| enters(f, existing);
        let mut i: usize = 0;
        proof {
            reveal(Seq::filter);
            assert(fragment_views(fragments@) =~= existing.take(0).filter(stay));
        }
        while i < other.fragments.len()
            invariant
                i <= other.fragments.len(),
                existing == other@.fragments,
                stay == |f: CodeFragmentView| survives(f),
                fragment_views(fragments@) == existing.take(i as int).filter(stay),
            decreases other.fragments.len() - i,
        {
            proof {
                reveal(Seq::filter);
                assert(existing.take(i + 1).drop_last() =~= existing.take(i as int));
                assert(existing.take(i + 1).last() == other.fragments@[i as int]@);
            }
            let ghost before = fragment_views(fragments@);
            match &other.fragments[i] {
                CodeFragment::Generated(_) => {},
                fragment => {
                    fragments.push(fragment.clone());
                    assert(fragment_views(fragments@) =~= before.push(fragment@));
                },
            }
            i = i + 1;
        }
        assert(existing.take(i as int) =~= existing);
        let ghost kept = fragment_views(fragments@);
        let mut j: usize = 0;
        proof {
            reveal(Seq::filter);
            assert(fresh.take(0).filter(come) =~= Seq::<CodeFragmentView>::empty());
            assert(kept + Seq::<CodeFragmentView>::empty() =~= kept);
        }
        while j < self.fragments.len()
            invariant
                j <= self.fragments.len(),
                fresh == self@.fragments,
                existing == other@.fragments,
                come == |f: CodeFragmentView| enters(f, existing),
                fragment_views(fragments@) == kept + fresh.take(j as int).filter(come),
            decreases self.fragments.len() - j,
        {
            proof {
                reveal(Seq::filter);
                assert(fresh.take(j + 1).drop_last() =~= fresh.take(j as int));
                assert(fresh.take(j + 1).last() == self.fragments@[j as int]@);
            }
            let ghost before = fragment_views(fragments@);
            if let CodeFragment::Generated(code) = &self.fragments[j] {
                proof {
                    lemma_first_not_generated(existing, code.id@);
                }
                if other.get_not_generated(code.id.as_str()).is_none() {
                    fragments.push(self.fragments[j].clone());
                    assert(fragment_views(fragments@) =~= before.push(self.fragments@[j as int]@));
                    assert(before.push(self.fragments@[j as int]@) =~= kept + fresh.take(
                        j as int,
                    ).filter(come).push(self.fragments@[j as int]@));
                }
            }
            j = j + 1;
        }
        assert(fresh.take(j as int) =~= fresh);
        CodePage { fragments, comment_string: self.comment_string }
    }
}

/// A fragment stands in the merged page exactly when it survives from the
/// earlier page or enters from the new one.
pub proof fn lemma_merged_member(
    fresh: Seq<CodeFragmentView>,
    existing: Seq<CodeFragmentView>,
    fragment: CodeFragmentView,
)
    ensures
        merged_fragments(fresh, existing).contains(fragment) <==> (existing.contains(fragment)
            && survives(fragment)) || (fresh.contains(fragment) && enters(fragment, existing)),
{
    let stay = |f: CodeFragmentView| survives(f);
    let come = |f: CodeFragmentView| enters(f, existing);
    let kept = existing.filter(stay);
    let taken = fresh.filter(come);
    let merged = merged_fragments(fresh, existing);
    if merged.contains(fragment) {
        let i = choose|i: int| 0 <= i < merged.len() && merged[i] == fragment;
        if i < kept.len() {
            assert(kept[i] == fragment);
            existing.lemma_filter_pred(stay, i);
            assert(kept.contains(fragment));
            existing.lemma_filter_contains_rev(stay, fragment);
        } else {
            assert(taken[i - kept.len()] == fragment);
            fresh.lemma_filter_pred(come, i - kept.len());
            assert(taken.contains(fragment));
            fresh.lemma_filter_contains_rev(come, fragment);
        }
    }
    if existing.contains(fragment) && survives(fragment) {
        let i = choose|i: int| 0 <= i < existing.len() && existing[i] == fragment;
        existing.lemma_filter_contains(stay, i);
        let k = choose|k: int| 0 <= k < kept.len() && kept[k] == fragment;
        assert(merged[k] == fragment);
    }
    if fresh.contains(fragment) && enters(fragment, existing) {
        let i = choose|i: int| 0 <= i < fresh.len() && fresh[i] == fragment;
        fresh.lemma_filter_contains(come, i);
        let k = choose|k: int| 0 <= k < taken.len() && taken[k] == fragment;
        assert(merged[kept.len() + k] == fragment);
    }
}

/// What the user has taken over wins: where the earlier page holds a
/// fragment that the user has taken over, the merged page holds that very
/// fragment, and under its id nothing that a generator wrote, whatever the
/// new page proposes under that id.
pub proof fn lemma_merge_preserves_not_generated(
    fresh: CodePageView,
    existing: CodePageView,
    frozen: GeneratedCodeView,
)
    requires
        existing.fragments.contains(CodeFragmentView::NotGenerated(frozen)),
    ensures
        merged_page(fresh, existing).fragments.contains(CodeFragmentView::NotGenerated(frozen)),
        forall|g: GeneratedCodeView|
            g.id == frozen.id ==> !(#[trigger] merged_page(fresh, existing).fragments.contains(
                CodeFragmentView::Generated(g),
            )),
{
    let marked = CodeFragmentView::NotGenerated(frozen);
    lemma_merged_member(fresh.fragments, existing.fragments, marked);
    let i = choose|i: int| 0 <= i < existing.fragments.len() && existing.fragments[i] == marked;
    assert(has_not_generated(existing.fragments, frozen.id));
    assert forall|g: GeneratedCodeView| g.id == frozen.id implies !(
    #[trigger] merged_page(fresh, existing).fragments.contains(
        CodeFragmentView::Generated(g),
    )) by {
        lemma_merged_member(fresh.fragments, existing.fragments, CodeFragmentView::Generated(g));
    }
}

/// What is no longer generated goes: an id under which the new page holds no
/// fragment, and under which the user has taken over none in the earlier page,
/// is the id of no fragment of the merged page.
pub proof fn lemma_merge_drops_removed(fresh: CodePageView, existing: CodePageView, id: Seq<char>)
    requires
        forall|i: int|
            0 <= i < fresh.fragments.len() ==> (#[trigger] fresh.fragments[i]).id() != Some(id),
        !has_not_generated(existing.fragments, id),
    ensures
        forall|i: int|
            0 <= i < merged_page(fresh, existing).fragments.len() ==> (#[trigger] merged_page(
                fresh,
                existing,
            ).fragments[i]).id() != Some(id),
{
    let merged = merged_page(fresh, existing).fragments;
    assert forall|i: int| 0 <= i < merged.len() implies (#[trigger] merged[i]).id() != Some(
        id,
    ) by {
        let fragment = merged[i];
        assert(merged.contains(fragment));
        lemma_merged_member(fresh.fragments, existing.fragments, fragment);
        if existing.fragments.contains(fragment) && survives(fragment) {
            let k = choose|k: int|
                0 <= k < existing.fragments.len() && existing.fragments[k] == fragment;
            assert(fragment.id() != Some(id));
        } else {
            let k = choose|k: int| 0 <= k < fresh.fragments.len() && fresh.fragments[k] == fragment;
        }
    }
}

/// Filtering by a condition that every element meets changes nothing.
proof fn lemma_filter_all<A>(s: Seq<A>, pred: spec_fn(A) -> bool)
    requires
        forall|i: int| 0 <= i < s.len() ==> pred(#[trigger] s[i]),
    ensures
        s.filter(pred) == s,
    decreases s.len(),
{
    reveal(Seq::filter);
    if s.len() > 0 {
        lemma_filter_all(s.drop_last(), pred);
        assert(s.drop_last().push(s.last()) =~= s);
    }
}

/// Filtering by a condition that no element meets leaves nothing.
proof fn lemma_filter_none<A>(s: Seq<A>, pred: spec_fn(A) -> bool)
    requires
        forall|i: int| 0 <= i < s.len() ==> !pred(#[trigger] s[i]),
    ensures
        s.filter(pred) == Seq::<A>::empty(),
    decreases s.len(),
{
    reveal(Seq::filter);
    if s.len() > 0 {
        lemma_filter_none(s.drop_last(), pred);
    }
}

/// Generating again over unchanged output changes nothing: a page that holds
/// generated fragments only, merged with an earlier page that holds
/// generated fragments only, is the page itself. The earlier page may be the
/// same page read back.
pub proof fn lemma_merge_idempotent(fresh: CodePageView, existing: CodePageView)
    requires
        forall|i: int| 0 <= i < fresh.fragments.len() ==> #[trigger] fresh.fragments[i] is Generated,
        forall|i: int|
            0 <= i < existing.fragments.len() ==> #[trigger] existing.fragments[i] is Generated,
    ensures
        merged_page(fresh, existing) == fresh,
        merged_page(fresh, fresh) == fresh,
{
    lemma_merge_generated_only(fresh, existing);
    lemma_merge_generated_only(fresh, fresh);
}

proof fn lemma_merge_generated_only(fresh: CodePageView, existing: CodePageView)
    requires
        forall|i: int| 0 <= i < fresh.fragments.len() ==> #[trigger] fresh.fragments[i] is Generated,
        forall|i: int|
            0 <= i < existing.fragments.len() ==> #[trigger] existing.fragments[i] is Generated,
    ensures
        merged_page(fresh, existing) == fresh,
{
    let stay = |f: CodeFragmentView| survives(f);
    let come = |f: CodeFragmentView| enters(f, existing.fragments);
    lemma_filter_none(existing.fragments, stay);
    assert forall|i: int| 0 <= i < fresh.fragments.len() implies come(
        #[trigger] fresh.fragments[i],
    ) by {
        assert(fresh.fragments[i] is Generated);
    }
    lemma_filter_all(fresh.fragments, come);
    assert(Seq::<CodeFragmentView>::empty() + fresh.fragments =~= fresh.fragments);
}

/// How far a page has been read: the fragments that are complete, the
/// marked fragment that is open, if one is, and the text collected for what
/// comes next.
pub ghost struct Scan {
    /// The fragments read so far.
    pub done: Seq<CodeFragmentView>,
    /// For an open fragment, whether a generator wrote it, and its id.
    pub open: Option<(bool, Seq<char>)>,
    /// The lines collected since the last marker line, each after a line feed.
    pub text: Seq<char>,
    /// Whether a closing line was met while no fragment was open.
    pub stray_end: bool,
}

/// Whether `line`, without the white space around it, begins with `start`.
pub open spec fn begins(line: Seq<char>, start: Seq<char>) -> bool {
    start.is_prefix_of(trimmed(line))
}

/// The id on an opening line: what follows `start`, without the white space
/// around it.
pub open spec fn id_after(line: Seq<char>, start: Seq<char>) -> Seq<char> {
    trimmed(trimmed(line).skip(start.len() as int))
}

/// Whether `line` is the closing line, but for white space around it.
pub open spec fn closes(line: Seq<char>, comment: Seq<char>) -> bool {
    trimmed(line) == end_comment(comment)
}

/// The fragments `done`, followed by the free text `text` if it holds more
/// than white space.
pub open spec fn with_free_text(done: Seq<CodeFragmentView>, text: Seq<char>) -> Seq<
    CodeFragmentView,
> {
    if trimmed(text).len() > 0 {
        done.push(CodeFragmentView::Other(trimmed(text)))
    } else {
        done
    }
}

/// The marked fragment with the given id whose code is `text` without the
/// white space around it.
pub open spec fn marked(generated: bool, id: Seq<char>, text: Seq<char>) -> CodeFragmentView {
    let code = GeneratedCodeView { code: trimmed(text), id };
    if generated {
        CodeFragmentView::Generated(code)
    } else {
        CodeFragmentView::NotGenerated(code)
    }
}

/// Reading one more line.
///
/// Inside a fragment only the closing line counts: it completes the fragment.
/// Outside, an opening line completes the free text before it and opens a
/// fragment, and a closing line is out of place. Any other line is collected.
pub open spec fn scan_line(comment: Seq<char>, state: Scan, line: Seq<char>) -> Scan {
    let collected = Scan { text: state.text + seq!['\n'] + line, ..state };
    match state.open {
        Some((generated, id)) => {
            if closes(line, comment) {
                Scan {
                    done: state.done.push(marked(generated, id, state.text)),
                    open: None,
                    text: Seq::empty(),
                    ..state
                }
            } else {
                collected
            }
        },
        None => {
            if closes(line, comment) {
                Scan { stray_end: true, ..state }
            } else if begins(line, start_generated(comment)) {
                Scan {
                    done: with_free_text(state.done, state.text),
                    open: Some((true, id_after(line, start_generated(comment)))),
                    text: Seq::empty(),
                    ..state
                }
            } else if begins(line, start_not_generated(comment)) {
                Scan {
                    done: with_free_text(state.done, state.text),
                    open: Some((false, id_after(line, start_not_generated(comment)))),
                    text: Seq::empty(),
                    ..state
                }
            } else {
                collected
            }
        },
    }
}

/// Reading `lines` one after the other, starting in `state`.
pub open spec fn scan(comment: Seq<char>, state: Scan, lines: Seq<Seq<char>>) -> Scan
    decreases lines.len(),
{
    if lines.len() == 0 {
        state
    } else {
        scan_line(comment, scan(comment, state, lines.drop_last()), lines.last())
    }
}

/// Before the first line: nothing read, nothing open.
pub open spec fn scan_start() -> Scan {
    Scan { done: Seq::empty(), open: None, text: Seq::empty(), stray_end: false }
}

/// The fragments once the last line is read: a fragment still open ends
/// there, and so does free text.
pub open spec fn scan_end(state: Scan) -> Seq<CodeFragmentView> {
    match state.open {
        Some((generated, id)) => state.done.push(marked(generated, id, state.text)),
        None => with_free_text(state.done, state.text),
    }
}

/// The fragments that `lines` hold, or nothing if a closing line stands where
/// no fragment is open.
pub open spec fn fragments_of(comment: Seq<char>, lines: Seq<Seq<char>>) -> Option<
    Seq<CodeFragmentView>,
> {
    let state = scan(comment, scan_start(), lines);
    if state.stray_end {
        None
    } else {
        Some(scan_end(state))
    }
}

/// The page that the text of a file holds: the fragments of its lines after
/// the first, which is the banner.
pub open spec fn parsed_page(comment: Seq<char>, text: Seq<char>) -> Option<CodePageView> {
    match fragments_of(comment, lines(text).skip(1)) {
        Some(fragments) => Some(CodePageView { fragments, comment_string: comment }),
        None => None,
    }
}

/// What is reported for a closing line that closes nothing.
pub open spec fn stray_end_error() -> PakErrorView {
    PakErrorView::CustomError("found an end marker without a start marker before it"@)
}

fn marked_fragment(generated: bool, id: &Vec<char>, text: &Vec<char>) -> (fragment: CodeFragment)
    ensures
        fragment@ == marked(generated, id@, text@),
{
    let code = GeneratedCode { code: to_text(&trim(text)), id: to_text(id) };
    if generated {
        CodeFragment::Generated(code)
    } else {
        CodeFragment::NotGenerated(code)
    }
}

fn add_free_text(done: &mut Vec<CodeFragment>, text: &Vec<char>)
    ensures
        fragment_views(final(done)@) == with_free_text(fragment_views(old(done)@), text@),
{
    let free = trim(text);
    if free.len() > 0 {
        done.push(CodeFragment::Other(to_text(&free)));
        assert(fragment_views(done@) =~= fragment_views(old(done)@).push(
            CodeFragmentView::Other(free@),
        ));
    }
}

impl CodePage {
    /// Reads the fragments out of the lines of a page, the banner line left
    /// out.
    ///
    /// A line that, but for white space around it, begins with an opening
    /// marker opens a fragment whose id is the rest of the line; the closing
    /// line ends it, and so does the end of the text. The lines in between are
    /// its code, the lines outside of fragments are free text; both lose the
    /// white space around them, and free text that is nothing else is left
    /// out. A closing line outside of a fragment is an error.
    pub fn split_fragments(comment_string: &str, lines: &Vec<Vec<char>>) -> (fragments: PakResult<
        Vec<CodeFragment>,
    >)
        ensures
            match fragments {
                Ok(found) => fragments_of(comment_string@, texts(lines@)) == Some(
                    fragment_views(found@),
                ),
                Err(error) => fragments_of(comment_string@, texts(lines@)) is None && error@
                    == stray_end_error(),
            },
    {
        let generated_start = to_chars(Self::start_generated_str(comment_string).as_str());
        let not_generated_start = to_chars(Self::start_not_generated_str(comment_string).as_str());
        let end = to_chars(Self::end_comment_str(comment_string).as_str());
        let ghost comment = comment_string@;
        let ghost all = texts(lines@);

        let mut done: Vec<CodeFragment> = Vec::new();
        let mut open = false;
        let mut generated = false;
        let mut id: Vec<char> = Vec::new();
        let mut text: Vec<char> = Vec::new();
        let mut stray_end = false;
        let ghost mut state = scan_start();
        assert(fragment_views(done@) =~= state.done);
        assert(all.take(0) =~= Seq::<Seq<char>>::empty());

        let mut i: usize = 0;
        while i < lines.len()
            invariant
                i <= lines.len(),
                comment == comment_string@,
                all == texts(lines@),
                generated_start@ == start_generated(comment),
                not_generated_start@ == start_not_generated(comment),
                end@ == end_comment(comment),
                state == scan(comment, scan_start(), all.take(i as int)),
                state.done == fragment_views(done@),
                state.open == if open {
                    Some((generated, id@))
                } else {
                    None
                },
                state.text == text@,
                state.stray_end == stray_end,
            decreases lines.len() - i,
        {
            let line = &lines[i];
            proof {
                assert(all.take(i + 1).drop_last() =~= all.take(i as int));
                assert(all.take(i + 1).last() == line@);
            }
            let ghost before = state;
            proof {
                state = scan_line(comment, before, line@);
            }
            let bare = trim(line);
            if same(&bare, &end) {
                if open {
                    let fragment = marked_fragment(generated, &id, &text);
                    let ghost views = fragment_views(done@);
                    done.push(fragment);
                    assert(fragment_views(done@) =~= views.push(fragment@));
                    open = false;
                    text = Vec::new();
                } else {
                    stray_end = true;
                }
            } else if open {
                text.push('\n');
                extend(&mut text, line);
            } else if starts_with(&bare, &generated_start) {
                add_free_text(&mut done, &text);
                open = true;
                generated = true;
                id = trim(&tail(&bare, generated_start.len()));
                text = Vec::new();
            } else if starts_with(&bare, &not_generated_start) {
                add_free_text(&mut done, &text);
                open = true;
                generated = false;
                id = trim(&tail(&bare, not_generated_start.len()));
                text = Vec::new();
            } else {
                text.push('\n');
                extend(&mut text, line);
            }
            i = i + 1;
        }
        assert(all.take(i as int) =~= all);
        if stray_end {
            return Err(
                PakError::CustomError(
                    String::from_str("found an end marker without a start marker before it"),
                ),
            );
        }
        if open {
            let fragment = marked_fragment(generated, &id, &text);
            let ghost views = fragment_views(done@);
            done.push(fragment);
            assert(fragment_views(done@) =~= views.push(fragment@));
        } else {
            add_free_text(&mut done, &text);
        }
        Ok(done)
    }

    /// Reads back a page that was written earlier.
    ///
    /// The first line is the banner and is left out; the other lines are read
    /// as [`CodePage::split_fragments`] says.
    pub fn from(comment_string: &'static str, code: &str) -> (page: PakResult<CodePage>)
        ensures
            match page {
                Ok(found) => parsed_page(comment_string@, code@) == Some(found@),
                Err(error) => parsed_page(comment_string@, code@) is None && error@
                    == stray_end_error(),
            },
    {
        let mut lines = split_lines(&to_chars(code));
        proof {
            crate::text::lemma_lines_nonempty(code@);
        }
        let ghost all = texts(lines@);
        lines.remove(0);
        assert(texts(lines@) =~= all.skip(1));
        match Self::split_fragments(comment_string, &lines) {
            Ok(fragments) => Ok(CodePage { fragments, comment_string }),
            Err(error) => Err(error),
        }
    }
}

/// Whether one of `fragments` has the id `id`; free text has none, so for
/// it the answer is no.
pub open spec fn holds_id(fragments: Seq<CodeFragmentView>, id: Option<Seq<char>>) -> bool {
    id is Some && exists|i: int| 0 <= i < fragments.len() && (#[trigger] fragments[i]).id() == id
}

/// Whether no two marked fragments have the same id.
pub open spec fn unique_ids(fragments: Seq<CodeFragmentView>) -> bool {
    forall|i: int, j: int|
        0 <= i < j < fragments.len() && (#[trigger] fragments[i]).id() is Some ==> fragments[i].id()
            != (#[trigger] fragments[j]).id()
}

/// Leaving fragments out keeps the ids apart.
proof fn lemma_filter_unique_ids(
    fragments: Seq<CodeFragmentView>,
    keep: spec_fn(CodeFragmentView) -> bool,
)
    requires
        unique_ids(fragments),
    ensures
        unique_ids(fragments.filter(keep)),
    decreases fragments.len(),
{
    reveal(Seq::filter);
    if fragments.len() > 0 {
        let init = fragments.drop_last();
        assert forall|i: int, j: int|
            0 <= i < j < init.len() && (#[trigger] init[i]).id() is Some implies init[i].id() != (
            #[trigger] init[j]).id() by {
            assert(init[i] == fragments[i]);
            assert(init[j] == fragments[j]);
        }
        lemma_filter_unique_ids(init, keep);
        let kept = init.filter(keep);
        if keep(fragments.last()) {
            let all = kept.push(fragments.last());
            assert forall|i: int, j: int|
                0 <= i < j < all.len() && (#[trigger] all[i]).id() is Some implies all[i].id() != (
                #[trigger] all[j]).id() by {
                if j == kept.len() {
                    assert(kept.contains(kept[i]));
                    init.lemma_filter_contains_rev(keep, kept[i]);
                    let k = choose|k: int| 0 <= k < init.len() && init[k] == kept[i];
                    assert(fragments[k] == init[k]);
                    assert(fragments[fragments.len() - 1] == fragments.last());
                } else {
                    assert(all[i] == kept[i]);
                    assert(all[j] == kept[j]);
                }
            }
        }
    }
}

/// Merging keeps the ids apart: where no two marked fragments of the new
/// page have the same id, and no two of the earlier page, no two of the
/// merged page have.
pub proof fn lemma_merge_unique_ids(fresh: CodePageView, existing: CodePageView)
    requires
        unique_ids(fresh.fragments),
        unique_ids(existing.fragments),
    ensures
        unique_ids(merged_page(fresh, existing).fragments),
{
    let stay = |f: CodeFragmentView| survives(f);
    let come = |f: CodeFragmentView| enters(f, existing.fragments);
    let kept = existing.fragments.filter(stay);
    let taken = fresh.fragments.filter(come);
    let merged = merged_page(fresh, existing).fragments;
    lemma_filter_unique_ids(existing.fragments, stay);
    lemma_filter_unique_ids(fresh.fragments, come);
    assert forall|i: int, j: int|
        0 <= i < j < merged.len() && (#[trigger] merged[i]).id() is Some implies merged[i].id() != (
        #[trigger] merged[j]).id() by {
        if j < kept.len() {
            assert(merged[i] == kept[i]);
            assert(merged[j] == kept[j]);
        } else if i >= kept.len() {
            assert(merged[i] == taken[i - kept.len()]);
            assert(merged[j] == taken[j - kept.len()]);
        } else {
            let first = kept[i];
            let second = taken[j - kept.len()];
            assert(merged[i] == first);
            assert(merged[j] == second);
            existing.fragments.lemma_filter_pred(stay, i);
            fresh.fragments.lemma_filter_pred(come, j - kept.len());
            assert(kept.contains(first));
            existing.fragments.lemma_filter_contains_rev(stay, first);
            let k = choose|k: int|
                0 <= k < existing.fragments.len() && existing.fragments[k] == first;
            if first.id() == second.id() {
                assert(first is NotGenerated);
                assert(has_not_generated(existing.fragments, second.id()->Some_0));
            }
        }
    }
}

} // verus!
