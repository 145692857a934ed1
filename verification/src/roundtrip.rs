//! Why a page that is written down and read again is the page it was.

use crate::buffer::plain;
use crate::code::{
    begins, closes, description, end_comment, fragment_text, fragments_text, id_after,
    lemma_merge_idempotent, marked, marked_text, merged_page, page_text, parsed_page, scan,
    scan_line, scan_start, start_generated, start_not_generated, with_free_text,
    CodeFragmentView, CodePageView, GeneratedCodeView, Scan,
};
use crate::text::{
    is_space, lemma_lines_nonempty, lemma_trim_end_take, lemma_trim_start_skip, lines, trim_end,
    trim_start, trimmed,
};
use vstd::prelude::*;

verus! {

/// Whether `s` is white space and nothing else.
pub open spec fn blank(s: Seq<char>) -> bool {
    forall|i: int| 0 <= i < s.len() ==> is_space(#[trigger] s[i])
}

/// Whether `s` has no white space at either end.
pub open spec fn tight(s: Seq<char>) -> bool {
    s.len() == 0 || (!is_space(s[0]) && !is_space(s.last()))
}

/// White space and nothing else trims to nothing.
pub proof fn lemma_trimmed_blank(s: Seq<char>)
    requires
        blank(s),
    ensures
        trimmed(s) == Seq::<char>::empty(),
{
    lemma_trim_start_skip(s, s.len() as int);
    assert(s.skip(s.len() as int) =~= Seq::<char>::empty());
}

/// What has no white space at either end is what is left of it after
/// trimming, whatever white space stands around it.
pub proof fn lemma_trimmed_around(before: Seq<char>, s: Seq<char>, after: Seq<char>)
    requires
        blank(before),
        blank(after),
        tight(s),
    ensures
        trimmed(before + s + after) == s,
{
    let all = before + s + after;
    if s.len() == 0 {
        assert(all =~= before + after);
        assert(blank(before + after));
        lemma_trimmed_blank(before + after);
    } else {
        lemma_trim_start_skip(all, before.len() as int);
        let rest = all.skip(before.len() as int);
        assert(rest =~= s + after);
        assert(rest[0] == s[0]);
        assert(trim_start(rest) == rest);
        lemma_trim_end_take(rest, s.len() as int);
        assert(rest.take(s.len() as int) =~= s);
        assert(trim_end(s) == s);
    }
}

/// The lines of two texts with a line feed between them are the lines of
/// the first and then the lines of the second.
pub proof fn lemma_lines_add(a: Seq<char>, b: Seq<char>)
    ensures
        lines(a + seq!['\n'] + b) == lines(a) + lines(b),
    decreases b.len(),
{
    let whole = a + seq!['\n'] + b;
    if b.len() == 0 {
        assert(whole.drop_last() =~= a);
        assert(lines(b) =~= seq![Seq::<char>::empty()]);
        assert(lines(a).push(Seq::empty()) =~= lines(a) + lines(b));
    } else {
        lemma_lines_add(a, b.drop_last());
        lemma_lines_nonempty(b.drop_last());
        assert(whole.drop_last() =~= a + seq!['\n'] + b.drop_last());
        assert(whole.last() == b.last());
        let before = lines(a) + lines(b.drop_last());
        assert(before.last() == lines(b.drop_last()).last());
        if b.last() == '\n' {
            assert(before.push(Seq::empty()) =~= lines(a) + lines(b));
        } else {
            assert(before.drop_last() =~= lines(a) + lines(b.drop_last()).drop_last());
            assert(before.drop_last().push(before.last().push(b.last())) =~= lines(a) + lines(b));
        }
    }
}

/// A text without a line feed is one line.
pub proof fn lemma_lines_plain(s: Seq<char>)
    requires
        plain(s),
    ensures
        lines(s) == seq![s],
    decreases s.len(),
{
    if s.len() > 0 {
        lemma_lines_plain(s.drop_last());
        let before = seq![s.drop_last()];
        assert(s.drop_last().push(s.last()) =~= s);
        assert(before.last() == s.drop_last());
        assert(before.drop_last().push(before.last().push(s.last())) =~= seq![s]);
        assert(s.last() != '\n');
    } else {
        assert(s =~= Seq::<char>::empty());
    }
}

/// The text that collecting `lines` after `text` gives: each line after a
/// line feed.
pub open spec fn collected(text: Seq<char>, lines: Seq<Seq<char>>) -> Seq<char>
    decreases lines.len(),
{
    if lines.len() == 0 {
        text
    } else {
        collected(text, lines.drop_last()) + seq!['\n'] + lines.last()
    }
}

/// Collecting the lines of a text gives the text back, after a line feed.
pub proof fn lemma_collected_lines(text: Seq<char>, s: Seq<char>)
    ensures
        collected(text, lines(s)) == text + seq!['\n'] + s,
    decreases s.len(),
{
    if s.len() == 0 {
        let one = seq![Seq::<char>::empty()];
        assert(lines(s) == one);
        assert(one.drop_last() =~= Seq::<Seq<char>>::empty());
        assert(collected(text, one.drop_last()) == text);
        assert(one.last() =~= s);
    } else {
        let init = s.drop_last();
        lemma_collected_lines(text, init);
        lemma_lines_nonempty(init);
        let before = lines(init);
        if s.last() == '\n' {
            assert(before.push(Seq::empty()).drop_last() =~= before);
            assert(text + seq!['\n'] + init + seq!['\n'] + Seq::<char>::empty() =~= text
                + seq!['\n'] + s);
        } else {
            let all = before.drop_last().push(before.last().push(s.last()));
            assert(all.drop_last() =~= before.drop_last());
            assert(collected(text, before) == collected(text, before.drop_last()) + seq!['\n']
                + before.last());
            assert(collected(text, before.drop_last()) + seq!['\n'] + before.last().push(s.last())
                =~= (collected(text, before.drop_last()) + seq!['\n'] + before.last()).push(
                s.last(),
            ));
            assert((text + seq!['\n'] + init).push(s.last()) =~= text + seq!['\n'] + s);
        }
    }
}

/// Whether `line` is one of the three marker lines.
pub open spec fn is_marker(line: Seq<char>, comment: Seq<char>) -> bool {
    closes(line, comment) || begins(line, start_generated(comment)) || begins(
        line,
        start_not_generated(comment),
    )
}

/// Whether `comment` can start a marker line that is read back: it holds
/// something, does not start with white space and is one line.
pub open spec fn valid_comment(comment: Seq<char>) -> bool {
    comment.len() > 0 && !is_space(comment[0]) && plain(comment)
}

/// Whether a fragment is read back as it is written.
///
/// For a marked fragment the comment token can start a marker line, the id
/// is one line, and neither the id nor the code has white space at either
/// end; no line of the code is the closing line. Free text holds something,
/// has no white space at either end, and none of its lines is a marker line.
pub open spec fn canonical_fragment(comment: Seq<char>, fragment: CodeFragmentView) -> bool {
    match fragment {
        CodeFragmentView::Generated(g) => valid_comment(comment) && canonical_code(comment, g),
        CodeFragmentView::NotGenerated(g) => valid_comment(comment) && canonical_code(comment, g),
        CodeFragmentView::Other(text) => text.len() > 0 && tight(text) && forall|i: int|
            0 <= i < lines(text).len() ==> !is_marker(#[trigger] lines(text)[i], comment),
    }
}

/// Whether the id and the code of a marked fragment are read back as they
/// are written.
pub open spec fn canonical_code(comment: Seq<char>, g: GeneratedCodeView) -> bool {
    plain(g.id) && tight(g.id) && tight(g.code) && forall|i: int|
        0 <= i < lines(g.code).len() ==> !closes(#[trigger] lines(g.code)[i], comment)
}

/// Whether a page is read back as it is written: its comment token is one
/// line, each fragment is read back as it is written, and no free text
/// follows free text directly.
pub open spec fn canonical(page: CodePageView) -> bool {
    &&& plain(page.comment_string)
    &&& forall|i: int|
        0 <= i < page.fragments.len() ==> canonical_fragment(
            page.comment_string,
            #[trigger] page.fragments[i],
        )
    &&& forall|i: int|
        0 <= i < page.fragments.len() - 1 ==> !(#[trigger] page.fragments[i] is Other
            && page.fragments[i + 1] is Other)
}

/// Reading lines one after the other can be done in two parts.
pub proof fn lemma_scan_add(comment: Seq<char>, state: Scan, a: Seq<Seq<char>>, b: Seq<Seq<char>>)
    ensures
        scan(comment, state, a + b) == scan(comment, scan(comment, state, a), b),
    decreases b.len(),
{
    if b.len() == 0 {
        assert(a + b =~= a);
    } else {
        lemma_scan_add(comment, state, a, b.drop_last());
        assert((a + b).drop_last() =~= a + b.drop_last());
        assert((a + b).last() == b.last());
    }
}

/// Reading one line is one step.
pub proof fn lemma_scan_one(comment: Seq<char>, state: Scan, line: Seq<char>)
    ensures
        scan(comment, state, seq![line]) == scan_line(comment, state, line),
{
    assert(seq![line].drop_last() =~= Seq::<Seq<char>>::empty());
    assert(scan(comment, state, seq![line].drop_last()) == state);
}

/// Lines that change nothing but the text collected: inside a fragment all
/// but the closing line, outside all but the marker lines.
pub proof fn lemma_scan_collects(comment: Seq<char>, state: Scan, ls: Seq<Seq<char>>)
    requires
        state.open is Some ==> forall|i: int|
            0 <= i < ls.len() ==> !closes(#[trigger] ls[i], comment),
        state.open is None ==> forall|i: int|
            0 <= i < ls.len() ==> !is_marker(#[trigger] ls[i], comment),
    ensures
        scan(comment, state, ls) == (Scan { text: collected(state.text, ls), ..state }),
    decreases ls.len(),
{
    if ls.len() > 0 {
        let init = ls.drop_last();
        assert forall|i: int| 0 <= i < init.len() implies init[i] == ls[i] by {}
        lemma_scan_collects(comment, state, init);
        assert(ls.last() == ls[ls.len() - 1]);
    }
}

/// The three markers of a comment token: each is one line without white
/// space at either end, and they differ in the second character after the
/// comment token.
pub proof fn lemma_markers(comment: Seq<char>)
    requires
        valid_comment(comment),
    ensures
        plain(end_comment(comment)),
        plain(start_generated(comment)),
        plain(start_not_generated(comment)),
        end_comment(comment).len() == comment.len() + 5,
        start_generated(comment).len() == comment.len() + 11,
        start_not_generated(comment).len() == comment.len() + 15,
        end_comment(comment)[0] == comment[0],
        start_generated(comment)[0] == comment[0],
        start_not_generated(comment)[0] == comment[0],
        !is_space(end_comment(comment).last()),
        !is_space(start_generated(comment).last()),
        !is_space(start_not_generated(comment).last()),
        end_comment(comment)[comment.len() as int + 2] == 'E',
        start_generated(comment)[comment.len() as int + 2] == 'G',
        start_not_generated(comment)[comment.len() as int + 2] == 'N',
{
    reveal_strlit(" ");
    reveal_strlit("@END");
    reveal_strlit("@GENERATED");
    reveal_strlit("@NOT GENERATED");
    let n = comment.len() as int;
    assert(end_comment(comment)[n + 2] == "@END"@[1]);
    assert(start_generated(comment)[n + 2] == "@GENERATED"@[1]);
    assert(start_not_generated(comment)[n + 2] == "@NOT GENERATED"@[1]);
    assert(end_comment(comment).last() == "@END"@[3]);
    assert(start_generated(comment).last() == "@GENERATED"@[9]);
    assert(start_not_generated(comment).last() == "@NOT GENERATED"@[13]);
}

/// The line that opens a marked fragment is read as what it is: it opens a
/// fragment of its kind with its id, and it closes nothing.
pub proof fn lemma_start_line(comment: Seq<char>, generated: bool, id: Seq<char>)
    requires
        valid_comment(comment),
        tight(id),
    ensures
        ({
            let start = if generated {
                start_generated(comment)
            } else {
                start_not_generated(comment)
            };
            let line = start + " "@ + id;
            &&& begins(line, start)
            &&& id_after(line, start) == id
            &&& !closes(line, comment)
            &&& !generated ==> !begins(line, start_generated(comment))
        }),
{
    lemma_markers(comment);
    reveal_strlit(" ");
    let start = if generated {
        start_generated(comment)
    } else {
        start_not_generated(comment)
    };
    let n = comment.len() as int;
    let line = start + " "@ + id;
    let none = Seq::<char>::empty();
    assert(blank(" "@));
    assert(blank(none));
    assert(tight(start));
    if id.len() == 0 {
        lemma_trimmed_around(none, start, " "@);
        assert(none + start + " "@ =~= line);
        assert(trimmed(line) == start);
        assert(start.subrange(0, start.len() as int) =~= start);
        assert(start.skip(start.len() as int) =~= none);
        lemma_trimmed_blank(none);
        assert(id =~= none);
    } else {
        assert(line[0] == start[0]);
        assert(line.last() == id.last());
        assert(tight(line));
        lemma_trimmed_around(none, line, none);
        assert(none + line + none =~= line);
        assert(trimmed(line) == line);
        assert(line.subrange(0, start.len() as int) =~= start);
        assert(line.skip(start.len() as int) =~= " "@ + id + none);
        lemma_trimmed_around(" "@, id, none);
    }
    let bare = trimmed(line);
    assert(bare[n + 2] == start[n + 2]);
    assert(bare.len() >= start.len());
    if bare == end_comment(comment) {
        assert(bare[n + 2] == 'E');
    }
    if !generated && start_generated(comment).is_prefix_of(bare) {
        let other = start_generated(comment);
        assert(other[n + 2] == bare.subrange(0, other.len() as int)[n + 2]);
    }
}

/// The closing line is read as what it is.
pub proof fn lemma_end_line(comment: Seq<char>)
    requires
        valid_comment(comment),
    ensures
        closes(end_comment(comment), comment),
{
    lemma_markers(comment);
    let none = Seq::<char>::empty();
    let end = end_comment(comment);
    assert(blank(none));
    lemma_trimmed_around(none, end, none);
    assert(none + end + none =~= end);
}

/// The empty line is no marker line.
pub proof fn lemma_empty_line(comment: Seq<char>)
    ensures
        !is_marker(Seq::<char>::empty(), comment),
{
    reveal_strlit(" ");
    reveal_strlit("@END");
    reveal_strlit("@GENERATED");
    reveal_strlit("@NOT GENERATED");
    let none = Seq::<char>::empty();
    assert(trimmed(none) == none);
    assert(end_comment(comment).len() > 0);
    assert(start_generated(comment).len() > 0);
    assert(start_not_generated(comment).len() > 0);
}

/// The lines that a fragment takes in a page: those of its text, and an
/// empty one after them.
pub open spec fn block_lines(comment: Seq<char>, fragment: CodeFragmentView) -> Seq<Seq<char>> {
    lines(fragment_text(comment, fragment)) + seq![Seq::<char>::empty()]
}

/// The lines that fragments take in a page, one fragment after the other.
pub open spec fn page_lines(comment: Seq<char>, fragments: Seq<CodeFragmentView>) -> Seq<
    Seq<char>,
>
    decreases fragments.len(),
{
    if fragments.len() == 0 {
        Seq::empty()
    } else {
        page_lines(comment, fragments.drop_last()) + block_lines(comment, fragments.last())
    }
}

/// The lines of a page as it is written: the banner, then the lines of the
/// fragments.
pub proof fn lemma_lines_of_page(comment: Seq<char>, fragments: Seq<CodeFragmentView>)
    requires
        plain(comment),
    ensures
        lines(comment + description() + fragments_text(comment, fragments)) == seq![
            comment + description(),
        ] + page_lines(comment, fragments),
    decreases fragments.len(),
{
    let banner = comment + description();
    if fragments.len() == 0 {
        reveal_strlit(
            " THIS FILE IS GENERATED BY PAKKEN. EVERY FRAGMENT MARKED WITH @GENERATED WILL BE OVERRIDEN ON THE NEXT GENERATION. TO PREVENT THIS CHANGE IT TO @NOT GENERATED.",
        );
        assert(plain(banner));
        lemma_lines_plain(banner);
        assert(banner + Seq::<char>::empty() =~= banner);
        assert(seq![banner] + Seq::<Seq<char>>::empty() =~= seq![banner]);
    } else {
        let init = fragments.drop_last();
        let text = fragment_text(comment, fragments.last());
        let none = Seq::<char>::empty();
        lemma_lines_of_page(comment, init);
        let before = banner + fragments_text(comment, init);
        lemma_lines_add(before, text + seq!['\n']);
        lemma_lines_add(text, none);
        assert(text + seq!['\n'] + none =~= text + seq!['\n']);
        assert(banner + fragments_text(comment, fragments) =~= before + seq!['\n'] + (text + seq![
            '\n',
        ]));
        assert(lines(none) =~= seq![none]);
        assert(seq![banner] + page_lines(comment, init) + block_lines(comment, fragments.last())
            =~= seq![banner] + page_lines(comment, fragments));
    }
}

/// Reading the lines of a marked fragment completes the free text before
/// it and then the fragment.
pub proof fn lemma_scan_marked(
    comment: Seq<char>,
    state: Scan,
    generated: bool,
    g: GeneratedCodeView,
)
    requires
        valid_comment(comment),
        canonical_code(comment, g),
        state.open is None,
    ensures
        scan(comment, state, block_lines(comment, marked(generated, g.id, g.code))) == (Scan {
            done: with_free_text(state.done, state.text).push(marked(generated, g.id, g.code)),
            open: None,
            text: seq!['\n'],
            stray_end: state.stray_end,
        }),
        marked(generated, g.id, g.code) == if generated {
            CodeFragmentView::Generated(g)
        } else {
            CodeFragmentView::NotGenerated(g)
        },
{
    lemma_markers(comment);
    reveal_strlit(" ");
    let none = Seq::<char>::empty();
    let feed = seq!['\n'];
    let start = if generated {
        start_generated(comment)
    } else {
        start_not_generated(comment)
    };
    let end = end_comment(comment);
    let first = start + " "@ + g.id;
    assert(blank(none));
    assert(blank(feed));
    lemma_trimmed_around(none, g.code, none);
    assert(none + g.code + none =~= g.code);
    let fragment = marked(generated, g.id, g.code);
    assert(fragment == if generated {
        CodeFragmentView::Generated(g)
    } else {
        CodeFragmentView::NotGenerated(g)
    });
    let text = fragment_text(comment, fragment);
    assert(text == marked_text(start, comment, g));
    // the lines of the fragment
    assert(plain(first));
    lemma_lines_plain(first);
    lemma_lines_plain(end);
    lemma_lines_add(first, g.code);
    lemma_lines_add(first + feed + g.code, end);
    assert(text =~= first + feed + g.code + feed + end);
    let ls = block_lines(comment, fragment);
    assert(ls =~= seq![first] + lines(g.code) + seq![end] + seq![none]);
    // the opening line
    lemma_start_line(comment, generated, g.id);
    let opened = Scan {
        done: with_free_text(state.done, state.text),
        open: Some((generated, g.id)),
        text: none,
        stray_end: state.stray_end,
    };
    lemma_scan_one(comment, state, first);
    assert(scan_line(comment, state, first) == opened);
    // the code
    lemma_scan_collects(comment, opened, lines(g.code));
    lemma_collected_lines(none, g.code);
    let filled = Scan { text: none + feed + g.code, ..opened };
    assert(scan(comment, opened, lines(g.code)) == filled);
    // the closing line
    lemma_end_line(comment);
    lemma_trimmed_around(none + feed, g.code, none);
    assert(none + feed + g.code + none =~= none + feed + g.code);
    let closed = Scan {
        done: opened.done.push(fragment),
        open: None,
        text: none,
        stray_end: state.stray_end,
    };
    lemma_scan_one(comment, filled, end);
    assert(scan_line(comment, filled, end) == closed);
    // the empty line
    lemma_empty_line(comment);
    lemma_scan_one(comment, closed, none);
    let after = Scan { text: seq!['\n'], ..closed };
    assert(none + feed + none =~= feed);
    assert(scan_line(comment, closed, none) == after);
    // all together
    lemma_scan_add(comment, state, seq![first] + lines(g.code) + seq![end], seq![none]);
    lemma_scan_add(comment, state, seq![first] + lines(g.code), seq![end]);
    lemma_scan_add(comment, state, seq![first], lines(g.code));
}

/// Reading the lines of free text collects it.
pub proof fn lemma_scan_other(comment: Seq<char>, state: Scan, text: Seq<char>)
    requires
        canonical_fragment(comment, CodeFragmentView::Other(text)),
        state.open is None,
        blank(state.text),
    ensures
        ({
            let after = scan(comment, state, block_lines(comment, CodeFragmentView::Other(text)));
            &&& after.done == state.done
            &&& after.open is None
            &&& after.stray_end == state.stray_end
            &&& with_free_text(after.done, after.text) == state.done.push(
                CodeFragmentView::Other(text),
            )
        }),
        with_free_text(state.done, state.text) == state.done,
{
    let none = Seq::<char>::empty();
    let feed = seq!['\n'];
    let ls = block_lines(comment, CodeFragmentView::Other(text));
    lemma_empty_line(comment);
    assert forall|i: int| 0 <= i < ls.len() implies !is_marker(#[trigger] ls[i], comment) by {
        if i < lines(text).len() {
            assert(ls[i] == lines(text)[i]);
        } else {
            assert(ls[i] == none);
        }
    }
    lemma_scan_collects(comment, state, ls);
    assert(ls.drop_last() =~= lines(text));
    assert(ls.last() == none);
    lemma_collected_lines(state.text, text);
    let all = state.text + feed + text + feed + none;
    assert(collected(state.text, ls) == all);
    assert(blank(state.text + feed));
    assert(blank(feed + none));
    lemma_trimmed_around(state.text + feed, text, feed + none);
    assert(state.text + feed + text + (feed + none) =~= all);
    lemma_trimmed_blank(state.text);
}

/// What holds after the lines of some fragments have been read: nothing is
/// out of place or open, and the fragments read, with the free text that is
/// collected, are those fragments.
pub open spec fn read_as(state: Scan, fragments: Seq<CodeFragmentView>) -> bool {
    &&& !state.stray_end
    &&& state.open is None
    &&& with_free_text(state.done, state.text) == fragments
    &&& blank(state.text) || (fragments.len() > 0 && fragments.last() is Other)
}

/// Reading the lines of a page that is read back as it is written gives its
/// fragments.
pub proof fn lemma_scan_page(page: CodePageView)
    requires
        canonical(page),
    ensures
        read_as(
            scan(
                page.comment_string,
                scan_start(),
                page_lines(page.comment_string, page.fragments),
            ),
            page.fragments,
        ),
    decreases page.fragments.len(),
{
    let comment = page.comment_string;
    let fragments = page.fragments;
    let none = Seq::<char>::empty();
    if fragments.len() == 0 {
        assert(blank(none));
        lemma_trimmed_blank(none);
        assert(with_free_text(scan_start().done, scan_start().text) =~= fragments);
    } else {
        let init = fragments.drop_last();
        let last = fragments.last();
        let earlier = CodePageView { fragments: init, comment_string: comment };
        assert forall|i: int| 0 <= i < init.len() implies canonical_fragment(
            comment,
            #[trigger] init[i],
        ) by {
            assert(init[i] == fragments[i]);
        }
        assert forall|i: int| 0 <= i < init.len() - 1 implies !(#[trigger] init[i] is Other
            && init[i + 1] is Other) by {
            assert(init[i] == fragments[i]);
            assert(init[i + 1] == fragments[i + 1]);
        }
        lemma_scan_page(earlier);
        let before = scan(comment, scan_start(), page_lines(comment, init));
        lemma_scan_add(comment, scan_start(), page_lines(comment, init), block_lines(comment, last));
        assert(canonical_fragment(comment, last));
        assert(init.push(last) =~= fragments);
        match last {
            CodeFragmentView::Generated(g) => {
                lemma_scan_marked(comment, before, true, g);
                assert(blank(seq!['\n']));
                lemma_trimmed_blank(seq!['\n']);
            },
            CodeFragmentView::NotGenerated(g) => {
                lemma_scan_marked(comment, before, false, g);
                assert(blank(seq!['\n']));
                lemma_trimmed_blank(seq!['\n']);
            },
            CodeFragmentView::Other(text) => {
                if init.len() > 0 {
                    assert(fragments[init.len() - 1] == init.last());
                    assert(!(fragments[init.len() - 1] is Other && fragments[init.len() as int]
                        is Other));
                }
                lemma_scan_other(comment, before, text);
            },
        }
    }
}

/// A page that is written down and read again is the page itself.
///
/// This holds of the pages that are read back as they are written: see
/// [`canonical`]. Of other pages it does not: reading trims the fragments,
/// joins free texts that follow each other, and takes a closing line in the
/// code of a fragment for the end of the fragment.
pub proof fn lemma_build_then_read(page: CodePageView)
    requires
        canonical(page),
    ensures
        parsed_page(page.comment_string, page_text(page)) == Some(page),
{
    let comment = page.comment_string;
    lemma_lines_of_page(comment, page.fragments);
    lemma_scan_page(page);
    let all = lines(page_text(page));
    assert(all.skip(1) =~= page_lines(comment, page.fragments));
}

/// Generating again over its own output changes nothing: a page that holds
/// generated fragments only, and is read back as it is written, stays as it
/// is when it is merged with what is read back from its own text.
pub proof fn lemma_regenerate_unchanged(page: CodePageView)
    requires
        canonical(page),
        forall|i: int| 0 <= i < page.fragments.len() ==> #[trigger] page.fragments[i] is Generated,
    ensures
        parsed_page(page.comment_string, page_text(page)) matches Some(existing) && merged_page(
            page,
            existing,
        ) == page,
{
    lemma_build_then_read(page);
    lemma_merge_idempotent(page, page);
}

} // verus!
