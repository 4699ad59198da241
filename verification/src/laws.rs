//! Properties of the library, stated and proved once and for all: what
//! classification yields on heading lines, the cross-dialect agreement of
//! link extraction, the shape of split tag lists, the tree invariant of every
//! parsed document, the indifference of the parse to blank lines, and the
//! determinism of re-parsing.

use vstd::prelude::*;

use crate::classify::heading_view_of;
use crate::classify::lemma_find_char_some;
use crate::classify::lemma_rfind_marker_some;
use crate::classify::link_view_of;
use crate::grammar::classify_spec;
use crate::grammar::find_char_from;
use crate::grammar::find_kw_from;
use crate::grammar::find_pat_from;
use crate::grammar::is_blank_char;
use crate::grammar::kw_date;
use crate::grammar::kw_description;
use crate::grammar::kw_tags;
use crate::grammar::kw_title;
use crate::grammar::link_parts;
use crate::grammar::link_spec;
use crate::grammar::scan_annotation;
use crate::grammar::match_at;
use crate::grammar::match_kw_at;
use crate::grammar::kw_after;
use crate::grammar::marker_at;
use crate::grammar::marker_keyword_pos;
use crate::grammar::read_till_start;
use crate::grammar::rfind_marker;
use crate::grammar::matches_ci;
use crate::grammar::skip_cell_gap;
use crate::grammar::tags_value;
use crate::grammar::token_end;
use crate::grammar::is_token_char;
use crate::grammar::heading_marker;
use crate::grammar::heading_parts;
use crate::grammar::marker_run_end;
use crate::grammar::skip_spaces;
use crate::grammar::split_tags_acc;
use crate::grammar::trim_end_idx;
use crate::grammar::LineClass;
use crate::model::doc_wf;
use crate::model::heading_wf;
use crate::model::FileDataView;
use crate::model::FileType;
use crate::model::HeadingView;
use crate::model::LinkView;
use crate::parse::close_all;
use crate::parse::close_top;
use crate::parse::init_state;
use crate::parse::parse_spec;
use crate::parse::pop_to_level;
use crate::parse::push_heading;
use crate::parse::push_link;
use crate::parse::run_lines;
use crate::parse::step_line;
use crate::parse::BuildState;

verus! {

/// Line numbers of `ls` strictly ascending, each in `(lo, hi]`.
pub open spec fn links_ordered(ls: Seq<LinkView>, lo: int, hi: int) -> bool {
    &&& forall|i: int| 0 <= i < ls.len() ==> lo < (#[trigger] ls[i]).line_number <= hi
    &&& forall|i: int, j: int| 0 <= i < j < ls.len() ==> ls[i].line_number < ls[j].line_number
}

/// Headings of `hs` well formed, strictly deeper than `parent_level`, line
/// numbers strictly ascending, each in `(lo, hi]`.
pub open spec fn headings_ordered(hs: Seq<HeadingView>, parent_level: int, lo: int, hi: int) -> bool {
    &&& forall|i: int| 0 <= i < hs.len() ==> heading_wf(#[trigger] hs[i])
    &&& forall|i: int| 0 <= i < hs.len() ==> (#[trigger] hs[i]).level > parent_level
    &&& forall|i: int| 0 <= i < hs.len() ==> lo < (#[trigger] hs[i]).line_number <= hi
    &&& forall|i: int, j: int| 0 <= i < j < hs.len() ==> hs[i].line_number < hs[j].line_number
}

/// The last line that can have contributed to stack entry `i`: the line
/// before the next entry was opened, or the last line folded so far for the
/// innermost entry.
pub open spec fn entry_hi(st: BuildState, i: int, bound: int) -> int {
    if i + 1 < st.stack.len() {
        st.stack[i + 1].line_number - 1
    } else {
        bound
    }
}

/// What holds of one open heading on the stack.
pub open spec fn stack_entry_inv(st: BuildState, i: int, bound: int) -> bool {
    let h = st.stack[i];
    &&& h.level >= 1
    &&& h.line_number >= 1
    &&& headings_ordered(h.heading, h.level, h.line_number, entry_hi(st, i, bound))
    &&& links_ordered(h.links, h.line_number, entry_hi(st, i, bound))
}

/// The last line that can have contributed a top-level heading or root link.
pub open spec fn root_hi(st: BuildState, bound: int) -> int {
    if st.stack.len() > 0 {
        st.stack[0].line_number - 1
    } else {
        bound
    }
}

/// The builder's invariant after folding `bound` lines: the stack is sorted
/// by level and by line number, every finished part of the tree is well
/// formed and in file order, and no line number exceeds `bound`.
pub open spec fn state_inv(st: BuildState, bound: int) -> bool {
    &&& forall|i: int| 0 <= i < st.stack.len() ==> #[trigger] stack_entry_inv(st, i, bound)
    &&& forall|i: int, j: int|
        0 <= i < j < st.stack.len() ==> st.stack[i].level < st.stack[j].level
    &&& forall|i: int, j: int|
        0 <= i < j < st.stack.len() ==> st.stack[i].line_number < st.stack[j].line_number
    &&& forall|i: int| 0 <= i < st.stack.len() ==> (#[trigger] st.stack[i]).line_number <= bound
    &&& headings_ordered(st.root_headings, 0, 0, root_hi(st, bound))
    &&& links_ordered(st.root_links, 0, root_hi(st, bound))
}

/// A larger bound weakens the invariant.
proof fn lemma_inv_weaken(st: BuildState, b1: int, b2: int)
    requires
        state_inv(st, b1),
        b1 <= b2,
    ensures
        state_inv(st, b2),
{
    assert forall|i: int| 0 <= i < st.stack.len() implies #[trigger] stack_entry_inv(
        st,
        i,
        b2,
    ) by {
        assert(stack_entry_inv(st, i, b1));
    }
}

/// Closing the innermost heading preserves the invariant.
proof fn lemma_close_top_inv(st: BuildState, bound: int)
    requires
        state_inv(st, bound),
        st.stack.len() > 0,
    ensures
        state_inv(close_top(st), bound),
        close_top(st).stack.len() == st.stack.len() - 1,
{
    let m = st.stack.len() as int;
    let top = st.stack.last();
    let rest = st.stack.drop_last();
    assert(stack_entry_inv(st, m - 1, bound));
    assert(entry_hi(st, m - 1, bound) == bound);
    assert(heading_wf(top));
    let st2 = close_top(st);
    if m == 1 {
        assert forall|i: int| 0 <= i < st2.stack.len() implies #[trigger] stack_entry_inv(
            st2,
            i,
            bound,
        ) by {
        }
        assert(headings_ordered(st2.root_headings, 0, 0, root_hi(st2, bound)));
        assert(links_ordered(st2.root_links, 0, root_hi(st2, bound)));
    } else {
        let parent = rest.last();
        let parent2 = HeadingView { heading: parent.heading.push(top), ..parent };
        assert(stack_entry_inv(st, m - 2, bound));
        assert(entry_hi(st, m - 2, bound) == top.line_number - 1);
        assert(st2.stack == rest.drop_last().push(parent2));
        assert(st2.stack.len() == m - 1);
        assert forall|i: int| 0 <= i < m - 2 implies st2.stack[i] == st.stack[i] by {
        }
        assert(st2.stack[m - 2] == parent2);
        assert(headings_ordered(
            parent2.heading,
            parent2.level,
            parent2.line_number,
            entry_hi(st2, m - 2, bound),
        ));
        assert forall|i: int| 0 <= i < st2.stack.len() implies #[trigger] stack_entry_inv(
            st2,
            i,
            bound,
        ) by {
            assert(stack_entry_inv(st, i, bound));
            if i < m - 2 {
                assert(entry_hi(st2, i, bound) == entry_hi(st, i, bound));
            }
        }
        assert(root_hi(st2, bound) == root_hi(st, bound));
    }
}

/// Closing every heading of level at least `lvl` preserves the invariant;
/// afterwards the innermost open heading, if any, is shallower than `lvl`.
proof fn lemma_pop_to_level_inv(st: BuildState, lvl: int, bound: int)
    requires
        state_inv(st, bound),
    ensures
        state_inv(pop_to_level(st, lvl), bound),
        pop_to_level(st, lvl).stack.len() > 0 ==> pop_to_level(st, lvl).stack.last().level < lvl,
    decreases st.stack.len(),
{
    if st.stack.len() > 0 && st.stack.last().level >= lvl {
        lemma_close_top_inv(st, bound);
        lemma_pop_to_level_inv(close_top(st), lvl, bound);
    }
}

/// Attaching the link of the next line preserves the invariant.
proof fn lemma_push_link_inv(st: BuildState, l: LinkView, bound: int)
    requires
        state_inv(st, bound),
        bound >= 0,
        l.line_number == bound + 1,
    ensures
        state_inv(push_link(st, l), bound + 1),
{
    let st2 = push_link(st, l);
    let m = st.stack.len() as int;
    if m == 0 {
        lemma_inv_weaken(st, bound, bound + 1);
    } else {
        let top = st.stack.last();
        let top2 = HeadingView { links: top.links.push(l), ..top };
        assert(stack_entry_inv(st, m - 1, bound));
        assert(st2.stack == st.stack.drop_last().push(top2));
        assert forall|i: int| 0 <= i < m - 1 implies st2.stack[i] == st.stack[i] by {
        }
        assert(st2.stack[m - 1] == top2);
        assert forall|i: int| 0 <= i < st2.stack.len() implies #[trigger] stack_entry_inv(
            st2,
            i,
            bound + 1,
        ) by {
            assert(stack_entry_inv(st, i, bound));
            if i < m - 1 {
                assert(entry_hi(st2, i, bound + 1) == entry_hi(st, i, bound));
            } else {
                assert(links_ordered(top2.links, top2.line_number, bound + 1));
            }
        }
        assert(root_hi(st2, bound + 1) == root_hi(st, bound));
    }
}

/// Opening the heading of the next line preserves the invariant.
proof fn lemma_push_heading_inv(st: BuildState, h: HeadingView, bound: int)
    requires
        state_inv(st, bound),
        bound >= 0,
        h.level >= 1,
        h.line_number == bound + 1,
        h.heading.len() == 0,
        h.links.len() == 0,
    ensures
        state_inv(push_heading(st, h), bound + 1),
{
    lemma_pop_to_level_inv(st, h.level, bound);
    let st1 = pop_to_level(st, h.level);
    let m1 = st1.stack.len() as int;
    let st2 = push_heading(st, h);
    assert(st2.stack == st1.stack.push(h));
    assert(heading_wf(h));
    assert forall|i: int| 0 <= i < st2.stack.len() implies #[trigger] stack_entry_inv(
        st2,
        i,
        bound + 1,
    ) by {
        if i < m1 {
            assert(stack_entry_inv(st1, i, bound));
            if i + 1 < m1 {
                assert(entry_hi(st2, i, bound + 1) == entry_hi(st1, i, bound));
            } else {
                assert(entry_hi(st1, i, bound) == bound);
                assert(entry_hi(st2, i, bound + 1) == h.line_number - 1);
            }
        } else {
            assert(st2.stack[i] == h);
        }
    }
    assert forall|i: int, j: int| 0 <= i < j < st2.stack.len() implies st2.stack[i].level
        < st2.stack[j].level by {
        if j < m1 {
        } else {
            assert(st2.stack[j] == h);
            if m1 > 0 {
                assert(st1.stack.last().level < h.level);
                if i < m1 - 1 {
                    assert(st1.stack[i].level < st1.stack[m1 - 1].level);
                }
            }
        }
    }
    assert forall|i: int, j: int| 0 <= i < j < st2.stack.len() implies st2.stack[i].line_number
        < st2.stack[j].line_number by {
        if j == m1 {
            assert(st2.stack[i].line_number <= bound);
        }
    }
    if m1 > 0 {
        assert(root_hi(st2, bound + 1) == root_hi(st1, bound));
    } else {
        assert(root_hi(st2, bound + 1) == h.line_number - 1);
        assert(root_hi(st1, bound) == bound);
    }
}

/// Folding one line preserves the invariant.
proof fn lemma_step_inv(st: BuildState, s: Seq<char>, ft: FileType, n: int)
    requires
        state_inv(st, n - 1),
        n >= 1,
    ensures
        state_inv(step_line(st, s, ft, n), n),
{
    match classify_spec(s, ft) {
        LineClass::Link(f) => {
            lemma_push_link_inv(st, link_view_of(f, n), n - 1);
        },
        LineClass::Heading { level, title } => {
            lemma_push_heading_inv(st, heading_view_of(level, title, n), n - 1);
        },
        _ => {
            lemma_inv_weaken(st, n - 1, n);
            let st2 = step_line(st, s, ft, n);
            assert(st2.stack == st.stack && st2.root_headings == st.root_headings
                && st2.root_links == st.root_links);
            assert forall|i: int| 0 <= i < st2.stack.len() implies #[trigger] stack_entry_inv(
                st2,
                i,
                n,
            ) by {
                assert(stack_entry_inv(st, i, n));
            }
        },
    }
}

/// Folding any run of lines preserves the invariant.
proof fn lemma_run_inv(lines: Seq<Seq<char>>, ft: FileType, i: int, st: BuildState)
    requires
        0 <= i <= lines.len(),
        state_inv(st, i),
    ensures
        state_inv(run_lines(lines, ft, i, st), lines.len() as int),
    decreases lines.len() - i,
{
    if i < lines.len() {
        lemma_step_inv(st, lines[i], ft, i + 1);
        lemma_run_inv(lines, ft, i + 1, step_line(st, lines[i], ft, i + 1));
    }
}

/// Closing every open heading preserves the invariant and empties the stack.
proof fn lemma_close_all_inv(st: BuildState, bound: int)
    requires
        state_inv(st, bound),
    ensures
        state_inv(close_all(st), bound),
        close_all(st).stack.len() == 0,
    decreases st.stack.len(),
{
    if st.stack.len() > 0 {
        lemma_close_top_inv(st, bound);
        lemma_close_all_inv(close_top(st), bound);
    }
}

/// The tree invariant of every parsed document: each heading's level is
/// strictly greater than its parent's, children and links stand in ascending
/// line-number order, and top-level headings and root links do too.
pub proof fn lemma_parse_spec_wf(file_name: Seq<char>, lines: Seq<Seq<char>>, ft: FileType)
    ensures
        doc_wf(parse_spec(file_name, lines, ft)),
{
    assert(state_inv(init_state(), 0));
    lemma_run_inv(lines, ft, 0, init_state());
    lemma_close_all_inv(run_lines(lines, ft, 0, init_state()), lines.len() as int);
}

/// A valid heading line classifies as a heading — the link grammar can never
/// match it — and its level is the length of the marker run, its title the
/// rest of the line trimmed of trailing whitespace.
pub proof fn lemma_heading_classification(s: Seq<char>, ft: FileType)
    requires
        heading_parts(s, ft) is Some,
    ensures
        ({
            let p = heading_parts(s, ft).unwrap();
            &&& classify_spec(s, ft) == (LineClass::Heading { level: p.0, title: p.1 })
            &&& p.0 == marker_run_end(s, 0, heading_marker(ft))
            &&& p.1 == s.subrange(
                skip_spaces(s, p.0),
                trim_end_idx(s, skip_spaces(s, p.0), s.len() as int),
            )
        }),
{
    let m = heading_marker(ft);
    assert(marker_run_end(s, 0, m) >= 1);
    assert(s.len() > 0 && s[0] == m);
    assert(skip_spaces(s, 0) == 0);
    assert(skip_cell_gap(s, 0) == 0);
    assert(link_parts(s, ft) is None);
}

/// Every segment the tag splitter emits is nonempty: empty segments between
/// colons are dropped.
proof fn lemma_split_tags_nonempty(s: Seq<char>, i: int, cur: Seq<char>)
    ensures
        forall|k: int|
            0 <= k < split_tags_acc(s, i, cur).len() ==> (#[trigger] split_tags_acc(s, i, cur)[k]).len()
                > 0,
    decreases s.len() - i,
{
    let r = split_tags_acc(s, i, cur);
    if i < 0 || i >= s.len() {
        if cur.len() > 0 {
            assert(r == seq![cur]);
            assert(r[0] == cur);
        }
    } else if s[i] == ':' {
        lemma_split_tags_nonempty(s, i + 1, Seq::empty());
        let rec = split_tags_acc(s, i + 1, Seq::empty());
        assert forall|k: int| 0 <= k < r.len() implies (#[trigger] r[k]).len() > 0 by {
            if cur.len() > 0 {
                assert(r == seq![cur] + rec);
                if k == 0 {
                    assert(r[k] == cur);
                } else {
                    assert(r[k] == rec[k - 1]);
                }
            } else {
                assert(r == rec);
            }
        }
    } else {
        lemma_split_tags_nonempty(s, i + 1, cur.push(s[i]));
        let rec = split_tags_acc(s, i + 1, cur.push(s[i]));
        assert forall|k: int| 0 <= k < r.len() implies (#[trigger] r[k]).len() > 0 by {
            assert(r[k] == rec[k]);
        }
    }
}

/// No tag handed back by the tags grammar is the empty string.
pub proof fn lemma_tags_nonempty(s: Seq<char>, kw: Seq<char>)
    requires
        tags_value(s, kw) is Some,
    ensures
        forall|k: int|
            0 <= k < tags_value(s, kw).unwrap().len() ==> (#[trigger] tags_value(
                s,
                kw,
            ).unwrap()[k]).len() > 0,
{
    let p = find_kw_from(s, kw, 0).unwrap();
    let j = skip_spaces(s, p + kw.len());
    lemma_split_tags_nonempty(s, j + 1, Seq::empty());
}

/// Where a forward keyword search cannot match its first character, it finds
/// nothing.
proof fn lemma_find_kw_from_none(s: Seq<char>, kw: Seq<char>, i: int)
    requires
        kw.len() > 0,
        forall|p: int| 0 <= p < s.len() ==> !matches_ci(#[trigger] s[p], kw[0]),
        i >= 0,
    ensures
        find_kw_from(s, kw, i) is None,
    decreases s.len() - i,
{
    if i + kw.len() <= s.len() {
        assert(!match_kw_at(s, i, kw)) by {
            assert(!matches_ci(s[i], kw[0]));
        }
        lemma_find_kw_from_none(s, kw, i + 1);
    }
}

/// A line of nothing but whitespace is unclassifiable and changes neither the
/// tree nor the metadata.
pub proof fn lemma_blank_line_unclassifiable(
    s: Seq<char>,
    ft: FileType,
    st: BuildState,
    n: int,
)
    requires
        forall|i: int| 0 <= i < s.len() ==> is_blank_char(#[trigger] s[i]),
    ensures
        classify_spec(s, ft) == LineClass::Plain,
        step_line(st, s, ft, n) == st,
{
    lemma_skip_spaces_bounds(s, 0);
    let i = skip_spaces(s, 0);
    if i < s.len() {
        assert(is_blank_char(s[i]));
    }
    assert(skip_cell_gap(s, 0) == i);
    assert(link_parts(s, ft) is None);
    if s.len() > 0 {
        assert(is_blank_char(s[0]));
    }
    assert(marker_run_end(s, 0, heading_marker(ft)) == 0);
    assert(kw_title(ft)[0] == (if ft is Org { '#' } else { 't' }));
    assert(kw_description(ft)[0] == (if ft is Org { '#' } else { 'd' }));
    assert(kw_date(ft)[0] == (if ft is Org { '#' } else { 'd' }));
    assert(kw_tags(ft)[0] == (if ft is Org { '#' } else { 'f' }));
    assert forall|p: int| 0 <= p < s.len() implies !matches_ci(#[trigger] s[p], kw_title(ft)[0]) by {
        assert(is_blank_char(s[p]));
    }
    assert forall|p: int| 0 <= p < s.len() implies !matches_ci(
        #[trigger] s[p],
        kw_description(ft)[0],
    ) by {
        assert(is_blank_char(s[p]));
    }
    assert forall|p: int| 0 <= p < s.len() implies !matches_ci(#[trigger] s[p], kw_date(ft)[0]) by {
        assert(is_blank_char(s[p]));
    }
    assert forall|p: int| 0 <= p < s.len() implies !matches_ci(#[trigger] s[p], kw_tags(ft)[0]) by {
        assert(is_blank_char(s[p]));
    }
    lemma_find_kw_from_none(s, kw_title(ft), 0);
    lemma_find_kw_from_none(s, kw_description(ft), 0);
    lemma_find_kw_from_none(s, kw_date(ft), 0);
    lemma_find_kw_from_none(s, kw_tags(ft), 0);
}

/// Skipping spaces stays within the line.
proof fn lemma_skip_spaces_bounds(s: Seq<char>, i: int)
    requires
        0 <= i <= s.len(),
    ensures
        i <= skip_spaces(s, i) <= s.len(),
        skip_spaces(s, i) < s.len() ==> s[skip_spaces(s, i)] != ' ',
    decreases s.len() - i,
{
    if i < s.len() && s[i] == ' ' {
        lemma_skip_spaces_bounds(s, i + 1);
    }
}

/// Parsing is a function of the file's lines alone: parsing the same lines
/// twice yields structurally equal documents.
pub proof fn lemma_reparse_equal(
    d1: FileDataView,
    d2: FileDataView,
    file_name: Seq<char>,
    lines: Seq<Seq<char>>,
    ft: FileType,
)
    requires
        d1 == parse_spec(file_name, lines, ft),
        d2 == parse_spec(file_name, lines, ft),
    ensures
        d1 == d2,
{
}

/// Where an exact pattern first matches at `p`, the search finds `p`.
proof fn lemma_find_pat_hit(s: Seq<char>, pat: Seq<char>, i: int, p: int)
    requires
        0 <= i <= p,
        match_at(s, p, pat),
        forall|q: int| i <= q < p ==> !match_at(s, q, pat),
    ensures
        find_pat_from(s, pat, i) == Some(p),
    decreases p - i,
{
    if i < p {
        lemma_find_pat_hit(s, pat, i + 1, p);
    }
}

/// Where a character first occurs at `p`, the search finds `p`.
proof fn lemma_find_char_hit(s: Seq<char>, c: char, i: int, p: int)
    requires
        0 <= i <= p < s.len(),
        s[p] == c,
        forall|q: int| i <= q < p ==> s[q] != c,
    ensures
        find_char_from(s, c, i) == Some(p),
    decreases p - i,
{
    if i < p {
        lemma_find_char_hit(s, c, i + 1, p);
    }
}

/// The two dialects extract the same target/name pair from their own link
/// syntax: `[[A][B]]` in the outline dialect and `[B](A)` in the lightweight
/// dialect both yield target `A` and name `B`.
#[verifier::rlimit(60)]
pub proof fn lemma_link_dialect_order(
    a: Seq<char>,
    b: Seq<char>,
    rest_org: Seq<char>,
    rest_md: Seq<char>,
)
    requires
        forall|i: int| 0 <= i < a.len() ==> a[i] != ']' && a[i] != ')',
        forall|i: int| 0 <= i < b.len() ==> b[i] != ']',
    ensures
        ({
            let s = seq!['[', '['] + a + seq![']', '['] + b + seq![']', ']'] + rest_org;
            &&& link_parts(s, FileType::Org) is Some
            &&& link_parts(s, FileType::Org).unwrap().0 == a
            &&& link_parts(s, FileType::Org).unwrap().1 == b
            &&& link_parts(s, FileType::Org).unwrap().2 == 6 + a.len() + b.len()
        }),
        ({
            let t = seq!['['] + b + seq![']', '('] + a + seq![')'] + rest_md;
            &&& link_parts(t, FileType::Md) is Some
            &&& link_parts(t, FileType::Md).unwrap().0 == a
            &&& link_parts(t, FileType::Md).unwrap().1 == b
            &&& link_parts(t, FileType::Md).unwrap().2 == 4 + a.len() + b.len()
        }),
{
    let al = a.len() as int;
    let bl = b.len() as int;
    let s = seq!['[', '['] + a + seq![']', '['] + b + seq![']', ']'] + rest_org;
    assert(s.len() == al + bl + 6 + rest_org.len());
    assert forall|k: int| 0 <= k < al implies s[2 + k] == a[k] by {}
    assert forall|k: int| 0 <= k < bl implies s[4 + al + k] == b[k] by {}
    assert(s[0] == '[' && s[1] == '[');
    assert(s[2 + al] == ']' && s[3 + al] == '[');
    assert(s[4 + al + bl] == ']' && s[5 + al + bl] == ']');
    assert(skip_spaces(s, 0) == 0);
    assert(skip_cell_gap(s, 0) == 0);
    assert(match_at(s, 2 + al, seq![']', '['])) by {
        assert(s[2 + al + 0] == ']' && s[2 + al + 1] == '[');
    }
    assert forall|q: int| 2 <= q < 2 + al implies !match_at(s, q, seq![']', '[']) by {
        assert(s[q] == a[q - 2]);
        assert(s[q + 0] != ']');
    }
    lemma_find_pat_hit(s, seq![']', '['], 2, 2 + al);
    assert(match_at(s, 4 + al + bl, seq![']', ']'])) by {
        assert(s[4 + al + bl + 0] == ']' && s[4 + al + bl + 1] == ']');
    }
    assert forall|q: int| 4 + al <= q < 4 + al + bl implies !match_at(s, q, seq![']', ']']) by {
        assert(s[q] == b[q - (4 + al)]);
        assert(s[q + 0] != ']');
    }
    lemma_find_pat_hit(s, seq![']', ']'], 4 + al, 4 + al + bl);
    assert(s.subrange(2, 2 + al) =~= a);
    assert(s.subrange(4 + al, 4 + al + bl) =~= b);

    let t = seq!['['] + b + seq![']', '('] + a + seq![')'] + rest_md;
    assert(t.len() == al + bl + 4 + rest_md.len());
    assert forall|k: int| 0 <= k < bl implies t[1 + k] == b[k] by {}
    assert forall|k: int| 0 <= k < al implies t[3 + bl + k] == a[k] by {}
    assert(t[0] == '[');
    assert(t[1 + bl] == ']' && t[2 + bl] == '(');
    assert(t[3 + bl + al] == ')');
    assert(skip_spaces(t, 0) == 0);
    assert(skip_cell_gap(t, 0) == 0);
    assert(match_at(t, 1 + bl, seq![']', '('])) by {
        assert(t[1 + bl + 0] == ']' && t[1 + bl + 1] == '(');
    }
    assert forall|q: int| 1 <= q < 1 + bl implies !match_at(t, q, seq![']', '(']) by {
        assert(t[q] == b[q - 1]);
        assert(t[q + 0] != ']');
    }
    lemma_find_pat_hit(t, seq![']', '('], 1, 1 + bl);
    assert forall|q: int| 3 + bl <= q < 3 + bl + al implies t[q] != ')' by {
        assert(t[q] == a[q - (3 + bl)]);
    }
    lemma_find_char_hit(t, ')', 3 + bl, 3 + bl + al);
    assert(t.subrange(3 + bl, 3 + bl + al) =~= a);
    assert(t.subrange(1, 1 + bl) =~= b);
}

/// The suffixes of `s1` from `o1` and of `s2` from `o2` are the same text.
pub open spec fn suffix_eq(s1: Seq<char>, o1: int, s2: Seq<char>, o2: int) -> bool {
    &&& 0 <= o1 <= s1.len()
    &&& 0 <= o2 <= s2.len()
    &&& s1.subrange(o1, s1.len() as int) == s2.subrange(o2, s2.len() as int)
}

/// Equal suffixes have equal lengths and equal characters position by
/// position.
proof fn lemma_suffix_eq_char(s1: Seq<char>, o1: int, s2: Seq<char>, o2: int, i: int)
    requires
        suffix_eq(s1, o1, s2, o2),
    ensures
        s1.len() - o1 == s2.len() - o2,
        o1 <= i < s1.len() ==> s1[i] == s2[i - o1 + o2],
{
    assert(s1.subrange(o1, s1.len() as int).len() == s2.subrange(o2, s2.len() as int).len());
    if o1 <= i < s1.len() {
        assert(s1.subrange(o1, s1.len() as int)[i - o1] == s1[i]);
        assert(s2.subrange(o2, s2.len() as int)[i - o1] == s2[o2 + (i - o1)]);
    }
}

/// Skipping spaces lands at corresponding positions of equal suffixes.
proof fn lemma_skip_spaces_shift(s1: Seq<char>, o1: int, s2: Seq<char>, o2: int, i: int)
    requires
        suffix_eq(s1, o1, s2, o2),
        o1 <= i,
    ensures
        skip_spaces(s2, i - o1 + o2) == skip_spaces(s1, i) - o1 + o2,
        skip_spaces(s1, i) >= i,
    decreases s1.len() - i,
{
    lemma_suffix_eq_char(s1, o1, s2, o2, i);
    if 0 <= i && i < s1.len() && s1[i] == ' ' {
        lemma_skip_spaces_shift(s1, o1, s2, o2, i + 1);
    }
}

/// Scanning token characters lands at corresponding positions of equal
/// suffixes.
proof fn lemma_token_end_shift(s1: Seq<char>, o1: int, s2: Seq<char>, o2: int, i: int)
    requires
        suffix_eq(s1, o1, s2, o2),
        o1 <= i,
    ensures
        token_end(s2, i - o1 + o2) == token_end(s1, i) - o1 + o2,
        token_end(s1, i) >= i,
    decreases s1.len() - i,
{
    lemma_suffix_eq_char(s1, o1, s2, o2, i);
    if 0 <= i && i < s1.len() && is_token_char(s1[i]) {
        lemma_token_end_shift(s1, o1, s2, o2, i + 1);
    }
}

/// A forward character search lands at corresponding positions of equal
/// suffixes.
proof fn lemma_find_char_shift(s1: Seq<char>, o1: int, s2: Seq<char>, o2: int, c: char, i: int)
    requires
        suffix_eq(s1, o1, s2, o2),
        o1 <= i,
    ensures
        find_char_from(s2, c, i - o1 + o2) == (match find_char_from(s1, c, i) {
            Some(p) => Some(p - o1 + o2),
            None => None,
        }),
        find_char_from(s1, c, i) matches Some(p) ==> p >= i,
    decreases s1.len() - i,
{
    lemma_suffix_eq_char(s1, o1, s2, o2, i);
    if i < 0 || i >= s1.len() {
    } else if s1[i] == c {
    } else {
        lemma_find_char_shift(s1, o1, s2, o2, c, i + 1);
    }
}

/// Skipping a table-cell gap lands at corresponding positions of equal
/// suffixes.
proof fn lemma_skip_cell_gap_shift(s1: Seq<char>, o1: int, s2: Seq<char>, o2: int, i: int)
    requires
        suffix_eq(s1, o1, s2, o2),
        o1 <= i,
    ensures
        skip_cell_gap(s2, i - o1 + o2) == skip_cell_gap(s1, i) - o1 + o2,
        skip_cell_gap(s1, i) >= i,
{
    lemma_skip_spaces_shift(s1, o1, s2, o2, i);
    let j = skip_spaces(s1, i);
    lemma_suffix_eq_char(s1, o1, s2, o2, j);
    if j < s1.len() && s1[j] == '|' {
        lemma_skip_spaces_shift(s1, o1, s2, o2, j + 1);
    }
}

/// A keyword matches at corresponding positions of equal suffixes alike.
proof fn lemma_match_kw_shift(s1: Seq<char>, o1: int, s2: Seq<char>, o2: int, kw: Seq<char>, p: int)
    requires
        suffix_eq(s1, o1, s2, o2),
        o1 <= p,
    ensures
        match_kw_at(s1, p, kw) == match_kw_at(s2, p - o1 + o2, kw),
{
    lemma_suffix_eq_char(s1, o1, s2, o2, p);
    let p2 = p - o1 + o2;
    if p + kw.len() <= s1.len() {
        assert forall|k: int| 0 <= k < kw.len() implies matches_ci(s1[p + k], kw[k]) == matches_ci(
            s2[p2 + k],
            kw[k],
        ) by {
            lemma_suffix_eq_char(s1, o1, s2, o2, p + k);
        }
        if match_kw_at(s1, p, kw) {
            assert forall|k: int| 0 <= k < kw.len() implies matches_ci(s2[p2 + k], kw[k]) by {
                assert(matches_ci(s1[p + k], kw[k]));
            }
        }
        if match_kw_at(s2, p2, kw) {
            assert forall|k: int| 0 <= k < kw.len() implies matches_ci(s1[p + k], kw[k]) by {
                assert(matches_ci(s2[p2 + k], kw[k]));
            }
        }
    }
}

/// A read-progress marker stands at corresponding positions of equal
/// suffixes alike, with its parts at corresponding positions.
proof fn lemma_marker_shift(s1: Seq<char>, o1: int, s2: Seq<char>, o2: int, p: int)
    requires
        suffix_eq(s1, o1, s2, o2),
        o1 <= p,
    ensures
        marker_at(s1, p) == marker_at(s2, p - o1 + o2),
        marker_keyword_pos(s2, p - o1 + o2) == marker_keyword_pos(s1, p) - o1 + o2,
        marker_at(s1, p) ==> read_till_start(s2, p - o1 + o2) == read_till_start(s1, p) - o1 + o2,
{
    let p2 = p - o1 + o2;
    lemma_suffix_eq_char(s1, o1, s2, o2, p);
    lemma_suffix_eq_char(s1, o1, s2, o2, p + 1);
    lemma_suffix_eq_char(s1, o1, s2, o2, p + 2);
    lemma_match_kw_shift(s1, o1, s2, o2, kw_after(), marker_keyword_pos(s1, p));
    if marker_at(s1, p) {
        let q = marker_keyword_pos(s1, p) + 5;
        lemma_suffix_eq_char(s1, o1, s2, o2, q);
    }
}

/// A backward marker search lands at corresponding positions of equal
/// suffixes.
proof fn lemma_rfind_marker_shift(s1: Seq<char>, o1: int, s2: Seq<char>, o2: int, from: int, end: int)
    requires
        suffix_eq(s1, o1, s2, o2),
        o1 <= from,
    ensures
        rfind_marker(s2, from - o1 + o2, end - o1 + o2) == (match rfind_marker(s1, from, end) {
            Some(p) => Some(p - o1 + o2),
            None => None,
        }),
        rfind_marker(s1, from, end) matches Some(p) ==> from <= p,
    decreases end - from,
{
    if end <= from {
    } else {
        lemma_marker_shift(s1, o1, s2, o2, end - 1);
        if marker_at(s1, end - 1) {
        } else {
            lemma_rfind_marker_shift(s1, o1, s2, o2, from, end - 1);
        }
    }
}

/// Scanning token characters never leaves the line.
proof fn lemma_token_end_le(s: Seq<char>, i: int)
    requires
        0 <= i <= s.len(),
    ensures
        token_end(s, i) <= s.len(),
    decreases s.len() - i,
{
    if i < s.len() && is_token_char(s[i]) {
        lemma_token_end_le(s, i + 1);
    }
}

/// An annotation scan takes the same remark, or none, at corresponding
/// positions of equal suffixes.
proof fn lemma_scan_annotation_shift(
    s1: Seq<char>,
    o1: int,
    s2: Seq<char>,
    o2: int,
    i: int,
    want_like: bool,
)
    requires
        suffix_eq(s1, o1, s2, o2),
        o1 <= i,
    ensures
        ({
            let (c1, n1) = scan_annotation(s1, i, want_like);
            let (c2, n2) = scan_annotation(s2, i - o1 + o2, want_like);
            &&& c1 == c2
            &&& n2 == n1 - o1 + o2
            &&& n1 >= i
        }),
{
    let i2 = i - o1 + o2;
    lemma_suffix_eq_char(s1, o1, s2, o2, i);
    if 0 <= i && i < s1.len() && s1[i] == '(' {
        lemma_find_char_shift(s1, o1, s2, o2, ')', i + 1);
        match find_char_from(s1, ')', i + 1) {
            Some(j) => {
                lemma_find_char_some(s1, ')', i + 1, j);
                let c1 = s1.subrange(i + 1, j);
                let c2 = s2.subrange(i2 + 1, j - o1 + o2);
                assert(c1 =~= c2) by {
                    assert forall|k: int| 0 <= k < c1.len() implies c1[k] == c2[k] by {
                        lemma_suffix_eq_char(s1, o1, s2, o2, i + 1 + k);
                        assert(c1[k] == s1[i + 1 + k]);
                        assert(c2[k] == s2[i + 1 + k - o1 + o2]);
                    }
                }
            },
            None => {
            },
        }
    }
}

/// Two link lines whose bracketed parts agree and whose remainders are the
/// same text classify to the same link fields.
proof fn lemma_link_tail_shift(s1: Seq<char>, ft1: FileType, s2: Seq<char>, ft2: FileType)
    requires
        link_parts(s1, ft1) is Some,
        link_parts(s2, ft2) is Some,
        link_parts(s1, ft1).unwrap().0 == link_parts(s2, ft2).unwrap().0,
        link_parts(s1, ft1).unwrap().1 == link_parts(s2, ft2).unwrap().1,
        suffix_eq(s1, link_parts(s1, ft1).unwrap().2, s2, link_parts(s2, ft2).unwrap().2),
    ensures
        link_spec(s1, ft1) == link_spec(s2, ft2),
{
    let p1 = link_parts(s1, ft1).unwrap().2;
    let p2 = link_parts(s2, ft2).unwrap().2;
    lemma_suffix_eq_char(s1, p1, s2, p2, p1);
    lemma_skip_cell_gap_shift(s1, p1, s2, p2, p1);
    let g1 = skip_cell_gap(s1, p1);
    lemma_scan_annotation_shift(s1, p1, s2, p2, g1, false);
    let q2 = scan_annotation(s1, g1, false).1;
    lemma_skip_cell_gap_shift(s1, p1, s2, p2, q2);
    let g3 = skip_cell_gap(s1, q2);
    lemma_scan_annotation_shift(s1, p1, s2, p2, g3, true);
    let q4 = scan_annotation(s1, g3, true).1;
    lemma_rfind_marker_shift(s1, p1, s2, p2, q4, s1.len() as int);
    match rfind_marker(s1, q4, s1.len() as int) {
        Some(m) => {
            lemma_rfind_marker_some(s1, q4, s1.len() as int, m);
            lemma_marker_shift(s1, p1, s2, p2, m);
            let t = read_till_start(s1, m);
            lemma_token_end_le(s1, t);
            lemma_token_end_shift(s1, p1, s2, p2, t);
            let e = token_end(s1, t);
            assert(s1.subrange(t, e) =~= s2.subrange(t - p1 + p2, e - p1 + p2)) by {
                assert forall|k: int| 0 <= k < e - t implies s1.subrange(t, e)[k] == s2.subrange(
                    t - p1 + p2,
                    e - p1 + p2,
                )[k] by {
                    lemma_suffix_eq_char(s1, p1, s2, p2, t + k);
                    assert(s1.subrange(t, e)[k] == s1[t + k]);
                    assert(s2.subrange(t - p1 + p2, e - p1 + p2)[k] == s2[t + k - p1 + p2]);
                }
            }
        },
        None => {
        },
    }
}

/// The two dialects agree on whole links, not just on target and name: a
/// link line in the outline dialect and one in the lightweight dialect that
/// carry the same target, the same name and the same remainder — remarks and
/// read-progress marker — classify to the same link fields, or both fail.
/// The part of a concatenation after its prefix is the appended suffix.
proof fn lemma_suffix_of_concat(prefix: Seq<char>, suffix: Seq<char>)
    ensures
        (prefix + suffix).subrange(prefix.len() as int, (prefix + suffix).len() as int) == suffix,
{
    assert((prefix + suffix).subrange(prefix.len() as int, (prefix + suffix).len() as int)
        =~= suffix);
}

#[verifier::rlimit(60)]
pub proof fn lemma_link_cross_dialect(a: Seq<char>, b: Seq<char>, suffix: Seq<char>)
    requires
        forall|i: int| 0 <= i < a.len() ==> a[i] != ']' && a[i] != ')',
        forall|i: int| 0 <= i < b.len() ==> b[i] != ']',
    ensures
        ({
            let s = seq!['[', '['] + a + seq![']', '['] + b + seq![']', ']'] + suffix;
            let t = seq!['['] + b + seq![']', '('] + a + seq![')'] + suffix;
            &&& link_spec(s, FileType::Org) == link_spec(t, FileType::Md)
            &&& link_spec(s, FileType::Org) is Some ==> classify_spec(s, FileType::Org)
                == classify_spec(t, FileType::Md)
        }),
{
    let al = a.len() as int;
    let bl = b.len() as int;
    lemma_link_dialect_order(a, b, suffix, suffix);
    let p_org = seq!['[', '['] + a + seq![']', '['] + b + seq![']', ']'];
    let p_md = seq!['['] + b + seq![']', '('] + a + seq![')'];
    let s = p_org + suffix;
    let t = p_md + suffix;
    lemma_suffix_of_concat(p_org, suffix);
    lemma_suffix_of_concat(p_md, suffix);
    assert(p_org.len() == 6 + al + bl);
    assert(p_md.len() == 4 + al + bl);
    assert(suffix_eq(s, 6 + al + bl, t, 4 + al + bl));
    lemma_link_tail_shift(s, FileType::Org, t, FileType::Md);
}

} // verus!
