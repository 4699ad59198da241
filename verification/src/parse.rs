//! The tree builder: one left-to-right pass over the classified lines of a
//! file, folding them into a document.
//!
//! The builder keeps a stack of open headings, mirroring the path from the
//! document root to the heading that last received a line. A link attaches to
//! the innermost open heading (or to the document root when none is open). A
//! new heading first closes every open heading of equal or greater level —
//! each closed heading becomes a child of the heading below it on the stack,
//! or a top-level heading — and is then pushed as the new innermost node.
//! Metadata directives overwrite the corresponding metadata field, so the
//! last directive of a kind wins.

use vstd::prelude::*;

use crate::classify::classify_line;
use crate::classify::heading_view_of;
use crate::classify::link_view_of;
use crate::grammar::classify_spec;
use crate::grammar::LineClass;
use crate::model::doc_wf;
use crate::model::heading_view;
use crate::model::headings_view;
use crate::model::lemma_headings_view_index;
use crate::model::lemma_headings_view_push;
use crate::model::lemma_links_view_push;
use crate::model::links_view;
use crate::model::FileData;
use crate::model::FileDataView;
use crate::model::FileMetaData;
use crate::model::FileType;
use crate::model::Heading;
use crate::model::HeadingView;
use crate::model::Link;
use crate::model::LinkView;
use crate::model::LineType;
use crate::model::MetaData;
use crate::model::MetaView;

verus! {

/// The builder's state between two lines: the metadata gathered so far, the
/// finished top-level headings and root links, and the stack of still-open
/// headings (outermost first).
#[verifier::ext_equal]
pub ghost struct BuildState {
    pub meta: MetaView,
    pub root_links: Seq<LinkView>,
    pub root_headings: Seq<HeadingView>,
    pub stack: Seq<HeadingView>,
}

/// The state before any line has been read.
pub open spec fn init_state() -> BuildState {
    BuildState {
        meta: MetaView::init(),
        root_links: Seq::empty(),
        root_headings: Seq::empty(),
        stack: Seq::empty(),
    }
}

/// Attach a link to the innermost open heading, or to the root.
pub open spec fn push_link(st: BuildState, l: LinkView) -> BuildState {
    if st.stack.len() == 0 {
        BuildState { root_links: st.root_links.push(l), ..st }
    } else {
        let top = st.stack.last();
        let top2 = HeadingView { links: top.links.push(l), ..top };
        BuildState { stack: st.stack.drop_last().push(top2), ..st }
    }
}

/// Close the innermost open heading: it becomes a child of the heading below
/// it on the stack, or a top-level heading when the stack empties.
pub open spec fn close_top(st: BuildState) -> BuildState
    recommends
        st.stack.len() > 0,
{
    let top = st.stack.last();
    let rest = st.stack.drop_last();
    if rest.len() == 0 {
        BuildState { root_headings: st.root_headings.push(top), stack: rest, ..st }
    } else {
        let parent = rest.last();
        let parent2 = HeadingView { heading: parent.heading.push(top), ..parent };
        BuildState { stack: rest.drop_last().push(parent2), ..st }
    }
}

/// Close every open heading whose level is at least `lvl`. What remains on
/// top of the stack afterwards is the parent of a new heading of level `lvl`.
pub open spec fn pop_to_level(st: BuildState, lvl: int) -> BuildState
    decreases st.stack.len(),
{
    if st.stack.len() > 0 && st.stack.last().level >= lvl {
        pop_to_level(close_top(st), lvl)
    } else {
        st
    }
}

/// Open a new heading at its place in the tree.
pub open spec fn push_heading(st: BuildState, h: HeadingView) -> BuildState {
    let st1 = pop_to_level(st, h.level);
    BuildState { stack: st1.stack.push(h), ..st1 }
}

/// Fold one classified line into the state.
pub open spec fn step_line(st: BuildState, s: Seq<char>, ft: FileType, n: int) -> BuildState {
    match classify_spec(s, ft) {
        LineClass::Link(f) => push_link(st, link_view_of(f, n)),
        LineClass::Heading { level, title } => push_heading(st, heading_view_of(level, title, n)),
        LineClass::Title(v) => BuildState { meta: MetaView { file_title: v, ..st.meta }, ..st },
        LineClass::Description(v) => BuildState {
            meta: MetaView { file_description: v, ..st.meta },
            ..st
        },
        LineClass::Date(v) => BuildState { meta: MetaView { file_date: v, ..st.meta }, ..st },
        LineClass::Tags(tl) => BuildState { meta: MetaView { file_tags: tl, ..st.meta }, ..st },
        LineClass::Plain => st,
    }
}

/// Fold the lines from index `i` on into the state; line numbers are 1-based.
pub open spec fn run_lines(
    lines: Seq<Seq<char>>,
    ft: FileType,
    i: int,
    st: BuildState,
) -> BuildState
    decreases lines.len() - i,
{
    if 0 <= i < lines.len() {
        run_lines(lines, ft, i + 1, step_line(st, lines[i], ft, i + 1))
    } else {
        st
    }
}

/// Close every heading still open at the end of the file.
pub open spec fn close_all(st: BuildState) -> BuildState
    decreases st.stack.len(),
{
    if st.stack.len() > 0 {
        close_all(close_top(st))
    } else {
        st
    }
}

/// The document that parsing a file yields: the fold of all its lines,
/// with every heading closed.
pub open spec fn parse_spec(
    file_name: Seq<char>,
    lines: Seq<Seq<char>>,
    ft: FileType,
) -> FileDataView {
    let fin = close_all(run_lines(lines, ft, 0, init_state()));
    FileDataView {
        file_name,
        file_meta_data: fin.meta,
        level: 0,
        heading: fin.root_headings,
        links: fin.root_links,
    }
}

/// The build state that a set of executable structures stands for.
pub open spec fn state_of(
    meta: FileMetaData,
    root_links: Seq<Link>,
    root_headings: Seq<Heading>,
    stack: Seq<Heading>,
) -> BuildState {
    BuildState {
        meta: meta@,
        root_links: links_view(root_links),
        root_headings: headings_view(root_headings),
        stack: headings_view(stack),
    }
}

/// A build state with only the tree parts filled in; used to state what
/// closing a heading does to them.
pub open spec fn tree_state(root_headings: Seq<Heading>, stack: Seq<Heading>) -> BuildState {
    BuildState {
        meta: MetaView::init(),
        root_links: Seq::empty(),
        root_headings: headings_view(root_headings),
        stack: headings_view(stack),
    }
}

/// Closing a heading leaves the metadata and root links alone, and changes
/// the tree parts the same way whatever the rest of the state holds.
proof fn lemma_close_top_frame(st1: BuildState, st2: BuildState)
    requires
        st1.root_headings == st2.root_headings,
        st1.stack == st2.stack,
    ensures
        close_top(st1).meta == st1.meta,
        close_top(st1).root_links == st1.root_links,
        close_top(st1).root_headings == close_top(st2).root_headings,
        close_top(st1).stack == close_top(st2).stack,
{
}

/// Close the innermost open heading: it becomes a child of the heading below
/// it on the stack, or a top-level heading when the stack empties.
fn close_top_x(root_headings: &mut Vec<Heading>, stack: &mut Vec<Heading>)
    requires
        old(stack)@.len() > 0,
    ensures
        final(stack)@.len() == old(stack)@.len() - 1,
        tree_state(final(root_headings)@, final(stack)@) == close_top(
            tree_state(old(root_headings)@, old(stack)@),
        ),
{
    let ghost sk0 = stack@;
    let ghost rh0 = root_headings@;
    proof {
        lemma_headings_view_index(sk0);
    }
    let top = stack.pop().unwrap();
    proof {
        assert(stack@ =~= sk0.drop_last());
        assert(top == sk0.last());
        assert(headings_view(sk0).drop_last() =~= headings_view(sk0.drop_last()));
        assert(headings_view(sk0).last() == heading_view(top));
    }
    if stack.len() == 0 {
        root_headings.push(top);
        proof {
            lemma_headings_view_push(rh0, top);
            assert(tree_state(root_headings@, stack@) =~= close_top(tree_state(rh0, sk0)));
        }
    } else {
        let mut parent = stack.pop().unwrap();
        let ghost p0 = parent;
        proof {
            assert(stack@ =~= sk0.drop_last().drop_last());
            assert(p0 == sk0.drop_last().last());
            assert(headings_view(sk0.drop_last()).last() == heading_view(p0));
            assert(headings_view(sk0.drop_last()).drop_last() =~= headings_view(
                sk0.drop_last().drop_last(),
            ));
        }
        parent.heading.push(top);
        proof {
            lemma_headings_view_push(p0.heading@, top);
            assert(heading_view(parent) =~= HeadingView {
                heading: heading_view(p0).heading.push(heading_view(top)),
                ..heading_view(p0)
            });
        }
        stack.push(parent);
        proof {
            assert(stack@ =~= sk0.drop_last().drop_last().push(parent));
            lemma_headings_view_push(sk0.drop_last().drop_last(), parent);
            assert(tree_state(root_headings@, stack@) =~= close_top(tree_state(rh0, sk0)));
        }
    }
}

/// Parse the lines of one note file into a document.
///
/// The lines are classified one by one, in order, with 1-based line numbers,
/// and folded into the document tree; an unclassifiable line changes
/// nothing. The result is exactly the fold [`parse_spec`] of the lines.
pub fn parse_data_file(file_name: String, lines: &Vec<String>, file_type: FileType) -> (data:
    FileData)
    ensures
        data@ == parse_spec(file_name@, lines.deep_view(), file_type),
        doc_wf(data@),
{
    let ghost fname = file_name@;
    let ghost l: Seq<Seq<char>> = lines.deep_view();
    let mut meta = FileMetaData::default();
    let mut root_links: Vec<Link> = Vec::new();
    let mut root_headings: Vec<Heading> = Vec::new();
    let mut stack: Vec<Heading> = Vec::new();
    proof {
        assert(links_view(root_links@) =~= Seq::<LinkView>::empty());
        assert(state_of(meta, root_links@, root_headings@, stack@) =~= init_state());
    }
    let mut idx: usize = 0;
    while idx < lines.len()
        invariant
            idx <= lines@.len(),
            l == lines.deep_view(),
            run_lines(
                l,
                file_type,
                idx as int,
                state_of(meta, root_links@, root_headings@, stack@),
            ) == run_lines(l, file_type, 0, init_state()),
        decreases lines@.len() - idx,
    {
        let ghost st0 = state_of(meta, root_links@, root_headings@, stack@);
        let line: &String = &lines[idx];
        proof {
            assert(line@ == l[idx as int]);
        }
        let n = idx + 1;
        match classify_line(line.as_str(), n, file_type) {
            None => {
                proof {
                    assert(state_of(meta, root_links@, root_headings@, stack@) == step_line(
                        st0,
                        l[idx as int],
                        file_type,
                        n as int,
                    ));
                }
            },
            Some(LineType::Link(lk)) => {
                let ghost lv = lk@;
                if stack.len() == 0 {
                    let ghost rl0 = root_links@;
                    root_links.push(lk);
                    proof {
                        lemma_links_view_push(rl0, lk);
                        assert(state_of(meta, root_links@, root_headings@, stack@) =~= push_link(
                            st0,
                            lv,
                        ));
                        assert(state_of(meta, root_links@, root_headings@, stack@) == step_line(
                            st0,
                            l[idx as int],
                            file_type,
                            n as int,
                        ));
                    }
                } else {
                    let ghost sk0 = stack@;
                    proof {
                        lemma_headings_view_index(sk0);
                    }
                    let mut top = stack.pop().unwrap();
                    let ghost t0 = top;
                    proof {
                        assert(t0 == sk0.last());
                        assert(headings_view(sk0).last() == heading_view(t0));
                        assert(headings_view(sk0).drop_last() =~= headings_view(sk0.drop_last()));
                    }
                    top.links.push(lk);
                    proof {
                        lemma_links_view_push(t0.links@, lk);
                        assert(heading_view(top) =~= HeadingView {
                            links: heading_view(t0).links.push(lv),
                            ..heading_view(t0)
                        });
                    }
                    stack.push(top);
                    proof {
                        assert(stack@ =~= sk0.drop_last().push(top));
                        lemma_headings_view_push(sk0.drop_last(), top);
                        assert(state_of(meta, root_links@, root_headings@, stack@) =~= push_link(
                            st0,
                            lv,
                        ));
                        assert(state_of(meta, root_links@, root_headings@, stack@) == step_line(
                            st0,
                            l[idx as int],
                            file_type,
                            n as int,
                        ));
                    }
                }
            },
            Some(LineType::Heading(h)) => {
                let ghost hv = h@;
                while stack.len() > 0 && stack[stack.len() - 1].level >= h.level
                    invariant
                        hv == h@,
                        pop_to_level(
                            state_of(meta, root_links@, root_headings@, stack@),
                            hv.level,
                        ) == pop_to_level(st0, hv.level),
                    decreases stack@.len(),
                {
                    let ghost rh0 = root_headings@;
                    let ghost sk0 = stack@;
                    proof {
                        lemma_headings_view_index(sk0);
                        assert(headings_view(sk0).last() == heading_view(sk0.last()));
                        assert(headings_view(sk0).last().level >= hv.level);
                    }
                    close_top_x(&mut root_headings, &mut stack);
                    proof {
                        lemma_close_top_frame(
                            state_of(meta, root_links@, rh0, sk0),
                            tree_state(rh0, sk0),
                        );
                        assert(state_of(meta, root_links@, root_headings@, stack@) =~= close_top(
                            state_of(meta, root_links@, rh0, sk0),
                        ));
                    }
                }
                let ghost skp = stack@;
                proof {
                    lemma_headings_view_index(skp);
                    if stack@.len() > 0 {
                        assert(headings_view(skp).last() == heading_view(skp.last()));
                    }
                    assert(pop_to_level(
                        state_of(meta, root_links@, root_headings@, stack@),
                        hv.level,
                    ) == state_of(meta, root_links@, root_headings@, stack@));
                }
                stack.push(h);
                proof {
                    lemma_headings_view_push(skp, h);
                    assert(state_of(meta, root_links@, root_headings@, stack@) =~= push_heading(
                        st0,
                        hv,
                    ));
                    assert(state_of(meta, root_links@, root_headings@, stack@) == step_line(
                        st0,
                        l[idx as int],
                        file_type,
                        n as int,
                    ));
                }
            },
            Some(LineType::MetaData(md)) => {
                match md {
                    MetaData::Title(t) => {
                        meta.file_title = t;
                    },
                    MetaData::Description(t) => {
                        meta.file_description = t;
                    },
                    MetaData::Date(t) => {
                        meta.file_date = t;
                    },
                    MetaData::Tags(t) => {
                        meta.file_tags = t;
                    },
                }
                proof {
                    assert(state_of(meta, root_links@, root_headings@, stack@) =~= step_line(
                        st0,
                        l[idx as int],
                        file_type,
                        n as int,
                    ));
                }
            },
        }
        proof {
            assert(run_lines(l, file_type, idx as int, st0) == run_lines(
                l,
                file_type,
                idx + 1,
                step_line(st0, l[idx as int], file_type, idx + 1),
            ));
        }
        idx += 1;
    }
    let ghost total = run_lines(l, file_type, 0, init_state());
    proof {
        assert(state_of(meta, root_links@, root_headings@, stack@) == total);
    }
    while stack.len() > 0
        invariant
            close_all(state_of(meta, root_links@, root_headings@, stack@)) == close_all(total),
        decreases stack@.len(),
    {
        let ghost rh0 = root_headings@;
        let ghost sk0 = stack@;
        proof {
            lemma_headings_view_index(sk0);
        }
        close_top_x(&mut root_headings, &mut stack);
        proof {
            lemma_close_top_frame(state_of(meta, root_links@, rh0, sk0), tree_state(rh0, sk0));
            assert(state_of(meta, root_links@, root_headings@, stack@) =~= close_top(
                state_of(meta, root_links@, rh0, sk0),
            ));
        }
    }
    proof {
        lemma_headings_view_index(stack@);
        assert(close_all(state_of(meta, root_links@, root_headings@, stack@)) == state_of(
            meta,
            root_links@,
            root_headings@,
            stack@,
        ));
    }
    let data = FileData {
        file_name,
        file_meta_data: meta,
        level: 0,
        heading: root_headings,
        links: root_links,
    };
    proof {
        assert(data@ =~= parse_spec(fname, l, file_type));
        crate::laws::lemma_parse_spec_wf(fname, l, file_type);
    }
    data
}

} // verus!
