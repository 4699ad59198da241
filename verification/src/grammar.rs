//! The line grammars of the two note dialects, as mathematical functions over
//! sequences of characters.
//!
//! A line is classified by trying, in this order: link, heading, title
//! directive, description directive, date directive, tags directive. The
//! first grammar that matches decides the classification; a line matching
//! none of them is unclassifiable.

use vstd::prelude::*;

use crate::model::FileType;

verus! {

/// Characters that count as whitespace when a title is trimmed and when a
/// blank line is recognised.
pub open spec fn is_blank_char(c: char) -> bool {
    c == ' ' || c == '\t'
}

/// Word characters: ASCII letters, digits and the underscore, and every
/// character beyond ASCII. A heading title must start with one, and the
/// read-progress token is made of them (plus the dot).
pub open spec fn is_word_char(c: char) -> bool {
    ||| 97 <= c as u32 <= 122
    ||| 65 <= c as u32 <= 90
    ||| 48 <= c as u32 <= 57
    ||| c == '_'
    ||| c as u32 > 127
}

/// Characters allowed in the read-progress token: word characters and dots.
pub open spec fn is_token_char(c: char) -> bool {
    is_word_char(c) || c == '.'
}

/// Case-insensitive match of one line character `c` against one pattern
/// character `k`; the pattern is written in lower case.
pub open spec fn matches_ci(c: char, k: char) -> bool {
    c == k || (97 <= k as u32 <= 122 && c as u32 + 32 == k as u32)
}

/// The first position at or after `i` that does not hold a space.
pub open spec fn skip_spaces(s: Seq<char>, i: int) -> int
    decreases s.len() - i,
{
    if 0 <= i && i < s.len() && s[i] == ' ' {
        skip_spaces(s, i + 1)
    } else {
        i
    }
}

/// The end of the run of marker characters `m` that starts at `i`.
pub open spec fn marker_run_end(s: Seq<char>, i: int, m: char) -> int
    decreases s.len() - i,
{
    if 0 <= i && i < s.len() && s[i] == m {
        marker_run_end(s, i + 1, m)
    } else {
        i
    }
}

/// The end of the run of token characters that starts at `i`.
pub open spec fn token_end(s: Seq<char>, i: int) -> int
    decreases s.len() - i,
{
    if 0 <= i && i < s.len() && is_token_char(s[i]) {
        token_end(s, i + 1)
    } else {
        i
    }
}

/// The end of `s.subrange(from, end)` once trailing whitespace is dropped.
pub open spec fn trim_end_idx(s: Seq<char>, from: int, end: int) -> int
    decreases end,
{
    if 0 <= from && from < end && end <= s.len() && is_blank_char(s[end - 1]) {
        trim_end_idx(s, from, end - 1)
    } else {
        end
    }
}

/// Exact match of `pat` against `s` at position `i`.
pub open spec fn match_at(s: Seq<char>, i: int, pat: Seq<char>) -> bool {
    &&& 0 <= i
    &&& i + pat.len() <= s.len()
    &&& forall|k: int| 0 <= k < pat.len() ==> s[i + k] == pat[k]
}

/// Case-insensitive match of the lower-case keyword `kw` against `s` at
/// position `i`.
pub open spec fn match_kw_at(s: Seq<char>, i: int, kw: Seq<char>) -> bool {
    &&& 0 <= i
    &&& i + kw.len() <= s.len()
    &&& forall|k: int| 0 <= k < kw.len() ==> matches_ci(s[i + k], kw[k])
}

/// The first position at or after `i` where `pat` matches exactly.
pub open spec fn find_pat_from(s: Seq<char>, pat: Seq<char>, i: int) -> Option<int>
    decreases s.len() - i,
{
    if i < 0 || i + pat.len() > s.len() {
        None
    } else if match_at(s, i, pat) {
        Some(i)
    } else {
        find_pat_from(s, pat, i + 1)
    }
}

/// The first position at or after `i` where the keyword `kw` matches,
/// case-insensitively.
pub open spec fn find_kw_from(s: Seq<char>, kw: Seq<char>, i: int) -> Option<int>
    decreases s.len() - i,
{
    if i < 0 || i + kw.len() > s.len() {
        None
    } else if match_kw_at(s, i, kw) {
        Some(i)
    } else {
        find_kw_from(s, kw, i + 1)
    }
}

/// The first position at or after `i` holding the character `c`.
pub open spec fn find_char_from(s: Seq<char>, c: char, i: int) -> Option<int>
    decreases s.len() - i,
{
    if i < 0 || i >= s.len() {
        None
    } else if s[i] == c {
        Some(i)
    } else {
        find_char_from(s, c, i + 1)
    }
}

/// The last position before `end` holding the character `c`.
pub open spec fn rfind_char(s: Seq<char>, c: char, end: int) -> Option<int>
    decreases end,
{
    if end <= 0 || end > s.len() {
        None
    } else if s[end - 1] == c {
        Some(end - 1)
    } else {
        rfind_char(s, c, end - 1)
    }
}

/// The keyword of the read-progress marker.
pub open spec fn kw_after() -> Seq<char> {
    seq!['a', 'f', 't', 'e', 'r']
}

/// Where the word "after" of a read-progress marker starting at `p` would
/// begin: right after the two dashes, or one more to the right if a single
/// space follows them.
pub open spec fn marker_keyword_pos(s: Seq<char>, p: int) -> int {
    if p + 2 < s.len() && s[p + 2] == ' ' {
        p + 3
    } else {
        p + 2
    }
}

/// Whether a read-progress marker `-- after` (case-insensitive, one optional
/// space after the dashes) starts at position `p`.
pub open spec fn marker_at(s: Seq<char>, p: int) -> bool {
    &&& 0 <= p
    &&& p + 2 <= s.len()
    &&& s[p] == '-'
    &&& s[p + 1] == '-'
    &&& match_kw_at(s, marker_keyword_pos(s, p), kw_after())
}

/// Where the read-progress token of the marker at `p` begins: right after the
/// word "after", or one more to the right if a single space follows it.
pub open spec fn read_till_start(s: Seq<char>, p: int) -> int
    recommends
        marker_at(s, p),
{
    let q = marker_keyword_pos(s, p) + 5;
    if q < s.len() && s[q] == ' ' {
        q + 1
    } else {
        q
    }
}

/// The last position in `[from, end)` where a read-progress marker starts.
pub open spec fn rfind_marker(s: Seq<char>, from: int, end: int) -> Option<int>
    decreases end - from,
{
    if end <= from {
        None
    } else if marker_at(s, end - 1) {
        Some(end - 1)
    } else {
        rfind_marker(s, from, end - 1)
    }
}

/// The heading marker character of a dialect.
pub open spec fn heading_marker(ft: FileType) -> char {
    match ft {
        FileType::Org => '*',
        FileType::Md => '#',
    }
}

/// The prefix that metadata directives carry in a dialect.
pub open spec fn directive_prefix(ft: FileType) -> Seq<char> {
    match ft {
        FileType::Org => seq!['#', '+'],
        FileType::Md => Seq::empty(),
    }
}

/// The title directive keyword of a dialect.
pub open spec fn kw_title(ft: FileType) -> Seq<char> {
    directive_prefix(ft) + seq!['t', 'i', 't', 'l', 'e', ':']
}

/// The description directive keyword of a dialect.
pub open spec fn kw_description(ft: FileType) -> Seq<char> {
    directive_prefix(ft) + seq!['d', 'e', 's', 'c', 'r', 'i', 'p', 't', 'i', 'o', 'n', ':']
}

/// The date directive keyword of a dialect.
pub open spec fn kw_date(ft: FileType) -> Seq<char> {
    directive_prefix(ft) + seq!['d', 'a', 't', 'e', ':']
}

/// The tags directive keyword of a dialect.
pub open spec fn kw_tags(ft: FileType) -> Seq<char> {
    directive_prefix(ft) + seq!['f', 'i', 'l', 'e', 't', 'a', 'g', 's', ':']
}

/// Skip spaces, at most one table-cell pipe, and spaces again.
pub open spec fn skip_cell_gap(s: Seq<char>, i: int) -> int {
    let j = skip_spaces(s, i);
    if j < s.len() && s[j] == '|' {
        skip_spaces(s, j + 1)
    } else {
        j
    }
}

/// The fields extracted from a link line, before the line number is attached.
#[verifier::ext_equal]
pub ghost struct LinkFields {
    pub target: Seq<char>,
    pub name: Seq<char>,
    pub read_till: Seq<char>,
    pub description: Option<Seq<char>>,
    pub likeability: Option<Seq<char>>,
}

/// The bracketed part of a link line: target, name, and the position after
/// the closing bracket. In the outline dialect the pair is written
/// `[[target][name]]`; in the lightweight dialect it is `[name](target)`.
pub open spec fn link_parts(s: Seq<char>, ft: FileType) -> Option<(Seq<char>, Seq<char>, int)> {
    let i = skip_cell_gap(s, 0);
    match ft {
        FileType::Org => {
            if i + 2 <= s.len() && s[i] == '[' && s[i + 1] == '[' {
                match find_pat_from(s, seq![']', '['], i + 2) {
                    Some(a) => match find_pat_from(s, seq![']', ']'], a + 2) {
                        Some(b) => Some((s.subrange(i + 2, a), s.subrange(a + 2, b), b + 2)),
                        None => None,
                    },
                    None => None,
                }
            } else {
                None
            }
        },
        FileType::Md => {
            if i < s.len() && s[i] == '[' {
                match find_pat_from(s, seq![']', '('], i + 1) {
                    Some(a) => match find_char_from(s, ')', a + 2) {
                        Some(b) => Some((s.subrange(a + 2, b), s.subrange(i + 1, a), b + 1)),
                        None => None,
                    },
                    None => None,
                }
            } else {
                None
            }
        },
    }
}

/// A parenthesised remark starting at `i`: its content (which may not contain
/// parentheses) and the position after the closing parenthesis.
pub open spec fn paren_content(s: Seq<char>, i: int) -> Option<(Seq<char>, int)> {
    if 0 <= i && i < s.len() && s[i] == '(' {
        match find_char_from(s, ')', i + 1) {
            Some(j) => {
                let content = s.subrange(i + 1, j);
                if forall|k: int| 0 <= k < content.len() ==> content[k] != '(' {
                    Some((content, j + 1))
                } else {
                    None
                }
            },
            None => None,
        }
    } else {
        None
    }
}

/// A read-progress remark: one that ends in the word "read", matched without
/// regard to case and as a whole word — no word character stands immediately
/// before it.
pub open spec fn is_read_remark(c: Seq<char>) -> bool {
    &&& c.len() >= 4
    &&& matches_ci(c[c.len() - 4], 'r')
    &&& matches_ci(c[c.len() - 3], 'e')
    &&& matches_ci(c[c.len() - 2], 'a')
    &&& matches_ci(c[c.len() - 1], 'd')
    &&& (c.len() == 4 || !is_word_char(c[c.len() - 5]))
}

/// Whether a remark's content qualifies as a description: nonempty and not a
/// read-progress remark.
pub open spec fn desc_ok(c: Seq<char>) -> bool {
    c.len() >= 1 && !is_read_remark(c)
}

/// Whether a remark's content qualifies as a likeability remark: exactly the
/// read-progress remarks.
pub open spec fn like_ok(c: Seq<char>) -> bool {
    is_read_remark(c)
}

/// Try to take a qualifying parenthesised remark at `i`. If a remark is there
/// but does not qualify, the position is left unchanged and the remark is
/// left for later parts of the grammar.
pub open spec fn scan_annotation(s: Seq<char>, i: int, want_like: bool) -> (
    Option<Seq<char>>,
    int,
) {
    match paren_content(s, i) {
        Some((c, nxt)) => if (want_like && like_ok(c)) || (!want_like && desc_ok(c)) {
            (Some(c), nxt)
        } else {
            (None, i)
        },
        None => (None, i),
    }
}

/// The whole link-line grammar. After the bracketed pair come an optional
/// description remark and an optional likeability remark, each of which may
/// sit in its own table cell; the line must end with a read-progress marker
/// `-- after <token>` (the last such marker decides), whose token becomes
/// `read_till`.
pub open spec fn link_spec(s: Seq<char>, ft: FileType) -> Option<LinkFields> {
    match link_parts(s, ft) {
        None => None,
        Some((target, name, p0)) => {
            let p1 = skip_cell_gap(s, p0);
            let (desc, p2) = scan_annotation(s, p1, false);
            let p3 = skip_cell_gap(s, p2);
            let (like, p4) = scan_annotation(s, p3, true);
            match rfind_marker(s, p4, s.len() as int) {
                None => None,
                Some(m) => {
                    let t = read_till_start(s, m);
                    Some(
                        LinkFields {
                            target,
                            name,
                            read_till: s.subrange(t, token_end(s, t)),
                            description: desc,
                            likeability: like,
                        },
                    )
                },
            }
        },
    }
}

/// The heading grammar: a run of marker characters, spaces, then a title
/// starting with a word character. The level is the length of the marker run;
/// the title is the rest of the line with trailing whitespace trimmed.
pub open spec fn heading_parts(s: Seq<char>, ft: FileType) -> Option<(int, Seq<char>)> {
    let lvl = marker_run_end(s, 0, heading_marker(ft));
    if lvl >= 1 {
        let j = skip_spaces(s, lvl);
        if j < s.len() && is_word_char(s[j]) {
            Some((lvl, s.subrange(j, trim_end_idx(s, j, s.len() as int))))
        } else {
            None
        }
    } else {
        None
    }
}

/// A plain directive: the keyword anywhere in the line, then spaces, then the
/// value, which runs to the end of the line.
pub open spec fn directive_value(s: Seq<char>, kw: Seq<char>) -> Option<Seq<char>> {
    match find_kw_from(s, kw, 0) {
        Some(p) => Some(s.subrange(skip_spaces(s, p + kw.len()), s.len() as int)),
        None => None,
    }
}

/// The date directive: keyword, spaces, then a value wrapped in square
/// brackets; the closing bracket is the last one on the line.
pub open spec fn date_value(s: Seq<char>, kw: Seq<char>) -> Option<Seq<char>> {
    match find_kw_from(s, kw, 0) {
        Some(p) => {
            let j = skip_spaces(s, p + kw.len());
            if j < s.len() && s[j] == '[' {
                match rfind_char(s, ']', s.len() as int) {
                    Some(r) => if r > j {
                        Some(s.subrange(j + 1, r))
                    } else {
                        None
                    },
                    None => None,
                }
            } else {
                None
            }
        },
        None => None,
    }
}

/// Split the rest of a tags directive at colons, dropping empty segments.
/// `cur` is the segment under construction.
pub open spec fn split_tags_acc(s: Seq<char>, i: int, cur: Seq<char>) -> Seq<Seq<char>>
    decreases s.len() - i,
{
    if i < 0 || i >= s.len() {
        if cur.len() > 0 {
            seq![cur]
        } else {
            Seq::empty()
        }
    } else if s[i] == ':' {
        if cur.len() > 0 {
            seq![cur] + split_tags_acc(s, i + 1, Seq::empty())
        } else {
            split_tags_acc(s, i + 1, Seq::empty())
        }
    } else {
        split_tags_acc(s, i + 1, cur.push(s[i]))
    }
}

/// The tags directive: keyword, spaces, a colon, then colon-separated tags.
pub open spec fn tags_value(s: Seq<char>, kw: Seq<char>) -> Option<Seq<Seq<char>>> {
    match find_kw_from(s, kw, 0) {
        Some(p) => {
            let j = skip_spaces(s, p + kw.len());
            if j < s.len() && s[j] == ':' {
                Some(split_tags_acc(s, j + 1, Seq::empty()))
            } else {
                None
            }
        },
        None => None,
    }
}

/// The classification of one line at the grammar level.
#[verifier::ext_equal]
pub ghost enum LineClass {
    Link(LinkFields),
    Heading { level: int, title: Seq<char> },
    Title(Seq<char>),
    Description(Seq<char>),
    Date(Seq<char>),
    Tags(Seq<Seq<char>>),
    Plain,
}

/// Classify one line: the grammars are tried in a fixed order and the first
/// match decides.
pub open spec fn classify_spec(s: Seq<char>, ft: FileType) -> LineClass {
    if link_spec(s, ft) is Some {
        LineClass::Link(link_spec(s, ft).unwrap())
    } else if heading_parts(s, ft) is Some {
        LineClass::Heading {
            level: heading_parts(s, ft).unwrap().0,
            title: heading_parts(s, ft).unwrap().1,
        }
    } else if directive_value(s, kw_title(ft)) is Some {
        LineClass::Title(directive_value(s, kw_title(ft)).unwrap())
    } else if directive_value(s, kw_description(ft)) is Some {
        LineClass::Description(directive_value(s, kw_description(ft)).unwrap())
    } else if date_value(s, kw_date(ft)) is Some {
        LineClass::Date(date_value(s, kw_date(ft)).unwrap())
    } else if tags_value(s, kw_tags(ft)) is Some {
        LineClass::Tags(tags_value(s, kw_tags(ft)).unwrap())
    } else {
        LineClass::Plain
    }
}

} // verus!
