//! The executable line classifier, verified against the grammar of
//! [`crate::grammar`].

use vstd::prelude::*;
use vstd::string::*;

use crate::grammar::classify_spec;
use crate::grammar::date_value;
use crate::grammar::desc_ok;
use crate::grammar::directive_value;
use crate::grammar::find_char_from;
use crate::grammar::find_kw_from;
use crate::grammar::find_pat_from;
use crate::grammar::heading_marker;
use crate::grammar::heading_parts;
use crate::grammar::is_read_remark;
use crate::grammar::is_token_char;
use crate::grammar::is_word_char;
use crate::grammar::kw_after;
use crate::grammar::kw_date;
use crate::grammar::kw_description;
use crate::grammar::kw_tags;
use crate::grammar::kw_title;
use crate::grammar::like_ok;
use crate::grammar::link_parts;
use crate::grammar::link_spec;
use crate::grammar::marker_at;
use crate::grammar::marker_keyword_pos;
use crate::grammar::marker_run_end;
use crate::grammar::match_at;
use crate::grammar::match_kw_at;
use crate::grammar::matches_ci;
use crate::grammar::read_till_start;
use crate::grammar::rfind_char;
use crate::grammar::rfind_marker;
use crate::grammar::scan_annotation;
use crate::grammar::skip_cell_gap;
use crate::grammar::skip_spaces;
use crate::grammar::split_tags_acc;
use crate::grammar::tags_value;
use crate::grammar::token_end;
use crate::grammar::trim_end_idx;
use crate::grammar::LineClass;
use crate::grammar::LinkFields;
use crate::model::links_view;
use crate::model::FileType;
use crate::model::Heading;
use crate::model::HeadingView;
use crate::model::Link;
use crate::model::LinkView;
use crate::model::LineType;
use crate::model::MetaData;

verus! {

/// The view of an optional position.
pub open spec fn opt_pos(r: Option<usize>) -> Option<int> {
    match r {
        Some(p) => Some(p as int),
        None => None,
    }
}

/// The characters of a line, one vector entry per character.
fn line_chars(line: &str) -> (v: Vec<char>)
    ensures
        v@ == line@,
{
    let n = line.unicode_len();
    let mut v: Vec<char> = Vec::new();
    let mut i: usize = 0;
    while i < n
        invariant
            i <= n,
            n == line@.len(),
            v@ == line@.subrange(0, i as int),
        decreases n - i,
    {
        v.push(line.get_char(i));
        proof {
            assert(line@.subrange(0, i as int).push(line@[i as int]) =~= line@.subrange(
                0,
                i + 1 as int,
            ));
        }
        i += 1;
    }
    proof {
        assert(v@ =~= line@);
    }
    v
}

fn is_word_char_x(c: char) -> (b: bool)
    ensures
        b == is_word_char(c),
{
    let u = c as u32;
    (97 <= u && u <= 122) || (65 <= u && u <= 90) || (48 <= u && u <= 57) || c == '_' || u > 127
}

fn is_token_char_x(c: char) -> (b: bool)
    ensures
        b == is_token_char(c),
{
    is_word_char_x(c) || c == '.'
}

fn matches_ci_x(c: char, k: char) -> (b: bool)
    ensures
        b == matches_ci(c, k),
{
    let ku = k as u32;
    c == k || (97 <= ku && ku <= 122 && c as u32 + 32 == ku)
}

fn skip_spaces_x(v: &Vec<char>, i: usize) -> (r: usize)
    requires
        i <= v@.len(),
    ensures
        r as int == skip_spaces(v@, i as int),
        i <= r <= v@.len(),
{
    let mut j = i;
    while j < v.len() && v[j] == ' '
        invariant
            i <= j <= v@.len(),
            skip_spaces(v@, i as int) == skip_spaces(v@, j as int),
        decreases v@.len() - j,
    {
        j += 1;
    }
    j
}

fn marker_run_end_x(v: &Vec<char>, i: usize, m: char) -> (r: usize)
    requires
        i <= v@.len(),
    ensures
        r as int == marker_run_end(v@, i as int, m),
        i <= r <= v@.len(),
{
    let mut j = i;
    while j < v.len() && v[j] == m
        invariant
            i <= j <= v@.len(),
            marker_run_end(v@, i as int, m) == marker_run_end(v@, j as int, m),
        decreases v@.len() - j,
    {
        j += 1;
    }
    j
}

fn token_end_x(v: &Vec<char>, i: usize) -> (r: usize)
    requires
        i <= v@.len(),
    ensures
        r as int == token_end(v@, i as int),
        i <= r <= v@.len(),
{
    let mut j = i;
    while j < v.len() && is_token_char_x(v[j])
        invariant
            i <= j <= v@.len(),
            token_end(v@, i as int) == token_end(v@, j as int),
        decreases v@.len() - j,
    {
        j += 1;
    }
    j
}

fn trim_end_idx_x(v: &Vec<char>, from: usize, end: usize) -> (r: usize)
    requires
        from <= end <= v@.len(),
    ensures
        r as int == trim_end_idx(v@, from as int, end as int),
        from <= r <= end,
{
    let mut e = end;
    while e > from && (v[e - 1] == ' ' || v[e - 1] == '\t')
        invariant
            from <= e <= end <= v@.len(),
            trim_end_idx(v@, from as int, end as int) == trim_end_idx(v@, from as int, e as int),
        decreases e,
    {
        e -= 1;
    }
    e
}

fn match_at_x(v: &Vec<char>, i: usize, pat: &Vec<char>) -> (b: bool)
    requires
        i <= v@.len(),
    ensures
        b == match_at(v@, i as int, pat@),
{
    if v.len() - i < pat.len() {
        return false;
    }
    let mut k: usize = 0;
    while k < pat.len()
        invariant
            k <= pat@.len(),
            i + pat@.len() <= v@.len(),
            forall|t: int| 0 <= t < k ==> v@[i + t] == pat@[t],
        decreases pat@.len() - k,
    {
        proof {
            assert(v@.len() == v.len());
        }
        if v[i + k] != pat[k] {
            return false;
        }
        k += 1;
    }
    true
}

fn match_kw_at_x(v: &Vec<char>, i: usize, kw: &Vec<char>) -> (b: bool)
    requires
        i <= v@.len(),
    ensures
        b == match_kw_at(v@, i as int, kw@),
{
    if v.len() - i < kw.len() {
        return false;
    }
    let mut k: usize = 0;
    while k < kw.len()
        invariant
            k <= kw@.len(),
            i + kw@.len() <= v@.len(),
            forall|t: int| 0 <= t < k ==> matches_ci(v@[i + t], kw@[t]),
        decreases kw@.len() - k,
    {
        proof {
            assert(v@.len() == v.len());
        }
        if !matches_ci_x(v[i + k], kw[k]) {
            return false;
        }
        k += 1;
    }
    true
}

fn find_pat_from_x(v: &Vec<char>, pat: &Vec<char>, i: usize) -> (r: Option<usize>)
    requires
        i <= v@.len(),
    ensures
        opt_pos(r) == find_pat_from(v@, pat@, i as int),
{
    let mut j = i;
    while pat.len() <= v.len() - j
        invariant
            i <= j <= v@.len(),
            find_pat_from(v@, pat@, i as int) == find_pat_from(v@, pat@, j as int),
        decreases v@.len() - j,
    {
        if match_at_x(v, j, pat) {
            return Some(j);
        }
        j += 1;
    }
    None
}

fn find_kw_from_x(v: &Vec<char>, kw: &Vec<char>, i: usize) -> (r: Option<usize>)
    requires
        i <= v@.len(),
    ensures
        opt_pos(r) == find_kw_from(v@, kw@, i as int),
{
    let mut j = i;
    while kw.len() <= v.len() - j
        invariant
            i <= j <= v@.len(),
            find_kw_from(v@, kw@, i as int) == find_kw_from(v@, kw@, j as int),
        decreases v@.len() - j,
    {
        if match_kw_at_x(v, j, kw) {
            return Some(j);
        }
        j += 1;
    }
    None
}

fn find_char_from_x(v: &Vec<char>, c: char, i: usize) -> (r: Option<usize>)
    requires
        i <= v@.len(),
    ensures
        opt_pos(r) == find_char_from(v@, c, i as int),
{
    let mut j = i;
    while j < v.len()
        invariant
            i <= j <= v@.len(),
            find_char_from(v@, c, i as int) == find_char_from(v@, c, j as int),
        decreases v@.len() - j,
    {
        if v[j] == c {
            return Some(j);
        }
        j += 1;
    }
    None
}

fn rfind_char_x(v: &Vec<char>, c: char) -> (r: Option<usize>)
    ensures
        opt_pos(r) == rfind_char(v@, c, v@.len() as int),
{
    let mut end = v.len();
    while end > 0
        invariant
            end <= v@.len(),
            rfind_char(v@, c, v@.len() as int) == rfind_char(v@, c, end as int),
        decreases end,
    {
        if v[end - 1] == c {
            return Some(end - 1);
        }
        end -= 1;
    }
    None
}

/// The keyword of the read-progress marker, as characters.
fn kw_after_x() -> (r: Vec<char>)
    ensures
        r@ == kw_after(),
{
    let mut v: Vec<char> = Vec::new();
    v.push('a');
    v.push('f');
    v.push('t');
    v.push('e');
    v.push('r');
    proof {
        assert(v@ =~= kw_after());
    }
    v
}

/// The title directive keyword of a dialect, as characters.
fn kw_title_x(ft: FileType) -> (r: Vec<char>)
    ensures
        r@ == kw_title(ft),
{
    let mut v: Vec<char> = Vec::new();
    if let FileType::Org = ft {
        v.push('#');
        v.push('+');
    }
    v.push('t');
    v.push('i');
    v.push('t');
    v.push('l');
    v.push('e');
    v.push(':');
    proof {
        assert(v@ =~= kw_title(ft));
    }
    v
}

/// The description directive keyword of a dialect, as characters.
fn kw_description_x(ft: FileType) -> (r: Vec<char>)
    ensures
        r@ == kw_description(ft),
{
    let mut v: Vec<char> = Vec::new();
    if let FileType::Org = ft {
        v.push('#');
        v.push('+');
    }
    v.push('d');
    v.push('e');
    v.push('s');
    v.push('c');
    v.push('r');
    v.push('i');
    v.push('p');
    v.push('t');
    v.push('i');
    v.push('o');
    v.push('n');
    v.push(':');
    proof {
        assert(v@ =~= kw_description(ft));
    }
    v
}

/// The date directive keyword of a dialect, as characters.
fn kw_date_x(ft: FileType) -> (r: Vec<char>)
    ensures
        r@ == kw_date(ft),
{
    let mut v: Vec<char> = Vec::new();
    if let FileType::Org = ft {
        v.push('#');
        v.push('+');
    }
    v.push('d');
    v.push('a');
    v.push('t');
    v.push('e');
    v.push(':');
    proof {
        assert(v@ =~= kw_date(ft));
    }
    v
}

/// The tags directive keyword of a dialect, as characters.
fn kw_tags_x(ft: FileType) -> (r: Vec<char>)
    ensures
        r@ == kw_tags(ft),
{
    let mut v: Vec<char> = Vec::new();
    if let FileType::Org = ft {
        v.push('#');
        v.push('+');
    }
    v.push('f');
    v.push('i');
    v.push('l');
    v.push('e');
    v.push('t');
    v.push('a');
    v.push('g');
    v.push('s');
    v.push(':');
    proof {
        assert(v@ =~= kw_tags(ft));
    }
    v
}

/// A successful forward pattern search lands in bounds, on a match.
proof fn lemma_find_pat_some(s: Seq<char>, pat: Seq<char>, i: int, p: int)
    requires
        find_pat_from(s, pat, i) == Some(p),
    ensures
        i <= p,
        0 <= p,
        p + pat.len() <= s.len(),
        match_at(s, p, pat),
    decreases s.len() - i,
{
    if i < 0 || i + pat.len() > s.len() {
    } else if match_at(s, i, pat) {
    } else {
        lemma_find_pat_some(s, pat, i + 1, p);
    }
}

/// A successful forward keyword search lands in bounds, on a match.
proof fn lemma_find_kw_some(s: Seq<char>, kw: Seq<char>, i: int, p: int)
    requires
        find_kw_from(s, kw, i) == Some(p),
    ensures
        i <= p,
        0 <= p,
        p + kw.len() <= s.len(),
        match_kw_at(s, p, kw),
    decreases s.len() - i,
{
    if i < 0 || i + kw.len() > s.len() {
    } else if match_kw_at(s, i, kw) {
    } else {
        lemma_find_kw_some(s, kw, i + 1, p);
    }
}

/// A successful forward character search lands in bounds, on the character.
pub(crate) proof fn lemma_find_char_some(s: Seq<char>, c: char, i: int, p: int)
    requires
        find_char_from(s, c, i) == Some(p),
    ensures
        i <= p < s.len(),
        s[p] == c,
    decreases s.len() - i,
{
    if i < 0 || i >= s.len() {
    } else if s[i] == c {
    } else {
        lemma_find_char_some(s, c, i + 1, p);
    }
}

/// A successful backward character search lands in bounds, on the character.
proof fn lemma_rfind_char_some(s: Seq<char>, c: char, end: int, p: int)
    requires
        rfind_char(s, c, end) == Some(p),
    ensures
        0 <= p < end <= s.len(),
        s[p] == c,
    decreases end,
{
    if end <= 0 || end > s.len() {
    } else if s[end - 1] == c {
    } else {
        lemma_rfind_char_some(s, c, end - 1, p);
    }
}

/// A successful backward marker search lands in bounds, on a marker.
pub(crate) proof fn lemma_rfind_marker_some(s: Seq<char>, from: int, end: int, p: int)
    requires
        rfind_marker(s, from, end) == Some(p),
    ensures
        from <= p < end,
        marker_at(s, p),
    decreases end - from,
{
    if end <= from {
    } else if marker_at(s, end - 1) {
    } else {
        lemma_rfind_marker_some(s, from, end - 1, p);
    }
}

/// Whether a read-progress marker starts at `p`.
fn marker_at_x(v: &Vec<char>, kw_a: &Vec<char>, p: usize) -> (b: bool)
    requires
        p <= v@.len(),
        kw_a@ == kw_after(),
    ensures
        b == marker_at(v@, p as int),
{
    if v.len() - p < 2 {
        return false;
    }
    if v[p] != '-' {
        return false;
    }
    if v[p + 1] != '-' {
        return false;
    }
    let kpos = if p + 2 < v.len() && v[p + 2] == ' ' {
        p + 3
    } else {
        p + 2
    };
    proof {
        assert(kpos as int == marker_keyword_pos(v@, p as int));
    }
    match_kw_at_x(v, kpos, kw_a)
}

/// The last read-progress marker at or after `from`.
fn rfind_marker_x(v: &Vec<char>, kw_a: &Vec<char>, from: usize) -> (r: Option<usize>)
    requires
        from <= v@.len(),
        kw_a@ == kw_after(),
    ensures
        opt_pos(r) == rfind_marker(v@, from as int, v@.len() as int),
{
    let mut end = v.len();
    while end > from
        invariant
            from <= end <= v@.len(),
            kw_a@ == kw_after(),
            rfind_marker(v@, from as int, v@.len() as int) == rfind_marker(
                v@,
                from as int,
                end as int,
            ),
        decreases end,
    {
        if marker_at_x(v, kw_a, end - 1) {
            return Some(end - 1);
        }
        end -= 1;
    }
    None
}

/// Whether `c` occurs in `v` at a position in `[a, b)`.
fn range_has_char(v: &Vec<char>, a: usize, b: usize, c: char) -> (r: bool)
    requires
        a <= b <= v@.len(),
    ensures
        r == exists|t: int| a <= t < b && v@[t] == c,
{
    let mut k = a;
    while k < b
        invariant
            a <= k <= b <= v@.len(),
            forall|t: int| a <= t < k ==> v@[t] != c,
        decreases b - k,
    {
        if v[k] == c {
            return true;
        }
        k += 1;
    }
    false
}

/// Skip spaces, at most one table-cell pipe, and spaces again.
fn skip_cell_gap_x(v: &Vec<char>, i: usize) -> (r: usize)
    requires
        i <= v@.len(),
    ensures
        r as int == skip_cell_gap(v@, i as int),
        i <= r <= v@.len(),
{
    let j = skip_spaces_x(v, i);
    if j < v.len() && v[j] == '|' {
        skip_spaces_x(v, j + 1)
    } else {
        j
    }
}

/// Try to take a qualifying parenthesised remark at `i`; hand back its
/// content and the position after it, or leave the position unchanged.
fn scan_annotation_x(line: &str, v: &Vec<char>, i: usize, want_like: bool) -> (r: (
    Option<String>,
    usize,
))
    requires
        v@ == line@,
        i <= v@.len(),
    ensures
        ({
            let (c, nxt) = scan_annotation(v@, i as int, want_like);
            &&& r.0.deep_view() == c
            &&& r.1 as int == nxt
            &&& i <= r.1 <= v@.len()
        }),
{
    if i < v.len() && v[i] == '(' {
        match find_char_from_x(v, ')', i + 1) {
            Some(j) => {
                proof {
                    lemma_find_char_some(v@, ')', i + 1, j as int);
                }
                let has_paren = range_has_char(v, i + 1, j, '(');
                proof {
                    let content = v@.subrange(i + 1, j as int);
                    if has_paren {
                        let t = choose|t: int| i + 1 <= t < j && v@[t] == '(';
                        assert(content[t - (i + 1)] == '(');
                    } else {
                        assert forall|k: int| 0 <= k < content.len() implies content[k] != '(' by {
                            assert(content[k] == v@[i + 1 + k]);
                        }
                    }
                }
                if has_paren {
                    return (None, i);
                }
                let clen = j - (i + 1);
                let is_read = clen >= 4 && matches_ci_x(v[j - 4], 'r') && matches_ci_x(
                    v[j - 3],
                    'e',
                ) && matches_ci_x(v[j - 2], 'a') && matches_ci_x(v[j - 1], 'd') && (clen == 4
                    || !is_word_char_x(v[j - 5]));
                let qualifies = if want_like {
                    is_read
                } else {
                    clen >= 1 && !is_read
                };
                proof {
                    let content = v@.subrange(i + 1, j as int);
                    assert(content.len() == j - (i + 1));
                    if clen >= 4 {
                        assert(content[content.len() - 4] == v@[j - 4]);
                        assert(content[content.len() - 3] == v@[j - 3]);
                        assert(content[content.len() - 2] == v@[j - 2]);
                        assert(content[content.len() - 1] == v@[j - 1]);
                        if clen >= 5 {
                            assert(content[content.len() - 5] == v@[j - 5]);
                        }
                    } else if clen >= 1 {
                        assert(content[content.len() - 1] == v@[j - 1]);
                    }
                    assert(is_read == is_read_remark(content));
                    if want_like {
                        assert(qualifies == like_ok(content));
                    } else {
                        assert(qualifies == desc_ok(content));
                    }
                }
                if qualifies {
                    let sub = line.substring_char(i + 1, j);
                    (Some(String::from_str(sub)), j + 1)
                } else {
                    (None, i)
                }
            },
            None => (None, i),
        }
    } else {
        (None, i)
    }
}

/// The heading marker character of a dialect.
fn heading_marker_x(ft: FileType) -> (c: char)
    ensures
        c == heading_marker(ft),
{
    match ft {
        FileType::Org => '*',
        FileType::Md => '#',
    }
}

/// The view a freshly classified heading has: no children, no links yet.
pub open spec fn heading_view_of(level: int, title: Seq<char>, n: int) -> HeadingView {
    HeadingView { title, level, line_number: n, heading: Seq::empty(), links: Seq::empty() }
}

/// The view a classified link has once its line number is attached.
pub open spec fn link_view_of(f: LinkFields, n: int) -> LinkView {
    LinkView {
        name: f.name,
        link: f.target,
        read_till: f.read_till,
        description: f.description,
        likeability: f.likeability,
        line_number: n,
    }
}

/// How a classification result relates to the grammar's verdict on the line.
pub open spec fn line_type_matches(r: Option<LineType>, c: LineClass, n: int) -> bool {
    match c {
        LineClass::Link(f) => r matches Some(LineType::Link(l)) && l@ == link_view_of(f, n),
        LineClass::Heading { level, title } => r matches Some(LineType::Heading(h)) && h@
            == heading_view_of(level, title, n),
        LineClass::Title(v) => r matches Some(LineType::MetaData(MetaData::Title(t))) && t@ == v,
        LineClass::Description(v) => r matches Some(
            LineType::MetaData(MetaData::Description(t)),
        ) && t@ == v,
        LineClass::Date(v) => r matches Some(LineType::MetaData(MetaData::Date(t))) && t@ == v,
        LineClass::Tags(tl) => r matches Some(LineType::MetaData(MetaData::Tags(t)))
            && t.deep_view() == tl,
        LineClass::Plain => r is None,
    }
}

/// Recognise a heading line and build the bare node for it.
fn heading_x(line: &str, v: &Vec<char>, ft: FileType, n: usize) -> (r: Option<Heading>)
    requires
        v@ == line@,
    ensures
        match heading_parts(v@, ft) {
            Some(p) => r matches Some(h) && h@ == heading_view_of(p.0, p.1, n as int),
            None => r is None,
        },
{
    let m = heading_marker_x(ft);
    let lvl = marker_run_end_x(v, 0, m);
    if lvl >= 1 {
        let j = skip_spaces_x(v, lvl);
        if j < v.len() && is_word_char_x(v[j]) {
            let e = trim_end_idx_x(v, j, v.len());
            let title = String::from_str(line.substring_char(j, e));
            let h = Heading {
                title,
                level: lvl,
                line_number: n,
                heading: Vec::new(),
                links: Vec::new(),
            };
            proof {
                assert(links_view(h.links@) =~= Seq::<LinkView>::empty());
                let p = heading_parts(v@, ft).unwrap();
                assert(h@ =~= heading_view_of(p.0, p.1, n as int));
            }
            Some(h)
        } else {
            None
        }
    } else {
        None
    }
}

/// Recognise a plain directive and extract its value.
fn directive_x(line: &str, v: &Vec<char>, kw: &Vec<char>) -> (r: Option<String>)
    requires
        v@ == line@,
    ensures
        r.deep_view() == directive_value(v@, kw@),
{
    match find_kw_from_x(v, kw, 0) {
        Some(p) => {
            proof {
                lemma_find_kw_some(v@, kw@, 0, p as int);
                assert(v@.len() == v.len());
            }
            let j = skip_spaces_x(v, p + kw.len());
            Some(String::from_str(line.substring_char(j, v.len())))
        },
        None => None,
    }
}

/// Recognise a date directive and extract the bracketed value.
fn date_x(line: &str, v: &Vec<char>, kw: &Vec<char>) -> (r: Option<String>)
    requires
        v@ == line@,
    ensures
        r.deep_view() == date_value(v@, kw@),
{
    match find_kw_from_x(v, kw, 0) {
        Some(p) => {
            proof {
                lemma_find_kw_some(v@, kw@, 0, p as int);
                assert(v@.len() == v.len());
            }
            let j = skip_spaces_x(v, p + kw.len());
            if j < v.len() && v[j] == '[' {
                match rfind_char_x(v, ']') {
                    Some(rr) => {
                        proof {
                            lemma_rfind_char_some(v@, ']', v@.len() as int, rr as int);
                        }
                        if rr > j {
                            Some(String::from_str(line.substring_char(j + 1, rr)))
                        } else {
                            None
                        }
                    },
                    None => None,
                }
            } else {
                None
            }
        },
        None => None,
    }
}

/// Split the value of a tags directive at colons, dropping empty segments.
fn split_tags_x(line: &str, v: &Vec<char>, start: usize) -> (out: Vec<String>)
    requires
        v@ == line@,
        start <= v@.len(),
    ensures
        out.deep_view() == split_tags_acc(v@, start as int, Seq::empty()),
{
    let mut out: Vec<String> = Vec::new();
    let mut a = start;
    let mut pos = start;
    proof {
        assert(v@.subrange(start as int, start as int) =~= Seq::<char>::empty());
        assert(out.deep_view() =~= Seq::<Seq<char>>::empty());
        assert(out.deep_view() + split_tags_acc(v@, start as int, Seq::empty()) =~= split_tags_acc(
            v@,
            start as int,
            Seq::empty(),
        ));
    }
    while pos < v.len()
        invariant
            v@ == line@,
            start <= a <= pos <= v@.len(),
            forall|t: int| a <= t < pos ==> v@[t] != ':',
            split_tags_acc(v@, start as int, Seq::empty()) == out.deep_view() + split_tags_acc(
                v@,
                pos as int,
                v@.subrange(a as int, pos as int),
            ),
        decreases v@.len() - pos,
    {
        if v[pos] == ':' {
            let ghost cur = v@.subrange(a as int, pos as int);
            if pos > a {
                let seg = String::from_str(line.substring_char(a, pos));
                proof {
                    assert(seg@ == cur);
                }
                let ghost old_deep = out.deep_view();
                out.push(seg);
                proof {
                    assert(out.deep_view() =~= old_deep.push(cur));
                    assert(old_deep.push(cur) =~= old_deep + seq![cur]);
                    assert((old_deep + seq![cur]) + split_tags_acc(v@, pos + 1, Seq::empty())
                        =~= old_deep + (seq![cur] + split_tags_acc(v@, pos + 1, Seq::empty())));
                }
            }
            a = pos + 1;
            proof {
                assert(v@.subrange(pos + 1, pos + 1) =~= Seq::<char>::empty());
            }
        } else {
            proof {
                let cur = v@.subrange(a as int, pos as int);
                assert(cur.push(v@[pos as int]) =~= v@.subrange(a as int, pos + 1));
            }
        }
        pos += 1;
    }
    let ghost cur = v@.subrange(a as int, pos as int);
    if pos > a {
        let seg = String::from_str(line.substring_char(a, pos));
        proof {
            assert(seg@ == cur);
        }
        let ghost old_deep = out.deep_view();
        out.push(seg);
        proof {
            assert(out.deep_view() =~= old_deep.push(cur));
            assert(old_deep.push(cur) =~= old_deep + seq![cur]);
        }
    } else {
        proof {
            assert(out.deep_view() + Seq::<Seq<char>>::empty() =~= out.deep_view());
        }
    }
    out
}

/// Recognise a tags directive and extract the tag list.
fn tags_x(line: &str, v: &Vec<char>, kw: &Vec<char>) -> (r: Option<Vec<String>>)
    requires
        v@ == line@,
    ensures
        match tags_value(v@, kw@) {
            Some(tl) => r matches Some(tv) && tv.deep_view() == tl,
            None => r is None,
        },
{
    match find_kw_from_x(v, kw, 0) {
        Some(p) => {
            proof {
                lemma_find_kw_some(v@, kw@, 0, p as int);
                assert(v@.len() == v.len());
            }
            let j = skip_spaces_x(v, p + kw.len());
            if j < v.len() && v[j] == ':' {
                Some(split_tags_x(line, v, j + 1))
            } else {
                None
            }
        },
        None => None,
    }
}

/// Recognise the bracketed pair of a link line. The result holds the
/// character ranges of the target and the name, and the position after the
/// pair.
fn link_parts_x(v: &Vec<char>, ft: FileType) -> (r: Option<(usize, usize, usize, usize, usize)>)
    ensures
        match r {
            Some(p) => {
                &&& link_parts(v@, ft) == Some(
                    (
                        v@.subrange(p.0 as int, p.1 as int),
                        v@.subrange(p.2 as int, p.3 as int),
                        p.4 as int,
                    ),
                )
                &&& p.0 <= p.1 <= v@.len()
                &&& p.2 <= p.3 <= v@.len()
                &&& p.4 <= v@.len()
            },
            None => link_parts(v@, ft) is None,
        },
{
    let i = skip_cell_gap_x(v, 0);
    match ft {
        FileType::Org => {
            if v.len() - i >= 2 && v[i] == '[' && v[i + 1] == '[' {
                let mut sep: Vec<char> = Vec::new();
                sep.push(']');
                sep.push('[');
                let mut close: Vec<char> = Vec::new();
                close.push(']');
                close.push(']');
                proof {
                    assert(sep@ =~= seq![']', '[']);
                    assert(close@ =~= seq![']', ']']);
                }
                match find_pat_from_x(v, &sep, i + 2) {
                    Some(a) => {
                        proof {
                            lemma_find_pat_some(v@, sep@, i + 2, a as int);
                        }
                        match find_pat_from_x(v, &close, a + 2) {
                            Some(b) => {
                                proof {
                                    lemma_find_pat_some(v@, close@, a + 2, b as int);
                                }
                                Some((i + 2, a, a + 2, b, b + 2))
                            },
                            None => None,
                        }
                    },
                    None => None,
                }
            } else {
                None
            }
        },
        FileType::Md => {
            if i < v.len() && v[i] == '[' {
                let mut sep: Vec<char> = Vec::new();
                sep.push(']');
                sep.push('(');
                proof {
                    assert(sep@ =~= seq![']', '(']);
                }
                match find_pat_from_x(v, &sep, i + 1) {
                    Some(a) => {
                        proof {
                            lemma_find_pat_some(v@, sep@, i + 1, a as int);
                        }
                        match find_char_from_x(v, ')', a + 2) {
                            Some(b) => {
                                proof {
                                    lemma_find_char_some(v@, ')', a + 2, b as int);
                                }
                                Some((a + 2, b, i + 1, a, b + 1))
                            },
                            None => None,
                        }
                    },
                    None => None,
                }
            } else {
                None
            }
        },
    }
}

/// Recognise a whole link line and build the link for it.
fn link_x(line: &str, v: &Vec<char>, ft: FileType, n: usize) -> (r: Option<Link>)
    requires
        v@ == line@,
    ensures
        match link_spec(v@, ft) {
            Some(f) => r matches Some(l) && l@ == link_view_of(f, n as int),
            None => r is None,
        },
{
    match link_parts_x(v, ft) {
        None => None,
        Some((ts, te, ns, ne, p0)) => {
            let p1 = skip_cell_gap_x(v, p0);
            let (desc, p2) = scan_annotation_x(line, v, p1, false);
            let p3 = skip_cell_gap_x(v, p2);
            let (like, p4) = scan_annotation_x(line, v, p3, true);
            let kwa = kw_after_x();
            match rfind_marker_x(v, &kwa, p4) {
                None => None,
                Some(m) => {
                    proof {
                        lemma_rfind_marker_some(v@, p4 as int, v@.len() as int, m as int);
                        assert(v@.len() == v.len());
                    }
                    let kpos = if m + 2 < v.len() && v[m + 2] == ' ' {
                        m + 3
                    } else {
                        m + 2
                    };
                    proof {
                        assert(kpos as int == marker_keyword_pos(v@, m as int));
                        assert(kpos + 5 <= v@.len());
                    }
                    let q = kpos + 5;
                    let t = if q < v.len() && v[q] == ' ' {
                        q + 1
                    } else {
                        q
                    };
                    proof {
                        assert(t as int == read_till_start(v@, m as int));
                    }
                    let te2 = token_end_x(v, t);
                    let read_till = String::from_str(line.substring_char(t, te2));
                    let target = String::from_str(line.substring_char(ts, te));
                    let name = String::from_str(line.substring_char(ns, ne));
                    let l = Link {
                        name,
                        link: target,
                        read_till,
                        description: desc,
                        likeability: like,
                        line_number: n,
                    };
                    proof {
                        assert(l@ =~= link_view_of(link_spec(v@, ft).unwrap(), n as int));
                    }
                    Some(l)
                },
            }
        },
    }
}

/// Classify one line of a note file.
///
/// The grammars of the dialect are tried in a fixed order: link, heading,
/// title, description, date, tags; the first that matches decides. A line
/// that matches none of them is unclassifiable and yields `None`.
pub fn classify_line(line: &str, line_number: usize, file_type: FileType) -> (r: Option<LineType>)
    ensures
        line_type_matches(r, classify_spec(line@, file_type), line_number as int),
{
    let v = line_chars(line);
    if let Some(l) = link_x(line, &v, file_type, line_number) {
        return Some(LineType::Link(l));
    }
    if let Some(h) = heading_x(line, &v, file_type, line_number) {
        return Some(LineType::Heading(h));
    }
    let kwt = kw_title_x(file_type);
    if let Some(t) = directive_x(line, &v, &kwt) {
        return Some(LineType::MetaData(MetaData::Title(t)));
    }
    let kwd = kw_description_x(file_type);
    if let Some(t) = directive_x(line, &v, &kwd) {
        return Some(LineType::MetaData(MetaData::Description(t)));
    }
    let kwdate = kw_date_x(file_type);
    if let Some(t) = date_x(line, &v, &kwdate) {
        return Some(LineType::MetaData(MetaData::Date(t)));
    }
    let kwtags = kw_tags_x(file_type);
    if let Some(t) = tags_x(line, &v, &kwtags) {
        return Some(LineType::MetaData(MetaData::Tags(t)));
    }
    None
}

} // verus!
