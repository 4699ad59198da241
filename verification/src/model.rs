//! The document model: links, headings, file metadata and the parsed file,
//! together with their mathematical views and well-formedness predicates.

use vstd::prelude::*;

verus! {

broadcast use vstd::std_specs::vec::group_vec_axioms;

/// Which of the two note dialects a file is written in.
#[derive(Debug, PartialEq, Eq, Clone, Copy)]
pub enum FileType {
    /// Outline dialect: `*` headings, `[[target][name]]` links.
    Org,
    /// Lightweight dialect: `#` headings, `[name](target)` links.
    Md,
}

/// A reference discovered on one line of a note file.
#[derive(Debug, PartialEq)]
pub struct Link {
    pub name: String,
    pub link: String,
    pub read_till: String,
    pub description: Option<String>,
    pub likeability: Option<String>,
    pub line_number: usize,
}

/// One outline node: a heading with the sub-headings and links under it.
#[derive(Debug, PartialEq)]
pub struct Heading {
    pub title: String,
    pub level: usize,
    pub line_number: usize,
    pub heading: Vec<Heading>,
    pub links: Vec<Link>,
}

/// Document-level metadata, filled by the metadata directives of a file.
#[derive(Debug, PartialEq)]
pub struct FileMetaData {
    pub file_title: String,
    pub file_description: String,
    pub file_date: String,
    pub file_tags: Vec<String>,
}

/// The result of parsing one note file.
#[derive(Debug, PartialEq)]
pub struct FileData {
    pub file_name: String,
    pub file_meta_data: FileMetaData,
    pub level: usize,
    pub heading: Vec<Heading>,
    pub links: Vec<Link>,
}

/// The classification of a single line.
#[derive(Debug, PartialEq)]
pub enum LineType {
    Link(Link),
    Heading(Heading),
    MetaData(MetaData),
}

/// One metadata fact read from a directive line.
#[derive(Debug, PartialEq)]
pub enum MetaData {
    Title(String),
    Description(String),
    Date(String),
    Tags(Vec<String>),
}

impl Default for FileMetaData {
    fn default() -> (m: FileMetaData)
        ensures
            m@ == MetaView::init(),
    {
        let m = FileMetaData {
            file_title: String::from_str("No title"),
            file_description: String::from_str("No description"),
            file_date: String::from_str("No creation Date found"),
            file_tags: Vec::new(),
        };
        proof {
            assert(m@ =~~= MetaView::init());
        }
        m
    }
}

/// Mathematical view of a [`Link`].
#[verifier::ext_equal]
pub ghost struct LinkView {
    pub name: Seq<char>,
    pub link: Seq<char>,
    pub read_till: Seq<char>,
    pub description: Option<Seq<char>>,
    pub likeability: Option<Seq<char>>,
    pub line_number: int,
}

/// Mathematical view of a [`Heading`].
#[verifier::ext_equal]
pub ghost struct HeadingView {
    pub title: Seq<char>,
    pub level: int,
    pub line_number: int,
    pub heading: Seq<HeadingView>,
    pub links: Seq<LinkView>,
}

/// Mathematical view of a [`FileMetaData`].
#[verifier::ext_equal]
pub ghost struct MetaView {
    pub file_title: Seq<char>,
    pub file_description: Seq<char>,
    pub file_date: Seq<char>,
    pub file_tags: Seq<Seq<char>>,
}

/// Mathematical view of a [`FileData`].
#[verifier::ext_equal]
pub ghost struct FileDataView {
    pub file_name: Seq<char>,
    pub file_meta_data: MetaView,
    pub level: int,
    pub heading: Seq<HeadingView>,
    pub links: Seq<LinkView>,
}

impl MetaView {
    /// The metadata of a file before any directive has been seen.
    pub open spec fn init() -> MetaView {
        MetaView {
            file_title: "No title"@,
            file_description: "No description"@,
            file_date: "No creation Date found"@,
            file_tags: Seq::empty(),
        }
    }
}

impl View for Link {
    type V = LinkView;

    open spec fn view(&self) -> LinkView {
        LinkView {
            name: self.name@,
            link: self.link@,
            read_till: self.read_till@,
            description: self.description.deep_view(),
            likeability: self.likeability.deep_view(),
            line_number: self.line_number as int,
        }
    }
}

/// The views of a sequence of links, in order.
pub open spec fn links_view(s: Seq<Link>) -> Seq<LinkView> {
    Seq::new(s.len(), |i: int| s[i]@)
}

/// The view of one heading node, taken recursively through its children.
pub open spec fn heading_view(h: Heading) -> HeadingView
    decreases h,
{
    HeadingView {
        title: h.title@,
        level: h.level as int,
        line_number: h.line_number as int,
        heading: headings_view(h.heading@),
        links: links_view(h.links@),
    }
}

/// The views of a sequence of heading nodes, in order.
pub open spec fn headings_view(s: Seq<Heading>) -> Seq<HeadingView>
    decreases s,
{
    if s.len() == 0 {
        Seq::empty()
    } else {
        headings_view(s.drop_last()).push(heading_view(s.last()))
    }
}

/// `headings_view` maps the sequence pointwise.
pub proof fn lemma_headings_view_index(s: Seq<Heading>)
    ensures
        headings_view(s).len() == s.len(),
        forall|i: int| 0 <= i < s.len() ==> headings_view(s)[i] == heading_view(s[i]),
    decreases s,
{
    if s.len() > 0 {
        lemma_headings_view_index(s.drop_last());
    }
}

/// Appending one heading to a sequence appends its view.
pub proof fn lemma_headings_view_push(s: Seq<Heading>, h: Heading)
    ensures
        headings_view(s.push(h)) == headings_view(s).push(heading_view(h)),
{
    assert(s.push(h).drop_last() =~= s);
}

/// Appending one link to a sequence appends its view.
pub proof fn lemma_links_view_push(s: Seq<Link>, l: Link)
    ensures
        links_view(s.push(l)) == links_view(s).push(l@),
{
    assert(links_view(s.push(l)) =~= links_view(s).push(l@));
}

impl View for Heading {
    type V = HeadingView;

    open spec fn view(&self) -> HeadingView {
        heading_view(*self)
    }
}

impl View for FileMetaData {
    type V = MetaView;

    open spec fn view(&self) -> MetaView {
        MetaView {
            file_title: self.file_title@,
            file_description: self.file_description@,
            file_date: self.file_date@,
            file_tags: self.file_tags.deep_view(),
        }
    }
}

impl View for FileData {
    type V = FileDataView;

    open spec fn view(&self) -> FileDataView {
        FileDataView {
            file_name: self.file_name@,
            file_meta_data: self.file_meta_data@,
            level: self.level as int,
            heading: headings_view(self.heading@),
            links: links_view(self.links@),
        }
    }
}

/// Every structural invariant of one heading node: a positive level, children
/// strictly deeper than their parent, children and links in ascending
/// line-number order, everything below the heading's own line.
pub open spec fn heading_wf(h: HeadingView) -> bool
    decreases h,
{
    &&& h.level >= 1
    &&& h.line_number >= 1
    &&& forall|i: int|
        0 <= i < h.heading.len() ==> (#[trigger] h.heading[i]).level > h.level && heading_wf(
            h.heading[i],
        )
    &&& forall|i: int, j: int|
        0 <= i < j < h.heading.len() ==> h.heading[i].line_number < h.heading[j].line_number
    &&& forall|i: int| 0 <= i < h.heading.len() ==> (#[trigger] h.heading[i]).line_number
        > h.line_number
    &&& forall|i: int| 0 <= i < h.links.len() ==> (#[trigger] h.links[i]).line_number
        > h.line_number
    &&& forall|i: int, j: int|
        0 <= i < j < h.links.len() ==> h.links[i].line_number < h.links[j].line_number
}

/// The structural invariant of a whole parsed document.
pub open spec fn doc_wf(d: FileDataView) -> bool {
    &&& forall|i: int| 0 <= i < d.heading.len() ==> heading_wf(#[trigger] d.heading[i])
    &&& forall|i: int, j: int|
        0 <= i < j < d.heading.len() ==> d.heading[i].line_number < d.heading[j].line_number
    &&& forall|i: int, j: int|
        0 <= i < j < d.links.len() ==> d.links[i].line_number < d.links[j].line_number
}

} // verus!
