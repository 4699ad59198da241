//! End-to-end scenarios: nesting, overwritten metadata, empty link lists,
//! blank lines, dropped tag segments, cross-dialect links and re-parsing.

use linkorg::classify::classify_line;
use linkorg::model::FileData;
use linkorg::model::FileMetaData;
use linkorg::model::FileType;
use linkorg::model::Heading;
use linkorg::model::Link;
use linkorg::model::LineType;
use linkorg::model::MetaData;
use linkorg::parse::parse_data_file;

fn lines(raw: &[&str]) -> Vec<String> {
    raw.iter().map(|s| s.to_string()).collect()
}

#[test]
fn title_heading_link_child_heading() {
    let parsed = parse_data_file(
        "notes.org".to_string(),
        &lines(&["#+title: T", "* A", "[[x][y]] -- after 3", "** B"]),
        FileType::Org,
    );
    assert_eq!(parsed.file_meta_data.file_title, "T");
    assert_eq!(parsed.links, vec![]);
    assert_eq!(parsed.heading.len(), 1);
    let a = &parsed.heading[0];
    assert_eq!(a.title, "A");
    assert_eq!(a.level, 1);
    assert_eq!(
        a.links,
        vec![Link {
            name: "y".to_string(),
            link: "x".to_string(),
            read_till: "3".to_string(),
            description: None,
            likeability: None,
            line_number: 3,
        }]
    );
    assert_eq!(a.heading.len(), 1);
    assert_eq!(a.heading[0].title, "B");
    assert_eq!(a.heading[0].level, 2);
    assert_eq!(a.heading[0].heading, vec![]);
    assert_eq!(a.heading[0].links, vec![]);
}

#[test]
fn heading_without_links_keeps_empty_list() {
    let parsed = parse_data_file(
        "notes.org".to_string(),
        &lines(&["** B", "* C"]),
        FileType::Org,
    );
    assert_eq!(parsed.heading.len(), 2);
    assert_eq!(parsed.heading[0].title, "B");
    assert_eq!(parsed.heading[0].links, vec![]);
    assert_eq!(parsed.heading[1].title, "C");
    assert_eq!(parsed.heading[1].links, vec![]);
}

#[test]
fn later_title_directive_wins() {
    let parsed = parse_data_file(
        "notes.org".to_string(),
        &lines(&["#+title: First", "* A", "#+title: Other"]),
        FileType::Org,
    );
    assert_eq!(parsed.file_meta_data.file_title, "Other");
}

#[test]
fn blank_lines_classify_as_nothing_and_change_nothing() {
    assert_eq!(classify_line("", 1, FileType::Org), None);
    assert_eq!(classify_line("   ", 1, FileType::Org), None);
    assert_eq!(classify_line("\t \t", 1, FileType::Md), None);
    let parsed = parse_data_file(
        "blank.org".to_string(),
        &lines(&["", "   ", "\t"]),
        FileType::Org,
    );
    assert_eq!(
        parsed,
        FileData {
            file_name: "blank.org".to_string(),
            file_meta_data: FileMetaData::default(),
            level: 0,
            heading: vec![],
            links: vec![],
        }
    );
}

#[test]
fn empty_tag_segments_are_dropped() {
    assert_eq!(
        classify_line("#+filetags: ::a::b::", 1, FileType::Org),
        Some(LineType::MetaData(MetaData::Tags(vec![
            "a".to_string(),
            "b".to_string()
        ])))
    );
}

#[test]
fn dialects_agree_on_target_and_name() {
    let org = classify_line("[[A][B]] -- after 1", 1, FileType::Org);
    let md = classify_line("[B](A) -- after 1", 1, FileType::Md);
    match (org, md) {
        (Some(LineType::Link(l_org)), Some(LineType::Link(l_md))) => {
            assert_eq!(l_org.link, "A");
            assert_eq!(l_org.name, "B");
            assert_eq!(l_org, l_md);
        }
        other => panic!("both lines must classify as links, got {:?}", other),
    }
}

#[test]
fn reparsing_yields_equal_documents() {
    let input = lines(&["#+title: T", "* A", "[[x][y]] -- after 3", "** B", "* C"]);
    let first = parse_data_file("again.org".to_string(), &input, FileType::Org);
    let second = parse_data_file("again.org".to_string(), &input, FileType::Org);
    assert_eq!(first, second);
}

#[test]
fn empty_file_keeps_defaults_and_name() {
    let parsed = parse_data_file("empty.org".to_string(), &lines(&[]), FileType::Org);
    assert_eq!(parsed.file_name, "empty.org");
    assert_eq!(parsed.file_meta_data.file_title, "No title");
    assert_eq!(parsed.file_meta_data.file_description, "No description");
    assert_eq!(parsed.file_meta_data.file_date, "No creation Date found");
    assert_eq!(parsed.file_meta_data.file_tags, Vec::<String>::new());
    assert_eq!(parsed.heading, vec![]);
    assert_eq!(parsed.links, vec![]);
}

#[test]
fn skipped_level_attaches_to_nearest_shallower() {
    let parsed = parse_data_file(
        "skip.org".to_string(),
        &lines(&["* A", "*** D", "** B"]),
        FileType::Org,
    );
    assert_eq!(parsed.heading.len(), 1);
    let a = &parsed.heading[0];
    assert_eq!(a.title, "A");
    assert_eq!(a.heading.len(), 2);
    assert_eq!(a.heading[0].title, "D");
    assert_eq!(a.heading[0].level, 3);
    assert_eq!(a.heading[1].title, "B");
    assert_eq!(a.heading[1].level, 2);
}

#[test]
fn link_before_any_heading_stays_at_root() {
    let parsed = parse_data_file(
        "root.org".to_string(),
        &lines(&["[[x][y]] -- after 1", "* A"]),
        FileType::Org,
    );
    assert_eq!(parsed.links.len(), 1);
    assert_eq!(parsed.links[0].link, "x");
    assert_eq!(parsed.heading.len(), 1);
    assert_eq!(parsed.heading[0].links, vec![]);
}

#[test]
fn description_and_likeability_both_captured() {
    let r = classify_line(
        "[[url][title]] (a fine book) (Must read) -- after 4",
        7,
        FileType::Org,
    );
    assert_eq!(
        r,
        Some(LineType::Link(Link {
            name: "title".to_string(),
            link: "url".to_string(),
            read_till: "4".to_string(),
            description: Some("a fine book".to_string()),
            likeability: Some("Must read".to_string()),
            line_number: 7,
        }))
    );
}

#[test]
fn missing_read_progress_marker_rejects_link() {
    assert_eq!(classify_line("[[x][y]]", 1, FileType::Org), None);
    assert_eq!(classify_line("[y](x)", 1, FileType::Md), None);
}

#[test]
fn sole_plain_parenthetical_is_a_description() {
    let r = classify_line("[[u][v]] (nice) -- after 2", 1, FileType::Org);
    assert_eq!(
        r,
        Some(LineType::Link(Link {
            name: "v".to_string(),
            link: "u".to_string(),
            read_till: "2".to_string(),
            description: Some("nice".to_string()),
            likeability: None,
            line_number: 1,
        }))
    );
}

#[test]
fn read_as_substring_is_a_description() {
    let r = classify_line("[[u][v]] (bread) -- after 2", 1, FileType::Org);
    assert_eq!(
        r,
        Some(LineType::Link(Link {
            name: "v".to_string(),
            link: "u".to_string(),
            read_till: "2".to_string(),
            description: Some("bread".to_string()),
            likeability: None,
            line_number: 1,
        }))
    );
}

#[test]
fn uppercase_read_is_a_likeability_remark() {
    let r = classify_line("[[u][v]] (Must READ) -- after 2", 1, FileType::Org);
    assert_eq!(
        r,
        Some(LineType::Link(Link {
            name: "v".to_string(),
            link: "u".to_string(),
            read_till: "2".to_string(),
            description: None,
            likeability: Some("Must READ".to_string()),
            line_number: 1,
        }))
    );
}

#[test]
fn non_ascii_heading_title_is_kept() {
    let r = classify_line("* Überschrift", 1, FileType::Org);
    assert_eq!(
        r,
        Some(LineType::Heading(Heading {
            title: "Überschrift".to_string(),
            level: 1,
            line_number: 1,
            heading: vec![],
            links: vec![],
        }))
    );
}
