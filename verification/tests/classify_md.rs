//! Classification of single lines in the lightweight dialect.

use linkorg::classify::classify_line;
use linkorg::model::FileType;
use linkorg::model::Heading;
use linkorg::model::Link;
use linkorg::model::LineType;
use linkorg::model::MetaData;

#[test]
fn classifying_md_test_heading() {
    assert_eq!(
        classify_line("## Testing", 1, FileType::Md),
        Some(LineType::Heading(Heading {
            title: "Testing".to_string(),
            level: 2,
            line_number: 1,
            heading: vec![],
            links: vec![],
        }))
    );
}

#[test]
fn classifying_md_test_link() {
    assert_eq!(
        classify_line(
            "[Table test book](Link to test book) (Mediocure read)             -- after 8",
            1,
            FileType::Md
        ),
        Some(LineType::Link(Link {
            name: "Table test book".to_string(),
            link: "Link to test book".to_string(),
            read_till: "8".to_string(),
            likeability: Some("Mediocure read".to_string()),
            description: None,
            line_number: 1,
        }))
    );
}

#[test]
fn classifying_md_test_link_table() {
    assert_eq!(
        classify_line(
            "| [Table test book](Link to test book) | | (Mediocure read)|             -- after 8 |",
            1,
            FileType::Md
        ),
        Some(LineType::Link(Link {
            name: "Table test book".to_string(),
            link: "Link to test book".to_string(),
            read_till: "8".to_string(),
            likeability: Some("Mediocure read".to_string()),
            description: None,
            line_number: 1,
        }))
    );
}

#[test]
fn classifying_md_test_metadata_title() {
    assert_eq!(
        classify_line("title: testing title", 1, FileType::Md),
        Some(LineType::MetaData(MetaData::Title("testing title".to_string())))
    );
}

#[test]
fn classifying_md_test_metadata_description() {
    assert_eq!(
        classify_line("description: testing description", 1, FileType::Md),
        Some(LineType::MetaData(MetaData::Description(
            "testing description".to_string()
        )))
    );
}

#[test]
fn classifying_md_test_metadata_date() {
    assert_eq!(
        classify_line("date: [2023-07-10 Mon 17:00]", 1, FileType::Md),
        Some(LineType::MetaData(MetaData::Date("2023-07-10 Mon 17:00".to_string())))
    );
}

#[test]
fn classifying_md_test_metadata_tags() {
    assert_eq!(
        classify_line("filetags: :tag1:tag2:tag3:", 1, FileType::Md),
        Some(LineType::MetaData(MetaData::Tags(vec![
            "tag1".to_string(),
            "tag2".to_string(),
            "tag3".to_string()
        ])))
    );
}
