//! Whole-file parses: a representative note file in each dialect.

use linkorg::model::FileData;
use linkorg::model::FileMetaData;
use linkorg::model::FileType;
use linkorg::model::Heading;
use linkorg::model::Link;
use linkorg::parse::parse_data_file;

fn lines(raw: &[&str]) -> Vec<String> {
    raw.iter().map(|s| s.to_string()).collect()
}

fn org_lines() -> Vec<String> {
    lines(&[
        "#+title: test title",
        "#+description: Test description to check parsing",
        "#+date: [2023-07-10 Mon 17:00]",
        "#+filetags: :testing:rust:orgmode:linkorg:",
        "",
        "* Level 1 heading",
        "** Level 2 heading 1 under 1",
        "[[Link to test book 1][Table test book 1]] (Good book) (Must read) -- after 20",
        "[[Link to test book 2][Table test book 2]] (Good read) -- after 2",
        "** Level 2 heading 2 under 1",
        "[[Link to test book 3][Table test book 3]] (Mediocure book) -- after 8",
        "[[Link to test book 4][Table test book 4]] -- after 9",
        "* Level 1 Table heading",
        "",
        "| [[Link to test book 1][Table test book 1]] | (Good book) | (Must read) | -- after 20 |",
        "| [[Link to test book 2][Table test book 2]] | | (Good read) | -- after 2 |",
        "| [[Link to test book 3][Table test book 3]] | (Mediocure book) | | -- after 8 |",
        "| [[Link to test book 4][Table test book 4]] | | | -- after 9 |",
    ])
}

fn md_lines() -> Vec<String> {
    lines(&[
        "title: test title",
        "description: Test description to check parsing",
        "date: [2023-07-10 Mon 17:00]",
        "filetags: :testing:rust:orgmode:linkorg:",
        "",
        "# Level 1 heading",
        "## Level 2 heading 1 under 1",
        "[Table test book 1](Link to test book 1) (Good book) (Must read) -- after 20",
        "[Table test book 2](Link to test book 2) (Good read) -- after 2",
        "## Level 2 heading 2 under 1",
        "[Table test book 3](Link to test book 3) (Mediocure book) -- after 8",
        "[Table test book 4](Link to test book 4) -- after 9",
        "# Level 1 Table heading",
        "",
        "| [Table test book 1](Link to test book 1) | (Good book) | (Must read) | -- after 20 |",
        "| [Table test book 2](Link to test book 2) | | (Good read) | -- after 2 |",
        "| [Table test book 3](Link to test book 3) | (Mediocure book) | | -- after 8 |",
        "| [Table test book 4](Link to test book 4) | | | -- after 9 |",
    ])
}

fn book(i: usize, read_till: &str, description: Option<&str>, likeability: Option<&str>, line_number: usize) -> Link {
    Link {
        name: format!("Table test book {}", i),
        link: format!("Link to test book {}", i),
        read_till: read_till.to_string(),
        description: description.map(|s| s.to_string()),
        likeability: likeability.map(|s| s.to_string()),
        line_number,
    }
}

fn expected(file_name: &str) -> FileData {
    FileData {
        file_name: file_name.to_string(),
        file_meta_data: FileMetaData {
            file_title: "test title".to_string(),
            file_description: "Test description to check parsing".to_string(),
            file_date: "2023-07-10 Mon 17:00".to_string(),
            file_tags: vec![
                "testing".to_string(),
                "rust".to_string(),
                "orgmode".to_string(),
                "linkorg".to_string(),
            ],
        },
        level: 0,
        heading: vec![
            Heading {
                title: "Level 1 heading".to_string(),
                level: 1,
                line_number: 6,
                heading: vec![
                    Heading {
                        title: "Level 2 heading 1 under 1".to_string(),
                        level: 2,
                        line_number: 7,
                        heading: vec![],
                        links: vec![
                            book(1, "20", Some("Good book"), Some("Must read"), 8),
                            book(2, "2", None, Some("Good read"), 9),
                        ],
                    },
                    Heading {
                        title: "Level 2 heading 2 under 1".to_string(),
                        level: 2,
                        line_number: 10,
                        heading: vec![],
                        links: vec![
                            book(3, "8", Some("Mediocure book"), None, 11),
                            book(4, "9", None, None, 12),
                        ],
                    },
                ],
                links: vec![],
            },
            Heading {
                title: "Level 1 Table heading".to_string(),
                level: 1,
                line_number: 13,
                heading: vec![],
                links: vec![
                    book(1, "20", Some("Good book"), Some("Must read"), 15),
                    book(2, "2", None, Some("Good read"), 16),
                    book(3, "8", Some("Mediocure book"), None, 17),
                    book(4, "9", None, None, 18),
                ],
            },
        ],
        links: vec![],
    }
}

#[test]
fn test_parsing_org() {
    let parsed = parse_data_file("test.org".to_string(), &org_lines(), FileType::Org);
    assert_eq!(parsed, expected("test.org"));
}

#[test]
fn test_parsing_md() {
    let parsed = parse_data_file("test.md".to_string(), &md_lines(), FileType::Md);
    assert_eq!(parsed, expected("test.md"));
}

#[test]
fn test_parsing() {
    let parsed = parse_data_file("test.org".to_string(), &org_lines(), FileType::Org);
    assert_eq!(parsed, expected("test.org"));
}
