//! Tilde expansion and file-name dialect detection.

use linkorg::config::expand_tilde;
use linkorg::config::Config;
use linkorg::files::file_type_of_name;
use linkorg::model::FileType;

#[test]
fn tilde_alone_becomes_home() {
    assert_eq!(expand_tilde("~", "/home/user"), "/home/user");
}

#[test]
fn tilde_prefix_is_joined_to_home() {
    assert_eq!(expand_tilde("~/notes/books", "/home/user"), "/home/user/notes/books");
}

#[test]
fn tilde_prefix_under_root_home_drops_the_tilde() {
    assert_eq!(expand_tilde("~/notes", "/"), "notes");
}

#[test]
fn absolute_path_is_unchanged() {
    assert_eq!(expand_tilde("/var/notes", "/home/user"), "/var/notes");
}

#[test]
fn tilde_inside_a_name_is_unchanged() {
    assert_eq!(expand_tilde("~notes", "/home/user"), "~notes");
}

#[test]
fn default_config_is_empty() {
    let c = Config::default();
    assert_eq!(c.notes_dir, "");
}

#[test]
fn org_and_md_extensions_are_recognised() {
    assert_eq!(file_type_of_name("books.org"), Some(FileType::Org));
    assert_eq!(file_type_of_name("notes.md"), Some(FileType::Md));
    assert_eq!(file_type_of_name("archive.tar.md"), Some(FileType::Md));
}

#[test]
fn other_names_are_rejected() {
    assert_eq!(file_type_of_name("readme.txt"), None);
    assert_eq!(file_type_of_name("no_extension"), None);
    assert_eq!(file_type_of_name(".org"), None);
    assert_eq!(file_type_of_name("notes.ORG"), None);
    assert_eq!(file_type_of_name("x."), None);
}
