use live_lexer::file_kind::{editor_kind_for_path, ends_with, path_file_name, EditorKind};
use live_lexer::text::{first_boundary, leading_true, StrExt};

#[test]
fn graphemes_from_both_ends() {
    let mut g = "aé€".graphemes();
    assert_eq!(g.next(), Some("a"));
    assert_eq!(g.next_back(), Some("€"));
    assert_eq!(g.next(), Some("é"));
    assert_eq!(g.next(), None);
    assert_eq!(g.next_back(), None);
}

#[test]
fn grapheme_indices_are_byte_offsets() {
    let mut g = "aé€x".grapheme_indices();
    assert_eq!(g.next(), Some((0, "a")));
    assert_eq!(g.next_back(), Some((6, "x")));
    assert_eq!(g.next(), Some((1, "é")));
    assert_eq!(g.next(), Some((3, "€")));
    assert_eq!(g.next(), None);
}

#[test]
fn whitespace_boundaries_split_runs() {
    let mut it = "ab  cd\t".split_whitespace_boundaries();
    assert_eq!(it.next(), Some("ab"));
    assert_eq!(it.next(), Some("  "));
    assert_eq!(it.next(), Some("cd"));
    assert_eq!(it.next(), Some("\t"));
    assert_eq!(it.next(), None);
    assert_eq!("".split_whitespace_boundaries().next(), None);
}

#[test]
fn file_name_is_after_last_slash() {
    assert_eq!(path_file_name("src/lib/main.rs"), "main.rs");
    assert_eq!(path_file_name("main.rs"), "main.rs");
    assert_eq!(path_file_name("dir/"), "");
}

#[test]
fn editor_kind_follows_extension() {
    assert_eq!(editor_kind_for_path("a/b.rs"), EditorKind::Rust);
    assert_eq!(editor_kind_for_path("Cargo.toml"), EditorKind::Rust);
    assert_eq!(editor_kind_for_path("x.ron"), EditorKind::Rust);
    assert_eq!(editor_kind_for_path("app.js"), EditorKind::Js);
    assert_eq!(editor_kind_for_path("index.html"), EditorKind::Js);
    assert_eq!(editor_kind_for_path("notes.txt"), EditorKind::Plain);
    assert_eq!(editor_kind_for_path("rs"), EditorKind::Plain);
    assert!(ends_with("abc", &['b', 'c']));
    assert!(!ends_with("c", &['b', 'c']));
}

#[test]
fn indentation_is_leading_whitespace() {
    assert_eq!("  \tfoo bar".indentation(), "  \t");
    assert_eq!("foo".indentation(), "");
    assert_eq!("   ".indentation(), "   ");
}

#[test]
fn flag_runs() {
    assert_eq!(first_boundary(&vec![true, true, false, true]), 2);
    assert_eq!(first_boundary(&vec![false, false]), 2);
    assert_eq!(first_boundary(&vec![]), 0);
    assert_eq!(leading_true(&vec![true, true, false, true]), 2);
    assert_eq!(leading_true(&vec![false, true]), 0);
    assert_eq!(leading_true(&vec![true, true]), 2);
}
