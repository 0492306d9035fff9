//! End-to-end tests of the include preprocessor over an in-memory file
//! table.

use glsl_insert::shader::{preprocess, Outcome, PreprocessError};
use glsl_insert::vfs::{FileData, Vfs};

/// Builds a table from path/content pairs.
fn vfs_of(files: &[(&str, &str)]) -> Vfs {
    let mut vfs = Vfs::new();
    for (path, content) in files {
        vfs.insert(path.to_string(), FileData::Text(content.to_string()));
    }
    vfs
}

/// Runs the preprocessor and demands the flattened output.
fn expect_done(vfs: &Vfs, path: &str) -> String {
    match preprocess(vfs, path) {
        Outcome::Done(s) => s,
        other => panic!("expected Done, got {:?}", other),
    }
}

/// Runs the preprocessor and demands a failure.
fn expect_failed(vfs: &Vfs, path: &str) -> PreprocessError {
    match preprocess(vfs, path) {
        Outcome::Failed(e) => e,
        other => panic!("expected Failed, got {:?}", other),
    }
}

#[test]
fn plain_file_lines_are_trimmed_and_newline_joined() {
    let vfs = vfs_of(&[("plain.glsl", "  void main() {  \n\tgl_FragColor = c;\t\n}")]);
    let out = expect_done(&vfs, "plain.glsl");
    assert_eq!(out, "void main() {\ngl_FragColor = c;\n}\n");
}

#[test]
fn plain_file_preprocessing_is_idempotent() {
    let vfs = vfs_of(&[("a.glsl", "  x  \n\n y ")]);
    let once = expect_done(&vfs, "a.glsl");
    let vfs2 = vfs_of(&[("a.glsl", once.as_str())]);
    let twice = expect_done(&vfs2, "a.glsl");
    assert_eq!(once, twice);
}

#[test]
fn empty_file_yields_empty_output() {
    let vfs = vfs_of(&[("empty.glsl", "")]);
    assert_eq!(expect_done(&vfs, "empty.glsl"), "");
}

#[test]
fn lone_newline_yields_one_blank_line() {
    let vfs = vfs_of(&[("nl.glsl", "\n")]);
    assert_eq!(expect_done(&vfs, "nl.glsl"), "\n");
}

#[test]
fn missing_final_newline_is_appended() {
    let vfs = vfs_of(&[("a.glsl", "one\ntwo")]);
    assert_eq!(expect_done(&vfs, "a.glsl"), "one\ntwo\n");
}

#[test]
fn single_include_replaces_directive_line() {
    let vfs = vfs_of(&[
        ("a.glsl", "before\n#insert \"b.glsl\"\nafter\n"),
        ("b.glsl", "middle one\nmiddle two\n"),
    ]);
    let out = expect_done(&vfs, "a.glsl");
    assert_eq!(out, "before\nmiddle one\nmiddle two\n\nafter\n");
}

#[test]
fn resolution_is_relative_to_includer_directory() {
    let vfs = vfs_of(&[
        ("dir/a.glsl", "#insert \"sub/b.glsl\"\n"),
        ("dir/sub/b.glsl", "inner\n"),
    ]);
    let out = expect_done(&vfs, "dir/a.glsl");
    assert_eq!(out, "inner\n\n");
}

#[test]
fn nested_resolution_follows_each_includer() {
    let vfs = vfs_of(&[
        ("dir/a.glsl", "#insert \"sub/b.glsl\"\n"),
        ("dir/sub/b.glsl", "#insert \"c.glsl\"\n"),
        ("dir/sub/c.glsl", "deep\n"),
    ]);
    let out = expect_done(&vfs, "dir/a.glsl");
    assert_eq!(out, "deep\n\n\n");
}

#[test]
fn missing_closing_quote_is_a_syntax_error_with_the_trimmed_line() {
    let vfs = vfs_of(&[("a.glsl", "ok\n  #insert \"missing  \n")]);
    let err = expect_failed(&vfs, "a.glsl");
    match err {
        PreprocessError::InvalidIncludeSyntax(line) => {
            assert_eq!(line, "#insert \"missing");
        }
        other => panic!("expected InvalidIncludeSyntax, got {:?}", other),
    }
}

#[test]
fn missing_quotes_entirely_is_a_syntax_error() {
    let vfs = vfs_of(&[("a.glsl", "#insert b.glsl\n")]);
    let err = expect_failed(&vfs, "a.glsl");
    assert!(matches!(err, PreprocessError::InvalidIncludeSyntax(_)));
}

#[test]
fn unknown_include_is_not_found_with_the_unresolved_argument() {
    let mut vfs = vfs_of(&[("dir/a.glsl", "#insert \"nope.glsl\"\n")]);
    vfs.insert("dir/nope.glsl".to_string(), FileData::Absent);
    let err = expect_failed(&vfs, "dir/a.glsl");
    match err {
        PreprocessError::IncludeNotFound(arg) => {
            assert_eq!(arg, "nope.glsl");
        }
        other => panic!("expected IncludeNotFound, got {:?}", other),
    }
}

#[test]
fn nested_includes_expand_transitively() {
    let vfs = vfs_of(&[
        ("a.glsl", "top\n#insert \"b.glsl\"\nbottom\n"),
        ("b.glsl", "b1\n#insert \"c.glsl\"\nb2\n"),
        ("c.glsl", "core\n"),
    ]);
    let out = expect_done(&vfs, "a.glsl");
    assert_eq!(out, "top\nb1\ncore\n\nb2\n\nbottom\n");
}

#[test]
fn vertex_shader_scenario() {
    let vfs = vfs_of(&[
        ("vertex.glsl", "#version 100\n#insert \"common.glsl\"\n"),
        ("common.glsl", "precision mediump float;\n"),
    ]);
    let out = expect_done(&vfs, "vertex.glsl");
    assert_eq!(out, "#version 100\nprecision mediump float;\n\n");
}

#[test]
fn unknown_root_asks_for_the_file() {
    let vfs = Vfs::new();
    match preprocess(&vfs, "root.glsl") {
        Outcome::NeedFile(p) => assert_eq!(p, "root.glsl"),
        other => panic!("expected NeedFile, got {:?}", other),
    }
}

#[test]
fn unknown_include_path_asks_for_the_file() {
    let vfs = vfs_of(&[("dir/a.glsl", "#insert \"b.glsl\"\n")]);
    match preprocess(&vfs, "dir/a.glsl") {
        Outcome::NeedFile(p) => assert_eq!(p, "dir/b.glsl"),
        other => panic!("expected NeedFile, got {:?}", other),
    }
}

#[test]
fn feeding_the_asked_file_completes_the_run() {
    let mut vfs = vfs_of(&[("a.glsl", "#insert \"b.glsl\"\n")]);
    match preprocess(&vfs, "a.glsl") {
        Outcome::NeedFile(p) => {
            assert_eq!(p, "b.glsl");
            vfs.insert(p, FileData::Text("found\n".to_string()));
        }
        other => panic!("expected NeedFile, got {:?}", other),
    }
    assert_eq!(expect_done(&vfs, "a.glsl"), "found\n\n");
}

#[test]
fn absent_root_is_an_io_error_with_the_path() {
    let mut vfs = Vfs::new();
    vfs.insert("gone.glsl".to_string(), FileData::Absent);
    let err = expect_failed(&vfs, "gone.glsl");
    match err {
        PreprocessError::Io(m) => assert_eq!(m, "gone.glsl"),
        other => panic!("expected Io, got {:?}", other),
    }
}

#[test]
fn unreadable_file_is_an_io_error_with_the_reason() {
    let mut vfs = vfs_of(&[("a.glsl", "#insert \"locked.glsl\"\n")]);
    vfs.insert(
        "locked.glsl".to_string(),
        FileData::Unreadable("permission denied".to_string()),
    );
    let err = expect_failed(&vfs, "a.glsl");
    match err {
        PreprocessError::Io(m) => assert_eq!(m, "permission denied"),
        other => panic!("expected Io, got {:?}", other),
    }
}

#[test]
fn include_cycle_exceeds_the_depth_cap() {
    let vfs = vfs_of(&[
        ("a.glsl", "#insert \"b.glsl\"\n"),
        ("b.glsl", "#insert \"a.glsl\"\n"),
    ]);
    match preprocess(&vfs, "a.glsl") {
        Outcome::DepthExceeded => {}
        other => panic!("expected DepthExceeded, got {:?}", other),
    }
}

#[test]
fn self_include_exceeds_the_depth_cap() {
    let vfs = vfs_of(&[("a.glsl", "#insert \"a.glsl\"\n")]);
    match preprocess(&vfs, "a.glsl") {
        Outcome::DepthExceeded => {}
        other => panic!("expected DepthExceeded, got {:?}", other),
    }
}

#[test]
fn text_after_the_closing_quote_is_ignored() {
    let vfs = vfs_of(&[
        ("a.glsl", "#insert \"b.glsl\" // a comment\n"),
        ("b.glsl", "x\n"),
    ]);
    assert_eq!(expect_done(&vfs, "a.glsl"), "x\n\n");
}

#[test]
fn error_messages_name_their_kind_and_payload() {
    assert_eq!(
        PreprocessError::Io("oops".to_string()).message(),
        "I/O error: oops"
    );
    assert_eq!(
        PreprocessError::InvalidIncludeSyntax("#insert x".to_string()).message(),
        "Invalid include directive: #insert x"
    );
    assert_eq!(
        PreprocessError::IncludeNotFound("nope.glsl".to_string()).message(),
        "Included file not found: nope.glsl"
    );
}
