use strella::closure::ClosureBuilder;
use strella::closure::Diagnostic;
use strella::closure::FatalError;
use strella::lex::LexErrorKind;

/// Drives a closure computation over an in-memory file set: every read the
/// machine asks for is answered from `files`, and a path not in `files`
/// gets a read error, as a missing file would.
fn run(entry: &str, files: &[(&str, &str)]) -> ClosureBuilder {
    let mut builder = ClosureBuilder::new(entry.to_string());
    while let Some(path) = builder.next_path() {
        match files.iter().find(|(name, _)| *name == path) {
            Some((_, source)) => builder.supply_source(source),
            None => builder.supply_read_error("no such file".to_string()),
        }
    }
    builder
}

#[test]
fn single_import_is_resolved() {
    let b = run(
        "/r/a.lua",
        &[("/r/a.lua", "require \"b.lua\""), ("/r/b.lua", "local x = 1")],
    );
    assert!(b.fatal_error().is_none());
    assert_eq!(b.dependencies(), &vec!["/r/b.lua".to_string()]);
    assert_eq!(b.diagnostics().len(), 0);
}

#[test]
fn cyclic_imports_terminate_without_duplicates() {
    let b = run(
        "/r/a.lua",
        &[("/r/a.lua", "require \"b.lua\""), ("/r/b.lua", "require \"a.lua\"")],
    );
    assert!(b.fatal_error().is_none());
    assert_eq!(b.dependencies(), &vec!["/r/b.lua".to_string()]);
    assert_eq!(b.diagnostics().len(), 0);
}

#[test]
fn repeated_import_enters_the_set_once() {
    let b = run(
        "/r/a.lua",
        &[
            ("/r/a.lua", "require \"b.lua\"\nrequire \"b.lua\""),
            ("/r/b.lua", "require \"c.lua\""),
            ("/r/c.lua", "local done = true"),
        ],
    );
    assert!(b.fatal_error().is_none());
    assert_eq!(
        b.dependencies(),
        &vec!["/r/b.lua".to_string(), "/r/c.lua".to_string()],
    );
    assert_eq!(b.diagnostics().len(), 0);
}

#[test]
fn traversal_is_depth_first_in_source_order() {
    let b = run(
        "/r/a.lua",
        &[
            ("/r/a.lua", "require \"b.lua\"\nrequire \"c.lua\""),
            ("/r/b.lua", "require \"d.lua\""),
            ("/r/c.lua", "local x = 1"),
            ("/r/d.lua", "local x = 2"),
        ],
    );
    assert!(b.fatal_error().is_none());
    assert_eq!(
        b.dependencies(),
        &vec!["/r/b.lua".to_string(), "/r/d.lua".to_string(), "/r/c.lua".to_string()],
    );
}

#[test]
fn differently_spelled_paths_to_one_file_count_once() {
    let b = run(
        "/r/a.lua",
        &[
            ("/r/a.lua", "require \"b.lua\"\nrequire \"./b.lua\""),
            ("/r/b.lua", "local x = 1"),
        ],
    );
    assert!(b.fatal_error().is_none());
    assert_eq!(b.dependencies(), &vec!["/r/b.lua".to_string()]);
    assert_eq!(b.diagnostics().len(), 0);
}

#[test]
fn parent_segments_resolve_against_the_importer() {
    let b = run(
        "/r/sub/a.lua",
        &[("/r/sub/a.lua", "require \"../b.lua\""), ("/r/b.lua", "local x = 1")],
    );
    assert!(b.fatal_error().is_none());
    assert_eq!(b.dependencies(), &vec!["/r/b.lua".to_string()]);
}

#[test]
fn missing_file_is_diagnosed_not_fatal() {
    let b = run("/r/a.lua", &[("/r/a.lua", "require \"gone.lua\"")]);
    assert!(b.fatal_error().is_none());
    assert_eq!(b.dependencies().len(), 0);
    assert_eq!(b.diagnostics().len(), 1);
    match &b.diagnostics()[0] {
        Diagnostic::UnreadableImport { importer, candidate, error } => {
            assert_eq!(importer, "/r/a.lua");
            assert_eq!(candidate, "/r/gone.lua");
            assert_eq!(error, "no such file");
        }
        other => panic!("unexpected diagnostic: {:?}", other),
    }
}

#[test]
fn wrong_extension_is_diagnosed_not_fatal() {
    let b = run(
        "/r/a.lua",
        &[("/r/a.lua", "require \"b.txt\""), ("/r/b.txt", "local x = 1")],
    );
    assert!(b.fatal_error().is_none());
    assert_eq!(b.dependencies().len(), 0);
    assert_eq!(b.diagnostics().len(), 1);
    match &b.diagnostics()[0] {
        Diagnostic::WrongExtension { importer, candidate } => {
            assert_eq!(importer, "/r/a.lua");
            assert_eq!(candidate, "/r/b.txt");
        }
        other => panic!("unexpected diagnostic: {:?}", other),
    }
}

#[test]
fn unsupported_call_is_diagnosed() {
    let b = run("/r/a.lua", &[("/r/a.lua", "require(mod)")]);
    assert!(b.fatal_error().is_none());
    assert_eq!(b.dependencies().len(), 0);
    assert_eq!(b.diagnostics().len(), 1);
    match &b.diagnostics()[0] {
        Diagnostic::UnsupportedCall { importer } => {
            assert_eq!(importer, "/r/a.lua");
        }
        other => panic!("unexpected diagnostic: {:?}", other),
    }
}

#[test]
fn closure_is_idempotent_over_an_immutable_file_set() {
    let files = [
        ("/r/a.lua", "require \"b.lua\"\nrequire \"c.lua\""),
        ("/r/b.lua", "require \"c.lua\""),
        ("/r/c.lua", "require \"a.lua\""),
    ];
    let first = run("/r/a.lua", &files);
    let second = run("/r/a.lua", &files);
    assert_eq!(first.dependencies(), second.dependencies());
    assert_eq!(first.diagnostics().len(), second.diagnostics().len());
    assert_eq!(
        first.dependencies(),
        &vec!["/r/b.lua".to_string(), "/r/c.lua".to_string()],
    );
}

#[test]
fn entry_read_failure_is_fatal() {
    let b = run("/r/a.lua", &[]);
    match b.fatal_error() {
        Some(FatalError::EntryUnreadable { error }) => {
            assert_eq!(error, "no such file");
        }
        other => panic!("unexpected outcome: {:?}", other),
    }
    assert_eq!(b.dependencies().len(), 0);
}

#[test]
fn entry_without_lua_extension_is_fatal() {
    let b = run("/r/a.txt", &[("/r/a.txt", "require \"b.lua\"")]);
    match b.fatal_error() {
        Some(FatalError::EntryNotLua { path }) => {
            assert_eq!(path, "/r/a.txt");
        }
        other => panic!("unexpected outcome: {:?}", other),
    }
}

#[test]
fn lexer_failure_on_an_import_is_fatal() {
    let b = run(
        "/r/a.lua",
        &[("/r/a.lua", "require \"b.lua\""), ("/r/b.lua", "local s = \"oops")],
    );
    match b.fatal_error() {
        Some(FatalError::LexerFailed { file, kind, .. }) => {
            assert_eq!(file, "/r/b.lua");
            assert_eq!(*kind, LexErrorKind::UnfinishedString);
        }
        other => panic!("unexpected outcome: {:?}", other),
    }
}

#[test]
fn malformed_number_in_the_entry_is_fatal() {
    let b = run("/r/a.lua", &[("/r/a.lua", "local n = 3a")]);
    match b.fatal_error() {
        Some(FatalError::LexerFailed { file, kind, .. }) => {
            assert_eq!(file, "/r/a.lua");
            assert_eq!(*kind, LexErrorKind::MalformedNumber);
        }
        other => panic!("unexpected outcome: {:?}", other),
    }
}

#[test]
fn unexpected_symbol_in_the_entry_is_fatal() {
    let b = run("/r/a.lua", &[("/r/a.lua", "local q = ?")]);
    match b.fatal_error() {
        Some(FatalError::LexerFailed { file, kind, .. }) => {
            assert_eq!(file, "/r/a.lua");
            assert_eq!(*kind, LexErrorKind::UnexpectedSymbol);
        }
        other => panic!("unexpected outcome: {:?}", other),
    }
}

#[test]
fn truncated_call_is_fatal() {
    let b = run("/r/a.lua", &[("/r/a.lua", "require((")]);
    match b.fatal_error() {
        Some(FatalError::TruncatedCall { file }) => {
            assert_eq!(file, "/r/a.lua");
        }
        other => panic!("unexpected outcome: {:?}", other),
    }
}

#[test]
fn comments_do_not_hide_or_invent_imports() {
    let b = run(
        "/r/a.lua",
        &[
            ("/r/a.lua", "require --[[ why ]] \"b.lua\"\n-- require \"c.lua\"\n"),
            ("/r/b.lua", "-- nothing here"),
        ],
    );
    assert!(b.fatal_error().is_none());
    assert_eq!(b.dependencies(), &vec!["/r/b.lua".to_string()]);
    assert_eq!(b.diagnostics().len(), 0);
}

#[test]
fn import_paths_resolve_relative_to_the_importer() {
    let b = run(
        "/r/sub/a.lua",
        &[("/r/sub/a.lua", "require \"b.lua\""), ("/r/sub/b.lua", "local x = 1")],
    );
    assert!(b.fatal_error().is_none());
    assert_eq!(b.dependencies(), &vec!["/r/sub/b.lua".to_string()]);
}

#[test]
fn relative_entry_resolves_siblings_without_a_directory() {
    let b = run(
        "a.lua",
        &[("a.lua", "require \"b.lua\""), ("b.lua", "local x = 1")],
    );
    assert!(b.fatal_error().is_none());
    assert_eq!(b.dependencies(), &vec!["b.lua".to_string()]);
}
