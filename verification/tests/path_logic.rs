use strella::paths::has_lua_extension;
use strella::paths::join_path;
use strella::token::filter_comments;
use strella::token::Token;
use strella::token::TokenKind;

#[test]
fn join_keeps_the_importer_directory() {
    assert_eq!(join_path("/r/a.lua", "b.lua"), "/r/b.lua");
    assert_eq!(join_path("r/sub/a.lua", "b.lua"), "r/sub/b.lua");
}

#[test]
fn join_with_no_directory_yields_the_literal() {
    assert_eq!(join_path("a.lua", "b.lua"), "b.lua");
}

#[test]
fn join_at_the_root_keeps_the_root() {
    assert_eq!(join_path("/a.lua", "b.lua"), "/b.lua");
}

#[test]
fn join_keeps_subdirectories_of_the_literal() {
    assert_eq!(join_path("/r/a.lua", "sub/b.lua"), "/r/sub/b.lua");
}

#[test]
fn lua_extension_is_recognized() {
    assert!(has_lua_extension("x.lua"));
    assert!(has_lua_extension("/r/sub/x.lua"));
    assert!(has_lua_extension("a.b.lua"));
}

#[test]
fn other_extensions_are_rejected() {
    assert!(!has_lua_extension("x.txt"));
    assert!(!has_lua_extension("x.luax"));
    assert!(!has_lua_extension("xlua"));
}

#[test]
fn hidden_file_named_only_lua_has_no_extension() {
    assert!(!has_lua_extension(".lua"));
    assert!(!has_lua_extension("/r/.lua"));
}

#[test]
fn extension_belongs_to_the_file_name_not_the_directory() {
    assert!(!has_lua_extension("a.lua/b"));
}

#[test]
fn normalization_folds_dot_segments_and_doubled_separators() {
    assert_eq!(strella::paths::normalize_path("/r/./b.lua"), "/r/b.lua");
    assert_eq!(strella::paths::normalize_path("r//b.lua"), "r/b.lua");
    assert_eq!(strella::paths::normalize_path("./b.lua"), "b.lua");
}

#[test]
fn normalization_resolves_parent_segments() {
    assert_eq!(strella::paths::normalize_path("/r/sub/../b.lua"), "/r/b.lua");
    assert_eq!(strella::paths::normalize_path("a/../../b.lua"), "../b.lua");
    assert_eq!(strella::paths::normalize_path("/../b.lua"), "/b.lua");
}

#[test]
fn normalization_keeps_plain_paths_as_they_are() {
    assert_eq!(strella::paths::normalize_path("/r/b.lua"), "/r/b.lua");
    assert_eq!(strella::paths::normalize_path("b.lua"), "b.lua");
    assert_eq!(strella::paths::normalize_path("/"), "/");
}

#[test]
fn comment_filter_drops_comments_and_keeps_order() {
    let tokens = vec![
        Token { kind: TokenKind::Identifier, text: "require".to_string() },
        Token { kind: TokenKind::Comment, text: "-- note".to_string() },
        Token { kind: TokenKind::StringLiteral, text: "\"b.lua\"".to_string() },
    ];
    let kept = filter_comments(&tokens);
    assert_eq!(kept.len(), 2);
    assert_eq!(kept[0].kind, TokenKind::Identifier);
    assert_eq!(kept[0].text, "require");
    assert_eq!(kept[1].kind, TokenKind::StringLiteral);
    assert_eq!(kept[1].text, "\"b.lua\"");
}

#[test]
fn comment_filter_keeps_a_comment_free_stream_whole() {
    let tokens = vec![
        Token { kind: TokenKind::Identifier, text: "print".to_string() },
        Token { kind: TokenKind::Symbol, text: "(".to_string() },
        Token { kind: TokenKind::Symbol, text: ")".to_string() },
    ];
    let kept = filter_comments(&tokens);
    assert_eq!(kept.len(), 3);
}
