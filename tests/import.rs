use gn_import::emit::{import, ImportError};
use gn_import::lexer::{tokenize, TokenKind};
use gn_import::mangle::{gn_string_hash, hash_suffix_of, join_name_and_suffix, mangle_crate_name};
use gn_import::parser::{parse_imports, ParseErrorKind, Visibility};
use gn_import::path::{GnTarget, PathError};
use gn_import::render::render;

fn resolve_err(path: &str) -> PathError {
    match GnTarget::parse(path.as_bytes()) {
        Ok(_) => panic!("path {path} was accepted"),
        Err(e) => e,
    }
}

#[test]
fn mangle_known_vector() {
    let name = mangle_crate_name(b"//build/rust/chromium_prelude", b"import_test_lib");
    assert_eq!(name, b"import_test_lib_8086ab2e".to_vec());
}

#[test]
fn string_hash_known_vector() {
    assert_eq!(gn_string_hash(b"//build/rust/chromium_prelude"), b"8086ab2e".to_vec());
}

#[test]
fn string_hash_differs_by_input() {
    assert_ne!(gn_string_hash(b"//a/b"), gn_string_hash(b"//a/c"));
    assert_eq!(gn_string_hash(b"//a/b").len(), 8);
}

#[test]
fn mangle_is_repeatable() {
    let a = mangle_crate_name(b"//a/b", b"c");
    let b = mangle_crate_name(b"//a/b", b"c");
    assert_eq!(a, b);
    assert!(a.starts_with(b"c_"));
    assert_eq!(a.len(), 10);
}

#[test]
fn mangle_hashes_directory_only() {
    let a = mangle_crate_name(b"//a/b", b"x");
    let b = mangle_crate_name(b"//a/b", b"y");
    assert_eq!(a[2..], b[2..]);
}

#[test]
fn hash_suffix_is_lowercase_hex() {
    assert_eq!(hash_suffix_of(&[0x00, 0x9f, 0xab, 0x10, 0xff]), b"009fab10".to_vec());
}

#[test]
fn join_uses_underscore() {
    assert_eq!(join_name_and_suffix(b"lib", b"0123abcd"), b"lib_0123abcd".to_vec());
}

#[test]
fn resolve_with_target_name() {
    let t = GnTarget::parse(b"//build/rust/chromium_prelude:import_test_lib").unwrap();
    assert_eq!(t.directory, b"//build/rust/chromium_prelude".to_vec());
    assert_eq!(t.gn_name, b"import_test_lib".to_vec());
    assert_eq!(t.mangled_crate_name, b"import_test_lib_8086ab2e".to_vec());
}

#[test]
fn resolve_self_named() {
    let t = GnTarget::parse(b"//a/b").unwrap();
    assert_eq!(t.directory, b"//a/b".to_vec());
    assert_eq!(t.gn_name, b"b".to_vec());
    assert_eq!(t.mangled_crate_name, mangle_crate_name(b"//a/b", b"b"));
}

#[test]
fn resolve_single_segment() {
    let t = GnTarget::parse(b"//base").unwrap();
    assert_eq!(t.directory, b"//base".to_vec());
    assert_eq!(t.gn_name, b"base".to_vec());
}

#[test]
fn resolve_not_absolute() {
    assert_eq!(resolve_err("a/b:c"), PathError::NotAbsolutePath);
    assert_eq!(resolve_err("/a/b:c"), PathError::NotAbsolutePath);
    assert_eq!(resolve_err(""), PathError::NotAbsolutePath);
}

#[test]
fn resolve_empty_segment() {
    assert_eq!(resolve_err("//a//b:c"), PathError::EmptySegment);
    assert_eq!(resolve_err("//a/:c"), PathError::EmptySegment);
    assert_eq!(resolve_err("//"), PathError::EmptySegment);
    assert_eq!(resolve_err("//a/"), PathError::EmptySegment);
}

#[test]
fn resolve_colon_in_directory() {
    assert_eq!(resolve_err("//a:b/c:d"), PathError::UnexpectedColon);
    assert_eq!(resolve_err("//a/b:x/c"), PathError::UnexpectedColon);
}

#[test]
fn resolve_protected_namespace() {
    assert_eq!(resolve_err("//third_party/rust/serde:lib"), PathError::ProtectedNamespace);
    assert_eq!(resolve_err("//third_party/rust:serde"), PathError::ProtectedNamespace);
    assert_eq!(resolve_err("//third_party/rust"), PathError::ProtectedNamespace);
    assert!(GnTarget::parse(b"//third_party/other:x").is_ok());
    assert!(GnTarget::parse(b"//rust/third_party:x").is_ok());
}

#[test]
fn resolve_invalid_target_name() {
    assert_eq!(resolve_err("//a/b:"), PathError::InvalidTargetName);
    assert_eq!(resolve_err("//a:1x"), PathError::InvalidTargetName);
    assert_eq!(resolve_err("//a:b:c"), PathError::InvalidTargetName);
    assert_eq!(resolve_err("//a/b-c"), PathError::InvalidTargetName);
}

#[test]
fn target_names_follow_rust_identifiers() {
    assert!(GnTarget::parse(b"//a:_x1").is_ok());
    assert!(GnTarget::parse(b"//a:Abc").is_ok());
    assert!(GnTarget::parse("//a:caf\u{e9}".as_bytes()).is_ok());
    assert_eq!(resolve_err("//a:type"), PathError::InvalidTargetName);
    assert_eq!(resolve_err("//a:_"), PathError::InvalidTargetName);
    assert_eq!(resolve_err("//a:9a"), PathError::InvalidTargetName);
    assert_eq!(resolve_err("//a/self"), PathError::InvalidTargetName);
}

#[test]
fn keyword_alias_rejected() {
    let e = parse_imports(b"\"//a:b\" as type").unwrap_err();
    assert_eq!(e.kind, ParseErrorKind::ExpectedAliasIdentifier);
    assert_eq!(e.pos, 11);
    let e = parse_imports(b"\"//a:b\" as _").unwrap_err();
    assert_eq!(e.kind, ParseErrorKind::ExpectedAliasIdentifier);
}

#[test]
fn tokens_of_statement() {
    let text = b"pub(crate) \"//a\" as x; // note\n7";
    let kinds: Vec<TokenKind> = tokenize(text).iter().map(|t| t.kind).collect();
    assert_eq!(
        kinds,
        vec![
            TokenKind::Ident,
            TokenKind::OpenParen,
            TokenKind::Ident,
            TokenKind::CloseParen,
            TokenKind::Str,
            TokenKind::Ident,
            TokenKind::Ident,
            TokenKind::Semi,
            TokenKind::Number,
        ]
    );
}

#[test]
fn trailing_terminator_optional() {
    let a = parse_imports(b"\"//x:a\"; \"//y:b\"").unwrap();
    let b = parse_imports(b"\"//x:a\"; \"//y:b\";").unwrap();
    assert_eq!(a, b);
    assert_eq!(a.len(), 2);
}

#[test]
fn doubled_terminator_rejected() {
    let e = parse_imports(b"\"//x:a\";;").unwrap_err();
    assert_eq!(e.kind, ParseErrorKind::ExpectedPathLiteral);
    assert_eq!(e.pos, 8);
}

#[test]
fn empty_list() {
    assert_eq!(parse_imports(b"").unwrap().len(), 0);
    assert_eq!(parse_imports(b"  // nothing\n").unwrap().len(), 0);
    assert_eq!(import(b"").unwrap().len(), 0);
}

#[test]
fn visibilities_parsed() {
    let cases: [(&[u8], Visibility); 4] = [
        (b"\"//a:b\"", Visibility::Private),
        (b"pub \"//a:b\"", Visibility::Public),
        (b"pub(crate) \"//a:b\"", Visibility::PublicCrate),
        (b"pub(super) \"//a:b\"", Visibility::PublicSuper),
    ];
    for (text, vis) in cases {
        let imps = parse_imports(text).unwrap();
        assert_eq!(imps[0].visibility, vis);
        let decls = import(text).unwrap();
        assert_eq!(decls[0].visibility, vis);
    }
}

#[test]
fn alias_parsed() {
    let text = b"\"//a:b\" as foo";
    let imps = parse_imports(text).unwrap();
    let alias = imps[0].alias.unwrap();
    assert_eq!(&text[alias.start..alias.end], b"foo");
    assert_eq!(&text[imps[0].path.start..imps[0].path.end], b"//a:b");
    assert_eq!(imps[0].path_pos, 0);
}

#[test]
fn alias_does_not_change_crate_name() {
    let plain = import(b"\"//a:b\"").unwrap();
    let aliased = import(b"\"//a:b\" as foo").unwrap();
    assert_eq!(plain[0].crate_name, aliased[0].crate_name);
    assert_eq!(plain[0].local_name, b"b".to_vec());
    assert_eq!(aliased[0].local_name, b"foo".to_vec());
}

#[test]
fn non_string_literal_rejected() {
    let e = parse_imports(b"42").unwrap_err();
    assert_eq!(e.kind, ParseErrorKind::ExpectedPathLiteral);
    assert_eq!(e.pos, 0);
    let e = parse_imports(b"pub true").unwrap_err();
    assert_eq!(e.kind, ParseErrorKind::ExpectedPathLiteral);
    assert_eq!(e.pos, 4);
    let e = parse_imports(b"\"//a:b").unwrap_err();
    assert_eq!(e.kind, ParseErrorKind::ExpectedPathLiteral);
}

#[test]
fn missing_alias_rejected() {
    let e = parse_imports(b"\"//a:b\" as ;").unwrap_err();
    assert_eq!(e.kind, ParseErrorKind::ExpectedAliasIdentifier);
    assert_eq!(e.pos, 11);
    let e = parse_imports(b"\"//a:b\" as").unwrap_err();
    assert_eq!(e.kind, ParseErrorKind::ExpectedAliasIdentifier);
    assert_eq!(e.pos, 10);
}

#[test]
fn missing_terminator_rejected() {
    let e = parse_imports(b"\"//a:b\" \"//c:d\"").unwrap_err();
    assert_eq!(e.kind, ParseErrorKind::UnterminatedImportList);
    assert_eq!(e.pos, 8);
}

#[test]
fn end_to_end_alias() {
    let decls = import(b"\"//a/b:c\" as d;").unwrap();
    assert_eq!(decls.len(), 1);
    assert_eq!(decls[0].visibility, Visibility::Private);
    assert_eq!(decls[0].crate_name, mangle_crate_name(b"//a/b", b"c"));
    assert_eq!(decls[0].local_name, b"d".to_vec());
}

#[test]
fn end_to_end_order_and_duplicates() {
    let decls = import(b"\"//x:a\"; pub \"//x:a\" as b; \"//y\"").unwrap();
    assert_eq!(decls.len(), 3);
    assert_eq!(decls[0].crate_name, decls[1].crate_name);
    assert_eq!(decls[1].local_name, b"b".to_vec());
    assert_eq!(decls[2].local_name, b"y".to_vec());
}

#[test]
fn end_to_end_comment_and_no_terminator() {
    let text = b"\"//build/rust/chromium_prelude:import_test_lib\"  // no semi-colon here\n";
    let decls = import(text).unwrap();
    assert_eq!(decls.len(), 1);
    assert_eq!(decls[0].crate_name, b"import_test_lib_8086ab2e".to_vec());
    assert_eq!(decls[0].local_name, b"import_test_lib".to_vec());
}

#[test]
fn end_to_end_path_error_aborts() {
    let e = import(b"\"//a:b\"; \"//third_party/rust:x\"; 1").unwrap_err();
    assert_eq!(e, ImportError::Syntax(gn_import::parser::ParseError {
        kind: ParseErrorKind::ExpectedPathLiteral,
        pos: 33,
    }));
    let e = import(b"\"//a:b\"; \"//third_party/rust:x\"").unwrap_err();
    assert_eq!(e, ImportError::InvalidPath { error: PathError::ProtectedNamespace, pos: 9 });
}

#[test]
fn render_lines() {
    let decls = import(b"pub(crate) \"//build/rust/chromium_prelude:import_test_lib\" as library; \"//a\"").unwrap();
    let text = String::from_utf8(render(&decls)).unwrap();
    let lines: Vec<&str> = text.lines().collect();
    assert_eq!(lines.len(), 2);
    assert!(lines[0].starts_with("pub(crate) "));
    assert!(lines[0].ends_with(" crate import_test_lib_8086ab2e as library;"));
    assert!(lines[1].ends_with(&format!(" crate {} as a;", String::from_utf8(mangle_crate_name(b"//a", b"a")).unwrap())));
    assert!(!lines[1].starts_with("pub"));
}

#[test]
fn trailing_terminator_after_alias_and_comment() {
    let a = parse_imports(b"pub \"//x:a\" as m; \"//y:b\" as n").unwrap();
    let b = parse_imports(b"pub \"//x:a\" as m; \"//y:b\" as n;").unwrap();
    assert_eq!(a, b);
    let c = parse_imports(b"\"//x:a\" // last").unwrap();
    let d = parse_imports(b"\"//x:a\" // last;").unwrap();
    assert_eq!(c, d);
    assert_eq!(c.len(), 1);
}

#[test]
fn lone_terminator_rejected() {
    let e = parse_imports(b";").unwrap_err();
    assert_eq!(e.kind, ParseErrorKind::ExpectedPathLiteral);
    assert_eq!(e.pos, 0);
}
