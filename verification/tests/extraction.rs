use quill::{extract_scope, QuillError, Scope};

const SAMPLE: &str = "
title = \"App\"

@dev
debug = true

@prod
optimized = true

@dev @test
extra_checks = true

@global
do_tests = true";

fn joined(lines: &[&str]) -> String {
    lines.join("\n")
}

#[test]
fn extracts_dev_from_the_sample() {
    let dev = extract_scope(SAMPLE, Scope::DefinedScope("dev")).unwrap();
    assert_eq!(
        dev,
        "\ntitle = \"App\"\n\n\ndebug = true\n\n\n\n\n\nextra_checks = true\n\n\ndo_tests = true"
    );
    assert_eq!(
        dev,
        joined(&[
            "",
            "title = \"App\"",
            "",
            "",
            "debug = true",
            "",
            "",
            "",
            "",
            "",
            "extra_checks = true",
            "",
            "",
            "do_tests = true",
        ])
    );
    assert!(!dev.ends_with('\n'));
}

#[test]
fn extracts_prod_from_the_sample() {
    let prod = extract_scope(SAMPLE, Scope::DefinedScope("prod")).unwrap();
    assert_eq!(
        prod,
        joined(&[
            "",
            "title = \"App\"",
            "",
            "",
            "",
            "",
            "",
            "optimized = true",
            "",
            "",
            "",
            "",
            "",
            "do_tests = true",
        ])
    );
}

#[test]
fn extracts_test_from_the_sample() {
    let test = extract_scope(SAMPLE, Scope::DefinedScope("test")).unwrap();
    assert_eq!(
        test,
        joined(&[
            "",
            "title = \"App\"",
            "",
            "",
            "",
            "",
            "",
            "",
            "",
            "",
            "extra_checks = true",
            "",
            "",
            "do_tests = true",
        ])
    );
}

#[test]
fn extracts_global_from_the_sample() {
    let global = extract_scope(SAMPLE, Scope::Global).unwrap();
    assert_eq!(
        global,
        joined(&[
            "",
            "title = \"App\"",
            "",
            "",
            "debug = true",
            "",
            "",
            "optimized = true",
            "",
            "",
            "extra_checks = true",
            "",
            "",
            "do_tests = true",
        ])
    );
}

#[test]
fn the_name_global_is_the_global_scope() {
    let by_name = extract_scope(SAMPLE, Scope::DefinedScope("global")).unwrap();
    let by_variant = extract_scope(SAMPLE, Scope::Global).unwrap();
    assert_eq!(by_name, by_variant);
}

#[test]
fn an_undeclared_scope_sees_only_global_content() {
    let staging = extract_scope(SAMPLE, Scope::DefinedScope("staging")).unwrap();
    assert_eq!(
        staging,
        joined(&["", "title = \"App\"", "", "", "", "", "", "", "", "", "", "", "", "do_tests = true"])
    );
}

#[test]
fn trailing_newline_is_kept_when_present() {
    let text = "a = 1\n@dev\nb = 2\n";
    assert_eq!(extract_scope(text, Scope::DefinedScope("dev")).unwrap(), "a = 1\n\nb = 2\n");
    assert_eq!(extract_scope(text, Scope::DefinedScope("prod")).unwrap(), "a = 1\n\n\n");
}

#[test]
fn trailing_newline_is_absent_when_absent() {
    let text = "a = 1\n@dev\nb = 2";
    assert_eq!(extract_scope(text, Scope::DefinedScope("dev")).unwrap(), "a = 1\n\nb = 2");
}

#[test]
fn empty_text_gives_empty_text() {
    assert_eq!(extract_scope("", Scope::Global).unwrap(), "");
    assert_eq!(extract_scope("", Scope::DefinedScope("dev")).unwrap(), "");
}

#[test]
fn a_single_newline_stays() {
    assert_eq!(extract_scope("\n", Scope::DefinedScope("dev")).unwrap(), "\n");
    assert_eq!(extract_scope("\n\n", Scope::DefinedScope("dev")).unwrap(), "\n\n");
}

#[test]
fn text_without_declarations_is_kept_whole() {
    let text = "  a = 1  \n\tb = \"@not a scope\"\n\nc = [1, 2]\n";
    assert_eq!(extract_scope(text, Scope::DefinedScope("dev")).unwrap(), text);
    assert_eq!(extract_scope(text, Scope::Global).unwrap(), text);
}

#[test]
fn kept_lines_stay_verbatim() {
    let text = "@dev\n   key = \"v\" # note  \t\n";
    assert_eq!(
        extract_scope(text, Scope::DefinedScope("dev")).unwrap(),
        "\n   key = \"v\" # note  \t\n"
    );
}

#[test]
fn declaration_may_be_indented_and_carry_commentary() {
    let text = "  \t@dev   for developers only\nx = 1\n";
    assert_eq!(extract_scope(text, Scope::DefinedScope("dev")).unwrap(), "\nx = 1\n");
    assert_eq!(extract_scope(text, Scope::DefinedScope("for")).unwrap(), "\n\n");
}

#[test]
fn an_at_sign_inside_a_line_declares_nothing() {
    let text = "@dev\nmail = me @home!\nx = 1\n";
    assert_eq!(
        extract_scope(text, Scope::DefinedScope("dev")).unwrap(),
        "\nmail = me @home!\nx = 1\n"
    );
    assert_eq!(extract_scope(text, Scope::DefinedScope("home")).unwrap(), "\n\n\n");
}

#[test]
fn declaring_two_scopes_serves_both() {
    let text = "@a @b\nshared = 1\n";
    assert_eq!(extract_scope(text, Scope::DefinedScope("a")).unwrap(), "\nshared = 1\n");
    assert_eq!(extract_scope(text, Scope::DefinedScope("b")).unwrap(), "\nshared = 1\n");
    assert_eq!(extract_scope(text, Scope::DefinedScope("c")).unwrap(), "\n\n");
}

#[test]
fn declaring_global_beside_a_scope_serves_everyone() {
    let text = "@a @global\nshared = 1\n";
    assert_eq!(extract_scope(text, Scope::DefinedScope("c")).unwrap(), "\nshared = 1\n");
}

#[test]
fn a_declaration_replaces_the_one_before() {
    let text = "@dev @test\na = 1\n@dev\nb = 2\n@test\nc = 3\n";
    assert_eq!(
        extract_scope(text, Scope::DefinedScope("test")).unwrap(),
        "\na = 1\n\n\n\nc = 3\n"
    );
    assert_eq!(
        extract_scope(text, Scope::DefinedScope("dev")).unwrap(),
        "\na = 1\n\nb = 2\n\n\n"
    );
}

#[test]
fn a_scope_may_be_declared_again() {
    let text = "@dev\na = 1\n@prod\nb = 2\n@dev\nc = 3\n";
    assert_eq!(
        extract_scope(text, Scope::DefinedScope("dev")).unwrap(),
        "\na = 1\n\n\n\nc = 3\n"
    );
}

#[test]
fn names_may_hold_digits_underscores_and_dashes() {
    let text = "@my_scope-2\nx = 1\n";
    assert_eq!(extract_scope(text, Scope::DefinedScope("my_scope-2")).unwrap(), "\nx = 1\n");
    assert_eq!(extract_scope(text, Scope::DefinedScope("my_scope")).unwrap(), "\n\n");
}

#[test]
fn carriage_returns_before_line_feeds_are_dropped() {
    let text = "a = 1\r\n@dev\r\nb = 2\r\n";
    assert_eq!(extract_scope(text, Scope::DefinedScope("dev")).unwrap(), "a = 1\n\nb = 2\n");
    assert_eq!(extract_scope(text, Scope::DefinedScope("prod")).unwrap(), "a = 1\n\n\n");
}

#[test]
fn other_carriage_returns_stay() {
    assert_eq!(extract_scope("a\rb\n", Scope::Global).unwrap(), "a\rb\n");
    assert_eq!(extract_scope("a\r", Scope::Global).unwrap(), "a\r");
    assert_eq!(extract_scope("a\r\r\n", Scope::Global).unwrap(), "a\r\n");
}

#[test]
fn a_declaration_may_end_with_a_carriage_return() {
    assert_eq!(extract_scope("@dev\r\nx\r\n", Scope::DefinedScope("dev")).unwrap(), "\nx\n");
    assert_eq!(extract_scope("@dev\r", Scope::DefinedScope("dev")).unwrap(), "");
}

#[test]
fn a_blank_last_line_without_newline_leaves_nothing() {
    assert_eq!(extract_scope("@dev\nfoo", Scope::DefinedScope("prod")).unwrap(), "\n");
    assert_eq!(extract_scope("a\n@dev", Scope::Global).unwrap(), "a\n");
    assert_eq!(extract_scope("@dev", Scope::Global).unwrap(), "");
}

#[test]
fn unicode_content_is_kept() {
    let text = "name = \"Zoë ✓\"\n@dev\nπ = 3\n";
    assert_eq!(
        extract_scope(text, Scope::DefinedScope("dev")).unwrap(),
        "name = \"Zoë ✓\"\n\nπ = 3\n"
    );
}

#[test]
fn unicode_white_space_may_stand_before_a_declaration() {
    let text = "\u{3000}\u{a0}@dev\nx = 1\n";
    assert_eq!(extract_scope(text, Scope::DefinedScope("dev")).unwrap(), "\nx = 1\n");
    assert_eq!(extract_scope(text, Scope::DefinedScope("prod")).unwrap(), "\n\n");
}

#[test]
fn unicode_white_space_separates_names() {
    let text = "@a\u{2003}@b\nx = 1\n";
    assert_eq!(extract_scope(text, Scope::DefinedScope("b")).unwrap(), "\nx = 1\n");
}

#[test]
fn a_zero_width_space_is_no_white_space() {
    let text = "\u{200b}@dev\nx = 1\n";
    assert_eq!(extract_scope(text, Scope::DefinedScope("prod")).unwrap(), text);
}

#[test]
fn a_valid_first_name_does_not_excuse_a_later_one() {
    let err = extract_scope("@good @bad!\n", Scope::Global).unwrap_err();
    assert_eq!(err, QuillError::InvalidScopeName { scope: "bad!".to_string(), line: 1, column: 1 });
}

#[test]
fn words_without_at_sign_are_commentary() {
    let text = "@bad scope!\nx = 1\n";
    assert_eq!(extract_scope(text, Scope::DefinedScope("bad")).unwrap(), "\nx = 1\n");
}

#[test]
fn a_lone_at_sign_stands_under_the_scopes_in_effect() {
    let text = "@\n@dev\n@\n  @ note\n@global\n@\n";
    assert_eq!(
        extract_scope(text, Scope::DefinedScope("dev")).unwrap(),
        "@\n\n@\n  @ note\n\n@\n"
    );
    assert_eq!(extract_scope(text, Scope::DefinedScope("prod")).unwrap(), "@\n\n\n\n\n@\n");
    assert_eq!(extract_scope(text, Scope::Global).unwrap(), "@\n\n@\n  @ note\n\n@\n");
}

#[test]
fn a_lone_at_sign_changes_no_scope() {
    let text = "@dev\na\n@\nb\n";
    assert_eq!(extract_scope(text, Scope::DefinedScope("dev")).unwrap(), "\na\n@\nb\n");
    assert_eq!(extract_scope(text, Scope::DefinedScope("prod")).unwrap(), "\n\n\n\n");
}

#[test]
fn scope_converts_from_and_into_names() {
    let scope: Scope = "dev".into();
    let name: &str = scope.into();
    assert_eq!(name, "dev");
    let name: &str = Scope::Global.into();
    assert_eq!(name, "global");
    let name: &str = Scope::from("prod").into();
    assert_eq!(name, "prod");
    assert_eq!(
        extract_scope("@dev\nx\n", Scope::from("dev")).unwrap(),
        extract_scope("@dev\nx\n", Scope::DefinedScope("dev")).unwrap()
    );
}
