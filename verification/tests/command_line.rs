use win_app_delete_controller::command_line::{join_command_line, split_command_line};

fn strings(parts: &[&str]) -> Vec<String> {
    parts.iter().map(|part| part.to_string()).collect()
}

#[test]
fn splits_on_whitespace_outside_quotes() {
    let tokens = split_command_line(r#"  "C:\Program Files\App\uninstall.exe" /S   /remove  "#);
    assert_eq!(
        tokens,
        strings(&[r"C:\Program Files\App\uninstall.exe", "/S", "/remove"])
    );
}

#[test]
fn split_of_blank_line_is_empty() {
    assert!(split_command_line("   \t ").is_empty());
    assert!(split_command_line("").is_empty());
}

#[test]
fn split_drops_quotes_and_keeps_quoted_spaces() {
    assert_eq!(split_command_line(r#"a"b c"d e"#), strings(&["ab cd", "e"]));
    assert_eq!(split_command_line(r#""" x"#), strings(&["x"]));
}

#[test]
fn joins_with_quotes_where_needed() {
    let line = join_command_line(&strings(&[r"C:\Program Files\x.exe", "/X{A}", r#"say"hi"#]));
    assert_eq!(line, r#""C:\Program Files\x.exe" /X{A} "say\"hi""#);
    assert_eq!(join_command_line(&[]), "");
}

#[test]
fn split_undoes_join_for_plain_tokens() {
    let tokens = strings(&[r"C:\Program Files\App\u.exe", "/I{ABC}", "two words", "x"]);
    assert_eq!(split_command_line(&join_command_line(&tokens)), tokens);
}
