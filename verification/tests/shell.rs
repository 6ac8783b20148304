use gwae::shell::shell_split;

#[test]
fn shell_split_splits_on_whitespace_and_keeps_quoted_spaces() {
    assert_eq!(shell_split("jcode --resume"), vec!["jcode", "--resume"]);
    assert_eq!(
        shell_split("\"/Applications/My App/gwae\" agent"),
        vec!["/Applications/My App/gwae", "agent"]
    );
    assert_eq!(shell_split("  a\t\tb  "), vec!["a", "b"]);
    assert_eq!(shell_split(""), Vec::<String>::new());
    assert_eq!(shell_split("   "), Vec::<String>::new());
}

#[test]
fn shell_split_treats_either_quote_as_a_toggle() {
    assert_eq!(shell_split("echo 'a b\" c"), vec!["echo", "a b", "c"]);
    assert_eq!(shell_split("x\"\"y"), vec!["xy"]);
    assert_eq!(shell_split("\"\" a"), vec!["a"]);
    // An unclosed quote runs to the end of the line.
    assert_eq!(shell_split("say 'hello world"), vec!["say", "hello world"]);
}

#[test]
fn unquoted_lines_split_like_split_whitespace() {
    for line in ["cargo  test --workspace", "\tls -la\n", "", "   ", "one"] {
        let plain: Vec<String> = line.split_whitespace().map(String::from).collect();
        assert_eq!(shell_split(line), plain, "{line:?}");
    }
    let words = vec!["vim".to_string(), "-u".to_string(), "NONE".to_string()];
    assert_eq!(shell_split(&words.join(" ")), words);
}
