use sway_switcher::candidate::{escape_title_exec, SwitchType};

#[test]
fn launch_dispatches_exec_verbatim() {
    let c = SwitchType::Launch("foo".to_string());
    assert_eq!(c.command(), Some("exec foo".to_string()));
}

#[test]
fn focus_escapes_parens_and_colon() {
    let c = SwitchType::Focus(None, Some("App (1:2)".to_string()));
    assert_eq!(c.command(), Some("[title=\"App \\(1\\:2\\)\"] focus".to_string()));
}

#[test]
fn focus_plain_title_unchanged() {
    let c = SwitchType::Focus(Some("term".to_string()), Some("plain title".to_string()));
    assert_eq!(c.command(), Some("[title=\"plain title\"] focus".to_string()));
}

#[test]
fn focus_every_special_char_escaped() {
    let c = SwitchType::Focus(None, Some("():".to_string()));
    assert_eq!(c.command(), Some("[title=\"\\(\\)\\:\"] focus".to_string()));
}

#[test]
fn focus_without_title_dispatches_nothing() {
    assert_eq!(SwitchType::Focus(None, None).command(), None);
    assert_eq!(SwitchType::Focus(Some("app".to_string()), None).command(), None);
}

#[test]
fn text_is_the_matching_key() {
    assert_eq!(SwitchType::Launch("vim".to_string()).text(), "vim".to_string());
    assert_eq!(
        SwitchType::Focus(Some("id".to_string()), Some("Editor".to_string())).text(),
        "Editor".to_string()
    );
    assert_eq!(SwitchType::Focus(None, None).text(), " NONE ".to_string());
}

#[test]
fn display_styles_each_variant() {
    assert_eq!(
        SwitchType::Launch("vim".to_string()).display(),
        "\u{1b}[32mvim\u{1b}[m".to_string()
    );
    assert_eq!(
        SwitchType::Focus(Some("id".to_string()), Some("Editor".to_string())).display(),
        "\u{1b}[4m\u{1b}[34mid - Editor\u{1b}[m".to_string()
    );
    assert_eq!(
        SwitchType::Focus(None, Some("Editor".to_string())).display(),
        "\u{1b}[4m\u{1b}[34mEditor\u{1b}[m".to_string()
    );
    assert_eq!(SwitchType::Focus(None, None).display(), " NONE ".to_string());
}

#[test]
fn preview_names_the_kind() {
    assert_eq!(
        SwitchType::Launch("vim".to_string()).preview(),
        "\u{1b}[4m\u{1b}[32mLaunch:\u{1b}[m\nvim".to_string()
    );
    assert_eq!(
        SwitchType::Focus(None, Some("Editor".to_string())).preview(),
        "\u{1b}[4m\u{1b}[34mFocus:\u{1b}[m\nEditor".to_string()
    );
    assert_eq!(SwitchType::Focus(None, None).preview(), " NONE ".to_string());
}

#[test]
fn escape_leaves_other_characters_alone() {
    assert_eq!(escape_title_exec("abc"), "abc".to_string());
    assert_eq!(escape_title_exec("a(b)c:d"), "a\\(b\\)c\\:d".to_string());
    assert_eq!(escape_title_exec(""), "".to_string());
}
