use lzsync::environment::{Environment, Variable};
use lzsync::path_input;
use lzsync::path_input::{expanded_path, unescape_backslash, words_or_line};

/// The home directory of this machine, and a few variables.
fn machine() -> Environment {
    let var = |name: &str, value: Result<&str, &str>| Variable {
        name: name.to_string(),
        value: value.map(|v| v.to_string()).map_err(|e| e.to_string()),
    };
    Environment {
        home: Some(shellexpand::tilde("~").into_owned()),
        vars: vec![
            var("HOME", Ok("/home/u")),
            var("DIR", Ok("some dir")),
            var("TILDE", Ok("~")),
            var("BROKEN", Err("environment variable was not valid unicode")),
            var("DIR", Ok("another")),
        ],
    }
}

fn parse_paste(raw: &str) -> Vec<String> {
    path_input::parse_paste(raw, &machine())
}

fn vec_of(list: &[&str]) -> Vec<String> {
    list.iter().map(|s| s.to_string()).collect()
}

#[test]
fn plain_path() {
    assert_eq!(parse_paste("/tmp/file.png"), vec!["/tmp/file.png"]);
}

#[test]
fn unquotes_double_quotes() {
    assert_eq!(parse_paste("\"/tmp/my file.png\""), vec!["/tmp/my file.png"]);
}

#[test]
fn unquotes_single_quotes() {
    assert_eq!(parse_paste("'/tmp/中文 文件.png'"), vec!["/tmp/中文 文件.png"]);
}

#[test]
fn unescapes_space() {
    assert_eq!(parse_paste("/tmp/my\\ file.png"), vec!["/tmp/my file.png"]);
}

#[test]
fn chinese_path_no_quotes() {
    assert_eq!(parse_paste("/tmp/截图.png"), vec!["/tmp/截图.png"]);
}

#[test]
fn chinese_with_space_escaped() {
    assert_eq!(parse_paste("/tmp/截图\\ 1.png"), vec!["/tmp/截图 1.png"]);
}

#[test]
fn emoji_path() {
    assert_eq!(parse_paste("/tmp/🎉.png"), vec!["/tmp/🎉.png"]);
}

#[test]
fn file_uri_url_encoded_chinese() {
    assert_eq!(
        parse_paste("file:///tmp/%E6%B5%8B%E8%AF%95.png"),
        vec!["/tmp/测试.png"]
    );
}

#[test]
fn file_uri_with_space_encoded() {
    assert_eq!(parse_paste("file:///tmp/my%20file.png"), vec!["/tmp/my file.png"]);
}

#[test]
fn multi_path_newline() {
    let out = parse_paste("/tmp/a.png\n/tmp/b.png");
    assert_eq!(out, vec!["/tmp/a.png", "/tmp/b.png"]);
}

#[test]
fn multi_path_shell_split() {
    let out = parse_paste("/tmp/foo\\ bar.png /tmp/baz.png");
    assert_eq!(out, vec!["/tmp/foo bar.png", "/tmp/baz.png"]);
}

#[test]
fn multi_path_quoted_and_unquoted() {
    let out = parse_paste("\"/tmp/a b.png\" /tmp/c.png");
    assert_eq!(out, vec!["/tmp/a b.png", "/tmp/c.png"]);
}

#[test]
fn tilde_expansion() {
    let out = parse_paste("~/foo.png");
    assert!(!out[0].starts_with("~"));
    assert!(out[0].ends_with("/foo.png"));
}

#[test]
fn windows_style_preserved() {
    // Outer quotes stripped; internal backslashes preserved because the
    // chars after them aren't in the unescape whitelist.
    let out = parse_paste("\"C:\\Users\\x\\a.png\"");
    assert_eq!(out, vec!["C:\\Users\\x\\a.png"]);
}

#[test]
fn whitespace_only_returns_empty() {
    assert!(parse_paste("   \n  ").is_empty());
}

#[test]
fn trims_trailing_cr() {
    let out = parse_paste("/tmp/a.png\r\n/tmp/b.png\r\n");
    assert_eq!(out, vec!["/tmp/a.png", "/tmp/b.png"]);
}

#[test]
fn a_name_with_a_percent_sign_is_kept_outside_of_uris() {
    assert_eq!(parse_paste("/tmp/100%25.png"), vec_of(&["/tmp/100%25.png"]));
}

#[test]
fn what_cannot_be_expanded_stays() {
    assert_eq!(expanded_path("$X/a".to_string(), Err("no X".to_string())), "$X/a");
    assert_eq!(expanded_path("$X/a".to_string(), Ok("/x/a".to_string())), "/x/a");
}

#[test]
fn two_quoted_paths_on_a_line_are_two_paths() {
    assert_eq!(
        parse_paste("\"/tmp/a.png\" \"/tmp/b.png\""),
        vec_of(&["/tmp/a.png", "/tmp/b.png"])
    );
    assert_eq!(parse_paste("'/tmp/a b.png' '/tmp/c.png'"), vec_of(&["/tmp/a b.png", "/tmp/c.png"]));
    assert_eq!(parse_paste("\"/tmp/it's.png\""), vec_of(&["/tmp/it's.png"]));
    assert_eq!(parse_paste("\"/tmp/a\"b.png\""), vec_of(&["/tmp/a\"b.png"]));
}

#[test]
fn joined_pastes_give_the_paths_of_both() {
    for a in ["", " /a  ", "'/x y'\n", "/a /b", "\n\n", "\r\n/a\r"] {
        for b in ["", "/c", "\"/p q\" \"/r\"", "\n/d\n\n/e ", "\t"] {
            let mut both = parse_paste(a);
            both.extend(parse_paste(b));
            assert_eq!(parse_paste(&format!("{a}\n{b}")), both);
        }
    }
}

#[test]
fn a_tilde_is_the_home_directory() {
    let mut m = machine();
    m.home = Some("/home/u".to_string());
    assert_eq!(path_input::parse_paste("~/foo.png", &m), vec_of(&["/home/u/foo.png"]));
    assert_eq!(path_input::parse_paste("~", &m), vec_of(&["/home/u"]));
    assert_eq!(path_input::parse_paste("~v/foo.png", &m), vec_of(&["~v/foo.png"]));
    assert_eq!(path_input::parse_paste("/a/~/b", &m), vec_of(&["/a/~/b"]));
    m.home = None;
    assert_eq!(path_input::parse_paste("~/foo.png", &m), vec_of(&["~/foo.png"]));
}

#[test]
fn variables_are_replaced_by_their_values() {
    assert_eq!(parse_paste("$HOME/a.png"), vec_of(&["/home/u/a.png"]));
    assert_eq!(parse_paste("$HOME"), vec_of(&["/home/u"]));
    assert_eq!(parse_paste("/x/${DIR}s/$DIR"), vec_of(&["/x/some dirs/some dir"]));
    assert_eq!(parse_paste("$TILDE/a"), vec_of(&["~/a"]));
    assert_eq!(parse_paste("/x/${NONE:-y}"), vec_of(&["/x/y"]));
    assert_eq!(parse_paste("$NONE/a /b"), vec_of(&["$NONE/a", "/b"]));
    assert_eq!(parse_paste("$BROKEN/a"), vec_of(&["$BROKEN/a"]));
}

#[test]
fn variables_are_read_by_name() {
    let m = machine();
    assert_eq!(m.var("DIR"), Ok(Some("some dir".to_string())));
    assert_eq!(m.var("NONE"), Err("environment variable not found".to_string()));
    assert!(m.var("BROKEN").is_err());
    assert!(m.home_dir().is_some());
}

#[test]
fn a_line_without_words_is_taken_whole() {
    let line = || "a 'b".to_string();
    assert_eq!(words_or_line(line(), None), vec_of(&["a 'b"]));
    assert_eq!(words_or_line(line(), Some(Vec::new())), vec_of(&["a 'b"]));
    assert_eq!(words_or_line(line(), Some(vec_of(&["a", "b"]))), vec_of(&["a", "b"]));
    assert_eq!(parse_paste("/tmp/it's"), vec_of(&["/tmp/it's"]));
}

#[test]
fn backslashes_go_in_front_of_special_characters_only() {
    assert_eq!(unescape_backslash("a\\ b\\(c\\)"), "a b(c)");
    assert_eq!(unescape_backslash("a\\\\b\\x\\"), "a\\b\\x\\");
}
