use staticserve::args::Opts;
use staticserve::config::{
    default_status, DefaultPage, HookCall, HookType, Hooks, KeyError, Tls,
};
use staticserve::text::{comes_before, ends_with, same_text, starts_with, words};

fn hooks(lines: &[&str]) -> Hooks {
    Hooks { updated: Some(lines.iter().map(|l| l.to_string()).collect()) }
}

fn run(program: &str, args: &[&str], line: &str) -> HookCall {
    HookCall::Run {
        program: program.to_string(),
        args: args.iter().map(|a| a.to_string()).collect(),
        line: line.to_string(),
    }
}

#[test]
fn starts_with_compares_the_beginning() {
    assert!(starts_with("/static/app.js", "/static/"));
    assert!(starts_with("abc", "abc"));
    assert!(starts_with("abc", ""));
    assert!(starts_with("", ""));
    assert!(!starts_with("abc", "abcd"));
    assert!(!starts_with("abc", "b"));
    assert!(!starts_with("", "a"));
    assert!(starts_with("\u{e9}t\u{e9}", "\u{e9}"));
    assert!(!starts_with("\u{e9}t\u{e9}", "e"));
}

#[test]
fn ends_with_compares_the_end() {
    assert!(ends_with("site.tar", ".tar"));
    assert!(ends_with("abc", "abc"));
    assert!(ends_with("abc", ""));
    assert!(ends_with("", ""));
    assert!(!ends_with("abc", "zabc"));
    assert!(!ends_with("abc", "b"));
    assert!(!ends_with("", "a"));
    assert!(ends_with("caf\u{e9}", "f\u{e9}"));
    assert!(!ends_with("caf\u{e9}", "fe"));
}

#[test]
fn comes_before_is_the_order_of_strings() {
    let samples = ["", "a", "aa", "ab", "b", "B", "\u{e9}", "z\u{10000}", "z\u{ffff}", "zz"];
    for a in samples {
        for b in samples {
            assert_eq!(comes_before(a, b), a < b, "{a:?} before {b:?}");
        }
    }
}

#[test]
fn same_text_is_equality() {
    assert!(same_text("", ""));
    assert!(same_text("abc", "abc"));
    assert!(!same_text("abc", "abd"));
    assert!(!same_text("abc", "ab"));
    assert!(!same_text("ab", "abc"));
    assert!(same_text("\u{65e5}\u{672c}", "\u{65e5}\u{672c}"));
}

#[test]
fn words_are_cut_at_white_space() {
    assert_eq!(words("/bin/echo hello world"), vec!["/bin/echo", "hello", "world"]);
    assert_eq!(words("  a \t b\n\nc  "), vec!["a", "b", "c"]);
    assert_eq!(words("one"), vec!["one"]);
    assert_eq!(words(""), Vec::<String>::new());
    assert_eq!(words(" \t\r\n"), Vec::<String>::new());
}

#[test]
fn words_know_the_white_space_of_unicode() {
    assert_eq!(words("a\u{a0}b\u{3000}c\u{2003}d"), vec!["a", "b", "c", "d"]);
    // a zero width space is no white space
    assert_eq!(words("a\u{200b}b"), vec!["a\u{200b}b"]);
    assert_eq!(words("\u{e9}t\u{e9} \u{65e5}\u{672c}"), vec!["\u{e9}t\u{e9}", "\u{65e5}\u{672c}"]);
    for text in ["x  y", "\u{1680}lead", "trail\u{2028}", "a\u{85}b"] {
        let expected: Vec<String> = text.split_whitespace().map(|w| w.to_string()).collect();
        assert_eq!(words(text), expected);
    }
}

#[test]
fn absolute_command_is_run_with_its_arguments() {
    let plan = hooks(&["/usr/bin/rsync -a /srv/www backup:/srv"]).trigger(HookType::Updated);
    assert_eq!(
        plan,
        vec![run(
            "/usr/bin/rsync",
            &["-a", "/srv/www", "backup:/srv"],
            "/usr/bin/rsync -a /srv/www backup:/srv"
        )]
    );
}

#[test]
fn command_without_arguments_is_run() {
    let plan = hooks(&["  /usr/local/bin/notify  "]).trigger(HookType::Updated);
    assert_eq!(plan, vec![run("/usr/local/bin/notify", &[], "  /usr/local/bin/notify  ")]);
}

#[test]
fn relative_command_is_refused() {
    let plan = hooks(&["rsync -a . backup:"]).trigger(HookType::Updated);
    assert_eq!(plan, vec![HookCall::Refused { line: "rsync -a . backup:".to_string() }]);
    let plan = hooks(&["./run.sh"]).trigger(HookType::Updated);
    assert_eq!(plan, vec![HookCall::Refused { line: "./run.sh".to_string() }]);
}

#[test]
fn blank_lines_are_left_out() {
    let plan = hooks(&["", "   ", "\t", "/bin/true"]).trigger(HookType::Updated);
    assert_eq!(plan, vec![run("/bin/true", &[], "/bin/true")]);
}

#[test]
fn lines_keep_their_order() {
    let plan = hooks(&["/bin/a 1", "b 2", "", "/bin/c 3 4"]).trigger(HookType::Updated);
    assert_eq!(
        plan,
        vec![
            run("/bin/a", &["1"], "/bin/a 1"),
            HookCall::Refused { line: "b 2".to_string() },
            run("/bin/c", &["3", "4"], "/bin/c 3 4"),
        ]
    );
}

#[test]
fn no_hooks_nothing_to_do() {
    assert!(Hooks { updated: None }.trigger(HookType::Updated).is_empty());
    assert!(hooks(&[]).trigger(HookType::Updated).is_empty());
}

#[test]
fn hook_type_has_its_name() {
    assert_eq!(HookType::Updated.name(), "updated");
}

#[test]
fn default_status_is_200() {
    assert_eq!(default_status(), 200);
}

#[test]
fn default_page_status_must_have_three_digits() {
    let page = |status| DefaultPage { file: "404.html".to_string(), status };
    assert_eq!(page(200).response_status(), 200);
    assert_eq!(page(404).response_status(), 404);
    assert_eq!(page(100).response_status(), 100);
    assert_eq!(page(999).response_status(), 999);
    assert_eq!(page(99).response_status(), 404);
    assert_eq!(page(1000).response_status(), 404);
    assert_eq!(page(0).response_status(), 404);
    assert_eq!(page(u16::MAX).response_status(), 404);
}

#[test]
fn first_rsa_key_is_chosen() {
    let rsa = Some(vec![vec![1u8, 2], vec![3u8]]);
    let pkcs8 = Some(vec![vec![9u8]]);
    assert_eq!(Tls::choose_key(rsa, pkcs8), Ok(vec![1u8, 2]));
    assert_eq!(Tls::choose_key(Some(vec![vec![7u8]]), None), Ok(vec![7u8]));
}

#[test]
fn pkcs8_key_is_chosen_where_no_rsa_key_is() {
    assert_eq!(Tls::choose_key(Some(vec![]), Some(vec![vec![9u8], vec![8u8]])), Ok(vec![9u8]));
    assert_eq!(Tls::choose_key(None, Some(vec![vec![9u8]])), Ok(vec![9u8]));
}

#[test]
fn key_file_without_keys_is_an_error() {
    assert_eq!(Tls::choose_key(Some(vec![]), Some(vec![])), Err(KeyError::Missing));
    assert_eq!(Tls::choose_key(None, Some(vec![])), Err(KeyError::Missing));
    assert_eq!(Tls::choose_key(Some(vec![]), None), Err(KeyError::Invalid));
    assert_eq!(Tls::choose_key(None, None), Err(KeyError::Invalid));
}

#[test]
fn options_have_their_defaults() {
    let opts = Opts::default();
    assert_eq!(opts.config, "/etc/staticserve.yaml");
    assert_eq!(opts.addr, "0.0.0.0:8080");
    assert_eq!(opts.addrs, "0.0.0.0:8443");
    assert!(!opts.verbose);
    assert!(!opts.secure);
}
