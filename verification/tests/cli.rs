use yu_core::cli::{opens_block, parse_args, repl_step, usage, Args, Command, Paint, ReplStep};
use yu_core::Lang;

fn args(list: &[&str]) -> Vec<String> {
    list.iter().map(|s| s.to_string()).collect()
}

#[test]
fn no_arguments_start_the_repl_in_ukrainian_with_colours() {
    assert_eq!(
        parse_args(args(&[])),
        Ok(Args { lang: Lang::Uk, color: true, svg: None, command: Command::Repl })
    );
}

#[test]
fn a_file_runs_with_or_without_the_word_run() {
    let want = Ok(Args { lang: Lang::En, color: false, svg: None, command: Command::Run("a.yu".into()) });
    assert_eq!(parse_args(args(&["--lang", "en", "--no-color", "a.yu"])), want);
    assert_eq!(parse_args(args(&["run", "--lang", "en", "a.yu", "--no-color"])), want);
}

#[test]
fn help_wins_over_the_version_and_files() {
    assert_eq!(parse_args(args(&["-V", "a.yu", "--help"])).unwrap().command, Command::Help);
    assert_eq!(parse_args(args(&["--version"])).unwrap().command, Command::Version);
}

#[test]
fn bad_arguments_are_refused_with_a_reason() {
    assert_eq!(parse_args(args(&["--lang", "de"])), Err("--lang: uk / en, не «de»".to_string()));
    assert_eq!(parse_args(args(&["--lang"])), Err("--lang: uk / en, не «»".to_string()));
    assert_eq!(parse_args(args(&["--frob"])), Err("невідомий параметр --frob".to_string()));
    assert_eq!(
        parse_args(args(&["--lang", "en", "-x"])),
        Err("unknown option -x".to_string())
    );
    assert_eq!(
        parse_args(args(&["a.yu", "b.yu"])),
        Err("можна запускати один файл".to_string())
    );
    assert_eq!(
        parse_args(args(&["run", "run"])),
        Ok(Args { lang: Lang::Uk, color: true, svg: None, command: Command::Repl })
    );
    assert_eq!(
        parse_args(args(&["a.yu", "run"])),
        Err("можна запускати один файл".to_string())
    );
}

#[test]
fn a_block_waits_for_more_lines() {
    assert!(opens_block("якщо x:\n"));
    assert!(opens_block("поки так:   # коментар\n"));
    assert!(opens_block("if x: \r\n    y\n"));
    assert!(!opens_block("x = 1\n"));
    assert!(!opens_block(""));
    assert!(!opens_block("# a: b\n"));
}

#[test]
fn usage_is_in_the_chosen_language() {
    assert!(usage(Lang::Uk).starts_with("Yu — мова програмування"));
    assert!(usage(Lang::En).contains("\n  yu run file.yu      the same\n"));
    assert!(usage(Lang::En).ends_with("--version           version"));
}

#[test]
fn errors_are_coloured_line_by_line() {
    let rendered = "Error on line 1: x\n  1 | y\n    | ^\n  hint";
    assert_eq!(Paint::new(false).diagnostic(rendered), rendered);
    assert_eq!(
        Paint::new(true).diagnostic(rendered),
        "\x1b[1;31mError on line 1: x\x1b[0m\n  1 | y\n\x1b[33m    | ^\x1b[0m\n\x1b[36m  hint\x1b[0m"
    );
    assert_eq!(Paint::new(true).diagnostic("a\r\nb\n"), "\x1b[1;31ma\x1b[0m\nb");
    assert_eq!(Paint::new(true).diagnostic(""), "");
}

#[test]
fn the_repl_quits_waits_for_blocks_and_runs_the_rest() {
    let mut buffer = String::new();
    assert_eq!(repl_step(&mut buffer, "  exit "), ReplStep::Quit);
    assert_eq!(repl_step(&mut buffer, "вийти"), ReplStep::Quit);
    assert_eq!(repl_step(&mut buffer, "поки x < 3:"), ReplStep::More);
    assert_eq!(buffer, "поки x < 3:\n");
    assert_eq!(repl_step(&mut buffer, "    x = x + 1"), ReplStep::More);
    assert_eq!(repl_step(&mut buffer, "exit"), ReplStep::More);
    assert_eq!(
        repl_step(&mut buffer, ""),
        ReplStep::Run("поки x < 3:\n    x = x + 1\nexit\n\n".into())
    );
    assert_eq!(buffer, "");
    assert_eq!(repl_step(&mut buffer, "   "), ReplStep::Skip);
    assert_eq!(repl_step(&mut buffer, "скажи(1)"), ReplStep::Run("скажи(1)\n".into()));
}

#[test]
fn a_carriage_return_is_dropped_only_before_a_line_feed() {
    let plain = Paint::new(false);
    assert_eq!(plain.diagnostic("a\r"), "a\r");
    assert_eq!(plain.diagnostic("a\r\nb\r"), "a\nb\r");
    assert_eq!(plain.diagnostic("a\r\n"), "a");
}

#[test]
fn white_space_after_the_colon_still_opens_a_block() {
    assert!(opens_block("поки x < 3:  \t\n"));
    assert!(opens_block("якщо так:\u{3000}# коментар\n"));
    let mut buffer = String::new();
    assert_eq!(repl_step(&mut buffer, "\u{3000}\t"), ReplStep::Skip);
}

#[test]
fn svg_takes_a_file_name_and_needs_a_program() {
    assert_eq!(
        parse_args(args(&["a.yu", "--svg", "a.svg"])),
        Ok(Args {
            lang: Lang::Uk,
            color: true,
            svg: Some("a.svg".into()),
            command: Command::Run("a.yu".into())
        })
    );
    assert_eq!(
        parse_args(args(&["a.yu", "--svg"])),
        Err("--svg: потрібна назва файлу".to_string())
    );
    assert_eq!(
        parse_args(args(&["--lang", "en", "a.yu", "--svg", "--no-color"])),
        Err("--svg: a file name is needed".to_string())
    );
    assert_eq!(
        parse_args(args(&["--svg", "x.svg"])),
        Err("--svg працює лише з файлом програми".to_string())
    );
    assert_eq!(
        parse_args(args(&["--lang", "en", "--svg", "x.svg"])),
        Err("--svg needs a program file".to_string())
    );
    assert_eq!(parse_args(args(&["--svg", "x.svg", "--help"])).unwrap().command, Command::Help);
    assert!(usage(Lang::Uk).contains("\n  --svg файл.svg      зберегти малюнок\n"));
    assert!(usage(Lang::En).contains("\n  --svg file.svg      save the picture\n"));
}

#[test]
fn a_hint_is_cyan() {
    assert_eq!(Paint::new(true).hint("tip"), "\x1b[36mtip\x1b[0m");
    assert_eq!(Paint::new(false).hint("tip"), "tip");
}
