use riff::app::{results_status_text, App, Effect, Event};
use riff::preview::{load_preview, Preview, PREVIEW_CONTEXT};
use riff::query::remove_previous_word;
use riff::config::{
    directory_glob, extension_glob, file_glob, ignore_globs, IgnoreConfig, SearchOptions,
};
use riff::keys::{key_command, Command, KeyCode, KeyInput, Modifiers};
use riff::run;
use riff::search::{
    output_lines, parse_ripgrep_output, ripgrep_status, search_arguments, RipgrepEvent,
    RipgrepMatch, RipgrepSubmatch, RipgrepText, SearchMatch, MAX_RESULTS,
};
use riff::ui::{
    color_from_hex, cursor_column, display_name, expand_tabs, line_label, preview_title,
    result_row,
};

fn strings(items: &[&str]) -> Vec<String> {
    items.iter().map(|s| (*s).to_owned()).collect()
}

fn search_match(path: &str, line: u64) -> SearchMatch {
    SearchMatch {
        path: path.to_owned(),
        line,
        column: 1,
        text: String::new(),
    }
}

fn empty_app() -> App {
    App::new(SearchOptions::default())
}

fn plain(code: KeyCode) -> KeyInput {
    KeyInput {
        code,
        modifiers: Modifiers {
            shift: false,
            control: false,
            alt: false,
            super_key: false,
            hyper: false,
            meta: false,
        },
    }
}

fn control(c: char) -> KeyInput {
    let mut key = plain(KeyCode::Char(c));
    key.modifiers.control = true;
    key
}

/// Reads one line of ripgrep's JSON output the way the finder's driver does.
fn read_event(line: &[u8]) -> Result<RipgrepEvent, String> {
    let value: serde_json::Value = serde_json::from_slice(line).map_err(|e| e.to_string())?;
    if value["type"] != "match" {
        return Ok(RipgrepEvent::Other);
    }
    let data = &value["data"];
    let text = |v: &serde_json::Value| RipgrepText {
        text: v["text"].as_str().unwrap().to_owned(),
    };
    let submatches = data["submatches"]
        .as_array()
        .map(|items| {
            items
                .iter()
                .map(|s| RipgrepSubmatch {
                    start: s["start"].as_u64().unwrap(),
                })
                .collect()
        })
        .unwrap_or_default();
    Ok(RipgrepEvent::Match {
        data: RipgrepMatch {
            path: text(&data["path"]),
            line_number: data["line_number"].as_u64().unwrap(),
            lines: text(&data["lines"]),
            submatches,
        },
    })
}

#[test]
fn removes_previous_word_and_trailing_whitespace() {
    let mut query = "find  these words  ".to_owned();

    remove_previous_word(&mut query);

    assert_eq!(query, "find  these");
}

#[test]
fn selection_is_cleared_when_results_are_empty() {
    let mut app = App {
        search_options: SearchOptions::default(),
        query: String::new(),
        matches: Vec::new(),
        selected: Some(3),
        preview: Preview::default(),
        status: String::new(),
    };

    app.set_matches(Vec::new());

    assert_eq!(app.selected, None);
    assert!(app.preview.message.is_some());
}

#[test]
fn builds_globs_for_configured_extensions_directories_and_files() {
    let config = IgnoreConfig {
        extensions: vec!["log".to_owned(), ".md".to_owned()],
        directories: vec!["docs/".to_owned()],
        files: vec!["package-lock.json".to_owned()],
    };

    let globs = ignore_globs(&config);

    assert!(globs.contains(&"!*.log".to_owned()));
    assert!(globs.contains(&"!*.md".to_owned()));
    assert!(globs.contains(&"!docs/**".to_owned()));
    assert!(globs.contains(&"!package-lock.json".to_owned()));
}

#[test]
fn parses_match_events_into_search_matches() {
    let output = br#"{"type":"begin","data":{}}
{"type":"match","data":{"path":{"text":"./src/main.rs"},"lines":{"text":"fn main() {}\n"},"line_number":7,"submatches":[{"start":3}]}}
{"type":"summary","data":{}}
"#;

    let events = output_lines(output)
        .iter()
        .map(|line| read_event(line))
        .collect();
    let matches = parse_ripgrep_output(events).expect("fixture is valid ripgrep JSON");

    assert_eq!(
        matches,
        vec![SearchMatch {
            path: "src/main.rs".to_owned(),
            line: 7,
            column: 4,
            text: "fn main() {}".to_owned(),
        }]
    );
}

#[test]
fn displays_only_the_file_name() {
    assert_eq!(
        display_name("src/components/SearchPanel.tsx"),
        "SearchPanel.tsx"
    );
}

#[test]
fn parses_file_icon_hex_colors() {
    assert_eq!(color_from_hex("#dea584"), Some((222, 165, 132)));
    assert_eq!(color_from_hex("not-a-color"), None);
}

#[test]
fn hex_colors_follow_radix_parsing() {
    assert_eq!(color_from_hex("#+f+f+f"), Some((15, 15, 15)));
    assert_eq!(color_from_hex("#ABCDEF"), Some((171, 205, 239)));
    assert_eq!(color_from_hex("#abcde"), None);
    assert_eq!(color_from_hex("#-1abcd"), None);
    assert_eq!(color_from_hex("dea584"), None);
    assert_eq!(color_from_hex("#dea584ff"), Some((222, 165, 132)));
    assert_eq!(color_from_hex("#dé584a"), None);
}

#[test]
fn display_name_follows_path_components() {
    assert_eq!(display_name("/usr/bin/"), "bin");
    assert_eq!(display_name("foo.txt/.//"), "foo.txt");
    assert_eq!(display_name("foo.txt/.."), "foo.txt/..");
    assert_eq!(display_name("/"), "/");
    assert_eq!(display_name("."), ".");
    assert_eq!(display_name(""), "");
    assert_eq!(display_name("main.rs"), "main.rs");
}

#[test]
fn globs_are_trimmed_sorted_and_deduplicated() {
    let config = IgnoreConfig {
        extensions: strings(&[" ..md ", "md", "", "log"]),
        directories: strings(&[" /target/ ", "///", "target"]),
        files: strings(&["  ", " Cargo.lock "]),
    };

    let globs = ignore_globs(&config);

    assert_eq!(
        globs,
        strings(&["!*.log", "!*.md", "!Cargo.lock", "!target/**"])
    );
}

#[test]
fn single_entry_globs() {
    assert_eq!(directory_glob(" / docs "), Some("! docs/**".to_owned()));
    assert_eq!(directory_glob("  "), None);
    assert_eq!(extension_glob("..rs"), Some("!*.rs".to_owned()));
    assert_eq!(extension_glob("."), None);
    assert_eq!(file_glob("\u{3000}a b\t"), Some("!a b".to_owned()));
    assert_eq!(file_glob("\u{2028}"), None);
}

#[test]
fn merged_configs_give_the_same_globs_in_either_order() {
    let a = || IgnoreConfig {
        extensions: strings(&["md"]),
        directories: strings(&["node_modules"]),
        files: strings(&["bun.lockb"]),
    };
    let b = || IgnoreConfig {
        extensions: strings(&["log", "md"]),
        directories: strings(&["log"]),
        files: Vec::new(),
    };
    let first = SearchOptions::load(a(), Some(b()));
    let second = SearchOptions::load(b(), Some(a()));
    assert_eq!(first.ignored_globs(), second.ignored_globs());
    assert_eq!(
        first.ignored_globs(),
        strings(&["!*.log", "!*.md", "!bun.lockb", "!log/**", "!node_modules/**"]).as_slice()
    );
    let alone = SearchOptions::load(a(), None);
    assert_eq!(
        alone.ignored_globs(),
        strings(&["!*.md", "!bun.lockb", "!node_modules/**"]).as_slice()
    );
}

#[test]
fn search_arguments_for_a_query() {
    let options = SearchOptions::load(
        IgnoreConfig {
            extensions: strings(&["md"]),
            directories: Vec::new(),
            files: Vec::new(),
        },
        None,
    );
    assert!(search_arguments(&options, " \t ").is_none());
    let arguments = search_arguments(&options, "fn main").unwrap();
    assert_eq!(
        arguments,
        strings(&[
            "--json",
            "--line-number",
            "--column",
            "--smart-case",
            "--hidden",
            "--max-count",
            "500",
            "--glob",
            "!*.md",
            "--",
            "fn main",
            "."
        ])
    );
}

#[test]
fn ripgrep_exit_codes() {
    assert!(ripgrep_status(Some(0), "").is_ok());
    assert!(ripgrep_status(Some(1), "ignored").is_ok());
    assert_eq!(
        ripgrep_status(Some(2), "  regex parse error \n"),
        Err("ripgrep failed: regex parse error".to_owned())
    );
    assert_eq!(
        ripgrep_status(None, ""),
        Err("ripgrep failed: ".to_owned())
    );
}

#[test]
fn output_lines_skip_empty_lines() {
    let lines = output_lines(b"\n\nab\n\ncd\ne");
    assert_eq!(lines, vec![b"ab".to_vec(), b"cd".to_vec(), b"e".to_vec()]);
    assert!(output_lines(b"").is_empty());
}

#[test]
fn unreadable_output_is_an_error() {
    let events = vec![Ok(RipgrepEvent::Other), Err("expected value".to_owned())];
    assert_eq!(
        parse_ripgrep_output(events),
        Err("could not parse ripgrep JSON output: expected value".to_owned())
    );
}

fn match_event(path: &str, line: u64, text: &str, starts: &[u64]) -> RipgrepEvent {
    RipgrepEvent::Match {
        data: RipgrepMatch {
            path: RipgrepText {
                text: path.to_owned(),
            },
            line_number: line,
            lines: RipgrepText {
                text: text.to_owned(),
            },
            submatches: starts
                .iter()
                .map(|start| RipgrepSubmatch { start: *start })
                .collect(),
        },
    }
}

#[test]
fn match_conversion_edges() {
    let events = vec![
        Ok(match_event("././a.rs", 1, "x \r\n", &[])),
        Ok(match_event(".//b.rs", 2, "  y", &[u64::MAX, 4])),
    ];
    let matches = parse_ripgrep_output(events).unwrap();
    assert_eq!(
        matches,
        vec![
            SearchMatch {
                path: "a.rs".to_owned(),
                line: 1,
                column: 1,
                text: "x".to_owned(),
            },
            SearchMatch {
                path: "/b.rs".to_owned(),
                line: 2,
                column: u64::MAX,
                text: "  y".to_owned(),
            },
        ]
    );
}

#[test]
fn reading_stops_at_the_result_limit() {
    let mut events: Vec<Result<RipgrepEvent, String>> = (0..MAX_RESULTS as u64 + 5)
        .map(|i| Ok(match_event("a.rs", i + 1, "x", &[0])))
        .collect();
    events.push(Err("never read".to_owned()));
    let matches = parse_ripgrep_output(events).unwrap();
    assert_eq!(matches.len(), MAX_RESULTS);
    assert_eq!(matches[MAX_RESULTS - 1].line, MAX_RESULTS as u64);
}

#[test]
fn location_is_path_line_column() {
    let m = SearchMatch {
        path: "src/main.rs".to_owned(),
        line: 7,
        column: 4,
        text: String::new(),
    };
    assert_eq!(m.location(), "src/main.rs:7:4");
}

#[test]
fn keys_map_to_commands() {
    assert_eq!(key_command(&plain(KeyCode::Esc)), Command::Quit);
    assert_eq!(key_command(&plain(KeyCode::Char('q'))), Command::Quit);
    assert_eq!(key_command(&control('p')), Command::SelectPrevious);
    assert_eq!(key_command(&control('n')), Command::SelectNext);
    assert_eq!(key_command(&plain(KeyCode::Up)), Command::SelectPrevious);
    assert_eq!(key_command(&plain(KeyCode::Down)), Command::SelectNext);
    assert_eq!(key_command(&plain(KeyCode::Enter)), Command::CopyFile);
    assert_eq!(key_command(&plain(KeyCode::Char('y'))), Command::CopyLocation);
    assert_eq!(key_command(&plain(KeyCode::Backspace)), Command::DeleteCharacter);
    assert_eq!(key_command(&control('w')), Command::DeletePreviousWord);
    let mut shifted = plain(KeyCode::Char('Q'));
    shifted.modifiers.shift = true;
    assert_eq!(key_command(&shifted), Command::Append('Q'));
    let mut shifted_y = plain(KeyCode::Char('y'));
    shifted_y.modifiers.shift = true;
    assert_eq!(key_command(&shifted_y), Command::Append('y'));
    let mut alt = plain(KeyCode::Char('a'));
    alt.modifiers.alt = true;
    assert_eq!(key_command(&alt), Command::Nothing);
    assert_eq!(key_command(&control('x')), Command::Nothing);
    assert_eq!(key_command(&plain(KeyCode::Other)), Command::Nothing);
}

#[test]
fn typing_asks_for_a_search_and_its_outcome_is_shown() {
    let mut app = empty_app();
    let effect = run(&mut app, Event::Key(plain(KeyCode::Char('f'))));
    assert_eq!(app.query, "f");
    match effect {
        Effect::Search { arguments } => assert_eq!(arguments[arguments.len() - 3..], strings(&["--", "f", "."])),
        _ => panic!("a search was expected"),
    }
    let effect = run(
        &mut app,
        Event::SearchFinished(Ok(vec![search_match("a.rs", 3), search_match("b.rs", 30)])),
    );
    assert_eq!(app.selected, Some(0));
    assert_eq!(app.status, "2 result(s)");
    match effect {
        Effect::ReadPreview { path, last_line } => {
            assert_eq!(path, "a.rs");
            assert_eq!(last_line, 3 + PREVIEW_CONTEXT);
        }
        _ => panic!("a preview read was expected"),
    }
    let lines = (1..=20).map(|i| Some(format!("line {i}"))).collect();
    let effect = run(&mut app, Event::PreviewRead(Ok(lines)));
    assert!(matches!(effect, Effect::Idle));
    assert_eq!(app.preview.path, "a.rs");
    assert_eq!(app.preview.first_line, 1);
    assert_eq!(app.preview.focused_line, 3);
    assert_eq!(app.preview.lines.len(), 15);
    assert_eq!(app.preview.message, None);
}

#[test]
fn blank_queries_search_nothing() {
    let mut app = empty_app();
    app.status = String::new();
    let effect = run(&mut app, Event::Key(plain(KeyCode::Char(' '))));
    assert!(matches!(effect, Effect::Idle));
    assert_eq!(app.status, "Type to search");
    let effect = run(&mut app, Event::Key(plain(KeyCode::Backspace)));
    assert!(matches!(effect, Effect::Idle));
    assert_eq!(app.query, "");
}

#[test]
fn failed_searches_clear_the_matches() {
    let mut app = empty_app();
    app.query = "x".to_owned();
    app.matches = vec![search_match("a.rs", 1)];
    app.selected = Some(0);
    let effect = run(&mut app, Event::SearchFinished(Err("no rg".to_owned())));
    assert!(matches!(effect, Effect::Idle));
    assert!(app.matches.is_empty());
    assert_eq!(app.selected, None);
    assert_eq!(app.status, "Search failed: no rg");
    assert_eq!(
        app.preview.message.as_deref(),
        Some("Select a match to preview its file")
    );
}

#[test]
fn selection_moves_within_the_matches() {
    let mut app = empty_app();
    app.query = "x".to_owned();
    app.set_matches(vec![search_match("a.rs", 1), search_match("b.rs", 2)]);
    assert_eq!(app.selected, Some(0));
    run(&mut app, Event::Key(plain(KeyCode::Up)));
    assert_eq!(app.selected, Some(0));
    run(&mut app, Event::Key(plain(KeyCode::Down)));
    assert_eq!(app.selected, Some(1));
    let effect = run(&mut app, Event::Key(control('n')));
    assert_eq!(app.selected, Some(1));
    assert!(matches!(effect, Effect::ReadPreview { .. }));
    app.set_matches(vec![search_match("c.rs", 5)]);
    assert_eq!(app.selected, Some(0));
    app.set_matches(vec![
        search_match("c.rs", 5),
        search_match("d.rs", 6),
        search_match("e.rs", 7),
    ]);
    assert_eq!(app.selected, Some(0));
    run(&mut app, Event::Key(plain(KeyCode::Down)));
    app.set_matches(vec![search_match("c.rs", 5), search_match("d.rs", 6)]);
    assert_eq!(app.selected, Some(1));
}

#[test]
fn status_reports_the_result_limit() {
    assert_eq!(results_status_text(&"x".to_owned(), MAX_RESULTS), "First 500 results shown");
    assert_eq!(results_status_text(&"x".to_owned(), 0), "0 result(s)");
    assert_eq!(results_status_text(&" ".to_owned(), 3), "Type to search");
}

#[test]
fn copying_reports_its_outcome() {
    let mut app = empty_app();
    assert!(matches!(run(&mut app, Event::Key(plain(KeyCode::Enter))), Effect::Idle));
    app.query = "x".to_owned();
    app.set_matches(vec![SearchMatch {
        path: "src/lib.rs".to_owned(),
        line: 9,
        column: 2,
        text: String::new(),
    }]);
    match run(&mut app, Event::Key(plain(KeyCode::Enter))) {
        Effect::CopyFile { path } => assert_eq!(path, "src/lib.rs"),
        _ => panic!("a copy was expected"),
    }
    match run(&mut app, Event::Key(plain(KeyCode::Char('y')))) {
        Effect::CopyLocation { location } => assert_eq!(location, "src/lib.rs:9:2"),
        _ => panic!("a copy was expected"),
    }
    run(
        &mut app,
        Event::FileCopied {
            path: "src/lib.rs".to_owned(),
            outcome: Ok(()),
        },
    );
    assert_eq!(app.status, "Copied file: src/lib.rs");
    run(
        &mut app,
        Event::LocationCopied {
            location: "src/lib.rs:9:2".to_owned(),
            outcome: Ok(()),
        },
    );
    assert_eq!(app.status, "Copied src/lib.rs:9:2");
    run(
        &mut app,
        Event::FileCopied {
            path: "src/lib.rs".to_owned(),
            outcome: Err("could not start pbcopy".to_owned()),
        },
    );
    assert_eq!(app.status, "Clipboard unavailable: could not start pbcopy");
}

#[test]
fn quitting_and_deleting_words() {
    let mut app = empty_app();
    assert!(matches!(run(&mut app, Event::Key(plain(KeyCode::Esc))), Effect::Quit));
    app.query = "find these".to_owned();
    let effect = run(&mut app, Event::Key(control('w')));
    assert_eq!(app.query, "find");
    assert!(matches!(effect, Effect::Search { .. }));
    run(&mut app, Event::Key(control('w')));
    assert_eq!(app.query, "");
}

#[test]
fn previews_show_a_window_around_the_line() {
    let result = search_match("a.rs", 40);
    let lines: Vec<Option<String>> = (1..=60)
        .map(|i| if i == 30 { None } else { Some(format!("{i}")) })
        .collect();
    let preview = load_preview(&result, Ok(lines));
    assert_eq!(preview.first_line, 28);
    assert_eq!(preview.focused_line, 40);
    assert_eq!(preview.lines.len(), 25);
    assert_eq!(preview.lines[0], "28");
    assert_eq!(preview.lines[2], "<unreadable line>");
    assert_eq!(preview.lines[24], "52");

    let short: Vec<Option<String>> = (1..=5).map(|i| Some(format!("{i}"))).collect();
    let preview = load_preview(&result, Ok(short));
    assert!(preview.lines.is_empty());

    let preview = load_preview(&result, Err("No such file".to_owned()));
    assert_eq!(preview.message.as_deref(), Some("Could not read file: No such file"));
    assert_eq!(preview.first_line, 28);

    let top = load_preview(&search_match("a.rs", u64::MAX), Ok(Vec::new()));
    assert_eq!(top.first_line, u64::MAX - PREVIEW_CONTEXT);
}

#[test]
fn result_rows_show_marker_icon_and_name() {
    let mut app = empty_app();
    app.matches = vec![search_match("src/main.rs", 1), search_match("docs/x.md", 2)];
    app.selected = Some(0);
    let row = result_row(&app, 0);
    assert_eq!(row.marker, "❯ ");
    assert_eq!(row.name, "main.rs");
    assert_eq!(row.icon_color, Some((222, 165, 132)));
    assert!(row.icon.ends_with(' '));
    assert!(row.icon.len() > 1);
    let other = result_row(&app, 1);
    assert_eq!(other.marker, "  ");
    assert_eq!(other.name, "x.md");
}

#[test]
fn prompt_and_preview_labels() {
    assert_eq!(cursor_column(0, 80, "abc"), 4);
    assert_eq!(cursor_column(0, 5, "abcdef"), 3);
    assert_eq!(cursor_column(0, 1, ""), 0);
    assert_eq!(cursor_column(u16::MAX - 1, u16::MAX, "é"), u16::MAX - 2);
    assert_eq!(preview_title(""), " preview ");
    assert_eq!(preview_title("src/a.rs"), " preview · src/a.rs ");
    assert_eq!(line_label(7), "    7  ");
    assert_eq!(line_label(123456), "123456  ");
    assert_eq!(expand_tabs("\ta\tb"), "  a  b");
}

#[test]
fn backspace_undoes_a_typed_character() {
    let mut app = empty_app();
    app.query = "ab".to_owned();
    run(&mut app, Event::Key(plain(KeyCode::Char('x'))));
    assert_eq!(app.query, "abx");
    run(&mut app, Event::Key(plain(KeyCode::Backspace)));
    assert_eq!(app.query, "ab");
}
