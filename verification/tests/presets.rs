use hsf::error::HsfError;
use hsf::preproccesor::{
    process_all_includes, process_all_requires, FileEvent, IncludeStep, RequireStep,
};
use hsf::preset::{
    format_result, formatter_outcome, preset_command, preset_matches, FormatterOutcome,
    PresetCommand, MAX_SIZE,
};

#[test]
fn preset_commands() {
    assert_eq!(preset_command("load", "base"), PresetCommand::Load("base".to_string()));
    assert_eq!(preset_command("-a", "x"), PresetCommand::Load("x".to_string()));
    assert_eq!(preset_command("base", ""), PresetCommand::Load("base".to_string()));
    assert_eq!(preset_command("list", ""), PresetCommand::List(String::new()));
    assert_eq!(preset_command("-s", "ads"), PresetCommand::List("ads".to_string()));
    assert_eq!(preset_command("fo", "/p/x"), PresetCommand::Format("/p/x".to_string()));
    assert_eq!(preset_command("--result", "y"), PresetCommand::Format("y".to_string()));
    // words are matched exactly, case included
    assert_eq!(preset_command("LOAD", "z"), PresetCommand::Load("LOAD".to_string()));
}

#[test]
fn preset_search() {
    assert!(preset_matches("base", "as"));
    assert!(preset_matches("base", ""));
    assert!(!preset_matches("base", "x"));
    assert!(!preset_matches("base", "BASE"));
}

#[test]
fn formatting_fills_hostname() {
    let r = format_result("127.0.0.1 localhost\n127.0.1.1 %HOSTNAME%\n", "box");
    assert_eq!(r, Ok("127.0.0.1 localhost\n127.0.1.1 box\n".to_string()));
    let r = format_result("# only a comment\n\n   \nfe80::1%eth0 host # c\n", "h");
    assert_eq!(r, Ok("# only a comment\n\n   \nfe80::1%eth0 host # c\n".to_string()));
}

#[test]
fn formatting_refuses_bad_content() {
    let e = format_result("not-an-ip host\n", "h").unwrap_err();
    assert_eq!(e, HsfError::IncorrectHostsFormat { line: 0 });
    assert_eq!(e.message(), "Incorrect hosts format file");
    assert_eq!(format_result("1.1.1.1\n", "h"), Err(HsfError::IncorrectHostsFormat { line: 0 }));
    assert_eq!(
        format_result("%HOSTNAME% a\n", "h"),
        Err(HsfError::IncorrectHostsFormat { line: 0 })
    );
    assert_eq!(
        format_result("# c\n1.1.1.1 a\nbad b\n1.1.1.1\n", "h"),
        Err(HsfError::IncorrectHostsFormat { line: 2 })
    );
}

#[test]
fn formatting_limits_size() {
    let big = "#".repeat(MAX_SIZE as usize + 1);
    let e = format_result(&big, "h").unwrap_err();
    assert_eq!(e, HsfError::ContentLimit);
    assert_eq!(e.message(), "Content limit exceeded");
}

#[test]
fn formatter_outcomes() {
    assert_eq!(formatter_outcome(124, ""), Ok(FormatterOutcome::Timeout));
    assert_eq!(formatter_outcome(124, "127.0.0.1 localhost\n"), Ok(FormatterOutcome::Timeout));
    assert_eq!(formatter_outcome(1, "E: bad"), Ok(FormatterOutcome::Failed));
    assert_eq!(formatter_outcome(0, "E: bad"), Ok(FormatterOutcome::Failed));
    assert_eq!(formatter_outcome(0, "e: bad"), Ok(FormatterOutcome::Failed));
    assert_eq!(formatter_outcome(0, "127.0.0.1 localhost\n"), Ok(FormatterOutcome::Write));
    let e = formatter_outcome(0, "garbage\n").unwrap_err();
    assert_eq!(e, HsfError::IncorrectHostsInput { bad_line: Some(0) });
    assert_eq!(e.message(), "Incorrect hosts format file on input");
    assert_eq!(
        formatter_outcome(0, "1.1.1.1 a\n2.2.2.2\n"),
        Err(HsfError::IncorrectHostsInput { bad_line: Some(1) })
    );
    let big = "#".repeat(MAX_SIZE as usize + 1);
    assert_eq!(formatter_outcome(0, &big), Err(HsfError::IncorrectHostsInput { bad_line: None }));
    let limit = "#".repeat(MAX_SIZE as usize);
    assert_eq!(formatter_outcome(0, &limit), Ok(FormatterOutcome::Write));
}

#[test]
fn formatted_preset_loads() {
    // what `preset format` prints (the preset and a newline) is written by `preset load`
    let formatted = format_result("0.0.0.0 ads.example\n::1 %HOSTNAME%", "box").unwrap();
    let printed = format!("{}\n", formatted);
    assert_eq!(formatter_outcome(0, &printed), Ok(FormatterOutcome::Write));
}

#[test]
fn requires_without_directives() {
    let (_, step) = process_all_requires("a\r\nb");
    assert_eq!(step, RequireStep::Done("a\nb\n".to_string()));
    let (_, step) = process_all_requires("");
    assert_eq!(step, RequireStep::Done(String::new()));
}

#[test]
fn requires_download_once() {
    let (mut run, step) = process_all_requires("a\n#require <https://example.com/list>\nb\n");
    assert_eq!(step, RequireStep::Fetch("https://example.com/list".to_string()));
    let step = run.fetched(Some("x\n#require <https://example.com/list>\ny".to_string()));
    assert_eq!(step, RequireStep::Done("a\nx\ny\n\nb\n".to_string()));
}

#[test]
fn requires_skip_bad_urls() {
    let text = "#require <ftp://x.com>\n#require <https://bad..domain>\n  #require <http://127.0.0.1/l>  \nc";
    let (mut run, step) = process_all_requires(text);
    assert_eq!(step, RequireStep::Fetch("http://127.0.0.1/l".to_string()));
    let step = run.fetched(Some("1.1.1.1 z".to_string()));
    assert_eq!(step, RequireStep::Done("1.1.1.1 z\n\nc\n".to_string()));
}

#[test]
fn requires_nested_and_failed() {
    let (mut run, step) = process_all_requires("#require <https://a.org>\n#require <https://b.org>");
    assert_eq!(step, RequireStep::Fetch("https://a.org".to_string()));
    let step = run.fetched(Some("#require <https://b.org>\nin-a".to_string()));
    assert_eq!(step, RequireStep::Fetch("https://b.org".to_string()));
    let step = run.fetched(Some("in-b".to_string()));
    // b.org was downloaded inside a.org, so the second line adds nothing
    assert_eq!(step, RequireStep::Done("in-b\n\nin-a\n\n".to_string()));

    let (mut run, _) = process_all_requires("#require <https://a.org>");
    assert_eq!(run.fetched(None), RequireStep::Failed);
}

fn opened(path: &str, lines: &[&str], complete: bool) -> FileEvent {
    FileEvent::Opened {
        path: path.to_string(),
        canonical: path.to_string(),
        lines: lines.iter().map(|l| l.to_string()).collect(),
        complete,
    }
}

#[test]
fn includes_paste_files_once() {
    let (mut run, step) = process_all_includes("main".to_string());
    assert_eq!(step, IncludeStep::Read { from: None, name: "main".to_string() });
    let step = run.read(opened("/p/main", &["1.1.1.1 a", " #include <sub> ", "2.2.2.2 b"], true));
    assert_eq!(step, IncludeStep::Read { from: Some("/p/main".to_string()), name: "sub".to_string() });
    let step = run.read(opened("/p/sub", &["3.3.3.3 c", "#include <main>"], true));
    assert_eq!(step, IncludeStep::Read { from: Some("/p/sub".to_string()), name: "main".to_string() });
    // main was read already: it adds nothing
    let step = run.read(opened("/p/main", &["9.9.9.9 again"], true));
    assert_eq!(step, IncludeStep::Done("1.1.1.1 a\n3.3.3.3 c\n2.2.2.2 b\n".to_string()));
    assert!(run.failures().is_empty());
}

#[test]
fn includes_give_up_missing_files() {
    let (mut run, _) = process_all_includes("main".to_string());
    let step = run.read(opened("/p/main", &["#include <gone>", "#include <locked>", "#include <part>", "x"], true));
    assert_eq!(step, IncludeStep::Read { from: Some("/p/main".to_string()), name: "gone".to_string() });
    let step = run.read(FileEvent::Unresolved { path: "/p/gone".to_string() });
    assert_eq!(step, IncludeStep::Read { from: Some("/p/main".to_string()), name: "locked".to_string() });
    let step = run.read(FileEvent::Unopened { path: "/p/locked".to_string(), canonical: "/p/locked".to_string() });
    assert_eq!(step, IncludeStep::Read { from: Some("/p/main".to_string()), name: "part".to_string() });
    // a file whose lines could not all be read adds nothing
    let step = run.read(opened("/p/part", &["4.4.4.4 d"], false));
    assert_eq!(step, IncludeStep::Done("x\n".to_string()));
    assert_eq!(
        run.failures(),
        vec!["/p/gone".to_string(), "/p/locked".to_string(), "/p/part".to_string()]
    );
}

#[test]
fn includes_fail_on_first_file() {
    let (mut run, _) = process_all_includes("nope".to_string());
    assert_eq!(run.read(FileEvent::Unresolved { path: "nope".to_string() }), IncludeStep::Failed);
    let (mut run, _) = process_all_includes("locked".to_string());
    let e = FileEvent::Unopened { path: "locked".to_string(), canonical: "/p/locked".to_string() };
    assert_eq!(run.read(e), IncludeStep::Failed);
    let (mut run, _) = process_all_includes("part".to_string());
    assert_eq!(run.read(opened("/p/part", &["1.1.1.1 a"], false)), IncludeStep::Failed);
}

#[test]
fn finished_runs_take_nothing_more() {
    let (mut run, step) = process_all_requires("plain");
    assert_eq!(step, RequireStep::Done("plain\n".to_string()));
    assert_eq!(run.fetched(Some("late".to_string())), RequireStep::Failed);

    let (mut run, _) = process_all_includes("main".to_string());
    assert_eq!(run.read(opened("/p/main", &["x"], true)), IncludeStep::Done("x\n".to_string()));
    assert_eq!(run.read(opened("/p/other", &["y"], true)), IncludeStep::Failed);
    assert!(run.failures().is_empty());
}

#[test]
fn includes_stay_inside_downloads() {
    // a downloaded text is not searched for `#include` lines
    let (mut run, _) = process_all_requires("#require <https://lists.example/ads>");
    let step = run.fetched(Some("#include <base>\n0.0.0.0 ads.example".to_string()));
    assert_eq!(step, RequireStep::Done("#include <base>\n0.0.0.0 ads.example\n\n".to_string()));
}
