use hsf::backup::{
    backup_file_name, backup_info, backup_matches, info_backup, is_valid_name, parse_backup,
    BackupAction, HostsBackup,
};
use hsf::error::HsfError;
use hsf::sysfiles::{
    _is_valid_filename, count_rules, first_invalid_hosts_line, is_valid_domain,
    is_valid_domain_with_protocol, is_valid_hostname, is_valid_hosts_content, is_valid_ip,
    is_valid_ip_with_protocol, text_stats, trim_protocol,
};
use hsf::text::trimmed;
use hsf::cli::{command, Command};

#[test]
fn backup_names() {
    assert!(is_valid_name("backup1"));
    assert!(is_valid_name("résumé"));
    assert!(!is_valid_name(""));
    assert!(!is_valid_name("SRC"));
    assert!(!is_valid_name("Target"));
    assert!(!is_valid_name("."));
    assert!(!is_valid_name(".."));
    assert!(is_valid_name("..."));
    assert!(!is_valid_name("a/b"));
    assert!(!is_valid_name("a\\b"));
    assert!(!is_valid_name("a:b"));
    assert!(!is_valid_name("a|b"));
    assert!(!is_valid_name("a\tb"));
    assert!(!is_valid_name("a\u{7f}"));
    assert!(!is_valid_name("a\0"));
    assert!(!is_valid_name("-x"));
    assert!(is_valid_name("x-"));
    assert!(is_valid_name(&"a".repeat(255)));
    assert!(!is_valid_name(&"a".repeat(256)));
    assert!(!is_valid_name(&"é".repeat(128)));
}

#[test]
fn backup_actions() {
    assert_eq!(parse_backup("NEW"), Ok(BackupAction::New));
    assert_eq!(parse_backup("-n"), Ok(BackupAction::New));
    assert_eq!(parse_backup("f"), Ok(BackupAction::From));
    assert_eq!(parse_backup("rm"), Ok(BackupAction::Delete));
    assert_eq!(parse_backup("--Delete"), Ok(BackupAction::Delete));
    assert_eq!(parse_backup("-ls"), Ok(BackupAction::List));
    assert_eq!(parse_backup("Stat"), Ok(BackupAction::Info));
    assert_eq!(parse_backup("zstat "), Ok(BackupAction::Info));
    let e = parse_backup("zstat").unwrap_err();
    assert_eq!(e, HsfError::UnknownAction("zstat".to_string()));
    assert_eq!(e.message(), "Action zstat doesn't exist");
}

#[test]
fn backup_files_and_search() {
    assert_eq!(backup_file_name("work"), "work.hosts");
    assert!(backup_matches("MyBackup", "BACK"));
    assert!(backup_matches("x", ""));
    assert!(!backup_matches("abc", "d"));
}

#[test]
fn backup_text_format() {
    let b = HostsBackup { create_time: 123, content: "a\nb".to_string() };
    assert_eq!(b.to_string(), "# 123 \na\nb");
    let n = HostsBackup { create_time: -5, content: String::new() };
    assert_eq!(n.to_string(), "# -5 \n");
    let m = HostsBackup { create_time: i64::MIN, content: "x".to_string() };
    assert_eq!(m.to_string(), "# -9223372036854775808 \nx");
    let z = HostsBackup { create_time: 0, content: String::new() };
    assert_eq!(z.to_string(), "# 0 \n");
}

#[test]
fn backup_read_back() {
    let b = HostsBackup { create_time: 1700000000, content: "127.0.0.1 localhost\n".to_string() };
    let r = HostsBackup::from(&b.to_string());
    assert_eq!(r.create_time, 1700000000);
    assert_eq!(r.content, "127.0.0.1 localhost\n");
    let big = HostsBackup { create_time: i64::MAX, content: "c".to_string() };
    let r = HostsBackup::from(&big.to_string());
    assert_eq!(r.create_time, i64::MAX);
    assert_eq!(r.content, "c");
}

#[test]
fn backup_read_odd_files() {
    let r = HostsBackup::from("no newline");
    assert_eq!(r.create_time, 0);
    assert_eq!(r.content, "no newline");
    let r = HostsBackup::from("# 12x34 \nc");
    assert_eq!(r.create_time, 0);
    assert_eq!(r.content, "c");
    let r = HostsBackup::from("# 99999999999999999999 \n");
    assert_eq!(r.create_time, 0);
    // A negative time loses its sign: the minus is not numeric.
    let r = HostsBackup::from("# -5 \nc");
    assert_eq!(r.create_time, 5);
    let r = HostsBackup::from("# \u{b2}1 \n");
    assert_eq!(r.create_time, 0);
    let r = HostsBackup::from("time: 42 s\nrest\nmore");
    assert_eq!(r.create_time, 42);
    assert_eq!(r.content, "rest\nmore");
}

#[test]
fn rules_and_stats() {
    assert_eq!(count_rules("127.0.0.1 localhost\n# comment\n\n  ::1 ip6\n   # x\n"), 2);
    assert_eq!(count_rules(""), 0);
    let s = text_stats("ab\nc");
    assert_eq!((s.lines, s.chars, s.bytes), (2, 4, 4));
    let s = text_stats("é\n");
    assert_eq!((s.lines, s.chars, s.bytes), (1, 2, 3));
}

#[test]
fn hostnames() {
    assert!(is_valid_hostname("my-host"));
    assert!(is_valid_hostname("a1"));
    assert!(!is_valid_hostname("-a"));
    assert!(!is_valid_hostname("a-"));
    assert!(!is_valid_hostname(""));
    assert!(!is_valid_hostname("a_b"));
    // only lower-case letters
    assert!(!is_valid_hostname("Ab"));
    assert!(!is_valid_hostname("MyHost"));
    assert!(is_valid_hostname("0-9"));
    assert!(!is_valid_hostname("héllo"));
    assert!(is_valid_hostname(&"a".repeat(63)));
    assert!(!is_valid_hostname(&"a".repeat(64)));
}

#[test]
fn domains() {
    assert!(is_valid_domain("example.com"));
    assert!(is_valid_domain("  example.com \n"));
    assert!(is_valid_domain("домен.рф"));
    assert!(!is_valid_domain("ex..com"));
    assert!(!is_valid_domain(".a"));
    assert!(!is_valid_domain("a."));
    assert!(!is_valid_domain("-a"));
    assert!(!is_valid_domain("a-"));
    assert!(!is_valid_domain("a b"));
    assert!(!is_valid_domain("a_b"));
    assert!(!is_valid_domain("   "));
    assert!(is_valid_domain(&"a".repeat(253)));
    assert!(!is_valid_domain(&"a".repeat(254)));
}

#[test]
fn protocols() {
    assert_eq!(trim_protocol("https://example.com/path"), Some("example.com".to_string()));
    assert_eq!(trim_protocol("  http://a.b  "), Some("a.b".to_string()));
    assert_eq!(trim_protocol("https://https://x/y"), Some("x".to_string()));
    assert_eq!(trim_protocol("http://https://x"), Some("https:".to_string()));
    assert_eq!(trim_protocol("ftp://x"), None);
    assert_eq!(trim_protocol("example.com"), None);
    assert!(is_valid_ip_with_protocol("http://127.0.0.1"));
    assert!(is_valid_ip_with_protocol("https://10.0.0.1/list.txt"));
    assert!(!is_valid_ip_with_protocol("127.0.0.1"));
    assert!(is_valid_domain_with_protocol("https://example.com/x"));
    assert!(!is_valid_domain_with_protocol("example.com"));
    assert!(!is_valid_domain_with_protocol("https://"));
}

#[test]
fn addresses() {
    assert!(is_valid_ip("127.0.0.1"));
    assert!(is_valid_ip("::1"));
    assert!(is_valid_ip("fe80::1"));
    assert!(!is_valid_ip("256.0.0.1"));
    assert!(!is_valid_ip("localhost"));
    assert!(!is_valid_ip(""));
}

#[test]
fn file_names() {
    assert!(_is_valid_filename("base"));
    assert!(_is_valid_filename("my_preset-1.hosts"));
    assert!(!_is_valid_filename("."));
    assert!(!_is_valid_filename(".."));
    assert!(!_is_valid_filename("a b"));
    assert!(!_is_valid_filename(""));
    assert!(!_is_valid_filename(&"a".repeat(256)));
}

#[test]
fn hosts_content() {
    assert!(is_valid_hosts_content("127.0.0.1 localhost\n::1 ip6-localhost # loopback\n\n# c\n"));
    assert!(is_valid_hosts_content("fe80::1%eth0 router"));
    assert!(is_valid_hosts_content(""));
    assert!(!is_valid_hosts_content("127.0.0.1\n"));
    assert_eq!(first_invalid_hosts_line("127.0.0.1 a\nfoo bar\n"), Some(1));
    assert_eq!(first_invalid_hosts_line("127.0.0.1 a\n0.0.0.0 b\n"), None);
    assert_eq!(first_invalid_hosts_line("127.0.0.1 # only ip\n"), Some(0));
}

#[test]
fn trimming() {
    assert_eq!(trimmed("  host\n"), "host");
    assert_eq!(trimmed(""), "");
}

#[test]
fn commands() {
    assert_eq!(command("help"), Command::Help);
    assert_eq!(command("-v"), Command::Version);
    assert_eq!(command("ba"), Command::Reset);
    assert_eq!(command("zstat"), Command::Info);
    assert_eq!(command("-ck"), Command::Check);
    assert_eq!(command("rm"), Command::Remove);
    assert_eq!(command("p"), Command::Preset);
    assert_eq!(command("HELP"), Command::Nothing);
}

#[test]
fn backup_information() {
    let file = "# 1700000000 \n127.0.0.1 localhost\n# c\n0.0.0.0 ads é\n";
    let i = backup_info(file, "then".to_string());
    assert_eq!(i.created, "then");
    assert_eq!(i.rules, 2);
    assert_eq!((i.storage.lines, i.storage.chars, i.storage.bytes), (4, 52, 53));
    assert_eq!((i.content.lines, i.content.chars, i.content.bytes), (3, 38, 39));
    // `%s` writes the seconds since the epoch, whatever the time zone
    let i = info_backup(file, "%s").unwrap();
    assert_eq!(i.created, "1700000000");
    assert_eq!(i.rules, 2);
    // a format that chrono refuses gives nothing
    assert!(info_backup(file, "%Q").is_none());
}

#[test]
fn backup_taken_now() {
    let b = HostsBackup::taken_now("x".to_string());
    assert_eq!(b.content, "x");
    assert!(b.create_time > 1_600_000_000);
    let r = HostsBackup::from(&b.to_string());
    assert_eq!((r.create_time, r.content), (b.create_time, b.content));
}

#[test]
fn backup_read_back_negative_time() {
    // the content always comes back; a negative time loses its sign
    let b = HostsBackup { create_time: -42, content: "a\nb".to_string() };
    let r = HostsBackup::from(&b.to_string());
    assert_eq!(r.content, "a\nb");
    assert_eq!(r.create_time, 42);
}

#[test]
fn domains_ignore_space_and_urls_need_bare_hosts() {
    assert!(is_valid_domain(" \tпример.рф\n"));
    assert!(is_valid_domain_with_protocol("https://пример.рф/x"));
    assert!(!is_valid_domain_with_protocol("https://\u{a0}a.com"));
    assert!(!is_valid_domain("a\u{3000}b"));
}
