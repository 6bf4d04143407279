use hsf::error::HsfError;
use hsf::sysfiles::count_rules;
use hsf::utils::{
    add, check, clear, is_confirmed, line_answer, remove, reset, time_format, AddOutcome,
    HostnameAsk, HostnameDialog,
};

const HOSTS: &str = "127.0.0.1 localhost\n# 1.2.3.4 example.com\n0.0.0.0 example.com www.example.com\n";

#[test]
fn check_finds_first_rule() {
    assert_eq!(check(HOSTS, "www.example.com"), Ok(Some("0.0.0.0".to_string())));
    assert_eq!(check(HOSTS, "example.com"), Ok(Some("0.0.0.0".to_string())));
    assert_eq!(check(HOSTS, "localhost"), Ok(Some("127.0.0.1".to_string())));
    // the address itself is not a name
    assert_eq!(check(HOSTS, "missing.org"), Ok(None));
    let two = "1.1.1.1 a.com\n2.2.2.2 a.com\n";
    assert_eq!(check(two, "a.com"), Ok(Some("1.1.1.1".to_string())));
    let indented = "   \t9.9.9.9\tb.org  \r\n";
    assert_eq!(check(indented, "b.org"), Ok(Some("9.9.9.9".to_string())));
    assert_eq!(check("", "a.com"), Ok(None));
}

#[test]
fn check_refuses_bad_domain() {
    let e = check(HOSTS, "").unwrap_err();
    assert_eq!(e, HsfError::EmptyDomain);
    assert_eq!(e.message(), "Domain couldn't be empty");
    assert_eq!(check(HOSTS, "a..b"), Err(HsfError::EmptyDomain));
    assert_eq!(check(HOSTS, "-a.b"), Err(HsfError::EmptyDomain));
}

#[test]
fn add_appends_new_entry() {
    let r = add("127.0.0.1 localhost\n", "0.0.0.0", "example.com").unwrap();
    assert_eq!(
        r,
        AddOutcome::Append { content: "127.0.0.1 localhost\n0.0.0.0 example.com\n".to_string() }
    );
    let r = add("127.0.0.1 localhost\n\n  \n", "::1", "ip6.example").unwrap();
    assert_eq!(
        r,
        AddOutcome::Append { content: "127.0.0.1 localhost\n::1 ip6.example\n".to_string() }
    );
    let r = add("", "10.0.0.1", "lan").unwrap();
    assert_eq!(r, AddOutcome::Append { content: "\n10.0.0.1 lan\n".to_string() });
}

#[test]
fn add_reports_present_entry() {
    let r = add("# c\n0.0.0.0 example.com\n", "0.0.0.0", "example.com").unwrap();
    assert_eq!(r, AddOutcome::Present { line: 2 });
    let r = add(HOSTS, "0.0.0.0", "www.example.com").unwrap();
    assert_eq!(r, AddOutcome::Present { line: 3 });
}

#[test]
fn add_replaces_other_address() {
    let c = "127.0.0.1 localhost\n0.0.0.0 example.com other.com\n# end\n";
    let r = add(c, "1.1.1.1", "example.com").unwrap();
    assert_eq!(
        r,
        AddOutcome::Replace {
            content: "127.0.0.1 localhost\n0.0.0.0 other.com\n# end\n1.1.1.1 example.com\n"
                .to_string()
        }
    );
    let c = "0.0.0.0 example.com\n127.0.0.1 localhost\n";
    let r = add(c, "1.1.1.1", "example.com").unwrap();
    assert_eq!(
        r,
        AddOutcome::Replace { content: "127.0.0.1 localhost\n1.1.1.1 example.com\n".to_string() }
    );
}

#[test]
fn add_refuses_bad_input() {
    let e = add(HOSTS, "999.1.1.1", "a.com").unwrap_err();
    assert_eq!(e, HsfError::EmptyIpOrDomain);
    assert_eq!(e.message(), "Ip or domain couldn't be empty");
    assert_eq!(add(HOSTS, "1.1.1.1", ""), Err(HsfError::EmptyIpOrDomain));
    assert_eq!(add(HOSTS, "", "a.com"), Err(HsfError::EmptyIpOrDomain));
    assert_eq!(add(HOSTS, "1.1.1.1", "a.com."), Err(HsfError::EmptyIpOrDomain));
}

#[test]
fn added_entry_is_found() {
    // after an append or a replacement, check gives the new address
    let r = add(HOSTS, "5.5.5.5", "new.org").unwrap();
    let AddOutcome::Append { content } = r else { panic!("expected an append") };
    assert_eq!(check(&content, "new.org"), Ok(Some("5.5.5.5".to_string())));
    let r = add(HOSTS, "6.6.6.6", "example.com").unwrap();
    let AddOutcome::Replace { content } = r else { panic!("expected a replacement") };
    assert_eq!(check(&content, "example.com"), Ok(Some("6.6.6.6".to_string())));
    assert_eq!(check(&content, "www.example.com"), Ok(Some("0.0.0.0".to_string())));
}

#[test]
fn remove_takes_domain_out() {
    let c = "127.0.0.1 localhost\n0.0.0.0 a.com b.com\n  # keep  \n0.0.0.0 a.com\n";
    let r = remove(c, "a.com").unwrap();
    assert_eq!(r, Some("127.0.0.1 localhost\n0.0.0.0 b.com\n  # keep  \n".to_string()));
    assert_eq!(remove(c, "c.com"), Ok(None));
    let removed = r.unwrap();
    assert_eq!(check(&removed, "a.com"), Ok(None));
    assert_eq!(check(&removed, "b.com"), Ok(Some("0.0.0.0".to_string())));
    // a rule line is rebuilt from its words
    let r = remove("1.1.1.1\t x.com \t y.com\n", "y.com").unwrap();
    assert_eq!(r, Some("1.1.1.1 x.com\n".to_string()));
}

#[test]
fn remove_refuses_bad_domain() {
    let e = remove(HOSTS, "").unwrap_err();
    assert_eq!(e, HsfError::IncorrectDomain);
    assert_eq!(e.message(), "domain is incorrect");
}

#[test]
fn confirmations() {
    assert!(is_confirmed("y"));
    assert!(is_confirmed("Y"));
    assert!(!is_confirmed("yes"));
    assert!(!is_confirmed(""));
    assert!(!is_confirmed(" y"));
    assert_eq!(clear("Y"), Some(String::new()));
    assert_eq!(clear("n"), None);
    assert_eq!(clear(""), None);
}

#[test]
fn terminal_answers() {
    assert_eq!(line_answer("yes\r\n"), "yes");
    assert_eq!(line_answer("a\n\r\n"), "a\n");
    assert_eq!(line_answer("a\n\n"), "a");
    assert_eq!(line_answer("a\r\r\n"), "a");
    assert_eq!(line_answer(" b "), " b ");
    assert_eq!(line_answer(""), "");
}

#[test]
fn reset_fills_hostname() {
    let t = "127.0.0.1 localhost\n127.0.1.1 %HOSTNAME%\n::1 %HOSTNAME% ip6-localhost\n";
    assert_eq!(
        reset(t, "box"),
        "127.0.0.1 localhost\n127.0.1.1 box\n::1 box ip6-localhost\n"
    );
    assert_eq!(reset("%HOSTNAME%%HOSTNAME", "x"), "x%HOSTNAME");
    assert_eq!(reset("none", "x"), "none");
}

#[test]
fn dialog_without_file_hostname() {
    let (mut d, q) = HostnameDialog::start(String::new());
    assert_eq!(q, HostnameAsk::New { complain: false });
    assert_eq!(d.answer(String::new()), HostnameAsk::New { complain: false });
    assert_eq!(d.answer("bad_name".to_string()), HostnameAsk::New { complain: true });
    assert_eq!(d.answer("-x".to_string()), HostnameAsk::New { complain: true });
    assert_eq!(
        d.answer("myhost".to_string()),
        HostnameAsk::Edit { hostname: "myhost".to_string() }
    );
    assert_eq!(
        d.answer(String::new()),
        HostnameAsk::Done { hostname: "myhost".to_string(), write: true }
    );
    // once over, the dialog gives the same end
    assert_eq!(
        d.answer("other".to_string()),
        HostnameAsk::Done { hostname: "myhost".to_string(), write: true }
    );
}

#[test]
fn dialog_with_file_hostname() {
    let (mut d, q) = HostnameDialog::start("filehost".to_string());
    assert_eq!(q, HostnameAsk::Override { complain: false });
    assert_eq!(
        d.answer(String::new()),
        HostnameAsk::Done { hostname: "filehost".to_string(), write: false }
    );
    assert_eq!(
        d.answer(String::new()),
        HostnameAsk::Done { hostname: "filehost".to_string(), write: false }
    );

    let (mut d, _) = HostnameDialog::start("filehost".to_string());
    assert_eq!(d.answer("bad host".to_string()), HostnameAsk::Override { complain: true });
    assert_eq!(
        d.answer("newhost".to_string()),
        HostnameAsk::Edit { hostname: "newhost".to_string() }
    );
    assert_eq!(
        d.answer("n".to_string()),
        HostnameAsk::Done { hostname: "newhost".to_string(), write: false }
    );
}

#[test]
fn add_twice_is_present() {
    let c = "127.0.0.1 localhost\n0.0.0.0 www.example.com\n";
    let r = add(c, "0.0.0.0", "example.com").unwrap();
    let AddOutcome::Append { content } = r else { panic!("expected an append") };
    assert_eq!(content, "127.0.0.1 localhost\n0.0.0.0 www.example.com\n0.0.0.0 example.com\n");
    assert_eq!(add(&content, "0.0.0.0", "example.com"), Ok(AddOutcome::Present { line: 3 }));
}

#[test]
fn append_adds_one_rule() {
    let c = "127.0.0.1 localhost\n# c\n\n  \t\r\n";
    let r = add(c, "1.2.3.4", "a.org").unwrap();
    let AddOutcome::Append { content } = r else { panic!("expected an append") };
    assert_eq!(count_rules(&content), count_rules(c) + 1);
    assert_eq!(content, "127.0.0.1 localhost\n# c\n1.2.3.4 a.org\n");
}

#[test]
fn replace_concrete() {
    let c = "127.0.0.1 localhost\n1.2.3.4 a.com b.com\n";
    let r = add(c, "0.0.0.0", "a.com").unwrap();
    assert_eq!(
        r,
        AddOutcome::Replace { content: "127.0.0.1 localhost\n1.2.3.4 b.com\n0.0.0.0 a.com\n".to_string() }
    );
}

#[test]
fn time_formats() {
    assert_eq!(time_format(Some("  %H:%M \n"), Some("%Y")), "%H:%M");
    assert_eq!(time_format(Some(" \n"), Some("%Y\n")), "%Y");
    assert_eq!(time_format(None, Some("%d")), "%d");
    assert_eq!(time_format(None, None), "%Y-%m-%dT%H:%M:%SZ");
    assert_eq!(time_format(Some(""), Some("   ")), "%Y-%m-%dT%H:%M:%SZ");
}

#[test]
fn remove_concrete() {
    let c = "127.0.0.1 localhost\n# blocked\n0.0.0.0 a.com b.com\n0.0.0.0 a.com\n";
    assert_eq!(
        remove(c, "a.com"),
        Ok(Some("127.0.0.1 localhost\n# blocked\n0.0.0.0 b.com\n".to_string()))
    );
}
