use pihole_restore::pihole::dns::{
    get_current_local_dns_entries, get_local_dns_entries, malformed_lines,
};
use pihole_restore::error::RestoreError;

fn pairs(text: &str) -> Vec<(String, String)> {
    get_local_dns_entries(text)
        .into_iter()
        .map(|entry| (entry.ip, entry.domain))
        .collect()
}

/// What the standard library's line and field splitting make of a text.
fn by_std(text: &str) -> Vec<(String, String)> {
    let mut found = Vec::new();
    for line in text.lines() {
        let sections: Vec<&str> = line.split(" ").collect();
        if sections.len() == 2 {
            found.push((sections[0].to_string(), sections[1].to_string()));
        }
    }
    found
}

fn pair(ip: &str, domain: &str) -> (String, String) {
    (ip.to_string(), domain.to_string())
}

#[test]
fn malformed_line_is_skipped() {
    let entries = get_local_dns_entries("1.2.3.4 foo.local\nbad-line-no-space\n5.6.7.8 bar.local");
    assert_eq!(entries.len(), 2);
    assert_eq!(entries[0].ip, "1.2.3.4");
    assert_eq!(entries[0].domain, "foo.local");
    assert_eq!(entries[1].ip, "5.6.7.8");
    assert_eq!(entries[1].domain, "bar.local");
}

#[test]
fn empty_text_holds_no_entries() {
    assert!(pairs("").is_empty());
    assert!(pairs("\n").is_empty());
    assert!(pairs("\n\n\r\n").is_empty());
}

#[test]
fn final_line_ending_is_optional() {
    let expected = vec![pair("10.0.0.1", "a.lan"), pair("10.0.0.2", "b.lan")];
    assert_eq!(pairs("10.0.0.1 a.lan\n10.0.0.2 b.lan"), expected);
    assert_eq!(pairs("10.0.0.1 a.lan\n10.0.0.2 b.lan\n"), expected);
}

#[test]
fn carriage_return_before_line_feed_is_dropped() {
    assert_eq!(
        pairs("10.0.0.1 a.lan\r\n10.0.0.2 b.lan\r\n"),
        vec![pair("10.0.0.1", "a.lan"), pair("10.0.0.2", "b.lan")]
    );
}

#[test]
fn bare_carriage_return_at_the_end_is_kept() {
    assert_eq!(pairs("10.0.0.1 a.lan\r"), vec![pair("10.0.0.1", "a.lan\r")]);
    assert_eq!(pairs("10.0.0.1 a\rb.lan\n"), vec![pair("10.0.0.1", "a\rb.lan")]);
}

#[test]
fn only_exactly_two_fields_make_an_entry() {
    assert!(pairs("10.0.0.1  a.lan").is_empty());
    assert!(pairs("10.0.0.1 a.lan extra").is_empty());
    assert!(pairs("10.0.0.1 a.lan ").is_empty());
    assert!(pairs("nospace").is_empty());
    assert_eq!(pairs(" a.lan"), vec![pair("", "a.lan")]);
    assert_eq!(pairs("10.0.0.1 "), vec![pair("10.0.0.1", "")]);
    assert_eq!(pairs(" "), vec![pair("", "")]);
    assert!(pairs("10.0.0.1\ta.lan").is_empty());
}

#[test]
fn entries_come_in_file_order() {
    assert_eq!(
        pairs("3.3.3.3 c\n1.1.1.1 a\nbroken\n2.2.2.2 b\n1.1.1.1 a\n"),
        vec![pair("3.3.3.3", "c"), pair("1.1.1.1", "a"), pair("2.2.2.2", "b"), pair("1.1.1.1", "a")]
    );
}

#[test]
fn characters_outside_ascii_are_kept() {
    assert_eq!(pairs("::1 bücher.example\n"), vec![pair("::1", "bücher.example")]);
    assert_eq!(pairs("fe80::1 日本.lan\r\nx"), vec![pair("fe80::1", "日本.lan")]);
}

#[test]
fn parsing_agrees_with_the_standard_library() {
    let samples = [
        "",
        "\n",
        "\r",
        "\r\n",
        " ",
        "  ",
        "a b",
        "a b\n",
        "a b\r\n",
        "a b\r",
        "a b\n\r",
        "a b\r\r\n",
        "a  b\nc d\n\ne f g\n h\ni \n",
        "1.2.3.4 foo.local\nbad-line-no-space\n5.6.7.8 bar.local",
        "\n\na b\n\n",
        "a b\nc d",
        "ä ö\nü\n",
        "tab\tseparated\nreal one\n",
        " \n \r\n \r",
    ];
    for sample in samples {
        assert_eq!(pairs(sample), by_std(sample), "on {:?}", sample);
    }
}

#[test]
fn current_entries_are_those_of_the_text_read() {
    let read = get_current_local_dns_entries(Ok("9.9.9.9 baz.local\nnonsense\n".to_string()));
    let entries = read.unwrap();
    assert_eq!(entries.len(), 1);
    assert_eq!(entries[0].ip, "9.9.9.9");
    assert_eq!(entries[0].domain, "baz.local");
}

#[test]
fn unreadable_file_gives_no_current_entries() {
    let read = get_current_local_dns_entries(Err("permission denied".to_string()));
    match read {
        Err(RestoreError::OverrideFile(reason)) => assert_eq!(reason, "permission denied"),
        other => panic!("unexpected: {:?}", other),
    }
}

#[test]
fn parsed_fields_are_single_words() {
    let samples = [
        "a b\nc d\r\ne  f\n g\nh \n",
        "1.2.3.4 foo.local\nbad-line-no-space\n5.6.7.8 bar.local",
        "x y\rz\nlast one",
    ];
    for sample in samples {
        for (ip, domain) in pairs(sample) {
            assert!(!ip.contains(' ') && !ip.contains('\n'), "on {:?}", sample);
            assert!(!domain.contains(' ') && !domain.contains('\n'), "on {:?}", sample);
        }
    }
}

/// The lines that the standard library's splitting does not make an entry of.
fn passed_over_by_std(text: &str) -> Vec<String> {
    text.lines()
        .filter(|line| line.split(" ").count() != 2)
        .map(|line| line.to_string())
        .collect()
}

#[test]
fn malformed_lines_are_those_passed_over() {
    assert_eq!(
        malformed_lines("1.2.3.4 foo.local\nbad-line-no-space\n5.6.7.8 bar.local"),
        vec!["bad-line-no-space"]
    );
    assert!(malformed_lines("").is_empty());
    assert!(malformed_lines("a b\nc d\n").is_empty());
    assert_eq!(malformed_lines("\n"), vec![""]);
    assert_eq!(
        malformed_lines("a  b\r\nok one\n\nthree fields here\nlast"),
        vec!["a  b", "", "three fields here", "last"]
    );
}

#[test]
fn malformed_lines_agree_with_the_standard_library() {
    let samples = [
        "",
        "\n",
        "\r",
        "\r\n",
        " ",
        "  ",
        "a b",
        "a b\r",
        "a b\n\r",
        "a  b\nc d\n\ne f g\n h\ni \n",
        "1.2.3.4 foo.local\nbad-line-no-space\n5.6.7.8 bar.local",
        "ä ö\nü\n",
        " \n \r\n \r",
    ];
    for sample in samples {
        assert_eq!(malformed_lines(sample), passed_over_by_std(sample), "on {:?}", sample);
    }
}

#[test]
fn every_line_is_an_entry_or_malformed() {
    let sample = "a b\nbroken\nc d\r\n\ntoo many fields\ne f";
    let entries = get_local_dns_entries(sample).len();
    let malformed = malformed_lines(sample).len();
    assert_eq!(entries, 3);
    assert_eq!(malformed, 3);
    assert_eq!(entries + malformed, sample.lines().count());
}
