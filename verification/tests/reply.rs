use focus_send::reply;

fn clean(raw: &str) -> String {
    reply::cleanup_reply(String::from(raw))
}

#[test]
fn cleanup_reply() {
    assert_eq!(
        reply::cleanup_reply(String::from("line1\nline2\r\nline3")),
        "line1\nline2\nline3"
    );
}

#[test]
fn cleanup_strips_sentinel_and_empty_lines_unix() {
    assert_eq!(clean("a\n\n.\nb"), "a\nb");
    assert_eq!(clean("a\n\n.\nb\n"), "a\nb");
}

#[test]
fn cleanup_strips_sentinel_and_empty_lines_crlf() {
    assert_eq!(clean("a\r\n\r\n.\r\nb"), "a\nb");
    assert_eq!(clean("a\r\n\r\n.\r\nb\r\n"), "a\nb");
}

#[test]
fn cleanup_strips_sentinel_and_empty_lines_mixed() {
    assert_eq!(clean("a\r\n\n.\r\nb\n"), "a\nb");
    assert_eq!(clean("a\n\r\n.\nb\r\n"), "a\nb");
}

#[test]
fn cleanup_of_nothing_but_framing_is_empty() {
    assert_eq!(clean(""), "");
    assert_eq!(clean("\n"), "");
    assert_eq!(clean("."), "");
    assert_eq!(clean(".\n"), "");
    assert_eq!(clean(".\r\n"), "");
    assert_eq!(clean("\n\n.\n\r\n.\r\n\n"), "");
}

#[test]
fn cleanup_keeps_the_order_of_lines() {
    assert_eq!(clean("3\n1\n.\n2\n\n1\n"), "3\n1\n2\n1");
    assert_eq!(clean("zeta\r\nalpha\r\n.\r\n"), "zeta\nalpha");
}

#[test]
fn cleanup_keeps_lines_that_only_hold_a_dot_among_others() {
    assert_eq!(clean("..\n. \n .\n.a\n"), "..\n. \n .\n.a");
}

#[test]
fn cleanup_has_no_trailing_line_feed() {
    assert_eq!(clean("one\ntwo\n"), "one\ntwo");
    assert_eq!(clean("one\n\n\n"), "one");
}

#[test]
fn cleanup_twice_is_cleanup_once() {
    for raw in [
        "line1\nline2\r\nline3",
        "a\n\n.\nb",
        "1.2.3\r\n.\r\n",
        "",
        ".\n.\n",
        "last\r",
        "x\ry\nz",
    ] {
        let once = clean(raw);
        let twice = clean(&once);
        assert_eq!(twice, once);
    }
}

#[test]
fn cleanup_keeps_a_carriage_return_that_ends_no_line() {
    assert_eq!(clean("a\rb\nc"), "a\rb\nc");
    assert_eq!(clean("tail\r"), "tail\r");
    assert_eq!(clean("\r"), "\r");
    assert_eq!(clean(".\r"), ".\r");
}

#[test]
fn cleanup_takes_one_carriage_return_with_the_line_feed() {
    assert_eq!(clean("a\r\r\nb"), "a\r\nb");
    assert_eq!(clean("\r\r\n"), "\r");
    assert_eq!(clean(clean("a\r\r\nb").as_str()), "a\nb");
}

#[test]
fn cleanup_keeps_text_beyond_ascii() {
    assert_eq!(clean("gr\u{fc}n\r\n\u{fffd}\n.\n"), "gr\u{fc}n\n\u{fffd}");
    assert_eq!(clean("\u{2028}\n"), "\u{2028}");
}

/// Every text of up to `max` characters over `alphabet`.
fn texts(alphabet: &[char], max: usize) -> Vec<String> {
    let mut all = vec![String::new()];
    let mut last = vec![String::new()];
    for _ in 0..max {
        let mut next = Vec::new();
        for text in &last {
            for c in alphabet {
                let mut longer = text.clone();
                longer.push(*c);
                next.push(longer);
            }
        }
        all.extend(next.iter().cloned());
        last = next;
    }
    all
}

#[test]
fn cleanup_agrees_with_std_lines() {
    for raw in texts(&['a', '.', '\r', '\n'], 7) {
        let expected = raw
            .lines()
            .filter(|l| !l.is_empty() && *l != ".")
            .collect::<Vec<&str>>()
            .join("\n");
        assert_eq!(clean(&raw), expected, "for {:?}", raw);
    }
}

#[test]
fn cleanup_twice_differs_only_after_a_stray_carriage_return() {
    for raw in texts(&['a', '.', '\r', '\n'], 7) {
        let once = clean(&raw);
        let twice = clean(&once);
        let kept: Vec<&str> = once.split('\n').collect();
        let stray = kept[..kept.len() - 1].iter().any(|line| line.ends_with('\r'));
        assert_eq!(twice != once, stray, "for {:?}", raw);
        if stray {
            assert!(twice.len() < once.len(), "for {:?}", raw);
        }
    }
}

#[test]
fn cleanup_never_ends_in_a_line_feed() {
    for raw in texts(&['a', '.', '\r', '\n'], 6) {
        let cleaned = clean(&raw);
        assert!(!cleaned.starts_with('\n'), "for {:?}", raw);
        assert!(!cleaned.ends_with('\n'), "for {:?}", raw);
    }
}
