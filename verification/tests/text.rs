use kursach::text::{push_dec, push_join, split_lines, trim, trim_end, trim_end_matches};

#[test]
fn decimal_numbers() {
    let mut s = String::new();
    push_dec(&mut s, 0);
    s.push(' ');
    push_dec(&mut s, 7);
    s.push(' ');
    push_dec(&mut s, 1968);
    s.push(' ');
    push_dec(&mut s, u64::MAX);
    assert_eq!(s, "0 7 1968 18446744073709551615");
}

#[test]
fn joining() {
    let mut s = String::from(">");
    push_join(&mut s, &vec!["a".to_string(), "b".to_string(), "c".to_string()], ", ");
    assert_eq!(s, ">a, b, c");
    let mut e = String::new();
    push_join(&mut e, &vec![], ", ");
    assert_eq!(e, "");
}

#[test]
fn trimming_matches_std() {
    for t in ["  a b \t\n", "\u{3000}x\u{a0}", "", "   ", "no", "\u{85}y\u{2029}"] {
        assert_eq!(trim(t), t.trim());
        assert_eq!(trim_end(t), t.trim_end());
    }
    assert_eq!(trim_end_matches("12ptpt", "pt"), "12");
    assert_eq!(trim_end_matches("pt", "pt"), "");
    assert_eq!(trim_end_matches("12p", "pt"), "12p");
}

#[test]
fn lines_match_std() {
    for t in ["a\nb", "a\n", "", "\n", "a\r\nb\r\n", "a\r", "x\n\ny\n\n", "\r\n\r"] {
        let got = split_lines(t);
        let want: Vec<String> = t.lines().map(|l| l.to_string()).collect();
        assert_eq!(got, want, "for {:?}", t);
    }
}
