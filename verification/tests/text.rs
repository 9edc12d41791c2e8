use system_monitor_web::text::{
    i32_text, line_spans, parse_i32, parse_i64, parse_u64, split_spans, to_chars, trim_span,
    word_spans,
};

fn to_string(cs: &[char]) -> String {
    cs.iter().collect()
}

fn pieces(s: &str, spans: &[(usize, usize)]) -> Vec<String> {
    let cs = to_chars(s);
    spans.iter().map(|&(a, b)| to_string(&cs[a..b])).collect()
}

#[test]
fn lines_match_str_lines() {
    for s in ["", "a", "a\n", "a\nb", "a\r\nb\r\n", "\n\n", "a\r", "x\r\r\n", " \n\t"] {
        let cs = to_chars(s);
        let got = pieces(s, &line_spans(&cs));
        let want: Vec<String> = s.lines().map(|l| l.to_string()).collect();
        assert_eq!(got, want, "input {s:?}");
    }
}

#[test]
fn words_match_split_whitespace() {
    for s in ["", "  ", "a b", "  a\tb \n c  ", "x\u{a0}y\u{3000}z", "\u{2028}q"] {
        let cs = to_chars(s);
        let got = pieces(s, &word_spans(&cs));
        let want: Vec<String> = s.split_whitespace().map(|w| w.to_string()).collect();
        assert_eq!(got, want, "input {s:?}");
    }
}

#[test]
fn split_matches_str_split() {
    for s in ["", ",", "a,b", ",a,,b,", "abc"] {
        let cs = to_chars(s);
        let got = pieces(s, &split_spans(&cs, ','));
        let want: Vec<String> = s.split(',').map(|w| w.to_string()).collect();
        assert_eq!(got, want, "input {s:?}");
    }
}

#[test]
fn trim_matches_str_trim() {
    for s in ["", "   ", " a b ", "\u{85}x\u{205f}", "\u{200b}y"] {
        let cs = to_chars(s);
        let (a, b) = trim_span(&cs);
        assert_eq!(to_string(&cs[a..b]), s.trim(), "input {s:?}");
    }
}

#[test]
fn integer_parsing_matches_from_str() {
    let cases = [
        "", "+", "-", "0", "+7", "-7", "007", "18446744073709551615", "18446744073709551616",
        "9223372036854775807", "9223372036854775808", "-9223372036854775808",
        "-9223372036854775809", "2147483647", "2147483648", "-2147483648", "-2147483649", "1 2",
        "\u{663}", "-+1", "+-1",
    ];
    for s in cases {
        let cs = to_chars(s);
        assert_eq!(parse_u64(&cs), s.parse::<u64>().ok(), "u64 {s:?}");
        assert_eq!(parse_i64(&cs), s.parse::<i64>().ok(), "i64 {s:?}");
        assert_eq!(parse_i32(&cs), s.parse::<i32>().ok(), "i32 {s:?}");
    }
}

#[test]
fn i32_text_matches_display() {
    for v in [0, 7, 10, 4096, -1, -250, i32::MAX, i32::MIN] {
        let text: String = i32_text(v).into_iter().collect();
        assert_eq!(text, v.to_string());
    }
}
