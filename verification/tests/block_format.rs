use zimu::error::Error;
use zimu::srt_parser::parse;
use zimu::time::Time;

fn time(h: u32, m: u32, s: u32, ms: u32) -> Time {
    Time::from_hms_milli(h, m, s, ms).unwrap()
}

fn blocks(input: &str) -> Vec<zimu::ast::Block> {
    parse(input).unwrap().into_iter().map(|b| b.into_block()).collect()
}

#[test]
fn minimal_input_gives_one_block() {
    let got = blocks("1\n00:00:01,000 --> 00:00:02,500\nHello\n\n");
    assert_eq!(got.len(), 1);
    assert_eq!(got[0].start, time(0, 0, 1, 0));
    assert_eq!(got[0].end, time(0, 0, 2, 500));
    assert_eq!(got[0].content, vec!["Hello".to_string()]);
}

#[test]
fn content_lines_are_kept_verbatim() {
    let got = blocks("7\n00:00:01,000 --> 00:00:02,000\n  two  spaces \n\tand a tab\n\n");
    assert_eq!(got[0].content, vec!["  two  spaces ".to_string(), "\tand a tab".to_string()]);
}

#[test]
fn records_come_out_sorted_by_start_then_end() {
    let input = "1\n00:00:05,000 --> 00:00:06,000\nc\n\n\
                 2\n00:00:01,000 --> 00:00:03,000\nb\n\n\
                 3\n00:00:01,000 --> 00:00:02,000\na\n\n";
    let got = blocks(input);
    let texts: Vec<&str> = got.iter().map(|b| b.content[0].as_str()).collect();
    assert_eq!(texts, vec!["a", "b", "c"]);
}

#[test]
fn records_with_the_same_times_keep_their_order() {
    let input = "1\n00:00:01,000 --> 00:00:02,000\nfirst\n\n\
                 2\n00:00:01,000 --> 00:00:02,000\nsecond\n\n";
    let got = blocks(input);
    assert_eq!(got[0].content, vec!["first".to_string()]);
    assert_eq!(got[1].content, vec!["second".to_string()]);
}

#[test]
fn sequence_ids_are_kept() {
    let got = parse("42\n00:00:01,000 --> 00:00:02,000\nx\n\n").unwrap();
    assert_eq!(got[0].sequence_id(), 42);
}

#[test]
fn leading_byte_order_mark_changes_nothing() {
    let plain = "1\n00:00:01,000 --> 00:00:02,500\nHello\n\n";
    let marked = format!("\u{feff}{}", plain);
    assert_eq!(parse(&marked), parse(plain));
    assert_eq!(parse(&marked).unwrap().len(), 1);
}

#[test]
fn open_record_at_the_end_is_dropped() {
    let got = blocks("1\n00:00:01,000 --> 00:00:02,000\na\n\n2\n00:00:03,000 --> 00:00:04,000\nb\n");
    assert_eq!(got.len(), 1);
    assert_eq!(got[0].content, vec!["a".to_string()]);
}

#[test]
fn empty_input_gives_no_blocks() {
    assert_eq!(parse("").unwrap().len(), 0);
}

#[test]
fn carriage_returns_before_line_feeds_are_dropped() {
    let got = blocks("1\r\n00:00:01,000 --> 00:00:02,000\r\nHello\r\n\r\n");
    assert_eq!(got.len(), 1);
    assert_eq!(got[0].content, vec!["Hello".to_string()]);
}

#[test]
fn mixed_line_endings_are_rejected() {
    assert_eq!(
        parse("1\r\n00:00:01,000 --> 00:00:02,000\nHello\n\n"),
        Err(Error::MalformedStructure)
    );
}

#[test]
fn bad_sequence_id_is_a_malformed_integer() {
    assert_eq!(parse("one\n00:00:01,000 --> 00:00:02,000\nx\n\n"), Err(Error::MalformedInteger));
    assert_eq!(parse("-1\n00:00:01,000 --> 00:00:02,000\nx\n\n"), Err(Error::MalformedInteger));
    assert_eq!(parse("\n"), Err(Error::MalformedInteger));
    assert_eq!(
        parse("18446744073709551616\n00:00:01,000 --> 00:00:02,000\nx\n\n"),
        Err(Error::MalformedInteger)
    );
}

#[test]
fn largest_sequence_id_is_read() {
    let got = parse("18446744073709551615\n00:00:01,000 --> 00:00:02,000\nx\n\n").unwrap();
    assert_eq!(got[0].sequence_id(), u64::MAX);
    let got = parse("+5\n00:00:01,000 --> 00:00:02,000\nx\n\n").unwrap();
    assert_eq!(got[0].sequence_id(), 5);
}

#[test]
fn missing_arrow_is_a_malformed_structure() {
    assert_eq!(parse("1\n00:00:01,000 00:00:02,000\nx\n\n"), Err(Error::MalformedStructure));
    assert_eq!(parse("1\n00:00:01,000 -> 00:00:02,000\nx\n\n"), Err(Error::MalformedStructure));
    assert_eq!(parse("1\n00:00:01,000\nx\n\n"), Err(Error::MalformedStructure));
    assert_eq!(parse("1\n00:00:01,000 -->\nx\n\n"), Err(Error::MalformedStructure));
    assert_eq!(parse("1\n   \nx\n\n"), Err(Error::MalformedStructure));
}

#[test]
fn bad_time_is_a_malformed_time() {
    assert_eq!(parse("1\n00:00:01.000 --> 00:00:02,000\nx\n\n"), Err(Error::MalformedTime));
    assert_eq!(parse("1\n00:00:01,000 --> 00:00:02\nx\n\n"), Err(Error::MalformedTime));
    assert_eq!(parse("1\n24:00:00,000 --> 25:00:00,000\nx\n\n"), Err(Error::MalformedTime));
    assert_eq!(parse("1\nabc --> 00:00:02,000\nx\n\n"), Err(Error::MalformedTime));
}

#[test]
fn bad_start_is_reported_before_a_missing_arrow() {
    assert_eq!(parse("1\nabc\nx\n\n"), Err(Error::MalformedTime));
}

#[test]
fn tokens_after_the_end_time_are_allowed() {
    let got = blocks("1\n00:00:01,000 --> 00:00:02,000 X1:10 Y1:20\nx\n\n");
    assert_eq!(got.len(), 1);
    assert_eq!(got[0].end, time(0, 0, 2, 0));
}

#[test]
fn whitespace_line_closes_a_record() {
    let got = blocks("1\n00:00:01,000 --> 00:00:02,000\nx\n \t \n");
    assert_eq!(got.len(), 1);
}

#[test]
fn tokens_after_the_end_time_are_kept() {
    let got = parse("1\n00:00:01,000 --> 00:00:02,000  X1:10\tY1:20 \nx\n\n").unwrap();
    assert_eq!(got[0].extra(), &vec!["X1:10".to_string(), "Y1:20".to_string()]);
    assert_eq!(got[0].content(), &vec!["x".to_string()]);
    assert_eq!(got[0].start(), time(0, 0, 1, 0));
    assert_eq!(got[0].end(), time(0, 0, 2, 0));
}

#[test]
fn three_records_give_three_blocks_line_for_line() {
    let texts = [vec!["one"], vec!["two", "  more two"], vec!["three", "3", "III"]];
    let mut input = String::new();
    for (i, lines) in texts.iter().enumerate() {
        input.push_str(&format!("{}\n00:00:0{},000 --> 00:00:0{},500\n", i + 1, i + 1, i + 1));
        for line in lines {
            input.push_str(line);
            input.push('\n');
        }
        input.push('\n');
    }
    let got = blocks(&input);
    assert_eq!(got.len(), 3);
    for (i, lines) in texts.iter().enumerate() {
        let expected: Vec<String> = lines.iter().map(|l| l.to_string()).collect();
        assert_eq!(got[i].content, expected);
        assert_eq!(got[i].start, time(0, 0, i as u32 + 1, 0));
        assert_eq!(got[i].end, time(0, 0, i as u32 + 1, 500));
    }
    for i in 1..got.len() {
        assert!((got[i - 1].start, got[i - 1].end) <= (got[i].start, got[i].end));
    }
}

#[test]
fn mark_is_dropped_from_every_line_once() {
    let got = blocks("\u{feff}1\n\u{feff}00:00:01,000 --> 00:00:02,000\n\u{feff}x\n\u{feff}\u{feff}y\n\u{feff}\n");
    assert_eq!(got.len(), 1);
    assert_eq!(got[0].content, vec!["x".to_string(), "\u{feff}y".to_string()]);
    assert_eq!(
        parse("\u{feff}\u{feff}1\n00:00:01,000 --> 00:00:02,000\nx\n\n"),
        Err(Error::MalformedInteger)
    );
}

#[test]
fn mark_alone_is_not_an_empty_input() {
    assert_eq!(parse("\u{feff}"), Err(Error::MalformedInteger));
}

#[test]
fn records_compare_by_start_then_end() {
    let got = parse(
        "1\n00:00:01,000 --> 00:00:02,000\na\n\n\
         2\n00:00:01,000 --> 00:00:03,000\nb\n\n\
         3\n00:00:02,000 --> 00:00:02,500\nc\n\n\
         4\n00:00:01,000 --> 00:00:02,000\nd\n\n",
    )
    .unwrap();
    let by_text = |t: &str| got.iter().find(|b| b.content()[0] == t).unwrap();
    let (a, b, c, d) = (by_text("a"), by_text("b"), by_text("c"), by_text("d"));
    assert_eq!(a.partial_cmp(b), Some(std::cmp::Ordering::Less));
    assert_eq!(b.partial_cmp(a), Some(std::cmp::Ordering::Greater));
    assert_eq!(b.partial_cmp(c), Some(std::cmp::Ordering::Less));
    assert_eq!(c.partial_cmp(a), Some(std::cmp::Ordering::Greater));
    assert_eq!(a.partial_cmp(d), None);
    assert_eq!(a.partial_cmp(a), None);
    assert!(a.comes_after(a) == false);
    assert!(b.comes_after(a));
    assert!(!a.comes_after(b));
    assert!(!a.comes_after(d));
}

#[test]
fn record_becomes_a_block() {
    let got = parse("9\n00:00:01,000 --> 00:00:02,000 extra\nx\ny\n\n").unwrap();
    let record = got[0].clone();
    let block: zimu::ast::Block = record.into();
    assert_eq!(
        block,
        zimu::ast::Block {
            start: time(0, 0, 1, 0),
            end: time(0, 0, 2, 0),
            content: vec!["x".to_string(), "y".to_string()],
        }
    );
    assert_eq!(got[0].clone().into_block(), block);
}
