use indexmap::IndexMap;
use zimu::ast::Block;
use zimu::emit::{generate_ass, join, write_dialogue, write_style};
use zimu::time::{timestamp, Time};

fn time(h: u32, m: u32, s: u32, ms: u32) -> Time {
    Time::from_hms_milli(h, m, s, ms).unwrap()
}

fn block(start: Time, end: Time, lines: &[&str]) -> Block {
    Block { start, end, content: lines.iter().map(|l| l.to_string()).collect() }
}

const HEADER: &str = "[Script Info]\nScriptType: v4.00+\n\n[V4+ Styles]\nFormat: Name, Fontname, Fontsize, PrimaryColour, SecondaryColour, OutlineColour, BackColour, Bold, Italic, Underline, StrikeOut, ScaleX, ScaleY, Spacing, Angle, BorderStyle, Outline, Shadow, Alignment, MarginL, MarginR, MarginV, Encoding\n";

const EVENTS: &str = "\n[Events]\nFormat: Layer, Start, End, Style, Name, MarginL, MarginR, MarginV, Effect, Text\n";

fn two_languages() -> IndexMap<String, Vec<Block>> {
    let mut inputs = IndexMap::new();
    inputs.insert("en".to_string(), vec![block(time(0, 0, 1, 0), time(0, 0, 2, 0), &["Hi"])]);
    inputs.insert(
        "zh".to_string(),
        vec![block(time(0, 0, 1, 500), time(0, 0, 2, 500), &["你好"])],
    );
    inputs
}

#[test]
fn two_languages_give_two_styles_and_two_layers() {
    let expected = format!(
        "{}{}{}{}{}{}",
        HEADER,
        "Style: en,Arial,18,&H00FFFFFF,&H000000FF,&H00000000,&H00000000,0,0,0,0,100,100,0,0,1,1,0.5,2,10,10,12,1\n",
        "Style: zh,Microsoft YaHei,18,&H0000FFFF,&H000000FF,&H00000000,&H00000000,0,0,0,0,100,100,0,0,1,1,0.5,2,10,10,52,1\n",
        EVENTS,
        "Dialogue: 0,0:00:01.00,0:00:02.00,en,,0,0,0,,Hi\n",
        "Dialogue: 1,0:00:01.50,0:00:02.50,zh,,0,0,0,,你好\n",
    );
    assert_eq!(generate_ass(two_languages()), expected);
}

#[test]
fn same_input_gives_the_same_output() {
    assert_eq!(generate_ass(two_languages()), generate_ass(two_languages()));
}

#[test]
fn no_language_gives_the_bare_frame() {
    assert_eq!(generate_ass(IndexMap::new()), format!("{}{}", HEADER, EVENTS));
}

#[test]
fn language_without_blocks_still_has_a_style() {
    let mut inputs = IndexMap::new();
    inputs.insert("fr".to_string(), Vec::new());
    let expected = format!(
        "{}{}{}",
        HEADER,
        "Style: fr,Arial,18,&H00FFFFFF,&H000000FF,&H00000000,&H00000000,0,0,0,0,100,100,0,0,1,1,0.5,2,10,10,12,1\n",
        EVENTS,
    );
    assert_eq!(generate_ass(inputs), expected);
}

#[test]
fn margins_grow_by_forty() {
    assert!(write_style("a", 0).ends_with(",10,10,12,1\n"));
    assert!(write_style("a", 1).ends_with(",10,10,52,1\n"));
    assert!(write_style("a", 2).ends_with(",10,10,92,1\n"));
    assert!(write_style("a", 25).ends_with(",10,10,1012,1\n"));
}

#[test]
fn first_language_is_white_and_the_others_yellow() {
    assert!(write_style("a", 0).contains(",18,&H00FFFFFF,"));
    assert!(write_style("a", 1).contains(",18,&H0000FFFF,"));
    assert!(write_style("a", 7).contains(",18,&H0000FFFF,"));
}

#[test]
fn only_zh_gets_the_other_font() {
    assert!(write_style("zh", 0).starts_with("Style: zh,Microsoft YaHei,18,"));
    assert!(write_style("zh", 3).starts_with("Style: zh,Microsoft YaHei,18,"));
    assert!(write_style("en", 0).starts_with("Style: en,Arial,18,"));
    assert!(write_style("ZH", 0).starts_with("Style: ZH,Arial,18,"));
    assert!(write_style("zh-CN", 0).starts_with("Style: zh-CN,Arial,18,"));
    assert!(write_style("", 0).starts_with("Style: ,Arial,18,"));
}

#[test]
fn hundredths_are_cut_off() {
    assert_eq!(timestamp(Time::from_hms_nano(0, 0, 1, 237_000_000).unwrap()), "0:00:01.23");
    assert_eq!(timestamp(Time::from_hms_nano(0, 0, 1, 239_999_999).unwrap()), "0:00:01.23");
    assert_eq!(timestamp(Time::from_hms_nano(0, 0, 1, 999_999_999).unwrap()), "0:00:01.99");
    assert_eq!(timestamp(Time::from_hms_nano(0, 0, 1, 9_999_999).unwrap()), "0:00:01.00");
    assert_eq!(timestamp(Time::from_hms_nano(0, 0, 1, 10_000_000).unwrap()), "0:00:01.01");
}

#[test]
fn hours_have_no_padding() {
    assert_eq!(timestamp(time(0, 0, 0, 0)), "0:00:00.00");
    assert_eq!(timestamp(time(9, 5, 7, 80)), "9:05:07.08");
    assert_eq!(timestamp(time(10, 0, 0, 0)), "10:00:00.00");
    assert_eq!(timestamp(time(23, 59, 59, 990)), "23:59:59.99");
}

#[test]
fn leap_second_shows_as_second_sixty() {
    assert_eq!(timestamp(time(23, 59, 59, 1_000)), "23:59:60.100");
    assert_eq!(timestamp(time(1, 2, 59, 1_999)), "1:02:60.199");
}

#[test]
fn content_lines_are_joined_with_the_escape() {
    let b = block(time(0, 0, 1, 0), time(0, 0, 2, 0), &["one", "two", "", "four"]);
    assert_eq!(
        write_dialogue("en", 3, &b),
        "Dialogue: 3,0:00:01.00,0:00:02.00,en,,0,0,0,,one\\Ntwo\\N\\Nfour\n"
    );
    let empty = block(time(0, 0, 1, 0), time(0, 0, 2, 0), &[]);
    assert_eq!(write_dialogue("en", 0, &empty), "Dialogue: 0,0:00:01.00,0:00:02.00,en,,0,0,0,,\n");
}

#[test]
fn join_puts_the_separator_between() {
    assert_eq!(join(&vec![], ", "), "");
    assert_eq!(join(&vec!["a".to_string()], ", "), "a");
    assert_eq!(join(&vec!["a".to_string(), "b".to_string(), "c".to_string()], ", "), "a, b, c");
}

#[test]
fn layers_count_languages_not_blocks() {
    let mut inputs = IndexMap::new();
    inputs.insert(
        "a".to_string(),
        vec![
            block(time(0, 0, 1, 0), time(0, 0, 2, 0), &["1"]),
            block(time(0, 0, 3, 0), time(0, 0, 4, 0), &["2"]),
        ],
    );
    inputs.insert("b".to_string(), vec![block(time(0, 0, 1, 0), time(0, 0, 2, 0), &["3"])]);
    let out = generate_ass(inputs);
    let dialogues: Vec<&str> = out.lines().filter(|l| l.starts_with("Dialogue: ")).collect();
    assert_eq!(
        dialogues,
        vec![
            "Dialogue: 0,0:00:01.00,0:00:02.00,a,,0,0,0,,1",
            "Dialogue: 0,0:00:03.00,0:00:04.00,a,,0,0,0,,2",
            "Dialogue: 1,0:00:01.00,0:00:02.00,b,,0,0,0,,3",
        ]
    );
}
