use zimu::ass_parser::{parse, step, EventFormatKey, Scan};
use zimu::error::Error;
use zimu::text::to_chars;
use zimu::time::Time;

const HEAD: &str = "[Script Info]\nTitle: x\n\n[V4+ Styles]\nFormat: Name, Fontname\nStyle: Default,Arial\n\n[Events]\n";

fn time(h: u32, m: u32, s: u32, ms: u32) -> Time {
    Time::from_hms_milli(h, m, s, ms).unwrap()
}

fn script(events: &str) -> String {
    format!("{}{}", HEAD, events)
}

#[test]
fn escape_splits_the_text_into_lines() {
    let input = script(
        "Format: Layer, Start, End, Style, Name, MarginL, MarginR, MarginV, Effect, Text\n\
         Dialogue: 0,0:00:01.00,0:00:02.00,Default,,0,0,0,,Bonjour\\Ntout le monde\n",
    );
    let file = parse(&input).unwrap();
    assert_eq!(file.events.len(), 1);
    assert_eq!(file.events[0].text, vec!["Bonjour".to_string(), "tout le monde".to_string()]);
    assert_eq!(file.events[0].start, time(0, 0, 1, 0));
    assert_eq!(file.events[0].end, time(0, 0, 2, 0));
}

#[test]
fn text_without_escape_is_one_line() {
    let input = script("Format: Start, End, Text\nDialogue: 0:00:01.00,0:00:02.00,a \\n b \\ N\n");
    let file = parse(&input).unwrap();
    assert_eq!(file.events[0].text, vec!["a \\n b \\ N".to_string()]);
}

#[test]
fn escapes_at_the_ends_give_empty_lines() {
    let input = script("Format: Start, End, Text\nDialogue: 0:00:01.00,0:00:02.00,\\Na\\N\\N\n");
    let file = parse(&input).unwrap();
    assert_eq!(
        file.events[0].text,
        vec!["".to_string(), "a".to_string(), "".to_string(), "".to_string()]
    );
}

#[test]
fn last_field_keeps_its_commas() {
    let input = script(
        "Format: Layer,Start,End,Style,Name,MarginL,MarginR,MarginV,Effect,Text\n\
         Dialogue: 0,0:00:01.00,0:00:02.00,Default,,0,0,0,,foo,bar\n",
    );
    let file = parse(&input).unwrap();
    assert_eq!(file.events[0].text, vec!["foo,bar".to_string()]);
}

#[test]
fn dialogue_before_format_fails() {
    let input = script("Dialogue: 0,0:00:01.00,0:00:02.00,Default,,0,0,0,,foo\n");
    assert_eq!(parse(&input).err(), Some(Error::MalformedStructure));
}

#[test]
fn field_order_does_not_matter() {
    let a = script(
        "Format: Layer, Start, End, Style, Text\nDialogue: 3,0:00:01.50,0:01:02.25,Top,Hello\n",
    );
    let b = script(
        "Format: Text, End, Layer, Start, Style\nDialogue: Hello,0:01:02.25,3,0:00:01.50,Top\n",
    );
    let a = parse(&a).unwrap();
    let b = parse(&b).unwrap();
    assert_eq!(a.events.len(), 1);
    assert_eq!(a.events[0].text, b.events[0].text);
    assert_eq!(a.events[0].start, b.events[0].start);
    assert_eq!(a.events[0].end, b.events[0].end);
    assert_eq!(a.events[0].start, time(0, 0, 1, 500));
    assert_eq!(a.events[0].end, time(0, 1, 2, 250));
    assert_eq!(a.events[0], b.events[0]);
}

#[test]
fn other_fields_stay_in_the_map() {
    let input = script(
        "Format: Layer, Start, End, Style, Colour, Text\nDialogue: 3,0:00:01.50,0:01:02.25,Top,red,Hello\n",
    );
    let file = parse(&input).unwrap();
    let meta = &file.events[0].meta;
    assert_eq!(meta.len(), 3);
    assert_eq!(meta.get(&EventFormatKey::Layer), Some(&"3".to_string()));
    assert_eq!(meta.get(&EventFormatKey::Style), Some(&"Top".to_string()));
    assert_eq!(meta.get(&EventFormatKey::Unknown("Colour".to_string())), Some(&"red".to_string()));
    assert_eq!(meta.get(&EventFormatKey::Text), None);
    let keys: Vec<&EventFormatKey> = meta.keys().collect();
    assert_eq!(
        keys,
        vec![
            &EventFormatKey::Layer,
            &EventFormatKey::Unknown("Colour".to_string()),
            &EventFormatKey::Style
        ]
    );
}

#[test]
fn events_come_in_input_order() {
    let input = script(
        "Format: Start, End, Text\n\
         Dialogue: 0:00:09.00,0:00:10.00,late\n\
         Dialogue: 0:00:01.00,0:00:02.00,early\n",
    );
    let file = parse(&input).unwrap();
    assert_eq!(file.events[0].text, vec!["late".to_string()]);
    assert_eq!(file.events[1].text, vec!["early".to_string()]);
}

#[test]
fn fraction_of_any_length_is_read() {
    let input = script(
        "Format: Start, End, Text\n\
         Dialogue: 0:00:01,0:00:02.5,a\n\
         Dialogue: 1:02:03.123456789,23:59:59.999,b\n",
    );
    let file = parse(&input).unwrap();
    assert_eq!(file.events[0].start, time(0, 0, 1, 0));
    assert_eq!(file.events[0].end, time(0, 0, 2, 500));
    assert_eq!(file.events[1].start, Time::from_hms_nano(1, 2, 3, 123_456_789).unwrap());
    assert_eq!(file.events[1].end, time(23, 59, 59, 999));
}

#[test]
fn bad_event_time_is_a_malformed_time() {
    let input = script("Format: Start, End, Text\nDialogue: 0:00:01.00,soon,a\n");
    assert_eq!(parse(&input).err(), Some(Error::MalformedTime));
    let input = script("Format: Start, End, Text\nDialogue: 24:00:01.00,0:00:02.00,a\n");
    assert_eq!(parse(&input).err(), Some(Error::MalformedTime));
}

#[test]
fn missing_field_is_a_malformed_structure() {
    let input = script("Format: Start, End\nDialogue: 0:00:01.00,0:00:02.00\n");
    assert_eq!(parse(&input).err(), Some(Error::MalformedStructure));
    let input = script("Format: End, Text\nDialogue: 0:00:02.00,a\n");
    assert_eq!(parse(&input).err(), Some(Error::MalformedStructure));
    let input = script("Format: Start, Text\nDialogue: 0:00:02.00,a\n");
    assert_eq!(parse(&input).err(), Some(Error::MalformedStructure));
    let input = script("Format: Start, End, Text\nDialogue: 0:00:01.00,0:00:02.00\n");
    assert_eq!(parse(&input).err(), Some(Error::MalformedStructure));
}

#[test]
fn missing_text_is_reported_before_a_bad_start() {
    let input = script("Format: Start, End\nDialogue: never,0:00:02.00\n");
    assert_eq!(parse(&input).err(), Some(Error::MalformedStructure));
}

#[test]
fn input_without_events_section_is_rejected() {
    assert_eq!(parse("").err(), Some(Error::MalformedStructure));
    assert_eq!(parse("[Script Info]\nTitle: x\n").err(), Some(Error::MalformedStructure));
}

#[test]
fn events_section_without_events_is_empty() {
    let file = parse(HEAD).unwrap();
    assert_eq!(file.events.len(), 0);
    assert_eq!(file.styles.len(), 0);
    assert_eq!(file.script_info.len(), 0);
}

#[test]
fn blank_line_ends_a_section() {
    let input = script(
        "Format: Start, End, Text\nDialogue: 0:00:01.00,0:00:02.00,a\n\nDialogue: 0:00:03.00,0:00:04.00,b\n",
    );
    let file = parse(&input).unwrap();
    assert_eq!(file.events.len(), 1);
}

#[test]
fn lines_are_trimmed_and_other_lines_ignored() {
    let input = script(
        "  Format: Start , End ,Text  \nComment: 0:00:01.00,0:00:02.00,no\n\tDialogue: 0:00:01.00,0:00:02.00,yes \n",
    );
    let file = parse(&input).unwrap();
    assert_eq!(file.events.len(), 1);
    assert_eq!(file.events[0].text, vec!["yes".to_string()]);
}

#[test]
fn format_key_names() {
    assert_eq!("Layer".parse::<EventFormatKey>(), Ok(EventFormatKey::Layer));
    assert_eq!("Start".parse::<EventFormatKey>(), Ok(EventFormatKey::Start));
    assert_eq!("End".parse::<EventFormatKey>(), Ok(EventFormatKey::End));
    assert_eq!("Style".parse::<EventFormatKey>(), Ok(EventFormatKey::Style));
    assert_eq!("Name".parse::<EventFormatKey>(), Ok(EventFormatKey::Name));
    assert_eq!("MarginL".parse::<EventFormatKey>(), Ok(EventFormatKey::MarginL));
    assert_eq!("MarginR".parse::<EventFormatKey>(), Ok(EventFormatKey::MarginR));
    assert_eq!("MarginV".parse::<EventFormatKey>(), Ok(EventFormatKey::MarginV));
    assert_eq!("Effect".parse::<EventFormatKey>(), Ok(EventFormatKey::Effect));
    assert_eq!("Text".parse::<EventFormatKey>(), Ok(EventFormatKey::Text));
    assert_eq!(
        "text".parse::<EventFormatKey>(),
        Ok(EventFormatKey::Unknown("text".to_string()))
    );
    assert_eq!("".parse::<EventFormatKey>(), Ok(EventFormatKey::Unknown(String::new())));
}

#[test]
fn event_becomes_a_block() {
    let input = script("Format: Layer, Start, End, Text\nDialogue: 1,0:00:01.00,0:00:02.00,a\\Nb\n");
    let file = parse(&input).unwrap();
    let block: zimu::ast::Block = file.events[0].clone().into();
    assert_eq!(
        block,
        zimu::ast::Block {
            start: time(0, 0, 1, 0),
            end: time(0, 0, 2, 0),
            content: vec!["a".to_string(), "b".to_string()],
        }
    );
    assert_eq!(file.events[0].clone().into_block(), block);
}

#[test]
fn events_compare_by_start_alone() {
    let input = script(
        "Format: Start, End, Text\n\
         Dialogue: 0:00:01.00,0:00:09.00,a\n\
         Dialogue: 0:00:02.00,0:00:03.00,b\n\
         Dialogue: 0:00:01.00,0:00:02.00,c\n",
    );
    let file = parse(&input).unwrap();
    let (a, b, c) = (&file.events[0], &file.events[1], &file.events[2]);
    assert_eq!(a.partial_cmp(b), Some(std::cmp::Ordering::Less));
    assert_eq!(b.partial_cmp(a), Some(std::cmp::Ordering::Greater));
    assert_eq!(a.partial_cmp(c), Some(std::cmp::Ordering::Equal));
    assert!(a < b);
    assert!(!(a < c));
}

#[test]
fn later_value_of_a_repeated_field_stays() {
    let input = script(
        "Format: Text, Start, End, Text, Style\nDialogue: first,0:00:01.00,0:00:02.00,second,Top,x\n",
    );
    let file = parse(&input).unwrap();
    assert_eq!(file.events[0].text, vec!["second".to_string()]);
    assert_eq!(file.events[0].meta.len(), 1);
    assert_eq!(file.events[0].meta.get(&EventFormatKey::Style), Some(&"Top,x".to_string()));
}

#[test]
fn repeated_line_words_are_all_dropped() {
    let input = script(
        "Format: Format: Start, End, Text\nDialogue: Dialogue: Dialogue: 0:00:01.00,0:00:02.00,a\n",
    );
    let file = parse(&input).unwrap();
    assert_eq!(file.events.len(), 1);
    assert_eq!(file.events[0].text, vec!["a".to_string()]);
}

#[test]
fn header_may_have_brackets_to_spare() {
    let file = parse("[[Events]]]\nFormat: Start, End, Text\nDialogue: 0:00:01.00,0:00:02.00,a\n")
        .unwrap();
    assert_eq!(file.events.len(), 1);
}

#[test]
fn header_within_a_section_is_no_header() {
    let input = "[V4+ Styles]\n[Events]\nFormat: Start, End, Text\nDialogue: 0:00:01.00,0:00:02.00,a\n";
    assert_eq!(parse(input).err(), Some(Error::MalformedStructure));
}

#[test]
fn field_order_lasts_over_sections() {
    let input = "[Events]\nFormat: Start, End, Text\n\n[Other]\nDialogue: 0:00:01.00,0:00:02.00,no\n\n[Events]\nDialogue: 0:00:03.00,0:00:04.00,yes\n";
    let file = parse(input).unwrap();
    assert_eq!(file.events.len(), 1);
    assert_eq!(file.events[0].text, vec!["yes".to_string()]);
}

#[test]
fn style_lines_are_kept_while_reading() {
    let mut scan =
        Scan { section: None, styles: String::new(), format: Vec::new(), events_seen: false };
    for line in [
        "[V4+ Styles]",
        "Format: Name, Fontname",
        "  Style: Default,Arial  ",
        "Comment: no",
        "Style: Style: Top,Arial",
    ] {
        let (next, event) = step(scan, &to_chars(line)).unwrap();
        assert!(event.is_none());
        scan = next;
    }
    assert_eq!(scan.section, Some("V4+ Styles".to_string()));
    assert_eq!(scan.styles, "Name, Fontname\nDefault,Arial\nTop,Arial\n");
    assert!(!scan.events_seen);
    let (scan, _) = step(scan, &to_chars("   ")).unwrap();
    assert_eq!(scan.section, None);
    let (scan, _) = step(scan, &to_chars("[Events]")).unwrap();
    assert!(scan.events_seen);
    assert_eq!(scan.styles, "Name, Fontname\nDefault,Arial\nTop,Arial\n");
}
