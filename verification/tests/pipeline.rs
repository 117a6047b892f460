use zimu::ast::Block;
use zimu::error::Error;
use zimu::merge::{format_for, merge, parse_file, Format};
use zimu::time::Time;

fn time(h: u32, m: u32, s: u32, ms: u32) -> Time {
    Time::from_hms_milli(h, m, s, ms).unwrap()
}

fn block(start: Time, end: Time, text: &str) -> Block {
    Block { start, end, content: vec![text.to_string()] }
}

const RICH: &str = "[Events]\nFormat: Start, End, Text\nDialogue: 0:00:05.00,0:00:06.00,main\n";

const RECORDS: &str = "1\n00:00:01,000 --> 00:00:02,000\nextra\n\n2\n00:00:03,000 --> 00:00:04,500\nmore\n\n";

#[test]
fn extension_chooses_the_format() {
    assert_eq!(format_for(Some("ass")), Ok(Format::Sections));
    assert_eq!(format_for(Some("ssa")), Ok(Format::Sections));
    assert_eq!(format_for(Some("srt")), Ok(Format::Records));
    assert_eq!(format_for(Some("SRT")), Err(Error::UnrecognizedExtension));
    assert_eq!(format_for(Some("txt")), Err(Error::UnrecognizedExtension));
    assert_eq!(format_for(Some("")), Err(Error::UnrecognizedExtension));
    assert_eq!(format_for(None), Err(Error::UnrecognizedExtension));
}

#[test]
fn files_are_read_by_their_extension() {
    let rich = parse_file(Some("ass"), RICH).unwrap();
    assert_eq!(rich, vec![block(time(0, 0, 5, 0), time(0, 0, 6, 0), "main")]);
    assert_eq!(parse_file(Some("ssa"), RICH).unwrap(), rich);
    let records = parse_file(Some("srt"), RECORDS).unwrap();
    assert_eq!(
        records,
        vec![
            block(time(0, 0, 1, 0), time(0, 0, 2, 0), "extra"),
            block(time(0, 0, 3, 0), time(0, 0, 4, 500), "more"),
        ]
    );
    assert_eq!(parse_file(Some("vtt"), RECORDS), Err(Error::UnrecognizedExtension));
    assert_eq!(parse_file(None, RECORDS), Err(Error::UnrecognizedExtension));
    assert_eq!(parse_file(Some("srt"), RICH), Err(Error::MalformedInteger));
}

#[test]
fn supplementary_track_is_aligned_and_laid_over_the_main_one() {
    let main = parse_file(Some("ass"), RICH).unwrap();
    let extra = parse_file(Some("srt"), RECORDS).unwrap();
    let out = merge(main, "zh".to_string(), extra, "en".to_string()).unwrap();
    let tail: Vec<&str> = out.lines().filter(|l| l.starts_with("Style: ") || l.starts_with("Dialogue: ")).collect();
    assert_eq!(
        tail,
        vec![
            "Style: zh,Microsoft YaHei,18,&H00FFFFFF,&H000000FF,&H00000000,&H00000000,0,0,0,0,100,100,0,0,1,1,0.5,2,10,10,12,1",
            "Style: en,Arial,18,&H0000FFFF,&H000000FF,&H00000000,&H00000000,0,0,0,0,100,100,0,0,1,1,0.5,2,10,10,52,1",
            "Dialogue: 0,0:00:05.00,0:00:06.00,zh,,0,0,0,,main",
            "Dialogue: 1,0:00:05.00,0:00:06.00,en,,0,0,0,,extra",
            "Dialogue: 1,0:00:07.00,0:00:08.50,en,,0,0,0,,more",
        ]
    );
    assert!(out.ends_with("more\n"));
}

#[test]
fn track_without_blocks_is_rejected() {
    let some = vec![block(time(0, 0, 1, 0), time(0, 0, 2, 0), "a")];
    assert_eq!(
        merge(Vec::new(), "a".to_string(), some.clone(), "b".to_string()),
        Err(Error::MalformedStructure)
    );
    assert_eq!(
        merge(some, "a".to_string(), Vec::new(), "b".to_string()),
        Err(Error::MalformedStructure)
    );
}

#[test]
fn track_pushed_out_of_the_day_is_rejected() {
    let main = vec![block(time(23, 59, 59, 0), time(23, 59, 59, 500), "a")];
    let extra = vec![block(time(0, 0, 0, 0), time(0, 0, 1, 0), "b")];
    assert_eq!(
        merge(main, "a".to_string(), extra, "b".to_string()),
        Err(Error::TimeOutOfRange)
    );
}

#[test]
fn one_tag_for_both_tracks_leaves_one_track() {
    let main = vec![block(time(0, 0, 5, 0), time(0, 0, 6, 0), "main")];
    let extra = vec![block(time(0, 0, 1, 0), time(0, 0, 2, 0), "extra")];
    let out = merge(main, "en".to_string(), extra, "en".to_string()).unwrap();
    let tail: Vec<&str> = out.lines().filter(|l| l.starts_with("Style: ") || l.starts_with("Dialogue: ")).collect();
    assert_eq!(
        tail,
        vec![
            "Style: en,Arial,18,&H00FFFFFF,&H000000FF,&H00000000,&H00000000,0,0,0,0,100,100,0,0,1,1,0.5,2,10,10,12,1",
            "Dialogue: 0,0:00:05.00,0:00:06.00,en,,0,0,0,,extra",
        ]
    );
}

#[test]
fn messages_name_the_fault() {
    assert_eq!(Error::UnrecognizedExtension.message(), "unrecognized file extension");
    assert_eq!(Error::MalformedStructure.message(), "malformed structure");
    assert_eq!(Error::MalformedTime.message(), "malformed time");
    assert_eq!(Error::MalformedInteger.message(), "malformed integer");
    assert_eq!(Error::TimeOutOfRange.message(), "time out of range");
}
