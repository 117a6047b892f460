//! The pipeline from two subtitle files to one script: the parser is
//! chosen by the file's extension, the supplementary track is aligned to
//! the main one, and both are written as layers, the main track first.

use crate::ass_parser;
use crate::ass_parser::EventView;
use crate::ast::{block_views, Block, BlockView};
use crate::emit::{generate_ass, spec_generate_ass};
use crate::error::Error;
use crate::normalize::{normalize, spec_normalize};
use crate::ordered_map::{inserted, tracks_insert, tracks_new};
use crate::srt_parser;
use crate::srt_parser::RecordView;
use crate::text::{chars_eq, to_chars};
use vstd::prelude::*;

verus! {

/// A subtitle format that can be read.
#[derive(Clone, Copy, Debug, PartialEq, Eq, Structural)]
pub enum Format {
    /// The section-based format, of the extensions `ass` and `ssa`.
    Sections,
    /// The numbered-block format, of the extension `srt`.
    Records,
}

/// The format that a file extension stands for. Case counts.
pub open spec fn spec_format_for(extension: Option<Seq<char>>) -> Result<Format, Error> {
    match extension {
        Some(e) => if e == "ass"@ || e == "ssa"@ {
            Ok(Format::Sections)
        } else if e == "srt"@ {
            Ok(Format::Records)
        } else {
            Err(Error::UnrecognizedExtension)
        },
        None => Err(Error::UnrecognizedExtension),
    }
}

/// What an extension, if there is one, stands for.
pub open spec fn str_option_view(s: Option<&str>) -> Option<Seq<char>> {
    match s {
        Some(s) => Some(s@),
        None => None,
    }
}

/// Chooses the format by the file's extension.
pub fn format_for(extension: Option<&str>) -> (out: Result<Format, Error>)
    ensures
        out == spec_format_for(str_option_view(extension)),
{
    match extension {
        Some(e) => {
            let e = to_chars(e);
            if chars_eq(&e, &to_chars("ass")) || chars_eq(&e, &to_chars("ssa")) {
                Ok(Format::Sections)
            } else if chars_eq(&e, &to_chars("srt")) {
                Ok(Format::Records)
            } else {
                Err(Error::UnrecognizedExtension)
            }
        },
        None => Err(Error::UnrecognizedExtension),
    }
}

/// The events as blocks, in order.
pub open spec fn event_blocks(events: Seq<EventView>) -> Seq<BlockView> {
    Seq::new(events.len(), |i: int| events[i].block())
}

/// The records as blocks, in order.
pub open spec fn record_blocks(records: Seq<RecordView>) -> Seq<BlockView> {
    Seq::new(records.len(), |i: int| records[i].block())
}

/// The blocks of a file with the given extension and contents.
pub open spec fn spec_parse_file(extension: Option<Seq<char>>, contents: Seq<char>) -> Result<
    Seq<BlockView>,
    Error,
> {
    match spec_format_for(extension) {
        Err(e) => Err(e),
        Ok(Format::Sections) => match ass_parser::spec_parse(contents) {
            Ok(events) => Ok(event_blocks(events)),
            Err(e) => Err(e),
        },
        Ok(Format::Records) => match srt_parser::spec_parse(contents) {
            Ok(records) => Ok(record_blocks(records)),
            Err(e) => Err(e),
        },
    }
}

/// What the result of reading a file stands for.
pub open spec fn blocks_view(r: Result<Vec<Block>, Error>) -> Result<Seq<BlockView>, Error> {
    match r {
        Ok(v) => Ok(block_views(v@)),
        Err(e) => Err(e),
    }
}

/// Turns events into blocks.
pub fn blocks_of_events(events: Vec<ass_parser::Event>) -> (out: Vec<Block>)
    ensures
        block_views(out@) == event_blocks(ass_parser::event_views(events@)),
{
    let ghost all = events@;
    let mut out: Vec<Block> = Vec::new();
    for event in it: events
        invariant
            it.seq() == all,
            out.len() == it.index(),
            forall|k: int| 0 <= k < out.len() ==> (#[trigger] out@[k])@ == all[k]@.block(),
    {
        out.push(event.into_block());
    }
    assert(block_views(out@) =~= event_blocks(ass_parser::event_views(all)));
    out
}

/// Turns records into blocks.
pub fn blocks_of_records(records: Vec<srt_parser::Block>) -> (out: Vec<Block>)
    ensures
        block_views(out@) == record_blocks(srt_parser::record_views(records@)),
{
    let ghost all = records@;
    let mut out: Vec<Block> = Vec::new();
    for record in it: records
        invariant
            it.seq() == all,
            out.len() == it.index(),
            forall|k: int| 0 <= k < out.len() ==> (#[trigger] out@[k])@ == all[k]@.block(),
    {
        out.push(record.into_block());
    }
    assert(block_views(out@) =~= record_blocks(srt_parser::record_views(all)));
    out
}

/// Reads the blocks of a subtitle file from its extension and its
/// contents.
pub fn parse_file(extension: Option<&str>, contents: &str) -> (out: Result<Vec<Block>, Error>)
    ensures
        blocks_view(out) == spec_parse_file(str_option_view(extension), contents@),
{
    match format_for(extension) {
        Err(e) => Err(e),
        Ok(Format::Sections) => match ass_parser::parse(contents) {
            Ok(file) => Ok(blocks_of_events(file.events)),
            Err(e) => Err(e),
        },
        Ok(Format::Records) => match srt_parser::parse(contents) {
            Ok(records) => Ok(blocks_of_records(records)),
            Err(e) => Err(e),
        },
    }
}

/// The tracks of a merge: the main one first.
pub open spec fn merged_tracks(
    main: Seq<BlockView>,
    main_language: Seq<char>,
    supplementary: Seq<BlockView>,
    supplementary_language: Seq<char>,
) -> Seq<(Seq<char>, Seq<BlockView>)> {
    inserted(
        inserted(Seq::empty(), main_language, main),
        supplementary_language,
        supplementary,
    )
}

/// The script of two tracks, the supplementary one aligned to the start of
/// the main one. A track without blocks is `MalformedStructure`.
pub open spec fn spec_merge(
    main: Seq<BlockView>,
    main_language: Seq<char>,
    supplementary: Seq<BlockView>,
    supplementary_language: Seq<char>,
) -> Result<Seq<char>, Error> {
    if main.len() == 0 || supplementary.len() == 0 {
        Err(Error::MalformedStructure)
    } else {
        match spec_normalize(main[0].start, supplementary) {
            Err(e) => Err(e),
            Ok(aligned) => Ok(
                spec_generate_ass(
                    merged_tracks(main, main_language, aligned, supplementary_language),
                ),
            ),
        }
    }
}

/// What the result of a merge stands for.
pub open spec fn script_view(r: Result<String, Error>) -> Result<Seq<char>, Error> {
    match r {
        Ok(s) => Ok(s@),
        Err(e) => Err(e),
    }
}

/// Merges two tracks into one script.
pub fn merge(
    main: Vec<Block>,
    main_language: String,
    supplementary: Vec<Block>,
    supplementary_language: String,
) -> (out: Result<String, Error>)
    ensures
        script_view(out) == spec_merge(
            block_views(main@),
            main_language@,
            block_views(supplementary@),
            supplementary_language@,
        ),
{
    if main.len() == 0 || supplementary.len() == 0 {
        return Err(Error::MalformedStructure);
    }
    let mut supplementary = supplementary;
    assert(block_views(main@)[0] == main@[0]@);
    match normalize(main[0].start, &mut supplementary) {
        Err(e) => {
            return Err(e);
        },
        Ok(_) => {},
    }
    let mut tracks = tracks_new();
    tracks_insert(&mut tracks, main_language, main);
    tracks_insert(&mut tracks, supplementary_language, supplementary);
    Ok(generate_ass(tracks))
}

} // verus!
