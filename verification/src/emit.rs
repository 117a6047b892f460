//! The merged script: a fixed header, one style for each language, and one
//! `Dialogue:` line for each block, the languages in the order of the map.

use crate::ass_parser::{line_break, LINE_BREAK};
use crate::ast::{block_views, Block, BlockView};
use crate::ordered_map::{track_entries, track_views, tracks_into_vec};
use crate::text::{
    chars_eq, contains, decimal, from_chars, has_prefix, has_suffix, lemma_join_push, matches_at,
    spec_decimal, spec_join, texts, to_chars,
};
use crate::time::{spec_timestamp, timestamp};
use indexmap::IndexMap;
use vstd::prelude::*;
use vstd::string::StringExecFns;

verus! {

/// The size of the font, in points.
pub const FONT_SIZE: u128 = 18;

/// The margin below the first language's lines.
pub const BASE_MARGIN: u128 = 12;

/// The script's opening lines, up to the field names of the styles.
pub const HEADER: &'static str =
    "[Script Info]\nScriptType: v4.00+\n\n[V4+ Styles]\nFormat: Name, Fontname, Fontsize, PrimaryColour, SecondaryColour, OutlineColour, BackColour, Bold, Italic, Underline, StrikeOut, ScaleX, ScaleY, Spacing, Angle, BorderStyle, Outline, Shadow, Alignment, MarginL, MarginR, MarginV, Encoding\n";

/// The lines between the styles and the events.
pub const EVENTS_HEADER: &'static str =
    "\n[Events]\nFormat: Layer, Start, End, Style, Name, MarginL, MarginR, MarginV, Effect, Text\n";

/// The fields of a style between its primary colour and its vertical
/// margin, the same for every language: the other colours, no bold, italic,
/// underline or strike-out, scale 100 both ways, no spacing or angle, border
/// style and outline 1, shadow 0.5, alignment 2, and margins of 10 left and
/// right.
pub const FIXED_FIELDS: &'static str =
    ",&H000000FF,&H00000000,&H00000000,0,0,0,0,100,100,0,0,1,1,0.5,2,10,10,";

/// The script's opening lines, up to the field names of the styles.
pub open spec fn header() -> Seq<char> {
    HEADER@
}

/// The lines between the styles and the events.
pub open spec fn events_header() -> Seq<char> {
    EVENTS_HEADER@
}

/// The font of a language.
pub open spec fn font_for(tag: Seq<char>) -> Seq<char> {
    if tag == "zh"@ {
        "Microsoft YaHei"@
    } else {
        "Arial"@
    }
}

/// The primary colour of the language at position `n`: opaque, then blue,
/// green and red. The first language is white, the others are yellow.
pub open spec fn colour_for(n: nat) -> Seq<char> {
    if n == 0 {
        "&H00FFFFFF"@
    } else {
        "&H0000FFFF"@
    }
}

/// The vertical margin of the language at position `n`: each language
/// stands two lines and a gap of four above the one before.
pub open spec fn margin_v(n: nat) -> nat {
    BASE_MARGIN as nat + n * (FONT_SIZE as nat * 2) + n * 4
}

/// The `Style:` line of the language `tag` at position `n`.
pub open spec fn style_line(tag: Seq<char>, n: nat) -> Seq<char> {
    "Style: "@ + tag + ","@ + font_for(tag) + ","@ + spec_decimal(FONT_SIZE as nat) + ","@
        + colour_for(n) + FIXED_FIELDS@ + spec_decimal(margin_v(n)) + ",1\n"@
}

/// The `Style:` lines of the first `upto` languages.
pub open spec fn style_lines(entries: Seq<(Seq<char>, Seq<BlockView>)>, upto: int) -> Seq<char>
    decreases upto,
{
    if upto <= 0 {
        Seq::empty()
    } else {
        style_lines(entries, upto - 1) + style_line(entries[upto - 1].0, (upto - 1) as nat)
    }
}

/// The `Dialogue:` line of a block of the language `tag` at position `n`.
pub open spec fn dialogue_line(tag: Seq<char>, n: nat, block: BlockView) -> Seq<char> {
    "Dialogue: "@ + spec_decimal(n) + ","@ + spec_timestamp(block.start) + ","@ + spec_timestamp(
        block.end,
    ) + ","@ + tag + ",,0,0,0,,"@ + spec_join(block.content, line_break()) + "\n"@
}

/// The `Dialogue:` lines of the first `upto` blocks of a language.
pub open spec fn track_lines(tag: Seq<char>, n: nat, blocks: Seq<BlockView>, upto: int) -> Seq<char>
    decreases upto,
{
    if upto <= 0 {
        Seq::empty()
    } else {
        track_lines(tag, n, blocks, upto - 1) + dialogue_line(tag, n, blocks[upto - 1])
    }
}

/// The `Dialogue:` lines of the first `upto` languages.
pub open spec fn dialogue_lines(entries: Seq<(Seq<char>, Seq<BlockView>)>, upto: int) -> Seq<char>
    decreases upto,
{
    if upto <= 0 {
        Seq::empty()
    } else {
        dialogue_lines(entries, upto - 1) + track_lines(
            entries[upto - 1].0,
            (upto - 1) as nat,
            entries[upto - 1].1,
            entries[upto - 1].1.len() as int,
        )
    }
}

/// The script that shows the tracks of `entries` as layers.
pub open spec fn spec_generate_ass(entries: Seq<(Seq<char>, Seq<BlockView>)>) -> Seq<char> {
    header() + style_lines(entries, entries.len() as int) + events_header() + dialogue_lines(
        entries,
        entries.len() as int,
    )
}

/// Joins the strings of `pieces` with `sep` between each two.
pub fn join(pieces: &Vec<String>, sep: &str) -> (out: String)
    ensures
        out@ == spec_join(texts(pieces@), sep@),
{
    let mut out = String::new();
    if pieces.len() == 0 {
        return out;
    }
    out.append(pieces[0].as_str());
    let ghost all = texts(pieces@);
    assert(all.take(1) =~= seq![pieces@[0]@]);
    let mut i: usize = 1;
    while i < pieces.len()
        invariant
            1 <= i <= pieces.len(),
            all == texts(pieces@),
            out@ == spec_join(all.take(i as int), sep@),
        decreases pieces.len() - i,
    {
        proof {
            lemma_join_push(all.take(i as int), sep@, all[i as int]);
            assert(all.take(i as int).push(all[i as int]) =~= all.take(i + 1));
        }
        out.append(sep);
        out.append(pieces[i].as_str());
        i += 1;
    }
    assert(all.take(pieces.len() as int) =~= all);
    out
}

/// Writes the `Style:` line of the language `tag` at position `n`.
pub fn write_style(tag: &str, n: usize) -> (out: String)
    ensures
        out@ == style_line(tag@, n as nat),
{
    let position: u128 = n as u128;
    let line_height: u128 = FONT_SIZE * 2;
    assert(line_height == 36 && position <= u64::MAX);
    let margin: u128 = BASE_MARGIN + position * line_height + position * 4;
    let font = if chars_eq(&to_chars(tag), &to_chars("zh")) {
        "Microsoft YaHei"
    } else {
        "Arial"
    };
    let colour = if n == 0 {
        "&H00FFFFFF"
    } else {
        "&H0000FFFF"
    };
    let mut out = String::new();
    out.append("Style: ");
    out.append(tag);
    out.append(",");
    out.append(font);
    out.append(",");
    out.append(from_chars(&decimal(FONT_SIZE)).as_str());
    out.append(",");
    out.append(colour);
    out.append(FIXED_FIELDS);
    out.append(from_chars(&decimal(margin)).as_str());
    out.append(",1\n");
    assert(out@ =~= style_line(tag@, n as nat));
    out
}

/// Writes the `Dialogue:` line of a block of the language `tag` at
/// position `n`.
pub fn write_dialogue(tag: &str, n: usize, block: &Block) -> (out: String)
    ensures
        out@ == dialogue_line(tag@, n as nat, block@),
{
    let mut out = String::new();
    out.append("Dialogue: ");
    out.append(from_chars(&decimal(n as u128)).as_str());
    out.append(",");
    out.append(timestamp(block.start).as_str());
    out.append(",");
    out.append(timestamp(block.end).as_str());
    out.append(",");
    out.append(tag);
    out.append(",,0,0,0,,");
    out.append(join(&block.content, LINE_BREAK).as_str());
    out.append("\n");
    assert(out@ =~= dialogue_line(tag@, n as nat, block@));
    out
}

/// Writes the script that shows the tracks of `inputs` as layers, the first
/// language lowest and in white, the others above it and in yellow.
pub fn generate_ass(inputs: IndexMap<String, Vec<Block>>) -> (out: String)
    ensures
        out@ == spec_generate_ass(track_entries(inputs)),
{
    let tracks = tracks_into_vec(inputs);
    let ghost entries = track_views(tracks@);
    let mut out = String::new();
    out.append(HEADER);
    assert(out@ =~= header() + style_lines(entries, 0));
    let mut n: usize = 0;
    while n < tracks.len()
        invariant
            n <= tracks.len(),
            entries == track_views(tracks@),
            out@ == header() + style_lines(entries, n as int),
        decreases tracks.len() - n,
    {
        assert(entries[n as int].0 == tracks@[n as int].0@);
        let line = write_style(tracks[n].0.as_str(), n);
        out.append(line.as_str());
        assert(out@ =~= header() + style_lines(entries, n + 1));
        n += 1;
    }
    out.append(EVENTS_HEADER);
    let ghost top = header() + style_lines(entries, entries.len() as int) + events_header();
    assert(out@ =~= top + dialogue_lines(entries, 0));
    let mut n: usize = 0;
    while n < tracks.len()
        invariant
            n <= tracks.len(),
            entries == track_views(tracks@),
            top == header() + style_lines(entries, entries.len() as int) + events_header(),
            out@ == top + dialogue_lines(entries, n as int),
        decreases tracks.len() - n,
    {
        let tag = tracks[n].0.as_str();
        let blocks = &tracks[n].1;
        let ghost views = entries[n as int].1;
        assert(entries[n as int].0 == tag@);
        assert(views == block_views(blocks@));
        let ghost before = out@;
        assert(out@ =~= before + track_lines(tag@, n as nat, views, 0));
        let mut i: usize = 0;
        while i < blocks.len()
            invariant
                i <= blocks.len(),
                views == block_views(blocks@),
                out@ == before + track_lines(tag@, n as nat, views, i as int),
            decreases blocks.len() - i,
        {
            assert(views[i as int] == blocks@[i as int]@);
            let line = write_dialogue(tag, n, &blocks[i]);
            out.append(line.as_str());
            assert(out@ =~= before + track_lines(tag@, n as nat, views, i + 1));
            i += 1;
        }
        assert(out@ =~= top + dialogue_lines(entries, n + 1));
        n += 1;
    }
    out
}

/// The script is a function of the languages and their blocks alone: the
/// same tracks in the same order give the same text.
pub proof fn lemma_same_tracks_same_script(
    a: Seq<(Seq<char>, Seq<BlockView>)>,
    b: Seq<(Seq<char>, Seq<BlockView>)>,
)
    requires
        a == b,
    ensures
        spec_generate_ass(a) == spec_generate_ass(b),
{
}

/// The vertical margins are 12, 52, 92 and so on, forty more for each
/// position, and the margin stands in the style line before the encoding.
pub proof fn lemma_margin_progression(tag: Seq<char>, n: nat)
    ensures
        margin_v(n) == 12 + 40 * n,
        has_suffix(style_line(tag, n), ",10,10,"@ + spec_decimal(12 + 40 * n) + ",1\n"@),
{
    assert(FONT_SIZE as nat * 2 == 36);
    assert(n * (FONT_SIZE as nat * 2) == n * 36);
    assert(margin_v(n) == 12 + 40 * n);
    reveal_strlit(",10,10,");
    reveal_strlit(",&H000000FF,&H00000000,&H00000000,0,0,0,0,100,100,0,0,1,1,0.5,2,10,10,");
    let fixed = FIXED_FIELDS@;
    let front = "Style: "@ + tag + ","@ + font_for(tag) + ","@ + spec_decimal(FONT_SIZE as nat)
        + ","@ + colour_for(n);
    let tail = ",10,10,"@ + spec_decimal(12 + 40 * n) + ",1\n"@;
    let line = style_line(tag, n);
    assert(fixed.subrange(fixed.len() - 7, fixed.len() as int) =~= ",10,10,"@);
    let cut = fixed.subrange(0, fixed.len() - 7);
    assert(fixed =~= cut + ",10,10,"@);
    assert(line =~= (front + cut) + tail);
    assert(line.subrange(line.len() - tail.len(), line.len() as int) =~= tail);
}

/// The style of the first language holds the colour white, the style of
/// every other language the colour yellow.
pub proof fn lemma_colour_assignment(tag: Seq<char>, n: nat)
    ensures
        n == 0 ==> contains(style_line(tag, n), "&H00FFFFFF"@),
        n > 0 ==> contains(style_line(tag, n), "&H0000FFFF"@),
{
    let front = "Style: "@ + tag + ","@ + font_for(tag) + ","@ + spec_decimal(FONT_SIZE as nat)
        + ","@;
    let colour = colour_for(n);
    let line = style_line(tag, n);
    assert(line.subrange(front.len() as int, (front.len() + colour.len()) as int) =~= colour);
    assert(matches_at(line, colour, front.len() as int));
}

/// The size of the font is written as `18`.
pub proof fn lemma_font_size()
    ensures
        spec_decimal(FONT_SIZE as nat) == "18"@,
{
    reveal_strlit("18");
    reveal_with_fuel(spec_decimal, 2);
    assert(spec_decimal(18) =~= seq!['1', '8']);
    assert("18"@ =~= seq!['1', '8']);
}

/// The style of the language `zh` names the font `Microsoft YaHei`, the
/// style of any other language the font `Arial`.
pub proof fn lemma_font_selection(tag: Seq<char>, n: nat)
    ensures
        tag == "zh"@ ==> has_prefix(style_line(tag, n), "Style: zh,Microsoft YaHei,"@),
        tag != "zh"@ ==> has_prefix(style_line(tag, n), "Style: "@ + tag + ",Arial,"@),
{
    reveal_strlit("Style: zh,Microsoft YaHei,");
    reveal_strlit("Style: ");
    reveal_strlit("zh");
    reveal_strlit(",");
    reveal_strlit("Microsoft YaHei");
    reveal_strlit("Arial");
    reveal_strlit(",Arial,");
    let line = style_line(tag, n);
    if tag == "zh"@ {
        let front = "Style: zh,Microsoft YaHei,"@;
        assert("Style: "@ + tag + ","@ + font_for(tag) + ","@ =~= front);
        assert(line.subrange(0, front.len() as int) =~= front);
    } else {
        let front = "Style: "@ + tag + ",Arial,"@;
        assert("Style: "@ + tag + ","@ + font_for(tag) + ","@ =~= front);
        assert(line.subrange(0, front.len() as int) =~= front);
    }
}

} // verus!
