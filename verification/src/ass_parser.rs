//! The section-based subtitle format. Only the events are read: their
//! times, their text, and the other fields of their lines.
//!
//! An input without an `[Events]` section is rejected.

use crate::ast;
use crate::ast::BlockView;
use crate::error::Error;
use crate::lines::{lines, spec_lines};
use crate::ordered_map::{
    distinct_keys, info_entries, info_new, inserted, key_index, lemma_key_index_from,
    lemma_swap_removed, lemma_value_of, meta_entries, meta_insert, meta_new, meta_swap_remove,
    swap_removed, text_option, value_of,
};
use crate::text::{
    chars_eq, contains, ends_with, from_chars, has_char, has_prefix, has_suffix,
    lemma_split_join, lemma_split_pattern, lemma_splitn_join, rows,
    spec_join, spec_split, spec_split_pattern, spec_splitn, spec_trim, spec_trim_class, split,
    split_pattern, splitn, starts_with, strip_leading, strip_prefixes, texts, to_chars, trim,
    trim_class, CharClass,
};
use crate::time::{parse_time, parsed_time, time_option_view, Time, TimeView};
use indexmap::IndexMap;
use vstd::prelude::*;
use vstd::string::StringExecFns;

verus! {

/// The name of a field in the `Format:` line of the events.
#[derive(Debug, Clone, PartialEq, Eq, PartialOrd, Ord, Hash)]
pub enum EventFormatKey {
    Layer,
    Start,
    End,
    Style,
    Name,
    MarginL,
    MarginR,
    MarginV,
    Effect,
    Text,
    /// A name that is none of the above, as it was spelled.
    Unknown(String),
}

/// What an [`EventFormatKey`] stands for.
pub enum KeyView {
    Layer,
    Start,
    End,
    Style,
    Name,
    MarginL,
    MarginR,
    MarginV,
    Effect,
    Text,
    Unknown(Seq<char>),
}

impl View for EventFormatKey {
    type V = KeyView;

    open spec fn view(&self) -> KeyView {
        match self {
            EventFormatKey::Layer => KeyView::Layer,
            EventFormatKey::Start => KeyView::Start,
            EventFormatKey::End => KeyView::End,
            EventFormatKey::Style => KeyView::Style,
            EventFormatKey::Name => KeyView::Name,
            EventFormatKey::MarginL => KeyView::MarginL,
            EventFormatKey::MarginR => KeyView::MarginR,
            EventFormatKey::MarginV => KeyView::MarginV,
            EventFormatKey::Effect => KeyView::Effect,
            EventFormatKey::Text => KeyView::Text,
            EventFormatKey::Unknown(name) => KeyView::Unknown(name@),
        }
    }
}

/// The key that a field name stands for. No name fails: one that is not
/// known is kept as it is.
pub open spec fn key_for(name: Seq<char>) -> KeyView {
    if name == "Layer"@ {
        KeyView::Layer
    } else if name == "Start"@ {
        KeyView::Start
    } else if name == "End"@ {
        KeyView::End
    } else if name == "Style"@ {
        KeyView::Style
    } else if name == "Name"@ {
        KeyView::Name
    } else if name == "MarginL"@ {
        KeyView::MarginL
    } else if name == "MarginR"@ {
        KeyView::MarginR
    } else if name == "MarginV"@ {
        KeyView::MarginV
    } else if name == "Effect"@ {
        KeyView::Effect
    } else if name == "Text"@ {
        KeyView::Text
    } else {
        KeyView::Unknown(name)
    }
}

impl EventFormatKey {
    /// The key that the field name `name` stands for.
    pub fn from_name(name: &Vec<char>) -> (key: EventFormatKey)
        ensures
            key@ == key_for(name@),
    {
        if chars_eq(name, &to_chars("Layer")) {
            EventFormatKey::Layer
        } else if chars_eq(name, &to_chars("Start")) {
            EventFormatKey::Start
        } else if chars_eq(name, &to_chars("End")) {
            EventFormatKey::End
        } else if chars_eq(name, &to_chars("Style")) {
            EventFormatKey::Style
        } else if chars_eq(name, &to_chars("Name")) {
            EventFormatKey::Name
        } else if chars_eq(name, &to_chars("MarginL")) {
            EventFormatKey::MarginL
        } else if chars_eq(name, &to_chars("MarginR")) {
            EventFormatKey::MarginR
        } else if chars_eq(name, &to_chars("MarginV")) {
            EventFormatKey::MarginV
        } else if chars_eq(name, &to_chars("Effect")) {
            EventFormatKey::Effect
        } else if chars_eq(name, &to_chars("Text")) {
            EventFormatKey::Text
        } else {
            EventFormatKey::Unknown(from_chars(name))
        }
    }

    /// A key that stands for the same name.
    pub fn duplicate(&self) -> (key: EventFormatKey)
        ensures
            key@ == self@,
    {
        match self {
            EventFormatKey::Layer => EventFormatKey::Layer,
            EventFormatKey::Start => EventFormatKey::Start,
            EventFormatKey::End => EventFormatKey::End,
            EventFormatKey::Style => EventFormatKey::Style,
            EventFormatKey::Name => EventFormatKey::Name,
            EventFormatKey::MarginL => EventFormatKey::MarginL,
            EventFormatKey::MarginR => EventFormatKey::MarginR,
            EventFormatKey::MarginV => EventFormatKey::MarginV,
            EventFormatKey::Effect => EventFormatKey::Effect,
            EventFormatKey::Text => EventFormatKey::Text,
            EventFormatKey::Unknown(name) => EventFormatKey::Unknown(name.clone()),
        }
    }
}

impl std::str::FromStr for EventFormatKey {
    type Err = std::convert::Infallible;

    /// The key that the field name `s` stands for; see `from_name`.
    fn from_str(s: &str) -> (out: Result<Self, Self::Err>)
        ensures
            out matches Ok(key) && key@ == key_for(s@),
    {
        Ok(EventFormatKey::from_name(&to_chars(s)))
    }
}

/// What the keys of `v` stand for, in order.
pub open spec fn key_views(v: Seq<EventFormatKey>) -> Seq<KeyView> {
    Seq::new(v.len(), |i: int| v[i]@)
}

/// The keys that the rest of a `Format:` line declares: its pieces between
/// commas, each trimmed.
pub open spec fn spec_format_keys(rest: Seq<char>) -> Seq<KeyView> {
    let pieces = spec_split(rest, ',');
    Seq::new(pieces.len(), |i: int| key_for(spec_trim(pieces[i])))
}

/// Reads the field order from the rest of a `Format:` line.
pub fn format_keys(rest: &Vec<char>) -> (keys: Vec<EventFormatKey>)
    ensures
        key_views(keys@) == spec_format_keys(rest@),
{
    let pieces = split(rest, ',');
    let mut keys: Vec<EventFormatKey> = Vec::new();
    let mut i: usize = 0;
    while i < pieces.len()
        invariant
            i <= pieces.len(),
            keys.len() == i,
            rows(pieces@) == spec_split(rest@, ','),
            forall|k: int| 0 <= k < i ==> (#[trigger] keys@[k])@ == key_for(spec_trim(pieces@[k]@)),
        decreases pieces.len() - i,
    {
        keys.push(EventFormatKey::from_name(&trim(&pieces[i])));
        i += 1;
    }
    assert forall|k: int| 0 <= k < keys.len() implies key_views(keys@)[k] == spec_format_keys(
        rest@,
    )[k] by {
        assert(rows(pieces@)[k] == pieces@[k]@);
    }
    assert(key_views(keys@) =~= spec_format_keys(rest@));
    keys
}

/// A style of the input. Styles are not kept.
#[derive(Debug, Clone)]
pub struct Style {}

/// What an [`Event`] stands for.
pub struct EventView {
    pub text: Seq<Seq<char>>,
    pub start: TimeView,
    pub end: TimeView,
    pub meta: Seq<(KeyView, Seq<char>)>,
}

impl EventView {
    /// The event as the rest of the pipeline sees it.
    pub open spec fn block(self) -> BlockView {
        BlockView { start: self.start, end: self.end, content: self.text }
    }
}

/// One `Dialogue:` line.
#[derive(Debug, Clone, PartialEq, Eq)]
pub struct Event {
    /// The lines of the text.
    pub text: Vec<String>,
    pub start: Time,
    pub end: Time,
    /// The fields of the line other than text, start and end.
    pub meta: IndexMap<EventFormatKey, String>,
}

impl View for Event {
    type V = EventView;

    open spec fn view(&self) -> EventView {
        EventView {
            text: texts(self.text@),
            start: self.start@,
            end: self.end@,
            meta: meta_entries(self.meta),
        }
    }
}

impl Event {
    /// Gives up the fields that the merged script does not show.
    pub fn into_block(self) -> (out: ast::Block)
        ensures
            out@ == self@.block(),
    {
        ast::Block { start: self.start, end: self.end, content: self.text }
    }
}

impl From<Event> for ast::Block {
    fn from(x: Event) -> (out: Self)
        ensures
            out@ == x@.block(),
    {
        ast::Block { start: x.start, end: x.end, content: x.text }
    }
}

impl vstd::std_specs::convert::FromSpecImpl<Event> for ast::Block {
    open spec fn obeys_from_spec() -> bool {
        true
    }

    open spec fn from_spec(x: Event) -> Self {
        ast::Block { start: x.start, end: x.end, content: x.text }
    }
}

/// What the events of `v` stand for, in order.
pub open spec fn event_views(v: Seq<Event>) -> Seq<EventView> {
    Seq::new(v.len(), |i: int| v[i]@)
}

/// What was read of a subtitle file.
#[derive(Debug, Clone)]
pub struct AssFile {
    /// Always empty: the information section is not kept.
    pub script_info: IndexMap<String, String>,
    /// Always empty: styles are not kept.
    pub styles: Vec<Style>,
    /// The events, in the order of the input.
    pub events: Vec<Event>,
}

/// The `chrono` format of a time in an event: hour, minute and second,
/// then an optional fraction behind a period.
pub const TIME_FORMAT: &'static str = "%H:%M:%S%.f";

/// The two characters that part the lines of an event's text.
pub const LINE_BREAK: &'static str = "\\N";

/// The `chrono` format of a time in an event.
pub open spec fn time_format() -> Seq<char> {
    TIME_FORMAT@
}

/// The entries that the first `n` keys and values make, put into a map one
/// after the other.
pub open spec fn zipped_upto(keys: Seq<KeyView>, values: Seq<Seq<char>>, n: int) -> Seq<
    (KeyView, Seq<char>),
>
    decreases n,
{
    if n <= 0 {
        Seq::empty()
    } else {
        inserted(zipped_upto(keys, values, n - 1), keys[n - 1], values[n - 1])
    }
}

/// The entries that keys and values make, pair by pair, as far as both
/// reach; of two values with one key the later one stays, in the place of
/// the earlier.
pub open spec fn zipped(keys: Seq<KeyView>, values: Seq<Seq<char>>) -> Seq<(KeyView, Seq<char>)> {
    zipped_upto(
        keys,
        values,
        if keys.len() <= values.len() {
            keys.len() as int
        } else {
            values.len() as int
        },
    )
}

/// Puts keys and values into a map, pair by pair.
pub fn zip_fields(keys: &Vec<EventFormatKey>, values: &Vec<Vec<char>>) -> (meta: IndexMap<
    EventFormatKey,
    String,
>)
    ensures
        meta_entries(meta) == zipped(key_views(keys@), rows(values@)),
{
    let n = if keys.len() <= values.len() {
        keys.len()
    } else {
        values.len()
    };
    let mut meta = meta_new();
    let mut i: usize = 0;
    while i < n
        invariant
            i <= n,
            n <= keys.len(),
            n <= values.len(),
            meta_entries(meta) == zipped_upto(key_views(keys@), rows(values@), i as int),
        decreases n - i,
    {
        assert(key_views(keys@)[i as int] == keys@[i as int]@);
        assert(rows(values@)[i as int] == values@[i as int]@);
        meta_insert(&mut meta, keys[i].duplicate(), from_chars(&values[i]));
        i += 1;
    }
    meta
}

/// The fields of an event that its line may lack, and the others.
pub struct Fields {
    pub text: Option<String>,
    pub start: Option<String>,
    pub end: Option<String>,
    pub meta: IndexMap<EventFormatKey, String>,
}

/// What [`Fields`] stand for.
pub struct FieldsView {
    pub text: Option<Seq<char>>,
    pub start: Option<Seq<char>>,
    pub end: Option<Seq<char>>,
    pub meta: Seq<(KeyView, Seq<char>)>,
}

impl View for Fields {
    type V = FieldsView;

    open spec fn view(&self) -> FieldsView {
        FieldsView {
            text: text_option(self.text),
            start: text_option(self.start),
            end: text_option(self.end),
            meta: meta_entries(self.meta),
        }
    }
}

/// The text, the start and the end taken out of the entries, in this order.
pub open spec fn spec_take_fields(meta: Seq<(KeyView, Seq<char>)>) -> FieldsView {
    let without_text = swap_removed(meta, KeyView::Text);
    let without_start = swap_removed(without_text, KeyView::Start);
    FieldsView {
        text: value_of(meta, KeyView::Text),
        start: value_of(without_text, KeyView::Start),
        end: value_of(without_start, KeyView::End),
        meta: swap_removed(without_start, KeyView::End),
    }
}

/// Takes the text, the start and the end out of the map.
pub fn take_fields(meta: IndexMap<EventFormatKey, String>) -> (fields: Fields)
    ensures
        fields@ == spec_take_fields(meta_entries(meta)),
{
    let mut meta = meta;
    let text = meta_swap_remove(&mut meta, &EventFormatKey::Text);
    let start = meta_swap_remove(&mut meta, &EventFormatKey::Start);
    let end = meta_swap_remove(&mut meta, &EventFormatKey::End);
    Fields { text, start, end, meta }
}

/// The two characters that part the lines of an event's text.
pub open spec fn line_break() -> Seq<char> {
    LINE_BREAK@
}

/// The event that the fields give, `start` and `end` being what the start
/// and end fields read as. The faults are looked for in this order: no
/// text, no start, a start that is no time, no end, an end that is no time.
pub open spec fn spec_event_of(
    fields: FieldsView,
    start: Option<TimeView>,
    end: Option<TimeView>,
) -> Result<EventView, Error> {
    if fields.text is None {
        Err(Error::MalformedStructure)
    } else if fields.start is None {
        Err(Error::MalformedStructure)
    } else if start is None {
        Err(Error::MalformedTime)
    } else if fields.end is None {
        Err(Error::MalformedStructure)
    } else if end is None {
        Err(Error::MalformedTime)
    } else {
        Ok(
            EventView {
                text: spec_split_pattern(fields.text->0, line_break()),
                start: start->0,
                end: end->0,
                meta: fields.meta,
            },
        )
    }
}

/// The text of an event is cut into lines at each line break: the lines
/// joined with the break are the text, no line holds a break, and a text
/// without a break is one line.
pub proof fn lemma_text_lines(text: Seq<char>)
    ensures
        spec_join(spec_split_pattern(text, line_break()), line_break()) == text,
        forall|k: int|
            0 <= k < spec_split_pattern(text, line_break()).len() ==> !contains(
                #[trigger] spec_split_pattern(text, line_break())[k],
                line_break(),
            ),
        !contains(text, line_break()) ==> spec_split_pattern(text, line_break()) == seq![text],
        contains(text, line_break()) ==> spec_split_pattern(text, line_break()).len() >= 2,
{
    reveal_strlit("\\N");
    lemma_split_pattern(text, line_break());
}

/// What the result of reading an event stands for.
pub open spec fn event_view(r: Result<Event, Error>) -> Result<EventView, Error> {
    match r {
        Ok(event) => Ok(event@),
        Err(e) => Err(e),
    }
}

/// The strings of the character sequences of `v`.
pub fn to_strings(v: &Vec<Vec<char>>) -> (out: Vec<String>)
    ensures
        texts(out@) == rows(v@),
{
    let mut out: Vec<String> = Vec::new();
    let mut i: usize = 0;
    while i < v.len()
        invariant
            i <= v.len(),
            out.len() == i,
            forall|k: int| 0 <= k < i ==> (#[trigger] out@[k])@ == v@[k]@,
        decreases v.len() - i,
    {
        out.push(from_chars(&v[i]));
        i += 1;
    }
    assert(texts(out@) =~= rows(v@));
    out
}

/// Puts an event together from its fields and from what its start and end
/// fields read as.
pub fn event_of(fields: Fields, start: Option<Time>, end: Option<Time>) -> (out: Result<
    Event,
    Error,
>)
    ensures
        event_view(out) == spec_event_of(
            fields@,
            time_option_view(start),
            time_option_view(end),
        ),
{
    let text = match fields.text {
        Some(text) => text,
        None => {
            return Err(Error::MalformedStructure);
        },
    };
    if fields.start.is_none() {
        return Err(Error::MalformedStructure);
    }
    let start = match start {
        Some(t) => t,
        None => {
            return Err(Error::MalformedTime);
        },
    };
    if fields.end.is_none() {
        return Err(Error::MalformedStructure);
    }
    let end = match end {
        Some(t) => t,
        None => {
            return Err(Error::MalformedTime);
        },
    };
    proof {
        reveal_strlit("\\N");
    }
    let pieces = split_pattern(&to_chars(text.as_str()), &to_chars(LINE_BREAK));
    Ok(Event { text: to_strings(&pieces), start, end, meta: fields.meta })
}

/// The event that the rest of a `Dialogue:` line gives under the field
/// order `format`: the line is cut at its commas into as many pieces as
/// there are keys, the last piece keeping the commas that are left.
pub open spec fn spec_dialogue(format: Seq<KeyView>, rest: Seq<char>) -> Result<EventView, Error> {
    if format.len() == 0 {
        Err(Error::MalformedStructure)
    } else {
        let fields = spec_take_fields(zipped(format, spec_splitn(rest, ',', format.len())));
        spec_event_of(
            fields,
            match fields.start {
                Some(text) => parsed_time(text, time_format()),
                None => None,
            },
            match fields.end {
                Some(text) => parsed_time(text, time_format()),
                None => None,
            },
        )
    }
}

/// Reads the time that a field holds, if the line has the field and it is
/// a time.
fn field_time(field: &Option<String>) -> (out: Option<Time>)
    ensures
        time_option_view(out) == match field {
            Some(text) => parsed_time(text@, time_format()),
            None => None,
        },
{
    match field {
        Some(text) => match parse_time(text.as_str(), TIME_FORMAT) {
            Ok(t) => Some(t),
            Err(_) => None,
        },
        None => None,
    }
}

/// Reads the rest of a `Dialogue:` line under the field order `format`.
pub fn dialogue(format: &Vec<EventFormatKey>, rest: &Vec<char>) -> (out: Result<Event, Error>)
    ensures
        event_view(out) == spec_dialogue(key_views(format@), rest@),
{
    if format.len() == 0 {
        return Err(Error::MalformedStructure);
    }
    let pieces = splitn(rest, ',', format.len());
    let fields = take_fields(zip_fields(format, &pieces));
    let start = field_time(&fields.start);
    let end = field_time(&fields.end);
    event_of(fields, start, end)
}

/// What the parser has taken in: the section it is in, if any, the lines
/// of the style sections, the field order of the events, and whether it
/// came upon the events section.
pub struct Scan {
    pub section: Option<String>,
    /// The `Format:` and `Style:` lines of the style sections, each
    /// without that word and with a line feed behind it.
    pub styles: String,
    pub format: Vec<EventFormatKey>,
    pub events_seen: bool,
}

/// What a [`Scan`] stands for.
pub struct ScanView {
    pub section: Option<Seq<char>>,
    pub styles: Seq<char>,
    pub format: Seq<KeyView>,
    pub events_seen: bool,
}

impl View for Scan {
    type V = ScanView;

    open spec fn view(&self) -> ScanView {
        ScanView {
            section: text_option(self.section),
            styles: self.styles@,
            format: key_views(self.format@),
            events_seen: self.events_seen,
        }
    }
}

/// Whether a trimmed line is a section header: it opens and closes with a
/// square bracket.
pub open spec fn is_header(line: Seq<char>) -> bool {
    has_prefix(line, "["@) && has_suffix(line, "]"@)
}

/// The section that a header names: the header without the square brackets
/// at its ends.
pub open spec fn section_name(line: Seq<char>) -> Seq<char> {
    spec_trim_class(line, CharClass::Bracket)
}

/// What a trimmed line of a style section adds to the lines kept of such
/// sections.
pub open spec fn style_text(line: Seq<char>) -> Seq<char> {
    (if has_prefix(line, "Format: "@) {
        strip_prefixes(line, "Format: "@) + "\n"@
    } else {
        Seq::empty()
    }) + (if has_prefix(line, "Style: "@) {
        strip_prefixes(line, "Style: "@) + "\n"@
    } else {
        Seq::empty()
    })
}

/// One step of the parser: the state after `line`, and the event that the
/// line gave, if it gave one. A blank line ends a section; outside a
/// section only a header counts; in a section of styles the lines are kept;
/// in the section of events the field order and the events are read; any
/// other section is passed over.
pub open spec fn spec_step(scan: ScanView, line: Seq<char>) -> Result<
    (ScanView, Option<EventView>),
    Error,
> {
    let line = spec_trim(line);
    if line.len() == 0 {
        Ok((ScanView { section: None, ..scan }, None))
    } else {
        match scan.section {
            None => if is_header(line) {
                Ok(
                    (
                        ScanView {
                            section: Some(section_name(line)),
                            events_seen: scan.events_seen || section_name(line) == "Events"@,
                            ..scan
                        },
                        None,
                    ),
                )
            } else {
                Ok((scan, None))
            },
            Some(name) => if has_suffix(name, "Styles"@) {
                Ok((ScanView { styles: scan.styles + style_text(line), ..scan }, None))
            } else if name != "Events"@ {
                Ok((scan, None))
            } else if has_prefix(line, "Format: "@) {
                Ok(
                    (
                        ScanView {
                            format: spec_format_keys(strip_prefixes(line, "Format: "@)),
                            ..scan
                        },
                        None,
                    ),
                )
            } else if has_prefix(line, "Dialogue: "@) {
                match spec_dialogue(scan.format, strip_prefixes(line, "Dialogue: "@)) {
                    Ok(event) => Ok((scan, Some(event))),
                    Err(e) => Err(e),
                }
            } else {
                Ok((scan, None))
            },
        }
    }
}

/// What the result of a step stands for.
pub open spec fn step_view(r: Result<(Scan, Option<Event>), Error>) -> Result<
    (ScanView, Option<EventView>),
    Error,
> {
    match r {
        Ok((scan, Some(event))) => Ok((scan@, Some(event@))),
        Ok((scan, None)) => Ok((scan@, None)),
        Err(e) => Err(e),
    }
}

/// Feeds one line to the parser.
pub fn step(scan: Scan, line: &Vec<char>) -> (out: Result<(Scan, Option<Event>), Error>)
    ensures
        step_view(out) == spec_step(scan@, line@),
{
    let line = trim(line);
    let mut scan = scan;
    if line.len() == 0 {
        scan.section = None;
        return Ok((scan, None));
    }
    let name = match &scan.section {
        None => {
            if starts_with(&line, &to_chars("[")) && ends_with(&line, &to_chars("]")) {
                let name = trim_class(&line, CharClass::Bracket);
                if chars_eq(&name, &to_chars("Events")) {
                    scan.events_seen = true;
                }
                scan.section = Some(from_chars(&name));
            }
            return Ok((scan, None));
        },
        Some(name) => to_chars(name.as_str()),
    };
    if ends_with(&name, &to_chars("Styles")) {
        let ghost before = scan.styles@;
        if starts_with(&line, &to_chars("Format: ")) {
            scan.styles.append(from_chars(&strip_leading(&line, &to_chars("Format: "))).as_str());
            scan.styles.append("\n");
        }
        let ghost between = scan.styles@;
        if starts_with(&line, &to_chars("Style: ")) {
            scan.styles.append(from_chars(&strip_leading(&line, &to_chars("Style: "))).as_str());
            scan.styles.append("\n");
        }
        assert(scan.styles@ =~= before + style_text(line@));
        return Ok((scan, None));
    }
    if !chars_eq(&name, &to_chars("Events")) {
        return Ok((scan, None));
    }
    if starts_with(&line, &to_chars("Format: ")) {
        scan.format = format_keys(&strip_leading(&line, &to_chars("Format: ")));
        return Ok((scan, None));
    }
    if starts_with(&line, &to_chars("Dialogue: ")) {
        return match dialogue(&scan.format, &strip_leading(&line, &to_chars("Dialogue: "))) {
            Ok(event) => Ok((scan, Some(event))),
            Err(e) => Err(e),
        };
    }
    Ok((scan, None))
}

/// The events that the lines from index `from` on give, the parser being
/// in the state `scan` before them, and the state after the last line; or
/// the first fault.
pub open spec fn events_from(lines: Seq<Seq<char>>, from: int, scan: ScanView) -> Result<
    (Seq<EventView>, ScanView),
    Error,
>
    decreases lines.len() - from,
{
    if from < 0 || from >= lines.len() {
        Ok((Seq::empty(), scan))
    } else {
        match spec_step(scan, lines[from]) {
            Err(e) => Err(e),
            Ok((next, event)) => match events_from(lines, from + 1, next) {
                Err(e) => Err(e),
                Ok((rest, last)) => Ok(
                    (
                        match event {
                            Some(event) => seq![event] + rest,
                            None => rest,
                        },
                        last,
                    ),
                ),
            },
        }
    }
}

/// The state of the parser before the first line.
pub open spec fn start_of_scan() -> ScanView {
    ScanView { section: None, styles: Seq::empty(), format: Seq::empty(), events_seen: false }
}

/// The events of `lines`, in the order of the input, or
/// `MalformedStructure` where no section of events was met.
pub open spec fn spec_events(lines: Seq<Seq<char>>) -> Result<Seq<EventView>, Error> {
    match events_from(lines, 0, start_of_scan()) {
        Err(e) => Err(e),
        Ok((events, last)) => if last.events_seen {
            Ok(events)
        } else {
            Err(Error::MalformedStructure)
        },
    }
}

/// `done`, then what `rest` holds.
pub open spec fn then_events(
    done: Seq<EventView>,
    rest: Result<(Seq<EventView>, ScanView), Error>,
) -> Result<(Seq<EventView>, ScanView), Error> {
    match rest {
        Ok((more, last)) => Ok((done + more, last)),
        Err(e) => Err(e),
    }
}

/// What the result of reading the events stands for.
pub open spec fn events_view(r: Result<Vec<Event>, Error>) -> Result<Seq<EventView>, Error> {
    match r {
        Ok(v) => Ok(event_views(v@)),
        Err(e) => Err(e),
    }
}

/// Reads the events of `lines`, in the order of the input.
pub fn parse_lines(lines: &Vec<Vec<char>>) -> (out: Result<Vec<Event>, Error>)
    ensures
        events_view(out) == spec_events(rows(lines@)),
{
    let mut events: Vec<Event> = Vec::new();
    let mut scan = Scan {
        section: None,
        styles: String::new(),
        format: Vec::new(),
        events_seen: false,
    };
    let mut i: usize = 0;
    assert(event_views(events@) =~= Seq::<EventView>::empty());
    assert(scan@.format =~= Seq::<KeyView>::empty());
    while i < lines.len()
        invariant
            i <= lines.len(),
            then_events(event_views(events@), events_from(rows(lines@), i as int, scan@))
                == events_from(rows(lines@), 0, start_of_scan()),
        decreases lines.len() - i,
    {
        let ghost done = event_views(events@);
        assert(rows(lines@)[i as int] == lines@[i as int]@);
        match step(scan, &lines[i]) {
            Err(e) => {
                return Err(e);
            },
            Ok((next, event)) => {
                scan = next;
                match event {
                    Some(event) => {
                        let ghost view = event@;
                        events.push(event);
                        assert(event_views(events@) =~= done + seq![view]);
                        assert(forall|rest: Seq<EventView>|
                            (done + seq![view]) + rest == done + (#[trigger] (seq![view] + rest)));
                    },
                    None => {},
                }
            },
        }
        i += 1;
    }
    assert(event_views(events@) + Seq::<EventView>::empty() == event_views(events@));
    if !scan.events_seen {
        return Err(Error::MalformedStructure);
    }
    Ok(events)
}

/// The events of `text`, in the order of the input.
pub open spec fn spec_parse(text: Seq<char>) -> Result<Seq<EventView>, Error> {
    match spec_lines(text) {
        Err(e) => Err(e),
        Ok(lines) => spec_events(lines),
    }
}

/// Reads a subtitle file in the section-based format. Of the file only the
/// events are kept.
pub fn parse(input: &str) -> (out: Result<AssFile, Error>)
    ensures
        match spec_parse(input@) {
            Ok(events) => out matches Ok(file) && event_views(file.events@) == events
                && file.styles@.len() == 0 && info_entries(file.script_info).len() == 0,
            Err(e) => out matches Err(fault) && fault == e,
        },
{
    let lines = match lines(input) {
        Ok(lines) => lines,
        Err(e) => {
            return Err(e);
        },
    };
    match parse_lines(&lines) {
        Ok(events) => Ok(AssFile { script_info: info_new(), styles: Vec::new(), events }),
        Err(e) => Err(e),
    }
}

/// The entries that keys and values make, pair by pair.
pub open spec fn paired(keys: Seq<KeyView>, values: Seq<Seq<char>>) -> Seq<(KeyView, Seq<char>)> {
    Seq::new(keys.len(), |i: int| (keys[i], values[i]))
}

/// Whether two results of reading an event show the same to the rest of
/// the pipeline: the same fault, or the same times and text.
pub open spec fn same_block(a: Result<EventView, Error>, b: Result<EventView, Error>) -> bool {
    match (a, b) {
        (Ok(a), Ok(b)) => a.block() == b.block(),
        (Err(a), Err(b)) => a == b,
        _ => false,
    }
}

/// Keys without duplicates go into the map one behind the other.
proof fn lemma_zipped_distinct(keys: Seq<KeyView>, values: Seq<Seq<char>>, n: int)
    requires
        keys.no_duplicates(),
        0 <= n <= keys.len(),
        n <= values.len(),
    ensures
        zipped_upto(keys, values, n) == paired(keys, values).take(n),
    decreases n,
{
    if n > 0 {
        lemma_zipped_distinct(keys, values, n - 1);
        let before = zipped_upto(keys, values, n - 1);
        lemma_key_index_from(before, keys[n - 1], 0);
        let at = key_index(before, keys[n - 1]);
        if at < before.len() {
            assert(before[at].0 == keys[at]);
            assert(keys[at] != keys[n - 1]);
        }
        assert(before.push((keys[n - 1], values[n - 1])) =~= paired(keys, values).take(n));
    } else {
        assert(zipped_upto(keys, values, n) =~= paired(keys, values).take(n));
    }
}

/// Among entries with distinct keys, the text, the start and the end that
/// are taken out are the values of their keys.
proof fn lemma_take_fields(entries: Seq<(KeyView, Seq<char>)>)
    requires
        distinct_keys(entries),
    ensures
        spec_take_fields(entries).text == value_of(entries, KeyView::Text),
        spec_take_fields(entries).start == value_of(entries, KeyView::Start),
        spec_take_fields(entries).end == value_of(entries, KeyView::End),
{
    let without_text = swap_removed(entries, KeyView::Text);
    let without_start = swap_removed(without_text, KeyView::Start);
    lemma_swap_removed(entries, KeyView::Text);
    lemma_swap_removed(without_text, KeyView::Start);
    lemma_value_of(entries, KeyView::Start);
    lemma_value_of(without_text, KeyView::Start);
    lemma_value_of(entries, KeyView::End);
    lemma_value_of(without_start, KeyView::End);
    let start = value_of(entries, KeyView::Start);
    if start is Some {
        assert(entries.contains((KeyView::Start, start->0)));
        assert(without_text.contains((KeyView::Start, start->0)));
    } else if value_of(without_text, KeyView::Start) is Some {
        let v = value_of(without_text, KeyView::Start)->0;
        assert(without_text.contains((KeyView::Start, v)));
        assert(entries.contains((KeyView::Start, v)));
    }
    let end = value_of(entries, KeyView::End);
    if end is Some {
        assert(entries.contains((KeyView::End, end->0)));
        assert(without_text.contains((KeyView::End, end->0)));
        assert(without_start.contains((KeyView::End, end->0)));
    } else if value_of(without_start, KeyView::End) is Some {
        let v = value_of(without_start, KeyView::End)->0;
        assert(without_start.contains((KeyView::End, v)));
        assert(without_text.contains((KeyView::End, v)));
        assert(entries.contains((KeyView::End, v)));
    }
}

/// Entries with distinct keys that are the same but for their order hold
/// the same value for each key.
proof fn lemma_same_values(
    a: Seq<(KeyView, Seq<char>)>,
    b: Seq<(KeyView, Seq<char>)>,
    key: KeyView,
)
    requires
        distinct_keys(a),
        distinct_keys(b),
        a.to_multiset() == b.to_multiset(),
    ensures
        value_of(a, key) == value_of(b, key),
{
    a.to_multiset_ensures();
    b.to_multiset_ensures();
    lemma_value_of(a, key);
    lemma_value_of(b, key);
    if value_of(a, key) is Some {
        let v = value_of(a, key)->0;
        assert(a.contains((key, v)));
        assert(a.to_multiset().count((key, v)) > 0);
        assert(b.to_multiset().count((key, v)) > 0);
        assert(b.contains((key, v)));
    } else if value_of(b, key) is Some {
        let v = value_of(b, key)->0;
        assert(b.contains((key, v)));
        assert(b.to_multiset().count((key, v)) > 0);
        assert(a.to_multiset().count((key, v)) > 0);
        assert(a.contains((key, v)));
    }
}

/// The order of the fields does not matter: where the field names of a
/// `Format:` line are put in another order and the fields of a
/// `Dialogue:` line with them, the line reads as the same event or fails
/// in the same way. No field name may stand twice, and no field but the
/// last of a line may hold a comma.
pub proof fn lemma_field_order(
    keys: Seq<KeyView>,
    values: Seq<Seq<char>>,
    other_keys: Seq<KeyView>,
    other_values: Seq<Seq<char>>,
)
    requires
        keys.len() >= 1,
        keys.len() == values.len(),
        other_keys.len() == other_values.len(),
        keys.no_duplicates(),
        other_keys.no_duplicates(),
        paired(keys, values).to_multiset() == paired(other_keys, other_values).to_multiset(),
        forall|i: int| 0 <= i < values.len() - 1 ==> !has_char(#[trigger] values[i], ','),
        forall|i: int|
            0 <= i < other_values.len() - 1 ==> !has_char(#[trigger] other_values[i], ','),
    ensures
        same_block(
            spec_dialogue(keys, spec_join(values, seq![','])),
            spec_dialogue(other_keys, spec_join(other_values, seq![','])),
        ),
{
    let a = paired(keys, values);
    let b = paired(other_keys, other_values);
    a.to_multiset_ensures();
    b.to_multiset_ensures();
    assert(a.len() == b.len());
    lemma_splitn_join(values, ',');
    lemma_splitn_join(other_values, ',');
    lemma_zipped_distinct(keys, values, keys.len() as int);
    lemma_zipped_distinct(other_keys, other_values, other_keys.len() as int);
    assert(a.take(a.len() as int) =~= a);
    assert(b.take(b.len() as int) =~= b);
    assert(zipped(keys, values) == a);
    assert(zipped(other_keys, other_values) == b);
    assert(distinct_keys(a)) by {
        assert forall|i: int, j: int| 0 <= i < j < a.len() implies (#[trigger] a[i]).0
            != (#[trigger] a[j]).0 by {
            assert(keys[i] != keys[j]);
        }
    }
    assert(distinct_keys(b)) by {
        assert forall|i: int, j: int| 0 <= i < j < b.len() implies (#[trigger] b[i]).0
            != (#[trigger] b[j]).0 by {
            assert(other_keys[i] != other_keys[j]);
        }
    }
    lemma_take_fields(a);
    lemma_take_fields(b);
    lemma_same_values(a, b, KeyView::Text);
    lemma_same_values(a, b, KeyView::Start);
    lemma_same_values(a, b, KeyView::End);
}

/// The keys that field names stand for, each name trimmed.
pub open spec fn keys_of_names(names: Seq<Seq<char>>) -> Seq<KeyView> {
    Seq::new(names.len(), |i: int| key_for(spec_trim(names[i])))
}

/// The order of the fields does not matter, line for line: where the rest
/// of a `Format:` line holds the same field names in another order, and the
/// rest of a `Dialogue:` line its fields in that order, the line reads as
/// the same event or fails in the same way. No name may stand for a key
/// twice or hold a comma, and no field but the last of a line may hold one.
pub proof fn lemma_line_order(
    names: Seq<Seq<char>>,
    values: Seq<Seq<char>>,
    other_names: Seq<Seq<char>>,
    other_values: Seq<Seq<char>>,
)
    requires
        names.len() >= 1,
        names.len() == values.len(),
        other_names.len() == other_values.len(),
        keys_of_names(names).no_duplicates(),
        keys_of_names(other_names).no_duplicates(),
        paired(keys_of_names(names), values).to_multiset() == paired(
            keys_of_names(other_names),
            other_values,
        ).to_multiset(),
        forall|i: int| 0 <= i < names.len() ==> !has_char(#[trigger] names[i], ','),
        forall|i: int| 0 <= i < other_names.len() ==> !has_char(#[trigger] other_names[i], ','),
        forall|i: int| 0 <= i < values.len() - 1 ==> !has_char(#[trigger] values[i], ','),
        forall|i: int|
            0 <= i < other_values.len() - 1 ==> !has_char(#[trigger] other_values[i], ','),
    ensures
        same_block(
            spec_dialogue(
                spec_format_keys(spec_join(names, seq![','])),
                spec_join(values, seq![',']),
            ),
            spec_dialogue(
                spec_format_keys(spec_join(other_names, seq![','])),
                spec_join(other_values, seq![',']),
            ),
        ),
{
    let a = paired(keys_of_names(names), values);
    let b = paired(keys_of_names(other_names), other_values);
    a.to_multiset_ensures();
    b.to_multiset_ensures();
    assert(a.len() == b.len());
    lemma_split_join(names, ',');
    lemma_split_join(other_names, ',');
    assert(spec_format_keys(spec_join(names, seq![','])) =~= keys_of_names(names));
    assert(spec_format_keys(spec_join(other_names, seq![','])) =~= keys_of_names(other_names));
    lemma_field_order(keys_of_names(names), values, keys_of_names(other_names), other_values);
}

} // verus!
