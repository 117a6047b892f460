//! The numbered-block subtitle format: records of a sequence number, a
//! timing line and lines of text, each closed by a blank line.
//!
//! A record that the input leaves open, with no blank line after it, is
//! dropped.

use crate::ast;
use crate::ast::BlockView;
use crate::error::Error;
use crate::lines::{lemma_lines_with_prefix, lines, spec_lines};
use crate::text::{
    chars_eq, from_chars, parse_u64, rows, slice_of, spec_parse_u64, spec_tokens, spec_trim, texts,
    to_chars, tokens, trim,
};
use crate::time::{lemma_same_time, parse_time, parsed_time, time_option_view, Time, TimeView};
use vstd::prelude::*;

verus! {

/// What a [`Block`] stands for.
pub struct RecordView {
    pub sequence_id: u64,
    pub start: TimeView,
    pub end: TimeView,
    pub content: Seq<Seq<char>>,
    pub extra: Seq<Seq<char>>,
}

impl RecordView {
    /// The record as the rest of the pipeline sees it.
    pub open spec fn block(self) -> BlockView {
        BlockView { start: self.start, end: self.end, content: self.content }
    }

    /// Whether `self` comes after `other` in the order by start, then end.
    pub open spec fn comes_after(self, other: RecordView) -> bool {
        other.start.before(self.start) || (self.start == other.start && other.end.before(self.end))
    }
}

/// One record of the input.
#[derive(Debug, Clone, PartialEq, Eq)]
pub struct Block {
    sequence_id: u64,
    start: Time,
    end: Time,
    content: Vec<String>,
    extra: Vec<String>,
}

impl View for Block {
    type V = RecordView;

    closed spec fn view(&self) -> RecordView {
        RecordView {
            sequence_id: self.sequence_id,
            start: self.start@,
            end: self.end@,
            content: texts(self.content@),
            extra: texts(self.extra@),
        }
    }
}

impl Block {
    /// The number that the record carries in the input.
    pub fn sequence_id(&self) -> (id: u64)
        ensures
            id == self@.sequence_id,
    {
        self.sequence_id
    }

    /// When the record shows.
    pub fn start(&self) -> (start: Time)
        ensures
            start@ == self@.start,
    {
        self.start
    }

    /// When the record goes.
    pub fn end(&self) -> (end: Time)
        ensures
            end@ == self@.end,
    {
        self.end
    }

    /// The lines of the record's text.
    pub fn content(&self) -> (content: &Vec<String>)
        ensures
            texts(content@) == self@.content,
    {
        &self.content
    }

    /// What followed the end time on the timing line, token by token.
    pub fn extra(&self) -> (extra: &Vec<String>)
        ensures
            texts(extra@) == self@.extra,
    {
        &self.extra
    }

    /// Gives up the sequence number and what followed the times.
    pub fn into_block(self) -> (out: ast::Block)
        ensures
            out@ == self@.block(),
    {
        ast::Block { start: self.start, end: self.end, content: self.content }
    }

    /// Whether `self` comes after `other` in the order by start, then end.
    pub fn comes_after(&self, other: &Block) -> (b: bool)
        ensures
            b == self@.comes_after(other@),
    {
        let same_start = !self.start.is_before(&other.start) && !other.start.is_before(&self.start);
        proof {
            lemma_same_time(self.start@, other.start@);
        }
        other.start.is_before(&self.start) || (same_start && other.end.is_before(&self.end))
    }
}

impl From<Block> for ast::Block {
    fn from(x: Block) -> (out: Self)
        ensures
            out@ == x@.block(),
    {
        ast::Block { start: x.start, end: x.end, content: x.content }
    }
}

impl vstd::std_specs::convert::FromSpecImpl<Block> for ast::Block {
    open spec fn obeys_from_spec() -> bool {
        true
    }

    closed spec fn from_spec(x: Block) -> Self {
        ast::Block { start: x.start, end: x.end, content: x.content }
    }
}

/// The block that `From` makes of a record is the record as the rest of
/// the pipeline sees it.
pub proof fn lemma_from_record(x: Block)
    ensures
        (<ast::Block as vstd::std_specs::convert::FromSpec<Block>>::from_spec(x))@ == x@.block(),
{
}

/// What the records of `v` stand for, in order.
pub open spec fn record_views(v: Seq<Block>) -> Seq<RecordView> {
    Seq::new(v.len(), |i: int| v[i]@)
}

/// The timing line of a record, read.
pub struct Timing {
    pub start: Time,
    pub end: Time,
    /// What followed the end time on the line, token by token.
    pub extra: Vec<String>,
}

/// What a [`Timing`] stands for.
pub struct TimingView {
    pub start: TimeView,
    pub end: TimeView,
    pub extra: Seq<Seq<char>>,
}

impl View for Timing {
    type V = TimingView;

    open spec fn view(&self) -> TimingView {
        TimingView { start: self.start@, end: self.end@, extra: texts(self.extra@) }
    }
}

/// The `chrono` format of a time in a timing line: hour, minute and
/// second, then a comma and three digits of milliseconds.
pub const TIME_FORMAT: &'static str = "%H:%M:%S,%3f";

/// What stands between the two times of a timing line.
pub const ARROW: &'static str = "-->";

/// The `chrono` format of a time in a timing line.
pub open spec fn time_format() -> Seq<char> {
    TIME_FORMAT@
}

/// The timing that the tokens of a line give, `start` and `end` being what
/// the first and the third token read as. The faults are looked for from
/// the left: no start, a start that is no time, no arrow, no end, an end
/// that is no time.
pub open spec fn spec_timing_of(
    tokens: Seq<Seq<char>>,
    start: Option<TimeView>,
    end: Option<TimeView>,
) -> Result<TimingView, Error> {
    if tokens.len() < 1 {
        Err(Error::MalformedStructure)
    } else if start is None {
        Err(Error::MalformedTime)
    } else if tokens.len() < 2 || tokens[1] != ARROW@ {
        Err(Error::MalformedStructure)
    } else if tokens.len() < 3 {
        Err(Error::MalformedStructure)
    } else if end is None {
        Err(Error::MalformedTime)
    } else {
        Ok(TimingView { start: start->0, end: end->0, extra: tokens.skip(3) })
    }
}

/// The timing that a line gives.
pub open spec fn spec_timing(line: Seq<char>) -> Result<TimingView, Error> {
    let tokens = spec_tokens(line);
    spec_timing_of(
        tokens,
        if tokens.len() >= 1 {
            parsed_time(tokens[0], time_format())
        } else {
            None
        },
        if tokens.len() >= 3 {
            parsed_time(tokens[2], time_format())
        } else {
            None
        },
    )
}

/// What the result of reading a timing line stands for.
pub open spec fn timing_view(r: Result<Timing, Error>) -> Result<TimingView, Error> {
    match r {
        Ok(t) => Ok(t@),
        Err(e) => Err(e),
    }
}

/// Puts a timing together from the tokens of its line and from what the
/// first and the third of them read as.
pub fn timing_of(tokens: &Vec<Vec<char>>, start: Option<Time>, end: Option<Time>) -> (out: Result<
    Timing,
    Error,
>)
    ensures
        timing_view(out) == spec_timing_of(
            rows(tokens@),
            time_option_view(start),
            time_option_view(end),
        ),
{
    if tokens.len() < 1 {
        return Err(Error::MalformedStructure);
    }
    let start = match start {
        Some(t) => t,
        None => {
            return Err(Error::MalformedTime);
        },
    };
    if tokens.len() < 2 {
        return Err(Error::MalformedStructure);
    }
    assert(rows(tokens@)[1] == tokens@[1]@);
    if !chars_eq(&tokens[1], &to_chars(ARROW)) {
        return Err(Error::MalformedStructure);
    }
    if tokens.len() < 3 {
        return Err(Error::MalformedStructure);
    }
    let end = match end {
        Some(t) => t,
        None => {
            return Err(Error::MalformedTime);
        },
    };
    let mut extra: Vec<String> = Vec::new();
    let mut i: usize = 3;
    while i < tokens.len()
        invariant
            3 <= i <= tokens.len(),
            extra.len() == i - 3,
            forall|k: int| 0 <= k < extra.len() ==> (#[trigger] extra@[k])@ == tokens@[k + 3]@,
        decreases tokens.len() - i,
    {
        extra.push(from_chars(&tokens[i]));
        i += 1;
    }
    assert(texts(extra@) =~= rows(tokens@).skip(3));
    Ok(Timing { start, end, extra })
}

/// Reads the time that token `at` of a timing line holds, if the line has
/// that token and it is a time.
fn token_time(tokens: &Vec<Vec<char>>, at: usize) -> (out: Option<Time>)
    ensures
        time_option_view(out) == if at < tokens.len() {
            parsed_time(tokens@[at as int]@, time_format())
        } else {
            None
        },
{
    if at < tokens.len() {
        match parse_time(from_chars(&tokens[at]).as_str(), TIME_FORMAT) {
            Ok(t) => Some(t),
            Err(_) => None,
        }
    } else {
        None
    }
}

/// Reads a timing line: `<start> --> <end>`, and whatever follows.
pub fn parse_timing(line: &Vec<char>) -> (out: Result<Timing, Error>)
    ensures
        timing_view(out) == spec_timing(line@),
{
    let tokens = tokens(line);
    let start = token_time(&tokens, 0);
    let end = token_time(&tokens, 2);
    proof {
        if tokens.len() >= 1 {
            assert(rows(tokens@)[0] == tokens@[0]@);
        }
        if tokens.len() >= 3 {
            assert(rows(tokens@)[2] == tokens@[2]@);
        }
    }
    timing_of(&tokens, start, end)
}

/// What the parser waits for.
pub enum State {
    ExpectSequenceId,
    ExpectDuration { sequence_id: u64 },
    ExpectContentOrEnd { record: Block },
}

/// What a [`State`] stands for.
pub enum StateView {
    ExpectSequenceId,
    ExpectDuration { sequence_id: u64 },
    ExpectContentOrEnd { record: RecordView },
}

impl View for State {
    type V = StateView;

    open spec fn view(&self) -> StateView {
        match self {
            State::ExpectSequenceId => StateView::ExpectSequenceId,
            State::ExpectDuration { sequence_id } => StateView::ExpectDuration {
                sequence_id: *sequence_id,
            },
            State::ExpectContentOrEnd { record } => StateView::ExpectContentOrEnd {
                record: record@,
            },
        }
    }
}

/// `line` without the byte-order mark in front of it, if there is one.
pub open spec fn strip_mark(line: Seq<char>) -> Seq<char> {
    if line.len() > 0 && line[0] == '\u{feff}' {
        line.drop_first()
    } else {
        line
    }
}

/// Whether a line holds nothing but whitespace.
pub open spec fn is_blank(line: Seq<char>) -> bool {
    spec_trim(line).len() == 0
}

/// One step of the parser: the state after `line`, and the record that the
/// line closed, if it closed one.
pub open spec fn spec_step(state: StateView, line: Seq<char>) -> Result<
    (StateView, Option<RecordView>),
    Error,
> {
    let line = strip_mark(line);
    match state {
        StateView::ExpectSequenceId => match spec_parse_u64(line) {
            Some(sequence_id) => Ok((StateView::ExpectDuration { sequence_id }, None)),
            None => Err(Error::MalformedInteger),
        },
        StateView::ExpectDuration { sequence_id } => match spec_timing(line) {
            Ok(timing) => Ok(
                (
                    StateView::ExpectContentOrEnd {
                        record: RecordView {
                            sequence_id,
                            start: timing.start,
                            end: timing.end,
                            content: Seq::empty(),
                            extra: timing.extra,
                        },
                    },
                    None,
                ),
            ),
            Err(e) => Err(e),
        },
        StateView::ExpectContentOrEnd { record } => if is_blank(line) {
            Ok((StateView::ExpectSequenceId, Some(record)))
        } else {
            Ok(
                (
                    StateView::ExpectContentOrEnd {
                        record: RecordView { content: record.content.push(line), ..record },
                    },
                    None,
                ),
            )
        },
    }
}

/// What the result of a step stands for.
pub open spec fn step_view(r: Result<(State, Option<Block>), Error>) -> Result<
    (StateView, Option<RecordView>),
    Error,
> {
    match r {
        Ok((state, Some(record))) => Ok((state@, Some(record@))),
        Ok((state, None)) => Ok((state@, None)),
        Err(e) => Err(e),
    }
}

/// Feeds one line to the parser.
pub fn step(state: State, line: &Vec<char>) -> (out: Result<(State, Option<Block>), Error>)
    ensures
        step_view(out) == spec_step(state@, line@),
{
    let stripped = if line.len() > 0 && line[0] == '\u{feff}' {
        slice_of(line, 1, line.len())
    } else {
        slice_of(line, 0, line.len())
    };
    assert(stripped@ == strip_mark(line@));
    match state {
        State::ExpectSequenceId => match parse_u64(&stripped) {
            Some(sequence_id) => Ok((State::ExpectDuration { sequence_id }, None)),
            None => Err(Error::MalformedInteger),
        },
        State::ExpectDuration { sequence_id } => match parse_timing(&stripped) {
            Ok(timing) => {
                let record = Block {
                    sequence_id,
                    start: timing.start,
                    end: timing.end,
                    content: Vec::new(),
                    extra: timing.extra,
                };
                assert(record@.content =~= Seq::<Seq<char>>::empty());
                Ok((State::ExpectContentOrEnd { record }, None))
            },
            Err(e) => Err(e),
        },
        State::ExpectContentOrEnd { record } => {
            if trim(&stripped).len() == 0 {
                Ok((State::ExpectSequenceId, Some(record)))
            } else {
                let ghost before = record@;
                let mut record = record;
                record.content.push(from_chars(&stripped));
                assert(record@.content =~= before.content.push(stripped@));
                Ok((State::ExpectContentOrEnd { record }, None))
            }
        },
    }
}

/// The records that the lines from index `from` on close, the parser being
/// in `state` before them, or the first fault.
pub open spec fn records_from(lines: Seq<Seq<char>>, from: int, state: StateView) -> Result<
    Seq<RecordView>,
    Error,
>
    decreases lines.len() - from,
{
    if from < 0 || from >= lines.len() {
        Ok(Seq::empty())
    } else {
        match spec_step(state, lines[from]) {
            Err(e) => Err(e),
            Ok((next, closed)) => match records_from(lines, from + 1, next) {
                Err(e) => Err(e),
                Ok(rest) => Ok(
                    match closed {
                        Some(record) => seq![record] + rest,
                        None => rest,
                    },
                ),
            },
        }
    }
}

/// The records of `lines`, in the order of the input.
pub open spec fn spec_records(lines: Seq<Seq<char>>) -> Result<Seq<RecordView>, Error> {
    records_from(lines, 0, StateView::ExpectSequenceId)
}

/// `done`, then what `rest` holds.
pub open spec fn then_records(
    done: Seq<RecordView>,
    rest: Result<Seq<RecordView>, Error>,
) -> Result<Seq<RecordView>, Error> {
    match rest {
        Ok(more) => Ok(done + more),
        Err(e) => Err(e),
    }
}

/// What the result of reading the records stands for.
pub open spec fn records_view(r: Result<Vec<Block>, Error>) -> Result<Seq<RecordView>, Error> {
    match r {
        Ok(v) => Ok(record_views(v@)),
        Err(e) => Err(e),
    }
}

/// Reads the records of `lines`, in the order of the input.
pub fn parse_lines(lines: &Vec<Vec<char>>) -> (out: Result<Vec<Block>, Error>)
    ensures
        records_view(out) == spec_records(rows(lines@)),
{
    let mut records: Vec<Block> = Vec::new();
    let mut state = State::ExpectSequenceId;
    let mut i: usize = 0;
    assert(record_views(records@) =~= Seq::<RecordView>::empty());
    while i < lines.len()
        invariant
            i <= lines.len(),
            then_records(record_views(records@), records_from(rows(lines@), i as int, state@))
                == spec_records(rows(lines@)),
        decreases lines.len() - i,
    {
        let ghost done = record_views(records@);
        assert(rows(lines@)[i as int] == lines@[i as int]@);
        match step(state, &lines[i]) {
            Err(e) => {
                return Err(e);
            },
            Ok((next, closed)) => {
                state = next;
                match closed {
                    Some(record) => {
                        let ghost view = record@;
                        records.push(record);
                        assert(record_views(records@) =~= done + seq![view]);
                        assert(forall|rest: Seq<RecordView>| 
                            (done + seq![view]) + rest == done + (#[trigger] (seq![view] + rest)));
                    },
                    None => {},
                }
            },
        }
        i += 1;
    }
    assert(record_views(records@) + Seq::<RecordView>::empty() == record_views(records@));
    Ok(records)
}

/// Where `x` goes among the first `upto` records of `s`: below every record
/// at the end of them that comes after it.
pub open spec fn insert_position(s: Seq<RecordView>, x: RecordView, upto: int) -> int
    decreases upto,
{
    if 0 < upto <= s.len() && s[upto - 1].comes_after(x) {
        insert_position(s, x, upto - 1)
    } else {
        upto
    }
}

/// `s` with `x` put in behind the records that do not come after it.
pub open spec fn insert_sorted(s: Seq<RecordView>, x: RecordView) -> Seq<RecordView> {
    s.insert(insert_position(s, x, s.len() as int), x)
}

/// The records of `s` in ascending order by start, then end; records with
/// the same times keep the order that they have in `s`.
pub open spec fn spec_sort(s: Seq<RecordView>) -> Seq<RecordView>
    decreases s.len(),
{
    if s.len() == 0 {
        s
    } else {
        insert_sorted(spec_sort(s.drop_last()), s.last())
    }
}

/// Whether no record of `s` comes after a later one.
pub open spec fn in_order(s: Seq<RecordView>) -> bool {
    forall|i: int, j: int| 0 <= i < j < s.len() ==> !(#[trigger] s[i]).comes_after(#[trigger] s[j])
}

/// The position found lies below the records that come after `x`, and
/// just above one that does not.
pub proof fn lemma_insert_position(s: Seq<RecordView>, x: RecordView, upto: int)
    requires
        0 <= upto <= s.len(),
    ensures
        0 <= insert_position(s, x, upto) <= upto,
        forall|i: int| insert_position(s, x, upto) <= i < upto ==> (#[trigger] s[i]).comes_after(x),
        insert_position(s, x, upto) > 0 ==> !s[insert_position(s, x, upto) - 1].comes_after(x),
    decreases upto,
{
    if 0 < upto && s[upto - 1].comes_after(x) {
        lemma_insert_position(s, x, upto - 1);
    }
}

/// Putting a record into an ordered sequence keeps the order and adds
/// nothing but the record.
pub proof fn lemma_insert_sorted(s: Seq<RecordView>, x: RecordView)
    requires
        in_order(s),
    ensures
        in_order(insert_sorted(s, x)),
        insert_sorted(s, x).len() == s.len() + 1,
        insert_sorted(s, x).to_multiset() == s.to_multiset().insert(x),
{
    let p = insert_position(s, x, s.len() as int);
    lemma_insert_position(s, x, s.len() as int);
    vstd::seq_lib::to_multiset_insert(s, p, x);
    let t = insert_sorted(s, x);
    assert forall|i: int, j: int| 0 <= i < j < t.len() implies !(#[trigger] t[i]).comes_after(
        #[trigger] t[j],
    ) by {
        if j < p {
            assert(t[i] == s[i] && t[j] == s[j]);
        } else if j == p {
            assert(t[i] == s[i]);
            assert(!s[p - 1].comes_after(x));
            if i < p - 1 {
                assert(!s[i].comes_after(s[p - 1]));
            }
        } else if i < p {
            assert(t[i] == s[i] && t[j] == s[j - 1]);
        } else if i == p {
            assert(t[j] == s[j - 1]);
            assert(s[j - 1].comes_after(x));
        } else {
            assert(t[i] == s[i - 1] && t[j] == s[j - 1]);
        }
    }
}

/// Sorting puts the records in order and keeps each of them, as often as
/// it occurs.
pub proof fn lemma_sort(s: Seq<RecordView>)
    ensures
        in_order(spec_sort(s)),
        spec_sort(s).len() == s.len(),
        spec_sort(s).to_multiset() == s.to_multiset(),
    decreases s.len(),
{
    if s.len() > 0 {
        lemma_sort(s.drop_last());
        lemma_insert_sorted(spec_sort(s.drop_last()), s.last());
        vstd::seq_lib::to_multiset_build(s.drop_last(), s.last());
        assert(s.drop_last().push(s.last()) == s);
    }
}

/// Sorts the records by start, then end, keeping the order of records with
/// the same times.
pub fn sort(records: Vec<Block>) -> (out: Vec<Block>)
    ensures
        record_views(out@) == spec_sort(record_views(records@)),
        in_order(record_views(out@)),
        record_views(out@).to_multiset() == record_views(records@).to_multiset(),
{
    proof {
        lemma_sort(record_views(records@));
    }
    let ghost all = record_views(records@);
    let mut rest = records;
    let mut out: Vec<Block> = Vec::new();
    let ghost mut done: int = 0;
    assert(all.take(0) =~= Seq::<RecordView>::empty());
    assert(record_views(out@) =~= Seq::<RecordView>::empty());
    assert(record_views(rest@) =~= all.skip(0));
    while rest.len() > 0
        invariant
            0 <= done <= all.len(),
            rest.len() == all.len() - done,
            record_views(rest@) == all.skip(done),
            record_views(out@) == spec_sort(all.take(done)),
        decreases rest.len(),
    {
        let ghost rest_before = rest@;
        let ghost sorted = record_views(out@);
        assert(record_views(rest@)[0] == rest@[0]@);
        assert(all.skip(done)[0] == all[done]);
        let x = rest.remove(0);
        assert(x@ == all[done]);
        let mut p: usize = out.len();
        while p > 0 && out[p - 1].comes_after(&x)
            invariant
                p <= out.len(),
                sorted == record_views(out@),
                insert_position(sorted, x@, p as int) == insert_position(
                    sorted,
                    x@,
                    out.len() as int,
                ),
            decreases p,
        {
            assert(sorted[p - 1] == out@[p - 1]@);
            p -= 1;
        }
        proof {
            if p > 0 {
                assert(sorted[p - 1] == out@[p - 1]@);
            }
        }
        out.insert(p, x);
        proof {
            assert(record_views(out@) =~= sorted.insert(p as int, x@));
            assert(all.take(done + 1).drop_last() =~= all.take(done));
            assert(all.take(done + 1).last() == all[done]);
            assert forall|k: int| 0 <= k < rest@.len() implies record_views(rest@)[k] == all.skip(
                done + 1,
            )[k] by {
                assert(rest@[k] == rest_before[k + 1]);
                assert(record_views(rest_before)[k + 1] == all.skip(done)[k + 1]);
            }
            assert(record_views(rest@) =~= all.skip(done + 1));
            done = done + 1;
        }
    }
    assert(all.take(done) =~= all);
    out
}

/// The records of `text`, in ascending order by start, then end.
pub open spec fn spec_parse(text: Seq<char>) -> Result<Seq<RecordView>, Error> {
    match spec_lines(text) {
        Err(e) => Err(e),
        Ok(lines) => match spec_records(lines) {
            Err(e) => Err(e),
            Ok(records) => Ok(spec_sort(records)),
        },
    }
}

/// Reads a subtitle file in the numbered-block format.
pub fn parse(input: &str) -> (out: Result<Vec<Block>, Error>)
    ensures
        records_view(out) == spec_parse(input@),
        out matches Ok(records) ==> in_order(record_views(records@)),
{
    let lines = match lines(input) {
        Ok(lines) => lines,
        Err(e) => {
            return Err(e);
        },
    };
    match parse_lines(&lines) {
        Ok(records) => Ok(sort(records)),
        Err(e) => Err(e),
    }
}

/// What the lines from `from` on give depends on those lines alone.
pub proof fn lemma_records_from_same_lines(
    a: Seq<Seq<char>>,
    b: Seq<Seq<char>>,
    from: int,
    state: StateView,
)
    requires
        a.len() == b.len(),
        forall|i: int| from <= i < a.len() ==> a[i] == b[i],
    ensures
        records_from(a, from, state) == records_from(b, from, state),
    decreases a.len() - from,
{
    if 0 <= from < a.len() {
        match spec_step(state, a[from]) {
            Ok((next, _)) => {
                lemma_records_from_same_lines(a, b, from + 1, next);
            },
            Err(_) => {},
        }
    }
}

/// A byte-order mark in front of a text that is not empty and does not
/// begin with one changes nothing in what the text is read as.
pub proof fn lemma_mark_tolerance(text: Seq<char>)
    requires
        text.len() > 0,
        text[0] != '\u{feff}',
    ensures
        spec_parse(seq!['\u{feff}'] + text) == spec_parse(text),
{
    let mark = '\u{feff}';
    lemma_lines_with_prefix(mark, text);
    if spec_lines(text) is Ok {
        let lines = spec_lines(text)->Ok_0;
        let marked = lines.update(0, seq![mark] + lines[0]);
        assert(spec_lines(seq![mark] + text) == Ok::<Seq<Seq<char>>, Error>(marked));
        assert(strip_mark(marked[0]) =~= lines[0]);
        assert(strip_mark(lines[0]) == lines[0]);
        let first = spec_step(StateView::ExpectSequenceId, lines[0]);
        assert(spec_step(StateView::ExpectSequenceId, marked[0]) == first);
        match first {
            Ok((next, _)) => {
                lemma_records_from_same_lines(marked, lines, 1, next);
            },
            Err(_) => {},
        }
        assert(spec_records(marked) == spec_records(lines));
    }
}

/// The lines of one record as a well-formed input spells them.
pub struct RecordText {
    pub id: Seq<char>,
    pub timing: Seq<char>,
    pub content: Seq<Seq<char>>,
    /// The blank line that closes the record.
    pub close: Seq<char>,
}

impl RecordText {
    pub open spec fn lines(self) -> Seq<Seq<char>> {
        seq![self.id, self.timing] + self.content + seq![self.close]
    }

    /// Whether the lines are those of a record: a sequence number, a
    /// timing, lines of text that are not blank and begin with no
    /// byte-order mark, and a blank line.
    pub open spec fn well_formed(self) -> bool {
        &&& spec_parse_u64(strip_mark(self.id)) is Some
        &&& spec_timing(strip_mark(self.timing)) is Ok
        &&& forall|i: int|
            0 <= i < self.content.len() ==> !is_blank(strip_mark(#[trigger] self.content[i]))
                && strip_mark(self.content[i]) == self.content[i]
        &&& is_blank(strip_mark(self.close))
    }

    /// The record that the lines spell, its text line for line.
    pub open spec fn record(self) -> RecordView {
        self.record_upto(self.content.len() as int)
    }

    /// The record with the first `n` lines of its text.
    pub open spec fn record_upto(self, n: int) -> RecordView {
        RecordView {
            sequence_id: spec_parse_u64(strip_mark(self.id))->0,
            start: spec_timing(strip_mark(self.timing))->Ok_0.start,
            end: spec_timing(strip_mark(self.timing))->Ok_0.end,
            content: self.content.take(n),
            extra: spec_timing(strip_mark(self.timing))->Ok_0.extra,
        }
    }
}

/// The lines of the records, one record after the other.
pub open spec fn stream_lines(records: Seq<RecordText>) -> Seq<Seq<char>>
    decreases records.len(),
{
    if records.len() == 0 {
        Seq::empty()
    } else {
        records[0].lines() + stream_lines(records.drop_first())
    }
}

/// The records that the lines of `records` spell, in order.
pub open spec fn stream_records(records: Seq<RecordText>) -> Seq<RecordView> {
    Seq::new(records.len(), |i: int| records[i].record())
}

/// Lines in front that the parser is already past change nothing.
pub proof fn lemma_records_from_past(
    past: Seq<Seq<char>>,
    rest: Seq<Seq<char>>,
    from: int,
    state: StateView,
)
    requires
        0 <= from,
    ensures
        records_from(past + rest, past.len() + from, state) == records_from(rest, from, state),
    decreases rest.len() - from,
{
    if from < rest.len() {
        assert((past + rest)[past.len() + from] == rest[from]);
        match spec_step(state, rest[from]) {
            Ok((next, _)) => {
                lemma_records_from_past(past, rest, from + 1, next);
            },
            Err(_) => {},
        }
    }
}

/// Within a record, after `n` lines of its text, the rest of the text and
/// the blank line give the record, and the parser goes on behind it.
proof fn lemma_record_content(record: RecordText, tail: Seq<Seq<char>>, n: int)
    requires
        record.well_formed(),
        0 <= n <= record.content.len(),
    ensures
        records_from(
            record.lines() + tail,
            2 + n,
            StateView::ExpectContentOrEnd { record: record.record_upto(n) },
        ) == then_records(
            seq![record.record()],
            records_from(
                record.lines() + tail,
                record.lines().len() as int,
                StateView::ExpectSequenceId,
            ),
        ),
    decreases record.content.len() - n,
{
    let all = record.lines() + tail;
    let m = record.content.len() as int;
    let state = StateView::ExpectContentOrEnd { record: record.record_upto(n) };
    assert(all[2 + n] == record.lines()[2 + n]);
    if n == m {
        assert(all[2 + n] == record.close);
        assert(record.content.take(m) =~= record.content);
        assert(spec_step(state, all[2 + n]) == Ok::<(StateView, Option<RecordView>), Error>(
            (StateView::ExpectSequenceId, Some(record.record())),
        ));
    } else {
        let line = record.content[n];
        assert(all[2 + n] == line);
        assert(record.content.take(n).push(line) =~= record.content.take(n + 1));
        assert(spec_step(state, all[2 + n]) == Ok::<(StateView, Option<RecordView>), Error>(
            (StateView::ExpectContentOrEnd { record: record.record_upto(n + 1) }, None),
        ));
        lemma_record_content(record, tail, n + 1);
    }
}

/// The lines of a well-formed record give the record, and the parser goes
/// on behind them.
proof fn lemma_record_lines(record: RecordText, tail: Seq<Seq<char>>)
    requires
        record.well_formed(),
    ensures
        spec_records(record.lines() + tail) == then_records(
            seq![record.record()],
            spec_records(tail),
        ),
{
    let all = record.lines() + tail;
    assert(all[0] == record.lines()[0]);
    assert(all[1] == record.lines()[1]);
    assert(record.content.take(0) =~= Seq::<Seq<char>>::empty());
    let id = spec_parse_u64(strip_mark(record.id))->0;
    assert(spec_step(StateView::ExpectSequenceId, all[0]) == Ok::<
        (StateView, Option<RecordView>),
        Error,
    >((StateView::ExpectDuration { sequence_id: id }, None)));
    assert(spec_step(StateView::ExpectDuration { sequence_id: id }, all[1]) == Ok::<
        (StateView, Option<RecordView>),
        Error,
    >((StateView::ExpectContentOrEnd { record: record.record_upto(0) }, None)));
    lemma_record_content(record, tail, 0);
    lemma_records_from_past(record.lines(), tail, 0, StateView::ExpectSequenceId);
    assert(records_from(all, 0, StateView::ExpectSequenceId) == records_from(
        all,
        1,
        StateView::ExpectDuration { sequence_id: id },
    ));
    assert(records_from(all, 1, StateView::ExpectDuration { sequence_id: id }) == records_from(
        all,
        2,
        StateView::ExpectContentOrEnd { record: record.record_upto(0) },
    ));
}

/// The lines of well-formed records give exactly those records, in the
/// order of the input and with each line of text as it was written.
pub proof fn lemma_stream_records(records: Seq<RecordText>)
    requires
        forall|i: int| 0 <= i < records.len() ==> (#[trigger] records[i]).well_formed(),
    ensures
        spec_records(stream_lines(records)) == Ok::<Seq<RecordView>, Error>(
            stream_records(records),
        ),
    decreases records.len(),
{
    if records.len() == 0 {
        assert(stream_records(records) =~= Seq::<RecordView>::empty());
    } else {
        let rest = records.drop_first();
        assert forall|i: int| 0 <= i < rest.len() implies (#[trigger] rest[i]).well_formed() by {
            assert(rest[i] == records[i + 1]);
        }
        lemma_stream_records(rest);
        lemma_record_lines(records[0], stream_lines(rest));
        assert(seq![records[0].record()] + stream_records(rest) =~= stream_records(records));
    }
}

/// Reading a text whose lines are those of `K` well-formed records gives
/// exactly `K` records, each with its text line for line, and in ascending
/// order by start, then end.
pub proof fn lemma_round_trip(text: Seq<char>, records: Seq<RecordText>)
    requires
        spec_lines(text) == Ok::<Seq<Seq<char>>, Error>(stream_lines(records)),
        forall|i: int| 0 <= i < records.len() ==> (#[trigger] records[i]).well_formed(),
    ensures
        spec_parse(text) == Ok::<Seq<RecordView>, Error>(spec_sort(stream_records(records))),
        spec_sort(stream_records(records)).len() == records.len(),
        spec_sort(stream_records(records)).to_multiset() == stream_records(
            records,
        ).to_multiset(),
        in_order(spec_sort(stream_records(records))),
        forall|i: int|
            0 <= i < records.len() ==> (#[trigger] stream_records(records)[i]).content
                == records[i].content,
{
    lemma_stream_records(records);
    lemma_sort(stream_records(records));
    assert forall|i: int| 0 <= i < records.len() implies (#[trigger] stream_records(
        records,
    )[i]).content == records[i].content by {
        assert(records[i].content.take(records[i].content.len() as int) =~= records[i].content);
    }
}

} // verus!
