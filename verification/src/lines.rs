//! The lines of a text. A line ends at a line feed; a carriage return just
//! before the line feed goes with it. What follows the last line feed is a
//! line too unless it is empty. A text that ends some lines with a line
//! feed alone and others with carriage return and line feed is rejected.

use crate::error::Error;
use crate::text::{
    find_char, lemma_find_char, lemma_find_char_behind, lemma_split_behind, rows, slice_of,
    spec_split, split, split_from, to_chars,
};
use vstd::prelude::*;

verus! {

/// Whether a line ends with a carriage return.
pub open spec fn ends_with_return(line: Seq<char>) -> bool {
    line.len() > 0 && line.last() == '\r'
}

/// Whether one of the first `n` pieces ends with a carriage return.
pub open spec fn any_with_return(pieces: Seq<Seq<char>>, n: int) -> bool {
    exists|i: int| 0 <= i < n && i < pieces.len() && ends_with_return(#[trigger] pieces[i])
}

/// Whether one of the first `n` pieces ends without a carriage return.
pub open spec fn any_without_return(pieces: Seq<Seq<char>>, n: int) -> bool {
    exists|i: int| 0 <= i < n && i < pieces.len() && !ends_with_return(#[trigger] pieces[i])
}

/// Line `i` of the pieces that line feeds separate: the piece itself, less
/// the carriage return before its line feed.
pub open spec fn line_at(pieces: Seq<Seq<char>>, i: int) -> Seq<char> {
    if i < pieces.len() - 1 && ends_with_return(pieces[i]) {
        pieces[i].drop_last()
    } else {
        pieces[i]
    }
}

/// The number of lines in the pieces that line feeds separate: the last
/// piece counts only where it is not empty.
pub open spec fn line_count(pieces: Seq<Seq<char>>) -> int {
    if pieces.len() > 0 && pieces.last().len() == 0 {
        pieces.len() - 1
    } else {
        pieces.len() as int
    }
}

/// The lines of `text`, or `MalformedStructure` where its line endings are
/// mixed.
pub open spec fn spec_lines(text: Seq<char>) -> Result<Seq<Seq<char>>, Error> {
    let pieces = spec_split(text, '\n');
    if any_with_return(pieces, pieces.len() - 1) && any_without_return(pieces, pieces.len() - 1) {
        Err(Error::MalformedStructure)
    } else {
        Ok(Seq::new(line_count(pieces) as nat, |i: int| line_at(pieces, i)))
    }
}

/// What the result of splitting a text into lines stands for.
pub open spec fn lines_view(r: Result<Vec<Vec<char>>, Error>) -> Result<Seq<Seq<char>>, Error> {
    match r {
        Ok(v) => Ok(rows(v@)),
        Err(e) => Err(e),
    }
}

/// Splitting gives one piece at least.
pub proof fn lemma_split_nonempty(s: Seq<char>, sep: char, from: int)
    ensures
        split_from(s, sep, from).len() >= 1,
    decreases s.len() - from,
{
    let at = find_char(s, sep, from);
    if 0 <= from <= at < s.len() {
        lemma_split_nonempty(s, sep, at + 1);
    }
}

/// A character other than the separator in front of a text goes in front
/// of its first piece, and changes no other piece.
pub proof fn lemma_split_with_prefix(c: char, s: Seq<char>, sep: char)
    requires
        c != sep,
    ensures
        spec_split(seq![c] + s, sep).len() == spec_split(s, sep).len(),
        spec_split(seq![c] + s, sep) == spec_split(s, sep).update(
            0,
            seq![c] + spec_split(s, sep)[0],
        ),
{
    let t = seq![c] + s;
    let at = find_char(s, sep, 0);
    lemma_find_char_behind(seq![c], s, sep, 0);
    lemma_find_char(s, sep, 0);
    lemma_split_nonempty(s, sep, 0);
    assert(find_char(t, sep, 0) == find_char(t, sep, 1));
    let pieces = spec_split(s, sep);
    if at < s.len() {
        lemma_split_behind(seq![c], s, sep, at + 1);
        assert(t.subrange(0, at + 1) =~= seq![c] + s.subrange(0, at));
        assert(spec_split(t, sep) =~= pieces.update(0, seq![c] + pieces[0]));
    } else {
        assert(t.subrange(0, t.len() as int) =~= seq![c] + s.subrange(0, s.len() as int));
        assert(spec_split(t, sep) =~= pieces.update(0, seq![c] + pieces[0]));
    }
}

/// A character that ends no line, put in front of a text that is not
/// empty, goes in front of the first line and changes nothing else.
pub proof fn lemma_lines_with_prefix(c: char, text: Seq<char>)
    requires
        c != '\n',
        c != '\r',
        text.len() > 0,
    ensures
        spec_lines(seq![c] + text) == match spec_lines(text) {
            Ok(lines) => Ok::<Seq<Seq<char>>, Error>(lines.update(0, seq![c] + lines[0])),
            Err(e) => Err(e),
        },
        spec_lines(text) matches Ok(lines) ==> lines.len() > 0 && (lines[0].len() > 0
            ==> lines[0][0] == text[0]),
{
    let marked = seq![c] + text;
    let a = spec_split(text, '\n');
    let b = spec_split(marked, '\n');
    lemma_split_with_prefix(c, text, '\n');
    lemma_split_nonempty(text, '\n', 0);
    lemma_find_char(text, '\n', 0);
    let n = a.len() - 1;
    assert(b[0] == seq![c] + a[0]);
    assert(ends_with_return(b[0]) == ends_with_return(a[0])) by {
        if a[0].len() > 0 {
            assert(b[0].last() == a[0].last());
        }
    }
    assert forall|i: int| 0 <= i < a.len() implies ends_with_return(#[trigger] b[i])
        == ends_with_return(a[i]) by {
        if i > 0 {
            assert(b[i] == a[i]);
        }
    }
    assert(any_with_return(a, n) == any_with_return(b, n)) by {
        if any_with_return(a, n) {
            let i = choose|i: int| 0 <= i < n && i < a.len() && ends_with_return(#[trigger] a[i]);
            assert(ends_with_return(b[i]));
        }
        if any_with_return(b, n) {
            let i = choose|i: int| 0 <= i < n && i < b.len() && ends_with_return(#[trigger] b[i]);
            assert(ends_with_return(a[i]));
        }
    }
    assert(any_without_return(a, n) == any_without_return(b, n)) by {
        if any_without_return(a, n) {
            let i = choose|i: int| 0 <= i < n && i < a.len() && !ends_with_return(#[trigger] a[i]);
            assert(!ends_with_return(b[i]));
        }
        if any_without_return(b, n) {
            let i = choose|i: int| 0 <= i < n && i < b.len() && !ends_with_return(#[trigger] b[i]);
            assert(!ends_with_return(a[i]));
        }
    }
    if a.len() == 1 {
        let at = find_char(text, '\n', 0);
        if at < text.len() {
            lemma_split_nonempty(text, '\n', at + 1);
        }
        assert(a[0] =~= text);
    }
    assert(line_count(a) == line_count(b));
    assert(line_count(a) > 0);
    if spec_lines(text) is Ok {
        let lines = spec_lines(text)->Ok_0;
        let with = spec_lines(marked)->Ok_0;
        assert(line_at(b, 0) =~= seq![c] + line_at(a, 0));
        assert forall|i: int| 0 < i < line_count(a) implies line_at(b, i) == line_at(a, i) by {
            assert(b[i] == a[i]);
        }
        assert(with =~= lines.update(0, seq![c] + lines[0]));
        if lines[0].len() > 0 {
            assert(a[0].len() > 0);
            assert(a[0][0] == text[0]);
        }
    }
}

/// Splits `text` into its lines.
pub fn lines(text: &str) -> (out: Result<Vec<Vec<char>>, Error>)
    ensures
        lines_view(out) == spec_lines(text@),
{
    let chars = to_chars(text);
    let pieces = split(&chars, '\n');
    proof {
        lemma_split_nonempty(chars@, '\n', 0);
    }
    let ghost all = rows(pieces@);
    let terminated: usize = pieces.len() - 1;
    let mut with_return = false;
    let mut without_return = false;
    let mut out: Vec<Vec<char>> = Vec::new();
    let mut i: usize = 0;
    while i < pieces.len()
        invariant
            i <= pieces.len(),
            pieces.len() >= 1,
            terminated == pieces.len() - 1,
            all == rows(pieces@),
            with_return == any_with_return(
                all,
                if i < terminated {
                    i as int
                } else {
                    terminated as int
                },
            ),
            without_return == any_without_return(
                all,
                if i < terminated {
                    i as int
                } else {
                    terminated as int
                },
            ),
            out.len() == if i <= line_count(all) { i as int } else { line_count(all) },
            forall|k: int| 0 <= k < out.len() ==> (#[trigger] out@[k])@ == line_at(all, k),
        decreases pieces.len() - i,
    {
        let piece = &pieces[i];
        assert(piece@ == all[i as int]);
        let len = piece.len();
        let returned = len > 0 && piece[len - 1] == '\r';
        assert(returned == ends_with_return(all[i as int]));
        if i < terminated {
            if returned {
                with_return = true;
                out.push(slice_of(piece, 0, len - 1));
                assert(piece@.subrange(0, len - 1) == piece@.drop_last());
            } else {
                without_return = true;
                out.push(slice_of(piece, 0, len));
                assert(piece@.subrange(0, len as int) == piece@);
            }
        } else if len > 0 {
            out.push(slice_of(piece, 0, len));
            assert(piece@.subrange(0, len as int) == piece@);
        }
        i += 1;
    }
    if with_return && without_return {
        return Err(Error::MalformedStructure);
    }
    assert(rows(out@) =~= Seq::new(line_count(all) as nat, |i: int| line_at(all, i)));
    Ok(out)
}

} // verus!
