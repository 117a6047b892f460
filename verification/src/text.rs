//! Character-level operations on text: trimming, prefixes, splitting, joining
//! and decimal numbers, each stated over `Seq<char>`.

use vstd::prelude::*;

verus! {

/// `String::push` appends one character.
pub assume_specification[ String::push ](s: &mut String, c: char)
    ensures
        final(s)@ == old(s)@.push(c),
;

/// A set of characters that trimming and tokenizing distinguish.
#[derive(Clone, Copy, Debug, PartialEq, Eq, Structural)]
pub enum CharClass {
    /// The characters with the Unicode property `White_Space`.
    Whitespace,
    /// Every character that is not in `Whitespace`.
    Visible,
    /// The two square brackets.
    Bracket,
}

/// The Unicode property `White_Space`.
pub open spec fn spec_is_whitespace(c: char) -> bool {
    ||| '\u{0009}' <= c <= '\u{000D}'
    ||| c == '\u{0020}'
    ||| c == '\u{0085}'
    ||| c == '\u{00A0}'
    ||| c == '\u{1680}'
    ||| '\u{2000}' <= c <= '\u{200A}'
    ||| c == '\u{2028}'
    ||| c == '\u{2029}'
    ||| c == '\u{202F}'
    ||| c == '\u{205F}'
    ||| c == '\u{3000}'
}

/// Whether `c` is a character of `class`.
pub open spec fn in_class(c: char, class: CharClass) -> bool {
    match class {
        CharClass::Whitespace => spec_is_whitespace(c),
        CharClass::Visible => !spec_is_whitespace(c),
        CharClass::Bracket => c == '[' || c == ']',
    }
}

/// Whether `c` has the Unicode property `White_Space`.
pub fn is_whitespace(c: char) -> (b: bool)
    ensures
        b == spec_is_whitespace(c),
{
    ('\u{0009}' <= c && c <= '\u{000D}') || c == '\u{0020}' || c == '\u{0085}' || c == '\u{00A0}'
        || c == '\u{1680}' || ('\u{2000}' <= c && c <= '\u{200A}') || c == '\u{2028}'
        || c == '\u{2029}' || c == '\u{202F}' || c == '\u{205F}' || c == '\u{3000}'
}

/// Whether `c` is a character of `class`.
pub fn is_in_class(c: char, class: CharClass) -> (b: bool)
    ensures
        b == in_class(c, class),
{
    match class {
        CharClass::Whitespace => is_whitespace(c),
        CharClass::Visible => !is_whitespace(c),
        CharClass::Bracket => c == '[' || c == ']',
    }
}

/// The first index at or after `from` whose character is outside `class`,
/// or the length of `s` when there is none.
pub open spec fn skip_class(s: Seq<char>, class: CharClass, from: int) -> int
    decreases s.len() - from,
{
    if 0 <= from < s.len() && in_class(s[from], class) {
        skip_class(s, class, from + 1)
    } else {
        from
    }
}

/// The least index `b` in `lo..=to` such that every character of `s` in
/// `b..to` is in `class`.
pub open spec fn back_class(s: Seq<char>, class: CharClass, lo: int, to: int) -> int
    decreases to - lo,
{
    if lo < to <= s.len() && 0 < to && in_class(s[to - 1], class) {
        back_class(s, class, lo, to - 1)
    } else {
        to
    }
}

/// `s` without its leading and trailing characters of `class`.
pub open spec fn spec_trim_class(s: Seq<char>, class: CharClass) -> Seq<char> {
    let a = skip_class(s, class, 0);
    let b = back_class(s, class, a, s.len() as int);
    s.subrange(a, b)
}

/// `s` without its leading and trailing whitespace.
pub open spec fn spec_trim(s: Seq<char>) -> Seq<char> {
    spec_trim_class(s, CharClass::Whitespace)
}

/// The character sequences that the elements of `v` hold.
pub open spec fn rows(v: Seq<Vec<char>>) -> Seq<Seq<char>> {
    Seq::new(v.len(), |i: int| v[i]@)
}

/// The character sequences that the strings of `v` hold.
pub open spec fn texts(v: Seq<String>) -> Seq<Seq<char>> {
    Seq::new(v.len(), |i: int| v[i]@)
}

/// The characters of `s`, in order.
pub fn to_chars(s: &str) -> (out: Vec<char>)
    ensures
        out@ == s@,
{
    let mut out: Vec<char> = Vec::new();
    for c in it: s.chars()
        invariant
            out@ == s@.take(it.index() as int),
            it.seq() == s@,
    {
        out.push(c);
    }
    out
}

/// The string made of the characters of `chars`.
pub fn from_chars(chars: &Vec<char>) -> (out: String)
    ensures
        out@ == chars@,
{
    let mut out = String::new();
    let mut i: usize = 0;
    while i < chars.len()
        invariant
            i <= chars.len(),
            out@ == chars@.take(i as int),
        decreases chars.len() - i,
    {
        out.push(chars[i]);
        i += 1;
    }
    out
}

/// The characters of `v` from `from` up to, not including, `to`.
pub fn slice_of(v: &Vec<char>, from: usize, to: usize) -> (out: Vec<char>)
    requires
        from <= to <= v.len(),
    ensures
        out@ == v@.subrange(from as int, to as int),
{
    let mut out: Vec<char> = Vec::new();
    let mut i: usize = from;
    while i < to
        invariant
            from <= i <= to <= v.len(),
            out@ == v@.subrange(from as int, i as int),
        decreases to - i,
    {
        out.push(v[i]);
        i += 1;
    }
    out
}

/// Whether `a` and `b` hold the same characters.
pub fn chars_eq(a: &Vec<char>, b: &Vec<char>) -> (same: bool)
    ensures
        same == (a@ == b@),
{
    if a.len() != b.len() {
        return false;
    }
    let mut i: usize = 0;
    while i < a.len()
        invariant
            i <= a.len(),
            a.len() == b.len(),
            a@.take(i as int) == b@.take(i as int),
        decreases a.len() - i,
    {
        if a[i] != b[i] {
            return false;
        }
        assert(a@.take(i + 1) == a@.take(i as int).push(a@[i as int]));
        assert(b@.take(i + 1) == b@.take(i as int).push(b@[i as int]));
        i += 1;
    }
    assert(a@.take(a.len() as int) == a@);
    assert(b@.take(b.len() as int) == b@);
    true
}

/// Steps forward from `from` over the characters of `class`.
pub fn skip_forward(v: &Vec<char>, class: CharClass, from: usize) -> (at: usize)
    requires
        from <= v.len(),
    ensures
        at == skip_class(v@, class, from as int),
        from <= at <= v.len(),
{
    let mut i: usize = from;
    while i < v.len() && is_in_class(v[i], class)
        invariant
            from <= i <= v.len(),
            skip_class(v@, class, i as int) == skip_class(v@, class, from as int),
        decreases v.len() - i,
    {
        i += 1;
    }
    i
}

/// Steps backward from `to`, not below `lo`, over the characters of `class`.
pub fn skip_backward(v: &Vec<char>, class: CharClass, lo: usize, to: usize) -> (at: usize)
    requires
        lo <= to <= v.len(),
    ensures
        at == back_class(v@, class, lo as int, to as int),
        lo <= at <= to,
{
    let mut i: usize = to;
    while lo < i && is_in_class(v[i - 1], class)
        invariant
            lo <= i <= to <= v.len(),
            back_class(v@, class, lo as int, i as int) == back_class(
                v@,
                class,
                lo as int,
                to as int,
            ),
        decreases i - lo,
    {
        i -= 1;
    }
    i
}

/// Removes the leading and trailing characters of `class`.
pub fn trim_class(v: &Vec<char>, class: CharClass) -> (out: Vec<char>)
    ensures
        out@ == spec_trim_class(v@, class),
{
    let a = skip_forward(v, class, 0);
    let b = skip_backward(v, class, a, v.len());
    slice_of(v, a, b)
}

/// Removes leading and trailing whitespace.
pub fn trim(v: &Vec<char>) -> (out: Vec<char>)
    ensures
        out@ == spec_trim(v@),
{
    trim_class(v, CharClass::Whitespace)
}

/// Whether `s` begins with `prefix`.
pub open spec fn has_prefix(s: Seq<char>, prefix: Seq<char>) -> bool {
    prefix.len() <= s.len() && s.subrange(0, prefix.len() as int) == prefix
}

/// Whether `s` ends with `suffix`.
pub open spec fn has_suffix(s: Seq<char>, suffix: Seq<char>) -> bool {
    suffix.len() <= s.len() && s.subrange(s.len() - suffix.len(), s.len() as int) == suffix
}

/// Whether `pattern` stands in `s` at index `at`.
pub open spec fn matches_at(s: Seq<char>, pattern: Seq<char>, at: int) -> bool {
    0 <= at && at + pattern.len() <= s.len() && s.subrange(at, at + pattern.len()) == pattern
}

/// Whether `pattern` stands somewhere in `s`.
pub open spec fn contains(s: Seq<char>, pattern: Seq<char>) -> bool {
    exists|at: int| matches_at(s, pattern, at)
}

/// `s` with every leading repetition of `prefix` removed.
pub open spec fn strip_prefixes(s: Seq<char>, prefix: Seq<char>) -> Seq<char>
    decreases s.len(),
{
    if prefix.len() > 0 && has_prefix(s, prefix) {
        strip_prefixes(s.subrange(prefix.len() as int, s.len() as int), prefix)
    } else {
        s
    }
}

/// Whether `pattern` stands in `v` at index `at`.
pub fn has_pattern_at(v: &Vec<char>, pattern: &Vec<char>, at: usize) -> (found: bool)
    requires
        at <= v.len(),
    ensures
        found == matches_at(v@, pattern@, at as int),
{
    if pattern.len() > v.len() - at {
        return false;
    }
    let mut i: usize = 0;
    while i < pattern.len()
        invariant
            i <= pattern.len(),
            at + pattern.len() <= v.len(),
            v@.subrange(at as int, at + i) == pattern@.take(i as int),
        decreases pattern.len() - i,
    {
        if v[at + i] != pattern[i] {
            assert(v@.subrange(at as int, at + pattern.len())[i as int] != pattern@[i as int]);
            return false;
        }
        assert(v@.subrange(at as int, at + i + 1) == v@.subrange(at as int, at + i).push(
            v@[at + i],
        ));
        assert(pattern@.take(i + 1) == pattern@.take(i as int).push(pattern@[i as int]));
        i += 1;
    }
    assert(pattern@.take(pattern.len() as int) == pattern@);
    true
}

/// Whether `v` begins with `prefix`.
pub fn starts_with(v: &Vec<char>, prefix: &Vec<char>) -> (found: bool)
    ensures
        found == has_prefix(v@, prefix@),
{
    has_pattern_at(v, prefix, 0)
}

/// Whether `v` ends with `suffix`.
pub fn ends_with(v: &Vec<char>, suffix: &Vec<char>) -> (found: bool)
    ensures
        found == has_suffix(v@, suffix@),
{
    if suffix.len() > v.len() {
        return false;
    }
    has_pattern_at(v, suffix, v.len() - suffix.len())
}

/// Removes every leading repetition of `prefix`.
pub fn strip_leading(v: &Vec<char>, prefix: &Vec<char>) -> (out: Vec<char>)
    ensures
        out@ == strip_prefixes(v@, prefix@),
{
    if prefix.len() == 0 {
        return slice_of(v, 0, v.len());
    }
    let mut at: usize = 0;
    assert(v@.subrange(0, v.len() as int) == v@);
    while has_pattern_at(v, prefix, at)
        invariant
            at <= v.len(),
            prefix.len() > 0,
            strip_prefixes(v@.subrange(at as int, v.len() as int), prefix@) == strip_prefixes(
                v@,
                prefix@,
            ),
        decreases v.len() - at,
    {
        let ghost rest = v@.subrange(at as int, v.len() as int);
        assert(rest.subrange(0, prefix.len() as int) == v@.subrange(at as int, at + prefix.len()));
        assert(rest.subrange(prefix.len() as int, rest.len() as int) == v@.subrange(
            at + prefix.len(),
            v.len() as int,
        ));
        at += prefix.len();
    }
    let ghost rest = v@.subrange(at as int, v.len() as int);
    assert(has_prefix(rest, prefix@) ==> matches_at(v@, prefix@, at as int)) by {
        if has_prefix(rest, prefix@) {
            assert(rest.subrange(0, prefix.len() as int) == v@.subrange(
                at as int,
                at + prefix.len(),
            ));
        }
    }
    slice_of(v, at, v.len())
}

/// The first index at or after `from` at which `s` holds `c`, or the length
/// of `s` when there is none.
pub open spec fn find_char(s: Seq<char>, c: char, from: int) -> int
    decreases s.len() - from,
{
    if 0 <= from < s.len() && s[from] != c {
        find_char(s, c, from + 1)
    } else {
        from
    }
}

/// The index found is the first one at or after `from` that holds `c`.
pub proof fn lemma_find_char(s: Seq<char>, c: char, from: int)
    requires
        0 <= from <= s.len(),
    ensures
        from <= find_char(s, c, from) <= s.len(),
        forall|i: int| from <= i < find_char(s, c, from) ==> #[trigger] s[i] != c,
        find_char(s, c, from) < s.len() ==> s[find_char(s, c, from)] == c,
    decreases s.len() - from,
{
    if from < s.len() && s[from] != c {
        lemma_find_char(s, c, from + 1);
    }
}

/// The pieces of `s` from index `from` on that `sep` separates.
pub open spec fn split_from(s: Seq<char>, sep: char, from: int) -> Seq<Seq<char>>
    decreases s.len() - from,
{
    let at = find_char(s, sep, from);
    if 0 <= from <= at < s.len() {
        seq![s.subrange(from, at)] + split_from(s, sep, at + 1)
    } else {
        seq![s.subrange(from, s.len() as int)]
    }
}

/// The pieces of `s` that `sep` separates: one more than `s` holds
/// separators, empty pieces included.
pub open spec fn spec_split(s: Seq<char>, sep: char) -> Seq<Seq<char>> {
    split_from(s, sep, 0)
}

/// At most `n` pieces of `s` from index `from` on; the last one holds the
/// rest of `s`, separators included.
pub open spec fn splitn_from(s: Seq<char>, sep: char, n: nat, from: int) -> Seq<Seq<char>>
    decreases n,
{
    let at = find_char(s, sep, from);
    if n == 0 {
        Seq::<Seq<char>>::empty()
    } else if n > 1 && 0 <= from <= at < s.len() {
        seq![s.subrange(from, at)] + splitn_from(s, sep, (n - 1) as nat, at + 1)
    } else {
        seq![s.subrange(from, s.len() as int)]
    }
}

/// At most `n` pieces of `s` that `sep` separates; the last one holds what
/// is left of `s`.
pub open spec fn spec_splitn(s: Seq<char>, sep: char, n: nat) -> Seq<Seq<char>> {
    splitn_from(s, sep, n, 0)
}

/// Behind a prefix, a character is found where it is found without the
/// prefix, as many places further on as the prefix is long.
pub proof fn lemma_find_char_behind(past: Seq<char>, rest: Seq<char>, c: char, from: int)
    requires
        0 <= from <= rest.len(),
    ensures
        find_char(past + rest, c, past.len() + from) == past.len() + find_char(rest, c, from),
    decreases rest.len() - from,
{
    if from < rest.len() {
        assert((past + rest)[past.len() + from] == rest[from]);
        if rest[from] != c {
            lemma_find_char_behind(past, rest, c, from + 1);
        }
    }
}

/// Behind a prefix, a text splits as it splits without the prefix.
pub proof fn lemma_splitn_behind(past: Seq<char>, rest: Seq<char>, sep: char, n: nat, from: int)
    requires
        0 <= from <= rest.len(),
    ensures
        splitn_from(past + rest, sep, n, past.len() + from) == splitn_from(rest, sep, n, from),
    decreases n,
{
    let all = past + rest;
    let at = find_char(rest, sep, from);
    lemma_find_char_behind(past, rest, sep, from);
    lemma_find_char(rest, sep, from);
    if n == 0 {
    } else if n > 1 && at < rest.len() {
        lemma_splitn_behind(past, rest, sep, (n - 1) as nat, at + 1);
        assert(all.subrange(past.len() + from, past.len() + at) =~= rest.subrange(from, at));
    } else {
        assert(all.subrange(past.len() + from, all.len() as int) =~= rest.subrange(
            from,
            rest.len() as int,
        ));
    }
}

/// Behind a prefix, a text splits as it splits without the prefix.
pub proof fn lemma_split_behind(past: Seq<char>, rest: Seq<char>, sep: char, from: int)
    requires
        0 <= from <= rest.len(),
    ensures
        split_from(past + rest, sep, past.len() + from) == split_from(rest, sep, from),
    decreases rest.len() - from,
{
    let all = past + rest;
    let at = find_char(rest, sep, from);
    lemma_find_char_behind(past, rest, sep, from);
    lemma_find_char(rest, sep, from);
    if at < rest.len() {
        lemma_split_behind(past, rest, sep, at + 1);
        assert(all.subrange(past.len() + from, past.len() + at) =~= rest.subrange(from, at));
    } else {
        assert(all.subrange(past.len() + from, all.len() as int) =~= rest.subrange(
            from,
            rest.len() as int,
        ));
    }
}

/// Whether `s` holds the character `c`.
pub open spec fn has_char(s: Seq<char>, c: char) -> bool {
    exists|i: int| 0 <= i < s.len() && s[i] == c
}

/// Pieces joined with a separator split into the same pieces again, where
/// only the last piece may hold the separator.
pub proof fn lemma_splitn_join(pieces: Seq<Seq<char>>, sep: char)
    requires
        pieces.len() >= 1,
        forall|i: int| 0 <= i < pieces.len() - 1 ==> !has_char(#[trigger] pieces[i], sep),
    ensures
        spec_splitn(spec_join(pieces, seq![sep]), sep, pieces.len()) == pieces,
    decreases pieces.len(),
{
    let text = spec_join(pieces, seq![sep]);
    if pieces.len() == 1 {
        assert(text.subrange(0, text.len() as int) =~= text);
        assert(spec_splitn(text, sep, 1) =~= pieces);
    } else {
        let first = pieces[0];
        let rest = pieces.drop_first();
        let joined = spec_join(rest, seq![sep]);
        assert forall|i: int| 0 <= i < rest.len() - 1 implies !has_char(
            #[trigger] rest[i],
            sep,
        ) by {
            assert(rest[i] == pieces[i + 1]);
        }
        lemma_splitn_join(rest, sep);
        assert(text == first + seq![sep] + joined);
        let past = first + seq![sep];
        lemma_find_char(text, sep, 0);
        let at = find_char(text, sep, 0);
        assert(at == first.len()) by {
            assert(text[first.len() as int] == sep);
            assert(!has_char(first, sep));
            if at < first.len() {
                assert(text[at] == first[at]);
                assert(has_char(first, sep));
            }
        }
        lemma_splitn_behind(past, joined, sep, (pieces.len() - 1) as nat, 0);
        assert(text.subrange(0, at) =~= first);
        assert(spec_splitn(text, sep, pieces.len()) =~= seq![first] + rest);
        assert(seq![first] + rest =~= pieces);
    }
}

/// Pieces without the separator, joined with it, split into the same
/// pieces again.
pub proof fn lemma_split_join(pieces: Seq<Seq<char>>, sep: char)
    requires
        pieces.len() >= 1,
        forall|i: int| 0 <= i < pieces.len() ==> !has_char(#[trigger] pieces[i], sep),
    ensures
        spec_split(spec_join(pieces, seq![sep]), sep) == pieces,
    decreases pieces.len(),
{
    let text = spec_join(pieces, seq![sep]);
    lemma_find_char(text, sep, 0);
    let at = find_char(text, sep, 0);
    let first = pieces[0];
    assert(!has_char(first, sep));
    if pieces.len() == 1 {
        if at < text.len() {
            assert(has_char(first, sep));
        }
        assert(text.subrange(0, text.len() as int) =~= text);
        assert(spec_split(text, sep) =~= pieces);
    } else {
        let rest = pieces.drop_first();
        let joined = spec_join(rest, seq![sep]);
        assert forall|i: int| 0 <= i < rest.len() implies !has_char(#[trigger] rest[i], sep) by {
            assert(rest[i] == pieces[i + 1]);
        }
        lemma_split_join(rest, sep);
        assert(text == first + seq![sep] + joined);
        assert(at == first.len()) by {
            assert(text[first.len() as int] == sep);
            if at < first.len() {
                assert(text[at] == first[at]);
                assert(has_char(first, sep));
            }
        }
        lemma_split_behind(first + seq![sep], joined, sep, 0);
        assert(text.subrange(0, at) =~= first);
        assert(spec_split(text, sep) =~= seq![first] + rest);
        assert(seq![first] + rest =~= pieces);
    }
}

/// Steps forward from `from` to the next `c`.
pub fn find(v: &Vec<char>, c: char, from: usize) -> (at: usize)
    requires
        from <= v.len(),
    ensures
        at == find_char(v@, c, from as int),
        from <= at <= v.len(),
{
    let mut i: usize = from;
    while i < v.len() && v[i] != c
        invariant
            from <= i <= v.len(),
            find_char(v@, c, i as int) == find_char(v@, c, from as int),
        decreases v.len() - i,
    {
        i += 1;
    }
    i
}

/// Splits at most `n` pieces off `v` at each `sep`.
pub fn splitn(v: &Vec<char>, sep: char, n: usize) -> (out: Vec<Vec<char>>)
    ensures
        rows(out@) == spec_splitn(v@, sep, n as nat),
{
    let mut out: Vec<Vec<char>> = Vec::new();
    if n == 0 {
        assert(rows(out@) == Seq::<Seq<char>>::empty());
        return out;
    }
    let mut from: usize = 0;
    let mut left: usize = n;
    loop
        invariant
            from <= v.len(),
            1 <= left <= n,
            rows(out@) + splitn_from(v@, sep, left as nat, from as int) == spec_splitn(
                v@,
                sep,
                n as nat,
            ),
        decreases left,
    {
        let at = find(v, sep, from);
        if left > 1 && at < v.len() {
            let piece = slice_of(v, from, at);
            let ghost before = rows(out@);
            out.push(piece);
            assert(rows(out@) == before + seq![v@.subrange(from as int, at as int)]);
            from = at + 1;
            left -= 1;
        } else {
            let piece = slice_of(v, from, v.len());
            let ghost before = rows(out@);
            out.push(piece);
            assert(rows(out@) == before + seq![v@.subrange(from as int, v.len() as int)]);
            return out;
        }
    }
}

/// Splits `v` at each `sep`.
pub fn split(v: &Vec<char>, sep: char) -> (out: Vec<Vec<char>>)
    ensures
        rows(out@) == spec_split(v@, sep),
{
    let mut out: Vec<Vec<char>> = Vec::new();
    let mut from: usize = 0;
    loop
        invariant
            from <= v.len(),
            rows(out@) + split_from(v@, sep, from as int) == spec_split(v@, sep),
        decreases v.len() - from,
    {
        let at = find(v, sep, from);
        if at < v.len() {
            let piece = slice_of(v, from, at);
            let ghost before = rows(out@);
            out.push(piece);
            assert(rows(out@) == before + seq![v@.subrange(from as int, at as int)]);
            from = at + 1;
        } else {
            let piece = slice_of(v, from, v.len());
            let ghost before = rows(out@);
            out.push(piece);
            assert(rows(out@) == before + seq![v@.subrange(from as int, v.len() as int)]);
            return out;
        }
    }
}

/// The first index at or after `from` at which `pattern` stands in `s`, or
/// the length of `s` when there is none.
pub open spec fn find_pattern(s: Seq<char>, pattern: Seq<char>, from: int) -> int
    decreases s.len() - from,
{
    if 0 <= from < s.len() && !matches_at(s, pattern, from) {
        find_pattern(s, pattern, from + 1)
    } else {
        from
    }
}

/// The index found is the first one at or after `from` at which
/// `pattern` stands.
pub proof fn lemma_find_pattern(s: Seq<char>, pattern: Seq<char>, from: int)
    requires
        0 <= from <= s.len(),
    ensures
        from <= find_pattern(s, pattern, from) <= s.len(),
        forall|i: int| from <= i < find_pattern(s, pattern, from) ==> !matches_at(s, pattern, i),
        find_pattern(s, pattern, from) < s.len() ==> matches_at(
            s,
            pattern,
            find_pattern(s, pattern, from),
        ),
    decreases s.len() - from,
{
    if from < s.len() && !matches_at(s, pattern, from) {
        lemma_find_pattern(s, pattern, from + 1);
    }
}

/// The pieces of `s` from index `from` on that the occurrences of `pattern`
/// separate, the occurrences taken from the left and not overlapping.
pub open spec fn split_pattern_from(s: Seq<char>, pattern: Seq<char>, from: int) -> Seq<Seq<char>>
    decreases s.len() - from,
{
    let at = find_pattern(s, pattern, from);
    if pattern.len() > 0 && 0 <= from <= at && matches_at(s, pattern, at) {
        seq![s.subrange(from, at)] + split_pattern_from(s, pattern, at + pattern.len())
    } else {
        seq![s.subrange(from, s.len() as int)]
    }
}

/// The pieces of `s` that the occurrences of `pattern` separate.
pub open spec fn spec_split_pattern(s: Seq<char>, pattern: Seq<char>) -> Seq<Seq<char>> {
    split_pattern_from(s, pattern, 0)
}

/// Steps forward from `from` to the next occurrence of `pattern`.
pub fn find_next(v: &Vec<char>, pattern: &Vec<char>, from: usize) -> (at: usize)
    requires
        from <= v.len(),
    ensures
        at == find_pattern(v@, pattern@, from as int),
        from <= at <= v.len(),
        at < v.len() ==> matches_at(v@, pattern@, at as int),
{
    let mut i: usize = from;
    while i < v.len() && !has_pattern_at(v, pattern, i)
        invariant
            from <= i <= v.len(),
            find_pattern(v@, pattern@, i as int) == find_pattern(v@, pattern@, from as int),
        decreases v.len() - i,
    {
        i += 1;
    }
    i
}

/// Splits `v` at each occurrence of `pattern`.
pub fn split_pattern(v: &Vec<char>, pattern: &Vec<char>) -> (out: Vec<Vec<char>>)
    requires
        pattern.len() > 0,
    ensures
        rows(out@) == spec_split_pattern(v@, pattern@),
{
    let mut out: Vec<Vec<char>> = Vec::new();
    let mut from: usize = 0;
    loop
        invariant
            from <= v.len(),
            pattern.len() > 0,
            rows(out@) + split_pattern_from(v@, pattern@, from as int) == spec_split_pattern(
                v@,
                pattern@,
            ),
        decreases v.len() - from,
    {
        let at = find_next(v, pattern, from);
        if at < v.len() {
            let piece = slice_of(v, from, at);
            let ghost before = rows(out@);
            out.push(piece);
            assert(rows(out@) == before + seq![v@.subrange(from as int, at as int)]);
            from = at + pattern.len();
        } else {
            let piece = slice_of(v, from, v.len());
            let ghost before = rows(out@);
            out.push(piece);
            assert(rows(out@) == before + seq![v@.subrange(from as int, v.len() as int)]);
            return out;
        }
    }
}

/// The pieces in order, with `sep` between each two.
pub open spec fn spec_join(pieces: Seq<Seq<char>>, sep: Seq<char>) -> Seq<char>
    decreases pieces.len(),
{
    if pieces.len() == 0 {
        Seq::<char>::empty()
    } else if pieces.len() == 1 {
        pieces[0]
    } else {
        pieces[0] + sep + spec_join(pieces.drop_first(), sep)
    }
}

/// Joining one piece more appends the separator and the piece.
pub proof fn lemma_join_push(pieces: Seq<Seq<char>>, sep: Seq<char>, last: Seq<char>)
    requires
        pieces.len() > 0,
    ensures
        spec_join(pieces.push(last), sep) == spec_join(pieces, sep) + sep + last,
    decreases pieces.len(),
{
    let more = pieces.push(last);
    if pieces.len() == 1 {
        assert(more.drop_first() == seq![last]);
        assert(spec_join(more.drop_first(), sep) == last);
    } else {
        assert(more.drop_first() == pieces.drop_first().push(last));
        lemma_join_push(pieces.drop_first(), sep, last);
        assert((pieces[0] + sep + spec_join(pieces.drop_first(), sep)) + sep + last == pieces[0]
            + sep + (spec_join(pieces.drop_first(), sep) + sep + last));
    }
}

/// Splitting at a pattern gives one piece at least.
pub proof fn lemma_split_pattern_nonempty(s: Seq<char>, pattern: Seq<char>, from: int)
    ensures
        split_pattern_from(s, pattern, from).len() >= 1,
    decreases s.len() - from,
{
    let at = find_pattern(s, pattern, from);
    if pattern.len() > 0 && 0 <= from <= at && matches_at(s, pattern, at) {
        lemma_split_pattern_nonempty(s, pattern, at + pattern.len());
    }
}

/// The pieces of a split from `from` on, joined with the pattern, are the
/// text from `from` on; no piece holds the pattern; and there is one piece
/// only where the pattern does not stand at or after `from`.
pub proof fn lemma_split_pattern_from(s: Seq<char>, pattern: Seq<char>, from: int)
    requires
        pattern.len() > 0,
        0 <= from <= s.len(),
    ensures
        spec_join(split_pattern_from(s, pattern, from), pattern) == s.subrange(
            from,
            s.len() as int,
        ),
        forall|k: int|
            0 <= k < split_pattern_from(s, pattern, from).len() ==> !contains(
                #[trigger] split_pattern_from(s, pattern, from)[k],
                pattern,
            ),
        (split_pattern_from(s, pattern, from).len() == 1) == (forall|i: int|
            from <= i ==> !matches_at(s, pattern, i)),
    decreases s.len() - from,
{
    let at = find_pattern(s, pattern, from);
    let pieces = split_pattern_from(s, pattern, from);
    lemma_find_pattern(s, pattern, from);
    let head = s.subrange(from, at);
    assert forall|j: int| !matches_at(head, pattern, j) by {
        if matches_at(head, pattern, j) {
            assert(s.subrange(from + j, from + j + pattern.len()) =~= head.subrange(
                j,
                j + pattern.len(),
            ));
            assert(matches_at(s, pattern, from + j));
        }
    }
    if matches_at(s, pattern, at) {
        let next = at + pattern.len();
        let rest = split_pattern_from(s, pattern, next);
        lemma_split_pattern_from(s, pattern, next);
        lemma_split_pattern_nonempty(s, pattern, next);
        assert(pieces == seq![head] + rest);
        assert(pieces.drop_first() =~= rest);
        assert(pieces[0] == head);
        assert(spec_join(pieces, pattern) == head + pattern + spec_join(rest, pattern));
        assert(head + pattern + s.subrange(next, s.len() as int) =~= s.subrange(
            from,
            s.len() as int,
        )) by {
            assert(s.subrange(at, next) == pattern);
            assert forall|i: int| 0 <= i < s.len() - from implies (head + pattern + s.subrange(
                next,
                s.len() as int,
            ))[i] == s.subrange(from, s.len() as int)[i] by {
                if at - from <= i < next - from {
                    assert(s.subrange(at, next)[i - (at - from)] == s[from + i]);
                }
            }
        }
        assert forall|k: int| 0 <= k < pieces.len() implies !contains(
            #[trigger] pieces[k],
            pattern,
        ) by {
            if k > 0 {
                assert(pieces[k] == rest[k - 1]);
            }
        }
    } else {
        assert(at == s.len());
        assert(pieces == seq![head]);
        assert(pieces[0] == head);
        assert forall|i: int| from <= i implies !matches_at(s, pattern, i) by {}
    }
}

/// Splitting a text at a pattern cuts it at each place where the pattern
/// stands, taken from the left: the pieces joined with the pattern are the
/// text, no piece holds the pattern, and a text without the pattern is its
/// own single piece.
pub proof fn lemma_split_pattern(s: Seq<char>, pattern: Seq<char>)
    requires
        pattern.len() > 0,
    ensures
        spec_join(spec_split_pattern(s, pattern), pattern) == s,
        forall|k: int|
            0 <= k < spec_split_pattern(s, pattern).len() ==> !contains(
                #[trigger] spec_split_pattern(s, pattern)[k],
                pattern,
            ),
        !contains(s, pattern) ==> spec_split_pattern(s, pattern) == seq![s],
        contains(s, pattern) ==> spec_split_pattern(s, pattern).len() >= 2,
{
    lemma_split_pattern_from(s, pattern, 0);
    lemma_split_pattern_nonempty(s, pattern, 0);
    assert(s.subrange(0, s.len() as int) =~= s);
    let pieces = spec_split_pattern(s, pattern);
    if !contains(s, pattern) {
        assert(forall|i: int| 0 <= i ==> !matches_at(s, pattern, i));
        assert(pieces.len() == 1);
        assert(spec_join(pieces, pattern) == pieces[0]);
        assert(pieces =~= seq![s]);
    } else {
        let at = choose|at: int| matches_at(s, pattern, at);
        assert(matches_at(s, pattern, at));
    }
}

/// The maximal runs of visible characters of `s` from index `from` on.
pub open spec fn tokens_from(s: Seq<char>, from: int) -> Seq<Seq<char>>
    decreases s.len() - from,
{
    let a = skip_class(s, CharClass::Whitespace, from);
    let b = skip_class(s, CharClass::Visible, a);
    if 0 <= from <= a < b <= s.len() {
        seq![s.subrange(a, b)] + tokens_from(s, b)
    } else {
        Seq::<Seq<char>>::empty()
    }
}

/// The maximal runs of visible characters of `s`: what whitespace separates.
pub open spec fn spec_tokens(s: Seq<char>) -> Seq<Seq<char>> {
    tokens_from(s, 0)
}

/// Splits `v` at whitespace; no token is empty.
pub fn tokens(v: &Vec<char>) -> (out: Vec<Vec<char>>)
    ensures
        rows(out@) == spec_tokens(v@),
{
    let mut out: Vec<Vec<char>> = Vec::new();
    let mut from: usize = 0;
    loop
        invariant
            from <= v.len(),
            rows(out@) + tokens_from(v@, from as int) == spec_tokens(v@),
        decreases v.len() - from,
    {
        let a = skip_forward(v, CharClass::Whitespace, from);
        let b = skip_forward(v, CharClass::Visible, a);
        if a < b {
            let piece = slice_of(v, a, b);
            let ghost before = rows(out@);
            out.push(piece);
            assert(rows(out@) == before + seq![v@.subrange(a as int, b as int)]);
            from = b;
        } else {
            assert(rows(out@) + Seq::<Seq<char>>::empty() == rows(out@));
            return out;
        }
    }
}

/// Whether `c` is one of the ten decimal digits.
pub open spec fn is_digit(c: char) -> bool {
    '0' <= c <= '9'
}

/// The number that a decimal digit stands for.
pub open spec fn digit_value(c: char) -> nat {
    (c as nat - '0' as nat) as nat
}

/// The decimal digit for a number below ten.
pub open spec fn digit_char(d: nat) -> char {
    ('0' as nat + d) as char
}

/// Whether `s` holds decimal digits only.
pub open spec fn all_digits(s: Seq<char>) -> bool {
    forall|i: int| 0 <= i < s.len() ==> is_digit(#[trigger] s[i])
}

/// The number that a sequence of decimal digits stands for.
pub open spec fn digits_value(s: Seq<char>) -> nat
    decreases s.len(),
{
    if s.len() == 0 {
        0
    } else {
        digits_value(s.drop_last()) * 10 + digit_value(s.last())
    }
}

/// What `s` stands for as an unsigned 64-bit number: an optional `+`, then
/// one decimal digit or more, the value within range.
pub open spec fn spec_parse_u64(s: Seq<char>) -> Option<u64> {
    let digits = if s.len() > 0 && s[0] == '+' {
        s.drop_first()
    } else {
        s
    };
    if digits.len() > 0 && all_digits(digits) && digits_value(digits) <= u64::MAX {
        Some(digits_value(digits) as u64)
    } else {
        None
    }
}

/// The digits in front of a sequence of digits stand for no more than the
/// whole sequence.
pub proof fn lemma_digits_value_monotone(s: Seq<char>, n: int)
    requires
        0 <= n <= s.len(),
    ensures
        digits_value(s.take(n)) <= digits_value(s),
    decreases s.len() - n,
{
    if n < s.len() {
        lemma_digits_value_monotone(s, n + 1);
        assert(s.take(n + 1).drop_last() == s.take(n));
    } else {
        assert(s.take(n) == s);
    }
}

/// The number that `c` stands for, if it is a decimal digit.
pub fn digit_of(c: char) -> (d: Option<u8>)
    ensures
        d is Some == is_digit(c),
        d matches Some(v) ==> v == digit_value(c) && v < 10,
{
    match c {
        '0' => Some(0),
        '1' => Some(1),
        '2' => Some(2),
        '3' => Some(3),
        '4' => Some(4),
        '5' => Some(5),
        '6' => Some(6),
        '7' => Some(7),
        '8' => Some(8),
        '9' => Some(9),
        _ => None,
    }
}

/// Reads `v` as an unsigned 64-bit number.
pub fn parse_u64(v: &Vec<char>) -> (out: Option<u64>)
    ensures
        out == spec_parse_u64(v@),
{
    let start: usize = if v.len() > 0 && v[0] == '+' {
        1
    } else {
        0
    };
    if start == v.len() {
        return None;
    }
    let ghost digits = v@.subrange(start as int, v.len() as int);
    assert(digits == if start == 1 {
        v@.drop_first()
    } else {
        v@
    });
    let mut value: u64 = 0;
    let mut i: usize = start;
    while i < v.len()
        invariant
            start <= i <= v.len(),
            digits == v@.subrange(start as int, v.len() as int),
            digits.len() > 0,
            digits == if v@.len() > 0 && v@[0] == '+' {
                v@.drop_first()
            } else {
                v@
            },
            all_digits(digits.take(i - start)),
            value == digits_value(digits.take(i - start)),
        decreases v.len() - i,
    {
        let ghost seen = digits.take(i - start);
        let ghost next = digits.take(i - start + 1);
        assert(next.drop_last() == seen);
        assert(next.last() == v@[i as int]);
        let d = match digit_of(v[i]) {
            Some(d) => d,
            None => {
                assert(!is_digit(digits[i - start]));
                return None;
            },
        };
        proof {
            lemma_digits_value_monotone(digits, i - start + 1);
            assert(digits_value(next) == value * 10 + d);
        }
        let tenfold = match value.checked_mul(10) {
            Some(t) => t,
            None => {
                return None;
            },
        };
        value = match tenfold.checked_add(d as u64) {
            Some(t) => t,
            None => {
                return None;
            },
        };
        assert forall|k: int| 0 <= k < next.len() implies is_digit(#[trigger] next[k]) by {
            if k < seen.len() {
                assert(next[k] == seen[k]);
            }
        }
        i += 1;
    }
    assert(digits.take(v.len() - start) == digits);
    Some(value)
}

/// The decimal digits of `n`, without leading zeros.
pub open spec fn spec_decimal(n: nat) -> Seq<char>
    decreases n,
{
    if n < 10 {
        seq![digit_char(n)]
    } else {
        spec_decimal(n / 10).push(digit_char(n % 10))
    }
}

/// The decimal digits of `n`, with a zero in front where `n` is below ten.
pub open spec fn spec_two_digits(n: nat) -> Seq<char> {
    if n < 10 {
        seq!['0', digit_char(n)]
    } else {
        spec_decimal(n)
    }
}

/// The decimal digit for `d`.
pub fn digit_to_char(d: u8) -> (c: char)
    requires
        d < 10,
    ensures
        c == digit_char(d as nat),
{
    match d {
        0 => '0',
        1 => '1',
        2 => '2',
        3 => '3',
        4 => '4',
        5 => '5',
        6 => '6',
        7 => '7',
        8 => '8',
        _ => '9',
    }
}

/// Writes `n` in decimal.
pub fn decimal(n: u128) -> (out: Vec<char>)
    ensures
        out@ == spec_decimal(n as nat),
    decreases n,
{
    if n < 10 {
        let mut out: Vec<char> = Vec::new();
        out.push(digit_to_char(n as u8));
        out
    } else {
        let mut out = decimal(n / 10);
        out.push(digit_to_char((n % 10) as u8));
        out
    }
}

/// Writes `n` in decimal, in two digits at least.
pub fn two_digits(n: u128) -> (out: Vec<char>)
    ensures
        out@ == spec_two_digits(n as nat),
{
    if n < 10 {
        let mut out: Vec<char> = Vec::new();
        out.push('0');
        out.push(digit_to_char(n as u8));
        out
    } else {
        decimal(n)
    }
}

} // verus!
