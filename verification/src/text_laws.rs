//! What the text operations give back of texts that were put together.
use vstd::prelude::*;

use crate::{package_name, text};

verus! {

/// Whether a text is free of white space.
pub open spec fn solid(s: Seq<char>) -> bool {
    forall|i: int| 0 <= i < s.len() ==> !text::white_space(#[trigger] s[i])
}

/// Whether a text is white space alone.
pub open spec fn blank(s: Seq<char>) -> bool {
    forall|i: int| 0 <= i < s.len() ==> text::white_space(#[trigger] s[i])
}

/// Whether a character does not stand in a text.
pub open spec fn lacks(s: Seq<char>, c: char) -> bool {
    forall|i: int| 0 <= i < s.len() ==> #[trigger] s[i] != c
}

/// Whether a pattern stands nowhere in a text.
pub open spec fn lacks_text(s: Seq<char>, pat: Seq<char>) -> bool {
    forall|a: int, b: int|
        0 <= a <= b <= s.len() && b - a == pat.len() ==> #[trigger] s.subrange(a, b) != pat
}

// ---------------------------------------------------------------------------
// Searching
// ---------------------------------------------------------------------------

proof fn lemma_find_from_at(s: Seq<char>, pat: Seq<char>, from: int, at: int)
    requires
        0 <= from <= at,
        text::occurs_at(s, pat, at),
        forall|k: int| from <= k < at ==> !#[trigger] text::occurs_at(s, pat, k),
    ensures
        text::find_from(s, pat, from) == Some(at),
    decreases at - from,
{
    if from < at {
        assert(!text::occurs_at(s, pat, from));
        lemma_find_from_at(s, pat, from + 1, at);
    }
}

/// A pattern is searched for from the front: what stands before its first place
/// and what stands after it are the two parts.
pub proof fn law_cut_at_first_place(before: Seq<char>, pat: Seq<char>, after: Seq<char>)
    requires
        forall|k: int|
            0 <= k < before.len() ==> !#[trigger] text::occurs_at(before + pat + after, pat, k),
    ensures
        text::find(before + pat + after, pat) == Some(before.len() as int),
        text::split_once(before + pat + after, pat) == Some((before, after)),
{
    let s = before + pat + after;
    let at = before.len() as int;
    assert(s.subrange(at, at + pat.len()) =~= pat);
    lemma_find_from_at(s, pat, 0, at);
    assert(s.take(at) =~= before);
    assert(s.skip(at + pat.len()) =~= after);
}

/// Where a single character is searched for, a part without it comes before it.
pub proof fn law_cut_at_first_char(before: Seq<char>, c: char, after: Seq<char>)
    requires
        lacks(before, c),
    ensures
        text::split_once(before + seq![c] + after, seq![c]) == Some((before, after)),
{
    let s = before + seq![c] + after;
    assert forall|k: int| 0 <= k < before.len() implies !#[trigger] text::occurs_at(
        s,
        seq![c],
        k,
    ) by {
        assert(s[k] == before[k]);
        if text::occurs_at(s, seq![c], k) {
            assert(s.subrange(k, k + 1)[0] == s[k]);
        }
    }
    law_cut_at_first_place(before, seq![c], after);
}

/// A text without a character is not cut at it.
pub proof fn law_no_cut_without_char(s: Seq<char>, c: char)
    requires
        lacks(s, c),
    ensures
        text::split_once(s, seq![c]) is None,
{
    text::lemma_find(s, seq![c]);
    match text::find(s, seq![c]) {
        Some(at) => {
            assert(s.subrange(at, at + 1)[0] == s[at]);
        },
        None => {},
    }
}

/// A text holds a pattern exactly where the pattern stands somewhere in it.
pub proof fn law_holds_where_it_stands(s: Seq<char>, pat: Seq<char>)
    ensures
        text::holds(s, pat) == !lacks_text(s, pat),
{
    if text::holds(s, pat) {
        let at = choose|at: int| #[trigger] text::occurs_at(s, pat, at);
        assert(s.subrange(at, at + pat.len()) == pat);
    } else {
        assert forall|a: int, b: int|
            0 <= a <= b <= s.len() && b - a == pat.len() implies #[trigger] s.subrange(a, b)
            != pat by {
            assert(!text::occurs_at(s, pat, a));
        }
    }
}

/// A text put behind a prefix comes back when the prefix is taken off, and only
/// such a text does.
pub proof fn law_prefix_comes_off(pat: Seq<char>, rest: Seq<char>)
    ensures
        text::strip_prefix(pat + rest, pat) == Some(rest),
        forall|s: Seq<char>| #[trigger]
            text::strip_prefix(s, pat) == Some(rest) ==> s == pat + rest,
{
    assert((pat + rest).subrange(0, pat.len() as int) =~= pat);
    assert((pat + rest).skip(pat.len() as int) =~= rest);
    assert forall|s: Seq<char>| #[trigger] text::strip_prefix(s, pat) == Some(rest) implies s
        == pat + rest by {
        assert(s =~= s.subrange(0, pat.len() as int) + s.skip(pat.len() as int));
    }
}

/// A text that differs from a prefix at some place does not start with it.
pub proof fn law_other_start_keeps_prefix(s: Seq<char>, pat: Seq<char>, i: int)
    requires
        0 <= i < pat.len(),
        i < s.len() ==> s[i] != pat[i],
    ensures
        text::strip_prefix(s, pat) is None,
{
    if text::occurs_at(s, pat, 0) {
        assert(s.subrange(0, pat.len() as int)[i] == s[i]);
    }
}

// ---------------------------------------------------------------------------
// Pieces and lines
// ---------------------------------------------------------------------------

/// A text without the separator is one piece.
pub proof fn law_one_piece(s: Seq<char>, sep: char)
    requires
        lacks(s, sep),
    ensures
        text::split(s, sep) == seq![s],
    decreases s.len(),
{
    if s.len() > 0 {
        let front = s.drop_last();
        assert forall|i: int| 0 <= i < front.len() implies #[trigger] front[i] != sep by {
            assert(front[i] == s[i]);
        }
        law_one_piece(front, sep);
        assert(s[s.len() - 1] == s.last());
        assert(front.push(s.last()) =~= s);
        assert(seq![front].drop_last().push(seq![front].last().push(s.last())) =~= seq![s]);
    } else {
        assert(s =~= Seq::<char>::empty());
    }
}

/// A piece without the separator, the separator and a rest are split into that
/// piece and the pieces of the rest.
pub proof fn law_first_piece(piece: Seq<char>, sep: char, rest: Seq<char>)
    requires
        lacks(piece, sep),
    ensures
        text::split(piece + seq![sep] + rest, sep) == seq![piece] + text::split(rest, sep),
    decreases rest.len(),
{
    let s = piece + seq![sep] + rest;
    if rest.len() == 0 {
        law_one_piece(piece, sep);
        assert(s.drop_last() =~= piece);
        assert(s.last() == sep);
        assert(rest =~= Seq::<char>::empty());
        assert(text::split(s, sep) =~= seq![piece] + text::split(rest, sep));
    } else {
        law_first_piece(piece, sep, rest.drop_last());
        assert(s.drop_last() =~= piece + seq![sep] + rest.drop_last());
        assert(s.last() == rest.last());
        text::lemma_split_nonempty(rest.drop_last(), sep);
        let tail = text::split(rest.drop_last(), sep);
        assert((seq![piece] + tail).last() == tail.last());
        assert((seq![piece] + tail).drop_last() =~= seq![piece] + tail.drop_last());
        assert(text::split(s, sep) =~= seq![piece] + text::split(rest, sep));
    }
}

/// A line that ends in a line feed comes first, without the carriage return that
/// may stand before the line feed; the lines of what follows come after it.
pub proof fn law_first_line(line: Seq<char>, rest: Seq<char>)
    requires
        lacks(line, '\n'),
    ensures
        (line.len() == 0 || line.last() != '\r') ==> text::lines(line + seq!['\n'] + rest)
            == seq![line] + text::lines(rest),
        text::lines(line + seq!['\r'] + seq!['\n'] + rest) == seq![line] + text::lines(rest),
{
    law_first_piece(line, '\n', rest);
    text::lemma_split_nonempty(rest, '\n');
    let tail = text::split(rest, '\n');
    let all = seq![line] + tail;
    assert(all.last() == tail.last());
    if line.len() == 0 || line.last() != '\r' {
        assert(text::lines(line + seq!['\n'] + rest) =~= seq![line] + text::lines(rest));
    }
    let ended = line + seq!['\r'];
    assert(lacks(ended, '\n'));
    law_first_piece(ended, '\n', rest);
    assert(ended.drop_last() =~= line);
    let all = seq![ended] + tail;
    assert(all.last() == tail.last());
    assert(text::lines(ended + seq!['\n'] + rest) =~= seq![line] + text::lines(rest));
}

/// What follows the last line feed is a line of its own, unless it is empty.
pub proof fn law_last_line(line: Seq<char>)
    requires
        lacks(line, '\n'),
    ensures
        line.len() > 0 ==> text::lines(line) == seq![line],
        line.len() == 0 ==> text::lines(line) == Seq::<Seq<char>>::empty(),
{
    law_one_piece(line, '\n');
    if line.len() > 0 {
        assert(text::lines(line) =~= seq![line]);
    } else {
        assert(text::lines(line) =~= Seq::<Seq<char>>::empty());
    }
}

// ---------------------------------------------------------------------------
// Words
// ---------------------------------------------------------------------------

proof fn lemma_scan_solid(s: Seq<char>, word: Seq<char>)
    requires
        solid(word),
    ensures
        text::word_scan(s + word) == (text::word_scan(s).0, text::word_scan(s).1 + word),
    decreases word.len(),
{
    if word.len() == 0 {
        assert(s + word =~= s);
        assert(text::word_scan(s).1 + word =~= text::word_scan(s).1);
    } else {
        let front = word.drop_last();
        assert forall|i: int| 0 <= i < front.len() implies !text::white_space(
            #[trigger] front[i],
        ) by {
            assert(front[i] == word[i]);
        }
        lemma_scan_solid(s, front);
        assert((s + word).drop_last() =~= s + front);
        assert((s + word).last() == word[word.len() - 1]);
        assert((text::word_scan(s).1 + front).push(word.last()) =~= text::word_scan(s).1 + word);
    }
}

proof fn lemma_scan_on(s: Seq<char>, rest: Seq<char>)
    requires
        text::word_scan(s).1.len() == 0,
    ensures
        text::word_scan(s + rest).0 == text::word_scan(s).0 + text::word_scan(rest).0,
        text::word_scan(s + rest).1 == text::word_scan(rest).1,
    decreases rest.len(),
{
    if rest.len() == 0 {
        assert(s + rest =~= s);
        assert(text::word_scan(s).0 + text::word_scan(rest).0 =~= text::word_scan(s).0);
        assert(text::word_scan(s).1 =~= text::word_scan(rest).1);
    } else {
        lemma_scan_on(s, rest.drop_last());
        assert((s + rest).drop_last() =~= s + rest.drop_last());
        assert((s + rest).last() == rest.last());
        let done = text::word_scan(s).0;
        let (more, word) = text::word_scan(rest.drop_last());
        assert((done + more).push(word) =~= done + more.push(word));
    }
}

/// A word, white space and a rest have that word and the words of the rest.
pub proof fn law_first_word(word: Seq<char>, space: char, rest: Seq<char>)
    requires
        word.len() > 0,
        solid(word),
        text::white_space(space),
    ensures
        text::words(word + seq![space] + rest) == seq![word] + text::words(rest),
{
    let empty = Seq::<char>::empty();
    lemma_scan_solid(empty, word);
    assert(empty + word =~= word);
    let s = word + seq![space];
    assert(s.drop_last() =~= word);
    assert(s.last() == space);
    assert(text::word_scan(s).0 =~= seq![word]);
    lemma_scan_on(s, rest);
    let (done, open_word) = text::word_scan(rest);
    assert(text::words(s + rest) =~= seq![word] + text::words(rest));
}

/// White space at the start makes no difference to the words.
pub proof fn law_leading_space(space: char, rest: Seq<char>)
    requires
        text::white_space(space),
    ensures
        text::words(seq![space] + rest) == text::words(rest),
{
    let s = seq![space];
    assert(s.drop_last() =~= Seq::<char>::empty());
    assert(s.last() == space);
    reveal_with_fuel(text::word_scan, 2);
    assert(text::word_scan(s).0 =~= Seq::<Seq<char>>::empty());
    lemma_scan_on(s, rest);
    assert(Seq::<Seq<char>>::empty() + text::word_scan(rest).0 =~= text::word_scan(rest).0);
}

/// A text without white space is one word, unless it is empty.
pub proof fn law_last_word(word: Seq<char>)
    requires
        solid(word),
    ensures
        word.len() > 0 ==> text::words(word) == seq![word],
        word.len() == 0 ==> text::words(word) == Seq::<Seq<char>>::empty(),
{
    let empty = Seq::<char>::empty();
    lemma_scan_solid(empty, word);
    assert(empty + word =~= word);
    if word.len() > 0 {
        assert(text::words(word) =~= seq![word]);
    }
}

/// A word put behind a text and white space is its last word.
pub proof fn law_word_behind(s: Seq<char>, space: char, word: Seq<char>)
    requires
        word.len() > 0,
        solid(word),
        text::white_space(space),
    ensures
        text::words(s + seq![space] + word) == text::words(s).push(word),
{
    let spaced = s + seq![space];
    assert(spaced.drop_last() =~= s);
    assert(spaced.last() == space);
    assert(text::word_scan(spaced).0 =~= text::words(s));
    lemma_scan_solid(spaced, word);
    assert(text::word_scan(spaced).1 + word =~= word);
}

// ---------------------------------------------------------------------------
// Trimming
// ---------------------------------------------------------------------------

proof fn lemma_trim_start(space: Seq<char>, s: Seq<char>)
    requires
        blank(space),
        s.len() > 0 ==> !text::white_space(s[0]),
    ensures
        text::trim_start(space + s) == s,
    decreases space.len(),
{
    if space.len() == 0 {
        assert(space + s =~= s);
    } else {
        assert((space + s)[0] == space[0]);
        assert((space + s).skip(1) =~= space.skip(1) + s);
        assert forall|i: int| 0 <= i < space.skip(1).len() implies text::white_space(
            #[trigger] space.skip(1)[i],
        ) by {
            assert(space.skip(1)[i] == space[i + 1]);
        }
        lemma_trim_start(space.skip(1), s);
    }
}

proof fn lemma_trim_end(s: Seq<char>, space: Seq<char>)
    requires
        blank(space),
        s.len() > 0 ==> !text::white_space(s.last()),
    ensures
        text::trim_end(s + space) == s,
    decreases space.len(),
{
    if space.len() == 0 {
        assert(s + space =~= s);
    } else {
        assert((s + space).last() == space[space.len() - 1]);
        assert((s + space).drop_last() =~= s + space.drop_last());
        assert forall|i: int| 0 <= i < space.drop_last().len() implies text::white_space(
            #[trigger] space.drop_last()[i],
        ) by {
            assert(space.drop_last()[i] == space[i]);
        }
        lemma_trim_end(s, space.drop_last());
    }
}

/// Trimming takes off all white space before and after a text that starts and
/// ends otherwise, and nothing more.
pub proof fn law_trim_takes_space_off(before: Seq<char>, s: Seq<char>, after: Seq<char>)
    requires
        blank(before),
        blank(after),
        s.len() > 0 ==> !text::white_space(s[0]) && !text::white_space(s.last()),
    ensures
        text::trim(before + s + after) == s,
{
    if s.len() > 0 {
        assert((s + after)[0] == s[0]);
        lemma_trim_start(before, s + after);
        assert(before + (s + after) =~= before + s + after);
        lemma_trim_end(s, after);
    } else {
        let all = before + s + after;
        assert(all =~= before + after);
        lemma_trim_start(all, s);
        assert(all + s =~= all);
    }
}

// ---------------------------------------------------------------------------
// Package names
// ---------------------------------------------------------------------------

/// Every character but the separator stands in some piece.
pub proof fn lemma_split_covers(s: Seq<char>, sep: char, i: int)
    requires
        0 <= i < s.len(),
        s[i] != sep,
    ensures
        exists|k: int, j: int|
            0 <= k < text::split(s, sep).len() && 0 <= j < text::split(s, sep)[k].len()
                && #[trigger] text::split(s, sep)[k][j] == s[i],
    decreases s.len(),
{
    let front = s.drop_last();
    let before = text::split(front, sep);
    let pieces = text::split(s, sep);
    text::lemma_split_nonempty(front, sep);
    if i < front.len() {
        assert(front[i] == s[i]);
        lemma_split_covers(front, sep, i);
        let (k, j) = choose|k: int, j: int|
            0 <= k < before.len() && 0 <= j < before[k].len() && #[trigger] before[k][j]
                == front[i];
        assert(pieces[k][j] == s[i]);
    } else {
        let k = before.len() - 1;
        let j = before.last().len() as int;
        assert(pieces[k][j] == s[i]);
    }
}

/// A well-formed package name is not empty and holds ASCII letters, digits,
/// underscores and dots alone.
pub proof fn law_package_characters(s: Seq<char>, lead_underscore: bool)
    requires
        package_name::package_ok(s, lead_underscore),
    ensures
        s.len() > 0,
        forall|i: int|
            0 <= i < s.len() ==> ({
                let c = #[trigger] s[i];
                'a' <= c <= 'z' || 'A' <= c <= 'Z' || '0' <= c <= '9' || c == '_' || c == '.'
            }),
{
    let pieces = text::split(s, '.');
    assert forall|i: int| 0 <= i < s.len() implies ({
        let c = #[trigger] s[i];
        'a' <= c <= 'z' || 'A' <= c <= 'Z' || '0' <= c <= '9' || c == '_' || c == '.'
    }) by {
        if s[i] != '.' {
            lemma_split_covers(s, '.', i);
            let (k, j) = choose|k: int, j: int|
                0 <= k < pieces.len() && 0 <= j < pieces[k].len() && #[trigger] pieces[k][j]
                    == s[i];
            assert(package_name::segment_ok(pieces[k], lead_underscore));
            if j == 0 {
                assert(pieces[k][0] == s[i]);
            } else {
                assert(package_name::segment_char(pieces[k][j]));
            }
        }
    }
}

/// A package name is a first segment, a dot and either a last segment or a
/// package name. A segment is a letter, or an underscore where that is allowed,
/// and any number of letters, digits and underscores.
pub proof fn law_package_of_segments(first: Seq<char>, rest: Seq<char>, lead_underscore: bool)
    requires
        lacks(first, '.'),
    ensures
        package_name::package_ok(first + seq!['.'] + rest, lead_underscore) == (
        package_name::segment_ok(first, lead_underscore) && (package_name::package_ok(
            rest,
            lead_underscore,
        ) || package_name::segment_ok(rest, lead_underscore))),
        !package_name::package_ok(first, lead_underscore),
{
    law_one_piece(first, '.');
    law_first_piece(first, '.', rest);
    let tail = text::split(rest, '.');
    let all = seq![first] + tail;
    text::lemma_split_nonempty(rest, '.');
    assert(all[0] == first);
    assert forall|i: int| 0 <= i < tail.len() implies all[i + 1] == #[trigger] tail[i] by {}
    assert forall|i: int| 1 <= i < all.len() implies #[trigger] all[i] == tail[i - 1] by {}
    if package_name::segment_ok(rest, lead_underscore) {
        assert forall|i: int| 0 <= i < rest.len() implies #[trigger] rest[i] != '.' by {
            if i > 0 {
                assert(package_name::segment_char(rest[i]));
            }
        }
        law_one_piece(rest, '.');
        assert(tail[0] == rest);
    }
    if package_name::package_ok(first + seq!['.'] + rest, lead_underscore) {
        assert(package_name::segment_ok(all[0], lead_underscore));
        assert forall|i: int| 0 <= i < tail.len() implies package_name::segment_ok(
            #[trigger] tail[i],
            lead_underscore,
        ) by {
            assert(package_name::segment_ok(all[i + 1], lead_underscore));
        }
        if tail.len() == 1 {
            lemma_single_piece(rest, '.');
            assert(tail[0] == rest);
        }
    }
}

proof fn lemma_single_piece(s: Seq<char>, sep: char)
    ensures
        text::split(s, sep).len() == 1 ==> text::split(s, sep)[0] == s,
    decreases s.len(),
{
    if s.len() > 0 {
        lemma_single_piece(s.drop_last(), sep);
        text::lemma_split_nonempty(s.drop_last(), sep);
        if text::split(s, sep).len() == 1 {
            assert(s.drop_last().push(s.last()) =~= s);
        }
    } else {
        assert(s =~= Seq::<char>::empty());
    }
}

/// A letter followed by letters, digits and underscores is a segment; an
/// underscore in front is one only where it is allowed.
pub proof fn law_segment_characters(s: Seq<char>, lead_underscore: bool)
    ensures
        package_name::segment_ok(s, lead_underscore) == (s.len() > 0 && (('a' <= s[0] <= 'z') || (
        'A' <= s[0] <= 'Z') || (lead_underscore && s[0] == '_')) && (forall|i: int|
            1 <= i < s.len() ==> ({
                let c = #[trigger] s[i];
                'a' <= c <= 'z' || 'A' <= c <= 'Z' || '0' <= c <= '9' || c == '_'
            }))),
{
    assert forall|i: int| 1 <= i < s.len() implies package_name::segment_char(s[i]) == ({
        let c = #[trigger] s[i];
        'a' <= c <= 'z' || 'A' <= c <= 'Z' || '0' <= c <= '9' || c == '_'
    }) by {}
}

// ---------------------------------------------------------------------------
// Numbers
// ---------------------------------------------------------------------------

/// A plus sign before a numeral makes no difference; a number above the limit is
/// not read; a text with anything but digits behind the sign is not read.
pub proof fn law_unsigned_reading(n: nat, max: nat, s: Seq<char>, i: int)
    requires
        0 < i < s.len(),
        !('0' <= s[i] <= '9'),
    ensures
        n <= max ==> text::parse_unsigned(seq!['+'] + text::decimal(n), max) == Some(n),
        n > max ==> text::parse_unsigned(text::decimal(n), max) is None,
        text::parse_unsigned(s, max) is None,
        text::parse_unsigned(Seq::empty(), max) is None,
{
    text::lemma_decimal(n);
    assert(text::digit(text::decimal(n)[0]));
    assert((seq!['+'] + text::decimal(n)).skip(1) =~= text::decimal(n));
    assert(s.skip(1)[i - 1] == s[i]);
}

/// A signed number that was written is read back, and one out of the range of
/// `i32` is not read.
pub proof fn law_signed_reads_back(n: int)
    ensures
        i32::MIN <= n <= i32::MAX ==> text::parse_i32(text::signed_decimal(n)) == Some(n),
        !(i32::MIN <= n <= i32::MAX) ==> text::parse_i32(text::signed_decimal(n)) is None,
{
    if n < 0 {
        let m = (-n) as nat;
        text::lemma_decimal(m);
        assert((seq!['-'] + text::decimal(m)).skip(1) =~= text::decimal(m));
    } else {
        text::lemma_decimal(n as nat);
        assert(text::digit(text::decimal(n as nat)[0]));
    }
}

/// The characters that count as white space.
pub proof fn law_white_space_characters(c: char)
    ensures
        text::white_space(c) <==> seq![
            '\t',
            '\n',
            '\u{b}',
            '\u{c}',
            '\r',
            ' ',
            '\u{85}',
            '\u{a0}',
            '\u{1680}',
            '\u{2000}',
            '\u{2001}',
            '\u{2002}',
            '\u{2003}',
            '\u{2004}',
            '\u{2005}',
            '\u{2006}',
            '\u{2007}',
            '\u{2008}',
            '\u{2009}',
            '\u{200a}',
            '\u{2028}',
            '\u{2029}',
            '\u{202f}',
            '\u{205f}',
            '\u{3000}',
        ].contains(c),
{
    let all = seq![
        '\t',
        '\n',
        '\u{b}',
        '\u{c}',
        '\r',
        ' ',
        '\u{85}',
        '\u{a0}',
        '\u{1680}',
        '\u{2000}',
        '\u{2001}',
        '\u{2002}',
        '\u{2003}',
        '\u{2004}',
        '\u{2005}',
        '\u{2006}',
        '\u{2007}',
        '\u{2008}',
        '\u{2009}',
        '\u{200a}',
        '\u{2028}',
        '\u{2029}',
        '\u{202f}',
        '\u{205f}',
        '\u{3000}',
    ];
    let n = c as u32;
    if text::white_space(c) {
        let i = if n <= 0xd {
            n - 9
        } else if n == 0x20 {
            5
        } else if n == 0x85 {
            6
        } else if n == 0xa0 {
            7
        } else if n == 0x1680 {
            8
        } else if n <= 0x200a {
            9 + (n - 0x2000)
        } else if n <= 0x2029 {
            20 + (n - 0x2028)
        } else if n == 0x202f {
            22
        } else if n == 0x205f {
            23
        } else {
            24
        };
        assert(0 <= i < all.len() && all[i] as u32 == n);
        assert(all[i] == c);
    }
}

/// Numerals go by tens: behind the numeral of a number other than zero, a digit
/// makes that of ten times the number and the digit.
pub proof fn law_decimal_goes_by_tens(n: nat, d: nat)
    requires
        d < 10,
    ensures
        text::decimal(d) == seq![('0' as nat + d) as char],
        n > 0 ==> text::decimal(n * 10 + d) == text::decimal(n).push(('0' as nat + d) as char),
{
    if n > 0 {
        assert((n * 10 + d) / 10 == n);
        assert((n * 10 + d) % 10 == d);
    }
}

/// Leading zeros make no difference to what a numeral reads as.
pub proof fn law_leading_zeros(s: Seq<char>, max: nat)
    requires
        text::numeral(s),
    ensures
        text::parse_unsigned(seq!['0'] + s, max) == text::parse_unsigned(s, max),
{
    assert(text::digit(s[0]));
    let long = seq!['0'] + s;
    assert forall|i: int| 0 <= i < long.len() implies text::digit(#[trigger] long[i]) by {
        if i > 0 {
            assert(long[i] == s[i - 1]);
        }
    }
    lemma_leading_zero(s);
}

proof fn lemma_leading_zero(s: Seq<char>)
    ensures
        text::value(seq!['0'] + s) == text::value(s),
    decreases s.len(),
{
    let long = seq!['0'] + s;
    if s.len() == 0 {
        assert(long.drop_last() =~= Seq::<char>::empty());
        assert(long.last() == '0');
        assert(text::value(long.drop_last()) == 0);
    } else {
        lemma_leading_zero(s.drop_last());
        assert(long.drop_last() =~= seq!['0'] + s.drop_last());
        assert(long.last() == s.last());
    }
}

/// A text is cut at a pattern exactly if it holds it; where it does not, there are no
/// two parts.
pub proof fn law_no_cut_without_pattern(s: Seq<char>, pat: Seq<char>)
    ensures
        text::split_once(s, pat) is None <==> lacks_text(s, pat),
{
    law_holds_where_it_stands(s, pat);
    text::lemma_find(s, pat);
    if let Some(at) = text::find(s, pat) {
        assert(text::occurs_at(s, pat, at));
    }
}

/// A text that starts neither with a digit nor with a plus sign is no unsigned number,
/// and neither is a sign alone.
pub proof fn law_unsigned_starts(s: Seq<char>, max: nat)
    ensures
        s.len() > 0 && !('0' <= s[0] <= '9') && s[0] != '+' ==> text::parse_unsigned(s, max) is None,
        text::parse_unsigned(seq!['+'], max) is None,
        s.len() == 0 ==> text::parse_unsigned(s, max) is None,
{
    assert(seq!['+'].skip(1) =~= Seq::<char>::empty());
}

/// A signed number without a minus sign reads as an unsigned one, up to the largest
/// `i32`. Behind a minus sign stand digits, without another sign, and it reads as the
/// negative of their number, down to the smallest `i32`.
pub proof fn law_signed_by_unsigned(s: Seq<char>)
    ensures
        s.len() == 0 || s[0] != '-' ==> text::parse_i32(s) == match text::parse_unsigned(
            s,
            i32::MAX as nat,
        ) {
            Some(n) => Some(n as int),
            None => None,
        },
        s.len() == 0 || s[0] != '+' ==> text::parse_i32(seq!['-'] + s) == match text::parse_unsigned(
            s,
            0x8000_0000,
        ) {
            Some(n) => Some(-(n as int)),
            None => None,
        },
        text::parse_i32(seq!['-', '+'] + s) is None,
{
    assert((seq!['-'] + s).skip(1) =~= s);
    let signed = seq!['-', '+'] + s;
    assert(signed.skip(1)[0] == '+');
    assert(!text::digit(signed.skip(1)[0]));
}

} // verus!
