//! Text as sequences of characters: splitting, trimming, searching, numbers.
//!
//! The executable functions work on `Vec<char>`; the specification functions
//! say what they compute on `Seq<char>`.
use vstd::prelude::*;

verus! {

/// `String::push`: appends the given character to the end of the string.
pub assume_specification[ String::push ](s: &mut String, ch: char)
    ensures
        final(s)@ == old(s)@.push(ch),
;

// ---------------------------------------------------------------------------
// Characters
// ---------------------------------------------------------------------------

/// The characters with the Unicode property `White_Space`.
pub open spec fn white_space(c: char) -> bool {
    let n = c as u32;
    ||| 0x9 <= n <= 0xd
    ||| n == 0x20
    ||| n == 0x85
    ||| n == 0xa0
    ||| n == 0x1680
    ||| 0x2000 <= n <= 0x200a
    ||| n == 0x2028
    ||| n == 0x2029
    ||| n == 0x202f
    ||| n == 0x205f
    ||| n == 0x3000
}

/// Whether a character has the Unicode property `White_Space`.
pub fn is_white_space(c: char) -> (r: bool)
    ensures
        r == white_space(c),
{
    let n: u32 = c as u32;
    (0x9 <= n && n <= 0xd) || n == 0x20 || n == 0x85 || n == 0xa0 || n == 0x1680 || (0x2000 <= n
        && n <= 0x200a) || n == 0x2028 || n == 0x2029 || n == 0x202f || n == 0x205f || n == 0x3000
}

/// The ASCII digits.
pub open spec fn digit(c: char) -> bool {
    '0' <= c <= '9'
}

/// The ASCII letters.
pub open spec fn ascii_letter(c: char) -> bool {
    'a' <= c <= 'z' || 'A' <= c <= 'Z'
}

/// The ASCII hexadecimal digits, in either case.
pub open spec fn hex_digit(c: char) -> bool {
    digit(c) || 'a' <= c <= 'f' || 'A' <= c <= 'F'
}

/// Whether a character is an ASCII digit.
pub fn is_digit(c: char) -> (r: bool)
    ensures
        r == digit(c),
{
    '0' <= c && c <= '9'
}

/// Whether a character is an ASCII letter.
pub fn is_ascii_letter(c: char) -> (r: bool)
    ensures
        r == ascii_letter(c),
{
    ('a' <= c && c <= 'z') || ('A' <= c && c <= 'Z')
}

/// Whether a character is an ASCII hexadecimal digit.
pub fn is_hex_digit(c: char) -> (r: bool)
    ensures
        r == hex_digit(c),
{
    is_digit(c) || ('a' <= c && c <= 'f') || ('A' <= c && c <= 'F')
}

// ---------------------------------------------------------------------------
// Conversions
// ---------------------------------------------------------------------------

/// The characters of a string.
pub fn chars_of(s: &str) -> (r: Vec<char>)
    ensures
        r@ == s@,
{
    let mut r: Vec<char> = Vec::new();
    for c in iter: s.chars()
        invariant
            iter.seq() == s@,
            r@ == s@.take(iter.index() as int),
    {
        r.push(c);
    }
    assert(s@.take(s@.len() as int) == s@);
    r
}

/// The string made of the given characters.
pub fn string_of(chars: &Vec<char>) -> (r: String)
    ensures
        r@ == chars@,
{
    let mut r = String::new();
    let mut i: usize = 0;
    while i < chars.len()
        invariant
            i <= chars.len(),
            r@ == chars@.take(i as int),
        decreases chars.len() - i,
    {
        r.push(chars[i]);
        i += 1;
        assert(chars@.take(i as int) == chars@.take(i - 1).push(chars@[i - 1]));
    }
    assert(chars@.take(i as int) == chars@);
    r
}

/// The characters from `from` (inclusive) to `to` (exclusive).
pub fn slice(chars: &Vec<char>, from: usize, to: usize) -> (r: Vec<char>)
    requires
        from <= to <= chars.len(),
    ensures
        r@ == chars@.subrange(from as int, to as int),
{
    let mut r: Vec<char> = Vec::new();
    let mut i: usize = from;
    while i < to
        invariant
            from <= i <= to <= chars.len(),
            r@ == chars@.subrange(from as int, i as int),
        decreases to - i,
    {
        r.push(chars[i]);
        i += 1;
        assert(chars@.subrange(from as int, i as int) == chars@.subrange(from as int, i - 1).push(
            chars@[i - 1],
        ));
    }
    r
}

/// Whether two character vectors hold the same text.
pub fn same(a: &Vec<char>, b: &Vec<char>) -> (r: bool)
    ensures
        r == (a@ == b@),
{
    if a.len() != b.len() {
        return false;
    }
    let mut i: usize = 0;
    while i < a.len()
        invariant
            i <= a.len(),
            a.len() == b.len(),
            a@.take(i as int) == b@.take(i as int),
        decreases a.len() - i,
    {
        if a[i] != b[i] {
            assert(a@[i as int] != b@[i as int]);
            return false;
        }
        i += 1;
        assert(a@.take(i as int) == a@.take(i - 1).push(a@[i - 1]));
        assert(b@.take(i as int) == b@.take(i - 1).push(b@[i - 1]));
    }
    assert(a@.take(i as int) == a@);
    assert(b@.take(i as int) == b@);
    true
}

/// Whether a character vector holds the text of a string.
pub fn same_as_str(a: &Vec<char>, b: &str) -> (r: bool)
    ensures
        r == (a@ == b@),
{
    let b = chars_of(b);
    same(a, &b)
}

// ---------------------------------------------------------------------------
// Splitting
// ---------------------------------------------------------------------------

/// The pieces between the occurrences of `sep`: one piece more than there are
/// occurrences, in order, possibly empty.
pub open spec fn split(s: Seq<char>, sep: char) -> Seq<Seq<char>>
    decreases s.len(),
{
    if s.len() == 0 {
        seq![Seq::empty()]
    } else {
        let pieces = split(s.drop_last(), sep);
        if s.last() == sep {
            pieces.push(Seq::empty())
        } else {
            pieces.drop_last().push(pieces.last().push(s.last()))
        }
    }
}

/// The texts held by a vector of character vectors.
pub open spec fn texts(pieces: Seq<Vec<char>>) -> Seq<Seq<char>> {
    Seq::new(pieces.len(), |i: int| pieces[i]@)
}

/// A split has at least one piece.
pub proof fn lemma_split_nonempty(s: Seq<char>, sep: char)
    ensures
        split(s, sep).len() >= 1,
    decreases s.len(),
{
    if s.len() > 0 {
        lemma_split_nonempty(s.drop_last(), sep);
    }
}

/// No piece of a split holds the separator.
pub proof fn lemma_split_pieces(s: Seq<char>, sep: char)
    ensures
        forall|i: int, j: int|
            0 <= i < split(s, sep).len() && 0 <= j < split(s, sep)[i].len() ==> (
            #[trigger] split(s, sep)[i][j]) != sep,
    decreases s.len(),
{
    lemma_split_nonempty(s, sep);
    if s.len() > 0 {
        lemma_split_pieces(s.drop_last(), sep);
        lemma_split_nonempty(s.drop_last(), sep);
        let pieces = split(s.drop_last(), sep);
        assert forall|i: int, j: int|
            0 <= i < split(s, sep).len() && 0 <= j < split(s, sep)[i].len() implies (
        #[trigger] split(s, sep)[i][j]) != sep by {
            if i < pieces.len() - 1 {
                assert(split(s, sep)[i] == pieces[i]);
                assert(pieces[i][j] != sep);
            } else if s.last() != sep {
                if j < pieces.last().len() {
                    assert(pieces[pieces.len() - 1][j] != sep);
                }
            } else if i == pieces.len() - 1 {
                assert(split(s, sep)[i] == pieces[i]);
                assert(pieces[i][j] != sep);
            }
        }
    }
}

/// Splits at every occurrence of `sep`.
pub fn split_at_char(chars: &Vec<char>, sep: char) -> (r: Vec<Vec<char>>)
    ensures
        texts(r@) == split(chars@, sep),
        r.len() >= 1,
{
    let mut r: Vec<Vec<char>> = Vec::new();
    let mut piece: Vec<char> = Vec::new();
    let mut i: usize = 0;
    assert(texts(r@).push(piece@) == split(chars@.take(0), sep));
    while i < chars.len()
        invariant
            i <= chars.len(),
            texts(r@).push(piece@) == split(chars@.take(i as int), sep),
        decreases chars.len() - i,
    {
        let c = chars[i];
        let ghost before = texts(r@).push(piece@);
        let ghost done = r@;
        let ghost open_piece = piece@;
        assert(chars@.take(i + 1).drop_last() == chars@.take(i as int));
        assert(chars@.take(i + 1).last() == c);
        if c == sep {
            r.push(piece);
            piece = Vec::new();
            assert(texts(r@) == texts(done).push(open_piece));
            assert(texts(r@).push(piece@) == before.push(Seq::empty()));
        } else {
            piece.push(c);
            assert(before.drop_last() == texts(r@));
            assert(texts(r@).push(piece@) == before.drop_last().push(before.last().push(c)));
        }
        i += 1;
    }
    assert(chars@.take(i as int) == chars@);
    let ghost done = r@;
    let ghost open_piece = piece@;
    r.push(piece);
    assert(texts(r@) == texts(done).push(open_piece));
    r
}

/// A line without the carriage return that its line feed may follow.
pub open spec fn chomp(line: Seq<char>) -> Seq<char> {
    if line.len() > 0 && line.last() == '\r' {
        line.drop_last()
    } else {
        line
    }
}

/// The lines of a text: each ends at a line feed, with a carriage return before
/// it taken off; what follows the last line feed is a line if it is not empty.
pub open spec fn lines(s: Seq<char>) -> Seq<Seq<char>> {
    let pieces = split(s, '\n');
    let ended = Seq::new((pieces.len() - 1) as nat, |i: int| chomp(pieces[i]));
    if pieces.last().len() == 0 {
        ended
    } else {
        ended.push(pieces.last())
    }
}

/// The lines of a text.
pub fn lines_of(chars: &Vec<char>) -> (r: Vec<Vec<char>>)
    ensures
        texts(r@) == lines(chars@),
{
    let pieces = split_at_char(chars, '\n');
    let ghost all = split(chars@, '\n');
    assert(all.len() == pieces.len());
    assert(forall|k: int| 0 <= k < pieces.len() ==> #[trigger] all[k] == pieces@[k]@);
    let mut r: Vec<Vec<char>> = Vec::new();
    let last: usize = pieces.len() - 1;
    let mut i: usize = 0;
    while i < last
        invariant
            i <= last,
            last == pieces.len() - 1,
            all.len() == pieces.len(),
            forall|k: int| 0 <= k < pieces.len() ==> #[trigger] all[k] == pieces@[k]@,
            r.len() == i,
            forall|k: int| 0 <= k < i ==> #[trigger] r@[k]@ == chomp(all[k]),
        decreases last - i,
    {
        let piece = &pieces[i];
        let n: usize = piece.len();
        assert(all[i as int] == piece@);
        let line = if n > 0 && piece[n - 1] == '\r' {
            assert(piece@.drop_last() == piece@.subrange(0, n - 1));
            slice(piece, 0, n - 1)
        } else {
            assert(piece@ == piece@.subrange(0, n as int));
            slice(piece, 0, n)
        };
        assert(line@ == chomp(all[i as int]));
        r.push(line);
        i += 1;
    }
    let n: usize = pieces[last].len();
    assert(all.last() == pieces@[last as int]@);
    let ghost ended = Seq::new((all.len() - 1) as nat, |k: int| chomp(all[k]));
    assert(texts(r@) == ended);
    if n > 0 {
        let tail = slice(&pieces[last], 0, n);
        assert(tail@ == all.last());
        let ghost done = r@;
        r.push(tail);
        assert(texts(r@) == texts(done).push(all.last()));
    }
    r
}

/// The finished words of a text and the word that its end leaves open.
pub open spec fn word_scan(s: Seq<char>) -> (Seq<Seq<char>>, Seq<char>)
    decreases s.len(),
{
    if s.len() == 0 {
        (Seq::empty(), Seq::empty())
    } else {
        let (done, word) = word_scan(s.drop_last());
        if !white_space(s.last()) {
            (done, word.push(s.last()))
        } else if word.len() == 0 {
            (done, word)
        } else {
            (done.push(word), Seq::empty())
        }
    }
}

/// The maximal runs of characters that are not white space, in order.
pub open spec fn words(s: Seq<char>) -> Seq<Seq<char>> {
    let (done, word) = word_scan(s);
    if word.len() == 0 {
        done
    } else {
        done.push(word)
    }
}

/// Splits at white space.
pub fn words_of(chars: &Vec<char>) -> (r: Vec<Vec<char>>)
    ensures
        texts(r@) == words(chars@),
{
    let mut r: Vec<Vec<char>> = Vec::new();
    let mut word: Vec<char> = Vec::new();
    let mut i: usize = 0;
    assert(texts(r@) == Seq::<Seq<char>>::empty());
    while i < chars.len()
        invariant
            i <= chars.len(),
            word_scan(chars@.take(i as int)) == (texts(r@), word@),
        decreases chars.len() - i,
    {
        let c = chars[i];
        let ghost done = r@;
        let ghost open_word = word@;
        assert(chars@.take(i + 1).drop_last() == chars@.take(i as int));
        assert(chars@.take(i + 1).last() == c);
        if !is_white_space(c) {
            word.push(c);
        } else if word.len() > 0 {
            r.push(word);
            word = Vec::new();
            assert(texts(r@) == texts(done).push(open_word));
            assert(word@ == Seq::<char>::empty());
        }
        i += 1;
    }
    assert(chars@.take(i as int) == chars@);
    if word.len() > 0 {
        let ghost done = r@;
        let ghost open_word = word@;
        r.push(word);
        assert(texts(r@) == texts(done).push(open_word));
    }
    r
}

/// A text without the white space at its start.
pub open spec fn trim_start(s: Seq<char>) -> Seq<char>
    decreases s.len(),
{
    if s.len() > 0 && white_space(s[0]) {
        trim_start(s.skip(1))
    } else {
        s
    }
}

/// A text without the white space at its end.
pub open spec fn trim_end(s: Seq<char>) -> Seq<char>
    decreases s.len(),
{
    if s.len() > 0 && white_space(s.last()) {
        trim_end(s.drop_last())
    } else {
        s
    }
}

/// A text without the white space at either end.
pub open spec fn trim(s: Seq<char>) -> Seq<char> {
    trim_end(trim_start(s))
}

/// Takes the white space off both ends.
pub fn trim_of(chars: &Vec<char>) -> (r: Vec<char>)
    ensures
        r@ == trim(chars@),
{
    let mut from: usize = 0;
    assert(chars@.skip(0) == chars@);
    while from < chars.len() && is_white_space(chars[from])
        invariant
            from <= chars.len(),
            trim_start(chars@.skip(from as int)) == trim_start(chars@),
        decreases chars.len() - from,
    {
        assert(chars@.skip(from as int).skip(1) == chars@.skip(from + 1));
        from += 1;
    }
    let ghost started = chars@.skip(from as int);
    assert(trim_start(chars@) == started);
    let mut to: usize = chars.len();
    assert(chars@.subrange(from as int, to as int) == started);
    while to > from && is_white_space(chars[to - 1])
        invariant
            from <= to <= chars.len(),
            started == chars@.skip(from as int),
            trim_end(chars@.subrange(from as int, to as int)) == trim_end(started),
        decreases to,
    {
        assert(chars@.subrange(from as int, to as int).drop_last() == chars@.subrange(
            from as int,
            to - 1,
        ));
        to -= 1;
    }
    slice(chars, from, to)
}

// ---------------------------------------------------------------------------
// Searching
// ---------------------------------------------------------------------------

/// Whether `pat` stands in `s` at position `at`.
pub open spec fn occurs_at(s: Seq<char>, pat: Seq<char>, at: int) -> bool {
    0 <= at && at + pat.len() <= s.len() && s.subrange(at, at + pat.len()) == pat
}

/// The first position at or after `from` where `pat` stands in `s`.
pub open spec fn find_from(s: Seq<char>, pat: Seq<char>, from: int) -> Option<int>
    decreases s.len() + 1 - from,
{
    if from < 0 || from + pat.len() > s.len() {
        None
    } else if occurs_at(s, pat, from) {
        Some(from)
    } else {
        find_from(s, pat, from + 1)
    }
}

/// The first position where `pat` stands in `s`.
pub open spec fn find(s: Seq<char>, pat: Seq<char>) -> Option<int> {
    find_from(s, pat, 0)
}

/// Whether `pat` stands anywhere in `s`.
pub open spec fn holds(s: Seq<char>, pat: Seq<char>) -> bool {
    exists|at: int| #[trigger] occurs_at(s, pat, at)
}

proof fn lemma_find_from(s: Seq<char>, pat: Seq<char>, from: int)
    requires
        0 <= from,
    ensures
        match find_from(s, pat, from) {
            Some(at) => from <= at && occurs_at(s, pat, at) && forall|k: int|
                from <= k < at ==> !#[trigger] occurs_at(s, pat, k),
            None => forall|k: int| from <= k ==> !#[trigger] occurs_at(s, pat, k),
        },
    decreases s.len() + 1 - from,
{
    if from + pat.len() <= s.len() && !occurs_at(s, pat, from) {
        lemma_find_from(s, pat, from + 1);
    }
}

/// What `find` returns: the least position where the pattern stands, if any.
pub proof fn lemma_find(s: Seq<char>, pat: Seq<char>)
    ensures
        match find(s, pat) {
            Some(at) => occurs_at(s, pat, at) && forall|k: int|
                k < at ==> !#[trigger] occurs_at(s, pat, k),
            None => !holds(s, pat),
        },
{
    lemma_find_from(s, pat, 0);
}

fn stands_at(s: &Vec<char>, pat: &Vec<char>, at: usize) -> (r: bool)
    requires
        at + pat.len() <= s.len(),
    ensures
        r == occurs_at(s@, pat@, at as int),
{
    let mut i: usize = 0;
    while i < pat.len()
        invariant
            i <= pat.len(),
            at + pat.len() <= s.len(),
            s@.subrange(at as int, at + i) == pat@.take(i as int),
        decreases pat.len() - i,
    {
        if s[at + i] != pat[i] {
            assert(s@.subrange(at as int, at + pat.len())[i as int] != pat@[i as int]);
            return false;
        }
        assert(s@.subrange(at as int, at + i + 1) == s@.subrange(at as int, at + i).push(
            s@[at + i],
        ));
        assert(pat@.take(i + 1) == pat@.take(i as int).push(pat@[i as int]));
        i += 1;
    }
    assert(pat@.take(i as int) == pat@);
    true
}

/// The first position where `pat` stands in `s`.
pub fn find_in(s: &Vec<char>, pat: &str) -> (r: Option<usize>)
    ensures
        match r {
            Some(at) => find(s@, pat@) == Some(at as int) && at + pat@.len() <= s.len(),
            None => find(s@, pat@) is None,
        },
{
    let pattern = chars_of(pat);
    if pattern.len() > s.len() {
        return None;
    }
    let last: usize = s.len() - pattern.len();
    let mut at: usize = 0;
    while at <= last
        invariant
            at <= last + 1,
            last + pattern.len() == s.len(),
            pattern@ == pat@,
            find(s@, pat@) == find_from(s@, pat@, at as int),
        decreases last + 1 - at,
    {
        if stands_at(s, &pattern, at) {
            return Some(at);
        }
        if at == last {
            assert(find_from(s@, pat@, at + 1) is None);
            return None;
        }
        at += 1;
    }
    None
}

/// Whether `pat` stands anywhere in `s`.
pub fn contains(s: &Vec<char>, pat: &str) -> (r: bool)
    ensures
        r == holds(s@, pat@),
{
    proof {
        lemma_find(s@, pat@);
    }
    match find_in(s, pat) {
        Some(_) => true,
        None => false,
    }
}

/// The texts before and after the first occurrence of `pat`.
pub open spec fn split_once(s: Seq<char>, pat: Seq<char>) -> Option<(Seq<char>, Seq<char>)> {
    match find(s, pat) {
        Some(at) => Some((s.take(at), s.skip(at + pat.len()))),
        None => None,
    }
}

/// Splits at the first occurrence of `pat`.
pub fn split_once_at(s: &Vec<char>, pat: &str) -> (r: Option<(Vec<char>, Vec<char>)>)
    ensures
        match r {
            Some((before, after)) => split_once(s@, pat@) == Some((before@, after@)),
            None => split_once(s@, pat@) is None,
        },
{
    match find_in(s, pat) {
        Some(at) => {
            let width: usize = chars_of(pat).len();
            let before = slice(s, 0, at);
            let after = slice(s, at + width, s.len());
            assert(before@ == s@.take(at as int));
            assert(after@ == s@.skip(at + width));
            Some((before, after))
        },
        None => None,
    }
}

/// What follows the prefix `pat`, if the text starts with it.
pub open spec fn strip_prefix(s: Seq<char>, pat: Seq<char>) -> Option<Seq<char>> {
    if occurs_at(s, pat, 0) {
        Some(s.skip(pat.len() as int))
    } else {
        None
    }
}

/// Takes the prefix `pat` off.
pub fn strip_prefix_of(s: &Vec<char>, pat: &str) -> (r: Option<Vec<char>>)
    ensures
        match r {
            Some(rest) => strip_prefix(s@, pat@) == Some(rest@),
            None => strip_prefix(s@, pat@) is None,
        },
{
    let pat = chars_of(pat);
    if pat.len() <= s.len() && stands_at(s, &pat, 0) {
        let rest = slice(s, pat.len(), s.len());
        assert(rest@ == s@.skip(pat@.len() as int));
        Some(rest)
    } else {
        None
    }
}

// ---------------------------------------------------------------------------
// Numbers
// ---------------------------------------------------------------------------

/// Whether a text is made of ASCII digits, at least one.
pub open spec fn numeral(s: Seq<char>) -> bool {
    s.len() > 0 && forall|i: int| 0 <= i < s.len() ==> digit(#[trigger] s[i])
}

/// The number that a run of decimal digits denotes.
pub open spec fn value(s: Seq<char>) -> nat
    decreases s.len(),
{
    if s.len() == 0 {
        0
    } else {
        value(s.drop_last()) * 10 + (s.last() as nat - '0' as nat) as nat
    }
}

/// The unsigned number that a text denotes: digits with an optional plus sign,
/// of a value not above `max`.
pub open spec fn parse_unsigned(s: Seq<char>, max: nat) -> Option<nat> {
    let digits = if s.len() > 0 && s[0] == '+' {
        s.skip(1)
    } else {
        s
    };
    if numeral(digits) && value(digits) <= max {
        Some(value(digits))
    } else {
        None
    }
}

/// The `i32` that a text denotes: digits with an optional sign, within range.
pub open spec fn parse_i32(s: Seq<char>) -> Option<int> {
    if s.len() > 0 && s[0] == '-' {
        if numeral(s.skip(1)) && value(s.skip(1)) <= 0x8000_0000 {
            Some(-(value(s.skip(1)) as int))
        } else {
            None
        }
    } else {
        match parse_unsigned(s, 0x7fff_ffff) {
            Some(n) => Some(n as int),
            None => None,
        }
    }
}

proof fn lemma_value_grows(s: Seq<char>, i: int)
    requires
        0 <= i <= s.len(),
    ensures
        value(s.take(i)) <= value(s),
    decreases s.len() - i,
{
    if i < s.len() {
        lemma_value_grows(s, i + 1);
        assert(s.take(i + 1).drop_last() == s.take(i));
    } else {
        assert(s.take(i) == s);
    }
}

/// Reads the digits from position `from` on, for a value not above `max`.
fn read_digits(s: &Vec<char>, from: usize, max: u64) -> (r: Option<u64>)
    requires
        from <= s.len(),
    ensures
        match r {
            Some(n) => numeral(s@.skip(from as int)) && value(s@.skip(from as int)) == n && n
                <= max,
            None => !numeral(s@.skip(from as int)) || value(s@.skip(from as int)) > max,
        },
{
    let ghost digits = s@.skip(from as int);
    if from == s.len() {
        return None;
    }
    let mut i: usize = from;
    let mut n: u64 = 0;
    while i < s.len()
        invariant
            from <= i <= s.len(),
            digits == s@.skip(from as int),
            n <= max,
            n == value(digits.take(i - from)),
            forall|k: int| 0 <= k < i - from ==> digit(#[trigger] digits[k]),
        decreases s.len() - i,
    {
        let c = s[i];
        assert(digits[i - from] == c);
        if !is_digit(c) {
            return None;
        }
        let d: u64 = (c as u32 - '0' as u32) as u64;
        proof {
            assert(digits.take(i - from + 1).drop_last() == digits.take(i - from));
            assert(digits.take(i - from + 1).last() == c);
            lemma_value_grows(digits, i - from + 1);
        }
        if n > (u64::MAX - d) / 10 || n * 10 + d > max {
            assert(value(digits.take(i - from + 1)) == n * 10 + d);
            assert(value(digits) > max);
            return None;
        }
        n = n * 10 + d;
        i += 1;
    }
    assert(digits.take(i - from) == digits);
    Some(n)
}

/// Reads a `u32`.
pub fn read_u32(s: &Vec<char>) -> (r: Option<u32>)
    ensures
        match r {
            Some(n) => parse_unsigned(s@, u32::MAX as nat) == Some(n as nat),
            None => parse_unsigned(s@, u32::MAX as nat) is None,
        },
{
    let from: usize = if s.len() > 0 && s[0] == '+' {
        1
    } else {
        0
    };
    assert(s@.skip(0) == s@);
    match read_digits(s, from, 0xffff_ffff) {
        Some(n) => Some(n as u32),
        None => None,
    }
}

/// Reads a `u64`.
pub fn read_u64(s: &Vec<char>) -> (r: Option<u64>)
    ensures
        match r {
            Some(n) => parse_unsigned(s@, u64::MAX as nat) == Some(n as nat),
            None => parse_unsigned(s@, u64::MAX as nat) is None,
        },
{
    let from: usize = if s.len() > 0 && s[0] == '+' {
        1
    } else {
        0
    };
    assert(s@.skip(0) == s@);
    read_digits(s, from, u64::MAX)
}

/// Reads an `i32`.
pub fn read_i32(s: &Vec<char>) -> (r: Option<i32>)
    ensures
        match r {
            Some(n) => parse_i32(s@) == Some(n as int),
            None => parse_i32(s@) is None,
        },
{
    assert(s@.skip(0) == s@);
    if s.len() > 0 && s[0] == '-' {
        match read_digits(s, 1, 0x8000_0000) {
            Some(n) => Some((-(n as i64)) as i32),
            None => None,
        }
    } else {
        let from: usize = if s.len() > 0 && s[0] == '+' {
            1
        } else {
            0
        };
        match read_digits(s, from, 0x7fff_ffff) {
            Some(n) => Some(n as i32),
            None => None,
        }
    }
}

/// The decimal numeral of a number, without leading zeros.
pub open spec fn decimal(n: nat) -> Seq<char>
    decreases n,
{
    if n < 10 {
        seq![('0' as nat + n) as char]
    } else {
        decimal(n / 10).push(('0' as nat + n % 10) as char)
    }
}

/// The decimal numeral of an integer, with a minus sign where it is negative.
pub open spec fn signed_decimal(n: int) -> Seq<char> {
    if n < 0 {
        seq!['-'] + decimal((-n) as nat)
    } else {
        decimal(n as nat)
    }
}

/// A decimal numeral is made of digits and denotes its number.
pub proof fn lemma_decimal(n: nat)
    ensures
        numeral(decimal(n)),
        value(decimal(n)) == n,
    decreases n,
{
    if n < 10 {
        let s = decimal(n);
        assert(s.drop_last() == Seq::<char>::empty());
        assert(value(s.drop_last()) == 0);
    } else {
        lemma_decimal(n / 10);
        let s = decimal(n);
        assert(s.drop_last() == decimal(n / 10));
    }
}

/// Reading back a number that was written gives that number.
pub proof fn law_decimal_reads_back(n: nat, max: nat)
    requires
        n <= max,
    ensures
        parse_unsigned(decimal(n), max) == Some(n),
{
    lemma_decimal(n);
    assert(digit(decimal(n)[0]));
}

fn digit_char(d: u128) -> (r: char)
    requires
        d < 10,
    ensures
        r == ('0' as nat + d) as char,
{
    ('0' as u8 + d as u8) as char
}

/// The decimal numeral of an unsigned number.
pub fn decimal_of(n: u128) -> (r: Vec<char>)
    ensures
        r@ == decimal(n as nat),
    decreases n,
{
    let mut r: Vec<char> = if n < 10 {
        Vec::new()
    } else {
        decimal_of(n / 10)
    };
    let ghost head = r@;
    r.push(digit_char(n % 10));
    assert(r@ == decimal(n as nat)) by {
        if n < 10 {
            assert(head.push(('0' as nat + n as nat) as char) == seq![('0' as nat + n as nat) as char]);
        }
    }
    r
}

/// Appends text to a string.
pub fn push_str(out: &mut String, s: &str)
    ensures
        final(out)@ == old(out)@ + s@,
{
    out.append(s);
}

/// Appends the decimal numeral of an unsigned number.
pub fn push_decimal(out: &mut String, n: u128)
    ensures
        final(out)@ == old(out)@ + decimal(n as nat),
{
    let s = string_of(&decimal_of(n));
    out.append(s.as_str());
}

/// Appends the decimal numeral of a signed number.
pub fn push_signed(out: &mut String, n: i32)
    ensures
        final(out)@ == old(out)@ + signed_decimal(n as int),
{
    if n < 0 {
        let ghost start = out@;
        out.push('-');
        push_decimal(out, (-(n as i64)) as u128);
        assert(out@ == start + (seq!['-'] + decimal((-(n as int)) as nat)));
    } else {
        push_decimal(out, n as u128);
    }
}

} // verus!
