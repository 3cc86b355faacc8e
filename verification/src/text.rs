//! Text as the views need it: trimmed, folded, measured in terminal cells, and written
//! out of numbers.

use unicode_width::{UnicodeWidthChar, UnicodeWidthStr};
use vstd::prelude::*;

verus! {

// ---------------------------------------------------------------------------
// What the standard library and `unicode-width` say about characters.
// ---------------------------------------------------------------------------

/// Whether a character belongs to a script that has no case: kana, Chinese characters or
/// Hangul.
pub open spec fn caseless(c: char) -> bool {
    ||| '\u{3041}' <= c <= '\u{30ff}'
    ||| '\u{4e00}' <= c <= '\u{9fff}'
    ||| '\u{ac00}' <= c <= '\u{d7a3}'
}

/// Whether a text is made of ASCII and of characters without case.
pub open spec fn plain(text: Seq<char>) -> bool {
    forall|i: int|
        0 <= i < text.len() ==> (#[trigger] text[i]) <= '\u{7f}' || caseless(text[i])
}

/// The small letter for a capital one of ASCII; any other character is left as it is.
pub open spec fn lowered(c: char) -> char {
    if 'A' <= c <= 'Z' {
        (c as int + 32) as char
    } else {
        c
    }
}

/// The text that `str::to_lowercase` makes of any other text.
pub uninterp spec fn unicode_lowercase(text: Seq<char>) -> Seq<char>;

/// `text` in lower case.
pub open spec fn lowercase(text: Seq<char>) -> Seq<char> {
    if plain(text) {
        text.map_values(|c: char| lowered(c))
    } else {
        unicode_lowercase(text)
    }
}

/// Whether a character has the Unicode property `White_Space`.
pub open spec fn white_space(c: char) -> bool {
    ||| '\u{9}' <= c <= '\u{d}'
    ||| c == ' '
    ||| c == '\u{85}'
    ||| c == '\u{a0}'
    ||| c == '\u{1680}'
    ||| '\u{2000}' <= c <= '\u{200a}'
    ||| c == '\u{2028}'
    ||| c == '\u{2029}'
    ||| c == '\u{202f}'
    ||| c == '\u{205f}'
    ||| c == '\u{3000}'
}

/// The number of terminal columns that `unicode-width` gives `text`.
pub uninterp spec fn text_width(text: Seq<char>) -> usize;

/// The number of terminal columns that `unicode-width` gives `c`; none for a control
/// character.
pub uninterp spec fn char_width(c: char) -> Option<usize>;

/// A printable character of ASCII.
pub open spec fn printable(c: char) -> bool {
    ' ' <= c <= '~'
}

/// Calls `str::to_lowercase`. The contract says what it makes of ASCII, where each capital
/// letter becomes the small one, and of languages without case, which are not changed. Of any
/// other text it only names what comes back: the case mapping of Unicode, and nothing else,
/// decides it.
#[verifier::external_body]
pub(crate) fn to_lowercase(text: &str) -> (lower: String)
    ensures
        plain(text@) ==> lower@ == text@.map_values(|c: char| lowered(c)),
        !plain(text@) ==> lower@ == unicode_lowercase(text@),
{
    text.to_lowercase()
}

/// Calls `char::is_whitespace`, which answers whether a character has the Unicode property
/// `White_Space`. The contract lists the characters that have it.
#[verifier::external_body]
pub(crate) fn is_whitespace(c: char) -> (white: bool)
    ensures
        white == white_space(c),
{
    c.is_whitespace()
}

/// Calls `unicode_width::UnicodeWidthStr::width`. The contract names the width, which
/// depends on the characters alone, and says that printable ASCII takes one column each.
#[verifier::external_body]
pub(crate) fn width(text: &str) -> (columns: usize)
    ensures
        columns == text_width(text@),
        (forall|i: int| 0 <= i < text@.len() ==> printable(#[trigger] text@[i])) ==> columns
            == text@.len(),
{
    UnicodeWidthStr::width(text)
}

/// Calls `unicode_width::UnicodeWidthChar::width`. The contract names the width, and says
/// that exactly the control characters have none, and that printable ASCII and the
/// ellipsis take one column.
#[verifier::external_body]
pub(crate) fn width_of_char(c: char) -> (columns: Option<usize>)
    ensures
        columns == char_width(c),
        columns is None <==> (c < ' ' || '\u{7f}' <= c < '\u{a0}'),
        printable(c) || c == '\u{2026}' ==> columns == Some(1usize),
{
    UnicodeWidthChar::width(c)
}

/// `String::push` puts a character at the end.
pub assume_specification[ String::push ](buffer: &mut String, c: char)
    ensures
        final(buffer)@ == old(buffer)@.push(c),
;

/// `String::pop` takes the last character off and hands it back; an empty text has none.
pub assume_specification[ String::pop ](buffer: &mut String) -> (last: Option<char>)
    ensures
        old(buffer)@.len() == 0 ==> last is None && final(buffer)@ == old(buffer)@,
        old(buffer)@.len() > 0 ==> last == Some(old(buffer)@.last()) && final(buffer)@
            == old(buffer)@.drop_last(),
;

/// `==` on `str` compares the characters.
pub assume_specification[ <str as PartialEq>::eq ](a: &str, b: &str) -> (equal: bool)
    ensures
        equal == (a@ == b@),
;

// ---------------------------------------------------------------------------
// Characters and strings.
// ---------------------------------------------------------------------------

/// The characters of `text`, in order.
pub fn chars_of(text: &str) -> (chars: Vec<char>)
    ensures
        chars@ == text@,
{
    let mut chars: Vec<char> = Vec::new();
    for c in it: text.chars()
        invariant
            chars@ == it.seq().take(it.index() as int),
            it.seq() == text@,
    {
        chars.push(c);
    }
    assert(chars@ =~= text@);
    chars
}

/// The text made of `chars`.
pub fn string_of(chars: &Vec<char>) -> (text: String)
    ensures
        text@ == chars@,
{
    let mut text = String::new();
    for i in 0..chars.len()
        invariant
            text@ == chars@.take(i as int),
    {
        text.push(chars[i]);
        assert(chars@.take(i as int).push(chars@[i as int]) =~= chars@.take(i + 1));
    }
    assert(chars@.take(chars@.len() as int) =~= chars@);
    text
}

/// Whether two texts hold the same characters.
pub fn same(a: &str, b: &str) -> (equal: bool)
    ensures
        equal == (a@ == b@),
{
    *a == *b
}

/// `text` without the white space it starts with.
pub open spec fn trimmed_start(text: Seq<char>) -> Seq<char>
    decreases text.len(),
{
    if text.len() > 0 && white_space(text[0]) {
        trimmed_start(text.drop_first())
    } else {
        text
    }
}

/// `text` without the white space it ends with.
pub open spec fn trimmed_end(text: Seq<char>) -> Seq<char>
    decreases text.len(),
{
    if text.len() > 0 && white_space(text.last()) {
        trimmed_end(text.drop_last())
    } else {
        text
    }
}

/// `text` without the white space around it.
pub open spec fn trimmed(text: Seq<char>) -> Seq<char> {
    trimmed_end(trimmed_start(text))
}

/// The text without the white space around it.
pub fn trim(text: &str) -> (inner: String)
    ensures
        inner@ == trimmed(text@),
{
    let chars = chars_of(text);
    let mut first: usize = 0;
    assert(chars@.skip(0) =~= chars@);
    while first < chars.len() && is_whitespace(chars[first])
        invariant
            first <= chars@.len(),
            trimmed_start(chars@) == trimmed_start(chars@.skip(first as int)),
        decreases chars.len() - first,
    {
        assert(chars@.skip(first as int).drop_first() =~= chars@.skip(first + 1));
        first = first + 1;
    }
    let ghost rest = chars@.skip(first as int);
    assert(trimmed_start(chars@) == rest);
    let mut last: usize = chars.len();
    assert(chars@.subrange(first as int, last as int) =~= rest);
    while first < last && is_whitespace(chars[last - 1])
        invariant
            first <= last <= chars@.len(),
            trimmed_end(rest) == trimmed_end(chars@.subrange(first as int, last as int)),
        decreases last - first,
    {
        assert(chars@.subrange(first as int, last as int).drop_last() =~= chars@.subrange(
            first as int,
            last - 1,
        ));
        last = last - 1;
    }
    let mut inner = String::new();
    for i in first..last
        invariant
            first <= last <= chars@.len(),
            inner@ == chars@.subrange(first as int, i as int),
    {
        inner.push(chars[i]);
        assert(chars@.subrange(first as int, i as int).push(chars@[i as int])
            =~= chars@.subrange(first as int, i + 1));
    }
    inner
}

/// What is trimmed off is white space at the ends, so the rest has none there; and a text
/// that has none there is left as it is.
pub proof fn lemma_trimmed_ends(text: Seq<char>)
    ensures
        trimmed(text).len() > 0 ==> !white_space(trimmed(text)[0]) && !white_space(
            trimmed(text).last(),
        ),
        plain(text) ==> plain(trimmed(text)),
        text.len() > 0 && !white_space(text[0]) && !white_space(text.last()) ==> trimmed(text)
            == text,
{
    lemma_trimmed_start(text);
    lemma_trimmed_end(trimmed_start(text));
}

proof fn lemma_trimmed_start(text: Seq<char>)
    ensures
        trimmed_start(text).len() > 0 ==> !white_space(trimmed_start(text)[0]),
        plain(text) ==> plain(trimmed_start(text)),
    decreases text.len(),
{
    if text.len() > 0 && white_space(text[0]) {
        lemma_trimmed_start(text.drop_first());
        if plain(text) {
            assert forall|i: int| 0 <= i < text.drop_first().len() implies #[trigger]
                text.drop_first()[i] <= '\u{7f}' || caseless(text.drop_first()[i]) by {
                assert(text.drop_first()[i] == text[i + 1]);
            }
        }
    }
}

proof fn lemma_trimmed_end(text: Seq<char>)
    ensures
        trimmed_end(text).len() > 0 ==> !white_space(trimmed_end(text).last())
            && trimmed_end(text)[0] == text[0],
        plain(text) ==> plain(trimmed_end(text)),
    decreases text.len(),
{
    if text.len() > 0 && white_space(text.last()) {
        lemma_trimmed_end(text.drop_last());
        if plain(text) {
            assert forall|i: int| 0 <= i < text.drop_last().len() implies #[trigger]
                text.drop_last()[i] <= '\u{7f}' || caseless(text.drop_last()[i]) by {
                assert(text.drop_last()[i] == text[i]);
            }
        }
    }
}

/// White space in front of a text or behind it is trimmed off.
pub proof fn lemma_trim_white_space(text: Seq<char>, c: char)
    requires
        white_space(c),
    ensures
        trimmed(seq![c] + text) == trimmed(text),
        trimmed(text.push(c)) == trimmed(text),
{
    assert((seq![c] + text).drop_first() =~= text);
    lemma_trim_start_of_more(text, c);
    assert(trimmed_start(text).push(c).drop_last() =~= trimmed_start(text));
}

proof fn lemma_trim_start_of_more(text: Seq<char>, c: char)
    requires
        white_space(c),
    ensures
        trimmed_start(text.push(c)) == (if trimmed_start(text).len() == 0 {
            Seq::empty()
        } else {
            trimmed_start(text).push(c)
        }),
    decreases text.len(),
{
    reveal_with_fuel(trimmed_start, 2);
    if text.len() == 0 {
        assert(text.push(c).drop_first() =~= text);
    } else {
        assert(text.push(c)[0] == text[0]);
        if white_space(text[0]) {
            assert(text.push(c).drop_first() =~= text.drop_first().push(c));
            lemma_trim_start_of_more(text.drop_first(), c);
        }
    }
}

/// Whether `part` occurs somewhere in `text`.
pub open spec fn occurs(text: Seq<char>, part: Seq<char>) -> bool {
    exists|at: int|
        0 <= at <= text.len() - part.len() && #[trigger] text.subrange(at, at + part.len()) == part
}

/// Whether the characters of `part` stand in `text` from `at` on.
fn stands_at(text: &Vec<char>, part: &Vec<char>, at: usize) -> (found: bool)
    requires
        at + part@.len() <= text@.len(),
    ensures
        found == (text@.subrange(at as int, at + part@.len()) == part@),
{
    let length: usize = text.len();
    for i in 0..part.len()
        invariant
            at + part@.len() <= text@.len(),
            length == text@.len(),
            text@.subrange(at as int, at + i) == part@.take(i as int),
    {
        if text[at + i] != part[i] {
            assert(text@.subrange(at as int, at + part@.len())[i as int] != part@[i as int]);
            return false;
        }
        assert(text@.subrange(at as int, at + i + 1) =~= text@.subrange(
            at as int,
            at + i,
        ).push(part@[i as int]));
        assert(part@.take(i + 1) =~= part@.take(i as int).push(part@[i as int]));
    }
    assert(part@.take(part@.len() as int) =~= part@);
    true
}

/// Whether `text` begins with `part`.
pub fn starts_with(text: &str, part: &str) -> (found: bool)
    ensures
        found == part@.is_prefix_of(text@),
{
    let text = chars_of(text);
    let part = chars_of(part);
    part.len() <= text.len() && stands_at(&text, &part, 0)
}

/// Whether `part` occurs in `text`.
pub fn contains(text: &str, part: &str) -> (found: bool)
    ensures
        found == occurs(text@, part@),
{
    let letters = chars_of(text);
    let wanted = chars_of(part);
    if wanted.len() > letters.len() {
        return false;
    }
    let last: usize = letters.len() - wanted.len();
    let mut at: usize = 0;
    while at <= last
        invariant
            letters@ == text@,
            wanted@ == part@,
            last == text@.len() - part@.len(),
            at <= last + 1,
            forall|i: int|
                0 <= i < at ==> #[trigger] text@.subrange(i, i + part@.len()) != part@,
        decreases last + 1 - at,
    {
        if stands_at(&letters, &wanted, at) {
            return true;
        }
        if at == last {
            return false;
        }
        at = at + 1;
    }
    false
}

/// `c` written `count` times.
pub open spec fn repeated(c: char, count: nat) -> Seq<char> {
    Seq::new(count, |i: int| c)
}

/// `c` written `count` times.
pub fn repeat(c: char, count: usize) -> (text: String)
    ensures
        text@ == repeated(c, count as nat),
{
    let mut text = String::new();
    for i in 0..count
        invariant
            text@ == repeated(c, i as nat),
    {
        text.push(c);
        assert(repeated(c, i as nat).push(c) =~= repeated(c, (i + 1) as nat));
    }
    text
}

/// `parts` with `separator` between each two of them.
pub open spec fn joined(parts: Seq<Seq<char>>, separator: Seq<char>) -> Seq<char>
    decreases parts.len(),
{
    if parts.len() == 0 {
        Seq::empty()
    } else if parts.len() == 1 {
        parts[0]
    } else {
        joined(parts.drop_last(), separator) + separator + parts.last()
    }
}

/// The characters of each of `parts`.
pub open spec fn texts(parts: Seq<String>) -> Seq<Seq<char>> {
    parts.map_values(|part: String| part@)
}

/// `parts` with `separator` between each two of them.
pub fn join(parts: &Vec<String>, separator: &str) -> (text: String)
    ensures
        text@ == joined(texts(parts@), separator@),
{
    let mut text = String::new();
    for i in 0..parts.len()
        invariant
            text@ == joined(texts(parts@).take(i as int), separator@),
    {
        let ghost before = texts(parts@).take(i as int);
        let ghost after = texts(parts@).take(i + 1);
        assert(after.drop_last() =~= before);
        if i > 0 {
            text.append(separator);
        }
        text.append(&parts[i]);
        assert(after.last() == parts@[i as int]@);
        if i == 0 {
            assert(text@ =~= after[0]);
        }
    }
    assert(texts(parts@).take(parts@.len() as int) =~= texts(parts@));
    text
}

// ---------------------------------------------------------------------------
// Numbers and times.
// ---------------------------------------------------------------------------

/// The character of a decimal digit.
pub open spec fn digit(value: nat) -> char {
    ('0' as nat + value) as char
}

/// `value` in decimal.
pub open spec fn digits(value: nat) -> Seq<char>
    decreases value,
{
    if value < 10 {
        seq![digit(value)]
    } else {
        digits(value / 10).push(digit(value % 10))
    }
}

/// `value` in decimal, with a zero in front where it has one digit only.
pub open spec fn two_digits(value: nat) -> Seq<char> {
    if value < 10 {
        seq!['0'] + digits(value)
    } else {
        digits(value)
    }
}

/// Writes `value` in decimal.
pub fn decimal(value: u128) -> (text: String)
    ensures
        text@ == digits(value as nat),
    decreases value,
{
    let mut text = if value < 10 {
        String::new()
    } else {
        decimal(value / 10)
    };
    let last: u8 = (value % 10) as u8;
    text.push((48u8 + last) as char);
    assert(text@ =~= digits(value as nat));
    text
}

/// Writes `value` in decimal with at least two digits.
fn padded(value: u128) -> (text: String)
    ensures
        text@ == two_digits(value as nat),
{
    let mut text = String::new();
    if value < 10 {
        text.push('0');
    }
    text.append(&decimal(value));
    assert(text@ =~= two_digits(value as nat));
    text
}

/// A time of `ms` milliseconds on a clock: `2:04`, or `1:02:04` from an hour on.
pub open spec fn clock_face(ms: nat) -> Seq<char> {
    let seconds = ms / 1000;
    let minutes = seconds / 60;
    let hours = seconds / 3600;
    if hours > 0 {
        digits(hours) + seq![':'] + two_digits(minutes % 60) + seq![':'] + two_digits(seconds % 60)
    } else {
        digits(minutes % 60) + seq![':'] + two_digits(seconds % 60)
    }
}

/// Writes a time of `duration` milliseconds as minutes and seconds, with the hours in
/// front where there are any.
pub fn ms_to_hms(duration: u32) -> (text: String)
    ensures
        text@ == clock_face(duration as nat),
{
    let seconds: u32 = duration / 1000;
    let minutes: u32 = seconds / 60;
    let hours: u32 = seconds / 3600;
    let mut text = String::new();
    if hours > 0 {
        text.append(&decimal(hours as u128));
        text.push(':');
        text.append(&padded((minutes % 60) as u128));
    } else {
        text.append(&decimal((minutes % 60) as u128));
    }
    text.push(':');
    text.append(&padded((seconds % 60) as u128));
    assert(text@ =~= clock_face(duration as nat));
    text
}

// ---------------------------------------------------------------------------
// Terminal cells.
// ---------------------------------------------------------------------------

/// The cells that `c` takes: none for a control character.
pub open spec fn cell(c: char) -> nat {
    match char_width(c) {
        Some(columns) => columns as nat,
        None => 0,
    }
}

/// The cells that the characters of `text` take, one after the other.
pub open spec fn cells(text: Seq<char>) -> nat
    decreases text.len(),
{
    if text.len() == 0 {
        0
    } else {
        cells(text.drop_last()) + cell(text.last())
    }
}

/// The longest beginning of `text` that takes no more than `room` cells.
pub open spec fn longest_prefix(text: Seq<char>, room: nat) -> Seq<char>
    decreases text.len(),
{
    if text.len() == 0 || cells(text) <= room {
        text
    } else {
        longest_prefix(text.drop_last(), room)
    }
}

/// The cells that `c` takes.
pub(crate) fn cell_of(c: char) -> (columns: usize)
    ensures
        columns == cell(c),
        printable(c) || c == '\u{2026}' ==> columns == 1,
{
    match width_of_char(c) {
        Some(columns) => columns,
        None => 0,
    }
}

/// A longer beginning takes no fewer cells.
pub proof fn lemma_cells_monotone(text: Seq<char>, shorter: int, longer: int)
    requires
        0 <= shorter <= longer <= text.len(),
    ensures
        cells(text.take(shorter)) <= cells(text.take(longer)),
    decreases longer,
{
    if shorter < longer {
        assert(text.take(longer).drop_last() =~= text.take(longer - 1));
        lemma_cells_monotone(text, shorter, longer - 1);
    }
}

/// The cells of one text after another add up.
pub proof fn lemma_cells_concat(first: Seq<char>, second: Seq<char>)
    ensures
        cells(first + second) == cells(first) + cells(second),
    decreases second.len(),
{
    if second.len() == 0 {
        assert(first + second =~= first);
    } else {
        assert((first + second).drop_last() =~= first + second.drop_last());
        lemma_cells_concat(first, second.drop_last());
    }
}

/// The beginning that fits where the next character does not is the longest that fits.
proof fn lemma_longest_prefix(text: Seq<char>, room: nat, kept: int)
    requires
        0 <= kept <= text.len(),
        cells(text.take(kept)) <= room,
        kept < text.len() ==> cells(text.take(kept + 1)) > room,
    ensures
        longest_prefix(text, room) == text.take(kept),
    decreases text.len(),
{
    assert(text.take(text.len() as int) =~= text);
    if kept < text.len() {
        lemma_cells_monotone(text, kept + 1, text.len() as int);
        let shorter = text.drop_last();
        assert(shorter.take(kept) =~= text.take(kept));
        if kept < shorter.len() {
            assert(shorter.take(kept + 1) =~= text.take(kept + 1));
        }
        lemma_longest_prefix(shorter, room, kept);
    }
}

/// The longest beginning of `text` that takes no more than `room` cells.
pub fn fitting_prefix(text: &str, room: usize) -> (kept: String)
    ensures
        kept@ == longest_prefix(text@, room as nat),
        cells(kept@) <= room,
{
    let chars = chars_of(text);
    let mut kept = String::new();
    let mut used: usize = 0;
    let mut i: usize = 0;
    assert(chars@.take(0) =~= Seq::empty());
    while i < chars.len()
        invariant
            chars@ == text@,
            i <= chars@.len(),
            kept@ == chars@.take(i as int),
            used == cells(kept@),
            used <= room,
        decreases chars.len() - i,
    {
        let columns = cell_of(chars[i]);
        assert(chars@.take(i + 1).drop_last() =~= chars@.take(i as int));
        if columns > room - used {
            proof {
                lemma_longest_prefix(text@, room as nat, i as int);
            }
            return kept;
        }
        kept.push(chars[i]);
        assert(kept@ =~= chars@.take(i + 1));
        used = used + columns;
        i = i + 1;
    }
    proof {
        lemma_longest_prefix(text@, room as nat, i as int);
    }
    kept
}

// ---------------------------------------------------------------------------
// What texts promise.
// ---------------------------------------------------------------------------

/// The number that a run of decimal digits stands for.
pub open spec fn number_of(text: Seq<char>) -> int
    decreases text.len(),
{
    if text.len() == 0 {
        0
    } else {
        10 * number_of(text.drop_last()) + (text.last() as int - '0' as int)
    }
}

/// A number that is written down reads back as itself: it is written in decimal digits only,
/// and without a zero in front.
pub proof fn law_a_number_reads_back(value: nat)
    ensures
        number_of(digits(value)) == value,
        digits(value).len() > 0,
        digits(value).len() == 1 <==> value < 10,
        digits(value).len() <= 2 <==> value < 100,
        forall|i: int| 0 <= i < digits(value).len() ==> '0' <= #[trigger] digits(value)[i] <= '9',
        value > 0 ==> digits(value)[0] != '0',
    decreases value,
{
    let text = digits(value);
    if value < 10 {
        assert(text.drop_last() =~= Seq::<char>::empty());
        assert(number_of(text.drop_last()) == 0);
        assert(text.last() == digit(value));
    } else {
        law_a_number_reads_back(value / 10);
        assert(text.drop_last() =~= digits(value / 10));
        assert(text.last() == digit(value % 10));
        assert(text[0] == digits(value / 10)[0]);
    }
}

/// Two numbers that are written alike are the same number.
pub proof fn law_numbers_are_told_apart(one: nat, other: nat)
    ensures
        digits(one) == digits(other) <==> one == other,
{
    law_a_number_reads_back(one);
    law_a_number_reads_back(other);
}

/// A number below a hundred that is filled up takes two digits, and reads back as itself.
pub proof fn law_a_filled_up_number_takes_two_digits(value: nat)
    requires
        value < 100,
    ensures
        two_digits(value).len() == 2,
        number_of(two_digits(value)) == value,
        '0' <= two_digits(value)[0] <= '9',
        '0' <= two_digits(value)[1] <= '9',
{
    law_a_number_reads_back(value);
    if value < 10 {
        let text = two_digits(value);
        assert(text.drop_last() =~= seq!['0']);
        assert(seq!['0'].drop_last() =~= Seq::<char>::empty());
        assert(number_of(seq!['0'].drop_last()) == 0);
        assert(number_of(seq!['0']) == 0);
        assert(text.last() == digit(value));
    }
}

/// What a clock has counted when its face has been read so far: the units of the groups that
/// are behind a colon already, in units of the group that comes next, and that group.
pub open spec fn read_so_far(face: Seq<char>) -> (int, int)
    decreases face.len(),
{
    if face.len() == 0 {
        (0, 0)
    } else {
        let (done, group) = read_so_far(face.drop_last());
        if face.last() == ':' {
            (60 * (done + group), 0)
        } else {
            (done, 10 * group + (face.last() as int - '0' as int))
        }
    }
}

/// The seconds that a clock face shows: each group between colons counts sixty times the
/// next one.
pub open spec fn seconds_on(face: Seq<char>) -> int {
    read_so_far(face).0 + read_so_far(face).1
}

proof fn lemma_read_group(face: Seq<char>, group: Seq<char>)
    requires
        read_so_far(face).1 == 0,
        forall|i: int| 0 <= i < group.len() ==> '0' <= #[trigger] group[i] <= '9',
    ensures
        read_so_far(face + group) == (read_so_far(face).0, number_of(group)),
    decreases group.len(),
{
    if group.len() == 0 {
        assert(face + group =~= face);
    } else {
        assert((face + group).drop_last() =~= face + group.drop_last());
        lemma_read_group(face, group.drop_last());
        assert(group.last() == group[group.len() - 1]);
    }
}

proof fn lemma_read_colon(face: Seq<char>)
    ensures
        read_so_far(face + seq![':']) == (60 * seconds_on(face), 0int),
{
    assert((face + seq![':']).drop_last() =~= face);
    assert((face + seq![':']).last() == ':');
}

/// A time reads back, in whole seconds. The seconds are two digits behind a colon, below
/// sixty; from an hour on so are the minutes.
pub proof fn law_a_clock_reads_back(ms: nat)
    ensures
        ({
            let face = clock_face(ms);
            let size = face.len() as int;
            &&& seconds_on(face) == ms / 1000
            &&& size >= 4
            &&& face[size - 3] == ':'
            &&& 0 <= number_of(face.skip(size - 2)) < 60
            &&& ms < 3600 * 1000 ==> size <= 5 && 0 <= number_of(face.take(size - 3)) < 60
            &&& ms >= 3600 * 1000 ==> size >= 7 && face[size - 6] == ':' && 0 <= number_of(
                face.subrange(size - 5, size - 3),
            ) < 60
        }),
{
    let face = clock_face(ms);
    let size = face.len() as int;
    let seconds = ms / 1000;
    let minutes = seconds / 60;
    let hours = seconds / 3600;
    let none = Seq::<char>::empty();
    law_a_number_reads_back(hours);
    law_a_number_reads_back(minutes % 60);
    law_a_filled_up_number_takes_two_digits(minutes % 60);
    law_a_filled_up_number_takes_two_digits(seconds % 60);
    let last = two_digits(seconds % 60);
    assert(face.skip(size - 2) =~= last);
    if hours > 0 {
        let first = digits(hours);
        let middle = two_digits(minutes % 60);
        lemma_read_group(none, first);
        assert(none + first =~= first);
        lemma_read_colon(first);
        lemma_read_group(first + seq![':'], middle);
        lemma_read_colon(first + seq![':'] + middle);
        lemma_read_group(first + seq![':'] + middle + seq![':'], last);
        assert(face.subrange(size - 5, size - 3) =~= middle);
    } else {
        let first = digits(minutes % 60);
        lemma_read_group(none, first);
        assert(none + first =~= first);
        lemma_read_colon(first);
        lemma_read_group(first + seq![':'], last);
        assert(face.take(size - 3) =~= first);
    }
}

/// What is joined in two goes is joined with one separator between them, and a single part
/// stands alone.
pub proof fn law_joining_puts_separators_between(
    one: Seq<Seq<char>>,
    other: Seq<Seq<char>>,
    part: Seq<char>,
    separator: Seq<char>,
)
    requires
        one.len() > 0,
        other.len() > 0,
    ensures
        joined(one + other, separator) == joined(one, separator) + separator + joined(
            other,
            separator,
        ),
        joined(seq![part], separator) == part,
        joined(Seq::<Seq<char>>::empty(), separator).len() == 0,
    decreases other.len(),
{
    let all = one + other;
    assert(all.drop_last() =~= one + other.drop_last());
    if other.len() == 1 {
        assert(all.drop_last() =~= one);
    } else {
        law_joining_puts_separators_between(one, other.drop_last(), part, separator);
        assert(joined(all, separator) =~= joined(one, separator) + separator + joined(
            other,
            separator,
        ));
    }
}

/// Trimming takes off white space and nothing else, from both ends, as far as it goes.
pub proof fn law_trimming_takes_off_white_space(text: Seq<char>)
    ensures
        exists|first: int, end: int|
            0 <= first <= end <= text.len() && trimmed(text) == #[trigger] text.subrange(first, end)
                && (forall|i: int| 0 <= i < first ==> white_space(#[trigger] text[i])) && (forall|
                i: int,
            |
                end <= i < text.len() ==> white_space(#[trigger] text[i])),
        trimmed(text).len() > 0 ==> !white_space(trimmed(text)[0]) && !white_space(
            trimmed(text).last(),
        ),
{
    lemma_trimmed_ends(text);
    lemma_start_is_cut(text);
    let from = trimmed_start(text);
    let first = text.len() - from.len();
    lemma_end_is_cut(from);
    let kept = trimmed_end(from);
    let end = first + kept.len();
    assert(kept =~= text.subrange(first, end));
    assert forall|i: int| end <= i < text.len() implies white_space(#[trigger] text[i]) by {
        assert(text[i] == from[i - first]);
    }
}

proof fn lemma_start_is_cut(text: Seq<char>)
    ensures
        trimmed_start(text).len() <= text.len(),
        trimmed_start(text) == text.skip(text.len() - trimmed_start(text).len()),
        forall|i: int|
            0 <= i < text.len() - trimmed_start(text).len() ==> white_space(#[trigger] text[i]),
    decreases text.len(),
{
    if text.len() > 0 && white_space(text[0]) {
        let rest = text.drop_first();
        lemma_start_is_cut(rest);
        let cut = rest.len() - trimmed_start(rest).len();
        assert(rest.skip(cut) =~= text.skip(cut + 1));
        assert forall|i: int| 0 <= i < cut + 1 implies white_space(#[trigger] text[i]) by {
            if i > 0 {
                assert(text[i] == rest[i - 1]);
            }
        }
    } else {
        assert(text.skip(0) =~= text);
    }
}

proof fn lemma_end_is_cut(text: Seq<char>)
    ensures
        trimmed_end(text).len() <= text.len(),
        trimmed_end(text) == text.take(trimmed_end(text).len() as int),
        forall|i: int|
            trimmed_end(text).len() <= i < text.len() ==> white_space(#[trigger] text[i]),
    decreases text.len(),
{
    if text.len() > 0 && white_space(text.last()) {
        let rest = text.drop_last();
        lemma_end_is_cut(rest);
        let kept = trimmed_end(rest).len() as int;
        assert(rest.take(kept) =~= text.take(kept));
        assert forall|i: int| kept <= i < text.len() implies white_space(#[trigger] text[i]) by {
            if i < rest.len() {
                assert(text[i] == rest[i]);
            }
        }
    } else {
        assert(text.take(text.len() as int) =~= text);
    }
}

/// What is kept of a text that is cut is a beginning of it that fits, and no longer
/// beginning does.
pub proof fn law_a_cut_keeps_as_much_as_fits(text: Seq<char>, room: nat)
    ensures
        ({
            let kept = longest_prefix(text, room);
            &&& kept.len() <= text.len()
            &&& kept == text.take(kept.len() as int)
            &&& cells(kept) <= room
            &&& forall|more: int|
                kept.len() < more <= text.len() ==> cells(#[trigger] text.take(more)) > room
        }),
    decreases text.len(),
{
    assert(text.take(text.len() as int) =~= text);
    if text.len() > 0 && cells(text) > room {
        let shorter = text.drop_last();
        law_a_cut_keeps_as_much_as_fits(shorter, room);
        let kept = longest_prefix(text, room);
        assert(shorter.take(kept.len() as int) =~= text.take(kept.len() as int));
        assert forall|more: int| kept.len() < more <= text.len() implies cells(
            #[trigger] text.take(more),
        ) > room by {
            if more < text.len() {
                assert(shorter.take(more) =~= text.take(more));
            }
        }
    }
}

/// A part occurs in a text exactly where the text is that part with something before it and
/// something behind it.
pub proof fn law_what_occurs_stands_between(
    text: Seq<char>,
    before: Seq<char>,
    part: Seq<char>,
    behind: Seq<char>,
)
    ensures
        text == before + part + behind ==> occurs(text, part),
        occurs(text, part) ==> exists|at: int|
            0 <= at <= text.len() && text == #[trigger] text.take(at) + part + text.skip(
                at + part.len(),
            ),
{
    if text == before + part + behind {
        let at = before.len() as int;
        assert(text.subrange(at, at + part.len()) =~= part);
    }
    if occurs(text, part) {
        let at = choose|at: int|
            0 <= at <= text.len() - part.len() && #[trigger] text.subrange(at, at + part.len())
                == part;
        assert(text =~= text.take(at) + part + text.skip(at + part.len()));
    }
}

/// In lower case a plain text keeps its length and everything but its capital letters, each
/// of which becomes the letter as far behind `a` as it was behind `A`.
pub proof fn law_lower_case_only_changes_capitals(text: Seq<char>, i: int)
    requires
        plain(text),
        0 <= i < text.len(),
    ensures
        lowercase(text).len() == text.len(),
        'A' <= text[i] <= 'Z' ==> lowercase(text)[i] as int - 'a' as int == text[i] as int
            - 'A' as int,
        !('A' <= text[i] <= 'Z') ==> lowercase(text)[i] == text[i],
{
}

} // verus!
