//! Archives handled by the `7z` tool: what a listing says, and the commands
//! that change an archive.
//!
//! A technical listing names each entry on a line `Path = ..`, followed by
//! lines `Size = ..` and `CRC = ..`. The first such line of a listing names
//! the archive itself. What follows the key of a line is its value, so that
//! the name of an entry may itself hold a `=`.

use crate::text::{chars_of, lowercase, lowercase_of};
use vstd::prelude::*;
use vstd::string::StrSliceExecFns;

verus! {

/// The archive formats that are taken apart entry by entry.
#[derive(Clone, Copy, Debug, PartialEq, Eq, Structural)]
pub enum ArchiveType {
    Sevenzip,
    Zip,
}

/// One entry of an archive, as its listing gives it.
#[derive(Debug, PartialEq, Eq)]
pub struct ArchiveInfo {
    /// The entry's name inside the archive.
    pub path: String,
    /// The entry's size once extracted.
    pub size: u64,
    /// The entry's CRC in lower case; empty where the listing has none.
    pub crc: String,
}

/// The view of [`ArchiveInfo`]: the same record over mathematical values.
pub struct ArchiveInfoView {
    pub path: Seq<char>,
    pub size: u64,
    pub crc: Seq<char>,
}

impl View for ArchiveInfo {
    type V = ArchiveInfoView;

    open spec fn view(&self) -> ArchiveInfoView {
        ArchiveInfoView { path: self.path@, size: self.size, crc: self.crc@ }
    }
}

impl Clone for ArchiveInfo {
    fn clone(&self) -> (copy: Self)
        ensures
            copy == *self,
    {
        ArchiveInfo { path: self.path.clone(), size: self.size, crc: self.crc.clone() }
    }
}

impl ArchiveType {
    /// The file extension of the format.
    pub open spec fn extension_text(self) -> Seq<char> {
        match self {
            ArchiveType::Sevenzip => seq!['7', 'z'],
            ArchiveType::Zip => seq!['z', 'i', 'p'],
        }
    }

    /// The file extension of the format.
    pub fn extension(self) -> (text: &'static str)
        ensures
            text@ == self.extension_text(),
    {
        match self {
            ArchiveType::Sevenzip => {
                proof {
                    reveal_strlit("7z");
                }
                assert("7z"@ =~= seq!['7', 'z']);
                "7z"
            },
            ArchiveType::Zip => {
                proof {
                    reveal_strlit("zip");
                }
                assert("zip"@ =~= seq!['z', 'i', 'p']);
                "zip"
            },
        }
    }
}

/// Why a listing cannot be read.
#[derive(Clone, Copy, Debug, PartialEq, Eq, Structural)]
pub enum ListingError {
    /// The listing ends within an entry: a path without size and CRC.
    Incomplete,
    /// The size of an entry is not a number that fits 64 bits.
    BadSize,
}

/// Whether a character is white space.
pub open spec fn is_space(c: char) -> bool {
    let code = c as u32;
    ||| 0x09 <= code <= 0x0d
    ||| code == 0x20
    ||| code == 0x85
    ||| code == 0xa0
    ||| code == 0x1680
    ||| 0x2000 <= code <= 0x200a
    ||| code == 0x2028
    ||| code == 0x2029
    ||| code == 0x202f
    ||| code == 0x205f
    ||| code == 0x3000
}

/// The text without the white space at its start.
pub open spec fn trim_start(text: Seq<char>) -> Seq<char>
    decreases text.len(),
{
    if text.len() > 0 && is_space(text.first()) {
        trim_start(text.drop_first())
    } else {
        text
    }
}

/// The text without the white space at its end.
pub open spec fn trim_end(text: Seq<char>) -> Seq<char>
    decreases text.len(),
{
    if text.len() > 0 && is_space(text.last()) {
        trim_end(text.drop_last())
    } else {
        text
    }
}

/// The text without the white space around it.
pub open spec fn trimmed(text: Seq<char>) -> Seq<char> {
    trim_end(trim_start(text))
}

/// What stands after the first `=` of a line, further `=` included;
/// nothing where the line has none.
pub open spec fn after_first_equals(line: Seq<char>) -> Seq<char>
    decreases line.len(),
{
    if line.len() == 0 {
        line
    } else if line.first() == '=' {
        line.drop_first()
    } else {
        after_first_equals(line.drop_first())
    }
}

/// The value that a field line gives: what stands after its key, which
/// ends with the first `=` of the line, trimmed.
pub open spec fn value_of(line: Seq<char>) -> Seq<char> {
    trimmed(after_first_equals(line))
}

/// Whether a line begins with the given characters.
pub open spec fn begins_with(line: Seq<char>, start: Seq<char>) -> bool {
    start.len() <= line.len() && line.take(start.len() as int) == start
}

pub open spec fn path_key() -> Seq<char> {
    seq!['P', 'a', 't', 'h', ' ', '=']
}

pub open spec fn size_key() -> Seq<char> {
    seq!['S', 'i', 'z', 'e', ' ', '=']
}

pub open spec fn crc_key() -> Seq<char> {
    seq!['C', 'R', 'C', ' ', '=']
}

/// Whether a line gives the path, the size or the CRC of an entry.
pub open spec fn is_field(line: Seq<char>) -> bool {
    begins_with(line, path_key()) || begins_with(line, size_key()) || begins_with(line, crc_key())
}

/// What stands after the first `=` of a text that begins with a character
/// other than `=` is what stands after the first `=` of the rest.
proof fn lemma_after_first(c: char, rest: Seq<char>)
    ensures
        after_first_equals(seq![c] + rest) == if c == '=' {
            rest
        } else {
            after_first_equals(rest)
        },
{
    assert((seq![c] + rest).drop_first() =~= rest);
}

/// The value of a field line is all that follows its key, trimmed: it may
/// itself hold a `=`.
pub proof fn lemma_value_follows_key(rest: Seq<char>)
    ensures
        value_of(path_key() + rest) == trimmed(rest),
        value_of(size_key() + rest) == trimmed(rest),
        value_of(crc_key() + rest) == trimmed(rest),
{
    let end = seq!['='] + rest;
    let gap = seq![' '] + end;
    lemma_after_first('=', rest);
    lemma_after_first(' ', end);
    assert(seq!['h'] + gap =~= seq!['h', ' ', '='] + rest);
    lemma_after_first('h', gap);
    lemma_after_first('t', seq!['h'] + gap);
    lemma_after_first('a', seq!['t'] + (seq!['h'] + gap));
    lemma_after_first('P', seq!['a'] + (seq!['t'] + (seq!['h'] + gap)));
    assert(path_key() + rest =~= seq!['P'] + (seq!['a'] + (seq!['t'] + (seq!['h'] + gap))));
    lemma_after_first('e', gap);
    lemma_after_first('z', seq!['e'] + gap);
    lemma_after_first('i', seq!['z'] + (seq!['e'] + gap));
    lemma_after_first('S', seq!['i'] + (seq!['z'] + (seq!['e'] + gap)));
    assert(size_key() + rest =~= seq!['S'] + (seq!['i'] + (seq!['z'] + (seq!['e'] + gap))));
    lemma_after_first('C', gap);
    lemma_after_first('R', seq!['C'] + gap);
    lemma_after_first('C', seq!['R'] + (seq!['C'] + gap));
    assert(crc_key() + rest =~= seq!['C'] + (seq!['R'] + (seq!['C'] + gap)));
}

/// The number of characters before the first line feed.
pub open spec fn line_length(text: Seq<char>) -> nat
    decreases text.len(),
{
    if text.len() == 0 || text.first() == '\n' {
        0
    } else {
        1 + line_length(text.drop_first())
    }
}

/// The values of the field lines of a text, in order.
pub open spec fn field_values(text: Seq<char>) -> Seq<Seq<char>>
    decreases text.len(),
{
    let n = line_length(text) as int;
    let rest = if n < text.len() {
        field_values(text.skip(n + 1))
    } else {
        Seq::empty()
    };
    if is_field(text.take(n)) {
        seq![value_of(text.take(n))] + rest
    } else {
        rest
    }
}

/// The value of a decimal digit.
pub open spec fn digit_of(c: char) -> Option<int> {
    if '0' as u32 <= c as u32 <= '9' as u32 {
        Some(c as u32 - '0' as u32)
    } else {
        None
    }
}

/// Whether the text is made of decimal digits alone.
pub open spec fn all_digits(text: Seq<char>) -> bool {
    forall|i: int| 0 <= i < text.len() ==> digit_of(#[trigger] text[i]) is Some
}

/// The number that decimal digits stand for.
pub open spec fn decimal(digits: Seq<char>) -> nat
    decreases digits.len(),
{
    if digits.len() == 0 {
        0
    } else {
        decimal(digits.drop_last()) * 10 + digit_of(digits.last())->0 as nat
    }
}

/// The number that a text stands for: decimal digits, at least one, after
/// an optional plus sign, and no more than 64 bits can hold.
pub open spec fn number_of(text: Seq<char>) -> Option<u64> {
    let digits = if text.len() > 0 && text.first() == '+' {
        text.drop_first()
    } else {
        text
    };
    if digits.len() > 0 && all_digits(digits) && decimal(digits) <= u64::MAX {
        Some(decimal(digits) as u64)
    } else {
        None
    }
}

/// The entries that field values stand for, three values to an entry:
/// path, size and CRC. The first entry that cannot be read decides the error.
pub open spec fn entries_from(values: Seq<Seq<char>>) -> Result<Seq<ArchiveInfoView>, ListingError>
    decreases values.len(),
{
    if values.len() == 0 {
        Ok(Seq::empty())
    } else if values.len() < 3 {
        Err(ListingError::Incomplete)
    } else {
        match number_of(values[1]) {
            None => Err(ListingError::BadSize),
            Some(size) => match entries_from(values.skip(3)) {
                Ok(rest) => Ok(
                    seq![
                        ArchiveInfoView { path: values[0], size, crc: lowercase_of(values[2]) },
                    ] + rest,
                ),
                Err(e) => Err(e),
            },
        }
    }
}

/// The entries of a listing: its field values but the first, which names
/// the archive itself, read three by three.
pub open spec fn listed(text: Seq<char>) -> Result<Seq<ArchiveInfoView>, ListingError> {
    let values = field_values(text);
    if values.len() == 0 {
        Ok(Seq::empty())
    } else {
        entries_from(values.drop_first())
    }
}

fn is_space_char(c: char) -> (space: bool)
    ensures
        space == is_space(c),
{
    let code = c as u32;
    (0x09 <= code && code <= 0x0d) || code == 0x20 || code == 0x85 || code == 0xa0 || code
        == 0x1680 || (0x2000 <= code && code <= 0x200a) || code == 0x2028 || code == 0x2029
        || code == 0x202f || code == 0x205f || code == 0x3000
}

/// Where the line that starts at `from` ends.
fn line_end(chars: &Vec<char>, from: usize) -> (to: usize)
    requires
        from <= chars.len(),
    ensures
        from <= to <= chars.len(),
        to - from == line_length(chars@.skip(from as int)),
        to < chars.len() ==> chars@[to as int] == '\n',
{
    let ghost all = chars@;
    let mut to = from;
    while to < chars.len() && chars[to] != '\n'
        invariant
            from <= to <= chars.len(),
            all == chars@,
            line_length(all.skip(from as int)) == (to - from) + line_length(all.skip(to as int)),
        decreases chars.len() - to,
    {
        assert(all.skip(to as int).drop_first() == all.skip(to + 1));
        to += 1;
    }
    to
}

fn starts_with_key(chars: &Vec<char>, from: usize, to: usize, key: &Vec<char>) -> (starts: bool)
    requires
        from <= to <= chars.len(),
    ensures
        starts == begins_with(chars@.subrange(from as int, to as int), key@),
{
    let ghost line = chars@.subrange(from as int, to as int);
    if key.len() > to - from {
        return false;
    }
    let mut i: usize = 0;
    while i < key.len()
        invariant
            i <= key.len(),
            from <= to <= chars.len(),
            key.len() <= to - from,
            line == chars@.subrange(from as int, to as int),
            forall|k: int| 0 <= k < i ==> line[k] == key@[k],
        decreases key.len() - i,
    {
        if chars[from + i] != key[i] {
            assert(line.take(key.len() as int)[i as int] != key@[i as int]);
            return false;
        }
        i += 1;
    }
    assert(line.take(key.len() as int) =~= key@);
    true
}

fn is_field_line(chars: &Vec<char>, from: usize, to: usize) -> (field: bool)
    requires
        from <= to <= chars.len(),
    ensures
        field == is_field(chars@.subrange(from as int, to as int)),
{
    let path = vec!['P', 'a', 't', 'h', ' ', '='];
    let size = vec!['S', 'i', 'z', 'e', ' ', '='];
    let crc = vec!['C', 'R', 'C', ' ', '='];
    assert(path@ =~= path_key());
    assert(size@ =~= size_key());
    assert(crc@ =~= crc_key());
    starts_with_key(chars, from, to, &path) || starts_with_key(chars, from, to, &size)
        || starts_with_key(chars, from, to, &crc)
}

/// Where the value of the line from `from` to `to` stands.
fn value_span(chars: &Vec<char>, from: usize, to: usize) -> (span: (usize, usize))
    requires
        from <= to <= chars.len(),
    ensures
        from <= span.0 <= span.1 <= to,
        chars@.subrange(span.0 as int, span.1 as int) == value_of(
            chars@.subrange(from as int, to as int),
        ),
{
    let ghost all = chars@;
    let ghost line = all.subrange(from as int, to as int);
    let mut k = from;
    while k < to && chars[k] != '='
        invariant
            from <= k <= to <= chars.len(),
            all == chars@,
            after_first_equals(line) == after_first_equals(all.subrange(k as int, to as int)),
        decreases to - k,
    {
        assert(all.subrange(k as int, to as int).drop_first() == all.subrange(k + 1, to as int));
        k += 1;
    }
    let start = if k < to {
        k + 1
    } else {
        to
    };
    let ghost raw = all.subrange(start as int, to as int);
    assert(after_first_equals(line) =~= raw) by {
        if k < to {
            assert(all.subrange(k as int, to as int).drop_first() == raw);
        }
    }
    let mut a = start;
    while a < to && is_space_char(chars[a])
        invariant
            start <= a <= to <= chars.len(),
            all == chars@,
            trim_start(raw) == trim_start(all.subrange(a as int, to as int)),
        decreases to - a,
    {
        assert(all.subrange(a as int, to as int).drop_first() == all.subrange(a + 1, to as int));
        a += 1;
    }
    let ghost front = all.subrange(a as int, to as int);
    assert(trim_start(raw) == front);
    let mut b = to;
    while b > a && is_space_char(chars[b - 1])
        invariant
            a <= b <= to <= chars.len(),
            all == chars@,
            trim_end(front) == trim_end(all.subrange(a as int, b as int)),
        decreases b,
    {
        assert(all.subrange(a as int, b as int).drop_last() == all.subrange(a as int, b - 1));
        b -= 1;
    }
    (a, b)
}

/// The texts that spans cut from a text.
pub open spec fn span_texts(all: Seq<char>, spans: Seq<(usize, usize)>) -> Seq<Seq<char>> {
    Seq::new(spans.len(), |i: int| all.subrange(spans[i].0 as int, spans[i].1 as int))
}

/// Where the values of the field lines stand, in order.
fn field_spans(chars: &Vec<char>) -> (spans: Vec<(usize, usize)>)
    ensures
        span_texts(chars@, spans@) == field_values(chars@),
        forall|i: int| 0 <= i < spans.len() ==> (#[trigger] spans@[i]).0 <= spans@[i].1 <= chars.len(),
{
    let ghost all = chars@;
    let mut spans: Vec<(usize, usize)> = Vec::new();
    let mut from: usize = 0;
    assert(all.skip(0) =~= all);
    assert(span_texts(all, spans@) + field_values(all.skip(0)) =~= field_values(all));
    loop
        invariant
            from <= chars.len(),
            all == chars@,
            field_values(all) == span_texts(all, spans@) + field_values(all.skip(from as int)),
            forall|i: int|
                0 <= i < spans.len() ==> (#[trigger] spans@[i]).0 <= spans@[i].1 <= chars.len(),
        decreases chars.len() - from,
    {
        let to = line_end(chars, from);
        let ghost rest = all.skip(from as int);
        let ghost line = all.subrange(from as int, to as int);
        assert(rest.take(to - from) =~= line);
        if to < chars.len() {
            assert(rest.skip(to - from + 1) =~= all.skip(to + 1));
        }
        let ghost before = span_texts(all, spans@);
        if is_field_line(chars, from, to) {
            let span = value_span(chars, from, to);
            spans.push(span);
            assert(span_texts(all, spans@) =~= before.push(value_of(line)));
        }
        if to == chars.len() {
            assert(span_texts(all, spans@) =~= field_values(all));
            return spans;
        }
        assert(span_texts(all, spans@) + field_values(all.skip(to + 1)) =~= field_values(all));
        from = to + 1;
    }
}

/// The number that digits stand for does not shrink as digits are added.
proof fn lemma_decimal_grows(digits: Seq<char>, n: int)
    requires
        0 <= n <= digits.len(),
    ensures
        decimal(digits.take(n)) <= decimal(digits),
    decreases digits.len() - n,
{
    if n < digits.len() {
        lemma_decimal_grows(digits, n + 1);
        assert(digits.take(n + 1).drop_last() == digits.take(n));
        assert(decimal(digits.take(n)) <= decimal(digits.take(n + 1))) by (nonlinear_arith)
            requires
                decimal(digits.take(n + 1)) == decimal(digits.take(n)) * 10 + digit_of(
                    digits.take(n + 1).last(),
                )->0 as nat,
        {}
    } else {
        assert(digits.take(n) == digits);
    }
}

fn digit_value(c: char) -> (value: Option<u64>)
    ensures
        match value {
            Some(v) => digit_of(c) == Some(v as int) && v <= 9,
            None => digit_of(c) is None,
        },
{
    let code = c as u32;
    if 0x30 <= code && code <= 0x39 {
        Some((code - 0x30) as u64)
    } else {
        None
    }
}

/// Reads the number that stands from `from` to `to`.
fn parse_number(chars: &Vec<char>, from: usize, to: usize) -> (number: Option<u64>)
    requires
        from <= to <= chars.len(),
    ensures
        number == number_of(chars@.subrange(from as int, to as int)),
{
    let ghost text = chars@.subrange(from as int, to as int);
    let start = if from < to && chars[from] == '+' {
        from + 1
    } else {
        from
    };
    let ghost digits = chars@.subrange(start as int, to as int);
    assert(digits =~= if text.len() > 0 && text.first() == '+' {
        text.drop_first()
    } else {
        text
    });
    let ghost wanted = number_of(text);
    if start == to {
        return None;
    }
    let mut value: u64 = 0;
    let mut i = start;
    while i < to
        invariant
            start <= i <= to <= chars.len(),
            digits == chars@.subrange(start as int, to as int),
            wanted == if digits.len() > 0 && all_digits(digits) && decimal(digits) <= u64::MAX {
                Some(decimal(digits) as u64)
            } else {
                None
            },
            wanted == number_of(chars@.subrange(from as int, to as int)),
            all_digits(digits.take(i - start)),
            value == decimal(digits.take(i - start)),
        decreases to - i,
    {
        let ghost read = digits.take(i - start + 1);
        assert(read.drop_last() == digits.take(i - start));
        assert(read.last() == chars@[i as int]);
        let d = match digit_value(chars[i]) {
            Some(d) => d,
            None => {
                assert(digit_of(digits[i - start]) is None);
                return None;
            },
        };
        if value > (u64::MAX - d) / 10 {
            proof {
                if all_digits(digits) {
                    lemma_decimal_grows(digits, i - start + 1);
                }
            }
            return None;
        }
        value = value * 10 + d;
        assert forall|k: int| 0 <= k < read.len() implies digit_of(#[trigger] read[k]) is Some by {
            if k < read.len() - 1 {
                assert(digits.take(i - start)[k] == read[k]);
            }
        }
        i += 1;
    }
    assert(digits.take(to - start) == digits);
    Some(value)
}

/// The entries that come first, before what the rest of the values gives.
pub open spec fn after_front(
    front: Seq<ArchiveInfoView>,
    rest: Result<Seq<ArchiveInfoView>, ListingError>,
) -> Result<Seq<ArchiveInfoView>, ListingError> {
    match rest {
        Ok(entries) => Ok(front + entries),
        Err(e) => Err(e),
    }
}

/// The view of what reading a listing gave.
pub open spec fn parsed_view(parsed: Result<Vec<ArchiveInfo>, ListingError>) -> Result<
    Seq<ArchiveInfoView>,
    ListingError,
> {
    match parsed {
        Ok(infos) => Ok(crate::model::views(infos@)),
        Err(e) => Err(e),
    }
}

/// Reads the entries of an archive from the technical listing that the
/// tool printed for it.
pub fn parse_archive(listing: &str) -> (parsed: Result<Vec<ArchiveInfo>, ListingError>)
    ensures
        parsed_view(parsed) == listed(listing@),
{
    let chars = chars_of(listing);
    let spans = field_spans(&chars);
    let ghost all = listing@;
    let ghost values = field_values(all);
    let mut infos: Vec<ArchiveInfo> = Vec::new();
    if spans.len() == 0 {
        assert(crate::model::views(infos@) =~= Seq::empty());
        return Ok(infos);
    }
    let mut k: usize = 1;
    assert(values.drop_first() =~= values.skip(1));
    assert(after_front(crate::model::views(infos@), entries_from(values.skip(1))) == listed(all)) by {
        assert(crate::model::views(infos@) =~= Seq::empty());
        match entries_from(values.skip(1)) {
            Ok(entries) => {
                assert(Seq::<ArchiveInfoView>::empty() + entries =~= entries);
            },
            Err(_) => {},
        }
    }
    while k < spans.len()
        invariant
            1 <= k <= spans.len(),
            all == listing@,
            chars@ == all,
            values == field_values(all),
            span_texts(all, spans@) == values,
            forall|i: int|
                0 <= i < spans.len() ==> (#[trigger] spans@[i]).0 <= spans@[i].1 <= chars.len(),
            after_front(crate::model::views(infos@), entries_from(values.skip(k as int))) == listed(
                all,
            ),
        decreases spans.len() - k,
    {
        let ghost left = values.skip(k as int);
        if spans.len() - k < 3 {
            return Err(ListingError::Incomplete);
        }
        let path_span = spans[k];
        let size_span = spans[k + 1];
        let crc_span = spans[k + 2];
        assert(left[0] == all.subrange(path_span.0 as int, path_span.1 as int));
        assert(left[1] == all.subrange(size_span.0 as int, size_span.1 as int));
        assert(left[2] == all.subrange(crc_span.0 as int, crc_span.1 as int));
        assert(left.skip(3) =~= values.skip(k + 3));
        let size = match parse_number(&chars, size_span.0, size_span.1) {
            Some(size) => size,
            None => {
                return Err(ListingError::BadSize);
            },
        };
        let path = listing.substring_char(path_span.0, path_span.1).to_owned();
        let crc = lowercase(listing.substring_char(crc_span.0, crc_span.1));
        let ghost before = crate::model::views(infos@);
        let info = ArchiveInfo { path, size, crc };
        let ghost added = info@;
        infos.push(info);
        proof {
            let now = crate::model::views(infos@);
            assert(now =~= before.push(added));
            match entries_from(values.skip(k + 3)) {
                Ok(rest) => {
                    assert(before + (seq![added] + rest) =~= now + rest);
                },
                Err(_) => {},
            }
        }
        k += 3;
    }
    proof {
        assert(values.skip(k as int).len() == 0);
        assert(crate::model::views(infos@) + Seq::<ArchiveInfoView>::empty() =~= crate::model::views(infos@));
    }
    Ok(infos)
}

/// A call of the `7z` tool: its arguments, and the directory to run it in
/// where that matters.
#[derive(Debug, PartialEq, Eq)]
pub struct ToolCall {
    pub arguments: Vec<String>,
    pub directory: Option<String>,
}

/// The view of [`ToolCall`]: the same record over mathematical values.
pub struct ToolCallView {
    pub arguments: Seq<Seq<char>>,
    pub directory: Option<Seq<char>>,
}

impl View for ToolCall {
    type V = ToolCallView;

    open spec fn view(&self) -> ToolCallView {
        ToolCallView {
            arguments: crate::model::views(self.arguments@),
            directory: crate::model::text_of(self.directory),
        }
    }
}

fn with_names(front: Vec<String>, file_names: &Vec<String>) -> (arguments: Vec<String>)
    ensures
        crate::model::views(arguments@) == crate::model::views(front@) + crate::model::views(
            file_names@,
        ),
{
    let ghost start = crate::model::views(front@);
    let ghost names = crate::model::views(file_names@);
    let mut arguments = front;
    let mut i: usize = 0;
    assert(start + names.take(0) =~= start);
    while i < file_names.len()
        invariant
            i <= file_names.len(),
            names == crate::model::views(file_names@),
            crate::model::views(arguments@) == start + names.take(i as int),
        decreases file_names.len() - i,
    {
        let ghost before = crate::model::views(arguments@);
        arguments.push(file_names[i].clone());
        assert(crate::model::views(arguments@) =~= before.push(names[i as int]));
        assert(names.take(i + 1) =~= names.take(i as int).push(names[i as int]));
        assert(crate::model::views(arguments@) =~= start + names.take(i + 1));
        i += 1;
    }
    assert(names.take(i as int) == names);
    arguments
}

/// The call that prints the technical listing of an archive.
pub fn list_archive(archive_path: &str) -> (call: ToolCall)
    ensures
        call@ == (ToolCallView {
            arguments: seq![seq!['l'], seq!['-', 's', 'l', 't'], archive_path@],
            directory: None,
        }),
{
    proof {
        reveal_strlit("l");
        reveal_strlit("-slt");
    }
    assert("l"@ =~= seq!['l']);
    assert("-slt"@ =~= seq!['-', 's', 'l', 't']);
    let arguments = vec!["l".to_owned(), "-slt".to_owned(), archive_path.to_owned()];
    assert(crate::model::views(arguments@) =~= seq![
        seq!['l'],
        seq!['-', 's', 'l', 't'],
        archive_path@,
    ]);
    ToolCall { arguments, directory: None }
}

/// The call that gives an entry of an archive another name.
pub fn rename_file_in_archive(archive_path: &str, file_name: &str, new_file_name: &str) -> (call:
    ToolCall)
    ensures
        call@ == (ToolCallView {
            arguments: seq![seq!['r', 'n'], archive_path@, file_name@, new_file_name@],
            directory: None,
        }),
{
    proof {
        reveal_strlit("rn");
    }
    assert("rn"@ =~= seq!['r', 'n']);
    let arguments = vec![
        "rn".to_owned(),
        archive_path.to_owned(),
        file_name.to_owned(),
        new_file_name.to_owned(),
    ];
    assert(crate::model::views(arguments@) =~= seq![
        seq!['r', 'n'],
        archive_path@,
        file_name@,
        new_file_name@,
    ]);
    ToolCall { arguments, directory: None }
}

/// The paths at which entries extracted into a directory are found.
pub open spec fn extracted_paths(directory: Seq<char>, file_names: Seq<Seq<char>>) -> Seq<Seq<char>> {
    Seq::new(file_names.len(), |i: int| crate::path::joined(directory, file_names[i]))
}

/// The call that extracts entries of an archive into a directory, and the
/// paths at which the extracted files are then found, in the order of the
/// names.
pub fn extract_files_from_archive(
    archive_path: &str,
    file_names: &Vec<String>,
    directory: &str,
) -> (extraction: (ToolCall, Vec<String>))
    ensures
        extraction.0@ == (ToolCallView {
            arguments: seq![seq!['x'], archive_path@] + crate::model::views(file_names@),
            directory: Some(directory@),
        }),
        crate::model::views(extraction.1@) == extracted_paths(
            directory@,
            crate::model::views(file_names@),
        ),
{
    proof {
        reveal_strlit("x");
    }
    assert("x"@ =~= seq!['x']);
    let front = vec!["x".to_owned(), archive_path.to_owned()];
    assert(crate::model::views(front@) =~= seq![seq!['x'], archive_path@]);
    let arguments = with_names(front, file_names);
    let mut paths: Vec<String> = Vec::new();
    let mut i: usize = 0;
    while i < file_names.len()
        invariant
            i <= file_names.len(),
            paths.len() == i,
            forall|k: int|
                0 <= k < i ==> (#[trigger] paths@[k])@ == crate::path::joined(
                    directory@,
                    file_names@[k]@,
                ),
        decreases file_names.len() - i,
    {
        paths.push(crate::path::join(directory, file_names[i].as_str()));
        i += 1;
    }
    assert(crate::model::views(paths@) =~= extracted_paths(
        directory@,
        crate::model::views(file_names@),
    ));
    (ToolCall { arguments, directory: Some(directory.to_owned()) }, paths)
}

/// The switches of a call that compresses: the strongest compression, and
/// one solid block where that is asked for.
pub open spec fn compression_switches(solid: bool) -> Seq<Seq<char>> {
    if solid {
        seq![seq!['-', 'm', 'x', '=', '9'], seq!['-', 'm', 's', '=', 'o', 'n']]
    } else {
        seq![seq!['-', 'm', 'x', '=', '9']]
    }
}

/// The call that adds files of a directory to an archive.
pub fn add_files_to_archive(
    archive_path: &str,
    file_names: &Vec<String>,
    directory: &str,
    solid: bool,
) -> (call: ToolCall)
    ensures
        call@ == (ToolCallView {
            arguments: seq![seq!['a'], archive_path@] + crate::model::views(file_names@)
                + compression_switches(solid),
            directory: Some(directory@),
        }),
{
    proof {
        reveal_strlit("a");
        reveal_strlit("-mx=9");
        reveal_strlit("-ms=on");
    }
    assert("a"@ =~= seq!['a']);
    assert("-mx=9"@ =~= seq!['-', 'm', 'x', '=', '9']);
    assert("-ms=on"@ =~= seq!['-', 'm', 's', '=', 'o', 'n']);
    let front = vec!["a".to_owned(), archive_path.to_owned()];
    assert(crate::model::views(front@) =~= seq![seq!['a'], archive_path@]);
    let mut arguments = with_names(front, file_names);
    let ghost named = crate::model::views(arguments@);
    arguments.push("-mx=9".to_owned());
    if solid {
        arguments.push("-ms=on".to_owned());
    }
    assert(crate::model::views(arguments@) =~= named + compression_switches(solid));
    ToolCall { arguments, directory: Some(directory.to_owned()) }
}

/// The call that deletes entries from an archive.
pub fn remove_files_from_archive(archive_path: &str, file_names: &Vec<String>) -> (call: ToolCall)
    ensures
        call@ == (ToolCallView {
            arguments: seq![seq!['d'], archive_path@] + crate::model::views(file_names@),
            directory: None,
        }),
{
    proof {
        reveal_strlit("d");
    }
    assert("d"@ =~= seq!['d']);
    let front = vec!["d".to_owned(), archive_path.to_owned()];
    assert(crate::model::views(front@) =~= seq![seq!['d'], archive_path@]);
    let arguments = with_names(front, file_names);
    ToolCall { arguments, directory: None }
}

} // verus!
