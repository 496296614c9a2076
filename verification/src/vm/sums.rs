//! Files of checksums: looking up the checksum of an image in a file that
//! lists one checksum and one file name per line, and holding it against
//! the checksum of the image at hand.

use crate::paths::{file_name_of, last_component};
use crate::text::{
    chars_of, copy_chars, find_mark, is_mark, lead_end, next_mark, text_of, trim_chars, trimmed,
};
use crate::vm::{is_ascii_space, space_at, word_at, VmImageHash, VmImageIndex};
use vstd::prelude::*;
use vstd::string::StringExecFns;

verus! {

/// Why the checksum of an image cannot be confirmed.
#[derive(Debug, Clone, PartialEq, Eq)]
pub enum VmImageHashError {
    /// No line of the file names the image.
    HashNotFound { name: String },
    /// The line with the number `line_index`, counted from one, is no
    /// comment and holds no checksum with a name behind it.
    MalformedLine { line_index: usize, line: String },
    /// The file lists another checksum for the image than the image has.
    HashMismatch { name: String, expected: String, actual: String },
}

/// The line that begins at `from`: what stands before the next line feed,
/// without a carriage return that stands right before the line feed.
pub open spec fn line_at(text: Seq<char>, from: int) -> Seq<char> {
    let end = next_mark(text, '\n', from);
    if from < end < text.len() && text[end - 1] == '\r' {
        text.subrange(from, end - 1)
    } else {
        text.subrange(from, end)
    }
}

/// The lines of a text from `from` on. A line feed ends a line; what
/// stands behind the last line feed is a line if it is not empty.
pub open spec fn lines_from(text: Seq<char>, from: int) -> Seq<Seq<char>>
    decreases text.len() - from,
{
    if from < 0 || from >= text.len() {
        Seq::empty()
    } else {
        let next = next_mark(text, '\n', from) + 1;
        if next <= from {
            Seq::empty()
        } else if next > text.len() {
            seq![line_at(text, from)]
        } else {
            seq![line_at(text, from)] + lines_from(text, next)
        }
    }
}

/// Whether the character is a hexadecimal digit of ASCII.
pub open spec fn hex_digit(c: char) -> bool {
    ('0' <= c <= '9') || ('a' <= c <= 'f') || ('A' <= c <= 'F')
}

/// The hexadecimal digit as a small letter; every other character as it is.
pub open spec fn lower_hex(c: char) -> char {
    if c == 'A' {
        'a'
    } else if c == 'B' {
        'b'
    } else if c == 'C' {
        'c'
    } else if c == 'D' {
        'd'
    } else if c == 'E' {
        'e'
    } else if c == 'F' {
        'f'
    } else {
        c
    }
}

/// Every character is a hexadecimal digit.
pub open spec fn all_hex(text: Seq<char>) -> bool {
    forall|i: int| 0 <= i < text.len() ==> hex_digit(#[trigger] text[i])
}

/// The text with its hexadecimal digits as small letters.
pub open spec fn lowered(text: Seq<char>) -> Seq<char> {
    Seq::new(text.len(), |i: int| lower_hex(text[i]))
}

/// What a line of a file of checksums holds.
pub ghost enum LineShape {
    /// Nothing: the line is blank or a comment.
    Skipped,
    /// Something that is no checksum with a name behind it.
    Malformed,
    /// A checksum, in small letters, and the name of the file it is of.
    Entry { hash: Seq<char>, name: Seq<char> },
}

/// What a line holds. White space around the line does not count. A line
/// that is empty or begins with `#` holds nothing. Every other line holds
/// a checksum of `hex_length` hexadecimal digits, then white space, then a
/// name, before which asterisks may stand.
pub open spec fn line_shape(raw: Seq<char>, hex_length: int) -> LineShape {
    let line = trimmed(raw);
    let cut = space_at(line, 0);
    if line.len() == 0 || line[0] == '#' {
        LineShape::Skipped
    } else if cut >= line.len() {
        LineShape::Malformed
    } else {
        let hash = line.subrange(0, cut);
        let rest = line.subrange(word_at(line, cut), line.len() as int);
        if hash.len() != hex_length || !all_hex(hash) {
            LineShape::Malformed
        } else {
            LineShape::Entry {
                hash: lowered(hash),
                name: rest.subrange(lead_end(rest, is_mark('*'), 0), rest.len() as int),
            }
        }
    }
}

/// What a line of a file of checksums holds.
#[derive(Debug, Clone, PartialEq, Eq)]
pub enum SumLine {
    /// Nothing: the line is blank or a comment.
    Skipped,
    /// Something that is no checksum with a name behind it.
    Malformed,
    /// A checksum, in small letters, and the name of the file it is of.
    Entry { hash: String, name: String },
}

impl View for SumLine {
    type V = LineShape;

    open spec fn view(&self) -> LineShape {
        match self {
            SumLine::Skipped => LineShape::Skipped,
            SumLine::Malformed => LineShape::Malformed,
            SumLine::Entry { hash, name } => LineShape::Entry { hash: hash@, name: name@ },
        }
    }
}

/// Whether the character is a hexadecimal digit of ASCII.
fn is_hex_digit(c: char) -> (yes: bool)
    ensures
        yes == hex_digit(c),
{
    ('0' <= c && c <= '9') || ('a' <= c && c <= 'f') || ('A' <= c && c <= 'F')
}

/// The hexadecimal digit as a small letter.
fn to_lower_hex(c: char) -> (small: char)
    ensures
        small == lower_hex(c),
{
    if c == 'A' {
        'a'
    } else if c == 'B' {
        'b'
    } else if c == 'C' {
        'c'
    } else if c == 'D' {
        'd'
    } else if c == 'E' {
        'e'
    } else if c == 'F' {
        'f'
    } else {
        c
    }
}

/// Reads the characters of one line of a file of checksums.
pub fn read_sum_line(raw: &Vec<char>, hex_length: usize) -> (held: SumLine)
    ensures
        held@ == line_shape(raw@, hex_length as int),
{
    let line = trim_chars(raw);
    if line.len() == 0 || line[0] == '#' {
        return SumLine::Skipped;
    }
    let mut cut: usize = 0;
    while cut < line.len() && !is_ascii_space(line[cut])
        invariant
            cut <= line.len(),
            space_at(line@, cut as int) == space_at(line@, 0),
        decreases line.len() - cut,
    {
        cut += 1;
    }
    if cut >= line.len() {
        return SumLine::Malformed;
    }
    let mut word: usize = cut;
    while word < line.len() && is_ascii_space(line[word])
        invariant
            cut <= word <= line.len(),
            word_at(line@, word as int) == word_at(line@, cut as int),
        decreases line.len() - word,
    {
        word += 1;
    }
    let ghost hash_text = line@.subrange(0, cut as int);
    let ghost rest = line@.subrange(word as int, line.len() as int);
    if cut != hex_length {
        return SumLine::Malformed;
    }
    let mut hash = String::new();
    let mut i: usize = 0;
    while i < cut
        invariant
            i <= cut < line.len(),
            line@ == trimmed(raw@),
            line[0] != '#',
            cut == space_at(line@, 0),
            cut == hex_length,
            hash_text == line@.subrange(0, cut as int),
            forall|j: int| 0 <= j < i ==> hex_digit(#[trigger] hash_text[j]),
            hash@ == lowered(hash_text.subrange(0, i as int)),
        decreases cut - i,
    {
        let c = line[i];
        assert(hash_text[i as int] == c);
        if !is_hex_digit(c) {
            assert(!all_hex(hash_text));
            return SumLine::Malformed;
        }
        let ghost before = hash@;
        crate::text::push_char(&mut hash, to_lower_hex(c));
        assert(hash@ =~= lowered(hash_text.subrange(0, i + 1)));
        i += 1;
    }
    assert(hash_text.subrange(0, cut as int) =~= hash_text);
    assert(all_hex(hash_text));
    let mut star: usize = word;
    while star < line.len() && line[star] == '*'
        invariant
            word <= star <= line.len(),
            cut < line.len(),
            line@ == trimmed(raw@),
            line[0] != '#',
            cut == space_at(line@, 0),
            cut == hex_length,
            word == word_at(line@, cut as int),
            hash_text == line@.subrange(0, cut as int),
            all_hex(hash_text),
            hash@ == lowered(hash_text),
            rest == line@.subrange(word as int, line.len() as int),
            lead_end(rest, is_mark('*'), star - word) == lead_end(rest, is_mark('*'), 0),
        decreases line.len() - star,
    {
        assert(rest[star - word] == line[star as int]);
        star += 1;
    }
    proof {
        if star < line.len() {
            assert(rest[star - word] == line[star as int]);
        }
        assert(lead_end(rest, is_mark('*'), 0) == star - word);
    }
    let name = text_of(&line, star, line.len());
    assert(name@ =~= rest.subrange(star - word, rest.len() as int));
    SumLine::Entry { hash, name }
}

/// Whether a listed name names the image: its last component does, as
/// `base` gives it, or the listed name itself where it has no last
/// component.
pub open spec fn names_image(listed: Seq<char>, base: Option<Seq<char>>, image: Seq<char>) -> bool {
    match base {
        Some(base) => base == image,
        None => listed == image,
    }
}

/// Whether the listed name, with `base` as its last component, names the image.
pub fn is_image_name(listed: &String, base: &Option<String>, image_name: &String) -> (same: bool)
    ensures
        same == names_image(
            listed@,
            match *base {
                Some(base) => Some(base@),
                None => None,
            },
            image_name@,
        ),
{
    match base {
        Some(base) => *base == *image_name,
        None => *listed == *image_name,
    }
}

/// Whether the line lists the image: it holds a checksum, and the last
/// component of the name behind it, or the name itself where it has no
/// last component, is the name of the image.
pub open spec fn line_names(raw: Seq<char>, hex_length: int, image: Seq<char>) -> bool {
    line_shape(raw, hex_length) matches LineShape::Entry { name, .. } && names_image(
        name,
        last_component(name),
        image,
    )
}

/// Whether the search goes on behind the line: the line is not
/// malformed and does not list the image.
pub open spec fn passed_by(raw: Seq<char>, hex_length: int, image: Seq<char>) -> bool {
    !(line_shape(raw, hex_length) is Malformed) && !line_names(raw, hex_length, image)
}

/// What looking for the image with the name `image` in a file of
/// checksums yields: the checksum of the first line that lists the image,
/// or the first malformed line with its number, counted from one,
/// whichever comes first, or nothing where no line is either.
pub open spec fn looked_up(
    sums: Seq<char>,
    image: Seq<char>,
    hex_length: int,
    found: Result<String, VmImageHashError>,
) -> bool {
    let lines = lines_from(sums, 0);
    match found {
        Ok(hash) => exists|at: int|
            0 <= at < lines.len() && line_names(#[trigger] lines[at], hex_length, image)
                && line_shape(lines[at], hex_length)->hash == hash@ && forall|j: int|
                0 <= j < at ==> passed_by(#[trigger] lines[j], hex_length, image),
        Err(VmImageHashError::MalformedLine { line_index, line }) => {
            &&& 1 <= line_index <= lines.len()
            &&& line_shape(lines[line_index - 1], hex_length) is Malformed
            &&& line@ == lines[line_index - 1]
            &&& forall|j: int|
                0 <= j < line_index - 1 ==> passed_by(#[trigger] lines[j], hex_length, image)
        },
        Err(VmImageHashError::HashNotFound { name }) => {
            &&& name@ == image
            &&& forall|j: int|
                0 <= j < lines.len() ==> passed_by(#[trigger] lines[j], hex_length, image)
        },
        Err(VmImageHashError::HashMismatch { .. }) => false,
    }
}

/// Finds the checksum of the image with the name `image_name` in the
/// text of a file of checksums. The lines are read in order, and the
/// first line that lists the image gives the checksum. A malformed line
/// before it is an error.
pub fn lookup_sum(sums: &str, image_name: &str, hex_length: usize) -> (found: Result<
    String,
    VmImageHashError,
>)
    ensures
        looked_up(sums@, image_name@, hex_length as int, found),
{
    let chars = chars_of(sums);
    let wanted = String::from_str(image_name);
    let ghost lines = lines_from(sums@, 0);
    let mut from: usize = 0;
    let mut count: usize = 0;
    while from < chars.len()
        invariant
            from <= chars.len(),
            chars@ == sums@,
            wanted@ == image_name@,
            lines == lines_from(sums@, 0),
            count <= from,
            count <= lines.len(),
            lines.subrange(count as int, lines.len() as int) == lines_from(sums@, from as int),
            forall|j: int|
                0 <= j < count ==> passed_by(#[trigger] lines[j], hex_length as int, image_name@),
        decreases chars.len() - from,
    {
        let end = find_mark(&chars, '\n', from);
        let stop = if from < end && end < chars.len() && chars[end - 1] == '\r' {
            end - 1
        } else {
            end
        };
        let raw = copy_chars(&chars, from, stop);
        proof {
            assert(raw@ == line_at(sums@, from as int));
            assert(lines_from(sums@, from as int) == seq![line_at(sums@, from as int)] + lines_from(
                sums@,
                end + 1,
            ));
            assert(lines[count as int] == lines.subrange(count as int, lines.len() as int)[0]);
            assert(lines[count as int] == raw@);
            assert(lines.subrange(count as int + 1, lines.len() as int) =~= lines.subrange(
                count as int,
                lines.len() as int,
            ).drop_first());
            assert(lines_from(sums@, from as int).drop_first() =~= lines_from(sums@, end + 1));
        }
        match read_sum_line(&raw, hex_length) {
            SumLine::Skipped => {},
            SumLine::Malformed => {
                let line = text_of(&raw, 0, raw.len());
                assert(line@ =~= raw@);
                return Err(VmImageHashError::MalformedLine { line_index: count + 1, line });
            },
            SumLine::Entry { hash, name } => {
                let base = file_name_of(name.as_str());
                if is_image_name(&name, &base, &wanted) {
                    return Ok(hash);
                }
            },
        }
        count += 1;
        if end >= chars.len() {
            proof {
                assert(lines_from(sums@, end + 1) =~= Seq::empty());
            }
            from = chars.len();
        } else {
            from = end + 1;
        }
    }
    proof {
        assert(lines_from(sums@, from as int) =~= Seq::empty());
        assert(count == lines.len());
    }
    Err(VmImageHashError::HashNotFound { name: wanted })
}

/// Where the last piece of a text begins that slashes cut: behind the
/// last slash among the first `upto` characters, or at the beginning.
pub open spec fn piece_start(text: Seq<char>, upto: int) -> int
    decreases upto,
{
    if upto <= 0 {
        0
    } else if text[upto - 1] == '/' {
        upto
    } else {
        piece_start(text, upto - 1)
    }
}

/// The name of the file that an address names: what stands behind its
/// last slash, or all of it where it has no slash.
pub open spec fn file_name_in(url: Seq<char>) -> Seq<char> {
    url.subrange(piece_start(url, url.len() as int), url.len() as int)
}

/// The name of the file that an address names.
pub fn image_file_name(url: &str) -> (name: String)
    ensures
        name@ == file_name_in(url@),
{
    let chars = chars_of(url);
    let mut start: usize = chars.len();
    while start > 0 && chars[start - 1] != '/'
        invariant
            start <= chars.len(),
            piece_start(chars@, start as int) == piece_start(chars@, chars.len() as int),
        decreases start,
    {
        start -= 1;
    }
    text_of(&chars, start, chars.len())
}

/// The letter of ASCII as a small letter; every other character as it is.
pub open spec fn lower_letter(c: char) -> char {
    if 'A' <= c <= 'Z' {
        ((c as u8 + 32) as u8) as char
    } else {
        c
    }
}

/// Whether both texts are the same where capital and small letters of
/// ASCII count as the same.
pub open spec fn same_but_case(one: Seq<char>, other: Seq<char>) -> bool {
    &&& one.len() == other.len()
    &&& forall|i: int| 0 <= i < one.len() ==> lower_letter(#[trigger] one[i]) == lower_letter(other[i])
}

/// The letter of ASCII as a small letter.
fn to_lower_letter(c: char) -> (small: char)
    ensures
        small == lower_letter(c),
{
    if 'A' <= c && c <= 'Z' {
        ((c as u8) + 32) as char
    } else {
        c
    }
}

/// Whether both texts are the same where capital and small letters of
/// ASCII count as the same.
pub fn equals_ignoring_case(one: &str, other: &str) -> (same: bool)
    ensures
        same == same_but_case(one@, other@),
{
    let a = chars_of(one);
    let b = chars_of(other);
    if a.len() != b.len() {
        return false;
    }
    let mut i: usize = 0;
    while i < a.len()
        invariant
            i <= a.len(),
            a.len() == b.len(),
            a@ == one@,
            b@ == other@,
            forall|j: int| 0 <= j < i ==> lower_letter(#[trigger] a[j]) == lower_letter(b[j]),
        decreases a.len() - i,
    {
        if to_lower_letter(a[i]) != to_lower_letter(b[i]) {
            return false;
        }
        i += 1;
    }
    true
}

/// Holds the checksum that a file lists for an image against the
/// checksum of the image at hand: they have to be the same, capital and
/// small letters counting as the same.
pub fn confirm_sum(name: String, expected: String, actual: &str) -> (valid: Result<
    (),
    VmImageHashError,
>)
    ensures
        match valid {
            Ok(()) => same_but_case(expected@, actual@),
            Err(VmImageHashError::HashMismatch { name: of, expected: listed, actual: found }) => {
                &&& !same_but_case(expected@, actual@)
                &&& of == name
                &&& listed == expected
                &&& found@ == actual@
            },
            Err(_) => false,
        },
{
    if equals_ignoring_case(expected.as_str(), actual) {
        Ok(())
    } else {
        Err(VmImageHashError::HashMismatch { name, expected, actual: String::from_str(actual) })
    }
}

impl<'a> VmImageHash<'a> {
    /// The number of hexadecimal digits of a checksum of the kind.
    pub open spec fn digits(self) -> int {
        match self {
            VmImageHash::Sha512Sums { .. } => 128,
            VmImageHash::Sha256Sums { .. } => 64,
        }
    }

    /// Holds the checksum of an image against the file of checksums:
    /// `sums` is the text of the file and `actual` the checksum of the
    /// image at hand. The file has to list the name of the image, which is
    /// the last piece of its address, with the same checksum.
    pub fn validate_sums(&self, image_index: &VmImageIndex, sums: &str, actual: &str) -> (valid:
        Result<(), VmImageHashError>)
        ensures
            match valid {
                Ok(()) => exists|expected: String| #[trigger]
                    looked_up(
                        sums@,
                        file_name_in(image_index.image->url@),
                        self.digits(),
                        Ok(expected),
                    ) && same_but_case(expected@, actual@),
                Err(VmImageHashError::HashMismatch { name, expected, actual: found }) => {
                    &&& name@ == file_name_in(image_index.image->url@)
                    &&& found@ == actual@
                    &&& !same_but_case(expected@, actual@)
                    &&& looked_up(
                        sums@,
                        file_name_in(image_index.image->url@),
                        self.digits(),
                        Ok(expected),
                    )
                },
                Err(error) => looked_up(
                    sums@,
                    file_name_in(image_index.image->url@),
                    self.digits(),
                    Err(error),
                ),
            },
    {
        let name = image_file_name(image_index.image.to_url());
        match lookup_sum(sums, name.as_str(), self.hex_length()) {
            Ok(expected) => {
                let ghost listed = expected;
                let valid = confirm_sum(name, expected, actual);
                proof {
                    assert(looked_up(
                        sums@,
                        file_name_in(image_index.image->url@),
                        self.digits(),
                        Ok(listed),
                    ));
                }
                valid
            },
            Err(error) => Err(error),
        }
    }
}

} // verus!
