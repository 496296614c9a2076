//! What is known of the host: its architecture, its operating system and
//! the user that runs the engine.

use crate::text::{chars_of, field_span, find_field, spells, write_number, written};
use vstd::prelude::*;
use vstd::string::StringExecFns;

verus! {

/// The architecture of the processor.
#[derive(Debug, Clone, Copy, PartialEq, Eq, PartialOrd, Ord, Hash, Structural)]
pub enum Arch {
    X86_64,
    Aarch64,
}

impl Arch {
    /// The name of the architecture.
    pub open spec fn label_text(self) -> Seq<char> {
        match self {
            Arch::X86_64 => "x86-64"@,
            Arch::Aarch64 => "aarch64"@,
        }
    }

    /// The name of the architecture.
    pub fn label(&self) -> (name: &'static str)
        ensures
            name@ == self.label_text(),
    {
        match self {
            Arch::X86_64 => "x86-64",
            Arch::Aarch64 => "aarch64",
        }
    }

    /// The architecture with the name that the standard library gives to
    /// the architecture of the build, if it is one that the engine knows.
    pub fn from_name(name: &str) -> (arch: Option<Arch>)
        ensures
            arch == if name@ == "x86_64"@ {
                Some(Arch::X86_64)
            } else if name@ == "aarch64"@ {
                Some(Arch::Aarch64)
            } else {
                None
            },
    {
        let chars = chars_of(name);
        if spells(&chars, 0, chars.len(), "x86_64") {
            assert(chars@.subrange(0, chars.len() as int) =~= chars@);
            Some(Arch::X86_64)
        } else if spells(&chars, 0, chars.len(), "aarch64") {
            assert(chars@.subrange(0, chars.len() as int) =~= chars@);
            Some(Arch::Aarch64)
        } else {
            assert(chars@.subrange(0, chars.len() as int) =~= chars@);
            None
        }
    }
}

/// The width of the words of an architecture.
#[derive(Debug, Clone, Copy, PartialEq, Eq, PartialOrd, Ord, Hash, Structural)]
pub enum Bitness {
    X64,
}

impl Bitness {
    /// The name of the width.
    pub fn label(&self) -> (name: &'static str)
        ensures
            name@ == "64-bit"@,
    {
        "64-bit"
    }

    /// The width of the words of the architecture.
    pub fn of(arch: Arch) -> (bitness: Bitness)
        ensures
            bitness == Bitness::X64,
    {
        match arch {
            Arch::X86_64 => Bitness::X64,
            Arch::Aarch64 => Bitness::X64,
        }
    }
}

/// A distribution of Linux.
#[derive(Debug, Clone, PartialEq, Eq, PartialOrd, Ord, Hash)]
pub enum Linux {
    Ubuntu { version: String },
    Debian { version: u8 },
    Arch,
}

/// An operating system.
#[derive(Debug, Clone, PartialEq, Eq, PartialOrd, Ord, Hash)]
pub enum Os {
    Linux(Linux),
}

/// Why the distribution is not known.
#[derive(Debug, Clone)]
pub enum GetLinuxError {
    MissingVersionField,
    InvalidUbuntuVersion { version_id: String, error: String },
    InvalidDebianVersion { version_id: String },
    UnknownLinux { id: String },
}

/// The user that runs the engine.
#[derive(Debug, Clone, PartialEq, Eq, PartialOrd, Ord, Hash)]
pub struct User {
    pub name: String,
    pub home: String,
}

/// Why the user is not known.
#[derive(Debug, Clone, Copy, PartialEq, Eq)]
pub enum GetUserError {
    MissingUser,
    MissingHome,
}

/// What is known of the host.
#[derive(Debug, Clone, PartialEq, Eq, PartialOrd, Ord, Hash)]
pub struct System {
    pub hostname: String,
    pub arch: Arch,
    pub os: Os,
    pub user: User,
}

impl User {
    /// The user with the name and home that the environment gives.
    pub fn from_environment(name: Option<String>, home: Option<String>) -> (user: Result<
        User,
        GetUserError,
    >)
        ensures
            user == match (name, home) {
                (None, _) => Err::<User, GetUserError>(GetUserError::MissingUser),
                (Some(_), None) => Err(GetUserError::MissingHome),
                (Some(name), Some(home)) => Ok(User { name, home }),
            },
    {
        match name {
            None => Err(GetUserError::MissingUser),
            Some(name) => match home {
                None => Err(GetUserError::MissingHome),
                Some(home) => Ok(User { name, home }),
            },
        }
    }
}

/// The character is one of the digits `0` to `9`.
pub open spec fn digit(c: char) -> bool {
    '0' <= c <= '9'
}

/// The number that the digit stands for.
pub open spec fn digit_value(c: char) -> int {
    c as int - '0' as int
}

/// The text is a version of Ubuntu: two digits for the year, a dot, and
/// two digits for a month from 01 to 12.
pub open spec fn ubuntu_version(text: Seq<char>) -> bool {
    &&& text.len() == 5
    &&& digit(text[0])
    &&& digit(text[1])
    &&& text[2] == '.'
    &&& digit(text[3])
    &&& digit(text[4])
    &&& 1 <= 10 * digit_value(text[3]) + digit_value(text[4]) <= 12
}

/// The text is cut by dots into exactly two parts.
pub open spec fn two_parts(text: Seq<char>) -> bool {
    field_span(text, '.', 0, 1) is Some && field_span(text, '.', 0, 2) is None
}

/// Whether the character is a digit.
fn is_digit(c: char) -> (yes: bool)
    ensures
        yes == digit(c),
{
    '0' <= c && c <= '9'
}

/// The number that a digit stands for.
fn value_of(c: char) -> (value: u8)
    requires
        digit(c),
    ensures
        value == digit_value(c),
{
    (c as u32 - '0' as u32) as u8
}

/// Holds a text against the form of a version of Ubuntu. The error says
/// what was expected: two parts, or two digits each with a month from 01 to 12.
pub fn validate_ubuntu_version(text: &str) -> (valid: Result<(), String>)
    ensures
        valid is Ok <==> ubuntu_version(text@),
        valid matches Err(error) ==> error@ == if two_parts(text@) {
            "invalid Ubuntu version (expected YY.MM, with 01-12 for MM)"@
        } else {
            "Ubuntu: expected YY.MM"@
        },
{
    let chars = chars_of(text);
    let first = find_field(&chars, '.', 0, 0);
    let second = find_field(&chars, '.', 0, 1);
    let third = find_field(&chars, '.', 0, 2);
    let (year, month) = match (first, second, third) {
        (Some(year), Some(month), None) => (year, month),
        _ => {
            proof {
                lemma_version_has_two_parts(text@);
            }
            return Err(String::from_str("Ubuntu: expected YY.MM"));
        },
    };
    proof {
        lemma_version_has_two_parts(text@);
        lemma_two_parts_spans(text@);
    }
    let year_ok = year.1 - year.0 == 2 && is_digit(chars[year.0]) && is_digit(chars[year.0 + 1]);
    let month_ok = month.1 - month.0 == 2 && is_digit(chars[month.0]) && is_digit(
        chars[month.0 + 1],
    ) && {
        let number = 10 * value_of(chars[month.0]) + value_of(chars[month.0 + 1]);
        1 <= number && number <= 12
    };
    if year_ok && month_ok {
        Ok(())
    } else {
        Err(String::from_str("invalid Ubuntu version (expected YY.MM, with 01-12 for MM)"))
    }
}

/// A version of Ubuntu is cut by its dot into two parts.
proof fn lemma_version_has_two_parts(text: Seq<char>)
    ensures
        ubuntu_version(text) ==> two_parts(text),
{
    if ubuntu_version(text) {
        lemma_two_parts_of_version(text);
    }
}

/// A version of Ubuntu is cut by its dot into two parts of two characters.
proof fn lemma_two_parts_of_version(text: Seq<char>)
    requires
        ubuntu_version(text),
    ensures
        two_parts(text),
        field_span(text, '.', 0, 0) == Some((0int, 2int)),
        field_span(text, '.', 0, 1) == Some((3int, 5int)),
{
    reveal_with_fuel(crate::text::next_mark, 4);
    reveal_with_fuel(crate::text::field_span, 4);
    assert(crate::text::next_mark(text, '.', 0) == 2);
    assert(crate::text::next_mark(text, '.', 3) == 5);
}

/// Where a text has exactly two parts, the first ends at the first dot and
/// the second runs from there to the end.
proof fn lemma_two_parts_spans(text: Seq<char>)
    requires
        two_parts(text),
    ensures
        ({
            let dot = crate::text::next_mark(text, '.', 0);
            &&& dot < text.len()
            &&& text[dot] == '.'
            &&& field_span(text, '.', 0, 0) == Some((0int, dot))
            &&& field_span(text, '.', 0, 1) == Some((dot + 1, text.len() as int))
            &&& forall|i: int| 0 <= i < text.len() && i != dot ==> text[i] != '.'
        }),
{
    reveal_with_fuel(crate::text::field_span, 4);
    let dot = crate::text::next_mark(text, '.', 0);
    lemma_next_mark(text, '.', 0);
    lemma_next_mark(text, '.', dot + 1);
}

/// No mark stands between a place and the next mark; at the next mark, if
/// it lies within the text, stands a mark.
pub proof fn lemma_next_mark(text: Seq<char>, mark: char, from: int)
    requires
        0 <= from,
    ensures
        from <= text.len() ==> from <= crate::text::next_mark(text, mark, from) <= text.len(),
        crate::text::next_mark(text, mark, from) < text.len() ==> text[crate::text::next_mark(
            text,
            mark,
            from,
        )] == mark,
        forall|i: int| from <= i < crate::text::next_mark(text, mark, from) ==> text[i] != mark,
    decreases text.len() - from,
{
    if from < text.len() && text[from] != mark {
        lemma_next_mark(text, mark, from + 1);
    }
}

/// The text without a plus sign in front.
pub open spec fn signless(text: Seq<char>) -> Seq<char> {
    if text.len() > 0 && text[0] == '+' {
        text.subrange(1, text.len() as int)
    } else {
        text
    }
}

/// Every character is a digit.
pub open spec fn all_digits(digits: Seq<char>) -> bool {
    forall|i: int| 0 <= i < digits.len() ==> digit(#[trigger] digits[i])
}

/// The number that the text writes in decimal digits, if it writes one
/// that a byte holds. A plus sign may stand in front.
pub open spec fn byte_of(text: Seq<char>) -> Option<u8> {
    let digits = signless(text);
    if digits.len() > 0 && all_digits(digits) && decimal(digits, digits.len() as int) <= u8::MAX {
        Some(decimal(digits, digits.len() as int) as u8)
    } else {
        None
    }
}

/// The number that the first `upto` digits write.
pub open spec fn decimal(digits: Seq<char>, upto: int) -> int
    decreases upto,
{
    if upto <= 0 {
        0
    } else {
        10 * decimal(digits, upto - 1) + digit_value(digits[upto - 1])
    }
}

/// The number grows with every digit.
pub proof fn lemma_decimal_grows(digits: Seq<char>, upto: int, later: int)
    requires
        0 <= upto <= later <= digits.len(),
        forall|i: int| 0 <= i < digits.len() ==> digit(digits[i]),
    ensures
        0 <= decimal(digits, upto) <= decimal(digits, later),
    decreases later - upto,
{
    if upto < later {
        lemma_decimal_grows(digits, upto, later - 1);
        assert(digit(digits[later - 1]));
    } else {
        lemma_decimal_positive(digits, upto);
    }
}

/// The number that digits write is not negative.
pub proof fn lemma_decimal_positive(digits: Seq<char>, upto: int)
    requires
        0 <= upto <= digits.len(),
        forall|i: int| 0 <= i < digits.len() ==> digit(digits[i]),
    ensures
        0 <= decimal(digits, upto),
    decreases upto,
{
    if upto > 0 {
        lemma_decimal_positive(digits, upto - 1);
        assert(digit(digits[upto - 1]));
    }
}

/// Reads a number that a byte holds.
pub fn parse_byte(text: &str) -> (number: Option<u8>)
    ensures
        number == byte_of(text@),
{
    let chars = chars_of(text);
    let start: usize = if chars.len() > 0 && chars[0] == '+' {
        1
    } else {
        0
    };
    let ghost digits = chars@.subrange(start as int, chars.len() as int);
    assert(digits =~= signless(text@));
    if start >= chars.len() {
        return None;
    }
    let mut total: u16 = 0;
    let mut i: usize = start;
    while i < chars.len()
        invariant
            start <= i <= chars.len(),
            start < chars.len(),
            digits == signless(text@),
            digits == chars@.subrange(start as int, chars.len() as int),
            chars@ == text@,
            forall|j: int| 0 <= j < i - start ==> digit(#[trigger] digits[j]),
            total == decimal(digits, i - start),
            total <= u8::MAX,
        decreases chars.len() - i,
    {
        if !is_digit(chars[i]) {
            proof {
                assert(digits[i - start] == chars[i as int]);
                assert(!all_digits(digits));
            }
            return None;
        }
        let next = 10 * total + value_of(chars[i]) as u16;
        assert(digits[i - start] == chars[i as int]);
        assert(next == decimal(digits, i - start + 1));
        if next > 255 {
            proof {
                if all_digits(digits) {
                    lemma_decimal_grows(digits, i - start + 1, digits.len() as int);
                }
            }
            return None;
        }
        total = next;
        i += 1;
    }
    Some(total as u8)
}

/// The distribution that the operating system tells of itself: its
/// identifier and, where it has one, its version.
pub open spec fn told_linux(id: Seq<char>, version_id: Option<Seq<char>>) -> Result<
    LinuxShape,
    LinuxFault,
> {
    if id == "ubuntu"@ {
        match version_id {
            None => Err(LinuxFault::MissingVersion),
            Some(version) => if ubuntu_version(version) {
                Ok(LinuxShape::Ubuntu(version))
            } else {
                Err(LinuxFault::InvalidUbuntu)
            },
        }
    } else if id == "debian"@ {
        match version_id {
            None => Err(LinuxFault::MissingVersion),
            Some(version) => match byte_of(version) {
                Some(number) => Ok(LinuxShape::Debian(number)),
                None => Err(LinuxFault::InvalidDebian),
            },
        }
    } else if id == "arch"@ {
        Ok(LinuxShape::Arch)
    } else {
        Err(LinuxFault::Unknown)
    }
}

/// The mathematical shape of a [`Linux`].
pub ghost enum LinuxShape {
    Ubuntu(Seq<char>),
    Debian(u8),
    Arch,
}

/// Why a distribution is not known, as a kind.
pub ghost enum LinuxFault {
    MissingVersion,
    InvalidUbuntu,
    InvalidDebian,
    Unknown,
}

impl View for Linux {
    type V = LinuxShape;

    open spec fn view(&self) -> LinuxShape {
        match self {
            Linux::Ubuntu { version } => LinuxShape::Ubuntu(version@),
            Linux::Debian { version } => LinuxShape::Debian(*version),
            Linux::Arch => LinuxShape::Arch,
        }
    }
}

impl GetLinuxError {
    /// The kind of the error.
    pub open spec fn fault(self) -> LinuxFault {
        match self {
            GetLinuxError::MissingVersionField => LinuxFault::MissingVersion,
            GetLinuxError::InvalidUbuntuVersion { .. } => LinuxFault::InvalidUbuntu,
            GetLinuxError::InvalidDebianVersion { .. } => LinuxFault::InvalidDebian,
            GetLinuxError::UnknownLinux { .. } => LinuxFault::Unknown,
        }
    }
}

impl Linux {
    /// The distribution that the operating system tells of itself.
    pub fn from_os_release(id: &str, version_id: Option<&str>) -> (linux: Result<
        Linux,
        GetLinuxError,
    >)
        ensures
            match linux {
                Ok(linux) => told_linux(
                    id@,
                    match version_id {
                        Some(version) => Some(version@),
                        None => None,
                    },
                ) == Ok::<LinuxShape, LinuxFault>(linux@),
                Err(error) => told_linux(
                    id@,
                    match version_id {
                        Some(version) => Some(version@),
                        None => None,
                    },
                ) == Err::<LinuxShape, LinuxFault>(error.fault()),
            },
    {
        let chars = chars_of(id);
        assert(chars@.subrange(0, chars.len() as int) =~= chars@);
        if spells(&chars, 0, chars.len(), "ubuntu") {
            match version_id {
                None => Err(GetLinuxError::MissingVersionField),
                Some(version) => match validate_ubuntu_version(version) {
                    Ok(()) => Ok(Linux::Ubuntu { version: String::from_str(version) }),
                    Err(error) => Err(
                        GetLinuxError::InvalidUbuntuVersion {
                            version_id: String::from_str(version),
                            error,
                        },
                    ),
                },
            }
        } else if spells(&chars, 0, chars.len(), "debian") {
            match version_id {
                None => Err(GetLinuxError::MissingVersionField),
                Some(version) => match parse_byte(version) {
                    Some(number) => Ok(Linux::Debian { version: number }),
                    None => Err(
                        GetLinuxError::InvalidDebianVersion { version_id: String::from_str(version) },
                    ),
                },
            }
        } else if spells(&chars, 0, chars.len(), "arch") {
            Ok(Linux::Arch)
        } else {
            Err(GetLinuxError::UnknownLinux { id: String::from_str(id) })
        }
    }
}

} // verus!

verus! {

impl Linux {
    /// What the value shows as text.
    pub open spec fn spec_label(self) -> Seq<char> {
        match self {
            Linux::Ubuntu { version } => "ubuntu-"@ + version@,
            Linux::Debian { version } => "debian-"@ + written(version as nat, 10),
            Linux::Arch => "arch"@,
        }
    }

    /// What the value shows as text.
    pub fn label(&self) -> (text: String)
        ensures
            text@ == self.spec_label(),
    {
        let mut text = String::new();
        match self {
            Linux::Ubuntu { version } => {
                text.append("ubuntu-");
                text.append(version.as_str());
            },
            Linux::Debian { version } => {
                text.append("debian-");
                text.append(write_number(*version as u64, 10).as_str());
            },
            Linux::Arch => {
                text.append("arch");
            },
        }
        text
    }
}

} // verus!

verus! {

impl Os {
    /// What the value shows as text.
    pub open spec fn spec_label(self) -> Seq<char> {
        match self {
            Os::Linux(linux) => "linux-"@ + linux.spec_label(),
        }
    }

    /// What the value shows as text.
    pub fn label(&self) -> (text: String)
        ensures
            text@ == self.spec_label(),
    {
        let mut text = String::new();
        match self {
            Os::Linux(linux) => {
                text.append("linux-");
                text.append(linux.label().as_str());
            },
        }
        text
    }
}

} // verus!
