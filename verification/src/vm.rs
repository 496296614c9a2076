//! Images of virtual machines: where an image and its checksums come
//! from, and under which names they are kept.

use crate::system::{Arch, Os};
use crate::text::{chars_of, text_of};
pub mod sums;

use vstd::prelude::*;
use vstd::string::StringExecFns;

verus! {

/// Where an image comes from.
#[derive(Debug, Clone)]
pub enum VmImageRef {
    Qcow2 { url: String },
}

impl VmImageRef {
    /// Where the image is fetched from.
    pub fn to_url(&self) -> (url: &str)
        ensures
            url@ == self->url@,
    {
        match self {
            VmImageRef::Qcow2 { url } => url.as_str(),
        }
    }

    /// The ending of the name under which the image is kept.
    pub fn to_extension(&self) -> (extension: &'static str)
        ensures
            extension@ == "qcow2"@,
    {
        match self {
            VmImageRef::Qcow2 { url: _ } => "qcow2",
        }
    }
}

/// Where the checksums of an image come from, and of which kind they are.
#[derive(Debug, Clone)]
pub enum VmImageHashRef {
    Sha512Sums { url: String },
    Sha256Sums { url: String },
}

impl VmImageHashRef {
    /// Where the checksums are fetched from.
    pub fn to_url(&self) -> (url: &str)
        ensures
            url@ == match *self {
                VmImageHashRef::Sha512Sums { url } => url@,
                VmImageHashRef::Sha256Sums { url } => url@,
            },
    {
        match self {
            VmImageHashRef::Sha512Sums { url } => url.as_str(),
            VmImageHashRef::Sha256Sums { url } => url.as_str(),
        }
    }

    /// The ending of the name under which the checksums are kept.
    pub fn to_extension(&self) -> (extension: &'static str)
        ensures
            extension@ == match *self {
                VmImageHashRef::Sha512Sums { .. } => "sha512sums"@,
                VmImageHashRef::Sha256Sums { .. } => "sha256sums"@,
            },
    {
        match self {
            VmImageHashRef::Sha512Sums { url: _ } => "sha512sums",
            VmImageHashRef::Sha256Sums { url: _ } => "sha256sums",
        }
    }
}

/// The checksums of an image, kept in the file at `path`.
#[derive(Debug, Clone)]
pub enum VmImageHash<'a> {
    Sha512Sums { path: &'a str },
    Sha256Sums { path: &'a str },
}

impl<'a> VmImageHash<'a> {
    /// The checksums of the kind that the reference names, kept at `path`.
    pub fn new(hash_ref: &VmImageHashRef, path: &'a str) -> (hash: Self)
        ensures
            match *hash_ref {
                VmImageHashRef::Sha512Sums { .. } => hash == (VmImageHash::Sha512Sums { path }),
                VmImageHashRef::Sha256Sums { .. } => hash == (VmImageHash::Sha256Sums { path }),
            },
    {
        match hash_ref {
            VmImageHashRef::Sha512Sums { url: _ } => VmImageHash::Sha512Sums { path },
            VmImageHashRef::Sha256Sums { url: _ } => VmImageHash::Sha256Sums { path },
        }
    }

    /// The number of hexadecimal digits of a checksum of the kind.
    pub fn hex_length(&self) -> (length: usize)
        ensures
            length == match *self {
                VmImageHash::Sha512Sums { .. } => 128usize,
                VmImageHash::Sha256Sums { .. } => 64usize,
            },
    {
        match self {
            VmImageHash::Sha512Sums { .. } => Sha512::hex_length(),
            VmImageHash::Sha256Sums { .. } => Sha256::hex_length(),
        }
    }
}

/// Checksums of 256 bits.
pub struct Sha256;

/// Checksums of 512 bits.
pub struct Sha512;

impl Sha256 {
    /// The number of hexadecimal digits of a checksum.
    pub fn hex_length() -> (length: usize)
        ensures
            length == 64,
    {
        64
    }
}

impl Sha512 {
    /// The number of hexadecimal digits of a checksum.
    pub fn hex_length() -> (length: usize)
        ensures
            length == 128,
    {
        128
    }
}

/// An image for an architecture and an operating system.
#[derive(Debug, Clone)]
pub struct VmImageIndex {
    pub arch: Arch,
    pub os: Os,
    pub image: VmImageRef,
    pub hash: VmImageHashRef,
    pub kernel_root: String,
    pub user: String,
}

impl VmImageIndex {
    /// The name of a file for the image with the ending given:
    /// architecture and operating system joined by an underscore.
    pub open spec fn file_name(self, extension: Seq<char>) -> Seq<char> {
        self.arch.label_text() + "_"@ + self.os.spec_label() + "."@ + extension
    }

    /// The name under which the image is kept.
    pub fn to_image_file_name(&self) -> (name: String)
        ensures
            name@ == self.file_name("qcow2"@),
    {
        let mut name = String::from_str(self.arch.label());
        name.append("_");
        name.append(self.os.label().as_str());
        name.append(".");
        name.append(self.image.to_extension());
        name
    }

    /// The name under which the checksums are kept.
    pub fn to_hash_file_name(&self) -> (name: String)
        ensures
            name@ == self.file_name(
                match self.hash {
                    VmImageHashRef::Sha512Sums { .. } => "sha512sums"@,
                    VmImageHashRef::Sha256Sums { .. } => "sha256sums"@,
                },
            ),
    {
        let mut name = String::from_str(self.arch.label());
        name.append("_");
        name.append(self.os.label().as_str());
        name.append(".");
        name.append(self.hash.to_extension());
        name
    }
}

/// Whether the character is white space of ASCII: a blank, a tab, a line
/// feed, a form feed or a carriage return.
pub open spec fn ascii_space(c: char) -> bool {
    c == ' ' || c == '\t' || c == '\n' || c == '\x0C' || c == '\r'
}

/// The place of the first white space from `from` on, or the length.
pub open spec fn space_at(text: Seq<char>, from: int) -> int
    decreases text.len() - from,
{
    if from < 0 || from >= text.len() || ascii_space(text[from]) {
        from
    } else {
        space_at(text, from + 1)
    }
}

/// The place of the first character from `from` on that is no white space, or the length.
pub open spec fn word_at(text: Seq<char>, from: int) -> int
    decreases text.len() - from,
{
    if from < 0 || from >= text.len() || !ascii_space(text[from]) {
        from
    } else {
        word_at(text, from + 1)
    }
}

/// The text cut in two at its first run of white space: what stands
/// before the run and what stands behind it. Nothing where the text holds
/// no white space.
pub fn split_once_whitespace(text: &str) -> (parts: Option<(String, String)>)
    ensures
        match parts {
            Some((left, right)) => space_at(text@, 0) < text@.len() && left@ == text@.subrange(
                0,
                space_at(text@, 0),
            ) && right@ == text@.subrange(
                word_at(text@, space_at(text@, 0)),
                text@.len() as int,
            ),
            None => space_at(text@, 0) >= text@.len(),
        },
{
    let chars = chars_of(text);
    let mut i: usize = 0;
    while i < chars.len() && !is_ascii_space(chars[i])
        invariant
            i <= chars.len(),
            chars@ == text@,
            space_at(chars@, i as int) == space_at(chars@, 0),
        decreases chars.len() - i,
    {
        i += 1;
    }
    if i >= chars.len() {
        return None;
    }
    let mut j: usize = i;
    while j < chars.len() && is_ascii_space(chars[j])
        invariant
            i <= j <= chars.len(),
            chars@ == text@,
            word_at(chars@, j as int) == word_at(chars@, i as int),
        decreases chars.len() - j,
    {
        j += 1;
    }
    Some((text_of(&chars, 0, i), text_of(&chars, j, chars.len())))
}

/// Whether the character is white space of ASCII.
pub(crate) fn is_ascii_space(c: char) -> (yes: bool)
    ensures
        yes == ascii_space(c),
{
    c == ' ' || c == '\t' || c == '\n' || c == '\x0C' || c == '\r'
}

} // verus!
