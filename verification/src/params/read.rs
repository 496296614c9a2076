//! Reading single parameters out of the values of a plan item: a text, a
//! list of texts, a flag or a number under a name.

use crate::params::value::{Spanned, Value};
use crate::params::values::{ParamValue, ParamValues};
use crate::system::{all_digits, decimal, digit, digit_value, lemma_decimal_grows};
use crate::text::{chars_of, option_text, texts};
use vstd::prelude::*;
use vstd::string::StringExecFns;

verus! {

/// The value of the first entry from `from` on with the name `key`.
pub open spec fn held_at(
    values: Seq<(String, Spanned<ParamValue>)>,
    key: Seq<char>,
    from: int,
) -> Option<ParamValue>
    decreases values.len() - from,
{
    if from < 0 || from >= values.len() {
        None
    } else if values[from].0@ == key {
        Some(values[from].1.inner)
    } else {
        held_at(values, key, from + 1)
    }
}

/// The text that a value holds: a string, a path, or a literal string.
pub open spec fn text_of_value(value: ParamValue) -> Option<Seq<char>> {
    match value {
        ParamValue::String(text) => Some(text@),
        ParamValue::HostPath(path) => Some(path@),
        ParamValue::TargetPath(path) => Some(path@),
        ParamValue::Literal(Value::String(text)) => Some(text@),
        _ => None,
    }
}

/// The texts that the first `upto` items hold, if each holds one.
pub open spec fn texts_of_items(items: Seq<Spanned<ParamValue>>, upto: int) -> Option<
    Seq<Seq<char>>,
>
    decreases upto,
{
    if upto <= 0 {
        Some(Seq::empty())
    } else {
        match (texts_of_items(items, upto - 1), text_of_value(items[upto - 1].inner)) {
            (Some(before), Some(text)) => Some(before.push(text)),
            _ => None,
        }
    }
}

/// The texts that a value holds: a list each of whose items holds a text.
pub open spec fn texts_of_value(value: ParamValue) -> Option<Seq<Seq<char>>> {
    match value {
        ParamValue::List(items) => texts_of_items(items@, items.len() as int),
        _ => None,
    }
}

/// The flag that a value holds.
pub open spec fn flag_of_value(value: ParamValue) -> Option<bool> {
    match value {
        ParamValue::Boolean(flag) => Some(flag),
        ParamValue::Literal(Value::Boolean(flag)) => Some(flag),
        _ => None,
    }
}

/// The number that a text writes in decimal digits, if it writes one that
/// fits in 32 bits.
pub open spec fn number_of_text(text: Seq<char>) -> Option<u32> {
    if text.len() > 0 && all_digits(text) && decimal(text, text.len() as int) <= u32::MAX {
        Some(decimal(text, text.len() as int) as u32)
    } else {
        None
    }
}

/// The number that a value holds: one written in decimal digits that fits
/// in 32 bits.
pub open spec fn number_of_value(value: ParamValue) -> Option<u32> {
    match value {
        ParamValue::Number(text) => number_of_text(text@),
        ParamValue::Literal(Value::Number(text)) => number_of_text(text@),
        _ => None,
    }
}

/// The text under the name `key`, if a text stands there.
pub open spec fn read_text(values: Seq<(String, Spanned<ParamValue>)>, key: Seq<char>) -> Option<
    Seq<char>,
> {
    match held_at(values, key, 0) {
        Some(value) => text_of_value(value),
        None => None,
    }
}

/// The texts under the name `key`, if a list of texts stands there.
pub open spec fn read_texts(values: Seq<(String, Spanned<ParamValue>)>, key: Seq<char>) -> Option<
    Seq<Seq<char>>,
> {
    match held_at(values, key, 0) {
        Some(value) => texts_of_value(value),
        None => None,
    }
}

/// The text under the name `key` where the name may be left out: no text
/// where the name is not there, nothing at all where something else than a
/// text stands under it.
pub open spec fn read_optional_text(
    values: Seq<(String, Spanned<ParamValue>)>,
    key: Seq<char>,
) -> Option<Option<Seq<char>>> {
    match held_at(values, key, 0) {
        Some(value) => match text_of_value(value) {
            Some(text) => Some(Some(text)),
            None => None,
        },
        None => Some(None),
    }
}

/// The flag under the name `key` where the name may be left out.
pub open spec fn read_optional_flag(
    values: Seq<(String, Spanned<ParamValue>)>,
    key: Seq<char>,
) -> Option<Option<bool>> {
    match held_at(values, key, 0) {
        Some(value) => match flag_of_value(value) {
            Some(flag) => Some(Some(flag)),
            None => None,
        },
        None => Some(None),
    }
}

/// The number under the name `key` where the name may be left out.
pub open spec fn read_optional_number(
    values: Seq<(String, Spanned<ParamValue>)>,
    key: Seq<char>,
) -> Option<Option<u32>> {
    match held_at(values, key, 0) {
        Some(value) => match number_of_value(value) {
            Some(number) => Some(Some(number)),
            None => None,
        },
        None => Some(None),
    }
}

/// The texts of optional strings.
pub open spec fn option_texts(list: Option<Vec<String>>) -> Option<Seq<Seq<char>>> {
    match list {
        Some(list) => Some(texts(list@)),
        None => None,
    }
}

/// The text of an optional string that may be left out.
pub open spec fn optional_text(text: Option<Option<String>>) -> Option<Option<Seq<char>>> {
    match text {
        Some(text) => Some(option_text(text)),
        None => None,
    }
}

/// Reads a number written in decimal digits that fits in 32 bits.
pub fn parse_number(text: &str) -> (number: Option<u32>)
    ensures
        number == number_of_text(text@),
{
    let chars = chars_of(text);
    if chars.len() == 0 {
        return None;
    }
    let mut total: u64 = 0;
    let mut i: usize = 0;
    while i < chars.len()
        invariant
            i <= chars.len(),
            chars@ == text@,
            forall|j: int| 0 <= j < i ==> digit(#[trigger] chars[j]),
            total == decimal(chars@, i as int),
            total <= u32::MAX,
        decreases chars.len() - i,
    {
        let c = chars[i];
        if !('0' <= c && c <= '9') {
            proof {
                assert(!all_digits(chars@));
            }
            return None;
        }
        let value: u64 = (c as u32 - '0' as u32) as u64;
        assert(value == digit_value(c));
        let next: u64 = 10 * total + value;
        assert(next == decimal(chars@, i + 1));
        if next > 4294967295 {
            proof {
                if all_digits(chars@) {
                    lemma_decimal_grows(chars@, i + 1, chars.len() as int);
                }
            }
            return None;
        }
        total = next;
        i += 1;
    }
    proof {
        assert(all_digits(chars@));
    }
    Some(total as u32)
}

/// The text that a value holds.
pub fn text_value(value: &ParamValue) -> (text: Option<String>)
    ensures
        option_text(text) == text_of_value(*value),
{
    match value {
        ParamValue::String(text) => Some(text.clone()),
        ParamValue::HostPath(path) => Some(path.clone()),
        ParamValue::TargetPath(path) => Some(path.clone()),
        ParamValue::Literal(Value::String(text)) => Some(text.clone()),
        _ => None,
    }
}

/// The texts that a value holds.
pub fn texts_value(value: &ParamValue) -> (list: Option<Vec<String>>)
    ensures
        option_texts(list) == texts_of_value(*value),
{
    match value {
        ParamValue::List(items) => {
            let mut list: Vec<String> = Vec::new();
            let mut i: usize = 0;
            while i < items.len()
                invariant
                    i <= items.len(),
                    *value matches ParamValue::List(x) && x == items,
                    texts_of_items(items@, i as int) == Some(texts(list@)),
                decreases items.len() - i,
            {
                match text_value(&items[i].inner) {
                    Some(text) => {
                        let ghost before = texts(list@);
                        list.push(text);
                        assert(texts(list@) =~= before.push(text@));
                    },
                    None => {
                        proof {
                            assert(texts_of_items(items@, i as int + 1) is None);
                            lemma_texts_stay_none(items@, i as int + 1, items.len() as int);
                        }
                        return None;
                    },
                }
                i += 1;
            }
            Some(list)
        },
        _ => None,
    }
}

/// Once an item holds no text, no longer list of items holds texts.
proof fn lemma_texts_stay_none(items: Seq<Spanned<ParamValue>>, upto: int, later: int)
    requires
        0 < upto <= later,
        texts_of_items(items, upto) is None,
    ensures
        texts_of_items(items, later) is None,
    decreases later - upto,
{
    if upto < later {
        lemma_texts_stay_none(items, upto, later - 1);
    }
}

/// The flag that a value holds.
pub fn flag_value(value: &ParamValue) -> (flag: Option<bool>)
    ensures
        flag == flag_of_value(*value),
{
    match value {
        ParamValue::Boolean(flag) => Some(*flag),
        ParamValue::Literal(Value::Boolean(flag)) => Some(*flag),
        _ => None,
    }
}

/// The number that a value holds.
pub fn number_value(value: &ParamValue) -> (number: Option<u32>)
    ensures
        number == number_of_value(*value),
{
    match value {
        ParamValue::Number(text) => parse_number(text.as_str()),
        ParamValue::Literal(Value::Number(text)) => parse_number(text.as_str()),
        _ => None,
    }
}

impl ParamValues {
    /// The value under the name `key`; the first where several have the name.
    pub fn held(&self, key: &str) -> (found: Option<&ParamValue>)
        ensures
            match found {
                Some(value) => held_at(self.0@, key@, 0) == Some(*value),
                None => held_at(self.0@, key@, 0) is None,
            },
    {
        let name = String::from_str(key);
        let mut i: usize = 0;
        while i < self.0.len()
            invariant
                i <= self.0.len(),
                name@ == key@,
                held_at(self.0@, key@, i as int) == held_at(self.0@, key@, 0),
            decreases self.0.len() - i,
        {
            if self.0[i].0 == name {
                return Some(&self.0[i].1.inner);
            }
            i += 1;
        }
        None
    }

    /// The text under the name `key`, if a text stands there.
    pub fn text(&self, key: &str) -> (text: Option<String>)
        ensures
            option_text(text) == read_text(self.0@, key@),
    {
        match self.held(key) {
            Some(value) => text_value(value),
            None => None,
        }
    }

    /// The texts under the name `key`, if a list of texts stands there.
    pub fn texts(&self, key: &str) -> (list: Option<Vec<String>>)
        ensures
            option_texts(list) == read_texts(self.0@, key@),
    {
        match self.held(key) {
            Some(value) => texts_value(value),
            None => None,
        }
    }

    /// The text under the name `key` where the name may be left out.
    pub fn optional_text(&self, key: &str) -> (text: Option<Option<String>>)
        ensures
            optional_text(text) == read_optional_text(self.0@, key@),
    {
        match self.held(key) {
            Some(value) => match text_value(value) {
                Some(text) => Some(Some(text)),
                None => None,
            },
            None => Some(None),
        }
    }

    /// The flag under the name `key` where the name may be left out.
    pub fn optional_flag(&self, key: &str) -> (flag: Option<Option<bool>>)
        ensures
            flag == read_optional_flag(self.0@, key@),
    {
        match self.held(key) {
            Some(value) => match flag_value(value) {
                Some(flag) => Some(Some(flag)),
                None => None,
            },
            None => Some(None),
        }
    }

    /// The number under the name `key` where the name may be left out.
    pub fn optional_number(&self, key: &str) -> (number: Option<Option<u32>>)
        ensures
            number == read_optional_number(self.0@, key@),
    {
        match self.held(key) {
            Some(value) => match number_value(value) {
                Some(number) => Some(Some(number)),
                None => None,
            },
            None => Some(None),
        }
    }
}

} // verus!
