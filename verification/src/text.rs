//! Text: its order and sorted lists of it, searching and trimming, and how
//! numbers, flags and optional values are written.

use vstd::prelude::*;
use vstd::string::StringExecFns;

verus! {

/// `a` comes before `b` or equals it: texts are compared character by
/// character by code point, and a text comes before every text that it begins.
pub open spec fn lex_le(a: Seq<char>, b: Seq<char>) -> bool
    decreases a.len(),
{
    if a.len() == 0 {
        true
    } else if b.len() == 0 {
        false
    } else if a[0] != b[0] {
        a[0] < b[0]
    } else {
        lex_le(a.drop_first(), b.drop_first())
    }
}

/// `a` comes before `b`.
pub open spec fn lex_lt(a: Seq<char>, b: Seq<char>) -> bool {
    lex_le(a, b) && a != b
}

/// Of two texts one comes before the other or equals it.
pub proof fn lemma_lex_total(a: Seq<char>, b: Seq<char>)
    ensures
        lex_le(a, b) || lex_le(b, a),
    decreases a.len(),
{
    if a.len() > 0 && b.len() > 0 {
        if a[0] == b[0] {
            lemma_lex_total(a.drop_first(), b.drop_first());
        }
    }
}

/// Two texts that come before or equal each other are equal.
pub proof fn lemma_lex_antisymmetric(a: Seq<char>, b: Seq<char>)
    requires
        lex_le(a, b),
        lex_le(b, a),
    ensures
        a == b,
    decreases a.len(),
{
    if a.len() == 0 || b.len() == 0 {
        assert(a =~= b);
    } else {
        lemma_lex_antisymmetric(a.drop_first(), b.drop_first());
        assert(a =~= seq![a[0]] + a.drop_first());
        assert(b =~= seq![b[0]] + b.drop_first());
    }
}

/// The order is transitive.
pub proof fn lemma_lex_transitive(a: Seq<char>, b: Seq<char>, c: Seq<char>)
    requires
        lex_le(a, b),
        lex_le(b, c),
    ensures
        lex_le(a, c),
    decreases a.len(),
{
    if a.len() > 0 && b.len() > 0 && c.len() > 0 && a[0] == b[0] && b[0] == c[0] {
        lemma_lex_transitive(a.drop_first(), b.drop_first(), c.drop_first());
    }
}

/// Every text comes before or equals itself.
pub proof fn lemma_lex_reflexive(a: Seq<char>)
    ensures
        lex_le(a, a),
    decreases a.len(),
{
    if a.len() > 0 {
        lemma_lex_reflexive(a.drop_first());
    }
}

/// Dropping a first character that both texts share does not change which
/// comes first.
proof fn lemma_lex_rest(a: Seq<char>, b: Seq<char>, i: int)
    requires
        0 <= i <= a.len(),
        i <= b.len(),
        forall|j: int| 0 <= j < i ==> a[j] == b[j],
    ensures
        lex_le(a, b) == lex_le(a.subrange(i, a.len() as int), b.subrange(i, b.len() as int)),
    decreases i,
{
    if i == 0 {
        assert(a.subrange(0, a.len() as int) =~= a);
        assert(b.subrange(0, b.len() as int) =~= b);
    } else {
        lemma_lex_rest(a, b, i - 1);
        let x = a.subrange(i - 1, a.len() as int);
        let y = b.subrange(i - 1, b.len() as int);
        assert(x[0] == a[i - 1] && y[0] == b[i - 1]);
        assert(x.drop_first() =~= a.subrange(i, a.len() as int));
        assert(y.drop_first() =~= b.subrange(i, b.len() as int));
    }
}

/// Whether `a` comes before `b` or equals it: as `str` is ordered, by code
/// points.
pub(crate) fn text_le(a: &str, b: &str) -> (le: bool)
    ensures
        le == lex_le(a@, b@),
{
    let left = chars_of(a);
    let right = chars_of(b);
    let mut i: usize = 0;
    while i < left.len() && i < right.len()
        invariant
            i <= left.len(),
            i <= right.len(),
            left@ == a@,
            right@ == b@,
            forall|j: int| 0 <= j < i ==> left[j] == right[j],
        decreases left.len() - i,
    {
        if left[i] != right[i] {
            proof {
                lemma_lex_rest(a@, b@, i as int);
            }
            return left[i] < right[i];
        }
        i += 1;
    }
    proof {
        lemma_lex_rest(a@, b@, i as int);
    }
    i >= left.len()
}

/// The texts of a list.
pub open spec fn texts(list: Seq<String>) -> Seq<Seq<char>> {
    Seq::new(list.len(), |i: int| list[i]@)
}

/// The list rises strictly: it is sorted and holds nothing twice.
pub open spec fn strictly_sorted(list: Seq<Seq<char>>) -> bool {
    forall|i: int, j: int| 0 <= i < j < list.len() ==> lex_lt(list[i], list[j])
}

/// Puts `text` into a strictly sorted list, unless the list holds it.
pub fn insert_sorted(list: &mut Vec<String>, text: String)
    requires
        strictly_sorted(texts(old(list)@)),
    ensures
        strictly_sorted(texts(final(list)@)),
        forall|t: Seq<char>|
            #![trigger texts(final(list)@).contains(t)]
            texts(final(list)@).contains(t) <==> texts(old(list)@).contains(t) || t == text@,
{
    let ghost before = texts(list@);
    let mut at: usize = 0;
    while at < list.len() && !text_le(text.as_str(), list[at].as_str())
        invariant
            at <= list.len(),
            before == texts(list@),
            forall|i: int| 0 <= i < at ==> lex_lt(#[trigger] before[i], text@),
        decreases list.len() - at,
    {
        proof {
            lemma_lex_total(text@, before[at as int]);
            if before[at as int] == text@ {
                lemma_lex_reflexive(text@);
            }
        }
        at += 1;
    }
    if at < list.len() && list[at] == text {
        assert(before[at as int] == text@);
        assert forall|t: Seq<char>| before.contains(t) <==> before.contains(t) || t == text@ by {}
        return ;
    }
    list.insert(at, text);
    proof {
        let after = texts(list@);
        assert(after =~= before.insert(at as int, text@));
        assert forall|i: int, j: int| 0 <= i < j < after.len() implies lex_lt(
            after[i],
            after[j],
        ) by {
            if j < at {
                assert(lex_lt(before[i], before[j]));
            } else if j == at {
                assert(lex_lt(before[i], text@));
            } else if i == at {
                assert(lex_le(text@, before[at as int]));
                if j - 1 > at {
                    assert(lex_lt(before[at as int], before[j - 1]));
                    lemma_lex_transitive(text@, before[at as int], before[j - 1]);
                    if text@ == before[j - 1] {
                        lemma_lex_antisymmetric(before[at as int], before[j - 1]);
                    }
                }
            } else if i < at {
                assert(lex_lt(before[i], before[j - 1]));
            } else {
                assert(lex_lt(before[i - 1], before[j - 1]));
            }
        }
        assert forall|t: Seq<char>| after.contains(t) <==> before.contains(t) || t == text@ by {
            if after.contains(t) {
                let k = choose|k: int| 0 <= k < after.len() && after[k] == t;
                if k < at {
                    assert(before[k] == t);
                } else if k > at {
                    assert(before[k - 1] == t);
                }
            }
            if before.contains(t) {
                let k = choose|k: int| 0 <= k < before.len() && before[k] == t;
                if k < at {
                    assert(after[k] == t);
                } else {
                    assert(after[k + 1] == t);
                }
            }
            if t == text@ {
                assert(after[at as int] == t);
            }
        }
    }
}

} // verus!

verus! {

/// The characters of a text.
pub fn chars_of(text: &str) -> (chars: Vec<char>)
    ensures
        chars@ == text@,
{
    let mut chars: Vec<char> = Vec::new();
    for c in it: text.chars()
        invariant
            it.seq() == text@,
            chars@ == text@.subrange(0, it.index() as int),
    {
        chars.push(c);
        assert(chars@ =~= text@.subrange(0, it.index() + 1));
    }
    assert(chars@ =~= text@);
    chars
}

/// Adds a character to a text with `String::push`.
#[verifier::external_body]
pub(crate) fn push_char(text: &mut String, c: char)
    ensures
        final(text)@ == old(text)@.push(c),
{
    text.push(c)
}

/// The text that the characters from `from` up to `to` spell.
pub fn text_of(chars: &Vec<char>, from: usize, to: usize) -> (text: String)
    requires
        from <= to <= chars.len(),
    ensures
        text@ == chars@.subrange(from as int, to as int),
{
    let mut text = String::new();
    let mut i = from;
    while i < to
        invariant
            from <= i <= to <= chars.len(),
            text@ == chars@.subrange(from as int, i as int),
        decreases to - i,
    {
        push_char(&mut text, chars[i]);
        assert(text@ =~= chars@.subrange(from as int, i + 1));
        i += 1;
    }
    text
}

/// Whether the characters from `at` on begin with `word`.
pub open spec fn begins_at(chars: Seq<char>, at: int, word: Seq<char>) -> bool {
    0 <= at && at + word.len() <= chars.len() && chars.subrange(at, at + word.len()) == word
}

/// Whether `word` occurs in the text.
pub open spec fn occurs_in(chars: Seq<char>, word: Seq<char>) -> bool {
    exists|at: int| begins_at(chars, at, word)
}

/// Whether the characters from `at` on begin with `word`.
pub fn has_at(chars: &Vec<char>, at: usize, word: &Vec<char>) -> (found: bool)
    ensures
        found == begins_at(chars@, at as int, word@),
{
    if word.len() > chars.len() || at > chars.len() - word.len() {
        return false;
    }
    let mut i: usize = 0;
    while i < word.len()
        invariant
            i <= word.len(),
            at + word.len() <= chars.len(),
            forall|j: int| 0 <= j < i ==> chars[at + j] == word[j],
        decreases word.len() - i,
    {
        if chars[at + i] != word[i] {
            assert(chars@.subrange(at as int, at + word.len())[i as int] != word@[i as int]);
            return false;
        }
        i += 1;
    }
    assert(chars@.subrange(at as int, at + word.len()) =~= word@);
    true
}

/// Whether `word` occurs in the text.
pub fn contains_text(chars: &Vec<char>, word: &Vec<char>) -> (found: bool)
    ensures
        found == occurs_in(chars@, word@),
{
    let mut at: usize = 0;
    while at < chars.len()
        invariant
            at <= chars.len(),
            forall|before: int| 0 <= before < at ==> !begins_at(chars@, before, word@),
        decreases chars.len() - at,
    {
        if has_at(chars, at, word) {
            return true;
        }
        at += 1;
    }
    has_at(chars, at, word)
}

/// Whether the characters spell `word`.
pub fn spells(chars: &Vec<char>, from: usize, to: usize, word: &str) -> (same: bool)
    requires
        from <= to <= chars.len(),
    ensures
        same == (chars@.subrange(from as int, to as int) == word@),
{
    let letters = chars_of(word);
    if letters.len() != to - from {
        return false;
    }
    let found = has_at(chars, from, &letters);
    found
}

/// The position of the first `mark` from `from` on, or the length where there is none.
pub open spec fn next_mark(chars: Seq<char>, mark: char, from: int) -> int
    decreases chars.len() - from,
{
    if from >= chars.len() {
        chars.len() as int
    } else if chars[from] == mark {
        from
    } else {
        next_mark(chars, mark, from + 1)
    }
}

/// The position of the first `mark` from `from` on, or the length where there is none.
pub fn find_mark(chars: &Vec<char>, mark: char, from: usize) -> (at: usize)
    requires
        from <= chars.len(),
    ensures
        at == next_mark(chars@, mark, from as int),
        from <= at <= chars.len(),
{
    let mut at = from;
    while at < chars.len() && chars[at] != mark
        invariant
            from <= at <= chars.len(),
            next_mark(chars@, mark, at as int) == next_mark(chars@, mark, from as int),
        decreases chars.len() - at,
    {
        at += 1;
    }
    at
}

/// Where the field number `n` begins and ends when the text from `from`
/// on is cut at every `mark`; nothing where there are fewer fields.
pub open spec fn field_span(chars: Seq<char>, mark: char, from: int, n: nat) -> Option<(int, int)>
    decreases n,
{
    let end = next_mark(chars, mark, from);
    if n == 0 {
        Some((from, end))
    } else if end >= chars.len() {
        None
    } else {
        field_span(chars, mark, end + 1, (n - 1) as nat)
    }
}

/// Where the field number `n` begins and ends.
pub fn find_field(chars: &Vec<char>, mark: char, from: usize, n: usize) -> (span: Option<
    (usize, usize),
>)
    requires
        from <= chars.len(),
    ensures
        match span {
            Some((start, end)) => field_span(chars@, mark, from as int, n as nat) == Some(
                (start as int, end as int),
            ) && from <= start <= end <= chars.len(),
            None => field_span(chars@, mark, from as int, n as nat) is None,
        },
{
    let mut start = from;
    let mut left = n;
    loop
        invariant
            from <= start <= chars.len(),
            field_span(chars@, mark, start as int, left as nat) == field_span(
                chars@,
                mark,
                from as int,
                n as nat,
            ),
        decreases left,
    {
        let end = find_mark(chars, mark, start);
        if left == 0 {
            return Some((start, end));
        }
        if end >= chars.len() {
            return None;
        }
        start = end + 1;
        left = left - 1;
    }
}

} // verus!

verus! {

/// Whether a character is white space: one of the characters with the
/// Unicode property White_Space, which are the controls from tab to
/// carriage return, the blank, the next line control and the no-break
/// space, and the spaces and separators beyond them.
pub open spec fn white_space(c: char) -> bool {
    ||| '\u{9}' <= c <= '\u{d}'
    ||| c == ' '
    ||| c == '\u{85}'
    ||| c == '\u{a0}'
    ||| c == '\u{1680}'
    ||| '\u{2000}' <= c <= '\u{200a}'
    ||| c == '\u{2028}'
    ||| c == '\u{2029}'
    ||| c == '\u{202f}'
    ||| c == '\u{205f}'
    ||| c == '\u{3000}'
}

/// Whether the character is white space.
pub(crate) fn is_white_space(c: char) -> (white: bool)
    ensures
        white == white_space(c),
{
    ('\u{9}' <= c && c <= '\u{d}') || c == ' ' || c == '\u{85}' || c == '\u{a0}' || c
        == '\u{1680}' || ('\u{2000}' <= c && c <= '\u{200a}') || c == '\u{2028}' || c
        == '\u{2029}' || c == '\u{202f}' || c == '\u{205f}' || c == '\u{3000}'
}

/// The text holds nothing but white space.
pub open spec fn blank(chars: Seq<char>) -> bool {
    forall|i: int| 0 <= i < chars.len() ==> white_space(#[trigger] chars[i])
}

/// Whether the text holds nothing but white space.
pub fn is_blank(text: &str) -> (empty: bool)
    ensures
        empty == blank(text@),
{
    let chars = chars_of(text);
    let mut i: usize = 0;
    while i < chars.len()
        invariant
            i <= chars.len(),
            chars@ == text@,
            forall|j: int| 0 <= j < i ==> white_space(#[trigger] chars[j]),
        decreases chars.len() - i,
    {
        if !is_white_space(chars[i]) {
            assert(!white_space(text@[i as int]));
            return false;
        }
        i += 1;
    }
    true
}

/// Where the text begins once every leading character for which `strip`
/// holds is taken away.
pub open spec fn lead_end(chars: Seq<char>, strip: spec_fn(char) -> bool, from: int) -> int
    decreases chars.len() - from,
{
    if from < chars.len() && strip(chars[from]) {
        lead_end(chars, strip, from + 1)
    } else {
        from
    }
}

/// Where the text from `from` on ends once every trailing character for
/// which `strip` holds is taken away.
pub open spec fn tail_start(chars: Seq<char>, strip: spec_fn(char) -> bool, from: int, to: int) -> int
    decreases to - from,
{
    if from < to && strip(chars[to - 1]) {
        tail_start(chars, strip, from, to - 1)
    } else {
        to
    }
}

/// The text without the leading and trailing characters for which `strip` holds.
pub open spec fn stripped(chars: Seq<char>, strip: spec_fn(char) -> bool) -> Seq<char> {
    let from = lead_end(chars, strip, 0);
    if from >= chars.len() {
        Seq::empty()
    } else {
        chars.subrange(from, tail_start(chars, strip, from, chars.len() as int))
    }
}

/// Holds of white space.
pub open spec fn is_white() -> spec_fn(char) -> bool {
    |c: char| white_space(c)
}

/// Holds of `mark` alone.
pub open spec fn is_mark(mark: char) -> spec_fn(char) -> bool {
    |c: char| c == mark
}

/// The text without leading and trailing white space.
pub open spec fn trimmed(chars: Seq<char>) -> Seq<char> {
    stripped(chars, is_white())
}

/// The text without leading and trailing `mark`s.
pub open spec fn unmarked(chars: Seq<char>, mark: char) -> Seq<char> {
    stripped(chars, is_mark(mark))
}

/// The characters of the text without leading and trailing white space.
pub fn trim_chars(chars: &Vec<char>) -> (kept: Vec<char>)
    ensures
        kept@ == trimmed(chars@),
{
    let mut from: usize = 0;
    while from < chars.len() && is_white_space(chars[from])
        invariant
            from <= chars.len(),
            lead_end(chars@, is_white(), from as int) == lead_end(chars@, is_white(), 0),
        decreases chars.len() - from,
    {
        from += 1;
    }
    let mut to = chars.len();
    while from < to && is_white_space(chars[to - 1])
        invariant
            from <= to <= chars.len(),
            tail_start(chars@, is_white(), from as int, to as int) == tail_start(
                chars@,
                is_white(),
                from as int,
                chars.len() as int,
            ),
        decreases to - from,
    {
        to -= 1;
    }
    let kept = copy_chars(chars, from, to);
    assert(kept@ =~= trimmed(chars@));
    kept
}

/// The characters of the text without leading and trailing `mark`s.
pub fn strip_mark(chars: &Vec<char>, mark: char) -> (kept: Vec<char>)
    ensures
        kept@ == unmarked(chars@, mark),
{
    let mut from: usize = 0;
    while from < chars.len() && chars[from] == mark
        invariant
            from <= chars.len(),
            lead_end(chars@, is_mark(mark), from as int) == lead_end(chars@, is_mark(mark), 0),
        decreases chars.len() - from,
    {
        from += 1;
    }
    let mut to = chars.len();
    while from < to && chars[to - 1] == mark
        invariant
            from <= to <= chars.len(),
            tail_start(chars@, is_mark(mark), from as int, to as int) == tail_start(
                chars@,
                is_mark(mark),
                from as int,
                chars.len() as int,
            ),
        decreases to - from,
    {
        to -= 1;
    }
    let kept = copy_chars(chars, from, to);
    assert(kept@ =~= unmarked(chars@, mark));
    kept
}

/// The characters from `from` up to `to`.
pub fn copy_chars(chars: &Vec<char>, from: usize, to: usize) -> (part: Vec<char>)
    requires
        from <= to <= chars.len(),
    ensures
        part@ == chars@.subrange(from as int, to as int),
{
    let mut part: Vec<char> = Vec::new();
    let mut i = from;
    while i < to
        invariant
            from <= i <= to <= chars.len(),
            part@ == chars@.subrange(from as int, i as int),
        decreases to - i,
    {
        part.push(chars[i]);
        assert(part@ =~= chars@.subrange(from as int, i + 1));
        i += 1;
    }
    part
}

/// The trimmed text.
pub fn trim_text(text: &str) -> (kept: String)
    ensures
        kept@ == trimmed(text@),
{
    let chars = chars_of(text);
    let kept = trim_chars(&chars);
    let out = text_of(&kept, 0, kept.len());
    assert(out@ =~= kept@);
    out
}

} // verus!

verus! {

/// The first `upto` words with `separator` between them.
pub open spec fn joined_with(words: Seq<Seq<char>>, separator: Seq<char>, upto: int) -> Seq<char>
    decreases upto,
{
    if upto <= 0 {
        Seq::empty()
    } else if upto == 1 {
        words[0]
    } else {
        joined_with(words, separator, upto - 1) + separator + words[upto - 1]
    }
}

/// The words with `separator` between them.
pub fn join_texts(words: &Vec<String>, separator: &str) -> (line: String)
    ensures
        line@ == joined_with(texts(words@), separator@, words.len() as int),
{
    let mut line = String::new();
    let mut i: usize = 0;
    while i < words.len()
        invariant
            i <= words.len(),
            line@ == joined_with(texts(words@), separator@, i as int),
        decreases words.len() - i,
    {
        if i > 0 {
            line.append(separator);
        }
        line.append(words[i].as_str());
        proof {
            assert(texts(words@)[i as int] == words[i as int]@);
            if i == 0 {
                assert(line@ =~= words[0]@);
            }
        }
        i += 1;
    }
    line
}

/// The digit for a number below ten.
pub open spec fn digit_of(value: int) -> char {
    if value == 0 {
        '0'
    } else if value == 1 {
        '1'
    } else if value == 2 {
        '2'
    } else if value == 3 {
        '3'
    } else if value == 4 {
        '4'
    } else if value == 5 {
        '5'
    } else if value == 6 {
        '6'
    } else if value == 7 {
        '7'
    } else if value == 8 {
        '8'
    } else {
        '9'
    }
}

/// The number written with digits to the base, which is at most ten;
/// zero is written `0`.
pub open spec fn written(number: nat, base: nat) -> Seq<char>
    decreases number,
{
    if base < 2 || number < base {
        seq![digit_of(number as int)]
    } else {
        proof {
            assert(number / base < number) by (nonlinear_arith)
                requires
                    base >= 2,
                    number >= base,
            ;
        }
        written(number / base, base).push(digit_of((number % base) as int))
    }
}

/// The digit for a number below ten.
fn digit_char(value: u64) -> (c: char)
    requires
        value < 10,
    ensures
        c == digit_of(value as int),
{
    if value == 0 {
        '0'
    } else if value == 1 {
        '1'
    } else if value == 2 {
        '2'
    } else if value == 3 {
        '3'
    } else if value == 4 {
        '4'
    } else if value == 5 {
        '5'
    } else if value == 6 {
        '6'
    } else if value == 7 {
        '7'
    } else if value == 8 {
        '8'
    } else {
        '9'
    }
}

/// Writes a number with digits to the base.
pub fn write_number(number: u64, base: u64) -> (text: String)
    requires
        2 <= base <= 10,
    ensures
        text@ == written(number as nat, base as nat),
    decreases number,
{
    if number < base {
        let mut text = String::new();
        push_char(&mut text, digit_char(number));
        assert(text@ =~= seq![digit_of(number as int)]);
        text
    } else {
        assert(number / base < number) by (nonlinear_arith)
            requires
                base >= 2,
                number >= base,
        ;
        let mut text = write_number(number / base, base);
        push_char(&mut text, digit_char(number % base));
        text
    }
}

/// The text as `str` shows it for debugging: within quotes, what cannot be
/// shown as it stands escaped.
pub uninterp spec fn quoted(text: Seq<char>) -> Seq<char>;

/// The text as the standard library formats a `str` for debugging.
#[verifier::external_body]
pub(crate) fn quote(text: &str) -> (shown: String)
    ensures
        shown@ == quoted(text@),
{
    format!("{:?}", text)
}

} // verus!

verus! {

/// `true` or `false`.
pub open spec fn bool_text(b: bool) -> Seq<char> {
    if b {
        "true"@
    } else {
        "false"@
    }
}

/// `true` or `false`.
pub fn show_bool(b: bool) -> (text: &'static str)
    ensures
        text@ == bool_text(b),
{
    if b {
        "true"
    } else {
        "false"
    }
}

/// `Some(true)`, `Some(false)` or `None`.
pub open spec fn debug_flag(flag: Option<bool>) -> Seq<char> {
    match flag {
        Some(true) => "Some(true)"@,
        Some(false) => "Some(false)"@,
        None => "None"@,
    }
}

/// `Some(true)`, `Some(false)` or `None`.
pub fn show_flag(flag: Option<bool>) -> (text: &'static str)
    ensures
        text@ == debug_flag(flag),
{
    match flag {
        Some(true) => "Some(true)",
        Some(false) => "Some(false)",
        None => "None",
    }
}

/// The text of an optional string.
pub open spec fn option_text(text: Option<String>) -> Option<Seq<char>> {
    match text {
        Some(text) => Some(text@),
        None => None,
    }
}

/// `Some("text")` with the text quoted, or `None`.
pub open spec fn debug_option(text: Option<Seq<char>>) -> Seq<char> {
    match text {
        Some(text) => "Some("@ + quoted(text) + ")"@,
        None => "None"@,
    }
}

/// `Some("text")` with the text quoted, or `None`.
pub fn show_option(text: &Option<String>) -> (shown: String)
    ensures
        shown@ == debug_option(option_text(*text)),
{
    match text {
        Some(text) => {
            let mut shown = String::from_str("Some(");
            shown.append(quote(text.as_str()).as_str());
            shown.append(")");
            shown
        },
        None => String::from_str("None"),
    }
}

/// `Some(Name("text"))` with the text quoted, or `None`.
pub open spec fn debug_wrapped(name: Seq<char>, text: Option<Seq<char>>) -> Seq<char> {
    match text {
        Some(text) => "Some("@ + name + "("@ + quoted(text) + "))"@,
        None => "None"@,
    }
}

/// `Some(Name("text"))` with the text quoted, or `None`.
pub fn show_wrapped(name: &str, text: Option<&str>) -> (shown: String)
    ensures
        shown@ == debug_wrapped(
            name@,
            match text {
                Some(text) => Some(text@),
                None => None,
            },
        ),
{
    match text {
        Some(text) => {
            let mut shown = String::from_str("Some(");
            shown.append(name);
            shown.append("(");
            shown.append(quote(text).as_str());
            shown.append("))");
            shown
        },
        None => String::from_str("None"),
    }
}

} // verus!
