//! Text as sequences of characters: trimming, splitting, searching and numbers.
use vstd::prelude::*;

verus! {

/// `String::push` appends one character.
pub assume_specification[ String::push ](s: &mut String, ch: char)
    ensures
        final(s)@ == old(s)@.push(ch),
;

/// The characters with the Unicode property `White_Space`.
pub open spec fn is_space(c: char) -> bool {
    ||| '\u{9}' <= c <= '\u{d}'
    ||| c == ' '
    ||| c == '\u{85}'
    ||| c == '\u{a0}'
    ||| c == '\u{1680}'
    ||| '\u{2000}' <= c <= '\u{200a}'
    ||| c == '\u{2028}'
    ||| c == '\u{2029}'
    ||| c == '\u{202f}'
    ||| c == '\u{205f}'
    ||| c == '\u{3000}'
}

fn space(c: char) -> (yes: bool)
    ensures
        yes == is_space(c),
{
    ('\u{9}' <= c && c <= '\u{d}') || c == ' ' || c == '\u{85}' || c == '\u{a0}' || c == '\u{1680}'
        || ('\u{2000}' <= c && c <= '\u{200a}') || c == '\u{2028}' || c == '\u{2029}' || c
        == '\u{202f}' || c == '\u{205f}' || c == '\u{3000}'
}

/// The characters of a text.
pub fn chars_of(text: &str) -> (chars: Vec<char>)
    ensures
        chars@ == text@,
{
    let mut chars: Vec<char> = Vec::new();
    for c in it: text.chars()
        invariant
            chars@ == text@.take(it.index()),
            it.seq() == text@,
    {
        chars.push(c);
        assert(text@.take(it.index() + 1) =~= text@.take(it.index()).push(c));
    }
    assert(text@.take(text@.len() as int) =~= text@);
    chars
}

/// The text made of some characters.
pub fn text_of(chars: &[char]) -> (text: String)
    ensures
        text@ == chars@,
{
    let mut text = String::new();
    for i in 0..chars.len()
        invariant
            text@ == chars@.take(i as int),
    {
        text.push(chars[i]);
        assert(chars@.take(i + 1) =~= chars@.take(i as int).push(chars@[i as int]));
    }
    assert(chars@.take(chars@.len() as int) =~= chars@);
    text
}

/// Whether two texts hold the same characters.
pub fn same_text(left: &str, right: &str) -> (equal: bool)
    ensures
        equal == (left@ == right@),
{
    let left = left.to_owned();
    let right = right.to_owned();
    left == right
}

/// The text without the whitespace it begins with.
pub open spec fn trim_start(text: Seq<char>) -> Seq<char>
    decreases text.len(),
{
    if text.len() > 0 && is_space(text[0]) {
        trim_start(text.skip(1))
    } else {
        text
    }
}

/// The text without the whitespace it ends with.
pub open spec fn trim_end(text: Seq<char>) -> Seq<char>
    decreases text.len(),
{
    if text.len() > 0 && is_space(text.last()) {
        trim_end(text.drop_last())
    } else {
        text
    }
}

/// The text without the whitespace around it.
pub open spec fn trimmed(text: Seq<char>) -> Seq<char> {
    trim_end(trim_start(text))
}

/// Removes the whitespace around a text.
pub fn trim(text: &str) -> (rest: &str)
    ensures
        rest@ == trimmed(text@),
{
    let chars = chars_of(text);
    let mut from: usize = 0;
    assert(chars@.skip(0) =~= chars@);
    while from < chars.len() && space(chars[from])
        invariant
            from <= chars@.len(),
            trim_start(chars@) == trim_start(chars@.skip(from as int)),
        decreases chars@.len() - from,
    {
        assert(chars@.skip(from as int).skip(1) =~= chars@.skip(from + 1));
        from = from + 1;
    }
    let mut to: usize = chars.len();
    let ghost rest = chars@.skip(from as int);
    assert(rest == trim_start(chars@));
    assert(chars@.subrange(from as int, to as int) =~= rest);
    while to > from && space(chars[to - 1])
        invariant
            from <= to <= chars@.len(),
            trim_end(rest) == trim_end(chars@.subrange(from as int, to as int)),
        decreases to,
    {
        assert(chars@.subrange(from as int, to as int).drop_last() =~= chars@.subrange(
            from as int,
            to - 1,
        ));
        to = to - 1;
    }
    text.substring_char(from, to)
}

/// The length of the first word of a text that begins with one.
pub open spec fn word_len(text: Seq<char>) -> nat
    decreases text.len(),
{
    if text.len() == 0 || is_space(text[0]) {
        0
    } else {
        1 + word_len(text.skip(1))
    }
}

pub proof fn lemma_word_len(text: Seq<char>)
    ensures
        word_len(text) <= text.len(),
        text.len() > 0 && !is_space(text[0]) ==> word_len(text) > 0,
    decreases text.len(),
{
    if text.len() > 0 && !is_space(text[0]) {
        lemma_word_len(text.skip(1));
    }
}

/// The words of a text: its longest runs without whitespace.
pub open spec fn words(text: Seq<char>) -> Seq<Seq<char>>
    decreases text.len(),
{
    if text.len() == 0 {
        Seq::empty()
    } else if is_space(text[0]) {
        words(text.skip(1))
    } else {
        proof {
            lemma_word_len(text);
        }
        seq![text.take(word_len(text) as int)] + words(text.skip(word_len(text) as int))
    }
}

/// Splits a text into its words.
pub fn split_whitespace(text: &str) -> (found: Vec<String>)
    ensures
        found.deep_view() == words(text@),
{
    let chars = chars_of(text);
    let mut found: Vec<String> = Vec::new();
    let mut at: usize = 0;
    assert(found.deep_view() =~= Seq::<Seq<char>>::empty());
    assert(chars@.skip(0) =~= chars@);
    assert(found.deep_view() + words(chars@) =~= words(chars@));
    while at < chars.len()
        invariant
            at <= chars@.len(),
            words(chars@) == found.deep_view() + words(chars@.skip(at as int)),
        decreases chars@.len() - at,
    {
        let ghost rest = chars@.skip(at as int);
        if space(chars[at]) {
            assert(rest.skip(1) =~= chars@.skip(at + 1));
            at = at + 1;
        } else {
            let mut end: usize = at;
            assert(chars@.skip(end as int) =~= rest);
            while end < chars.len() && !space(chars[end])
                invariant
                    at <= end <= chars@.len(),
                    rest == chars@.skip(at as int),
                    word_len(rest) == (end - at) + word_len(chars@.skip(end as int)),
                decreases chars@.len() - end,
            {
                assert(chars@.skip(end as int).skip(1) =~= chars@.skip(end + 1));
                end = end + 1;
            }
            proof {
                lemma_word_len(rest);
            }
            let word = text_of(vstd::slice::slice_subrange(chars.as_slice(), at, end));
            let ghost before = found.deep_view();
            found.push(word);
            proof {
                assert(word@ =~= rest.take(end - at));
                assert(found.deep_view() =~= before.push(word@));
                assert(rest.skip(end - at) =~= chars@.skip(end as int));
                assert(before + words(rest) =~= found.deep_view() + words(chars@.skip(end as int)));
            }
            at = end;
        }
    }
    assert(found.deep_view() + words(chars@.skip(at as int)) =~= found.deep_view());
    found
}

/// The character in lower case, if it is an ASCII letter.
pub open spec fn lower_char(c: char) -> char {
    if 'A' <= c <= 'Z' {
        (c as u32 + 32) as char
    } else {
        c
    }
}

/// The text with its ASCII letters in lower case.
pub open spec fn lower(text: Seq<char>) -> Seq<char> {
    text.map_values(|c: char| lower_char(c))
}

fn lower_letter(c: char) -> (l: char)
    ensures
        l == lower_char(c),
{
    if 'A' <= c && c <= 'Z' {
        (c as u8 + 32) as char
    } else {
        c
    }
}

/// Puts the ASCII letters of a text in lower case.
pub fn to_ascii_lowercase(text: &str) -> (result: String)
    ensures
        result@ == lower(text@),
{
    let chars = chars_of(text);
    let mut result = String::new();
    for i in 0..chars.len()
        invariant
            chars@ == text@,
            result@ == lower(text@).take(i as int),
    {
        result.push(lower_letter(chars[i]));
        assert(lower(text@).take(i + 1) =~= lower(text@).take(i as int).push(
            lower(text@)[i as int],
        ));
    }
    assert(lower(text@).take(text@.len() as int) =~= lower(text@));
    result
}

/// Whether two texts agree but for the case of ASCII letters.
pub fn eq_ignore_ascii_case(left: &str, right: &str) -> (equal: bool)
    ensures
        equal == (lower(left@) == lower(right@)),
{
    to_ascii_lowercase(left) == to_ascii_lowercase(right)
}

/// Whether `part` stands in `text` at `at`.
pub open spec fn stands_at(text: Seq<char>, part: Seq<char>, at: int) -> bool {
    0 <= at && at + part.len() <= text.len() && text.subrange(at, at + part.len()) == part
}

/// Whether `part` stands somewhere in `text`.
pub open spec fn has_text(text: Seq<char>, part: Seq<char>) -> bool {
    exists|at: int| stands_at(text, part, at)
}

fn matches_at(text: &Vec<char>, part: &Vec<char>, at: usize) -> (yes: bool)
    requires
        at <= text@.len(),
    ensures
        yes == stands_at(text@, part@, at as int),
{
    let count: usize = text.len();
    if count - at < part.len() {
        return false;
    }
    for i in 0..part.len()
        invariant
            count == text@.len(),
            at + part@.len() <= count,
            forall|j: int| 0 <= j < i ==> text@[at + j] == part@[j],
    {
        if text[at + i] != part[i] {
            assert(text@.subrange(at as int, at + part@.len())[i as int] != part@[i as int]);
            return false;
        }
    }
    assert(text@.subrange(at as int, at + part@.len()) =~= part@);
    true
}

/// Whether `part` stands somewhere in `text`.
pub fn contains(text: &str, part: &str) -> (yes: bool)
    ensures
        yes == has_text(text@, part@),
{
    let chars = chars_of(text);
    let part_chars = chars_of(part);
    let count: usize = chars.len();
    let mut at: usize = 0;
    while at < count
        invariant
            chars@ == text@,
            part_chars@ == part@,
            count == chars@.len(),
            at <= count,
            forall|j: int| 0 <= j < at ==> !stands_at(chars@, part_chars@, j),
        decreases count - at,
    {
        if matches_at(&chars, &part_chars, at) {
            return true;
        }
        at = at + 1;
    }
    matches_at(&chars, &part_chars, count)
}

/// Whether `text` begins with `part`.
pub fn starts_with(text: &str, part: &str) -> (yes: bool)
    ensures
        yes == part@.is_prefix_of(text@),
{
    matches_at(&chars_of(text), &chars_of(part), 0)
}

/// Whether `text` ends with `part`.
pub fn ends_with(text: &str, part: &str) -> (yes: bool)
    ensures
        yes == part@.is_suffix_of(text@),
{
    let text = chars_of(text);
    let part = chars_of(part);
    if text.len() < part.len() {
        return false;
    }
    matches_at(&text, &part, text.len() - part.len())
}

/// The rest of `text` behind `part`, if it begins with it.
pub fn strip_prefix<'a>(text: &'a str, part: &str) -> (rest: Option<&'a str>)
    ensures
        match rest {
            Some(rest) => text@ == part@ + rest@,
            None => !part@.is_prefix_of(text@),
        },
{
    if starts_with(text, part) {
        let skip: usize = part.unicode_len();
        let rest = text.substring_char(skip, text.unicode_len());
        assert(text@ =~= part@ + rest@);
        Some(rest)
    } else {
        None
    }
}

/// Finds the first `c`.
pub fn find(chars: &Vec<char>, c: char) -> (found: Option<usize>)
    ensures
        match found {
            Some(at) => at < chars@.len() && chars@[at as int] == c && forall|j: int|
                0 <= j < at ==> chars@[j] != c,
            None => !chars@.contains(c),
        },
{
    for i in 0..chars.len()
        invariant
            forall|j: int| 0 <= j < i ==> chars@[j] != c,
    {
        if chars[i] == c {
            return Some(i);
        }
    }
    None
}

/// Finds the last `c`.
pub fn find_last(chars: &Vec<char>, c: char) -> (found: Option<usize>)
    ensures
        match found {
            Some(at) => at < chars@.len() && chars@[at as int] == c && forall|j: int|
                at < j < chars@.len() ==> chars@[j] != c,
            None => !chars@.contains(c),
        },
{
    let mut i: usize = chars.len();
    while i > 0
        invariant
            i <= chars@.len(),
            forall|j: int| i <= j < chars@.len() ==> chars@[j] != c,
        decreases i,
    {
        i = i - 1;
        if chars[i] == c {
            return Some(i);
        }
    }
    None
}

/// Whether the character is a decimal digit.
pub open spec fn is_digit(c: char) -> bool {
    '0' <= c <= '9'
}

/// Whether every character is a decimal digit.
pub open spec fn all_digits(text: Seq<char>) -> bool {
    forall|i: int| 0 <= i < text.len() ==> is_digit(#[trigger] text[i])
}

/// The number that a sequence of decimal digits denotes.
pub open spec fn digits_value(digits: Seq<char>) -> nat
    decreases digits.len(),
{
    if digits.len() == 0 {
        0
    } else {
        digits_value(digits.drop_last()) * 10 + (digits.last() as nat - '0' as nat) as nat
    }
}

/// The 16-bit number that a text denotes: decimal digits, with a plus sign before them or not.
pub open spec fn u16_value(text: Seq<char>) -> Option<u16> {
    let digits = if text.len() > 0 && text[0] == '+' {
        text.skip(1)
    } else {
        text
    };
    if digits.len() > 0 && all_digits(digits) && digits_value(digits) <= u16::MAX {
        Some(digits_value(digits) as u16)
    } else {
        None
    }
}

/// Reads a 16-bit number.
pub fn parse_u16(text: &str) -> (number: Option<u16>)
    ensures
        number == u16_value(text@),
{
    let chars = chars_of(text);
    let from: usize = if chars.len() > 0 && chars[0] == '+' {
        1
    } else {
        0
    };
    let ghost digits = if text@.len() > 0 && text@[0] == '+' {
        text@.skip(1)
    } else {
        text@
    };
    assert(digits =~= chars@.skip(from as int));
    if from == chars.len() {
        return None;
    }
    let mut value: u32 = 0;
    assert(digits.take(0) =~= Seq::<char>::empty());
    for i in from..chars.len()
        invariant
            digits == chars@.skip(from as int),
            digits == (if text@.len() > 0 && text@[0] == '+' {
                text@.skip(1)
            } else {
                text@
            }),
            value <= 65536,
            value <= 65535 ==> value == digits_value(digits.take(i - from)),
            value == 65536 ==> digits_value(digits.take(i - from)) > 65535,
            forall|j: int| 0 <= j < i - from ==> is_digit(#[trigger] digits[j]),
    {
        let c = chars[i];
        assert(digits[i - from] == c);
        if !('0' <= c && c <= '9') {
            assert(!all_digits(digits));
            return None;
        }
        let digit: u32 = c as u32 - 48;
        proof {
            let longer = digits.take(i - from + 1);
            assert(longer.drop_last() =~= digits.take(i - from));
            assert(longer.last() == c);
        }
        if value <= 65535 && value * 10 + digit <= 65535 {
            value = value * 10 + digit;
        } else {
            value = 65536;
        }
    }
    assert(digits.take(digits.len() as int) =~= digits);
    if value <= 65535 {
        Some(value as u16)
    } else {
        None
    }
}

/// The decimal digits of a number.
pub open spec fn decimal_digits(number: nat) -> Seq<char>
    decreases number,
{
    if number < 10 {
        seq![('0' as nat + number) as char]
    } else {
        decimal_digits(number / 10).push(('0' as nat + number % 10) as char)
    }
}

/// Writes a number in decimal.
pub fn decimal(number: u64) -> (text: String)
    ensures
        text@ == decimal_digits(number as nat),
    decreases number,
{
    let last = (48 + (number % 10) as u8) as char;
    if number < 10 {
        let mut text = String::new();
        text.push(last);
        assert(text@ =~= decimal_digits(number as nat));
        text
    } else {
        let mut text = decimal(number / 10);
        text.push(last);
        text
    }
}

/// What is written is read back: the digits of a number denote it.
pub proof fn decimal_round_trip(number: nat)
    ensures
        digits_value(decimal_digits(number)) == number,
        decimal_digits(number).len() > 0,
        all_digits(decimal_digits(number)),
    decreases number,
{
    let digits = decimal_digits(number);
    if number < 10 {
        assert(digits.drop_last() =~= Seq::<char>::empty());
        assert(digits_value(digits.drop_last()) == 0);
    } else {
        decimal_round_trip(number / 10);
        assert(digits.drop_last() =~= decimal_digits(number / 10));
    }
}

/// Trimming takes the white space on both sides and nothing else.
pub proof fn trimming_leaves_core(before: Seq<char>, core: Seq<char>, after: Seq<char>)
    requires
        forall|i: int| 0 <= i < before.len() ==> is_space(#[trigger] before[i]),
        forall|i: int| 0 <= i < after.len() ==> is_space(#[trigger] after[i]),
        core.len() > 0 ==> !is_space(core[0]) && !is_space(core.last()),
    ensures
        trimmed(before + core + after) == core,
    decreases before.len() + after.len(),
{
    let text = before + core + after;
    if before.len() > 0 {
        let rest = before.skip(1);
        assert(text[0] == before[0]);
        assert(text.skip(1) =~= rest + core + after);
        assert forall|i: int| 0 <= i < rest.len() implies is_space(#[trigger] rest[i]) by {
            assert(rest[i] == before[i + 1]);
        }
        trimming_leaves_core(rest, core, after);
    } else if core.len() > 0 {
        assert(text =~= core + after);
        assert(text[0] == core[0]);
        lemma_trim_end(core, after);
    } else {
        assert(text =~= after);
        lemma_all_space_trimmed(after);
    }
}

/// Only white space is trimmed to nothing.
pub proof fn only_space_vanishes(text: Seq<char>)
    ensures
        trimmed(text).len() == 0 <==> forall|i: int|
            0 <= i < text.len() ==> is_space(#[trigger] text[i]),
    decreases text.len(),
{
    if text.len() > 0 {
        if is_space(text[0]) {
            let rest = text.skip(1);
            only_space_vanishes(rest);
            if forall|i: int| 0 <= i < rest.len() ==> is_space(#[trigger] rest[i]) {
                assert forall|i: int| 0 <= i < text.len() implies is_space(#[trigger] text[i]) by {
                    if i > 0 {
                        assert(rest[i - 1] == text[i]);
                    }
                }
            } else {
                let i = choose|i: int| 0 <= i < rest.len() && !is_space(#[trigger] rest[i]);
                assert(text[i + 1] == rest[i]);
            }
        } else {
            lemma_start_is_kept(text);
        }
    }
}

proof fn lemma_start_is_kept(text: Seq<char>)
    requires
        text.len() > 0,
        !is_space(text[0]),
    ensures
        trim_end(text).len() > 0,
    decreases text.len(),
{
    if is_space(text.last()) {
        assert(text.len() > 1);
        assert(text.drop_last()[0] == text[0]);
        lemma_start_is_kept(text.drop_last());
    }
}

proof fn lemma_trim_end(core: Seq<char>, after: Seq<char>)
    requires
        core.len() > 0,
        !is_space(core.last()),
        forall|i: int| 0 <= i < after.len() ==> is_space(#[trigger] after[i]),
    ensures
        trim_end(core + after) == core,
    decreases after.len(),
{
    let text = core + after;
    if after.len() > 0 {
        assert(text.last() == after.last());
        assert(is_space(after[after.len() - 1]));
        assert(text.drop_last() =~= core + after.drop_last());
        lemma_trim_end(core, after.drop_last());
    } else {
        assert(text =~= core);
    }
}

proof fn lemma_all_space_trimmed(text: Seq<char>)
    requires
        forall|i: int| 0 <= i < text.len() ==> is_space(#[trigger] text[i]),
    ensures
        trim_start(text) == Seq::<char>::empty(),
        trimmed(text) == Seq::<char>::empty(),
    decreases text.len(),
{
    if text.len() > 0 {
        assert forall|i: int| 0 <= i < text.skip(1).len() implies is_space(
            #[trigger] text.skip(1)[i],
        ) by {
            assert(text.skip(1)[i] == text[i + 1]);
        }
        lemma_all_space_trimmed(text.skip(1));
    } else {
        assert(text =~= Seq::<char>::empty());
    }
}

/// White space parts words and is in none of them; whatever else stands together is a word.
pub proof fn space_parts_words(word: Seq<char>, space: Seq<char>, rest: Seq<char>)
    requires
        forall|i: int| 0 <= i < word.len() ==> !is_space(#[trigger] word[i]),
        forall|i: int| 0 <= i < space.len() ==> is_space(#[trigger] space[i]),
        space.len() > 0 || rest.len() == 0,
    ensures
        words(word + space + rest) == (if word.len() > 0 {
            seq![word]
        } else {
            Seq::<Seq<char>>::empty()
        }) + words(rest),
        words(Seq::<char>::empty()) == Seq::<Seq<char>>::empty(),
    decreases word.len(),
{
    let text = word + space + rest;
    if word.len() > 0 {
        lemma_word_ends(word, space + rest);
        assert(text =~= word + (space + rest));
        assert(text[0] == word[0]);
        assert(text.take(word.len() as int) =~= word);
        assert(text.skip(word.len() as int) =~= Seq::<char>::empty() + space + rest);
        space_parts_words(Seq::empty(), space, rest);
        assert(Seq::<Seq<char>>::empty() + words(rest) =~= words(rest));
        assert(seq![word] + words(rest) =~= words(text));
    } else {
        assert(text =~= space + rest);
        if space.len() > 0 {
            let less = space.skip(1);
            assert(text[0] == space[0]);
            assert(text.skip(1) =~= less + rest);
            lemma_space_skipped(less, rest);
        }
        assert(Seq::<Seq<char>>::empty() + words(rest) =~= words(rest));
        if space.len() == 0 {
            assert(text =~= rest);
        }
    }
}

proof fn lemma_space_skipped(space: Seq<char>, rest: Seq<char>)
    requires
        forall|i: int| 0 <= i < space.len() ==> is_space(#[trigger] space[i]),
    ensures
        words(space + rest) == words(rest),
    decreases space.len(),
{
    let text = space + rest;
    if space.len() > 0 {
        assert(text[0] == space[0]);
        assert(text.skip(1) =~= space.skip(1) + rest);
        lemma_space_skipped(space.skip(1), rest);
    } else {
        assert(text =~= rest);
    }
}

proof fn lemma_word_ends(word: Seq<char>, rest: Seq<char>)
    requires
        forall|i: int| 0 <= i < word.len() ==> !is_space(#[trigger] word[i]),
        rest.len() > 0 ==> is_space(rest[0]),
    ensures
        word_len(word + rest) == word.len(),
    decreases word.len(),
{
    let text = word + rest;
    if word.len() > 0 {
        assert(text[0] == word[0]);
        assert(text.skip(1) =~= word.skip(1) + rest);
        lemma_word_ends(word.skip(1), rest);
    } else {
        assert(text =~= rest);
    }
}

/// White space is, of ASCII, the blank and the five characters from the tabulator to the carriage
/// return.
pub proof fn ascii_space(c: char)
    requires
        (c as u32) < 128,
    ensures
        is_space(c) <==> c as u32 == 32 || 9 <= c as u32 <= 13,
{
}

/// In lower case only the letters from A to Z change, each to the one 32 places on.
pub proof fn lower_case_of_letters(text: Seq<char>, i: int)
    requires
        0 <= i < text.len(),
    ensures
        lower(text).len() == text.len(),
        lower(text)[i] as u32 == (if 65 <= text[i] as u32 <= 90 {
            text[i] as u32 + 32
        } else {
            text[i] as int
        }),
        lower(lower(text)) == lower(text),
{
    assert(lower(lower(text)) =~= lower(text));
}

proof fn lemma_words_then_space(text: Seq<char>, c: char)
    requires
        is_space(c),
    ensures
        words(text.push(c)) == words(text),
    decreases text.len(),
{
    let longer = text.push(c);
    if text.len() == 0 {
        assert(longer.skip(1) =~= text);
        assert(longer[0] == c);
    } else if is_space(text[0]) {
        assert(longer.skip(1) =~= text.skip(1).push(c));
        lemma_words_then_space(text.skip(1), c);
    } else {
        lemma_word_len(text);
        lemma_word_len_then_space(text, c);
        let n = word_len(text) as int;
        assert(longer.take(n) =~= text.take(n));
        assert(longer.skip(n) =~= text.skip(n).push(c));
        lemma_words_then_space(text.skip(n), c);
    }
}

proof fn lemma_word_len_then_space(text: Seq<char>, c: char)
    requires
        is_space(c),
    ensures
        word_len(text.push(c)) == word_len(text),
    decreases text.len(),
{
    let longer = text.push(c);
    if text.len() > 0 && !is_space(text[0]) {
        assert(longer.skip(1) =~= text.skip(1).push(c));
        lemma_word_len_then_space(text.skip(1), c);
    }
}

/// Trimming a text changes none of its words.
pub proof fn trimming_keeps_words(text: Seq<char>)
    ensures
        words(trimmed(text)) == words(text),
    decreases text.len(),
{
    if text.len() > 0 && is_space(text[0]) {
        trimming_keeps_words(text.skip(1));
    } else {
        lemma_trim_end_keeps_words(text);
    }
}

proof fn lemma_trim_end_keeps_words(text: Seq<char>)
    ensures
        words(trim_end(text)) == words(text),
    decreases text.len(),
{
    if text.len() > 0 && is_space(text.last()) {
        let before = text.drop_last();
        assert(before.push(text.last()) =~= text);
        lemma_words_then_space(before, text.last());
        lemma_trim_end_keeps_words(before);
    }
}

} // verus!
