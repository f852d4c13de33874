//! Text as a sequence of characters, and the few operations on it that the rest of the
//! library builds on.

use vstd::prelude::*;
use vstd::string::*;

verus! {

/// `String::push` adds one character at the end.
pub assume_specification[ String::push ](text: &mut String, c: char)
    ensures
        final(text)@ == old(text)@.push(c),
;

/// Whether a character has the Unicode property `White_Space`.
pub open spec fn is_white(c: char) -> bool {
    ||| '\u{9}' <= c <= '\u{d}'
    ||| c == ' '
    ||| c == '\u{85}'
    ||| c == '\u{a0}'
    ||| c == '\u{1680}'
    ||| '\u{2000}' <= c <= '\u{200a}'
    ||| c == '\u{2028}'
    ||| c == '\u{2029}'
    ||| c == '\u{202f}'
    ||| c == '\u{205f}'
    ||| c == '\u{3000}'
}

/// `char::is_whitespace` holds of the characters with the Unicode property `White_Space`, which
/// [`is_white`] lists.
pub assume_specification[ char::is_whitespace ](c: char) -> (white: bool)
    ensures
        white == is_white(c),
;

/// The characters of `text`, which unlike the text can be indexed.
pub fn chars_of(text: &str) -> (chars: Vec<char>)
    ensures
        chars@ == text@,
{
    let mut chars: Vec<char> = Vec::new();
    for c in it: text.chars()
        invariant
            it.seq() == text@,
            chars@ == text@.take(it.index() as int),
    {
        proof {
            assert(text@.take(it.index() + 1) =~= text@.take(it.index() as int).push(c));
        }
        chars.push(c);
    }
    proof {
        assert(text@.take(text@.len() as int) =~= text@);
    }
    chars
}

/// The text of the characters from `start` up to `end`.
pub fn text_of(chars: &Vec<char>, start: usize, end: usize) -> (text: String)
    requires
        start <= end <= chars@.len(),
    ensures
        text@ == chars@.subrange(start as int, end as int),
{
    let mut text = String::new();
    for i in start..end
        invariant
            start <= end <= chars@.len(),
            text@ == chars@.subrange(start as int, i as int),
    {
        proof {
            assert(chars@.subrange(start as int, i + 1) =~= chars@.subrange(
                start as int,
                i as int,
            ).push(chars@[i as int]));
        }
        text.push(chars[i]);
    }
    text
}

/// Whether `part` stands in `text` at `at`.
pub open spec fn stands_at(text: Seq<char>, at: int, part: Seq<char>) -> bool {
    at + part.len() <= text.len() && text.subrange(at, at + part.len()) == part
}

/// Whether `text` begins with `part`.
pub open spec fn starts_with(text: Seq<char>, part: Seq<char>) -> bool {
    stands_at(text, 0, part)
}

/// Whether `part` stands in `text` at `at`.
pub fn has_at(text: &Vec<char>, at: usize, part: &Vec<char>) -> (found: bool)
    requires
        at <= text@.len(),
    ensures
        found == stands_at(text@, at as int, part@),
{
    if text.len() - at < part.len() {
        return false;
    }
    for i in 0..part.len()
        invariant
            at + part.len() <= text.len(),
            forall|j: int| 0 <= j < i ==> text@[at + j] == part@[j],
    {
        if text[at + i] != part[i] {
            proof {
                assert(text@.subrange(at as int, at + part@.len())[i as int] == text@[at + i]);
            }
            return false;
        }
    }
    proof {
        assert(text@.subrange(at as int, at + part@.len()) =~= part@);
    }
    true
}

/// Whether `text` begins with `part`.
pub fn begins(text: &str, part: &str) -> (found: bool)
    ensures
        found == starts_with(text@, part@),
{
    has_at(&chars_of(text), 0, &chars_of(part))
}

/// Whether the characters are the same.
pub fn same_chars(a: &Vec<char>, b: &Vec<char>) -> (equal: bool)
    ensures
        equal == (a@ == b@),
{
    if a.len() != b.len() {
        return false;
    }
    proof {
        assert(a@.subrange(0, b@.len() as int) =~= a@);
    }
    has_at(a, 0, b)
}

/// Whether the two texts are the same.
pub fn same(a: &str, b: &str) -> (equal: bool)
    ensures
        equal == (a@ == b@),
{
    same_chars(&chars_of(a), &chars_of(b))
}

/// The lower-case letter of an ASCII upper-case one; any other character as it is.
pub open spec fn lower(c: char) -> char {
    if 'A' <= c && c <= 'Z' {
        ((c as u32) + 32) as char
    } else {
        c
    }
}

/// `text` with its ASCII letters in lower case.
pub open spec fn lowered(text: Seq<char>) -> Seq<char> {
    text.map_values(|c: char| lower(c))
}

/// The lower-case letter of an ASCII upper-case one; any other character as it is.
pub fn lower_char(c: char) -> (lowered: char)
    ensures
        lowered == lower(c),
{
    if 'A' <= c && c <= 'Z' {
        ((c as u8) + 32) as char
    } else {
        c
    }
}

/// `text` with its ASCII letters in lower case.
pub fn lower_chars(text: &Vec<char>) -> (lower: Vec<char>)
    ensures
        lower@ == lowered(text@),
{
    let mut lower: Vec<char> = Vec::new();
    for i in 0..text.len()
        invariant
            lower@ == lowered(text@.take(i as int)),
    {
        proof {
            assert(lowered(text@.take(i + 1)) =~= lowered(text@.take(i as int)).push(
                self::lower(text@[i as int]),
            ));
        }
        lower.push(lower_char(text[i]));
    }
    proof {
        assert(text@.take(text@.len() as int) =~= text@);
    }
    lower
}

/// `text` without the white space at its start.
pub open spec fn trim_start(text: Seq<char>) -> Seq<char>
    decreases text.len(),
{
    if text.len() > 0 && is_white(text[0]) {
        trim_start(text.drop_first())
    } else {
        text
    }
}

/// `text` without the white space at its end.
pub open spec fn trim_end(text: Seq<char>) -> Seq<char>
    decreases text.len(),
{
    if text.len() > 0 && is_white(text.last()) {
        trim_end(text.drop_last())
    } else {
        text
    }
}

/// `text` without the white space at its ends.
pub open spec fn trim(text: Seq<char>) -> Seq<char> {
    trim_end(trim_start(text))
}

/// Where the white space at the start of `text`, from `start` on, ends.
pub fn skip_white(text: &Vec<char>, start: usize) -> (at: usize)
    requires
        start <= text@.len(),
    ensures
        start <= at <= text@.len(),
        trim_start(text@.skip(start as int)) == text@.skip(at as int),
        at < text@.len() ==> !is_white(text@[at as int]),
        forall|i: int| start <= i < at ==> is_white(text@[i]),
{
    let mut at: usize = start;
    while at < text.len() && text[at].is_whitespace()
        invariant
            start <= at <= text@.len(),
            trim_start(text@.skip(start as int)) == trim_start(text@.skip(at as int)),
            forall|i: int| start <= i < at ==> is_white(text@[i]),
        decreases text@.len() - at,
    {
        proof {
            assert(text@.skip(at as int).drop_first() =~= text@.skip(at + 1));
        }
        at += 1;
    }
    at
}

/// The characters of `text` without the white space at its ends.
pub fn trimmed(text: &Vec<char>) -> (out: Vec<char>)
    ensures
        out@ == trim(text@),
{
    proof {
        assert(text@.skip(0) =~= text@);
    }
    let start = skip_white(text, 0);
    let mut out: Vec<char> = Vec::new();
    for i in start..text.len()
        invariant
            start <= text@.len(),
            out@ == text@.subrange(start as int, i as int),
    {
        proof {
            assert(text@.subrange(start as int, i + 1) =~= text@.subrange(
                start as int,
                i as int,
            ).push(text@[i as int]));
        }
        out.push(text[i]);
    }
    proof {
        assert(text@.subrange(start as int, text@.len() as int) =~= text@.skip(start as int));
    }
    while out.len() > 0 && out[out.len() - 1].is_whitespace()
        invariant
            trim_end(out@) == trim_end(text@.skip(start as int)),
        decreases out@.len(),
    {
        let _ = out.pop();
    }
    out
}

/// The characters of `text` before the first white space in it.
pub open spec fn until_white(text: Seq<char>) -> Seq<char>
    decreases text.len(),
{
    if text.len() > 0 && !is_white(text[0]) {
        seq![text[0]] + until_white(text.drop_first())
    } else {
        Seq::empty()
    }
}

/// The first word of `text`, which white space separates; empty if there is none.
pub open spec fn first_word_of(text: Seq<char>) -> Seq<char> {
    until_white(trim_start(text))
}

/// The first word of `text`, which white space separates; empty if there is none.
pub fn first_word(text: &Vec<char>) -> (word: Vec<char>)
    ensures
        word@ == first_word_of(text@),
{
    proof {
        assert(text@.skip(0) =~= text@);
    }
    let start = skip_white(text, 0);
    let mut word: Vec<char> = Vec::new();
    let mut at: usize = start;
    while at < text.len() && !text[at].is_whitespace()
        invariant
            start <= at <= text@.len(),
            until_white(text@.skip(start as int)) == word@ + until_white(text@.skip(at as int)),
        decreases text@.len() - at,
    {
        proof {
            assert(text@.skip(at as int).drop_first() =~= text@.skip(at + 1));
            assert(word@ + (seq![text@[at as int]] + until_white(text@.skip(at + 1)))
                =~= word@.push(text@[at as int]) + until_white(text@.skip(at + 1)));
        }
        word.push(text[at]);
        at += 1;
    }
    proof {
        assert(word@ + Seq::<char>::empty() =~= word@);
    }
    word
}

/// The decimal digit of a number below ten.
pub open spec fn digit(n: nat) -> char {
    (48 + n) as char
}

/// A number in decimal.
pub open spec fn decimal(n: nat) -> Seq<char>
    decreases n,
{
    if n < 10 {
        seq![digit(n)]
    } else {
        decimal(n / 10).push(digit(n % 10))
    }
}

/// Add `n` in decimal to `out`.
pub fn push_decimal(out: &mut String, n: u128)
    ensures
        final(out)@ == old(out)@ + decimal(n as nat),
    decreases n,
{
    if n >= 10 {
        push_decimal(out, n / 10);
    }
    let last: u8 = 48 + (n % 10) as u8;
    out.push(last as char);
    proof {
        assert(out@ =~= old(out)@ + decimal(n as nat));
    }
}

/// A signed number in decimal.
pub open spec fn decimal_signed(n: int) -> Seq<char> {
    if n < 0 {
        seq!['-'] + decimal((-n) as nat)
    } else {
        decimal(n as nat)
    }
}

/// Add `n` in decimal to `out`.
pub fn push_signed(out: &mut String, n: i32)
    ensures
        final(out)@ == old(out)@ + decimal_signed(n as int),
{
    if n < 0 {
        out.push('-');
        push_decimal(out, (-(n as i64)) as u128);
        proof {
            assert(out@ =~= old(out)@ + decimal_signed(n as int));
        }
    } else {
        push_decimal(out, n as u128);
    }
}

/// The hexadecimal digit of a number below sixteen.
pub open spec fn hex_digit(n: nat) -> char {
    if n < 10 {
        (48 + n) as char
    } else {
        (87 + n) as char
    }
}

/// A number in lower-case hexadecimal.
pub open spec fn hex(n: nat) -> Seq<char>
    decreases n,
{
    if n < 16 {
        seq![hex_digit(n)]
    } else {
        hex(n / 16).push(hex_digit(n % 16))
    }
}

/// A number in lower-case hexadecimal, in `width` digits.
pub open spec fn hex_padded(n: nat, width: nat) -> Seq<char>
    decreases width,
{
    if width == 0 {
        Seq::empty()
    } else {
        hex_padded(n / 16, (width - 1) as nat).push(hex_digit(n % 16))
    }
}

/// The hexadecimal digit of a number below sixteen.
fn hex_char(n: u64) -> (c: char)
    requires
        n < 16,
    ensures
        c == hex_digit(n as nat),
{
    let code: u8 = if n < 10 {
        48 + n as u8
    } else {
        87 + n as u8
    };
    code as char
}

/// Add `n` in lower-case hexadecimal to `out`.
pub fn push_hex(out: &mut String, n: u64)
    ensures
        final(out)@ == old(out)@ + hex(n as nat),
    decreases n,
{
    if n >= 16 {
        push_hex(out, n / 16);
    }
    out.push(hex_char(n % 16));
    proof {
        assert(out@ =~= old(out)@ + hex(n as nat));
    }
}

/// Add `n` in lower-case hexadecimal, in `width` digits, to `out`.
pub fn push_hex_padded(out: &mut String, n: u64, width: usize)
    ensures
        final(out)@ == old(out)@ + hex_padded(n as nat, width as nat),
    decreases width,
{
    if width > 0 {
        push_hex_padded(out, n / 16, width - 1);
        out.push(hex_char(n % 16));
    }
    proof {
        assert(out@ =~= old(out)@ + hex_padded(n as nat, width as nat));
    }
}

/// The number of digits of a padded number.
pub proof fn hex_padded_len(n: nat, width: nat)
    ensures
        hex_padded(n, width).len() == width,
    decreases width,
{
    if width > 0 {
        hex_padded_len(n / 16, (width - 1) as nat);
    }
}

/// What follows the last `c` in `text`; `None` where there is none.
pub open spec fn after_last(text: Seq<char>, c: char) -> Option<Seq<char>>
    decreases text.len(),
{
    if text.len() == 0 {
        None
    } else if text.last() == c {
        Some(Seq::empty())
    } else {
        match after_last(text.drop_last(), c) {
            Some(rest) => Some(rest.push(text.last())),
            None => None,
        }
    }
}

/// What follows the last `c` in `text`; `None` where there is none.
pub fn split_after_last(text: &Vec<char>, c: char) -> (rest: Option<Vec<char>>)
    ensures
        match rest {
            Some(rest) => after_last(text@, c) == Some(rest@),
            None => after_last(text@, c) is None,
        },
{
    let mut rest: Option<Vec<char>> = None;
    for i in 0..text.len()
        invariant
            match rest {
                Some(rest) => after_last(text@.take(i as int), c) == Some(rest@),
                None => after_last(text@.take(i as int), c) is None,
            },
    {
        proof {
            assert(text@.take(i + 1).drop_last() =~= text@.take(i as int));
        }
        if text[i] == c {
            rest = Some(Vec::new());
        } else {
            rest = match rest {
                Some(mut found) => {
                    found.push(text[i]);
                    Some(found)
                },
                None => None,
            };
        }
    }
    proof {
        assert(text@.take(text@.len() as int) =~= text@);
    }
    rest
}

/// Texts as contracts speak of them.
pub open spec fn texts(list: Seq<String>) -> Seq<Seq<char>> {
    list.map_values(|text: String| text@)
}

/// White space and what comes before it are no longer than the text.
pub proof fn word_fits(text: Seq<char>)
    ensures
        trim_start(text).len() <= text.len(),
        until_white(text).len() <= text.len(),
        text.len() > 0 && !is_white(text[0]) ==> until_white(text).len() > 0,
        trim_start(text).len() > 0 ==> !is_white(trim_start(text)[0]),
    decreases text.len(),
{
    if text.len() > 0 {
        word_fits(text.drop_first());
    }
}

/// The words of a text, which white space separates.
pub open spec fn words_of(text: Seq<char>) -> Seq<Seq<char>>
    decreases text.len(),
{
    let rest = trim_start(text);
    if rest.len() == 0 {
        Seq::empty()
    } else {
        let word = until_white(rest);
        proof {
            word_fits(text);
            word_fits(rest);
        }
        seq![word] + words_of(rest.skip(word.len() as int))
    }
}

/// The words of a text, which white space separates.
pub fn words(text: &Vec<char>) -> (found: Vec<String>)
    ensures
        texts(found@) == words_of(text@),
{
    let mut found: Vec<String> = Vec::new();
    let mut at: usize = 0;
    proof {
        assert(text@.skip(0) =~= text@);
        assert(texts(found@) + words_of(text@) =~= words_of(text@));
    }
    while at < text.len()
        invariant
            at <= text@.len(),
            words_of(text@) == texts(found@) + words_of(text@.skip(at as int)),
        decreases text@.len() - at,
    {
        let start = skip_white(text, at);
        let ghost from = text@.skip(at as int);
        let ghost rest = text@.skip(start as int);
        if start == text.len() {
            proof {
                assert(words_of(from) =~= Seq::<Seq<char>>::empty());
                assert(words_of(text@.skip(text@.len() as int)) =~= Seq::<Seq<char>>::empty());
            }
            at = start;
        } else {
            let mut end: usize = start;
            let mut word = String::new();
            proof {
                assert(word@ + until_white(rest) =~= until_white(rest));
            }
            while end < text.len() && !text[end].is_whitespace()
                invariant
                    start <= end <= text@.len(),
                    word@.len() == end - start,
                    until_white(text@.skip(start as int)) == word@ + until_white(
                        text@.skip(end as int),
                    ),
                decreases text@.len() - end,
            {
                proof {
                    assert(text@.skip(end as int).drop_first() =~= text@.skip(end + 1));
                    assert(word@ + (seq![text@[end as int]] + until_white(text@.skip(end + 1)))
                        =~= word@.push(text@[end as int]) + until_white(text@.skip(end + 1)));
                }
                word.push(text[end]);
                end += 1;
            }
            proof {
                assert(word@ + Seq::<char>::empty() =~= word@);
                assert(until_white(rest) == word@);
                assert(rest.skip(word@.len() as int) =~= text@.skip(end as int));
                word_fits(rest);
                assert(words_of(from) =~= seq![word@] + words_of(text@.skip(end as int)));
                assert(texts(found@.push(word)) =~= texts(found@).push(word@));
                assert(texts(found@) + (seq![word@] + words_of(text@.skip(end as int))) =~= texts(
                    found@,
                ).push(word@) + words_of(text@.skip(end as int)));
            }
            found.push(word);
            at = end;
        }
    }
    proof {
        assert(text@.skip(at as int) =~= Seq::<char>::empty());
        assert(texts(found@) + words_of(text@.skip(at as int)) =~= texts(found@));
    }
    found
}

/// The number whose decimal digits `text` is made of; `None` if it holds anything else.
pub open spec fn number_of(text: Seq<char>) -> Option<nat>
    decreases text.len(),
{
    if text.len() == 0 {
        Some(0)
    } else if '0' <= text.last() && text.last() <= '9' {
        match number_of(text.drop_last()) {
            Some(n) => Some((n * 10 + (text.last() as nat - 48)) as nat),
            None => None,
        }
    } else {
        None
    }
}

/// The number a text writes out, after a plus sign or none; `None` if it is no number or is
/// too large.
pub open spec fn u32_of(text: Seq<char>) -> Option<u32> {
    let digits = if text.len() > 0 && text[0] == '+' {
        text.skip(1)
    } else {
        text
    };
    match number_of(digits) {
        Some(n) if digits.len() > 0 && n <= u32::MAX => Some(n as u32),
        _ => None,
    }
}

/// A text that starts as no number is none, and more digits make a number no smaller.
proof fn number_grows(text: Seq<char>, end: int)
    requires
        0 <= end <= text.len(),
    ensures
        number_of(text.take(end)) is None ==> number_of(text) is None,
        number_of(text) matches Some(n) ==> number_of(text.take(end)) matches Some(m) && m <= n,
    decreases text.len() - end,
{
    if end == text.len() {
        assert(text.take(end) =~= text);
    } else {
        number_grows(text, end + 1);
        assert(text.take(end + 1).drop_last() =~= text.take(end));
    }
}

/// The number the first `end` characters of `text` write out, after a plus sign or none.
pub fn parse_u32(text: &Vec<char>, end: usize) -> (number: Option<u32>)
    requires
        end <= text@.len(),
    ensures
        number == u32_of(text@.take(end as int)),
{
    let ghost all = text@.take(end as int);
    let start: usize = if end > 0 && text[0] == '+' {
        1
    } else {
        0
    };
    let ghost digits = all.skip(start as int);
    proof {
        assert(all.skip(0) =~= all);
    }
    if start == end {
        return None;
    }
    let mut number: u64 = 0;
    for i in start..end
        invariant
            start < end <= text@.len(),
            start == (if text@[0] == '+' {
                1int
            } else {
                0int
            }),
            digits == text@.take(end as int).skip(start as int),
            text@.take(end as int).skip(0) == text@.take(end as int),
            number <= u32::MAX,
            number_of(digits.take(i - start)) == Some(number as nat),
    {
        let c = text[i];
        proof {
            assert(digits.take(i + 1 - start).drop_last() =~= digits.take(i - start));
            assert(digits.take(i + 1 - start).last() == c);
            number_grows(digits, i + 1 - start);
        }
        if !('0' <= c && c <= '9') {
            return None;
        }
        number = number * 10 + (c as u64 - 48);
        if number > u32::MAX as u64 {
            return None;
        }
    }
    proof {
        assert(digits.take(end - start) =~= digits);
    }
    Some(number as u32)
}

/// A number's decimal text reads back as the number.
pub proof fn decimal_reads_back(n: u32)
    ensures
        u32_of(decimal(n as nat)) == Some(n),
{
    decimal_is_the_number(n as nat);
}

/// Decimal text is made of digits, and they write out the number.
pub proof fn decimal_is_the_number(n: nat)
    ensures
        decimal(n).len() > 0,
        '0' <= decimal(n)[0] <= '9',
        number_of(decimal(n)) == Some(n),
    decreases n,
{
    reveal_with_fuel(number_of, 2);
    if n >= 10 {
        decimal_is_the_number(n / 10);
        assert(decimal(n).drop_last() =~= decimal(n / 10));
    } else {
        assert(decimal(n).drop_last() =~= Seq::<char>::empty());
    }
}

/// Whether every character is an ASCII one.
pub open spec fn is_ascii_text(text: Seq<char>) -> bool {
    forall|i: int| 0 <= i < text.len() ==> (#[trigger] text[i] as u32) < 128
}

/// The lower-case text that `str::to_lowercase` gives, by the Unicode rules.
pub uninterp spec fn unicode_lowercase(text: Seq<char>) -> Seq<char>;

/// A text in lower case: ASCII text with its letters in lower case, any other text by the
/// Unicode rules.
pub open spec fn lowercase(text: Seq<char>) -> Seq<char> {
    if is_ascii_text(text) {
        lowered(text)
    } else {
        unicode_lowercase(text)
    }
}

/// `str::to_lowercase` puts the letters of ASCII text in lower case and leaves the rest of it;
/// of any other text it is a function of the text alone, named [`unicode_lowercase`]. What it
/// gives is in lower case, so it is the lower-case text of itself: the characters that Unicode
/// maps others to in lower case are mapped to themselves.
#[verifier::external_body]
pub(crate) fn to_lowercase(text: &str) -> (lower: String)
    ensures
        lower@ == lowercase(text@),
        !is_ascii_text(text@) ==> lower@ == unicode_lowercase(text@),
        lowercase(lower@) == lower@,
{
    text.to_lowercase()
}

/// Whether `part` stands anywhere in `text`.
pub open spec fn holds(text: Seq<char>, part: Seq<char>) -> bool {
    exists|at: int| 0 <= at && #[trigger] stands_at(text, at, part)
}

/// The first place at or after `from` at which `part` stands in `text`.
pub open spec fn find_at(text: Seq<char>, from: int, part: Seq<char>) -> Option<int>
    decreases text.len() + 1 - from,
{
    if from < 0 || from > text.len() {
        None
    } else if stands_at(text, from, part) {
        Some(from)
    } else {
        find_at(text, from + 1, part)
    }
}

/// A place found is the first at which the part stands; where none is found it stands
/// nowhere.
pub proof fn found_first(text: Seq<char>, from: int, part: Seq<char>)
    requires
        0 <= from,
    ensures
        match find_at(text, from, part) {
            Some(at) => from <= at && stands_at(text, at, part) && forall|i: int|
                from <= i < at ==> !stands_at(text, i, part),
            None => forall|i: int| from <= i ==> !stands_at(text, i, part),
        },
    decreases text.len() + 1 - from,
{
    if from <= text.len() && !stands_at(text, from, part) {
        found_first(text, from + 1, part);
    }
}

/// The first place at or after `from` at which `part` stands in `text`.
pub fn find(text: &Vec<char>, from: usize, part: &Vec<char>) -> (found: Option<usize>)
    requires
        from <= text@.len(),
    ensures
        match found {
            Some(at) => find_at(text@, from as int, part@) == Some(at as int),
            None => find_at(text@, from as int, part@) is None,
        },
        found matches Some(at) ==> from <= at && stands_at(text@, at as int, part@),
{
    let mut at: usize = from;
    loop
        invariant
            from <= at <= text@.len(),
            find_at(text@, from as int, part@) == find_at(text@, at as int, part@),
        decreases text@.len() - at,
    {
        if has_at(text, at, part) {
            return Some(at);
        }
        if at == text.len() {
            proof {
                assert(find_at(text@, at + 1, part@) is None);
            }
            return None;
        }
        at += 1;
    }
}

/// Whether `part` stands anywhere in `text`.
pub fn contains(text: &Vec<char>, part: &Vec<char>) -> (found: bool)
    ensures
        found == holds(text@, part@),
{
    proof {
        found_first(text@, 0, part@);
    }
    find(text, 0, part).is_some()
}

/// `text` without the `c`s at its start.
pub open spec fn drop_start(text: Seq<char>, c: char) -> Seq<char>
    decreases text.len(),
{
    if text.len() > 0 && text[0] == c {
        drop_start(text.drop_first(), c)
    } else {
        text
    }
}

/// `text` without the `c`s at its end.
pub open spec fn drop_end(text: Seq<char>, c: char) -> Seq<char>
    decreases text.len(),
{
    if text.len() > 0 && text.last() == c {
        drop_end(text.drop_last(), c)
    } else {
        text
    }
}

/// Take the `c`s at the end of `text` away.
pub fn cut_end(text: &mut Vec<char>, c: char)
    ensures
        final(text)@ == drop_end(old(text)@, c),
{
    let ghost before = text@;
    while text.len() > 0 && text[text.len() - 1] == c
        invariant
            drop_end(text@, c) == drop_end(before, c),
        decreases text@.len(),
    {
        let _ = text.pop();
    }
}

/// The characters of `text` from `start` up to `end` without the `c`s at their ends.
pub fn cut_ends(text: &Vec<char>, start: usize, end: usize, c: char) -> (out: Vec<char>)
    requires
        start <= end <= text@.len(),
    ensures
        out@ == drop_end(drop_start(text@.subrange(start as int, end as int), c), c),
{
    let ghost whole = text@.subrange(start as int, end as int);
    let mut from: usize = start;
    while from < end && text[from] == c
        invariant
            start <= from <= end <= text@.len(),
            drop_start(whole, c) == drop_start(text@.subrange(from as int, end as int), c),
        decreases end - from,
    {
        proof {
            assert(text@.subrange(from as int, end as int).drop_first() =~= text@.subrange(
                from + 1,
                end as int,
            ));
        }
        from += 1;
    }
    let mut out: Vec<char> = Vec::new();
    for i in from..end
        invariant
            from <= end <= text@.len(),
            out@ == text@.subrange(from as int, i as int),
    {
        proof {
            assert(text@.subrange(from as int, i + 1) =~= text@.subrange(
                from as int,
                i as int,
            ).push(text@[i as int]));
        }
        out.push(text[i]);
    }
    cut_end(&mut out, c);
    out
}

/// `text` with each character written as `write` says.
pub open spec fn spread(text: Seq<char>, write: spec_fn(char) -> Seq<char>) -> Seq<char>
    decreases text.len(),
{
    if text.len() == 0 {
        Seq::empty()
    } else {
        spread(text.drop_last(), write) + write(text.last())
    }
}

/// One more character is written after the rest.
pub proof fn spread_push(text: Seq<char>, c: char, write: spec_fn(char) -> Seq<char>)
    ensures
        spread(text.push(c), write) == spread(text, write) + write(c),
{
    assert(text.push(c).drop_last() =~= text);
}

/// What no character is written as, the whole does not hold.
pub proof fn spread_avoids(text: Seq<char>, write: spec_fn(char) -> Seq<char>, bad: char)
    requires
        forall|c: char| !(#[trigger] write(c)).contains(bad),
    ensures
        !spread(text, write).contains(bad),
    decreases text.len(),
{
    if text.len() > 0 {
        spread_avoids(text.drop_last(), write, bad);
        let before = spread(text.drop_last(), write);
        let last = write(text.last());
        assert forall|i: int| 0 <= i < (before + last).len() implies (before + last)[i] != bad by {
            if i < before.len() {
                assert(before.contains(before[i]));
            } else {
                assert(last.contains(last[i - before.len()]));
            }
        }
    }
}

/// The text of the bytes of `text` from `start` up to `end`; `None` where they are no text of
/// their own.
pub open spec fn slice_of(text: Seq<char>, start: int, end: int) -> Option<Seq<char>> {
    let bytes = vstd::utf8::encode_utf8(text);
    if 0 <= start <= end <= bytes.len() && vstd::utf8::is_char_boundary(bytes, end)
        && vstd::utf8::is_char_boundary(bytes.subrange(0, end), start) {
        Some(vstd::utf8::decode_utf8(bytes.subrange(start, end)))
    } else {
        None
    }
}

/// The text of the bytes of `text` from `start` up to `end`; `None` where they are no text of
/// their own.
pub fn slice(text: &str, start: usize, end: usize) -> (piece: Option<String>)
    ensures
        match piece {
            Some(piece) => slice_of(text@, start as int, end as int) == Some(piece@),
            None => slice_of(text@, start as int, end as int) is None,
        },
{
    let size = text.as_bytes().len();
    if start > end || end > size || !text.is_char_boundary(end) {
        return None;
    }
    let (head, _) = text.split_at(end);
    if !head.is_char_boundary(start) {
        return None;
    }
    let (_, piece) = head.split_at(start);
    proof {
        let bytes = vstd::utf8::encode_utf8(text@);
        assert(bytes.subrange(0, end as int).subrange(start as int, end as int)
            =~= bytes.subrange(start as int, end as int));
        vstd::utf8::encode_utf8_decode_utf8(piece@);
    }
    Some(String::from_str(piece))
}

/// A character as it is written between quotes: a backslash stands before a quote and before
/// another backslash.
pub open spec fn quoted_char(c: char, quote: char) -> Seq<char> {
    if c == '\\' || c == quote {
        seq!['\\', c]
    } else {
        seq![c]
    }
}

/// Text as it is written between quotes.
pub open spec fn quoted(text: Seq<char>, quote: char) -> Seq<char> {
    spread(text, |c: char| quoted_char(c, quote))
}

/// Add `text` as it is written between quotes to `out`.
pub fn push_quoted(out: &mut String, text: &str, quote: char)
    ensures
        final(out)@ == old(out)@ + quoted(text@, quote),
{
    let chars = chars_of(text);
    let ghost start = out@;
    let ghost write = |c: char| quoted_char(c, quote);
    proof {
        assert(chars@.take(0) =~= Seq::<char>::empty());
        assert(start + Seq::<char>::empty() =~= start);
    }
    for i in 0..chars.len()
        invariant
            write == (|c: char| quoted_char(c, quote)),
            out@ == start + spread(chars@.take(i as int), write),
    {
        let c = chars[i];
        proof {
            assert(chars@.take(i + 1) =~= chars@.take(i as int).push(c));
            spread_push(chars@.take(i as int), c, write);
        }
        let ghost before = out@;
        if c == '\\' || c == quote {
            out.push('\\');
        }
        out.push(c);
        proof {
            assert(out@ =~= before + quoted_char(c, quote));
            assert(out@ =~= start + spread(chars@.take(i + 1), write));
        }
    }
    proof {
        assert(chars@.take(chars@.len() as int) =~= chars@);
    }
}

/// What stands between quotes up to the first quote that no backslash is before, and what
/// follows that quote.
pub open spec fn unquoted(text: Seq<char>, quote: char) -> Option<(Seq<char>, Seq<char>)>
    decreases text.len(),
{
    if text.len() == 0 {
        None
    } else if text[0] == quote {
        Some((Seq::empty(), text.skip(1)))
    } else if text[0] == '\\' {
        if text.len() == 1 {
            None
        } else {
            match unquoted(text.skip(2), quote) {
                Some((inside, after)) => Some((seq![text[1]] + inside, after)),
                None => None,
            }
        }
    } else {
        match unquoted(text.skip(1), quote) {
            Some((inside, after)) => Some((seq![text[0]] + inside, after)),
            None => None,
        }
    }
}

/// The rest of a text is written after its first character.
proof fn quoted_first(text: Seq<char>, quote: char)
    requires
        text.len() > 0,
    ensures
        quoted(text, quote) == quoted_char(text[0], quote) + quoted(text.skip(1), quote),
    decreases text.len(),
{
    if text.len() == 1 {
        assert(text.drop_last() =~= Seq::<char>::empty());
        assert(text.skip(1) =~= Seq::<char>::empty());
    } else {
        quoted_first(text.drop_last(), quote);
        assert(text.drop_last().skip(1) =~= text.skip(1).drop_last());
    }
    assert(quoted(text, quote) =~= quoted_char(text[0], quote) + quoted(text.skip(1), quote));
}

/// Whatever a text holds, it is what is read back between the quotes it is written between, and
/// what follows them is not part of it.
pub proof fn quotes_hold(text: Seq<char>, quote: char, after: Seq<char>)
    requires
        quote != '\\',
    ensures
        unquoted(quoted(text, quote) + seq![quote] + after, quote) == Some((text, after)),
    decreases text.len(),
{
    let whole = quoted(text, quote) + seq![quote] + after;
    if text.len() == 0 {
        assert(quoted(text, quote) =~= Seq::<char>::empty());
        assert(whole.skip(1) =~= after);
        assert(text =~= Seq::<char>::empty());
    } else {
        quoted_first(text, quote);
        quotes_hold(text.skip(1), quote, after);
        let rest = quoted(text.skip(1), quote) + seq![quote] + after;
        let first = quoted_char(text[0], quote);
        assert(whole =~= first + rest);
        assert(whole.skip(first.len() as int) =~= rest);
        assert(seq![text[0]] + text.skip(1) =~= text);
    }
}

/// `template` with its first `{}` replaced by `value`.
pub open spec fn filled(template: Seq<char>, value: Seq<char>) -> Seq<char> {
    match find_at(template, 0, "{}"@) {
        Some(at) => template.take(at) + value + template.skip(at + 2),
        None => template,
    }
}

/// `template` with its first `{}` replaced by `value`.
pub fn fill(template: &str, value: &str) -> (out: String)
    ensures
        out@ == filled(template@, value@),
{
    let chars = chars_of(template);
    let hole = chars_of("{}");
    proof {
        reveal_strlit("{}");
        found_first(chars@, 0, "{}"@);
    }
    match find(&chars, 0, &hole) {
        Some(at) => {
            proof {
                assert(at + 2 <= chars.len());
            }
            let mut out = text_of(&chars, 0, at);
            out.append(value);
            let rest = text_of(&chars, at + 2, chars.len());
            out.append(rest.as_str());
            proof {
                assert(out@ =~= filled(template@, value@));
            }
            out
        },
        None => String::from_str(template),
    }
}

/// `template` with its first `{}` replaced by a number.
pub fn fill_number(template: &str, number: u128) -> (out: String)
    ensures
        out@ == filled(template@, decimal(number as nat)),
{
    let mut value = String::new();
    push_decimal(&mut value, number);
    proof {
        assert(value@ =~= decimal(number as nat));
    }
    fill(template, value.as_str())
}

}
