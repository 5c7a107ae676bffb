//! Text utilities shared by the parser and the evaluator: splitting a line
//! into words, comparing words, reading decimal integer literals and writing
//! them.

use vstd::prelude::*;
use vstd::std_specs::iter::IteratorSpec;

verus! {

/// Whether two string slices hold the same characters.
pub fn str_eq(a: &str, b: &str) -> (same: bool)
    ensures
        same == (a@ == b@),
{
    let x = a.as_bytes();
    let y = b.as_bytes();
    proof {
        // Decoding undoes encoding, so equal bytes come from equal characters.
        vstd::utf8::encode_utf8_decode_utf8(a@);
        vstd::utf8::encode_utf8_decode_utf8(b@);
    }
    if x.len() != y.len() {
        return false;
    }
    let mut i: usize = 0;
    while i < x.len()
        invariant
            (a@ == b@) == (x@ == y@),
            x@.len() == y@.len(),
            i <= x@.len(),
            x@.subrange(0, i as int) == y@.subrange(0, i as int),
        decreases x@.len() - i,
    {
        if x[i] != y[i] {
            return false;
        }
        assert(x@.subrange(0, i + 1) == x@.subrange(0, i as int).push(x@[i as int]));
        assert(y@.subrange(0, i + 1) == y@.subrange(0, i as int).push(y@[i as int]));
        i += 1;
    }
    assert(x@ == x@.subrange(0, i as int));
    assert(y@ == y@.subrange(0, i as int));
    true
}

/// Whether `c` is one of the ten ASCII decimal digits.
pub open spec fn is_digit(c: char) -> bool {
    '0' <= c && c <= '9'
}

/// The number that the decimal digit `c` stands for.
pub open spec fn digit_value(c: char) -> int {
    c as int - '0' as int
}

/// Whether every character of `s` is a decimal digit.
pub open spec fn all_digits(s: Seq<char>) -> bool {
    forall|i: int| 0 <= i < s.len() ==> is_digit(#[trigger] s[i])
}

/// The number written by the decimal digits `s`, most significant first.
pub open spec fn digits_value(s: Seq<char>) -> nat
    decreases s.len(),
{
    if s.len() == 0 {
        0
    } else {
        (10 * digits_value(s.drop_last()) + digit_value(s.last())) as nat
    }
}

/// Whether `s` starts with a sign character.
pub open spec fn has_sign(s: Seq<char>) -> bool {
    s.len() > 0 && (s[0] == '-' || s[0] == '+')
}

/// The integer that `s` writes in base ten: an optional `+` or `-`, then one
/// or more decimal digits and nothing else. `None` for any other text.
pub open spec fn int_literal(s: Seq<char>) -> Option<int> {
    let body = if has_sign(s) {
        s.subrange(1, s.len() as int)
    } else {
        s
    };
    if body.len() > 0 && all_digits(body) {
        if has_sign(s) && s[0] == '-' {
            Some(-(digits_value(body) as int))
        } else {
            Some(digits_value(body) as int)
        }
    } else {
        None
    }
}

/// The 32-bit signed integer that `s` writes in base ten, if it writes one
/// and the number fits.
pub open spec fn i32_literal(s: Seq<char>) -> Option<i32> {
    match int_literal(s) {
        Some(v) => if i32::MIN <= v <= i32::MAX {
            Some(v as i32)
        } else {
            None
        },
        None => None,
    }
}

/// Appending a digit multiplies the value by ten and adds the digit.
proof fn lemma_digits_value_push(s: Seq<char>, c: char)
    requires
        is_digit(c),
    ensures
        digits_value(s.push(c)) == 10 * digits_value(s) + digit_value(c),
{
    assert(s.push(c).drop_last() == s);
}

/// Reads a base-ten 32-bit signed integer: an optional sign, then digits.
pub fn parse_i32(word: &str) -> (number: Option<i32>)
    ensures
        number == i32_literal(word@),
{
    if !word.is_ascii() {
        proof {
            // A character outside ASCII is neither a sign nor a digit.
            let k = choose|k: int| 0 <= k < word@.len() && !('\0' <= #[trigger] word@[k] <= '\u{7f}');
            if has_sign(word@) {
                assert(k >= 1);
                assert(!is_digit(word@.subrange(1, word@.len() as int)[k - 1]));
            } else {
                assert(!is_digit(word@[k]));
            }
        }
        return None;
    }
    let bytes = word.as_bytes();
    proof {
        vstd::string::is_ascii_spec_bytes(word);
    }
    let n = bytes.len();
    if n == 0 {
        return None;
    }
    let negative = bytes[0] == 45;
    let start: usize = if bytes[0] == 45 || bytes[0] == 43 {
        1
    } else {
        0
    };
    assert(has_sign(word@) == (start == 1));
    assert(negative == (word@[0] == '-'));
    let ghost body = word@.subrange(start as int, n as int);
    if start == n {
        return None;
    }
    let mut magnitude: i64 = 0;
    let mut too_big = false;
    let mut i: usize = start;
    assert(body.subrange(0, 0) == Seq::<char>::empty());
    while i < n
        invariant
            start <= i <= n,
            start < n,
            has_sign(word@) == (start == 1),
            start == 0 || start == 1,
            negative == (word@[0] == '-'),
            n == word@.len(),
            n == bytes@.len(),
            body == word@.subrange(start as int, n as int),
            forall|k: int| 0 <= k < n ==> bytes@[k] == word@[k] as u8,
            forall|k: int| 0 <= k < n ==> '\0' <= #[trigger] word@[k] <= '\u{7f}',
            all_digits(body.subrange(0, i - start)),
            !too_big ==> 0 <= magnitude <= 2147483648 && magnitude == digits_value(
                body.subrange(0, i - start),
            ),
            too_big ==> digits_value(body.subrange(0, i - start)) > 2147483648,
        decreases n - i,
    {
        let b = bytes[i];
        let ghost c = word@[i as int];
        assert(c == body[i - start]);
        if b < 48 || b > 57 {
            assert(!is_digit(body[i - start]));
            return None;
        }
        proof {
            let before = body.subrange(0, i - start);
            assert(body.subrange(0, i + 1 - start) == before.push(c));
            lemma_digits_value_push(before, c);
        }
        if !too_big {
            magnitude = magnitude * 10 + (b - 48) as i64;
            if magnitude > 2147483648 {
                too_big = true;
            }
        }
        i += 1;
    }
    proof {
        assert(body.subrange(0, n - start) == body);
        if start == 0 {
            assert(body == word@);
        }
        assert(int_literal(word@) == Some(
            if negative {
                -(digits_value(body) as int)
            } else {
                digits_value(body) as int
            },
        ));
    }
    if too_big {
        return None;
    }
    let value: i64 = if negative {
        -magnitude
    } else {
        magnitude
    };
    if value > 2147483647 {
        return None;
    }
    Some(value as i32)
}

/// The character that writes the digit `d`, for `d` from 0 to 9.
pub open spec fn digit_char(d: int) -> char {
    ((48 + d) as u8) as char
}

/// The decimal digits of `n`, most significant first, without leading zeros.
pub open spec fn nat_decimal(n: nat) -> Seq<char>
    decreases n,
{
    if n < 10 {
        seq![digit_char(n as int)]
    } else {
        nat_decimal(n / 10).push(digit_char((n % 10) as int))
    }
}

/// The text of `n` in base ten, with a leading `-` when negative.
pub open spec fn decimal(n: int) -> Seq<char> {
    if n < 0 {
        seq!['-'] + nat_decimal((-n) as nat)
    } else {
        nat_decimal(n as nat)
    }
}

/// The one-character text of the digit `d`.
fn digit_str(d: u8) -> (text: &'static str)
    requires
        d < 10,
    ensures
        text@ == seq![digit_char(d as int)],
{
    proof {
        reveal_strlit("0");
        reveal_strlit("1");
        reveal_strlit("2");
        reveal_strlit("3");
        reveal_strlit("4");
        reveal_strlit("5");
        reveal_strlit("6");
        reveal_strlit("7");
        reveal_strlit("8");
        reveal_strlit("9");
    }
    let text = if d == 0 {
        "0"
    } else if d == 1 {
        "1"
    } else if d == 2 {
        "2"
    } else if d == 3 {
        "3"
    } else if d == 4 {
        "4"
    } else if d == 5 {
        "5"
    } else if d == 6 {
        "6"
    } else if d == 7 {
        "7"
    } else if d == 8 {
        "8"
    } else {
        "9"
    };
    assert(text@ =~= seq![digit_char(d as int)]);
    text
}

/// Appends the decimal digits of `n` to `out`.
fn push_decimal(out: &mut String, n: u32)
    ensures
        final(out)@ == old(out)@ + nat_decimal(n as nat),
    decreases n,
{
    if n >= 10 {
        push_decimal(out, n / 10);
    }
    out.append(digit_str((n % 10) as u8));
}

/// Writes `n` in base ten.
pub fn decimal_string(n: i32) -> (text: String)
    ensures
        text@ == decimal(n as int),
{
    let mut text = String::new();
    if n < 0 {
        proof {
            reveal_strlit("-");
        }
        text.append("-");
        assert(text@ =~= seq!['-']);
        push_decimal(&mut text, (-(n as i64)) as u32);
    } else {
        push_decimal(&mut text, n as u32);
        assert(text@ =~= nat_decimal(n as nat));
    }
    text
}

/// Whether `c` is white space: a character that Unicode classes as
/// `White_Space`.
pub open spec fn is_space(c: char) -> bool {
    let code = c as u32;
    ||| 0x09 <= code <= 0x0D
    ||| code == 0x20
    ||| code == 0x85
    ||| code == 0xA0
    ||| code == 0x1680
    ||| 0x2000 <= code <= 0x200A
    ||| code == 0x2028
    ||| code == 0x2029
    ||| code == 0x202F
    ||| code == 0x205F
    ||| code == 0x3000
}

/// Whether `c` is white space.
pub fn is_whitespace(c: char) -> (space: bool)
    ensures
        space == is_space(c),
{
    let code = c as u32;
    (0x09 <= code && code <= 0x0D) || code == 0x20 || code == 0x85 || code == 0xA0 || code
        == 0x1680 || (0x2000 <= code && code <= 0x200A) || code == 0x2028 || code == 0x2029
        || code == 0x202F || code == 0x205F || code == 0x3000
}

/// The length of the longest start of `s` that holds no white space.
pub open spec fn word_len(s: Seq<char>) -> nat
    decreases s.len(),
{
    if s.len() == 0 || is_space(s[0]) {
        0
    } else {
        1 + word_len(s.drop_first())
    }
}

/// The first word of a text ends within the text.
pub proof fn lemma_word_len_bound(s: Seq<char>)
    ensures
        word_len(s) <= s.len(),
    decreases s.len(),
{
    if s.len() > 0 && !is_space(s[0]) {
        lemma_word_len_bound(s.drop_first());
    }
}

/// The words of `s`: its longest runs of characters that are not white
/// space, in order.
pub open spec fn split(s: Seq<char>) -> Seq<Seq<char>>
    decreases s.len(),
{
    if s.len() == 0 {
        Seq::empty()
    } else if is_space(s[0]) {
        split(s.drop_first())
    } else {
        proof {
            lemma_word_len_bound(s);
        }
        seq![s.take(word_len(s) as int)] + split(s.skip(word_len(s) as int))
    }
}

/// A start of `s` without white space, which ends where `s` ends or where
/// white space follows, is the first word of `s`.
proof fn lemma_word_len_is(s: Seq<char>, k: int)
    requires
        0 <= k <= s.len(),
        forall|j: int| 0 <= j < k ==> !is_space(#[trigger] s[j]),
        k < s.len() ==> is_space(s[k]),
    ensures
        word_len(s) == k,
    decreases k,
{
    if k > 0 {
        let rest = s.drop_first();
        assert forall|j: int| 0 <= j < k - 1 implies !is_space(#[trigger] rest[j]) by {
            assert(rest[j] == s[j + 1]);
        }
        lemma_word_len_is(rest, k - 1);
    }
}

/// The character sequences of a list of words.
pub open spec fn words_of(words: Seq<&str>) -> Seq<Seq<char>> {
    Seq::new(words.len(), |i: int| words[i]@)
}

/// Splits a line into its words at white space.
pub fn split_words<'a>(line: &'a str) -> (words: Vec<&'a str>)
    ensures
        words_of(words@) == split(line@),
{
    let total = line.unicode_len();
    let mut words: Vec<&'a str> = Vec::new();
    let mut chars = line.chars();
    let mut pos: usize = 0;
    let mut start: usize = 0;
    let mut inside = false;
    assert(words_of(words@) + split(line@.skip(0)) == split(line@)) by {
        assert(line@.skip(0) == line@);
        assert(words_of(words@) == Seq::<Seq<char>>::empty());
    }
    while pos < total
        invariant
            pos <= total,
            total == line@.len(),
            chars.remaining() == line@.skip(pos as int),
            chars.obeys_prophetic_iter_laws(),
            inside ==> start < pos,
            inside ==> forall|j: int| start <= j < pos ==> !is_space(#[trigger] line@[j]),
            inside ==> words_of(words@) + split(line@.skip(start as int)) == split(line@),
            !inside ==> words_of(words@) + split(line@.skip(pos as int)) == split(line@),
        decreases total - pos,
    {
        let c = chars.next().unwrap();
        assert(c == line@[pos as int]);
        assert(line@.skip(pos as int).drop_first() == line@.skip(pos + 1));
        if is_whitespace(c) {
            if inside {
                let word = line.substring_char(start, pos);
                proof {
                    lemma_word_end(line@, start as int, pos as int);
                    lemma_push_word(words@, word);
                }
                words.push(word);
                inside = false;
            }
        } else if !inside {
            start = pos;
            inside = true;
        }
        pos += 1;
    }
    if inside {
        let word = line.substring_char(start, total);
        proof {
            lemma_word_end(line@, start as int, total as int);
            lemma_push_word(words@, word);
            assert(line@.skip(total as int) == Seq::<char>::empty());
        }
        words.push(word);
    } else {
        assert(line@.skip(pos as int) == Seq::<char>::empty());
    }
    words
}

/// Where a word runs from `start` to `end`, the words from `start` on are
/// that word and then the words from `end` on.
proof fn lemma_word_end(s: Seq<char>, start: int, end: int)
    requires
        0 <= start < end <= s.len(),
        forall|j: int| start <= j < end ==> !is_space(#[trigger] s[j]),
        end < s.len() ==> is_space(s[end]),
    ensures
        split(s.skip(start)) == seq![s.subrange(start, end)] + split(s.skip(end)),
{
    let tail = s.skip(start);
    assert forall|j: int| 0 <= j < end - start implies !is_space(#[trigger] tail[j]) by {
        assert(tail[j] == s[start + j]);
    }
    lemma_word_len_is(tail, end - start);
    assert(tail.take(end - start) == s.subrange(start, end));
    assert(tail.skip(end - start) == s.skip(end));
}

/// The texts of a list of words with one more word.
proof fn lemma_push_word(words: Seq<&str>, word: &str)
    ensures
        words_of(words.push(word)) == words_of(words).push(word@),
{
    assert(words_of(words.push(word)) =~= words_of(words).push(word@));
}

/// Whether `w` is a word: not empty, and without white space.
pub open spec fn is_word(w: Seq<char>) -> bool {
    w.len() > 0 && forall|j: int| 0 <= j < w.len() ==> !is_space(#[trigger] w[j])
}

/// Each of the words of a text is a word: none is empty, none holds white
/// space.
pub proof fn lemma_split_gives_words(s: Seq<char>)
    ensures
        forall|i: int| 0 <= i < split(s).len() ==> is_word(#[trigger] split(s)[i]),
    decreases s.len(),
{
    if s.len() == 0 {
    } else if is_space(s[0]) {
        lemma_split_gives_words(s.drop_first());
        assert(split(s) == split(s.drop_first()));
    } else {
        lemma_word_len_bound(s);
        let n = word_len(s) as int;
        let rest = split(s.skip(n));
        lemma_word_has_no_space(s);
        lemma_split_gives_words(s.skip(n));
        assert(is_word(s.take(n)));
        assert forall|i: int| 0 <= i < split(s).len() implies is_word(#[trigger] split(s)[i]) by {
            if i > 0 {
                assert(split(s)[i] == rest[i - 1]);
            }
        }
    }
}

/// The first word of a text holds no white space.
proof fn lemma_word_has_no_space(s: Seq<char>)
    ensures
        forall|j: int| 0 <= j < word_len(s) ==> !is_space(#[trigger] s[j]),
    decreases s.len(),
{
    if s.len() > 0 && !is_space(s[0]) {
        let rest = s.drop_first();
        lemma_word_len_bound(s);
        lemma_word_has_no_space(rest);
        assert forall|j: int| 0 <= j < word_len(s) implies !is_space(#[trigger] s[j]) by {
            if j > 0 {
                assert(s[j] == rest[j - 1]);
            }
        }
    }
}

} // verus!
