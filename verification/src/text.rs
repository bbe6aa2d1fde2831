//! Text: the order stream names and keys are compared in, and the few
//! renderings that messages and statements are assembled from.
//!
//! Strings are modelled as sequences of characters. Where order matters it is
//! the order of their UTF-8 bytes, which is what a byte-comparing backend
//! sees.

use vstd::prelude::*;
use vstd::string::*;
use vstd::utf8::encode_utf8;

verus! {

broadcast use vstd::utf8::group_utf8_lib;

/// `String::push`: the text with the character added at its end.
pub assume_specification[ std::string::String::push ](s: &mut std::string::String, ch: char)
    ensures
        final(s)@ == old(s)@.push(ch),
;

/// `char::from_u32`: the character with this code, or `None` when the code is
/// not a Unicode scalar value.
pub assume_specification[ char::from_u32 ](code: u32) -> (c: Option<char>)
    ensures
        vstd::utf8::is_scalar(code) ==> c == Some(code as char),
        !vstd::utf8::is_scalar(code) ==> c is None,
;

/// The bytewise lexicographic order.
pub open spec fn lex_lt(a: Seq<u8>, b: Seq<u8>) -> bool
    decreases a.len(),
{
    if b.len() == 0 {
        false
    } else if a.len() == 0 {
        true
    } else if a[0] != b[0] {
        a[0] < b[0]
    } else {
        lex_lt(a.drop_first(), b.drop_first())
    }
}

/// The order of two texts: that of their UTF-8 encodings.
pub open spec fn text_lt(a: Seq<char>, b: Seq<char>) -> bool {
    lex_lt(encode_utf8(a), encode_utf8(b))
}

/// The decimal digits of a number.
pub open spec fn decimal_text(n: nat) -> Seq<char>
    decreases n,
{
    if n < 10 {
        seq![(48 + n) as char]
    } else {
        decimal_text(n / 10).push((48 + n % 10) as char)
    }
}

/// The decimal digits of an integer, with its sign when it is negative.
pub open spec fn signed_text(i: int) -> Seq<char> {
    if i < 0 {
        seq!['-'] + decimal_text((-i) as nat)
    } else {
        decimal_text(i as nat)
    }
}

/// The views of a sequence of strings.
pub open spec fn views(parts: Seq<String>) -> Seq<Seq<char>> {
    Seq::new(parts.len(), |i: int| parts[i]@)
}

/// The views of a sequence of string slices.
pub open spec fn slice_views(parts: Seq<&str>) -> Seq<Seq<char>> {
    Seq::new(parts.len(), |i: int| parts[i]@)
}

/// The parts in order, with `separator` between each two.
pub open spec fn joined(parts: Seq<Seq<char>>, separator: Seq<char>) -> Seq<char>
    decreases parts.len(),
{
    if parts.len() == 0 {
        Seq::empty()
    } else if parts.len() == 1 {
        parts[0]
    } else {
        joined(parts.drop_last(), separator) + separator + parts.last()
    }
}

/// Whether `needle` occurs in `text` at `at`.
pub open spec fn occurs_at(needle: Seq<char>, text: Seq<char>, at: int) -> bool {
    &&& 0 <= at
    &&& at + needle.len() <= text.len()
    &&& text.subrange(at, at + needle.len()) == needle
}

/// Whether `needle` occurs anywhere in `text`.
pub open spec fn occurs(needle: Seq<char>, text: Seq<char>) -> bool {
    exists|at: int| #[trigger] occurs_at(needle, text, at)
}

/// An ASCII capital as its small letter; any other character as it is.
pub open spec fn ascii_lower(c: char) -> char {
    if 'A' <= c && c <= 'Z' {
        (c as u32 + 32) as char
    } else {
        c
    }
}

/// Whether two texts agree once ASCII capitals are read as small letters.
pub open spec fn same_ignoring_case(a: Seq<char>, b: Seq<char>) -> bool {
    &&& a.len() == b.len()
    &&& forall|i: int| 0 <= i < a.len() ==> ascii_lower(#[trigger] a[i]) == ascii_lower(b[i])
}

/// Nothing sorts below itself.
pub proof fn lex_irreflexive(a: Seq<u8>)
    ensures
        !lex_lt(a, a),
    decreases a.len(),
{
    if a.len() > 0 {
        lex_irreflexive(a.drop_first());
    }
}

/// The order is transitive.
pub proof fn lex_transitive(a: Seq<u8>, b: Seq<u8>, c: Seq<u8>)
    requires
        lex_lt(a, b),
        lex_lt(b, c),
    ensures
        lex_lt(a, c),
    decreases a.len(),
{
    if a.len() > 0 && a[0] == b[0] && b[0] == c[0] {
        lex_transitive(a.drop_first(), b.drop_first(), c.drop_first());
    }
}

/// Two different byte strings are ordered one way or the other.
pub proof fn lex_total(a: Seq<u8>, b: Seq<u8>)
    ensures
        lex_lt(a, b) || a == b || lex_lt(b, a),
    decreases a.len(),
{
    if a.len() > 0 && b.len() > 0 && a[0] == b[0] {
        lex_total(a.drop_first(), b.drop_first());
        if a.drop_first() == b.drop_first() {
            assert(a == seq![a[0]] + a.drop_first());
            assert(b == seq![b[0]] + b.drop_first());
        }
    } else if a.len() == 0 && b.len() == 0 {
        assert(a == b);
    }
}

/// Two texts with the same encoding are the same text.
pub proof fn encoding_is_injective(a: Seq<char>, b: Seq<char>)
    requires
        encode_utf8(a) == encode_utf8(b),
    ensures
        a == b,
{
    vstd::utf8::encode_utf8_decode_utf8(a);
    vstd::utf8::encode_utf8_decode_utf8(b);
}

/// The order on texts is a strict total order.
pub proof fn text_order(a: Seq<char>, b: Seq<char>)
    ensures
        !text_lt(a, a),
        text_lt(a, b) ==> a != b && !text_lt(b, a),
        a != b ==> text_lt(a, b) || text_lt(b, a),
{
    lex_irreflexive(encode_utf8(a));
    lex_total(encode_utf8(a), encode_utf8(b));
    if text_lt(a, b) && text_lt(b, a) {
        lex_transitive(encode_utf8(a), encode_utf8(b), encode_utf8(a));
    }
    if encode_utf8(a) == encode_utf8(b) {
        encoding_is_injective(a, b);
    }
}

/// The order on texts is transitive.
pub proof fn text_transitive(a: Seq<char>, b: Seq<char>, c: Seq<char>)
    requires
        text_lt(a, b),
        text_lt(b, c),
    ensures
        text_lt(a, c),
{
    lex_transitive(encode_utf8(a), encode_utf8(b), encode_utf8(c));
}

/// Texts that agree up to `at` compare as what is left of them does.
proof fn lex_skip(a: Seq<u8>, b: Seq<u8>, at: int)
    requires
        0 <= at <= a.len(),
        at <= b.len(),
        a.take(at) == b.take(at),
    ensures
        lex_lt(a, b) == lex_lt(a.skip(at), b.skip(at)),
    decreases at,
{
    if at == 0 {
        assert(a.skip(0) == a);
        assert(b.skip(0) == b);
    } else {
        assert(a[0] == a.take(at)[0]);
        assert(b[0] == b.take(at)[0]);
        assert(a.drop_first().take(at - 1) == a.take(at).drop_first());
        assert(b.drop_first().take(at - 1) == b.take(at).drop_first());
        lex_skip(a.drop_first(), b.drop_first(), at - 1);
        assert(a.drop_first().skip(at - 1) == a.skip(at));
        assert(b.drop_first().skip(at - 1) == b.skip(at));
    }
}

/// Whether `a` sorts below `b`.
pub fn precedes(a: &str, b: &str) -> (below: bool)
    ensures
        below == text_lt(a@, b@),
{
    let left: &[u8] = a.as_bytes();
    let right: &[u8] = b.as_bytes();
    let mut i: usize = 0;
    while i < left.len() && i < right.len() && left[i] == right[i]
        invariant
            i <= left@.len(),
            i <= right@.len(),
            left@.take(i as int) == right@.take(i as int),
        decreases left@.len() - i,
    {
        proof {
            assert(left@.take(i + 1) == left@.take(i as int).push(left@[i as int]));
            assert(right@.take(i + 1) == right@.take(i as int).push(right@[i as int]));
        }
        i += 1;
    }
    proof {
        lex_skip(left@, right@, i as int);
    }
    i < right.len() && (i == left.len() || left[i] < right[i])
}

/// Whether two texts are the same.
pub fn same(a: &str, b: &str) -> (equal: bool)
    ensures
        equal == (a@ == b@),
{
    let left: &[u8] = a.as_bytes();
    let right: &[u8] = b.as_bytes();
    if left.len() != right.len() {
        return false;
    }
    let mut i: usize = 0;
    while i < left.len()
        invariant
            i <= left@.len(),
            left@ == encode_utf8(a@),
            right@ == encode_utf8(b@),
            left@.len() == right@.len(),
            left@.take(i as int) == right@.take(i as int),
        decreases left@.len() - i,
    {
        if left[i] != right[i] {
            return false;
        }
        proof {
            assert(left@.take(i + 1) == left@.take(i as int).push(left@[i as int]));
            assert(right@.take(i + 1) == right@.take(i as int).push(right@[i as int]));
        }
        i += 1;
    }
    proof {
        assert(left@.take(i as int) == left@);
        assert(right@.take(i as int) == right@);
        encoding_is_injective(a@, b@);
    }
    true
}

/// The characters of a text.
pub fn chars_of(text: &str) -> (chars: Vec<char>)
    ensures
        chars@ == text@,
{
    let mut chars: Vec<char> = Vec::new();
    for c in it: text.chars()
        invariant
            it.seq() == text@,
            chars@ == text@.take(it.index() as int),
    {
        chars.push(c);
    }
    chars
}

/// The text made of some characters.
pub fn text_of(chars: &[char]) -> (text: String)
    ensures
        text@ == chars@,
{
    let mut text = String::new();
    let mut i: usize = 0;
    while i < chars.len()
        invariant
            i <= chars@.len(),
            text@ == chars@.take(i as int),
        decreases chars@.len() - i,
    {
        text.push(chars[i]);
        i += 1;
    }
    text
}

/// The decimal digits of `n`.
pub fn decimal(n: u64) -> (text: String)
    ensures
        text@ == decimal_text(n as nat),
    decreases n,
{
    let digit: u8 = (48 + n % 10) as u8;
    if n < 10 {
        let mut text = String::new();
        text.push(digit as char);
        text
    } else {
        let mut text = decimal(n / 10);
        text.push(digit as char);
        text
    }
}

/// The decimal digits of `i`, with its sign when it is negative.
pub fn signed_decimal(i: i64) -> (text: String)
    ensures
        text@ == signed_text(i as int),
{
    if i >= 0 {
        decimal(i as u64)
    } else if i == i64::MIN {
        let mut text = String::new();
        text.push('-');
        let digits = decimal(9223372036854775808);
        text.append(digits.as_str());
        text
    } else {
        let mut text = String::new();
        text.push('-');
        let digits = decimal((-i) as u64);
        text.append(digits.as_str());
        text
    }
}

/// A copy of each text, in order.
pub fn owned(parts: &[&str]) -> (texts: Vec<String>)
    ensures
        views(texts@) == slice_views(parts@),
{
    let mut texts: Vec<String> = Vec::new();
    let mut i: usize = 0;
    while i < parts.len()
        invariant
            i <= parts@.len(),
            texts@.len() == i,
            forall|j: int| 0 <= j < i ==> (#[trigger] texts@[j])@ == parts@[j]@,
        decreases parts@.len() - i,
    {
        texts.push(parts[i].to_owned());
        i += 1;
    }
    texts
}

/// A copy of a list of texts.
pub fn copied(parts: &Vec<String>) -> (texts: Vec<String>)
    ensures
        views(texts@) == views(parts@),
{
    let mut texts: Vec<String> = Vec::new();
    let mut i: usize = 0;
    while i < parts.len()
        invariant
            i <= parts@.len(),
            texts@.len() == i,
            forall|j: int| 0 <= j < i ==> (#[trigger] texts@[j])@ == parts@[j]@,
        decreases parts@.len() - i,
    {
        texts.push(parts[i].clone());
        i += 1;
    }
    texts
}

/// The parts in order, with `separator` between each two.
pub fn join(parts: &[&str], separator: &str) -> (text: String)
    ensures
        text@ == joined(slice_views(parts@), separator@),
{
    let mut text = String::new();
    let mut i: usize = 0;
    while i < parts.len()
        invariant
            i <= parts@.len(),
            text@ == joined(slice_views(parts@).take(i as int), separator@),
        decreases parts@.len() - i,
    {
        proof {
            let all = slice_views(parts@);
            assert(all.take(i + 1).drop_last() == all.take(i as int));
            assert(all.take(i + 1).last() == parts@[i as int]@);
            assert(Seq::<char>::empty() + parts@[i as int]@ == parts@[i as int]@);
        }
        if i > 0 {
            text.append(separator);
        }
        text.append(parts[i]);
        i += 1;
    }
    proof {
        assert(slice_views(parts@).take(i as int) == slice_views(parts@));
    }
    text
}

/// Whether `list` holds `text`.
pub fn listed(text: &str, list: &[&str]) -> (found: bool)
    ensures
        found == slice_views(list@).contains(text@),
{
    let mut i: usize = 0;
    while i < list.len()
        invariant
            i <= list@.len(),
            forall|j: int| 0 <= j < i ==> (#[trigger] list@[j])@ != text@,
        decreases list@.len() - i,
    {
        if same(list[i], text) {
            proof {
                assert(slice_views(list@)[i as int] == text@);
            }
            return true;
        }
        i += 1;
    }
    proof {
        assert forall|j: int| 0 <= j < slice_views(list@).len() implies slice_views(list@)[j]
            != text@ by {
            assert(list@[j]@ != text@);
        }
    }
    false
}

/// Whether `needle` occurs in `text`.
pub fn occurs_in(needle: &str, text: &str) -> (found: bool)
    ensures
        found == occurs(needle@, text@),
{
    let sought: Vec<char> = chars_of(needle);
    let chars: Vec<char> = chars_of(text);
    if sought.len() == 0 {
        proof {
            assert(text@.subrange(0, 0) == needle@);
            assert(occurs_at(needle@, text@, 0));
        }
        return true;
    }
    if sought.len() > chars.len() {
        return false;
    }
    let total: usize = chars.len();
    let last: usize = total - sought.len();
    let mut at: usize = 0;
    while at <= last
        invariant
            sought@ == needle@,
            chars@ == text@,
            total == chars@.len(),
            0 < sought@.len() <= total,
            last == chars@.len() - sought@.len(),
            at <= last + 1,
            forall|k: int| 0 <= k < at ==> !#[trigger] occurs_at(needle@, text@, k),
        decreases last + 1 - at,
    {
        let mut i: usize = 0;
        while i < sought.len() && chars[at + i] == sought[i]
            invariant
                at <= last,
                total == chars@.len(),
                last == chars@.len() - sought@.len(),
                i <= sought@.len(),
                forall|k: int| 0 <= k < i ==> chars@[at + k] == #[trigger] sought@[k],
            decreases sought@.len() - i,
        {
            i += 1;
        }
        if i == sought.len() {
            proof {
                assert(text@.subrange(at as int, at + needle@.len()) == needle@);
                assert(occurs_at(needle@, text@, at as int));
            }
            return true;
        }
        proof {
            if occurs_at(needle@, text@, at as int) {
                assert(text@.subrange(at as int, at + needle@.len())[i as int] == needle@[i as int]);
            }
        }
        at += 1;
    }
    false
}

/// Whether the characters of `text` begin with those of `prefix`.
pub fn begins_with(text: &str, prefix: &str) -> (found: bool)
    ensures
        found == prefix@.is_prefix_of(text@),
{
    let chars: Vec<char> = chars_of(text);
    let sought: Vec<char> = chars_of(prefix);
    if sought.len() > chars.len() {
        return false;
    }
    let mut i: usize = 0;
    while i < sought.len()
        invariant
            sought@ == prefix@,
            chars@ == text@,
            i <= sought@.len() <= chars@.len(),
            forall|k: int| 0 <= k < i ==> chars@[k] == #[trigger] sought@[k],
        decreases sought@.len() - i,
    {
        if chars[i] != sought[i] {
            proof {
                assert(text@.take(prefix@.len() as int)[i as int] != prefix@[i as int]);
            }
            return false;
        }
        i += 1;
    }
    proof {
        assert(text@.take(prefix@.len() as int) == prefix@);
    }
    true
}

/// An ASCII capital as its small letter; any other character as it is.
fn lower(c: char) -> (small: char)
    ensures
        small == ascii_lower(c),
{
    if 'A' <= c && c <= 'Z' {
        let code: u8 = c as u8;
        (code + 32) as char
    } else {
        c
    }
}

/// Whether two texts agree once ASCII capitals are read as small letters.
pub fn agree_ignoring_case(a: &str, b: &str) -> (agree: bool)
    ensures
        agree == same_ignoring_case(a@, b@),
{
    let left: Vec<char> = chars_of(a);
    let right: Vec<char> = chars_of(b);
    if left.len() != right.len() {
        return false;
    }
    let mut i: usize = 0;
    while i < left.len()
        invariant
            left@ == a@,
            right@ == b@,
            left@.len() == right@.len(),
            i <= left@.len(),
            forall|k: int| 0 <= k < i ==> ascii_lower(#[trigger] a@[k]) == ascii_lower(b@[k]),
        decreases left@.len() - i,
    {
        if lower(left[i]) != lower(right[i]) {
            proof {
                assert(ascii_lower(a@[i as int]) != ascii_lower(b@[i as int]));
            }
            return false;
        }
        i += 1;
    }
    true
}

/// The two texts, one after the other.
pub fn cat2(a: &str, b: &str) -> (text: String)
    ensures
        text@ == a@ + b@,
{
    let mut text = a.to_owned();
    text.append(b);
    text
}

/// The three texts, one after the other.
pub fn cat3(a: &str, b: &str, c: &str) -> (text: String)
    ensures
        text@ == a@ + b@ + c@,
{
    let mut text = cat2(a, b);
    text.append(c);
    text
}

/// The four texts, one after the other.
pub fn cat4(a: &str, b: &str, c: &str, d: &str) -> (text: String)
    ensures
        text@ == a@ + b@ + c@ + d@,
{
    let mut text = cat3(a, b, c);
    text.append(d);
    text
}

/// The five texts, one after the other.
pub fn cat5(a: &str, b: &str, c: &str, d: &str, e: &str) -> (text: String)
    ensures
        text@ == a@ + b@ + c@ + d@ + e@,
{
    let mut text = cat4(a, b, c, d);
    text.append(e);
    text
}

/// The order of two texts, character by character.
pub open spec fn char_lt(a: Seq<char>, b: Seq<char>) -> bool
    decreases a.len(),
{
    if b.len() == 0 {
        false
    } else if a.len() == 0 {
        true
    } else if a[0] != b[0] {
        (a[0] as u32) < (b[0] as u32)
    } else {
        char_lt(a.drop_first(), b.drop_first())
    }
}

/// The ranges the first byte of an encoding falls in, by its width.
proof fn leading_ranges(c: u32)
    by (bit_vector)
    ensures
        vstd::utf8::has_width_1_encoding(c) ==> vstd::utf8::leading_byte_width_1(c) < 0x80u8,
        vstd::utf8::has_width_2_encoding(c) ==> vstd::utf8::leading_byte_width_2(c) >= 0xC0u8,
        vstd::utf8::has_width_2_encoding(c) ==> vstd::utf8::leading_byte_width_2(c) < 0xE0u8,
        vstd::utf8::has_width_3_encoding(c) ==> vstd::utf8::leading_byte_width_3(c) >= 0xE0u8,
        vstd::utf8::has_width_3_encoding(c) ==> vstd::utf8::leading_byte_width_3(c) < 0xF0u8,
        vstd::utf8::has_width_4_encoding(c) ==> vstd::utf8::leading_byte_width_4(c) >= 0xF0u8,
{
}

/// Every byte of an encoding of more than one byte is past the first 128.
proof fn wide_encodings_are_not_ascii(c: u32)
    by (bit_vector)
    ensures
        vstd::utf8::last_continuation_byte(c) >= 0x80u8,
        vstd::utf8::second_last_continuation_byte(c) >= 0x80u8,
        vstd::utf8::third_last_continuation_byte(c) >= 0x80u8,
        vstd::utf8::has_width_1_encoding(c) ==> vstd::utf8::leading_byte_width_1(c) as u32 == c,
{
}

/// A text without line feeds has none in its encoding.
pub proof fn line_feeds_encode_as_themselves(text: Seq<char>)
    requires
        !text.contains('\n'),
    ensures
        !encode_utf8(text).contains(10u8),
    decreases text.len(),
{
    if text.len() > 0 {
        let rest = text.drop_first();
        assert(text.contains(text[0]));
        assert forall|c: char| rest.contains(c) implies text.contains(c) by {
            let i = choose|i: int| 0 <= i < rest.len() && rest[i] == c;
            assert(text[i + 1] == c);
        }
        line_feeds_encode_as_themselves(rest);
        vstd::utf8::char_is_scalar(text[0]);
        leading_ranges(text[0] as u32);
        wide_encodings_are_not_ascii(text[0] as u32);
        let first = vstd::utf8::encode_scalar(text[0] as u32);
        assert(encode_utf8(text) == first + encode_utf8(rest));
        vstd::utf8::char_u32_cast(text[0], text[0] as u32);
        assert(text[0] as u32 != '\n' as u32);
        assert forall|i: int| 0 <= i < encode_utf8(text).len() implies encode_utf8(text)[i]
            != 10u8 by {
            if i >= first.len() {
                assert(encode_utf8(rest)[i - first.len()] == encode_utf8(text)[i]);
                assert(encode_utf8(rest).contains(encode_utf8(text)[i]));
            }
        }
    }
}

proof fn width_1_order(c: u32, d: u32)
    by (bit_vector)
    requires
        vstd::utf8::has_width_1_encoding(c),
        vstd::utf8::has_width_1_encoding(d),
        c < d,
    ensures
        vstd::utf8::leading_byte_width_1(c) < vstd::utf8::leading_byte_width_1(d),
{
}

proof fn width_2_order(c: u32, d: u32)
    by (bit_vector)
    requires
        vstd::utf8::has_width_2_encoding(c),
        vstd::utf8::has_width_2_encoding(d),
        c < d,
    ensures
        vstd::utf8::leading_byte_width_2(c) < vstd::utf8::leading_byte_width_2(d) || (
        vstd::utf8::leading_byte_width_2(c) == vstd::utf8::leading_byte_width_2(d)
            && vstd::utf8::last_continuation_byte(c) < vstd::utf8::last_continuation_byte(d)),
{
}

proof fn width_3_order(c: u32, d: u32)
    by (bit_vector)
    requires
        vstd::utf8::has_width_3_encoding(c),
        vstd::utf8::has_width_3_encoding(d),
        c < d,
    ensures
        vstd::utf8::leading_byte_width_3(c) < vstd::utf8::leading_byte_width_3(d) || (
        vstd::utf8::leading_byte_width_3(c) == vstd::utf8::leading_byte_width_3(d) && (
        vstd::utf8::second_last_continuation_byte(c) < vstd::utf8::second_last_continuation_byte(d)
            || (vstd::utf8::second_last_continuation_byte(c)
            == vstd::utf8::second_last_continuation_byte(d)
            && vstd::utf8::last_continuation_byte(c) < vstd::utf8::last_continuation_byte(d)))),
{
}

proof fn width_4_order(c: u32, d: u32)
    by (bit_vector)
    requires
        vstd::utf8::has_width_4_encoding(c),
        vstd::utf8::has_width_4_encoding(d),
        c < d,
    ensures
        vstd::utf8::leading_byte_width_4(c) < vstd::utf8::leading_byte_width_4(d) || (
        vstd::utf8::leading_byte_width_4(c) == vstd::utf8::leading_byte_width_4(d) && (
        vstd::utf8::third_last_continuation_byte(c) < vstd::utf8::third_last_continuation_byte(d)
            || (vstd::utf8::third_last_continuation_byte(c)
            == vstd::utf8::third_last_continuation_byte(d) && (
        vstd::utf8::second_last_continuation_byte(c) < vstd::utf8::second_last_continuation_byte(d)
            || (vstd::utf8::second_last_continuation_byte(c)
            == vstd::utf8::second_last_continuation_byte(d)
            && vstd::utf8::last_continuation_byte(c) < vstd::utf8::last_continuation_byte(d)))))),
{
}

/// The encodings of two characters differ within both of them, and there in
/// the order of the characters.
proof fn encodings_part(c: char, d: char) -> (at: int)
    requires
        (c as u32) < (d as u32),
    ensures
        0 <= at < vstd::utf8::encode_scalar(c as u32).len(),
        at < vstd::utf8::encode_scalar(d as u32).len(),
        vstd::utf8::encode_scalar(c as u32).take(at) == vstd::utf8::encode_scalar(
            d as u32,
        ).take(at),
        vstd::utf8::encode_scalar(c as u32)[at] < vstd::utf8::encode_scalar(d as u32)[at],
{
    let x = c as u32;
    let y = d as u32;
    let e = vstd::utf8::encode_scalar(x);
    let f = vstd::utf8::encode_scalar(y);
    vstd::utf8::char_is_scalar(c);
    vstd::utf8::char_is_scalar(d);
    leading_ranges(x);
    leading_ranges(y);
    let at: int = if e[0] != f[0] {
        0
    } else if e[1] != f[1] {
        1
    } else if e[2] != f[2] {
        2
    } else {
        3
    };
    if vstd::utf8::has_width_1_encoding(x) && vstd::utf8::has_width_1_encoding(y) {
        width_1_order(x, y);
    } else if vstd::utf8::has_width_2_encoding(x) && vstd::utf8::has_width_2_encoding(y) {
        width_2_order(x, y);
    } else if vstd::utf8::has_width_3_encoding(x) && vstd::utf8::has_width_3_encoding(y) {
        width_3_order(x, y);
    } else if vstd::utf8::has_width_4_encoding(x) && vstd::utf8::has_width_4_encoding(y) {
        width_4_order(x, y);
    }
    assert(e.take(at) =~= f.take(at));
    at
}

/// Byte strings that part at `at` are ordered as their bytes there are.
proof fn lex_parts(a: Seq<u8>, b: Seq<u8>, at: int)
    requires
        0 <= at < a.len(),
        at < b.len(),
        a.take(at) == b.take(at),
        a[at] != b[at],
    ensures
        lex_lt(a, b) == (a[at] < b[at]),
{
    lex_skip(a, b, at);
    assert(a.skip(at)[0] == a[at]);
    assert(b.skip(at)[0] == b[at]);
}

/// UTF-8 keeps the order of characters: comparing two texts byte by byte is
/// comparing them character by character.
pub proof fn bytes_order_as_characters(a: Seq<char>, b: Seq<char>)
    ensures
        text_lt(a, b) == char_lt(a, b),
    decreases a.len(),
{
    let x = encode_utf8(a);
    let y = encode_utf8(b);
    if b.len() == 0 {
    } else if a.len() == 0 {
        vstd::utf8::char_is_scalar(b[0]);
        assert(y.len() > 0);
    } else {
        let e = vstd::utf8::encode_scalar(a[0] as u32);
        let f = vstd::utf8::encode_scalar(b[0] as u32);
        let p = encode_utf8(a.drop_first());
        let q = encode_utf8(b.drop_first());
        assert(x == e + p);
        assert(y == f + q);
        if a[0] == b[0] {
            bytes_order_as_characters(a.drop_first(), b.drop_first());
            let n = e.len() as int;
            assert(x.take(n) == y.take(n));
            lex_skip(x, y, n);
            assert(x.skip(n) == p);
            assert(y.skip(n) == q);
        } else if (a[0] as u32) < (b[0] as u32) {
            let at = encodings_part(a[0], b[0]);
            assert(x.take(at) == e.take(at));
            assert(y.take(at) == f.take(at));
            lex_parts(x, y, at);
        } else {
            vstd::utf8::char_u32_cast(a[0], a[0] as u32);
            vstd::utf8::char_u32_cast(b[0], b[0] as u32);
            let at = encodings_part(b[0], a[0]);
            assert(x.take(at) == e.take(at));
            assert(y.take(at) == f.take(at));
            lex_parts(x, y, at);
        }
    }
}

/// The number some decimal digits stand for.
pub open spec fn number_read(digits: Seq<char>) -> nat
    decreases digits.len(),
{
    if digits.len() == 0 {
        0
    } else {
        10 * number_read(digits.drop_last()) + (digits.last() as u32 - 48) as nat
    }
}

/// A number's digits are decimal digits, with no zero before the first of
/// them, and stand for that number; so different numbers read differently.
pub proof fn decimals_read_back(n: nat)
    ensures
        number_read(decimal_text(n)) == n,
        decimal_text(n).len() > 0,
        forall|i: int|
            0 <= i < decimal_text(n).len() ==> '0' <= #[trigger] decimal_text(n)[i]
                && decimal_text(n)[i] <= '9',
        n > 0 ==> decimal_text(n)[0] != '0',
    decreases n,
{
    reveal_with_fuel(number_read, 2);
    let digits = decimal_text(n);
    assert(((48 + n % 10) as char) as u32 == 48 + n % 10);
    if n < 10 {
        assert(digits.drop_last() =~= Seq::<char>::empty());
        assert(digits.last() as u32 == 48 + n);
        if n > 0 {
            assert(digits[0] as u32 != 48);
        }
    } else {
        let front = decimal_text(n / 10);
        decimals_read_back(n / 10);
        assert(digits.drop_last() =~= front);
        assert(digits[0] == front[0]);
        assert forall|i: int| 0 <= i < digits.len() implies '0' <= #[trigger] digits[i] && digits[i]
            <= '9' by {
            if i < front.len() {
                assert(digits[i] == front[i]);
            }
        }
    }
}

/// An integer below zero is a minus sign and the digits of its amount.
pub proof fn signs_stand_before_the_digits(i: int)
    ensures
        i >= 0 ==> signed_text(i) == decimal_text(i as nat),
        i < 0 ==> signed_text(i) == seq!['-'] + decimal_text((-i) as nat),
{
}

/// Joining puts the separator between each two parts and nowhere else.
pub proof fn joining_separates(parts: Seq<Seq<char>>, part: Seq<char>, separator: Seq<char>)
    ensures
        joined(Seq::empty(), separator) == Seq::<char>::empty(),
        joined(seq![part], separator) == part,
        parts.len() > 0 ==> joined(parts.push(part), separator) == joined(parts, separator)
            + separator + part,
{
    assert(parts.push(part).drop_last() =~= parts);
}

/// A text occurs in another exactly when the other is something, the text, and
/// something more.
pub proof fn occurring_is_standing_between(needle: Seq<char>, text: Seq<char>)
    ensures
        occurs(needle, text) <==> exists|before: Seq<char>, after: Seq<char>|
            text == #[trigger] (before + needle + after),
{
    if occurs(needle, text) {
        let at = choose|at: int| #[trigger] occurs_at(needle, text, at);
        let before = text.take(at);
        let after = text.skip(at + needle.len());
        assert(text =~= before + needle + after);
    }
    if exists|before: Seq<char>, after: Seq<char>| text == #[trigger] (before + needle + after) {
        let (before, after) = choose|before: Seq<char>, after: Seq<char>|
            text == #[trigger] (before + needle + after);
        let from = before.len() as int;
        assert(text.subrange(from, from + needle.len()) =~= needle);
        assert(occurs_at(needle, text, before.len() as int));
    }
}

/// Case is that of the ASCII letters and nothing else: a capital agrees with
/// its small letter, and any other character with itself alone.
pub proof fn case_is_that_of_ascii_letters(a: Seq<char>, b: Seq<char>, c: char)
    ensures
        'A' <= c && c <= 'Z' ==> ascii_lower(c) as u32 == c as u32 + 32,
        !('A' <= c && c <= 'Z') ==> ascii_lower(c) == c,
        same_ignoring_case(a, a),
        same_ignoring_case(a, b) <==> a.len() == b.len() && forall|i: int|
            0 <= i < a.len() ==> ascii_lower(#[trigger] a[i]) == ascii_lower(b[i]),
{
}

/// The order of texts is decided where they first differ, by the characters
/// there; and a text sorts before every longer one that begins with it.
pub proof fn texts_are_ordered_where_they_differ(a: Seq<char>, b: Seq<char>, at: int)
    requires
        0 <= at <= a.len(),
        at < b.len(),
        forall|i: int| 0 <= i < at ==> #[trigger] a[i] == b[i],
        at == a.len() || (a[at] as u32) < (b[at] as u32),
    ensures
        text_lt(a, b),
        !text_lt(b, a),
{
    bytes_order_as_characters(a, b);
    ordered_where_they_differ(a, b, at);
    text_order(a, b);
}

proof fn ordered_where_they_differ(a: Seq<char>, b: Seq<char>, at: int)
    requires
        0 <= at <= a.len(),
        at < b.len(),
        forall|i: int| 0 <= i < at ==> #[trigger] a[i] == b[i],
        at == a.len() || (a[at] as u32) < (b[at] as u32),
    ensures
        char_lt(a, b),
    decreases at,
{
    if at > 0 {
        assert(a[0] == b[0]);
        assert forall|i: int| 0 <= i < at - 1 implies #[trigger] a.drop_first()[i]
            == b.drop_first()[i] by {
            assert(a[i + 1] == b[i + 1]);
        }
        ordered_where_they_differ(a.drop_first(), b.drop_first(), at - 1);
    }
}

/// A list of texts is viewed text by text, all of them.
pub proof fn texts_are_viewed_one_by_one(owned: Seq<String>, borrowed: Seq<&str>, i: int)
    ensures
        views(owned).len() == owned.len(),
        0 <= i < owned.len() ==> views(owned)[i] == owned[i]@,
        slice_views(borrowed).len() == borrowed.len(),
        0 <= i < borrowed.len() ==> slice_views(borrowed)[i] == borrowed[i]@,
{
}

} // verus!
