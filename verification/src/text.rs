//! Text as the library handles it: sequences of characters taken from and
//! turned back into strings.

use vstd::prelude::*;
use vstd::string::StringExecFns;
use vstd::utf8::{decode_utf8, valid_utf8};

verus! {

/// The characters of `s`, in order.
pub fn chars_of(s: &str) -> (r: Vec<char>)
    ensures
        r@ == s@,
{
    let mut out: Vec<char> = Vec::new();
    for c in it: s.chars()
        invariant
            it.seq() == s@,
            out@ == s@.take(it.index() as int),
    {
        out.push(c);
        assert(out@ =~= s@.take(it.index() + 1));
    }
    assert(s@.take(s@.len() as int) =~= s@);
    out
}

/// `String::push` appends one character to the end of the string. Nothing
/// is proved of it; the contract is what its documentation says.
pub assume_specification[ String::push ](s: &mut String, ch: char)
    ensures
        final(s)@ == old(s)@.push(ch),
;

/// The string made of `chars`, in order.
pub fn string_of(chars: &[char]) -> (r: String)
    ensures
        r@ == chars@,
{
    let mut out = String::new();
    let mut index: usize = 0;
    while index < chars.len()
        invariant
            index <= chars@.len(),
            out@ == chars@.take(index as int),
        decreases chars@.len() - index,
    {
        out.push(chars[index]);
        assert(out@ =~= chars@.take(index + 1));
        index = index + 1;
    }
    assert(chars@.take(index as int) =~= chars@);
    out
}

/// The text that `String::from_utf8_lossy` makes of bytes that are not valid
/// UTF-8: the characters that are encoded well, with U+FFFD in place of
/// each ill-formed part.
pub uninterp spec fn lossy_text(bytes: Seq<u8>) -> Seq<char>;

/// The text that `bytes` are read as: the text that they encode where they
/// are valid UTF-8, and the lossy reading otherwise.
pub open spec fn bytes_text(bytes: Seq<u8>) -> Seq<char> {
    if valid_utf8(bytes) {
        decode_utf8(bytes)
    } else {
        lossy_text(bytes)
    }
}

/// Calls `String::from_utf8_lossy`, which decodes `bytes` as UTF-8 and puts
/// U+FFFD in place of what is not. Nothing is proved of this call; the
/// contract claims that bytes that are valid UTF-8 come back as the text
/// that they encode, and that the result for other bytes depends on the
/// bytes alone.
#[verifier::external_body]
pub(crate) fn text_from_bytes(bytes: &[u8]) -> (r: String)
    ensures
        r@ == bytes_text(bytes@),
        !valid_utf8(bytes@) ==> r@ == lossy_text(bytes@),
{
    String::from_utf8_lossy(bytes).into_owned()
}

/// Whether two texts hold the same characters.
pub fn same_text(a: &[char], b: &[char]) -> (r: bool)
    ensures
        r == (a@ == b@),
{
    if a.len() != b.len() {
        return false;
    }
    let mut index: usize = 0;
    while index < a.len()
        invariant
            index <= a@.len() == b@.len(),
            a@.take(index as int) == b@.take(index as int),
        decreases a@.len() - index,
    {
        if a[index] != b[index] {
            return false;
        }
        assert(a@.take(index + 1) =~= a@.take(index as int).push(a@[index as int]));
        assert(b@.take(index + 1) =~= b@.take(index as int).push(b@[index as int]));
        index = index + 1;
    }
    assert(a@.take(index as int) =~= a@);
    assert(b@.take(index as int) =~= b@);
    true
}

/// Whether `text` begins with `prefix`.
pub open spec fn has_prefix(text: Seq<char>, prefix: Seq<char>) -> bool {
    prefix.len() <= text.len() && text.take(prefix.len() as int) == prefix
}

/// Computes `has_prefix`.
pub fn starts_with(text: &[char], prefix: &[char]) -> (r: bool)
    ensures
        r == has_prefix(text@, prefix@),
{
    if prefix.len() > text.len() {
        return false;
    }
    let head = &text[0..prefix.len()];
    same_text(head, prefix)
}

/// Whether every character of `text` is an ASCII character.
pub open spec fn is_ascii_text(text: Seq<char>) -> bool {
    forall|i: int| 0 <= i < text.len() ==> (#[trigger] text[i]) as u32 <= 0x7F
}

/// The capital of an ASCII letter, and any other ASCII character itself.
pub open spec fn ascii_upper(c: char) -> char {
    if 'a' <= c <= 'z' {
        ((c as u32) - 32) as char
    } else {
        c
    }
}

/// The text that `str::to_uppercase` makes of a text that holds a character
/// outside ASCII: each character replaced by what Unicode gives as its
/// upper case, which may be more than one character.
pub uninterp spec fn unicode_upper(text: Seq<char>) -> Seq<char>;

/// `text` in upper case: the letters a to z as capitals where `text` is
/// ASCII, and the upper case that Unicode gives otherwise.
pub open spec fn upper_text(text: Seq<char>) -> Seq<char> {
    if is_ascii_text(text) {
        text.map_values(|c: char| ascii_upper(c))
    } else {
        unicode_upper(text)
    }
}

/// Calls `str::to_uppercase`, which gives the text in upper case as Unicode
/// defines it. Nothing is proved of this call; the contract claims that in
/// an ASCII text the letters a to z become capitals and nothing else
/// changes, and that the result for other texts depends on the text alone.
#[verifier::external_body]
pub(crate) fn to_upper(text: &str) -> (r: String)
    ensures
        r@ == upper_text(text@),
        !is_ascii_text(text@) ==> r@ == unicode_upper(text@),
{
    text.to_uppercase()
}

/// Whether `c` is white space: a character that Unicode marks as
/// `White_Space`.
pub open spec fn is_space(c: char) -> bool {
    let code = c as u32;
    ||| 0x09 <= code <= 0x0D
    ||| code == 0x20
    ||| code == 0x85
    ||| code == 0xA0
    ||| code == 0x1680
    ||| 0x2000 <= code <= 0x200A
    ||| code == 0x2028
    ||| code == 0x2029
    ||| code == 0x202F
    ||| code == 0x205F
    ||| code == 0x3000
}

/// Computes `is_space`.
pub fn is_white_space(c: char) -> (r: bool)
    ensures
        r == is_space(c),
{
    let code: u32 = c as u32;
    (0x09 <= code && code <= 0x0D) || code == 0x20 || code == 0x85 || code == 0xA0 || code
        == 0x1680 || (0x2000 <= code && code <= 0x200A) || code == 0x2028 || code == 0x2029
        || code == 0x202F || code == 0x205F || code == 0x3000
}

/// The character that stands for the digit `d`.
pub open spec fn digit_char(d: int) -> char {
    if d == 0 {
        '0'
    } else if d == 1 {
        '1'
    } else if d == 2 {
        '2'
    } else if d == 3 {
        '3'
    } else if d == 4 {
        '4'
    } else if d == 5 {
        '5'
    } else if d == 6 {
        '6'
    } else if d == 7 {
        '7'
    } else if d == 8 {
        '8'
    } else {
        '9'
    }
}

/// The decimal digits of `n`, most significant first, without leading
/// zeros.
pub open spec fn decimal_digits(n: nat) -> Seq<char>
    decreases n,
{
    if n < 10 {
        seq![digit_char(n as int)]
    } else {
        decimal_digits(n / 10).push(digit_char((n % 10) as int))
    }
}

/// The decimal text of `v`, with a minus sign before the digits of a
/// negative number.
pub open spec fn signed_decimal(v: int) -> Seq<char> {
    if v < 0 {
        seq!['-'] + decimal_digits((-v) as nat)
    } else {
        decimal_digits(v as nat)
    }
}

fn digit_of(d: u64) -> (c: char)
    requires
        d < 10,
    ensures
        c == digit_char(d as int),
{
    if d == 0 {
        '0'
    } else if d == 1 {
        '1'
    } else if d == 2 {
        '2'
    } else if d == 3 {
        '3'
    } else if d == 4 {
        '4'
    } else if d == 5 {
        '5'
    } else if d == 6 {
        '6'
    } else if d == 7 {
        '7'
    } else if d == 8 {
        '8'
    } else {
        '9'
    }
}

fn push_decimal(n: u64, out: &mut Vec<char>)
    ensures
        final(out)@ == old(out)@ + decimal_digits(n as nat),
    decreases n,
{
    if n >= 10 {
        push_decimal(n / 10, out);
    }
    out.push(digit_of(n % 10));
    assert(final(out)@ =~= old(out)@ + decimal_digits(n as nat));
}

/// The decimal digits of `n`.
pub fn decimal_chars(n: u64) -> (r: Vec<char>)
    ensures
        r@ == decimal_digits(n as nat),
{
    let mut out: Vec<char> = Vec::new();
    push_decimal(n, &mut out);
    assert(out@ =~= decimal_digits(n as nat));
    out
}

/// The decimal text of `v`.
pub fn signed_decimal_chars(v: i64) -> (r: Vec<char>)
    ensures
        r@ == signed_decimal(v as int),
{
    let mut out: Vec<char> = Vec::new();
    if v < 0 {
        out.push('-');
        let magnitude: u64 = (-(v + 1)) as u64 + 1;
        push_decimal(magnitude, &mut out);
    } else {
        push_decimal(v as u64, &mut out);
    }
    assert(out@ =~= signed_decimal(v as int));
    out
}

/// `parts` one after the other, with one space between neighbours.
pub open spec fn joined_with_spaces(parts: Seq<Seq<char>>) -> Seq<char>
    decreases parts.len(),
{
    if parts.len() == 0 {
        Seq::empty()
    } else if parts.len() == 1 {
        parts[0]
    } else {
        joined_with_spaces(parts.drop_last()) + seq![' '] + parts.last()
    }
}

/// The contents of a list of strings.
pub open spec fn strings_view(strings: Seq<String>) -> Seq<Seq<char>> {
    strings.map_values(|s: String| s@)
}

/// Joins `parts` into one text, with one space between neighbours.
pub fn join_with_spaces(parts: &Vec<String>) -> (r: String)
    ensures
        r@ == joined_with_spaces(strings_view(parts@)),
{
    let ghost texts = strings_view(parts@);
    let mut line = String::new();
    let mut index: usize = 0;
    while index < parts.len()
        invariant
            index <= parts@.len(),
            texts == strings_view(parts@),
            line@ == joined_with_spaces(texts.take(index as int)),
        decreases parts@.len() - index,
    {
        let ghost before = line@;
        if index > 0 {
            line.push(' ');
        }
        line.append(parts[index].as_str());
        proof {
            let taken = texts.take(index + 1);
            assert(taken.drop_last() =~= texts.take(index as int));
            assert(taken.last() == parts@[index as int]@);
            if index == 0 {
                assert(before =~= Seq::<char>::empty());
                assert(line@ =~= taken[0]);
            } else {
                assert(line@ =~= before + seq![' '] + taken.last());
            }
        }
        index = index + 1;
    }
    assert(texts.take(index as int) =~= texts);
    line
}

} // verus!
