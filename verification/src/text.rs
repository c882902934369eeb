//! Functions on plain text: the raw-identifier marker, ASCII case folding and
//! decimal numerals.

use vstd::prelude::*;
use vstd::string::StringExecFns;

verus! {

/// The characters of a string, in order.
pub fn chars_of(text: &str) -> (chars: Vec<char>)
    ensures
        chars@ == text@,
{
    let mut chars: Vec<char> = Vec::new();
    for ch in it: text.chars()
        invariant
            it.seq() == text@,
            chars@ == it.seq().take(it.index() as int),
    {
        chars.push(ch);
    }
    chars
}

/// The string made of the characters of `chars` from index `from` on.
pub(crate) fn string_from(chars: &Vec<char>, from: usize) -> (text: String)
    requires
        from <= chars.len(),
    ensures
        text@ == chars@.skip(from as int),
{
    let mut text = String::new();
    let mut i: usize = from;
    while i < chars.len()
        invariant
            from <= i <= chars.len(),
            text@ == chars@.subrange(from as int, i as int),
        decreases chars.len() - i,
    {
        text.push(chars[i]);
        i += 1;
    }
    text
}

/// Whether two strings hold the same characters.
pub fn same_text(a: &str, b: &str) -> (same: bool)
    ensures
        same == (a@ == b@),
{
    let x = a.to_owned();
    let y = b.to_owned();
    x == y
}

/// `first` followed by `second`.
pub fn join(first: &str, second: &str) -> (joined: String)
    ensures
        joined@ == first@ + second@,
{
    let mut joined = first.to_owned();
    joined.append(second);
    joined
}

/// Whether a spelling starts with the raw-identifier marker `r#`.
pub open spec fn is_raw_marked(text: Seq<char>) -> bool {
    text.len() >= 2 && text[0] == 'r' && text[1] == '#'
}

/// A spelling without its raw-identifier marker, if it has one.
pub open spec fn without_raw_marker(text: Seq<char>) -> Seq<char> {
    if is_raw_marked(text) {
        text.skip(2)
    } else {
        text
    }
}

/// The spelling of the raw identifier whose name is `text`.
pub open spec fn raw_spelling(text: Seq<char>) -> Seq<char> {
    seq!['r', '#'] + text
}

/// The name that an identifier's spelling stands for: the spelling itself,
/// or what follows `r#` where the identifier is written raw.
pub fn ident_no_prefix(ident: &str) -> (name: String)
    ensures
        name@ == without_raw_marker(ident@),
{
    let chars = chars_of(ident);
    if chars.len() >= 2 && chars[0] == 'r' && chars[1] == '#' {
        string_from(&chars, 2)
    } else {
        ident.to_owned()
    }
}

/// The upper-case form of an ASCII lower-case letter; any other character
/// unchanged.
pub open spec fn upper_char(ch: char) -> char {
    if 'a' <= ch <= 'z' {
        ((ch as u8) - 32) as char
    } else {
        ch
    }
}

/// The lower-case form of an ASCII upper-case letter; any other character
/// unchanged.
pub open spec fn lower_char(ch: char) -> char {
    if 'A' <= ch <= 'Z' {
        ((ch as u8) + 32) as char
    } else {
        ch
    }
}

/// A text with every ASCII lower-case letter replaced by its upper-case form.
pub open spec fn upper_case(text: Seq<char>) -> Seq<char> {
    Seq::new(text.len(), |i: int| upper_char(text[i]))
}

/// A text with every ASCII upper-case letter replaced by its lower-case form.
pub open spec fn lower_case(text: Seq<char>) -> Seq<char> {
    Seq::new(text.len(), |i: int| lower_char(text[i]))
}

/// Folds one character to upper case.
fn to_upper_char(ch: char) -> (up: char)
    ensures
        up == upper_char(ch),
{
    if 'a' <= ch && ch <= 'z' {
        ((ch as u8) - 32) as char
    } else {
        ch
    }
}

/// Folds one character to lower case.
fn to_lower_char(ch: char) -> (low: char)
    ensures
        low == lower_char(ch),
{
    if 'A' <= ch && ch <= 'Z' {
        ((ch as u8) + 32) as char
    } else {
        ch
    }
}

/// Folds the ASCII letters of a text to upper case.
pub fn to_upper_case(text: &str) -> (folded: String)
    ensures
        folded@ == upper_case(text@),
{
    let mut folded = String::new();
    for ch in it: text.chars()
        invariant
            it.seq() == text@,
            folded@ == upper_case(it.seq().take(it.index() as int)),
    {
        folded.push(to_upper_char(ch));
    }
    folded
}

/// Folds the ASCII letters of a text to lower case.
pub fn to_lower_case(text: &str) -> (folded: String)
    ensures
        folded@ == lower_case(text@),
{
    let mut folded = String::new();
    for ch in it: text.chars()
        invariant
            it.seq() == text@,
            folded@ == lower_case(it.seq().take(it.index() as int)),
    {
        folded.push(to_lower_char(ch));
    }
    folded
}

/// The character for a decimal digit.
pub open spec fn digit_char(digit: nat) -> char
    recommends
        digit < 10,
{
    (('0' as u8) + digit) as char
}

/// The decimal numeral of a number: its digits, most significant first,
/// without leading zeros.
pub open spec fn decimal(n: nat) -> Seq<char>
    decreases n,
{
    if n < 10 {
        seq![digit_char(n)]
    } else {
        decimal(n / 10).push(digit_char(n % 10))
    }
}

/// The character for one decimal digit.
fn to_digit_char(digit: u64) -> (ch: char)
    requires
        digit < 10,
    ensures
        ch == digit_char(digit as nat),
{
    (48u8 + (digit as u8)) as char
}

/// Writes a number as its decimal numeral.
pub fn to_decimal(n: u64) -> (numeral: String)
    ensures
        numeral@ == decimal(n as nat),
{
    let mut digits: Vec<char> = Vec::new();
    digits.push(to_digit_char(n % 10));
    let mut rest: u64 = n / 10;
    while rest > 0
        invariant
            decimal(n as nat) == (if rest > 0 {
                decimal(rest as nat)
            } else {
                Seq::empty()
            }) + digits@,
        decreases rest,
    {
        digits.insert(0, to_digit_char(rest % 10));
        rest = rest / 10;
    }
    string_from(&digits, 0)
}

} // verus!
