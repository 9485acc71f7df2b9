//! Attributes that run a function as main coroutine of a task in a runtime.

use std::collections::VecDeque;

use vstd::prelude::*;
use vstd::string::*;

verus! {

/// Literal in an attribute.
pub enum Lit {
    /// String with this value.
    Str(String),
    /// Integer as it is spelled.
    Int(String),
    Other,
}

/// Argument of an attribute.
pub enum Arg {
    /// A name and a value. The name is missing if it is a path of several segments.
    NameValue { name: Option<String>, lit: Lit },
    Other,
}

pub open spec fn view_name(name: Option<String>) -> Option<Seq<char>> {
    match name {
        Some(name) => Some(name@),
        None => None,
    }
}

pub open spec fn view_number(number: Option<Result<usize, String>>) -> Option<
    Result<usize, Seq<char>>,
> {
    match number {
        Some(Ok(n)) => Some(Ok(n)),
        Some(Err(message)) => Some(Err(message@)),
        None => None,
    }
}

pub open spec fn is_letter(c: char) -> bool {
    'a' <= c <= 'z' || 'A' <= c <= 'Z'
}

pub open spec fn is_digit(c: char) -> bool {
    '0' <= c <= '9'
}

pub open spec fn is_white(c: char) -> bool {
    c == ' ' || '\t' <= c <= '\r'
}

/// Whether the character may stand in an ASCII identifier.
pub open spec fn is_word_char(c: char) -> bool {
    is_letter(c) || is_digit(c) || c == '_'
}

pub open spec fn is_word(text: Seq<char>) -> bool {
    forall|i: int| 0 <= i < text.len() ==> is_word_char(#[trigger] text[i])
}

/// Whether the character may stand in an ASCII path, or around it.
pub open spec fn is_path_char(c: char) -> bool {
    is_word_char(c) || c == ':' || is_white(c)
}

/// The text without white space in front.
pub open spec fn without_leading(text: Seq<char>) -> Seq<char>
    decreases text.len(),
{
    if text.len() > 0 && is_white(text[0]) {
        without_leading(text.skip(1))
    } else {
        text
    }
}

/// The text without white space behind.
pub open spec fn without_trailing(text: Seq<char>) -> Seq<char>
    decreases text.len(),
{
    if text.len() > 0 && is_white(text.last()) {
        without_trailing(text.drop_last())
    } else {
        text
    }
}

/// Whether the text is a raw identifier in ASCII. There is none for five names.
pub open spec fn is_raw_ident(text: Seq<char>) -> bool {
    &&& text.len() > 2
    &&& text[0] == 'r'
    &&& text[1] == '#'
    &&& !is_digit(text[2])
    &&& is_word(text.skip(2))
    &&& text.skip(2) != "_"@
    &&& text.skip(2) != "self"@
    &&& text.skip(2) != "Self"@
    &&& text.skip(2) != "super"@
    &&& text.skip(2) != "crate"@
}

/// Whether the string is made of ASCII identifiers, numbers, colons and white space, or is a raw
/// identifier in ASCII.
pub open spec fn is_path_like(value: Seq<char>) -> bool {
    ||| forall|i: int| 0 <= i < value.len() ==> is_path_char(#[trigger] value[i])
    ||| is_raw_ident(without_trailing(without_leading(value)))
}

/// Whether the word is no identifier and no segment of a path either.
pub open spec fn is_keyword(word: Seq<char>) -> bool {
    ||| word == "_"@
    ||| word == "abstract"@
    ||| word == "as"@
    ||| word == "become"@
    ||| word == "box"@
    ||| word == "break"@
    ||| word == "const"@
    ||| word == "continue"@
    ||| word == "do"@
    ||| word == "else"@
    ||| word == "enum"@
    ||| word == "extern"@
    ||| word == "false"@
    ||| word == "final"@
    ||| word == "fn"@
    ||| word == "for"@
    ||| word == "if"@
    ||| word == "impl"@
    ||| word == "in"@
    ||| word == "let"@
    ||| word == "loop"@
    ||| word == "macro"@
    ||| word == "match"@
    ||| word == "mod"@
    ||| word == "move"@
    ||| word == "mut"@
    ||| word == "override"@
    ||| word == "priv"@
    ||| word == "pub"@
    ||| word == "ref"@
    ||| word == "return"@
    ||| word == "static"@
    ||| word == "struct"@
    ||| word == "trait"@
    ||| word == "true"@
    ||| word == "type"@
    ||| word == "typeof"@
    ||| word == "unsafe"@
    ||| word == "unsized"@
    ||| word == "use"@
    ||| word == "virtual"@
    ||| word == "where"@
    ||| word == "while"@
    ||| word == "yield"@
}

/// Whether the text is an identifier in ASCII.
pub open spec fn is_ident(text: Seq<char>) -> bool {
    ||| is_raw_ident(text)
    ||| {
        &&& text.len() > 0
        &&& !is_digit(text[0])
        &&& is_word(text)
        &&& !is_keyword(text)
    }
}

/// Identifier that a string like an ASCII path is, if it is one alone.
pub open spec fn ident_of(value: Seq<char>) -> Option<Seq<char>> {
    let text = without_trailing(without_leading(value));
    if is_ident(text) {
        Some(text)
    } else {
        None
    }
}

/// Whether the character is a quote or a bracket.
pub open spec fn is_enclosing(c: char) -> bool {
    ||| c == '"' || c == '\''
    ||| c == '(' || c == ')'
    ||| c == '[' || c == ']'
    ||| c == '{' || c == '}'
    ||| c == '<' || c == '>'
}

/// Whether these two characters stand at `i`.
pub open spec fn stand_at(text: Seq<char>, i: int, first: char, second: char) -> bool {
    i + 1 < text.len() && text[i] == first && text[i + 1] == second
}

/// Where the line ends that `i` is in.
pub open spec fn line_end(text: Seq<char>, i: int) -> int
    decreases text.len() - i,
{
    if i < text.len() && text[i] != '\n' {
        line_end(text, i + 1)
    } else {
        i
    }
}

/// Whether no quote or bracket stands in the text from `i` on outside of comments, where `depth`
/// block comments are open at `i`.
pub open spec fn is_unenclosed(text: Seq<char>, i: int, depth: nat) -> bool
    decreases text.len() - i,
    via lemma_unenclosed_decreases
{
    if i >= text.len() {
        true
    } else if stand_at(text, i, '/', '*') {
        is_unenclosed(text, i + 2, depth + 1)
    } else if depth > 0 {
        if stand_at(text, i, '*', '/') {
            is_unenclosed(text, i + 2, (depth - 1) as nat)
        } else {
            is_unenclosed(text, i + 1, depth)
        }
    } else if stand_at(text, i, '/', '/') {
        is_unenclosed(text, line_end(text, i + 2), 0)
    } else {
        !is_enclosing(text[i]) && is_unenclosed(text, i + 1, 0)
    }
}

#[via_fn]
proof fn lemma_unenclosed_decreases(text: Seq<char>, i: int, depth: nat) {
    if stand_at(text, i, '/', '/') {
        lemma_line_end(text, i + 2);
    }
}

proof fn lemma_line_end(text: Seq<char>, i: int)
    requires
        i <= text.len(),
    ensures
        i <= line_end(text, i) <= text.len(),
    decreases text.len() - i,
{
    if i < text.len() && text[i] != '\n' {
        lemma_line_end(text, i + 1);
    }
}

/// Whether the string holds no quotes and brackets outside of comments. With one it is no lone
/// identifier.
pub open spec fn is_readable(value: Seq<char>) -> bool {
    is_unenclosed(value, 0, 0)
}

/// `syn::LitStr::parse` for a `syn::Path`, and `syn::Path::get_ident`: the identifier that the
/// string reads as, if it is a path of one segment without arguments. Without angle brackets there
/// are no arguments to parse, without quotes no literals that it panics on, and without brackets
/// nothing nests. A string like an ASCII path reads as the identifier that it is, if it is one. What
/// others read as is left unsaid: it rests on Unicode tables, and on which lexer is present.
#[verifier::external_body]
fn parse_path_ident(value: &String) -> (ident: Option<String>)
    requires
        is_readable(value@),
    ensures
        is_path_like(value@) ==> view_name(ident) == ident_of(value@),
{
    let lit = syn::LitStr::new(value.as_str(), proc_macro2::Span::call_site());
    match lit.parse::<syn::Path>() {
        Ok(path) => match path.get_ident() {
            Some(ident) => Some(ident.to_string()),
            None => None,
        },
        Err(_) => None,
    }
}

/// Value of a digit, up to base sixteen.
pub open spec fn digit_value(c: char) -> nat {
    if is_digit(c) {
        (c as int - '0' as int) as nat
    } else if 'a' <= c <= 'f' {
        (c as int - 'a' as int + 10) as nat
    } else {
        (c as int - 'A' as int + 10) as nat
    }
}

/// Whether the character belongs to the digits of an integer literal in this base: a decimal digit,
/// a letter for a digit of base sixteen, or an underscore.
pub open spec fn is_digits_char(c: char, base: nat) -> bool {
    is_digit(c) || c == '_' || base == 16 && ('a' <= c <= 'f' || 'A' <= c <= 'F')
}

/// How many characters belong to the digits that the text begins with.
pub open spec fn digits_len(text: Seq<char>, base: nat) -> nat
    decreases text.len(),
{
    if text.len() > 0 && is_digits_char(text[0], base) {
        1 + digits_len(text.skip(1), base)
    } else {
        0
    }
}

/// Value of digits, underscores left out.
pub open spec fn digits_value(digits: Seq<char>, base: nat) -> nat
    decreases digits.len(),
{
    if digits.len() == 0 {
        0
    } else if digits.last() == '_' {
        digits_value(digits.drop_last(), base)
    } else {
        digits_value(digits.drop_last(), base) * base + digit_value(digits.last())
    }
}

/// Base of an unsigned integer literal.
pub open spec fn base_of(text: Seq<char>) -> nat {
    if text.len() > 1 && text[0] == '0' && text[1] == 'x' {
        16
    } else if text.len() > 1 && text[0] == '0' && text[1] == 'o' {
        8
    } else if text.len() > 1 && text[0] == '0' && text[1] == 'b' {
        2
    } else {
        10
    }
}

/// An unsigned integer literal without the prefix for its base.
pub open spec fn without_base(text: Seq<char>) -> Seq<char> {
    if base_of(text) == 10 {
        text
    } else {
        text.skip(2)
    }
}

/// Whether the character may stand in a suffix.
pub open spec fn is_suffix_char(c: char) -> bool {
    is_word_char(c) || c as u32 >= 0x80
}

/// Whether the text after decimal digits begins with an exponent.
pub open spec fn is_exponent(text: Seq<char>) -> bool {
    &&& text.len() > 0
    &&& text[0] == 'e' || text[0] == 'E'
    &&& exists|k: int|
        {
            &&& 1 <= k < text.len()
            &&& is_digit(#[trigger] text[k])
            &&& forall|j: int| 1 <= j < k ==> #[trigger] text[j] == '_'
        }
}

/// Whether the text is an integer literal without sign: an optional prefix for its base, digits of
/// the base with underscores among them, and an optional suffix.
pub open spec fn is_unsigned_literal(text: Seq<char>) -> bool {
    let base = base_of(text);
    let number = without_base(text);
    let n = digits_len(number, base) as int;
    &&& text.len() > 0
    &&& is_digit(text[0])
    &&& exists|i: int| 0 <= i < n && #[trigger] number[i] != '_'
    &&& forall|i: int| 0 <= i < n && #[trigger] number[i] != '_' ==> digit_value(number[i]) < base
    &&& forall|i: int| n <= i < number.len() ==> is_suffix_char(#[trigger] number[i])
    &&& !(base == 10 && is_exponent(number.skip(n)))
}

/// An integer literal without its sign.
pub open spec fn without_sign(text: Seq<char>) -> Seq<char> {
    if text.len() > 0 && text[0] == '-' {
        text.skip(1)
    } else {
        text
    }
}

/// Whether the text is an integer literal, with an optional minus sign.
pub open spec fn is_int_literal(text: Seq<char>) -> bool {
    is_unsigned_literal(without_sign(text))
}

/// Value of an integer literal without sign.
pub open spec fn literal_value(text: Seq<char>) -> nat {
    let base = base_of(text);
    let number = without_base(text);
    digits_value(number.take(digits_len(number, base) as int), base)
}

/// What an integer literal is as a size, if it is one.
pub open spec fn literal_size(text: Seq<char>) -> Option<usize> {
    if text[0] != '-' && literal_value(text) <= usize::MAX {
        Some(literal_value(text) as usize)
    } else {
        None
    }
}

/// How much of an integer literal is its sign, its prefix and its digits.
pub open spec fn spelled_len(text: Seq<char>) -> int {
    let unsigned = without_sign(text);
    let number = without_base(unsigned);
    text.len() - number.len() + digits_len(number, base_of(unsigned))
}

/// An integer literal without its suffix.
pub open spec fn without_suffix(text: Seq<char>) -> Seq<char> {
    text.take(spelled_len(text))
}

/// Message of the error of `syn::LitInt::base10_parse` for an integer literal that is no size.
pub uninterp spec fn base10_error(text: Seq<char>) -> Seq<char>;

/// `syn::LitInt::base10_parse` of the integer literal that is spelled so, without a suffix: its
/// value, or the message of an error if it is negative or too large. How the message reads is left
/// unsaid.
#[verifier::external_body]
fn parse_base10(text: &String) -> (number: Result<usize, String>)
    requires
        is_int_literal(text@),
        spelled_len(text@) == text@.len(),
    ensures
        match literal_size(text@) {
            Some(n) => number == Ok::<usize, String>(n),
            None => number is Err && number->Err_0@ == base10_error(text@),
        },
{
    match syn::parse_str::<syn::LitInt>(text.as_str()) {
        Ok(lit) => match lit.base10_parse::<usize>() {
            Ok(n) => Ok(n),
            Err(err) => Err(err.to_string()),
        },
        Err(err) => Err(err.to_string()),
    }
}

proof fn lemma_digits_len(text: Seq<char>, base: nat)
    ensures
        digits_len(text, base) <= text.len(),
        forall|i: int| 0 <= i < digits_len(text, base) ==> is_digits_char(#[trigger] text[i], base),
        digits_len(text, base) < text.len() ==> !is_digits_char(
            text[digits_len(text, base) as int],
            base,
        ),
    decreases text.len(),
{
    if text.len() > 0 && is_digits_char(text[0], base) {
        lemma_digits_len(text.skip(1), base);
        assert forall|i: int| 0 <= i < digits_len(text, base) implies is_digits_char(
            #[trigger] text[i],
            base,
        ) by {
            if i > 0 {
                assert(text.skip(1)[i - 1] == text[i]);
            }
        }
    }
}

/// The digits end at the first character that does not belong to them.
proof fn lemma_digits_end(text: Seq<char>, base: nat, n: int)
    requires
        0 <= n <= text.len(),
        forall|i: int| 0 <= i < n ==> is_digits_char(#[trigger] text[i], base),
        n < text.len() ==> !is_digits_char(text[n], base),
    ensures
        digits_len(text, base) == n,
{
    lemma_digits_len(text, base);
    let m = digits_len(text, base) as int;
    if m < n {
        assert(is_digits_char(text[m], base));
    } else if n < m {
        assert(is_digits_char(text[n], base));
    }
}

/// Reading only sign, prefix and digits of an integer literal reads the same number.
proof fn lemma_without_suffix(text: Seq<char>)
    requires
        is_int_literal(text),
    ensures
        0 < spelled_len(text) <= text.len(),
        is_int_literal(without_suffix(text)),
        spelled_len(without_suffix(text)) == without_suffix(text).len(),
        literal_size(without_suffix(text)) == literal_size(text),
{
    let bare = without_suffix(text);
    let unsigned = without_sign(text);
    let base = base_of(unsigned);
    let number = without_base(unsigned);
    let n = digits_len(number, base) as int;
    lemma_digits_len(number, base);
    let sign = text.len() - unsigned.len();
    let prefix = unsigned.len() - number.len();
    let some = choose|i: int| 0 <= i < n && #[trigger] number[i] != '_';
    assert(0 <= some < n);
    assert(number =~= text.skip(sign + prefix));
    assert(bare.len() == sign + prefix + n);
    assert(without_sign(bare) =~= bare.skip(sign));
    assert(without_sign(bare) =~= unsigned.take(prefix + n));
    assert(base_of(without_sign(bare)) == base);
    assert(without_base(without_sign(bare)) =~= number.take(n));
    assert forall|i: int| 0 <= i < n implies is_digits_char(#[trigger] number.take(n)[i], base) by {
        assert(is_digits_char(number[i], base));
    }
    lemma_digits_end(number.take(n), base, n);
    assert(number.take(n)[some] != '_');
    assert(number.take(n).take(n) =~= number.take(n));
    assert forall|i: int|
        0 <= i < n && #[trigger] number.take(n)[i] != '_' implies digit_value(number.take(n)[i])
        < base by {
        assert(number[i] != '_');
    }
}

/// Whether a string like an ASCII path may be made of the characters of the text.
spec fn is_plain(text: Seq<char>) -> bool {
    forall|i: int| 0 <= i < text.len() ==> is_path_char(#[trigger] text[i]) || text[i] == '#'
}

proof fn lemma_leading_plain(text: Seq<char>)
    requires
        is_plain(without_leading(text)),
    ensures
        is_plain(text),
    decreases text.len(),
{
    if text.len() > 0 && is_white(text[0]) {
        lemma_leading_plain(text.skip(1));
        assert forall|i: int| 0 <= i < text.len() implies is_path_char(#[trigger] text[i])
            || text[i] == '#' by {
            if i > 0 {
                assert(text[i] == text.skip(1)[i - 1]);
            }
        }
    }
}

proof fn lemma_trailing_plain(text: Seq<char>)
    requires
        is_plain(without_trailing(text)),
    ensures
        is_plain(text),
    decreases text.len(),
{
    if text.len() > 0 && is_white(text.last()) {
        lemma_trailing_plain(text.drop_last());
        assert forall|i: int| 0 <= i < text.len() implies is_path_char(#[trigger] text[i])
            || text[i] == '#' by {
            if i < text.len() - 1 {
                assert(text[i] == text.drop_last()[i]);
            }
        }
    }
}

proof fn lemma_plain_unenclosed(text: Seq<char>, i: int)
    requires
        0 <= i,
        is_plain(text),
    ensures
        is_unenclosed(text, i, 0),
    decreases text.len() - i,
{
    if i < text.len() {
        lemma_plain_unenclosed(text, i + 1);
    }
}

/// A string like an ASCII path holds no quotes and brackets.
proof fn lemma_path_like_readable(value: Seq<char>)
    requires
        is_path_like(value),
    ensures
        is_readable(value),
{
    let text = without_trailing(without_leading(value));
    if is_raw_ident(text) {
        assert forall|i: int| 0 <= i < text.len() implies is_path_char(#[trigger] text[i])
            || text[i] == '#' by {
            if i >= 2 {
                assert(text[i] == text.skip(2)[i - 2]);
            }
        }
        lemma_trailing_plain(without_leading(value));
        lemma_leading_plain(value);
    }
    lemma_plain_unenclosed(value, 0);
}

fn enclosing(c: char) -> (enclosing: bool)
    ensures
        enclosing == is_enclosing(c),
{
    c == '"' || c == '\'' || c == '(' || c == ')' || c == '[' || c == ']' || c == '{' || c == '}'
        || c == '<' || c == '>'
}

/// Returns true if the string holds no quotes and brackets outside of comments.
fn readable(value: &str) -> (readable: bool)
    ensures
        readable == is_readable(value@),
{
    let len: usize = value.unicode_len();
    let mut unenclosed: bool = true;
    let mut depth: usize = 0;
    let mut i: usize = 0;
    while i < len
        invariant
            len == value@.len(),
            i <= len,
            depth <= i,
            is_readable(value@) == (unenclosed && is_unenclosed(value@, i as int, depth as nat)),
        decreases len - i,
    {
        let c = value.get_char(i);
        let next: Option<char> = if i + 1 < len {
            Some(value.get_char(i + 1))
        } else {
            None
        };
        if c == '/' && next == Some('*') {
            depth = depth + 1;
            i = i + 2;
        } else if depth > 0 {
            if c == '*' && next == Some('/') {
                depth = depth - 1;
                i = i + 2;
            } else {
                i = i + 1;
            }
        } else if c == '/' && next == Some('/') {
            let start: usize = i + 2;
            i = start;
            while i < len && value.get_char(i) != '\n'
                invariant
                    len == value@.len(),
                    start <= i <= len,
                    line_end(value@, start as int) == line_end(value@, i as int),
                decreases len - i,
            {
                i = i + 1;
            }
        } else {
            unenclosed = unenclosed && !enclosing(c);
            i = i + 1;
        }
    }
    unenclosed
}

fn word_char(c: char) -> (word: bool)
    ensures
        word == is_word_char(c),
{
    'a' <= c && c <= 'z' || 'A' <= c && c <= 'Z' || '0' <= c && c <= '9' || c == '_'
}

/// Returns true if the text from `start` on, after decimal digits, begins with an exponent.
fn exponent(text: &str, start: usize) -> (exponent: bool)
    requires
        start <= text@.len(),
    ensures
        exponent == is_exponent(text@.skip(start as int)),
{
    let len: usize = text.unicode_len();
    let ghost rest = text@.skip(start as int);
    if start == len {
        return false;
    }
    let first = text.get_char(start);
    assert(first == rest[0]);
    if first != 'e' && first != 'E' {
        return false;
    }
    let mut i: usize = start + 1;
    while i < len && text.get_char(i) == '_'
        invariant
            len == text@.len(),
            start + 1 <= i <= len,
            rest == text@.skip(start as int),
            forall|j: int| 1 <= j < i - start ==> #[trigger] rest[j] == '_',
        decreases len - i,
    {
        assert(rest[i - start] == text@[i as int]);
        i = i + 1;
    }
    if i == len {
        return false;
    }
    let c = text.get_char(i);
    assert(c == rest[i - start]);
    let digit = '0' <= c && c <= '9';
    assert(digit ==> is_digit(rest[i - start]));
    digit
}

/// Finds out how much of an integer literal is its sign, its prefix and its digits, if the text is
/// one.
fn int_literal(text: &str) -> (spelled: Option<usize>)
    ensures
        match spelled {
            Some(end) => is_int_literal(text@) && end == spelled_len(text@),
            None => !is_int_literal(text@),
        },
{
    let len: usize = text.unicode_len();
    let sign: usize = if len > 0 && text.get_char(0) == '-' {
        1
    } else {
        0
    };
    let ghost unsigned = without_sign(text@);
    assert(unsigned =~= text@.skip(sign as int));
    if sign == len {
        return None;
    }
    let first = text.get_char(sign);
    assert(first == unsigned[0]);
    if first < '0' || first > '9' {
        return None;
    }
    let mut base: u32 = 10;
    let mut start: usize = sign;
    if first == '0' && len - sign > 1 {
        let second = text.get_char(sign + 1);
        assert(second == unsigned[1]);
        if second == 'x' {
            base = 16;
        } else if second == 'o' {
            base = 8;
        } else if second == 'b' {
            base = 2;
        }
        if base != 10 {
            start = sign + 2;
        }
    }
    assert(base as nat == base_of(unsigned));
    let ghost number = without_base(unsigned);
    assert(number =~= text@.skip(start as int));
    let mut end: usize = start;
    let mut any: bool = false;
    let mut fit: bool = true;
    while end < len && digits_char(text.get_char(end), base)
        invariant
            len == text@.len(),
            start <= end <= len,
            number == text@.skip(start as int),
            base == 16 || base == 10 || base == 8 || base == 2,
            forall|k: int|
                0 <= k < end - start ==> is_digits_char(#[trigger] number[k], base as nat),
            any == exists|k: int| 0 <= k < end - start && #[trigger] number[k] != '_',
            fit == forall|k: int|
                0 <= k < end - start && #[trigger] number[k] != '_' ==> digit_value(number[k])
                    < base,
        decreases len - end,
    {
        let c = text.get_char(end);
        assert(c == number[end - start]);
        if c != '_' {
            any = true;
            let value: u32 = if c <= '9' {
                c as u32 - '0' as u32
            } else if c >= 'a' {
                c as u32 - 'a' as u32 + 10
            } else {
                c as u32 - 'A' as u32 + 10
            };
            assert(value == digit_value(c));
            fit = fit && value < base;
        }
        end = end + 1;
    }
    let ghost n = end - start;
    proof {
        if end < len {
            assert(text@[end as int] == number[n]);
        }
        lemma_digits_end(number, base as nat, n);
    }
    assert(number.skip(n) =~= text@.skip(end as int));
    if !any || !fit || base == 10 && exponent(text, end) {
        return None;
    }
    let mut suffix: bool = true;
    let mut i: usize = end;
    while i < len
        invariant
            len == text@.len(),
            start <= end <= i <= len,
            n == end - start,
            number == text@.skip(start as int),
            suffix == forall|k: int| n <= k < i - start ==> is_suffix_char(#[trigger] number[k]),
        decreases len - i,
    {
        assert(number[i - start] == text@[i as int]);
        let c = text.get_char(i);
        suffix = suffix && (word_char(c) || c as u32 >= 0x80);
        i = i + 1;
    }
    if suffix {
        Some(end)
    } else {
        None
    }
}

fn digits_char(c: char, base: u32) -> (belongs: bool)
    ensures
        belongs == is_digits_char(c, base as nat),
{
    '0' <= c && c <= '9' || c == '_' || base == 16 && ('a' <= c && c <= 'f' || 'A' <= c && c <= 'F')
}

/// Why an attribute is refused.
pub enum ConfigError {
    CrateNameSet,
    /// The string is no identifier.
    InvalidCrateName(String),
    /// The literal is no string.
    NoCrateName,
    ParallelismSet,
    /// The integer cannot be parsed, with the reason.
    InvalidParallelism(String),
    /// The literal is no positive integer.
    NoParallelism,
    InvalidName,
    UnknownName,
    Unknown,
}

impl ConfigError {
    pub open spec fn spec_message(&self) -> Seq<char> {
        match *self {
            ConfigError::CrateNameSet => "crate name already set"@,
            ConfigError::InvalidCrateName(value) => "invalid crate name: "@ + value@,
            ConfigError::NoCrateName => "invalid crate name"@,
            ConfigError::ParallelismSet => "parallelism already set"@,
            ConfigError::InvalidParallelism(message) => message@,
            ConfigError::NoParallelism => "parallelism should be positive integer"@,
            ConfigError::InvalidName => "invalid attribute name"@,
            ConfigError::UnknownName => "unknown attribute name"@,
            ConfigError::Unknown => "unknown attribute"@,
        }
    }

    /// Words of this error.
    pub fn message(&self) -> (message: String)
        ensures
            message@ == self.spec_message(),
    {
        match self {
            ConfigError::CrateNameSet => String::from_str("crate name already set"),
            ConfigError::InvalidCrateName(value) => {
                let mut message = String::from_str("invalid crate name: ");
                message.append(value.as_str());
                message
            },
            ConfigError::NoCrateName => String::from_str("invalid crate name"),
            ConfigError::ParallelismSet => String::from_str("parallelism already set"),
            ConfigError::InvalidParallelism(message) => message.clone(),
            ConfigError::NoParallelism => String::from_str(
                "parallelism should be positive integer",
            ),
            ConfigError::InvalidName => String::from_str("invalid attribute name"),
            ConfigError::UnknownName => String::from_str("unknown attribute name"),
            ConfigError::Unknown => String::from_str("unknown attribute"),
        }
    }
}

/// Settings of an attribute.
pub struct Configuration {
    crate_name: Option<String>,
    parallelism: Option<usize>,
}

/// Values of [Configuration].
#[verifier::ext_equal]
pub struct ConfigView {
    pub crate_name: Option<Seq<char>>,
    pub parallelism: Option<usize>,
}

impl View for Configuration {
    type V = ConfigView;

    closed spec fn view(&self) -> ConfigView {
        ConfigView { crate_name: view_name(self.crate_name), parallelism: self.parallelism }
    }
}

impl Default for Configuration {
    fn default() -> (config: Self)
        ensures
            config@ == ConfigView::new(),
    {
        Configuration { crate_name: None, parallelism: None }
    }
}

/// Identifier that a string is, if it is one alone. `read` is what it reads as if it is not like an
/// ASCII path.
pub open spec fn ident_read(value: Seq<char>, read: Option<Seq<char>>) -> Option<Seq<char>> {
    if is_path_like(value) {
        ident_of(value)
    } else if is_readable(value) {
        read
    } else {
        None
    }
}

/// What an integer literal parses to, if it is one.
pub open spec fn number_read(text: Seq<char>) -> Option<Result<usize, Seq<char>>> {
    if !is_int_literal(text) {
        None
    } else {
        match literal_size(text) {
            Some(n) => Some(Ok(n)),
            None => Some(Err(base10_error(without_suffix(text)))),
        }
    }
}

impl ConfigView {
    pub open spec fn new() -> Self {
        ConfigView { crate_name: None, parallelism: None }
    }

    /// The settings after the crate name was set to the identifier that a string reads as, if it
    /// does.
    pub open spec fn with_ident(self, value: Seq<char>, ident: Option<Seq<char>>) -> Result<
        Self,
        Seq<char>,
    > {
        match ident {
            Some(ident) => Ok(ConfigView { crate_name: Some(ident), ..self }),
            None => Err("invalid crate name: "@ + value),
        }
    }

    /// The settings after the crate name was set to a literal, or why it is refused. `read` is what
    /// a string reads as that is not like an ASCII path.
    pub open spec fn with_crate_name(self, lit: Lit, read: Option<Seq<char>>) -> Result<
        Self,
        Seq<char>,
    > {
        if self.crate_name is Some {
            Err("crate name already set"@)
        } else {
            match lit {
                Lit::Str(value) => self.with_ident(value@, ident_read(value@, read)),
                _ => Err("invalid crate name"@),
            }
        }
    }

    /// The settings after the parallelism was set to what an integer literal parses to.
    pub open spec fn with_number(self, number: Option<Result<usize, Seq<char>>>) -> Result<
        Self,
        Seq<char>,
    > {
        match number {
            Some(Ok(n)) => if n > 0 {
                Ok(ConfigView { parallelism: Some(n), ..self })
            } else {
                Err("parallelism should be positive integer"@)
            },
            Some(Err(message)) => Err(message),
            None => Err("parallelism should be positive integer"@),
        }
    }

    /// The settings after the parallelism was set to a literal, or why it is refused.
    pub open spec fn with_parallelism(self, lit: Lit) -> Result<Self, Seq<char>> {
        if self.parallelism is Some {
            Err("parallelism already set"@)
        } else {
            match lit {
                Lit::Int(text) => self.with_number(number_read(text@)),
                _ => Err("parallelism should be positive integer"@),
            }
        }
    }

    /// The settings after one argument, or why it is refused. `read` is what its string reads as if
    /// that is not like an ASCII path.
    pub open spec fn with_arg(self, arg: Arg, read: Option<Seq<char>>) -> Result<Self, Seq<char>> {
        match arg {
            Arg::NameValue { name, lit } => match view_name(name) {
                Some(name) => if name == "parallelism"@ {
                    self.with_parallelism(lit)
                } else if name == "crate"@ {
                    self.with_crate_name(lit, read)
                } else {
                    Err("unknown attribute name"@)
                },
                None => Err("invalid attribute name"@),
            },
            Arg::Other => Err("unknown attribute"@),
        }
    }

    /// The settings after arguments in turn, or why the first refused one is. `reads` holds what
    /// their strings read as that are not like ASCII paths.
    pub open spec fn with_args(self, args: Seq<Arg>, reads: Seq<Option<Seq<char>>>) -> Result<
        Self,
        Seq<char>,
    >
        decreases args.len(),
    {
        if args.len() == 0 {
            Ok(self)
        } else {
            match self.with_args(args.drop_last(), reads.drop_last()) {
                Ok(config) => config.with_arg(args.last(), reads.last()),
                Err(message) => Err(message),
            }
        }
    }
}

/// Whether settings have become what they should, or have been refused as they should.
pub open spec fn configured(
    after: ConfigView,
    result: Result<(), ConfigError>,
    expected: Result<ConfigView, Seq<char>>,
) -> bool {
    match expected {
        Ok(config) => result is Ok && after == config,
        Err(message) => result is Err && result->Err_0.spec_message() == message,
    }
}

impl Configuration {
    /// Sets the crate name to the identifier that a string reads as, if it does.
    pub fn set_ident(&mut self, value: String, ident: Option<String>) -> (result: Result<
        (),
        ConfigError,
    >)
        ensures
            configured(
                final(self)@,
                result,
                old(self)@.with_ident(value@, view_name(ident)),
            ),
            result is Err ==> final(self)@ == old(self)@,
    {
        match ident {
            Some(ident) => {
                self.crate_name = Some(ident);
                Ok(())
            },
            None => Err(ConfigError::InvalidCrateName(value)),
        }
    }

    /// Sets the crate name.
    pub fn set_crate_name(&mut self, lit: Lit) -> (result: Result<(), ConfigError>)
        ensures
            exists|read: Option<Seq<char>>|
                configured(
                    final(self)@,
                    result,
                    #[trigger] old(self)@.with_crate_name(lit, read),
                ),
            result is Err ==> final(self)@ == old(self)@,
    {
        if self.crate_name.is_some() {
            assert(old(self)@.with_crate_name(lit, None) is Err);
            return Err(ConfigError::CrateNameSet);
        }
        match lit {
            Lit::Str(value) => {
                let ident = if readable(value.as_str()) {
                    parse_path_ident(&value)
                } else {
                    None
                };
                proof {
                    if is_path_like(value@) {
                        lemma_path_like_readable(value@);
                    }
                    let read = view_name(ident);
                    assert(ident_read(value@, read) == read);
                    assert(old(self)@.with_crate_name(lit, read) == old(self)@.with_ident(
                        value@,
                        read,
                    ));
                }
                self.set_ident(value, ident)
            },
            _ => {
                assert(old(self)@.with_crate_name(lit, None) is Err);
                Err(ConfigError::NoCrateName)
            },
        }
    }

    /// Sets the parallelism to what an integer literal parses to.
    pub fn set_number(&mut self, number: Option<Result<usize, String>>) -> (result: Result<
        (),
        ConfigError,
    >)
        ensures
            configured(final(self)@, result, old(self)@.with_number(view_number(number))),
            result is Err ==> final(self)@ == old(self)@,
    {
        match number {
            Some(Ok(n)) => {
                if n > 0 {
                    self.parallelism = Some(n);
                    return Ok(());
                }
                Err(ConfigError::NoParallelism)
            },
            Some(Err(message)) => Err(ConfigError::InvalidParallelism(message)),
            None => Err(ConfigError::NoParallelism),
        }
    }

    /// Sets the parallelism.
    pub fn set_parallelism(&mut self, lit: Lit) -> (result: Result<(), ConfigError>)
        ensures
            configured(final(self)@, result, old(self)@.with_parallelism(lit)),
            result is Err ==> final(self)@ == old(self)@,
    {
        if self.parallelism.is_some() {
            return Err(ConfigError::ParallelismSet);
        }
        match lit {
            Lit::Int(text) => {
                let number = match int_literal(text.as_str()) {
                    Some(end) => {
                        proof {
                            lemma_without_suffix(text@);
                        }
                        let spelled = String::from_str(text.as_str().substring_char(0, end));
                        assert(spelled@ =~= without_suffix(text@));
                        Some(parse_base10(&spelled))
                    },
                    None => None,
                };
                self.set_number(number)
            },
            _ => Err(ConfigError::NoParallelism),
        }
    }

    fn set_arg(&mut self, arg: Arg) -> (result: Result<(), ConfigError>)
        ensures
            exists|read: Option<Seq<char>>|
                configured(final(self)@, result, #[trigger] old(self)@.with_arg(arg, read)),
    {
        let ghost before = self@;
        let ghost given = arg;
        let ghost mut read: Option<Seq<char>> = None;
        let result = match arg {
            Arg::NameValue { name, lit } => match name {
                Some(name) => {
                    if name == String::from_str("parallelism") {
                        self.set_parallelism(lit)
                    } else if name == String::from_str("crate") {
                        let result = self.set_crate_name(lit);
                        proof {
                            read = choose|read: Option<Seq<char>>|
                                configured(
                                    self@,
                                    result,
                                    #[trigger] before.with_crate_name(lit, read),
                                );
                        }
                        result
                    } else {
                        Err(ConfigError::UnknownName)
                    }
                },
                None => Err(ConfigError::InvalidName),
            },
            Arg::Other => Err(ConfigError::Unknown),
        };
        assert(configured(self@, result, before.with_arg(given, read)));
        result
    }
}

proof fn lemma_first_refused(
    config: ConfigView,
    args: Seq<Arg>,
    reads: Seq<Option<Seq<char>>>,
    n: int,
)
    requires
        0 <= n <= args.len(),
        reads.len() == args.len(),
        config.with_args(args.take(n), reads.take(n)) is Err,
    ensures
        config.with_args(args, reads) == config.with_args(args.take(n), reads.take(n)),
    decreases args.len() - n,
{
    if n < args.len() {
        assert(args.take(n + 1).drop_last() =~= args.take(n));
        assert(reads.take(n + 1).drop_last() =~= reads.take(n));
        lemma_first_refused(config, args, reads, n + 1);
    } else {
        assert(args.take(n) =~= args);
        assert(reads.take(n) =~= reads);
    }
}

/// Whether a parse gives what it should, where `reads` holds what strings read as that are not like
/// ASCII paths.
pub open spec fn parsed(
    args: Seq<Arg>,
    reads: Seq<Option<Seq<char>>>,
    result: Result<Configuration, ConfigError>,
) -> bool {
    &&& reads.len() == args.len()
    &&& match ConfigView::new().with_args(args, reads) {
        Ok(config) => result is Ok && result->Ok_0@ == config,
        Err(message) => result is Err && result->Err_0.spec_message() == message,
    }
}

/// Parses the arguments of an attribute.
pub fn parse_config(arguments: VecDeque<Arg>) -> (result: Result<Configuration, ConfigError>)
    ensures
        exists|reads: Seq<Option<Seq<char>>>| #[trigger] parsed(arguments@, reads, result),
{
    let mut config = Configuration::default();
    let ghost first = config@;
    let ghost all = arguments@;
    let ghost mut reads: Seq<Option<Seq<char>>> = Seq::empty();
    let mut args = arguments;
    assert(all.take(0) =~= Seq::empty());
    while args.len() > 0
        invariant
            first == ConfigView::new(),
            all == arguments@,
            reads.len() <= all.len(),
            args@ == all.skip(reads.len() as int),
            first.with_args(all.take(reads.len() as int), reads) == Ok::<ConfigView, Seq<char>>(
                config@,
            ),
        decreases args@.len(),
    {
        let ghost n = reads.len() as int;
        let arg = args.pop_front().unwrap();
        assert(arg == all[n]);
        assert(all.take(n + 1).drop_last() =~= all.take(n));
        assert(all.take(n + 1).last() == arg);
        let ghost before = config@;
        let result = config.set_arg(arg);
        proof {
            let read = choose|read: Option<Seq<char>>|
                configured(config@, result, #[trigger] before.with_arg(arg, read));
            let earlier = reads;
            reads = reads.push(read);
            assert(reads.drop_last() =~= earlier);
        }
        if let Err(err) = result {
            proof {
                let rest = Seq::new((all.len() - reads.len()) as nat, |i: int| None::<Seq<char>>);
                assert((reads + rest).take(n + 1) =~= reads);
                lemma_first_refused(first, all, reads + rest, n + 1);
                assert(parsed(all, reads + rest, Err(err)));
            }
            return Err(err);
        }
        assert(args@ =~= all.skip(n + 1));
    }
    assert(all.take(reads.len() as int) =~= all);
    assert(parsed(all, reads, Ok(config)));
    Ok(config)
}

/// Why a function cannot be run by an attribute.
#[derive(Debug, Clone, Copy, PartialEq, Eq, Structural)]
pub enum GenerateError {
    /// The function is asynchronous.
    Asynchronous { is_test: bool },
    /// The function is neither a test nor the main function.
    NotMain,
}

impl GenerateError {
    pub open spec fn spec_message(self) -> Seq<char> {
        match self {
            GenerateError::Asynchronous { is_test } => "only synchronous function can be tagged with "@
                + if is_test {
                "#[stuck::test]"@
            } else {
                "#[stuck::main]"@
            },
            GenerateError::NotMain =>
                "only the main function can be tagged with #[stuck::main]"@,
        }
    }

    /// Words of this error.
    pub fn message(&self) -> (message: String)
        ensures
            message@ == self.spec_message(),
    {
        match self {
            GenerateError::Asynchronous { is_test } => {
                let mut message = String::from_str("only synchronous function can be tagged with ");
                if *is_test {
                    message.append("#[stuck::test]");
                } else {
                    message.append("#[stuck::main]");
                }
                message
            },
            GenerateError::NotMain => String::from_str(
                "only the main function can be tagged with #[stuck::main]",
            ),
        }
    }
}

/// What to generate in place of a function.
pub struct Generated {
    /// Whether the function is a test.
    pub is_test: bool,
    /// Crate that provides the runtime.
    pub crate_name: String,
    /// Parallelism to build the runtime with, or zero for its default.
    pub parallelism: usize,
}

/// Finds out what to generate in place of a function, given its name and whether it is
/// asynchronous.
pub fn generate(is_test: bool, config: Configuration, asynchronous: bool, name: &String) -> (result:
    Result<Generated, GenerateError>)
    ensures
        if asynchronous {
            result == Err::<Generated, _>(GenerateError::Asynchronous { is_test })
        } else if !is_test && name@ != "main"@ {
            result == Err::<Generated, _>(GenerateError::NotMain)
        } else {
            &&& result is Ok
            &&& result->Ok_0.is_test == is_test
            &&& result->Ok_0.crate_name@ == match config@.crate_name {
                Some(crate_name) => crate_name,
                None => "stuck"@,
            }
            &&& result->Ok_0.parallelism == match config@.parallelism {
                Some(parallelism) => parallelism,
                None => 0,
            }
        },
{
    if asynchronous {
        return Err(GenerateError::Asynchronous { is_test });
    }
    if !is_test && *name != String::from_str("main") {
        return Err(GenerateError::NotMain);
    }
    let crate_name = match config.crate_name {
        Some(crate_name) => crate_name,
        None => String::from_str("stuck"),
    };
    let parallelism: usize = match config.parallelism {
        Some(parallelism) => parallelism,
        None => 0,
    };
    Ok(Generated { is_test, crate_name, parallelism })
}

/// Whether the argument is for the parallelism.
pub open spec fn sets_parallelism(arg: Arg) -> bool {
    arg matches Arg::NameValue { name, lit: _ } && view_name(name) == Some("parallelism"@)
}

/// Whether the argument is for the crate name.
pub open spec fn sets_crate_name(arg: Arg) -> bool {
    arg matches Arg::NameValue { name, lit: _ } && view_name(name) == Some("crate"@)
}

/// Parallelism that an argument for it gives, if its literal is a positive integer.
pub open spec fn parallelism_of(arg: Arg) -> Option<usize> {
    match arg {
        Arg::NameValue { name: _, lit: Lit::Int(text) } => match number_read(text@) {
            Some(Ok(n)) => if n > 0 {
                Some(n)
            } else {
                None
            },
            _ => None,
        },
        _ => None,
    }
}

/// Crate name that an argument for it gives, if its literal is a string that is one identifier.
pub open spec fn crate_name_of(arg: Arg, read: Option<Seq<char>>) -> Option<Seq<char>> {
    match arg {
        Arg::NameValue { name: _, lit: Lit::Str(value) } => ident_read(value@, read),
        _ => None,
    }
}

/// Arguments are taken if and only if each gives a positive integer for the parallelism or an
/// identifier for the crate name, and neither comes twice. The settings are what they give, in
/// whatever order they come.
pub proof fn law_settings(args: Seq<Arg>, reads: Seq<Option<Seq<char>>>)
    requires
        reads.len() == args.len(),
    ensures
        ConfigView::new().with_args(args, reads) is Ok <==> {
            &&& forall|i: int|
                0 <= i < args.len() ==> {
                    ||| sets_parallelism(#[trigger] args[i]) && parallelism_of(args[i]) is Some
                    ||| sets_crate_name(args[i]) && crate_name_of(args[i], reads[i]) is Some
                }
            &&& forall|i: int, j: int|
                0 <= i < j < args.len() ==> {
                    &&& !(sets_parallelism(#[trigger] args[i]) && sets_parallelism(
                        #[trigger] args[j],
                    ))
                    &&& !(sets_crate_name(args[i]) && sets_crate_name(args[j]))
                }
        },
        ConfigView::new().with_args(args, reads) matches Ok(config) ==> {
            &&& forall|i: int|
                0 <= i < args.len() && sets_parallelism(#[trigger] args[i]) ==> config.parallelism
                    == parallelism_of(args[i])
            &&& config.parallelism is Some ==> exists|i: int|
                0 <= i < args.len() && sets_parallelism(#[trigger] args[i])
            &&& forall|i: int|
                0 <= i < args.len() && sets_crate_name(#[trigger] args[i]) ==> config.crate_name
                    == crate_name_of(args[i], reads[i])
            &&& config.crate_name is Some ==> exists|i: int|
                0 <= i < args.len() && sets_crate_name(#[trigger] args[i])
        },
    decreases args.len(),
{
    reveal_strlit("crate");
    reveal_strlit("parallelism");
    assert("crate"@.len() != "parallelism"@.len());
    if args.len() > 0 {
        let earlier = args.drop_last();
        let n = earlier.len() as int;
        law_settings(earlier, reads.drop_last());
        assert(forall|i: int| 0 <= i < n ==> earlier[i] == args[i]);
        assert(args.last() == args[n]);
        assert(reads.last() == reads[n]);
        let expected = ConfigView::new().with_args(earlier, reads.drop_last());
        if expected is Ok {
            let config = expected->Ok_0;
            if sets_parallelism(args[n]) && config.parallelism is Some {
                let i = choose|i: int| 0 <= i < n && sets_parallelism(#[trigger] earlier[i]);
                assert(sets_parallelism(args[i]));
            }
            if sets_crate_name(args[n]) && config.crate_name is Some {
                let i = choose|i: int| 0 <= i < n && sets_crate_name(#[trigger] earlier[i]);
                assert(sets_crate_name(args[i]));
            }
        } else {
            assert(ConfigView::new().with_args(args, reads) is Err);
        }
    }
}

/// Every error says what is wrong, and with what.
pub proof fn law_messages(
    value: String,
    messages: (String, String, String, String, String, String, String, String, String),
)
    requires
        call_ensures(ConfigError::message, (&ConfigError::CrateNameSet,), messages.0),
        call_ensures(ConfigError::message, (&ConfigError::InvalidCrateName(value),), messages.1),
        call_ensures(ConfigError::message, (&ConfigError::NoCrateName,), messages.2),
        call_ensures(ConfigError::message, (&ConfigError::ParallelismSet,), messages.3),
        call_ensures(ConfigError::message, (&ConfigError::InvalidParallelism(value),), messages.4),
        call_ensures(ConfigError::message, (&ConfigError::NoParallelism,), messages.5),
        call_ensures(ConfigError::message, (&ConfigError::InvalidName,), messages.6),
        call_ensures(ConfigError::message, (&ConfigError::UnknownName,), messages.7),
        call_ensures(ConfigError::message, (&ConfigError::Unknown,), messages.8),
    ensures
        messages.0@ == "crate name already set"@,
        messages.1@ == "invalid crate name: "@ + value@,
        messages.2@ == "invalid crate name"@,
        messages.3@ == "parallelism already set"@,
        messages.4@ == value@,
        messages.5@ == "parallelism should be positive integer"@,
        messages.6@ == "invalid attribute name"@,
        messages.7@ == "unknown attribute name"@,
        messages.8@ == "unknown attribute"@,
{
}

/// The parallelism is set once, to a positive integer. What is refused changes nothing, and the crate
/// name stays either way.
pub proof fn law_set_parallelism(
    config: &mut Configuration,
    lit: Lit,
    result: Result<(), ConfigError>,
    message: String,
)
    requires
        call_ensures(Configuration::set_parallelism, (config, lit), result),
        result is Err ==> call_ensures(ConfigError::message, (&result->Err_0,), message),
    ensures
        final(config)@.crate_name == old(config)@.crate_name,
        result is Ok ==> {
            &&& old(config)@.parallelism is None
            &&& final(config)@.parallelism is Some
            &&& final(config)@.parallelism->0 > 0
            &&& lit is Int
        },
        result is Err ==> final(config)@.parallelism == old(config)@.parallelism,
        old(config)@.parallelism is Some ==> result is Err && message@ == "parallelism already set"@,
        old(config)@.parallelism is None && !(lit is Int) ==> result is Err && message@
            == "parallelism should be positive integer"@,
{
}

/// What an integer literal parses to is taken if it is positive, and refused with the reason if it
/// cannot be parsed.
pub proof fn law_set_number(
    config: &mut Configuration,
    number: Option<Result<usize, String>>,
    result: Result<(), ConfigError>,
    message: String,
)
    requires
        call_ensures(Configuration::set_number, (config, number), result),
        result is Err ==> call_ensures(ConfigError::message, (&result->Err_0,), message),
    ensures
        result is Ok <==> number is Some && number->0 is Ok && number->0->Ok_0 > 0,
        result is Ok ==> final(config)@.parallelism == Some(number->0->Ok_0),
        final(config)@.crate_name == old(config)@.crate_name,
        result is Err ==> final(config)@.parallelism == old(config)@.parallelism,
        number is None || (number->0 is Ok && number->0->Ok_0 == 0) ==> message@
            == "parallelism should be positive integer"@,
        number is Some && number->0 is Err ==> message@ == number->0->Err_0@,
{
}

spec fn is_digits(text: Seq<char>, from: int, base: nat) -> bool {
    forall|i: int|
        from <= i < text.len() ==> is_digits_char(#[trigger] text[i], base) && text[i] != '_'
            && digit_value(text[i]) < base
}

/// A literal that is made of digits alone is their value.
proof fn lemma_literal(text: Seq<char>, from: int, base: nat)
    requires
        text.len() > from,
        is_digits(text, from, base),
        base == 10 && from == 0 || from == 2 && text[0] == '0' && (base == 16 && text[1] == 'x'
            || base == 8 && text[1] == 'o' || base == 2 && text[1] == 'b'),
    ensures
        is_int_literal(text),
        literal_value(text) == digits_value(text.skip(from), base),
        number_read(text) == if literal_value(text) <= usize::MAX {
            Some(Ok::<usize, Seq<char>>(literal_value(text) as usize))
        } else {
            Some(Err(base10_error(without_suffix(text))))
        },
{
    assert(is_digits_char(text[from], base));
    if from == 0 {
        assert(is_digits_char(text[0], base) && text[0] != '_');
        if text.len() > 1 {
            assert(is_digits_char(text[1], base));
        }
    }
    assert(without_sign(text) == text);
    assert(base_of(text) == base);
    let number = without_base(text);
    assert(number =~= text.skip(from));
    assert forall|i: int| 0 <= i < number.len() implies is_digits_char(#[trigger] number[i], base)
        && number[i] != '_' && digit_value(number[i]) < base by {
        assert(number[i] == text[i + from]);
    }
    lemma_digits_end(number, base, number.len() as int);
    assert(number[0] != '_');
    assert(number.take(number.len() as int) =~= number);
    assert(number.skip(number.len() as int).len() == 0);
}

/// One more digit makes ten times a decimal parallelism and the digit, or is refused if that is too
/// large. A digit alone is the number that it is, and zero is refused.
pub proof fn law_decimal_parallelism(
    first: &mut Configuration,
    second: &mut Configuration,
    text: String,
    longer: String,
    c: char,
    results: (Result<(), ConfigError>, Result<(), ConfigError>),
)
    requires
        old(first)@.parallelism is None,
        old(second)@.parallelism is None,
        forall|i: int| 0 <= i < text@.len() ==> '0' <= #[trigger] text@[i] <= '9',
        '0' <= c <= '9',
        longer@ == text@.push(c),
        call_ensures(Configuration::set_parallelism, (first, Lit::Int(text)), results.0),
        call_ensures(Configuration::set_parallelism, (second, Lit::Int(longer)), results.1),
    ensures
        text@.len() == 0 ==> results.0 is Err,
        text@.len() == 0 && c != '0' ==> results.1 is Ok && final(second)@.parallelism->0 == c as int
            - '0' as int,
        text@.len() == 0 && c == '0' ==> results.1 is Err,
        results.0 is Ok ==> {
            let number = final(first)@.parallelism->0 * 10 + (c as int - '0' as int);
            &&& results.1 is Ok <==> number <= usize::MAX
            &&& results.1 is Ok ==> final(second)@.parallelism->0 == number
        },
{
    assert forall|i: int| 0 <= i < longer@.len() implies is_digits_char(#[trigger] longer@[i], 10)
        && longer@[i] != '_' && digit_value(longer@[i]) < 10 by {
        if i < text@.len() {
            assert(longer@[i] == text@[i]);
        }
    }
    lemma_literal(longer@, 0, 10);
    assert(longer@.skip(0) =~= longer@);
    assert(longer@.drop_last() =~= text@);
    assert(digits_value(longer@, 10) == digits_value(text@, 10) * 10 + digit_value(c));
    if text@.len() > 0 {
        assert forall|i: int| 0 <= i < text@.len() implies is_digits_char(#[trigger] text@[i], 10)
            && text@[i] != '_' && digit_value(text@[i]) < 10 by {
        }
        lemma_literal(text@, 0, 10);
        assert(text@.skip(0) =~= text@);
    } else {
        assert(without_sign(text@).len() == 0);
    }
}

/// One more digit makes the parallelism in another base as many times larger as that base is, and
/// larger by the digit.
pub proof fn law_parallelism_in_base(
    first: &mut Configuration,
    second: &mut Configuration,
    text: String,
    longer: String,
    c: char,
    base: nat,
    value: nat,
    results: (Result<(), ConfigError>, Result<(), ConfigError>),
)
    requires
        old(first)@.parallelism is None,
        old(second)@.parallelism is None,
        text@.len() > 2,
        text@[0] == '0',
        base == 16 && text@[1] == 'x' || base == 8 && text@[1] == 'o' || base == 2 && text@[1]
            == 'b',
        forall|i: int|
            2 <= i < text@.len() ==> '0' <= #[trigger] text@[i] <= '1' || base >= 8 && '0' <= text@[i]
                <= '7' || base == 16 && ('0' <= text@[i] <= '9' || 'a' <= text@[i] <= 'f' || 'A'
                <= text@[i] <= 'F'),
        value < base,
        '0' <= c <= '9' && value == c as int - '0' as int || 'a' <= c <= 'f' && value == c as int
            - 'a' as int + 10 || 'A' <= c <= 'F' && value == c as int - 'A' as int + 10,
        longer@ == text@.push(c),
        call_ensures(Configuration::set_parallelism, (first, Lit::Int(text)), results.0),
        call_ensures(Configuration::set_parallelism, (second, Lit::Int(longer)), results.1),
    ensures
        results.0 is Ok ==> {
            let number = final(first)@.parallelism->0 * base + value;
            &&& results.1 is Ok <==> number <= usize::MAX
            &&& results.1 is Ok ==> final(second)@.parallelism->0 == number
        },
        text@.len() == 3 && text@[2] == '0' && value > 0 ==> results.1 is Ok
            && final(second)@.parallelism->0 == value,
{
    assert forall|i: int| 2 <= i < text@.len() implies is_digits_char(#[trigger] text@[i], base)
        && text@[i] != '_' && digit_value(text@[i]) < base by {
    }
    assert forall|i: int| 2 <= i < longer@.len() implies is_digits_char(#[trigger] longer@[i], base)
        && longer@[i] != '_' && digit_value(longer@[i]) < base by {
        if i < text@.len() {
            assert(longer@[i] == text@[i]);
        }
    }
    lemma_literal(text@, 2, base);
    lemma_literal(longer@, 2, base);
    let digits = text@.skip(2);
    let more = longer@.skip(2);
    assert(more.drop_last() =~= digits);
    assert(more.last() == c);
    assert(digits_value(more, base) == digits_value(digits, base) * base + digit_value(c));
    assert(digit_value(c) == value);
    if text@.len() == 3 && text@[2] == '0' {
        reveal_with_fuel(digits_value, 2);
        assert(digits.drop_last().len() == 0);
        assert(digits.last() == '0');
        assert(digits_value(digits.drop_last(), base) == 0);
        assert(digits_value(digits, base) == 0) by (nonlinear_arith)
            requires
                digits_value(digits, base) == digits_value(digits.drop_last(), base) * base
                    + digit_value('0'),
                digits_value(digits.drop_last(), base) == 0,
                digit_value('0') == 0,
        ;
        assert(digits_value(more, base) == value) by (nonlinear_arith)
            requires
                digits_value(more, base) == digits_value(digits, base) * base + value,
                digits_value(digits, base) == 0,
        ;
        assert(value <= usize::MAX);
    }
}

/// A negative parallelism is refused.
pub proof fn law_negative_parallelism(
    config: &mut Configuration,
    text: String,
    result: Result<(), ConfigError>,
)
    requires
        text@.len() > 0,
        text@[0] == '-',
        call_ensures(Configuration::set_parallelism, (config, Lit::Int(text)), result),
    ensures
        result is Err,
        final(config)@ == old(config)@,
{
}

/// The crate name is set once, from a string. What is refused changes nothing, and the parallelism
/// stays either way.
pub proof fn law_set_crate_name(
    config: &mut Configuration,
    lit: Lit,
    result: Result<(), ConfigError>,
    message: String,
)
    requires
        call_ensures(Configuration::set_crate_name, (config, lit), result),
        result is Err ==> call_ensures(ConfigError::message, (&result->Err_0,), message),
    ensures
        final(config)@.parallelism == old(config)@.parallelism,
        result is Ok ==> {
            &&& old(config)@.crate_name is None
            &&& final(config)@.crate_name is Some
            &&& lit is Str
        },
        result is Err ==> final(config)@.crate_name == old(config)@.crate_name,
        old(config)@.crate_name is Some ==> result is Err && message@ == "crate name already set"@,
        old(config)@.crate_name is None && !(lit is Str) ==> result is Err && message@
            == "invalid crate name"@,
        old(config)@.crate_name is None && result is Err ==> (lit matches Lit::Str(value) ==> message@
            == "invalid crate name: "@ + value@),
{
}

/// A string of letters and underscores is the crate name that it spells, unless it is a keyword. With
/// a digit in front, a colon, or nothing at all, it is none.
pub proof fn law_crate_name_as_spelled(
    config: &mut Configuration,
    value: String,
    result: Result<(), ConfigError>,
)
    requires
        old(config)@.crate_name is None,
        call_ensures(Configuration::set_crate_name, (config, Lit::Str(value)), result),
        forall|i: int|
            0 <= i < value@.len() ==> 'a' <= #[trigger] value@[i] <= 'z' || 'A' <= value@[i] <= 'Z'
                || '0' <= value@[i] <= '9' || value@[i] == '_' || value@[i] == ':',
    ensures
        result is Ok ==> final(config)@.crate_name == Some(value@),
        result is Ok <==> {
            &&& value@.len() > 0
            &&& !('0' <= value@[0] <= '9')
            &&& forall|i: int| 0 <= i < value@.len() ==> #[trigger] value@[i] != ':'
            &&& !({
                ||| value@ == "_"@
                ||| value@ == "abstract"@
                ||| value@ == "as"@
                ||| value@ == "become"@
                ||| value@ == "box"@
                ||| value@ == "break"@
                ||| value@ == "const"@
                ||| value@ == "continue"@
                ||| value@ == "do"@
                ||| value@ == "else"@
                ||| value@ == "enum"@
                ||| value@ == "extern"@
                ||| value@ == "false"@
                ||| value@ == "final"@
                ||| value@ == "fn"@
                ||| value@ == "for"@
                ||| value@ == "if"@
                ||| value@ == "impl"@
                ||| value@ == "in"@
                ||| value@ == "let"@
                ||| value@ == "loop"@
                ||| value@ == "macro"@
                ||| value@ == "match"@
                ||| value@ == "mod"@
                ||| value@ == "move"@
                ||| value@ == "mut"@
                ||| value@ == "override"@
                ||| value@ == "priv"@
                ||| value@ == "pub"@
                ||| value@ == "ref"@
                ||| value@ == "return"@
                ||| value@ == "static"@
                ||| value@ == "struct"@
                ||| value@ == "trait"@
                ||| value@ == "true"@
                ||| value@ == "type"@
                ||| value@ == "typeof"@
                ||| value@ == "unsafe"@
                ||| value@ == "unsized"@
                ||| value@ == "use"@
                ||| value@ == "virtual"@
                ||| value@ == "where"@
                ||| value@ == "while"@
                ||| value@ == "yield"@
            })
        },
{
    let text = value@;
    assert forall|i: int| 0 <= i < text.len() implies is_path_char(#[trigger] text[i]) by {
    }
    assert(is_path_like(text));
    assert(without_leading(text) == text);
    assert(without_trailing(text) == text);
    if is_raw_ident(text) {
        assert(text[1] == '#');
    }
    if forall|i: int| 0 <= i < text.len() ==> #[trigger] text[i] != ':' {
        assert(is_word(text));
    } else {
        let i = choose|i: int| 0 <= i < text.len() && #[trigger] text[i] == ':';
        assert(!is_word_char(text[i]));
    }
}

/// The crate name is the identifier that a string reads as, and a string that reads as none is
/// refused.
pub proof fn law_set_ident(
    config: &mut Configuration,
    value: String,
    ident: Option<String>,
    result: Result<(), ConfigError>,
    message: String,
)
    requires
        call_ensures(Configuration::set_ident, (config, value, ident), result),
        result is Err ==> call_ensures(ConfigError::message, (&result->Err_0,), message),
    ensures
        result is Ok <==> ident is Some,
        result is Ok ==> final(config)@.crate_name == Some(ident->0@),
        result is Err ==> final(config)@ == old(config)@ && message@ == "invalid crate name: "@
            + value@,
        final(config)@.parallelism == old(config)@.parallelism,
{
}

/// No arguments leave both settings to their defaults. Arguments are taken only if each has one of
/// the two names, and no name comes twice. The parallelism is then the one that its argument alone
/// would set, and there is none without such an argument.
pub proof fn law_parse_config(
    arguments: VecDeque<Arg>,
    result: Result<Configuration, ConfigError>,
    default: Configuration,
    alone: &mut Configuration,
    i: int,
    j: int,
    lit: Lit,
    set: Result<(), ConfigError>,
)
    requires
        call_ensures(parse_config, (arguments,), result),
        call_ensures(<Configuration as Default>::default, (), default),
        *old(alone) == default,
        call_ensures(Configuration::set_parallelism, (alone, lit), set),
        0 <= i < arguments@.len(),
        0 <= j < arguments@.len(),
        i != j,
    ensures
        default@.crate_name is None && default@.parallelism is None,
        result is Ok ==> {
            let names = |k: int, word: Seq<char>|
                arguments@[k] is NameValue && arguments@[k]->name is Some && arguments@[k]->name->0@
                    == word;
            &&& names(i, "parallelism"@) || names(i, "crate"@)
            &&& !(names(i, "parallelism"@) && names(j, "parallelism"@))
            &&& !(names(i, "crate"@) && names(j, "crate"@))
            &&& names(i, "parallelism"@) && arguments@[i]->lit == lit ==> set is Ok
                && result->Ok_0@.parallelism == final(alone)@.parallelism
            &&& names(i, "crate"@) ==> arguments@[i]->lit is Str && result->Ok_0@.crate_name is Some
            &&& (forall|k: int|
                0 <= k < arguments@.len() ==> !(#[trigger] arguments@[k] is NameValue
                    && arguments@[k]->name is Some && arguments@[k]->name->0@ == "parallelism"@))
                ==> result->Ok_0@.parallelism is None
            &&& (forall|k: int|
                0 <= k < arguments@.len() ==> !(#[trigger] arguments@[k] is NameValue
                    && arguments@[k]->name is Some && arguments@[k]->name->0@ == "crate"@))
                ==> result->Ok_0@.crate_name is None
        },
{
    let reads = choose|reads: Seq<Option<Seq<char>>>| #[trigger]
        parsed(arguments@, reads, result);
    law_settings(arguments@, reads);
    if result is Ok {
        assert(sets_parallelism(arguments@[i]) || sets_crate_name(arguments@[i]));
        if i < j {
            assert(!(sets_parallelism(arguments@[i]) && sets_parallelism(arguments@[j])));
        } else {
            assert(!(sets_parallelism(arguments@[j]) && sets_parallelism(arguments@[i])));
        }
    }
}

/// No arguments leave both settings to their defaults, and the argument that is alone is taken or
/// refused as it would be by itself.
pub proof fn law_parse_config_of_one(
    arguments: VecDeque<Arg>,
    result: Result<Configuration, ConfigError>,
    default: Configuration,
    alone: &mut Configuration,
    lit: Lit,
    set: Result<(), ConfigError>,
    message: String,
)
    requires
        call_ensures(parse_config, (arguments,), result),
        call_ensures(<Configuration as Default>::default, (), default),
        *old(alone) == default,
        call_ensures(Configuration::set_parallelism, (alone, lit), set),
        arguments@.len() <= 1,
        result is Err ==> call_ensures(ConfigError::message, (&result->Err_0,), message),
    ensures
        arguments@.len() == 0 ==> result is Ok && result->Ok_0@.crate_name is None
            && result->Ok_0@.parallelism is None,
        arguments@.len() == 1 ==> (arguments@[0] matches Arg::NameValue {
            name: Some(name),
            lit: given,
        } ==> {
            &&& name@ == "parallelism"@ && given == lit ==> (result is Ok <==> set is Ok)
            &&& name@ == "parallelism"@ && given == lit && result is Ok ==> result->Ok_0@
                == final(alone)@
            &&& name@ != "parallelism"@ && name@ != "crate"@ ==> result is Err && message@
                == "unknown attribute name"@
        }),
        arguments@.len() == 1 ==> (arguments@[0] matches Arg::NameValue { name: None, lit: _ }
            ==> result is Err && message@ == "invalid attribute name"@),
        arguments@.len() == 1 && arguments@[0] is Other ==> result is Err && message@
            == "unknown attribute"@,
{
    let reads = choose|reads: Seq<Option<Seq<char>>>| #[trigger]
        parsed(arguments@, reads, result);
    reveal_with_fuel(ConfigView::with_args, 2);
    if arguments@.len() == 1 {
        assert(arguments@.last() == arguments@[0]);
        assert(arguments@.drop_last().len() == 0);
    }
}

/// A function is run by an attribute if and only if it is synchronous and either a test or the main
/// function: in the runtime of the crate that was named, or else of this one, and with the
/// parallelism that was set, or else zero for the default.
pub proof fn law_generate(
    is_test: bool,
    config: Configuration,
    asynchronous: bool,
    name: &String,
    result: Result<Generated, GenerateError>,
    message: String,
)
    requires
        call_ensures(generate, (is_test, config, asynchronous, name), result),
        result is Err ==> call_ensures(GenerateError::message, (&result->Err_0,), message),
    ensures
        result is Ok <==> !asynchronous && (is_test || name@ == "main"@),
        result is Ok ==> {
            &&& result->Ok_0.is_test == is_test
            &&& config@.crate_name is Some ==> result->Ok_0.crate_name@ == config@.crate_name->0
            &&& config@.crate_name is None ==> result->Ok_0.crate_name@ == "stuck"@
            &&& config@.parallelism is Some ==> result->Ok_0.parallelism == config@.parallelism->0
            &&& config@.parallelism is None ==> result->Ok_0.parallelism == 0
        },
        asynchronous && is_test ==> message@ == "only synchronous function can be tagged with "@
            + "#[stuck::test]"@,
        asynchronous && !is_test ==> message@ == "only synchronous function can be tagged with "@
            + "#[stuck::main]"@,
        result is Err && !asynchronous ==> message@
            == "only the main function can be tagged with #[stuck::main]"@,
{
}

} // verus!
