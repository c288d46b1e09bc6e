//! The reader: from text to a value.
//!
//! Reading has two stages. The text is first cut into tokens; then the first form is
//! built from the tokens. Both stages are defined here as functions on sequences of
//! characters, and the executable reader is proved to compute them. Positions are
//! counted in characters from the start of the text.

use crate::text::{chars_of, push_char, str_eq};
use crate::types::{values_of, MalType, Value};
use vstd::prelude::*;

verus! {

/// Why reading failed.
#[derive(Debug, PartialEq)]
pub enum ReaderError {
    /// The text ended where a form was expected.
    EndOfInput,
    /// A list or a string was opened and never closed: the opening delimiter, and the
    /// position of the token that opened it.
    Unbalanced(&'static str, usize),
}

/// Model of a reader error.
pub enum ReadFailure {
    EndOfInput,
    Unbalanced(Seq<char>, nat),
}

impl View for ReaderError {
    type V = ReadFailure;

    open spec fn view(&self) -> ReadFailure {
        match self {
            ReaderError::EndOfInput => ReadFailure::EndOfInput,
            ReaderError::Unbalanced(delimiter, position) => ReadFailure::Unbalanced(
                delimiter@,
                *position as nat,
            ),
        }
    }
}

/// The model of what reading returned.
pub open spec fn read_result_of(result: Result<MalType, ReaderError>) -> Result<Value, ReadFailure> {
    match result {
        Ok(v) => Ok(v@),
        Err(e) => Err(e@),
    }
}

// ---------------------------------------------------------------------------------------
// Characters
// ---------------------------------------------------------------------------------------

/// White space: the characters with the Unicode property `White_Space`.
pub open spec fn is_space(c: char) -> bool {
    ||| '\u{9}' <= c <= '\u{D}'
    ||| c == ' '
    ||| c == '\u{85}'
    ||| c == '\u{A0}'
    ||| c == '\u{1680}'
    ||| '\u{2000}' <= c <= '\u{200A}'
    ||| c == '\u{2028}'
    ||| c == '\u{2029}'
    ||| c == '\u{202F}'
    ||| c == '\u{205F}'
    ||| c == '\u{3000}'
}

/// What separates tokens: white space and commas.
pub open spec fn is_blank(c: char) -> bool {
    is_space(c) || c == ','
}

/// The characters that are a token by themselves.
pub open spec fn is_punct(c: char) -> bool {
    ||| c == '['
    ||| c == ']'
    ||| c == '{'
    ||| c == '}'
    ||| c == '('
    ||| c == ')'
    ||| c == '\''
    ||| c == '`'
    ||| c == '~'
    ||| c == '^'
    ||| c == '@'
}

/// The characters that an atom may hold.
pub open spec fn is_atom_char(c: char) -> bool {
    &&& !is_space(c)
    &&& c != '['
    &&& c != ']'
    &&& c != '{'
    &&& c != '}'
    &&& c != '('
    &&& c != ')'
    &&& c != '\''
    &&& c != '"'
    &&& c != '`'
    &&& c != ','
    &&& c != ';'
}

fn space(c: char) -> (yes: bool)
    ensures
        yes == is_space(c),
{
    ('\u{9}' <= c && c <= '\u{D}') || c == ' ' || c == '\u{85}' || c == '\u{A0}' || c
        == '\u{1680}' || ('\u{2000}' <= c && c <= '\u{200A}') || c == '\u{2028}' || c
        == '\u{2029}' || c == '\u{202F}' || c == '\u{205F}' || c == '\u{3000}'
}

fn punct(c: char) -> (yes: bool)
    ensures
        yes == is_punct(c),
{
    c == '[' || c == ']' || c == '{' || c == '}' || c == '(' || c == ')' || c == '\'' || c == '`'
        || c == '~' || c == '^' || c == '@'
}

fn atom_char(c: char) -> (yes: bool)
    ensures
        yes == is_atom_char(c),
{
    !space(c) && c != '[' && c != ']' && c != '{' && c != '}' && c != '(' && c != ')' && c != '\''
        && c != '"' && c != '`' && c != ',' && c != ';'
}

// ---------------------------------------------------------------------------------------
// Tokens
// ---------------------------------------------------------------------------------------

/// The first position from `i` on that holds no blank.
pub open spec fn skip_blank(s: Seq<char>, i: nat) -> nat
    decreases s.len() - i,
{
    if i < s.len() && is_blank(s[i as int]) {
        skip_blank(s, i + 1)
    } else {
        i
    }
}

/// Where the inside of a string that starts at `i` stops: at the first double quote
/// that no backslash escapes, or where the text ends. A backslash escapes the character
/// after it, unless that is a line feed or the text ends there; such a backslash stops
/// the string too.
pub open spec fn string_end(s: Seq<char>, i: nat) -> nat
    decreases s.len() - i,
{
    if i >= s.len() {
        i
    } else if s[i as int] == '"' {
        i
    } else if s[i as int] == '\\' {
        if i + 1 < s.len() && s[i as int + 1] != '\n' {
            string_end(s, i + 2)
        } else {
            i
        }
    } else {
        string_end(s, i + 1)
    }
}

/// The first position from `i` on that holds a line feed, or the end of the text.
pub open spec fn line_end(s: Seq<char>, i: nat) -> nat
    decreases s.len() - i,
{
    if i < s.len() && s[i as int] != '\n' {
        line_end(s, i + 1)
    } else {
        i
    }
}

/// The first position from `i` on that holds no atom character.
pub open spec fn atom_end(s: Seq<char>, i: nat) -> nat
    decreases s.len() - i,
{
    if i < s.len() && is_atom_char(s[i as int]) {
        atom_end(s, i + 1)
    } else {
        i
    }
}

/// Where the token that starts at `i` ends. In order of precedence, a token is: the two
/// characters `~@`; one character of punctuation; a string, from its opening quote to
/// its closing quote, or to where it stops without one; a comment, from a semicolon to
/// the end of the line; or a longest run of atom characters.
pub open spec fn token_end(s: Seq<char>, i: nat) -> nat {
    let c = s[i as int];
    if c == '~' && i + 1 < s.len() && s[i as int + 1] == '@' {
        i + 2
    } else if is_punct(c) {
        i + 1
    } else if c == '"' {
        let stop = string_end(s, i + 1);
        if stop < s.len() && s[stop as int] == '"' {
            stop + 1
        } else {
            stop
        }
    } else if c == ';' {
        line_end(s, i + 1)
    } else {
        atom_end(s, i + 1)
    }
}

/// Model of a token: the positions where it starts and ends.
pub struct Span {
    pub start: nat,
    pub end: nat,
}

/// The characters of a token.
pub open spec fn text_of(s: Seq<char>, span: Span) -> Seq<char> {
    s.subrange(span.start as int, span.end as int)
}

/// Skipping blanks never goes back nor past the end, and stops at what is no blank.
pub proof fn lemma_skip_blank(s: Seq<char>, i: nat)
    requires
        i <= s.len(),
    ensures
        i <= skip_blank(s, i) <= s.len(),
        skip_blank(s, i) < s.len() ==> !is_blank(s[skip_blank(s, i) as int]),
    decreases s.len() - i,
{
    if i < s.len() && is_blank(s[i as int]) {
        lemma_skip_blank(s, i + 1);
    }
}

/// The inside of a string stops between where it starts and the end of the text.
pub proof fn lemma_string_end(s: Seq<char>, i: nat)
    requires
        i <= s.len(),
    ensures
        i <= string_end(s, i) <= s.len(),
    decreases s.len() - i,
{
    if i < s.len() && s[i as int] != '"' {
        if s[i as int] == '\\' {
            if i + 1 < s.len() && s[i as int + 1] != '\n' {
                lemma_string_end(s, i + 2);
            }
        } else {
            lemma_string_end(s, i + 1);
        }
    }
}

/// A line ends between where it is looked for and the end of the text.
pub proof fn lemma_line_end(s: Seq<char>, i: nat)
    requires
        i <= s.len(),
    ensures
        i <= line_end(s, i) <= s.len(),
    decreases s.len() - i,
{
    if i < s.len() && s[i as int] != '\n' {
        lemma_line_end(s, i + 1);
    }
}

/// A run of atom characters ends between where it starts and the end of the text.
pub proof fn lemma_atom_end(s: Seq<char>, i: nat)
    requires
        i <= s.len(),
    ensures
        i <= atom_end(s, i) <= s.len(),
    decreases s.len() - i,
{
    if i < s.len() && is_atom_char(s[i as int]) {
        lemma_atom_end(s, i + 1);
    }
}

/// A token is never empty and never runs past the end of the text.
pub proof fn lemma_token_end(s: Seq<char>, i: nat)
    requires
        i < s.len(),
    ensures
        i < token_end(s, i) <= s.len(),
{
    lemma_string_end(s, i + 1);
    lemma_line_end(s, i + 1);
    lemma_atom_end(s, i + 1);
}

/// The tokens of the text from position `i` on, in order.
pub open spec fn tokens_from(s: Seq<char>, i: nat) -> Seq<Span>
    decreases s.len() - i,
{
    let start = skip_blank(s, i);
    if i > s.len() || start >= s.len() {
        Seq::empty()
    } else {
        let end = token_end(s, start);
        proof {
            lemma_skip_blank(s, i);
            lemma_token_end(s, start);
        }
        seq![Span { start, end }] + tokens_from(s, end)
    }
}

/// A token: the positions where it starts and ends.
pub struct Token {
    pub start: usize,
    pub end: usize,
}

impl View for Token {
    type V = Span;

    open spec fn view(&self) -> Span {
        Span { start: self.start as nat, end: self.end as nat }
    }
}

/// The models of a sequence of tokens.
pub open spec fn spans_of(tokens: Seq<Token>) -> Seq<Span> {
    Seq::new(tokens.len(), |i: int| tokens[i]@)
}

fn scan_blank(s: &Vec<char>, from: usize) -> (stop: usize)
    requires
        from <= s.len(),
    ensures
        stop == skip_blank(s@, from as nat),
        from <= stop <= s.len(),
{
    let mut i: usize = from;
    while i < s.len() && (space(s[i]) || s[i] == ',')
        invariant
            from <= i <= s.len(),
            skip_blank(s@, i as nat) == skip_blank(s@, from as nat),
        decreases s.len() - i,
    {
        i += 1;
    }
    i
}

fn scan_string(s: &Vec<char>, from: usize) -> (stop: usize)
    requires
        from <= s.len(),
    ensures
        stop == string_end(s@, from as nat),
        from <= stop <= s.len(),
{
    let mut i: usize = from;
    while i < s.len()
        invariant
            from <= i <= s.len(),
            string_end(s@, i as nat) == string_end(s@, from as nat),
        decreases s.len() - i,
    {
        if s[i] == '"' {
            return i;
        } else if s[i] == '\\' {
            if i + 1 < s.len() && s[i + 1] != '\n' {
                i += 2;
            } else {
                return i;
            }
        } else {
            i += 1;
        }
    }
    i
}

fn scan_line(s: &Vec<char>, from: usize) -> (stop: usize)
    requires
        from <= s.len(),
    ensures
        stop == line_end(s@, from as nat),
        from <= stop <= s.len(),
{
    let mut i: usize = from;
    while i < s.len() && s[i] != '\n'
        invariant
            from <= i <= s.len(),
            line_end(s@, i as nat) == line_end(s@, from as nat),
        decreases s.len() - i,
    {
        i += 1;
    }
    i
}

fn scan_atom(s: &Vec<char>, from: usize) -> (stop: usize)
    requires
        from <= s.len(),
    ensures
        stop == atom_end(s@, from as nat),
        from <= stop <= s.len(),
{
    let mut i: usize = from;
    while i < s.len() && atom_char(s[i])
        invariant
            from <= i <= s.len(),
            atom_end(s@, i as nat) == atom_end(s@, from as nat),
        decreases s.len() - i,
    {
        i += 1;
    }
    i
}

fn scan_token(s: &Vec<char>, from: usize) -> (stop: usize)
    requires
        from < s.len(),
    ensures
        stop == token_end(s@, from as nat),
        from < stop <= s.len(),
{
    let c = s[from];
    if c == '~' && from + 1 < s.len() && s[from + 1] == '@' {
        from + 2
    } else if punct(c) {
        from + 1
    } else if c == '"' {
        let stop = scan_string(s, from + 1);
        if stop < s.len() && s[stop] == '"' {
            stop + 1
        } else {
            stop
        }
    } else if c == ';' {
        scan_line(s, from + 1)
    } else {
        scan_atom(s, from + 1)
    }
}

/// Cuts the text into its tokens.
pub fn tokenize(s: &Vec<char>) -> (tokens: Vec<Token>)
    ensures
        spans_of(tokens@) == tokens_from(s@, 0),
        forall|k: int|
            0 <= k < tokens.len() ==> (#[trigger] tokens[k]).start < tokens[k].end <= s.len(),
{
    let mut tokens: Vec<Token> = Vec::new();
    let mut i: usize = 0;
    assert(spans_of(tokens@) + tokens_from(s@, 0) =~= tokens_from(s@, 0));
    loop
        invariant
            i <= s.len(),
            spans_of(tokens@) + tokens_from(s@, i as nat) == tokens_from(s@, 0),
            forall|k: int|
                0 <= k < tokens.len() ==> (#[trigger] tokens[k]).start < tokens[k].end <= s.len(),
        decreases s.len() - i,
    {
        let start = scan_blank(s, i);
        if start >= s.len() {
            assert(spans_of(tokens@) + tokens_from(s@, i as nat) =~= spans_of(tokens@));
            return tokens;
        }
        let end = scan_token(s, start);
        let ghost before = spans_of(tokens@);
        tokens.push(Token { start, end });
        assert(spans_of(tokens@) =~= before.push(Span { start: start as nat, end: end as nat }));
        assert(spans_of(tokens@) + tokens_from(s@, end as nat) =~= before + tokens_from(
            s@,
            i as nat,
        ));
        i = end;
    }
}

// ---------------------------------------------------------------------------------------
// Atoms
// ---------------------------------------------------------------------------------------

/// Whether a token that starts with a double quote is a whole string: it ends with a
/// double quote that closes it.
pub open spec fn is_closed(text: Seq<char>) -> bool {
    &&& text.len() >= 2
    &&& string_end(text, 1) == text.len() - 1
    &&& text[text.len() - 1] == '"'
}

/// The character that a backslash followed by `c` stands for: a line feed for `n`, and
/// `c` itself for any other character.
pub open spec fn escaped(c: char) -> char {
    if c == 'n' {
        '\n'
    } else {
        c
    }
}

/// The characters that the inside of a string stands for, from position `i` on: a
/// backslash and the character after it stand for one character, see `escaped`; every
/// other character stands for itself.
pub open spec fn unescape(body: Seq<char>, i: nat) -> Seq<char>
    decreases body.len() - i,
{
    if i >= body.len() {
        Seq::empty()
    } else if body[i as int] == '\\' && i + 1 < body.len() {
        seq![escaped(body[i as int + 1])] + unescape(body, i + 2)
    } else {
        seq![body[i as int]] + unescape(body, i + 1)
    }
}

pub open spec fn is_digit(c: char) -> bool {
    '0' <= c <= '9'
}

/// Whether the text is one or more decimal digits.
pub open spec fn all_digits(text: Seq<char>) -> bool {
    text.len() > 0 && forall|i: int| 0 <= i < text.len() ==> is_digit(#[trigger] text[i])
}

/// The number that a sequence of decimal digits writes.
pub open spec fn decimal(text: Seq<char>) -> nat
    decreases text.len(),
{
    if text.len() == 0 {
        0
    } else {
        decimal(text.drop_last()) * 10 + (text.last() as nat - '0' as nat) as nat
    }
}

/// The value of a token that is neither a parenthesis nor a comment. `true`, `false` and
/// `nil` are themselves. A token that starts with a double quote is a string if it is
/// closed. A token that starts with a colon is a keyword. A token of decimal digits is
/// the integer it writes, or the greatest integer if it writes a greater one. Any other
/// token is a symbol.
pub open spec fn read_atom_spec(text: Seq<char>, start: nat) -> Result<Value, ReadFailure> {
    if text == "true"@ {
        Ok(Value::Bool(true))
    } else if text == "false"@ {
        Ok(Value::Bool(false))
    } else if text == "nil"@ {
        Ok(Value::Nil)
    } else if text.len() > 0 && text[0] == '"' {
        if is_closed(text) {
            Ok(Value::Str(unescape(text.subrange(1, text.len() - 1), 0)))
        } else {
            Err(ReadFailure::Unbalanced("\""@, start))
        }
    } else if text.len() > 0 && text[0] == ':' {
        Ok(Value::Keyword(text))
    } else if all_digits(text) {
        Ok(
            Value::Integer(
                if decimal(text) > i64::MAX {
                    i64::MAX as int
                } else {
                    decimal(text) as int
                },
            ),
        )
    } else {
        Ok(Value::Symbol(text))
    }
}

/// A string with the characters of `s` from `from` to `to`.
fn string_of(s: &Vec<char>, from: usize, to: usize) -> (text: String)
    requires
        from <= to <= s.len(),
    ensures
        text@ == s@.subrange(from as int, to as int),
{
    let mut text = String::new();
    let mut i: usize = from;
    while i < to
        invariant
            from <= i <= to <= s.len(),
            text@ == s@.subrange(from as int, i as int),
        decreases to - i,
    {
        push_char(&mut text, s[i]);
        assert(s@.subrange(from as int, i as int).push(s@[i as int]) =~= s@.subrange(
            from as int,
            i + 1,
        ));
        i += 1;
    }
    text
}

/// The string that the inside of a string token stands for; the inside is what lies
/// between `from` and `to`.
fn decode(s: &Vec<char>, from: usize, to: usize) -> (text: String)
    requires
        from <= to <= s.len(),
    ensures
        text@ == unescape(s@.subrange(from as int, to as int), 0),
{
    let ghost body = s@.subrange(from as int, to as int);
    let mut text = String::new();
    let mut i: usize = from;
    while i < to
        invariant
            from <= i <= to <= s.len(),
            body == s@.subrange(from as int, to as int),
            text@ + unescape(body, (i - from) as nat) == unescape(body, 0),
        decreases to - i,
    {
        let ghost before = text@;
        let ghost k = (i - from) as nat;
        if s[i] == '\\' && i + 1 < to {
            let c = if s[i + 1] == 'n' {
                '\n'
            } else {
                s[i + 1]
            };
            push_char(&mut text, c);
            assert(text@ + unescape(body, k + 2) =~= before + unescape(body, k));
            i += 2;
        } else {
            push_char(&mut text, s[i]);
            assert(text@ + unescape(body, k + 1) =~= before + unescape(body, k));
            i += 1;
        }
    }
    assert(text@ + unescape(body, (i - from) as nat) =~= text@);
    text
}

/// Whether what lies between `from` and `to` is one or more decimal digits.
fn digits(s: &Vec<char>, from: usize, to: usize) -> (yes: bool)
    requires
        from <= to <= s.len(),
    ensures
        yes == all_digits(s@.subrange(from as int, to as int)),
{
    if from == to {
        return false;
    }
    let ghost text = s@.subrange(from as int, to as int);
    let mut i: usize = from;
    while i < to
        invariant
            from <= i <= to <= s.len(),
            text == s@.subrange(from as int, to as int),
            forall|j: int| 0 <= j < i - from ==> is_digit(#[trigger] text[j]),
        decreases to - i,
    {
        if !('0' <= s[i] && s[i] <= '9') {
            assert(!is_digit(text[i - from]));
            return false;
        }
        i += 1;
    }
    true
}

/// Appending a digit to a numeral never makes the number smaller.
proof fn lemma_decimal_step(text: Seq<char>, n: int)
    requires
        0 <= n < text.len(),
        is_digit(text[n]),
    ensures
        decimal(text.take(n + 1)) == decimal(text.take(n)) * 10 + (text[n] as nat - '0' as nat),
        decimal(text.take(n + 1)) >= decimal(text.take(n)),
{
    assert(text.take(n + 1).drop_last() =~= text.take(n));
}

/// The integer that the digits between `from` and `to` write, or the greatest integer
/// if they write a greater one.
fn number(s: &Vec<char>, from: usize, to: usize) -> (n: i64)
    requires
        from <= to <= s.len(),
        all_digits(s@.subrange(from as int, to as int)),
    ensures
        n == if decimal(s@.subrange(from as int, to as int)) > i64::MAX {
            i64::MAX as int
        } else {
            decimal(s@.subrange(from as int, to as int)) as int
        },
{
    let ghost text = s@.subrange(from as int, to as int);
    let mut n: i64 = 0;
    let mut i: usize = from;
    assert(text.take(0) =~= Seq::empty());
    while i < to
        invariant
            from <= i <= to <= s.len(),
            text == s@.subrange(from as int, to as int),
            all_digits(text),
            0 <= n,
            n == if decimal(text.take(i - from)) > i64::MAX {
                i64::MAX as int
            } else {
                decimal(text.take(i - from)) as int
            },
        decreases to - i,
    {
        let c = s[i];
        assert(c == text[i - from]);
        assert(is_digit(text[i - from]));
        proof {
            lemma_decimal_step(text, i - from);
        }
        let d: i64 = (c as u32 - '0' as u32) as i64;
        if n > (i64::MAX - d) / 10 {
            n = i64::MAX;
        } else {
            n = n * 10 + d;
        }
        i += 1;
    }
    assert(text.take(to - from) =~= text);
    n
}

/// The value of the token `token`, which is neither a parenthesis nor a comment.
fn read_atom(s: &Vec<char>, token: &Token) -> (result: Result<MalType, ReaderError>)
    requires
        token.start < token.end <= s.len(),
    ensures
        read_result_of(result) == read_atom_spec(text_of(s@, token@), token.start as nat),
{
    let ghost whole = text_of(s@, token@);
    let text = string_of(s, token.start, token.end);
    if str_eq(text.as_str(), "true") {
        Ok(MalType::Bool(true))
    } else if str_eq(text.as_str(), "false") {
        Ok(MalType::Bool(false))
    } else if str_eq(text.as_str(), "nil") {
        Ok(MalType::Nil)
    } else if s[token.start] == '"' {
        let copy = slice_of(s, token.start, token.end);
        let stop = scan_string(&copy, 1);
        if copy.len() >= 2 && stop == copy.len() - 1 && copy[copy.len() - 1] == '"' {
            assert(s@.subrange(token.start + 1, token.end - 1) =~= whole.subrange(
                1,
                whole.len() - 1,
            ));
            Ok(MalType::String(decode(s, token.start + 1, token.end - 1)))
        } else {
            Err(ReaderError::Unbalanced("\"", token.start))
        }
    } else if s[token.start] == ':' {
        Ok(MalType::Keyword(text))
    } else if digits(s, token.start, token.end) {
        Ok(MalType::Integer(number(s, token.start, token.end)))
    } else {
        Ok(MalType::Symbol(text))
    }
}

/// The characters of `s` from `from` to `to`.
fn slice_of(s: &Vec<char>, from: usize, to: usize) -> (part: Vec<char>)
    requires
        from <= to <= s.len(),
    ensures
        part@ == s@.subrange(from as int, to as int),
{
    let mut part: Vec<char> = Vec::new();
    let mut i: usize = from;
    while i < to
        invariant
            from <= i <= to <= s.len(),
            part@ == s@.subrange(from as int, i as int),
        decreases to - i,
    {
        part.push(s[i]);
        assert(s@.subrange(from as int, i as int).push(s@[i as int]) =~= s@.subrange(
            from as int,
            i + 1,
        ));
        i += 1;
    }
    part
}

// ---------------------------------------------------------------------------------------
// Forms
// ---------------------------------------------------------------------------------------

/// The form that starts at token `k`, and the number of the token after it.
///
/// An opening parenthesis starts a list; a comment is passed over; any other token is an
/// atom. Where no token is left, reading fails with `EndOfInput`.
pub open spec fn read_form_spec(s: Seq<char>, tokens: Seq<Span>, k: nat) -> (
    Result<Value, ReadFailure>,
    nat,
)
    decreases tokens.len() - k, 0nat,
{
    if k >= tokens.len() {
        (Err(ReadFailure::EndOfInput), k)
    } else {
        let text = text_of(s, tokens[k as int]);
        if text == seq!['('] {
            read_list_spec(s, tokens, k + 1, Seq::empty(), tokens[k as int].start)
        } else if text.len() > 0 && text[0] == ';' {
            read_form_spec(s, tokens, k + 1)
        } else {
            (read_atom_spec(text, tokens[k as int].start), k + 1)
        }
    }
}

/// The list whose opening parenthesis is the token that starts at position `open`, when
/// `items` are its elements read so far and token `k` comes next. A closing parenthesis
/// ends the list. Where the tokens run out first, reading fails with `Unbalanced`.
///
/// A form always takes at least one token and none beyond the last, see
/// `lemma_read_form_advances`, so the inner test on `next` never fails.
pub open spec fn read_list_spec(
    s: Seq<char>,
    tokens: Seq<Span>,
    k: nat,
    items: Seq<Value>,
    open: nat,
) -> (Result<Value, ReadFailure>, nat)
    decreases tokens.len() - k, 1nat,
{
    if k >= tokens.len() {
        (Err(ReadFailure::Unbalanced("("@, open)), k)
    } else if text_of(s, tokens[k as int]) == seq![')'] {
        (Ok(Value::List(items)), k + 1)
    } else {
        let (item, next) = read_form_spec(s, tokens, k);
        match item {
            Ok(v) => if k < next <= tokens.len() {
                read_list_spec(s, tokens, next, items.push(v), open)
            } else {
                (Err(ReadFailure::EndOfInput), next)
            },
            Err(ReadFailure::EndOfInput) => (Err(ReadFailure::Unbalanced("("@, open)), next),
            Err(e) => (Err(e), next),
        }
    }
}

/// Reading a form takes at least one token, and never more than there are.
pub proof fn lemma_read_form_advances(s: Seq<char>, tokens: Seq<Span>, k: nat)
    requires
        k < tokens.len(),
    ensures
        k < read_form_spec(s, tokens, k).1 <= tokens.len(),
    decreases tokens.len() - k, 0nat,
{
    let text = text_of(s, tokens[k as int]);
    if text == seq!['('] {
        lemma_read_list_advances(s, tokens, k + 1, Seq::empty(), tokens[k as int].start);
    } else if text.len() > 0 && text[0] == ';' {
        if k + 1 < tokens.len() {
            lemma_read_form_advances(s, tokens, k + 1);
        } else {
            assert(read_form_spec(s, tokens, k + 1).1 == k + 1);
        }
    }
}

/// Reading the rest of a list never goes back, and never past the last token.
pub proof fn lemma_read_list_advances(
    s: Seq<char>,
    tokens: Seq<Span>,
    k: nat,
    items: Seq<Value>,
    open: nat,
)
    requires
        k <= tokens.len(),
    ensures
        k <= read_list_spec(s, tokens, k, items, open).1 <= tokens.len(),
    decreases tokens.len() - k, 1nat,
{
    if k < tokens.len() && text_of(s, tokens[k as int]) != seq![')'] {
        lemma_read_form_advances(s, tokens, k);
        let (item, next) = read_form_spec(s, tokens, k);
        match item {
            Ok(v) => {
                lemma_read_list_advances(s, tokens, next, items.push(v), open);
            },
            Err(_) => {},
        }
    }
}

/// Whether no token from number `k` on is a closing parenthesis.
pub open spec fn never_closed(s: Seq<char>, tokens: Seq<Span>, k: nat) -> bool {
    forall|j: int| k <= j < tokens.len() ==> text_of(s, #[trigger] tokens[j]) != seq![')']
}

/// Whether every token from number `k` on is an atom that can be read.
pub open spec fn only_atoms(s: Seq<char>, tokens: Seq<Span>, k: nat) -> bool {
    forall|j: int|
        k <= j < tokens.len() ==> {
            let text = text_of(s, #[trigger] tokens[j]);
            &&& text != seq!['(']
            &&& text != seq![')']
            &&& !(text.len() > 0 && text[0] == ';')
            &&& read_atom_spec(text, tokens[j].start) is Ok
        }
}

/// A list that no closing parenthesis follows cannot be read: reading it fails, and the
/// failure is `Unbalanced`.
pub proof fn open_list_is_unbalanced(
    s: Seq<char>,
    tokens: Seq<Span>,
    k: nat,
    items: Seq<Value>,
    open: nat,
)
    requires
        k <= tokens.len(),
        never_closed(s, tokens, k),
    ensures
        read_list_spec(s, tokens, k, items, open).0 is Err,
        read_list_spec(s, tokens, k, items, open).0->Err_0 is Unbalanced,
    decreases tokens.len() - k,
{
    if k < tokens.len() {
        assert(text_of(s, tokens[k as int]) != seq![')']);
        lemma_read_form_advances(s, tokens, k);
        let (item, next) = read_form_spec(s, tokens, k);
        match item {
            Ok(v) => {
                open_list_is_unbalanced(s, tokens, next, items.push(v), open);
            },
            Err(_) => {},
        }
    }
}

/// A list that only atoms follow, and no closing parenthesis, fails with `Unbalanced`,
/// the delimiter `(` and the position of its opening parenthesis.
pub proof fn open_list_of_atoms_is_unbalanced(
    s: Seq<char>,
    tokens: Seq<Span>,
    k: nat,
    items: Seq<Value>,
    open: nat,
)
    requires
        k <= tokens.len(),
        only_atoms(s, tokens, k),
    ensures
        read_list_spec(s, tokens, k, items, open).0 == Err::<Value, ReadFailure>(
            ReadFailure::Unbalanced("("@, open),
        ),
    decreases tokens.len() - k,
{
    if k < tokens.len() {
        let text = text_of(s, tokens[k as int]);
        assert(read_atom_spec(text, tokens[k as int].start) is Ok);
        let (item, next) = read_form_spec(s, tokens, k);
        assert(next == k + 1);
        match item {
            Ok(v) => {
                open_list_of_atoms_is_unbalanced(s, tokens, next, items.push(v), open);
            },
            Err(_) => {},
        }
    }
}

/// A token that starts with a double quote and is not closed fails with `Unbalanced`,
/// the delimiter `"` and the position where the token starts.
pub proof fn open_string_is_unbalanced(text: Seq<char>, start: nat)
    requires
        text.len() > 0,
        text[0] == '"',
        !is_closed(text),
    ensures
        read_atom_spec(text, start) == Err::<Value, ReadFailure>(
            ReadFailure::Unbalanced("\""@, start),
        ),
{
    reveal_strlit("true");
    reveal_strlit("false");
    reveal_strlit("nil");
}

/// Text whose first token opens a list and that holds no closing parenthesis cannot be
/// read: `read_str` fails with `Unbalanced`.
pub proof fn unclosed_text_is_unbalanced(s: Seq<char>)
    requires
        tokens_from(s, 0).len() > 0,
        text_of(s, tokens_from(s, 0)[0]) == seq!['('],
        never_closed(s, tokens_from(s, 0), 1),
    ensures
        read_str_spec(s) is Err,
        read_str_spec(s)->Err_0 is Unbalanced,
{
    let tokens = tokens_from(s, 0);
    open_list_is_unbalanced(s, tokens, 1, Seq::empty(), tokens[0].start);
}

/// The first form of the text: the result of `read_str`.
pub open spec fn read_str_spec(s: Seq<char>) -> Result<Value, ReadFailure> {
    read_form_spec(s, tokens_from(s, 0), 0).0
}

/// Whether `token` is the single character `c`.
fn is_char(s: &Vec<char>, token: &Token, c: char) -> (yes: bool)
    requires
        token.start < token.end <= s.len(),
    ensures
        yes == (text_of(s@, token@) == seq![c]),
{
    let yes = token.end - token.start == 1 && s[token.start] == c;
    proof {
        let text = text_of(s@, token@);
        if yes {
            assert(text =~= seq![c]);
        } else if text == seq![c] {
            assert(text.len() == 1);
            assert(text[0] == c);
        }
    }
    yes
}

/// Reads the form that starts at token `k`; returns it with the number of the token
/// after it.
fn read_form(s: &Vec<char>, tokens: &Vec<Token>, k: usize) -> (result: (
    Result<MalType, ReaderError>,
    usize,
))
    requires
        forall|j: int|
            0 <= j < tokens.len() ==> (#[trigger] tokens[j]).start < tokens[j].end <= s.len(),
    ensures
        read_result_of(result.0) == read_form_spec(s@, spans_of(tokens@), k as nat).0,
        result.1 == read_form_spec(s@, spans_of(tokens@), k as nat).1,
    decreases tokens.len() - k, 0nat,
{
    if k >= tokens.len() {
        return (Err(ReaderError::EndOfInput), k);
    }
    let token = &tokens[k];
    if is_char(s, token, '(') {
        read_list(s, tokens, k + 1, token.start)
    } else if s[token.start] == ';' {
        read_form(s, tokens, k + 1)
    } else {
        (read_atom(s, token), k + 1)
    }
}

/// Reads the elements of the list whose opening parenthesis starts at position `open`,
/// from token `k` on; returns the list with the number of the token after it.
fn read_list(s: &Vec<char>, tokens: &Vec<Token>, k: usize, open: usize) -> (result: (
    Result<MalType, ReaderError>,
    usize,
))
    requires
        k <= tokens.len(),
        forall|j: int|
            0 <= j < tokens.len() ==> (#[trigger] tokens[j]).start < tokens[j].end <= s.len(),
    ensures
        read_result_of(result.0) == read_list_spec(
            s@,
            spans_of(tokens@),
            k as nat,
            Seq::empty(),
            open as nat,
        ).0,
        result.1 == read_list_spec(s@, spans_of(tokens@), k as nat, Seq::empty(), open as nat).1,
    decreases tokens.len() - k, 1nat,
{
    let ghost spans = spans_of(tokens@);
    let mut items: Vec<MalType> = Vec::new();
    let mut at: usize = k;
    assert(values_of(items) =~= Seq::empty());
    while at < tokens.len()
        invariant
            k <= at <= tokens.len(),
            spans == spans_of(tokens@),
            forall|j: int|
                0 <= j < tokens.len() ==> (#[trigger] tokens[j]).start < tokens[j].end <= s.len(),
            read_list_spec(s@, spans, at as nat, values_of(items), open as nat) == read_list_spec(
                s@,
                spans,
                k as nat,
                Seq::empty(),
                open as nat,
            ),
        decreases tokens.len() - at,
    {
        if is_char(s, &tokens[at], ')') {
            return (Ok(MalType::List(items)), at + 1);
        }
        proof {
            lemma_read_form_advances(s@, spans, at as nat);
        }
        let (item, next) = read_form(s, tokens, at);
        match item {
            Ok(v) => {
                let ghost before = values_of(items);
                items.push(v);
                assert(values_of(items) =~= before.push(v@));
            },
            Err(ReaderError::EndOfInput) => {
                return (Err(ReaderError::Unbalanced("(", open)), next);
            },
            Err(e) => {
                return (Err(e), next);
            },
        }
        at = next;
    }
    (Err(ReaderError::Unbalanced("(", open)), at)
}

/// Reads the first form of `input`.
///
/// What follows the first form is not looked at. An `Unbalanced` error says that more
/// text may complete the form.
pub fn read_str(input: &str) -> (result: Result<MalType, ReaderError>)
    ensures
        read_result_of(result) == read_str_spec(input@),
{
    let chars = chars_of(input);
    let tokens = tokenize(&chars);
    read_form(&chars, &tokens, 0).0
}

} // verus!
