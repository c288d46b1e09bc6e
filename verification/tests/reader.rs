use mal::reader::{read_str, tokenize, ReaderError, Token};
use mal::text::chars_of;
use mal::types::MalType;

fn num(n: i64) -> MalType {
    MalType::Integer(n)
}

fn sym(name: &str) -> MalType {
    MalType::Symbol(name.to_string())
}

fn text(s: &str) -> MalType {
    MalType::String(s.to_string())
}

fn tokens(input: &str) -> Vec<String> {
    let chars = chars_of(input);
    let found: Vec<Token> = tokenize(&chars);
    found.iter().map(|t| chars[t.start..t.end].iter().collect()).collect()
}

#[test]
fn open_list_is_unbalanced() {
    assert_eq!(read_str("(1 2"), Err(ReaderError::Unbalanced("(", 0)));
    assert_eq!(read_str("("), Err(ReaderError::Unbalanced("(", 0)));
    assert_eq!(read_str("  (a (b c)"), Err(ReaderError::Unbalanced("(", 2)));
}

#[test]
fn inner_open_list_is_reported_at_its_own_position() {
    assert_eq!(read_str("(a (b c"), Err(ReaderError::Unbalanced("(", 3)));
}

#[test]
fn open_string_is_unbalanced() {
    assert_eq!(read_str("\"abc"), Err(ReaderError::Unbalanced("\"", 0)));
    assert_eq!(read_str("  \"abc"), Err(ReaderError::Unbalanced("\"", 2)));
    assert_eq!(read_str("(1 \"abc"), Err(ReaderError::Unbalanced("\"", 3)));
    assert_eq!(read_str("\""), Err(ReaderError::Unbalanced("\"", 0)));
    assert_eq!(read_str("\"abc\\\""), Err(ReaderError::Unbalanced("\"", 0)));
}

#[test]
fn string_that_stops_at_a_backslash_is_unbalanced() {
    assert_eq!(read_str("\"abc\\"), Err(ReaderError::Unbalanced("\"", 0)));
    assert_eq!(read_str("\"abc\\\ndef\""), Err(ReaderError::Unbalanced("\"", 0)));
}

#[test]
fn positions_count_characters() {
    assert_eq!(read_str("é ("), Ok(sym("é")));
    assert_eq!(read_str("(é \"x"), Err(ReaderError::Unbalanced("\"", 3)));
}

#[test]
fn nothing_to_read_is_end_of_input() {
    assert_eq!(read_str(""), Err(ReaderError::EndOfInput));
    assert_eq!(read_str("   ,, \n"), Err(ReaderError::EndOfInput));
    assert_eq!(read_str("; only a comment"), Err(ReaderError::EndOfInput));
}

#[test]
fn reads_atoms() {
    assert_eq!(read_str("true"), Ok(MalType::Bool(true)));
    assert_eq!(read_str("false"), Ok(MalType::Bool(false)));
    assert_eq!(read_str("nil"), Ok(MalType::Nil));
    assert_eq!(read_str("42"), Ok(num(42)));
    assert_eq!(read_str("007"), Ok(num(7)));
    assert_eq!(read_str("0"), Ok(num(0)));
    assert_eq!(read_str("abc"), Ok(sym("abc")));
    assert_eq!(read_str("let*"), Ok(sym("let*")));
    assert_eq!(read_str("args..."), Ok(sym("args...")));
    assert_eq!(read_str("-5"), Ok(sym("-5")));
    assert_eq!(read_str("12a"), Ok(sym("12a")));
    assert_eq!(read_str("truely"), Ok(sym("truely")));
    assert_eq!(read_str(":key"), Ok(MalType::Keyword(":key".to_string())));
    assert_eq!(read_str(":"), Ok(MalType::Keyword(":".to_string())));
}

#[test]
fn digits_of_other_scripts_are_no_integer() {
    assert_eq!(read_str("٣"), Ok(sym("٣")));
}

#[test]
fn integer_too_large_is_the_largest() {
    assert_eq!(read_str("9223372036854775807"), Ok(num(i64::MAX)));
    assert_eq!(read_str("9223372036854775808"), Ok(num(i64::MAX)));
    assert_eq!(read_str("99999999999999999999999999"), Ok(num(i64::MAX)));
    assert_eq!(read_str("9223372036854775806"), Ok(num(i64::MAX - 1)));
}

#[test]
fn reads_strings() {
    assert_eq!(read_str("\"\""), Ok(text("")));
    assert_eq!(read_str("\"abc\""), Ok(text("abc")));
    assert_eq!(read_str("\"a b, c\""), Ok(text("a b, c")));
    assert_eq!(read_str("\"(not a list\""), Ok(text("(not a list")));
    assert_eq!(read_str("\"two\nlines\""), Ok(text("two\nlines")));
}

#[test]
fn decodes_escapes() {
    assert_eq!(read_str("\"a\\nb\""), Ok(text("a\nb")));
    assert_eq!(read_str("\"a\\\"b\""), Ok(text("a\"b")));
    assert_eq!(read_str("\"a\\\\b\""), Ok(text("a\\b")));
    assert_eq!(read_str("\"a\\tb\""), Ok(text("atb")));
    assert_eq!(read_str("\"\\\\\""), Ok(text("\\")));
    assert_eq!(read_str("\"\\\\n\""), Ok(text("\\n")));
}

#[test]
fn reads_lists() {
    assert_eq!(read_str("()"), Ok(MalType::List(vec![])));
    assert_eq!(read_str("(1 2 3)"), Ok(MalType::List(vec![num(1), num(2), num(3)])));
    assert_eq!(
        read_str("(add 1 (sub 5 2))"),
        Ok(MalType::List(vec![
            sym("add"),
            num(1),
            MalType::List(vec![sym("sub"), num(5), num(2)]),
        ]))
    );
    assert_eq!(
        read_str("((()))"),
        Ok(MalType::List(vec![MalType::List(vec![MalType::List(vec![])])]))
    );
}

#[test]
fn blanks_and_commas_separate() {
    assert_eq!(read_str(" ( 1,2 ,,\t3\n) "), Ok(MalType::List(vec![num(1), num(2), num(3)])));
    assert_eq!(read_str("(1\u{a0}2\u{2003}3)"), Ok(MalType::List(vec![num(1), num(2), num(3)])));
    assert_eq!(read_str("(a(b)c)"), Ok(MalType::List(vec![
        sym("a"),
        MalType::List(vec![sym("b")]),
        sym("c"),
    ])));
}

#[test]
fn comments_are_passed_over() {
    assert_eq!(read_str("; first\n42"), Ok(num(42)));
    assert_eq!(read_str("(1 ; one\n 2)"), Ok(MalType::List(vec![num(1), num(2)])));
    assert_eq!(
        read_str("(1 ; one\n (2 ; two\n 3) 4)"),
        Ok(MalType::List(vec![num(1), MalType::List(vec![num(2), num(3)]), num(4)]))
    );
    assert_eq!(read_str("(1 ; the rest is gone)"), Err(ReaderError::Unbalanced("(", 0)));
    assert_eq!(read_str("a;b"), Ok(sym("a")));
}

#[test]
fn form_after_a_comment_is_read_whatever_it_is() {
    assert_eq!(read_str("; note\n)"), Ok(sym(")")));
    assert_eq!(
        read_str("(1 ; note\n) 2)"),
        Ok(MalType::List(vec![num(1), sym(")"), num(2)]))
    );
    assert_eq!(read_str("(1 ; note\n)"), Err(ReaderError::Unbalanced("(", 0)));
}

#[test]
fn reads_only_the_first_form() {
    assert_eq!(read_str("1 2 3"), Ok(num(1)));
    assert_eq!(read_str("(a) (b"), Ok(MalType::List(vec![sym("a")])));
    assert_eq!(read_str("a \"open"), Ok(sym("a")));
}

#[test]
fn punctuation_reads_as_symbols() {
    assert_eq!(read_str(")"), Ok(sym(")")));
    assert_eq!(read_str("'a"), Ok(sym("'")));
    assert_eq!(read_str("~@a"), Ok(sym("~@")));
    assert_eq!(read_str("[1]"), Ok(sym("[")));
    assert_eq!(
        read_str("(` ~ ^ @ { })"),
        Ok(MalType::List(vec![sym("`"), sym("~"), sym("^"), sym("@"), sym("{"), sym("}")]))
    );
}

#[test]
fn cuts_text_into_tokens() {
    assert_eq!(tokens("(add 1,2)"), vec!["(", "add", "1", "2", ")"]);
    assert_eq!(tokens("~@x ~y"), vec!["~@", "x", "~", "y"]);
    assert_eq!(tokens("a~b a@b a^b"), vec!["a~b", "a@b", "a^b"]);
    assert_eq!(tokens("'(a)"), vec!["'", "(", "a", ")"]);
    assert_eq!(tokens("a\"b c\"d"), vec!["a", "\"b c\"", "d"]);
    assert_eq!(tokens("\"a\\\"b\" c"), vec!["\"a\\\"b\"", "c"]);
    assert_eq!(tokens("\"open (a b)"), vec!["\"open (a b)"]);
    assert_eq!(tokens("\"a\\\nb\""), vec!["\"a", "\\", "b", "\""]);
    assert_eq!(tokens("x ; note (1)\ny"), vec!["x", "; note (1)", "y"]);
    assert_eq!(tokens(";\n;"), vec![";", ";"]);
    assert_eq!(tokens("  "), Vec::<String>::new());
    assert_eq!(tokens(""), Vec::<String>::new());
    assert_eq!(tokens("[a]{b}"), vec!["[", "a", "]", "{", "b", "}"]);
}

#[test]
fn token_positions_are_given_in_characters() {
    let chars = chars_of(" é(ab");
    let found = tokenize(&chars);
    let spans: Vec<(usize, usize)> = found.iter().map(|t| (t.start, t.end)).collect();
    assert_eq!(spans, vec![(1, 2), (2, 3), (3, 5)]);
}

#[test]
fn chars_of_gives_the_characters_in_order() {
    assert_eq!(chars_of("aé("), vec!['a', 'é', '(']);
    assert_eq!(chars_of(""), Vec::<char>::new());
}
