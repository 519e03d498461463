use elm_strip_comments::error::ScanError;
use elm_strip_comments::parser::{char_literal, remove_comments};

fn strip(input: &str) -> String {
    remove_comments(input).unwrap()
}

#[test]
fn line_comment_is_removed_and_its_line_break_kept() {
    assert_eq!(remove_comments("-- hello\ncode"), Ok("\ncode".to_string()));
}

#[test]
fn nested_block_comment_is_removed() {
    assert_eq!(remove_comments("{- a {- b -} c -}code"), Ok("code".to_string()));
}

#[test]
fn quote_in_code_and_string_are_kept() {
    let input = "it's \"quoted\" text";
    assert_eq!(remove_comments(input), Ok(input.to_string()));
}

#[test]
fn multiline_string_is_kept() {
    let input = "\"\"\"triple \"quoted\" block\"\"\"code";
    assert_eq!(remove_comments(input), Ok(input.to_string()));
}

#[test]
fn open_block_comment_fails() {
    assert_eq!(remove_comments("{- open"), Err(ScanError::UnterminatedBlockComment));
}

#[test]
fn escaped_quote_in_char_literal() {
    let input = "'\\''code";
    assert_eq!(char_literal(input), Ok(("code", "'\\''")));
    assert_eq!(remove_comments(input), Ok(input.to_string()));
}

#[test]
fn empty_text() {
    assert_eq!(remove_comments(""), Ok(String::new()));
}

#[test]
fn text_without_comments_is_unchanged() {
    let input = "module Main exposing (main)\n\nmain =\n    text \"hi\" |> f { a = 1 - 2 }\n";
    assert_eq!(strip(input), input);
}

#[test]
fn stripping_twice_changes_nothing_more() {
    let input = "a {- c -} b -- d\n e \"-- s\" {- {- n -} -}f";
    let once = strip(input);
    assert_eq!(once, "a  b \n e \"-- s\" f");
    assert_eq!(strip(&once), once);
}

#[test]
fn characters_that_a_comment_kept_apart_can_form_a_comment() {
    assert_eq!(strip("-{--}-"), "--");
    assert_eq!(strip("--"), "");
    assert_eq!(strip("{{--}- a -}b"), "{- a -}b");
    assert_eq!(strip("{- a -}b"), "b");
}

#[test]
fn literals_keep_what_looks_like_a_comment() {
    assert_eq!(
        strip("x = \"-- no {- no -}\" -- yes"),
        "x = \"-- no {- no -}\" "
    );
    assert_eq!(strip("c = '-' {- yes -}"), "c = '-' ");
    assert_eq!(strip("c = '{' -- yes"), "c = '{' ");
    assert_eq!(
        strip("\"\"\"a\n-- no\n{- no -}\n\"\"\"{- yes -}"),
        "\"\"\"a\n-- no\n{- no -}\n\"\"\""
    );
    assert_eq!(strip("\"a\\\"--b\" --c"), "\"a\\\"--b\" ");
}

#[test]
fn output_is_shorter_by_the_comments() {
    let input = "ab{-cd-}ef--gh";
    let output = strip(input);
    assert_eq!(output, "abef");
    assert_eq!(output.chars().count(), input.chars().count() - 6 - 4);
}

#[test]
fn white_space_next_to_comments_is_kept() {
    assert_eq!(strip("a  {- b -}  c"), "a    c");
    assert_eq!(strip("a\n{- b -}\nc\n"), "a\n\nc\n");
    assert_eq!(strip("\t-- x\n\t"), "\t\n\t");
}

#[test]
fn deep_nesting_is_one_comment() {
    for depth in [1usize, 2, 3, 10, 1000, 100000] {
        let mut input = String::new();
        for _ in 0..depth {
            input.push_str("{- ");
        }
        input.push('x');
        for _ in 0..depth {
            input.push_str(" -}");
        }
        input.push_str("code");
        assert_eq!(strip(&input), "code");
    }
}

#[test]
fn comments_side_by_side_in_a_comment() {
    for count in [0usize, 1, 2, 7, 500] {
        let mut input = String::from("before{-");
        for i in 0..count {
            input.push_str("{- n -}");
            if i % 2 == 0 {
                input.push_str(" and ");
            }
        }
        input.push_str("-}after");
        assert_eq!(strip(&input), "beforeafter");
    }
}

#[test]
fn hyphens_and_braces_in_a_comment_are_text() {
    assert_eq!(strip("{- a - b { c {- d } - -} e } -}x"), "x");
    assert_eq!(strip("{- a --}x"), "x");
    assert_eq!(strip("{-{{-}-}-}x"), "x");
    assert_eq!(strip("{- -- -}x"), "x");
    assert_eq!(strip("{- \" ' -}x"), "x");
}

#[test]
fn a_block_comment_at_the_start_is_taken_out_whole() {
    for rest in ["", "code", "-- c\nd", "\"s\" {- t -}", "-", "'", "\"open", "{- open"] {
        let with = format!("{{- a {{- b -}} -}}{}", rest);
        assert_eq!(remove_comments(&with), remove_comments(rest));
    }
    assert_eq!(remove_comments("{- a -}{- b"), remove_comments("{- b"));
}

#[test]
fn one_closing_token_too_few_fails() {
    assert_eq!(
        remove_comments("a {- b {- c -} d"),
        Err(ScanError::UnterminatedBlockComment)
    );
    assert_eq!(remove_comments("a {-}"), Err(ScanError::UnterminatedBlockComment));
}

#[test]
fn open_block_comment_inside_a_literal_is_no_comment() {
    assert_eq!(strip("\"{-\""), "\"{-\"");
    assert_eq!(strip("'{-'"), "'{-'");
    assert_eq!(strip("-- {-\nx"), "\nx");
}

#[test]
fn special_characters_alone_are_code() {
    let input = "a - b { c } -> d - {e} }-";
    assert_eq!(strip(input), input);
    assert_eq!(strip("-"), "-");
    assert_eq!(strip("{"), "{");
    assert_eq!(strip("-}"), "-}");
}

#[test]
fn single_quote_that_opens_no_literal_is_code() {
    assert_eq!(strip("it's"), "it's");
    assert_eq!(strip("'abc {- x -}d"), "'abc d");
    assert_eq!(strip("a' -- x\nb"), "a' \nb");
    assert_eq!(strip("''-- x"), "''");
    assert_eq!(strip("'"), "'");
    assert_eq!(strip("'\\"), "'\\");
}

#[test]
fn string_that_nothing_closes_fails() {
    for input in ["\"", "\"abc", "\"abc -- x", "a \"b", "\"abc\\\"", "\"abc\\", "it's \"open"] {
        assert_eq!(remove_comments(input), Err(ScanError::UnterminatedLiteral));
    }
}

#[test]
fn multiline_string_that_nothing_closes_fails() {
    for input in [
        "\"\"\"",
        "\"\"\"abc",
        "\"\"\"abc -- x",
        "\"\"\"a\"\"",
        "\"\"\"a\" b",
        "\"\"\"a\\\"\"\"",
        "x = \"\"\"\"",
    ] {
        assert_eq!(remove_comments(input), Err(ScanError::UnterminatedLiteral));
    }
}

#[test]
fn the_first_element_in_error_decides() {
    assert_eq!(remove_comments("\"a {- b"), Err(ScanError::UnterminatedLiteral));
    assert_eq!(remove_comments("{- a \"b"), Err(ScanError::UnterminatedBlockComment));
    assert_eq!(remove_comments("'a {- b"), Err(ScanError::UnterminatedBlockComment));
    assert_eq!(remove_comments("-- {- \"\n\"a"), Err(ScanError::UnterminatedLiteral));
    assert_eq!(remove_comments("{- \" -} \"a\" -- \""), Ok(" \"a\" ".to_string()));
}

#[test]
fn multiline_string_goes_before_string() {
    assert_eq!(strip("\"\"\"a \" -- b\"\"\" -- c"), "\"\"\"a \" -- b\"\"\" ");
    assert_eq!(strip("\"\" -- c"), "\"\" ");
}

#[test]
fn line_breaks_of_all_kinds_end_a_line_comment() {
    assert_eq!(strip("a -- c\nb"), "a \nb");
    assert_eq!(strip("a -- c\r\nb"), "a \r\nb");
    assert_eq!(strip("a -- c\rb"), "a \rb");
    assert_eq!(strip("a -- c"), "a ");
}

#[test]
fn characters_outside_ascii_are_kept_and_counted_as_one() {
    assert_eq!(strip("{- ✔ -}é"), "é");
    assert_eq!(strip("-- ✔\nλ = 'λ' {- ü -}"), "\nλ = 'λ' ");
    assert_eq!(strip("\"✔ -- ✔\" -- ✔"), "\"✔ -- ✔\" ");
    assert_eq!(strip("'\\✔' -- a"), "'\\✔' ");
}
