use elm_strip_comments::error::ScanError;
use elm_strip_comments::parser;

type Parsed<'a> = Result<(&'a str, &'a str), ScanError>;

#[test]
fn char_literal() {
    let asrt_eq = |input: &'static str, res: Parsed<'static>| {
        assert_eq!(parser::char_literal(input), res)
    };
    assert!(parser::char_literal("'").is_err());
    assert!(parser::char_literal("''").is_err());
    asrt_eq(r#"'c'a"#, Ok(("a", "'c'")));
    asrt_eq(r#"'\\'a"#, Ok(("a", "'\\\\'")));
    asrt_eq(r#"'\''a"#, Ok(("a", "'\\''")));
    asrt_eq(r#"'\n'a"#, Ok(("a", "'\\n'")));
    asrt_eq(r#"'\r'a"#, Ok(("a", "'\\r'")));
    asrt_eq(r#"'✔'a"#, Ok(("a", "'✔'")));
}

#[test]
fn string_literal() {
    let asrt_eq = |input: &'static str, res: Parsed<'static>| {
        assert_eq!(parser::string_literal(input), res)
    };
    assert!(parser::string_literal(r#"""#).is_err());
    asrt_eq(r#""toto"a"#, Ok(("a", r#""toto""#)));
    asrt_eq(r#""to\"to"a"#, Ok(("a", r#""to\"to""#)));
    asrt_eq(r#""\"toto"a"#, Ok(("a", r#""\"toto""#)));
    asrt_eq(r#""\""a"#, Ok(("a", r#""\"""#)));
    asrt_eq(r#"""a"#, Ok(("a", r#""""#)));
    asrt_eq("\"to\nto\"a", Ok(("a", "\"to\nto\"")));
    asrt_eq(r#""to\nto"a"#, Ok(("a", r#""to\nto""#)));
    asrt_eq(r#""\""a"#, Ok(("a", r#""\"""#)));
    asrt_eq(r#""✔"a"#, Ok(("a", r#""✔""#)));
}

#[test]
fn multiline_string_literal() {
    let asrt_eq = |input: &'static str, res: Parsed<'static>| {
        assert_eq!(parser::multiline_string_literal(input), res)
    };
    assert!(parser::multiline_string_literal(r#"""" "#).is_err());
    asrt_eq(r#"""""""a"#, Ok(("a", r#""""""""#)));
    asrt_eq(r#""""toto"""a"#, Ok(("a", r#""""toto""""#)));
    asrt_eq(r#""""to"to"""a"#, Ok(("a", r#""""to"to""""#)));
    asrt_eq(r#""""to""to"""a"#, Ok(("a", r#""""to""to""""#)));
    asrt_eq(r#""""" """a"#, Ok(("a", r#""""" """"#)));
    asrt_eq(r#""""to\"""to"""a"#, Ok(("a", r#""""to\"""to""""#)));
    asrt_eq(r#""""to\"""\"to"""a"#, Ok(("a", r#""""to\"""\"to""""#)));
    asrt_eq(r#""""✔"""a"#, Ok(("a", r#""""✔""""#)));
}

#[test]
fn line_comment() {
    assert!(parser::line_comment("a").is_err());
    assert!(parser::line_comment("-").is_err());
    assert_eq!(parser::line_comment("-- hoho \n"), Ok(("\n", " hoho ")));
    assert_eq!(parser::line_comment("-- hoho"), Ok(("", " hoho")));
    assert_eq!(parser::line_comment("-- ✔"), Ok(("", " ✔")));
}

#[test]
fn block_comment() {
    let asrt_eq = |input: &'static str, res: Parsed<'static>| {
        assert_eq!(parser::block_comment(input), res)
    };
    assert!(parser::block_comment("").is_err());
    assert!(parser::block_comment("a").is_err());
    assert!(parser::block_comment("{-").is_err());
    asrt_eq("{- hoho -}", Ok(("", " hoho ")));
    asrt_eq("{- before {- hoho -}-}", Ok(("", " before {- hoho -}")));
    asrt_eq("{-{- hoho -} after -}", Ok(("", "{- hoho -} after ")));
    asrt_eq(
        "{-{- first -} between {- second -}-}",
        Ok(("", "{- first -} between {- second -}")),
    );
    asrt_eq("{- ✔ -}", Ok(("", " ✔ ")));
}

#[test]
fn char_literal_errors() {
    assert_eq!(parser::char_literal(""), Err(ScanError::NoMatch));
    assert_eq!(parser::char_literal("a'b'"), Err(ScanError::NoMatch));
    assert_eq!(parser::char_literal("''"), Err(ScanError::NoMatch));
    assert_eq!(parser::char_literal("''a'"), Err(ScanError::NoMatch));
    assert_eq!(parser::char_literal("'"), Err(ScanError::UnterminatedLiteral));
    assert_eq!(parser::char_literal("'a"), Err(ScanError::UnterminatedLiteral));
    assert_eq!(parser::char_literal("'a\\'"), Err(ScanError::UnterminatedLiteral));
    assert_eq!(parser::char_literal("'\\"), Err(ScanError::UnterminatedLiteral));
}

#[test]
fn char_literal_content_is_not_limited_to_one_character() {
    assert_eq!(parser::char_literal("'s \"q\" t' u"), Ok((" u", "'s \"q\" t'")));
}

#[test]
fn string_literal_errors() {
    assert_eq!(parser::string_literal(""), Err(ScanError::NoMatch));
    assert_eq!(parser::string_literal("a\"b\""), Err(ScanError::NoMatch));
    assert_eq!(parser::string_literal("\"abc"), Err(ScanError::UnterminatedLiteral));
    assert_eq!(parser::string_literal("\"abc\\\""), Err(ScanError::UnterminatedLiteral));
    assert_eq!(parser::string_literal("\"abc\\"), Err(ScanError::UnterminatedLiteral));
}

#[test]
fn string_literal_stops_at_the_first_free_quote() {
    assert_eq!(parser::string_literal("\"a\\\\\"b\""), Ok(("b\"", "\"a\\\\\"")));
    assert_eq!(parser::string_literal("\"-- {- \" -}"), Ok((" -}", "\"-- {- \"")));
}

#[test]
fn multiline_string_literal_errors() {
    assert_eq!(parser::multiline_string_literal(""), Err(ScanError::NoMatch));
    assert_eq!(parser::multiline_string_literal("\"\"a\"\"\""), Err(ScanError::NoMatch));
    assert_eq!(
        parser::multiline_string_literal("\"\"\"abc\"\""),
        Err(ScanError::UnterminatedLiteral)
    );
    assert_eq!(
        parser::multiline_string_literal("\"\"\"\\\"\"\""),
        Err(ScanError::UnterminatedLiteral)
    );
    assert_eq!(
        parser::multiline_string_literal("\"\"\"abc\\"),
        Err(ScanError::UnterminatedLiteral)
    );
}

#[test]
fn multiline_string_literal_takes_the_first_three_quotes() {
    assert_eq!(
        parser::multiline_string_literal("\"\"\"a\"\"\"\"b"),
        Ok(("\"b", "\"\"\"a\"\"\""))
    );
}

#[test]
fn line_comment_errors() {
    assert_eq!(parser::line_comment(""), Err(ScanError::NoMatch));
    assert_eq!(parser::line_comment("-"), Err(ScanError::NoMatch));
    assert_eq!(parser::line_comment("- -"), Err(ScanError::NoMatch));
    assert_eq!(parser::line_comment(" --"), Err(ScanError::NoMatch));
}

#[test]
fn line_comment_ends_before_the_line_break() {
    assert_eq!(parser::line_comment("--"), Ok(("", "")));
    assert_eq!(parser::line_comment("--\n"), Ok(("\n", "")));
    assert_eq!(parser::line_comment("-- a\r\nb"), Ok(("\r\nb", " a")));
    assert_eq!(parser::line_comment("-- a\rb"), Ok(("\rb", " a")));
    assert_eq!(parser::line_comment("-- a\nb\nc"), Ok(("\nb\nc", " a")));
    assert_eq!(parser::line_comment("--- {- a"), Ok(("", "- {- a")));
}

#[test]
fn block_comment_errors() {
    assert_eq!(parser::block_comment(""), Err(ScanError::NoMatch));
    assert_eq!(parser::block_comment("{ -"), Err(ScanError::NoMatch));
    assert_eq!(parser::block_comment("-}"), Err(ScanError::NoMatch));
    assert_eq!(parser::block_comment("{-"), Err(ScanError::UnterminatedBlockComment));
    assert_eq!(parser::block_comment("{-}"), Err(ScanError::UnterminatedBlockComment));
    assert_eq!(parser::block_comment("{- {- -}"), Err(ScanError::UnterminatedBlockComment));
    assert_eq!(parser::block_comment("{- a -"), Err(ScanError::UnterminatedBlockComment));
}

#[test]
fn block_comment_reads_tokens_whole() {
    assert_eq!(parser::block_comment("{--}"), Ok(("", "")));
    assert_eq!(parser::block_comment("{-}-}"), Ok(("", "}")));
    assert_eq!(parser::block_comment("{---}x"), Ok(("x", "-")));
    assert_eq!(parser::block_comment("{-{--}-}-}"), Ok(("-}", "{--}")));
    assert_eq!(parser::block_comment("{- \" -} \""), Ok((" \"", " \" ")));
}
