use scanner::data::{Cursor, TokenType};
use scanner::tokenize;
use scanner::utils::{fake_cursor, fake_error, init_cursor};

#[test]
fn whitespace_only_yields_nothing() {
    let (tokens, errors) = tokenize("  \t\r\n   \n\t");
    assert_eq!(tokens.len(), 0);
    assert_eq!(errors.len(), 0);
}

#[test]
fn empty_input_yields_nothing() {
    let (tokens, errors) = tokenize("");
    assert_eq!(tokens.len(), 0);
    assert_eq!(errors.len(), 0);
}

#[test]
fn maximal_munch_float() {
    let (tokens, errors) = tokenize("123.45");
    assert_eq!(errors.len(), 0);
    assert_eq!(tokens.len(), 1);
    assert_eq!(tokens[0].token_type, TokenType::FLOAT);
    assert_eq!(tokens[0].lexemme, "123.45");
}

#[test]
fn signed_literals() {
    let (tokens, errors) = tokenize("+12");
    assert_eq!(errors.len(), 0);
    assert_eq!(tokens.len(), 1);
    assert_eq!(tokens[0].token_type, TokenType::INT);
    assert_eq!(tokens[0].lexemme, "+12");

    let (tokens, errors) = tokenize("-12");
    assert_eq!(errors.len(), 0);
    assert_eq!(tokens.len(), 1);
    assert_eq!(tokens[0].token_type, TokenType::INT);
    assert_eq!(tokens[0].lexemme, "-12");

    let (tokens, errors) = tokenize("++12");
    assert_eq!(errors.len(), 0);
    assert_eq!(tokens.len(), 2);
    assert_eq!(tokens[0].token_type, TokenType::INC);
    assert_eq!(tokens[0].lexemme, "++");
    assert_eq!(tokens[1].token_type, TokenType::INT);
    assert_eq!(tokens[1].lexemme, "12");
}

#[test]
fn keyword_needs_full_equality() {
    let (tokens, errors) = tokenize("integers");
    assert_eq!(errors.len(), 0);
    assert_eq!(tokens.len(), 1);
    assert_eq!(tokens[0].token_type, TokenType::ID);
    assert_eq!(tokens[0].lexemme, "integers");

    let (tokens, _) = tokenize("int");
    assert_eq!(tokens[0].token_type, TokenType::INTEGER);
}

#[test]
fn dangling_dot_is_one_error() {
    let (tokens, errors) = tokenize("1289.");
    assert_eq!(tokens.len(), 0);
    assert_eq!(errors.len(), 1);
    assert_eq!(errors[0].lexemme, "1289.");
    assert_eq!(errors[0].message, "float literal requires digits after '.'");
    assert_eq!(errors[0].start, Cursor { col: 1, lin: 1 });
    assert_eq!(errors[0].end, Cursor { col: 6, lin: 1 });
}

#[test]
fn unterminated_comments() {
    let (tokens, errors) = tokenize("/*");
    assert_eq!(tokens.len(), 0);
    assert_eq!(errors.len(), 1);
    assert_eq!(errors[0].message, "unterminated comment");
    assert_eq!(errors[0].lexemme, "/*");
    assert_eq!(errors[0].start, Cursor { col: 1, lin: 1 });
    assert_eq!(errors[0].end, Cursor { col: 3, lin: 1 });

    let (tokens, errors) = tokenize("/**");
    assert_eq!(tokens.len(), 0);
    assert_eq!(errors.len(), 1);
    assert_eq!(errors[0].message, "unterminated comment");
    assert_eq!(errors[0].lexemme, "/**");
}

#[test]
fn illegal_characters_recover() {
    let (tokens, errors) = tokenize("int @ x # 12 $");
    assert_eq!(tokens.len(), 3);
    assert_eq!(tokens[0].token_type, TokenType::INTEGER);
    assert_eq!(tokens[0].lexemme, "int");
    assert_eq!(tokens[1].token_type, TokenType::ID);
    assert_eq!(tokens[1].lexemme, "x");
    assert_eq!(tokens[2].token_type, TokenType::INT);
    assert_eq!(tokens[2].lexemme, "12");
    assert_eq!(errors.len(), 3);
    assert_eq!(errors[0].lexemme, "@");
    assert_eq!(errors[0].message, "illegal character");
    assert_eq!(errors[0].start, Cursor { col: 5, lin: 1 });
    assert_eq!(errors[1].lexemme, "#");
    assert_eq!(errors[1].start, Cursor { col: 9, lin: 1 });
    assert_eq!(errors[2].lexemme, "$");
    assert_eq!(errors[2].start, Cursor { col: 14, lin: 1 });
}

#[test]
fn spans_delimit_lexemes() {
    let source = "int algo = 192";
    let (tokens, errors) = tokenize(source);
    assert_eq!(errors.len(), 0);
    for token in tokens.iter() {
        assert_eq!(token.start.lin, 1);
        assert_eq!(token.end.lin, 1);
        let piece = &source[token.start.col - 1..token.end.col - 1];
        assert_eq!(piece, token.lexemme);
    }
}

#[test]
fn line_comment_moves_to_next_line() {
    let (tokens, errors) = tokenize("//c\nx");
    assert_eq!(errors.len(), 0);
    assert_eq!(tokens.len(), 2);
    assert_eq!(tokens[0].token_type, TokenType::INLINE_COMMENT);
    assert_eq!(tokens[0].lexemme, "//c");
    assert_eq!(tokens[0].start, Cursor { col: 1, lin: 1 });
    assert_eq!(tokens[1].token_type, TokenType::ID);
    assert_eq!(tokens[1].start.lin, tokens[0].start.lin + 1);
    assert_eq!(tokens[1].start, Cursor { col: 1, lin: 2 });
}

#[test]
fn end_to_end_declaration() {
    let (tokens, errors) = tokenize("int algo = 192");
    assert_eq!(errors.len(), 0);
    assert_eq!(tokens.len(), 4);
    assert_eq!(tokens[0].token_type, TokenType::INTEGER);
    assert_eq!(tokens[0].lexemme, "int");
    assert_eq!(tokens[1].token_type, TokenType::ID);
    assert_eq!(tokens[1].lexemme, "algo");
    assert_eq!(tokens[2].token_type, TokenType::ASSIGN);
    assert_eq!(tokens[2].lexemme, "=");
    assert_eq!(tokens[3].token_type, TokenType::INT);
    assert_eq!(tokens[3].lexemme, "192");
}

#[test]
fn block_comment_tracks_lines() {
    let (tokens, errors) = tokenize("/*a\nb*/");
    assert_eq!(errors.len(), 0);
    assert_eq!(tokens.len(), 1);
    assert_eq!(tokens[0].token_type, TokenType::BLOCK_COMMENT);
    assert_eq!(tokens[0].lexemme, "/*a\nb*/");
    assert_eq!(tokens[0].start, Cursor { col: 1, lin: 1 });
    assert_eq!(tokens[0].end, Cursor { col: 4, lin: 2 });
}

#[test]
fn helpers_build_fixed_values() {
    assert_eq!(fake_cursor(), Cursor { col: 1, lin: 1 });
    assert_eq!(init_cursor(), Cursor { col: 1, lin: 1 });
    let e = fake_error();
    assert_eq!(e.start, Cursor { col: 1, lin: 1 });
    assert_eq!(e.end, Cursor { col: 1, lin: 1 });
    assert_eq!(e.message, "Fake Error");
    assert_eq!(e.lexemme, "fake");
}
