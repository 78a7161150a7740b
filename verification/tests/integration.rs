use scanner::data::{Cursor, TokenType};
use scanner::tokenize;

#[test]
fn it_tokenize_correctly() {
    let (tokens, errors) = tokenize(r"integer algo = 192");
    assert_eq!(tokens.len(), 4);
    assert_eq!(tokens.get(0).unwrap().token_type, TokenType::INTEGER);
    assert_eq!(tokens.get(1).unwrap().token_type, TokenType::ID);
    assert_eq!(tokens.get(2).unwrap().token_type, TokenType::ASSIGN);
    assert_eq!(tokens.get(3).unwrap().token_type, TokenType::INT);
    assert_eq!(errors.len(), 0);
}

#[test]
fn it_tokenize_errors() {
    let (tokens, errors) = tokenize(r"integer algo = 192.");
    assert_eq!(tokens.len(), 3);
    assert_eq!(tokens.get(0).unwrap().token_type, TokenType::INTEGER);
    assert_eq!(tokens.get(1).unwrap().token_type, TokenType::ID);
    assert_eq!(tokens.get(2).unwrap().token_type, TokenType::ASSIGN);
    assert_eq!(errors.len(), 1);
    assert_eq!(errors.get(0).unwrap().start, Cursor { col: 16, lin: 1 });
    assert_eq!(errors.get(0).unwrap().end, Cursor { col: 20, lin: 1 })
}

#[test]
fn it_tokenize() {
    let text = r"/** Este es un comentario **/
    integer a = 12;  // Identificador de una sola letra
    float algo = 192.23;
    float _pos_algo = +192.23;
    float _neg_algo = +192.23;
    integer algo2 = 123;
    integer _res =  algo + algo2;
    // comentario
    if (_res) { // otro comentario

    }
    switch case main do while
    <= >= == != - * ^ %
    ";
    let (tokens, errors) = tokenize(text);
    assert_eq!(errors.len(), 0);
    assert_eq!(tokens.len(), 1 + 6 + 5 + 5 + 5 + 5 + 7 + 1 + 6 + 1 + 5 + 8);
}
