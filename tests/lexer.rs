use sap::lexer::Lexer;
use sap::span::Pos;
use sap::token::TokenKind;

fn at(line: usize, col: usize) -> Pos {
    Pos { line, col }
}

/// The next token's kind and position; panics on a scanning error.
fn next(lexer: &mut Lexer) -> (TokenKind, Pos) {
    let token = lexer.get_next_token().unwrap();
    (token.kind, token.pos)
}

/// The next token, which must be a decimal literal, as an `f32`.
fn next_float(lexer: &mut Lexer) -> (f32, Pos) {
    match next(lexer) {
        (TokenKind::Float(text), pos) => (text.parse().unwrap(), pos),
        (other, _) => panic!("expected a float, got {:?}", other),
    }
}

#[test]
fn seperator() {
    let mut lexer = Lexer::new("a;b \nc \r\nd \r\n\r\ne \r\rf \r\r\ng \n\rh");
    assert_eq!(next(&mut lexer), (TokenKind::Ident("a".to_string()), at(1, 1)));
    assert_eq!(next(&mut lexer), (TokenKind::Separator, at(1, 2)));
    assert_eq!(next(&mut lexer), (TokenKind::Ident("b".to_string()), at(1, 3)));
    assert_eq!(next(&mut lexer), (TokenKind::Separator, at(2, 1)));
    assert_eq!(next(&mut lexer), (TokenKind::Ident("c".to_string()), at(2, 1)));
    assert_eq!(next(&mut lexer), (TokenKind::Separator, at(3, 1)));
    assert_eq!(next(&mut lexer), (TokenKind::Ident("d".to_string()), at(3, 1)));
    assert_eq!(next(&mut lexer), (TokenKind::Separator, at(5, 1)));
    assert_eq!(next(&mut lexer), (TokenKind::Ident("e".to_string()), at(5, 1)));
    assert_eq!(next(&mut lexer), (TokenKind::Separator, at(7, 1)));
    assert_eq!(next(&mut lexer), (TokenKind::Ident("f".to_string()), at(7, 1)));
    assert_eq!(next(&mut lexer), (TokenKind::Separator, at(9, 1)));
    assert_eq!(next(&mut lexer), (TokenKind::Ident("g".to_string()), at(9, 1)));
    assert_eq!(next(&mut lexer), (TokenKind::Separator, at(11, 1)));
    assert_eq!(next(&mut lexer), (TokenKind::Ident("h".to_string()), at(11, 1)));
}

#[test]
fn garbage() {
    let mut lexer = Lexer::new("   a/*Comment*/b   // Comment\nc");
    assert_eq!(next(&mut lexer), (TokenKind::Ident("a".to_string()), at(1, 4)));
    assert_eq!(next(&mut lexer), (TokenKind::Ident("b".to_string()), at(1, 16)));
    // the line break after the line comment ends the statement
    assert_eq!(next(&mut lexer), (TokenKind::Separator, at(2, 1)));
    assert_eq!(next(&mut lexer), (TokenKind::Ident("c".to_string()), at(2, 1)));
}

#[test]
fn identifier() {
    let mut lexer = Lexer::new("these _are so_me variables _ _6 wys2 ");
    assert_eq!(next(&mut lexer), (TokenKind::Ident("these".to_string()), at(1, 1)));
    assert_eq!(next(&mut lexer), (TokenKind::Ident("_are".to_string()), at(1, 7)));
    assert_eq!(next(&mut lexer), (TokenKind::Ident("so_me".to_string()), at(1, 12)));
    assert_eq!(next(&mut lexer), (TokenKind::Ident("variables".to_string()), at(1, 18)));
    assert_eq!(next(&mut lexer), (TokenKind::Ident("_".to_string()), at(1, 28)));
    assert_eq!(next(&mut lexer), (TokenKind::Ident("_6".to_string()), at(1, 30)));
    assert_eq!(next(&mut lexer), (TokenKind::Ident("wys2".to_string()), at(1, 33)));
}

#[test]
fn keywords() {
    let mut lexer = Lexer::new("import fn if else then while do return end and or not");
    assert_eq!(next(&mut lexer), (TokenKind::Import, at(1, 1)));
    assert_eq!(next(&mut lexer), (TokenKind::Fn, at(1, 8)));
    assert_eq!(next(&mut lexer), (TokenKind::If, at(1, 11)));
    assert_eq!(next(&mut lexer), (TokenKind::Else, at(1, 14)));
    assert_eq!(next(&mut lexer), (TokenKind::Then, at(1, 19)));
    assert_eq!(next(&mut lexer), (TokenKind::While, at(1, 24)));
    assert_eq!(next(&mut lexer), (TokenKind::Do, at(1, 30)));
    assert_eq!(next(&mut lexer), (TokenKind::Return, at(1, 33)));
    assert_eq!(next(&mut lexer), (TokenKind::End, at(1, 40)));
    assert_eq!(next(&mut lexer), (TokenKind::And, at(1, 44)));
    assert_eq!(next(&mut lexer), (TokenKind::Or, at(1, 48)));
    assert_eq!(next(&mut lexer), (TokenKind::Not, at(1, 51)));
}

#[test]
fn numbers() {
    let mut lexer = Lexer::new("1 23 456 3.14 3.0 0.1");
    assert_eq!(next(&mut lexer), (TokenKind::Int(1), at(1, 1)));
    assert_eq!(next(&mut lexer), (TokenKind::Int(23), at(1, 3)));
    assert_eq!(next(&mut lexer), (TokenKind::Int(456), at(1, 6)));
    assert_eq!(next_float(&mut lexer), (3.14, at(1, 10)));
    assert_eq!(next_float(&mut lexer), (3.0, at(1, 15)));
    assert_eq!(next_float(&mut lexer), (0.1, at(1, 19)));
}

#[test]
fn symbols() {
    let src = "* / + - % ( ) [ ] , ; = == != < <= > >= ";
    let mut lexer = Lexer::new(src);
    assert_eq!(next(&mut lexer), (TokenKind::Mult, at(1, 1)));
    assert_eq!(next(&mut lexer), (TokenKind::Div, at(1, 3)));
    assert_eq!(next(&mut lexer), (TokenKind::Plus, at(1, 5)));
    assert_eq!(next(&mut lexer), (TokenKind::Minus, at(1, 7)));
    assert_eq!(next(&mut lexer), (TokenKind::Mod, at(1, 9)));
    assert_eq!(next(&mut lexer), (TokenKind::Lparen, at(1, 11)));
    assert_eq!(next(&mut lexer), (TokenKind::Rparen, at(1, 13)));
    assert_eq!(next(&mut lexer), (TokenKind::LBracket, at(1, 15)));
    assert_eq!(next(&mut lexer), (TokenKind::RBracket, at(1, 17)));
    assert_eq!(next(&mut lexer), (TokenKind::Comma, at(1, 19)));
    assert_eq!(next(&mut lexer), (TokenKind::Separator, at(1, 21)));
    assert_eq!(next(&mut lexer), (TokenKind::Assign, at(1, 23)));
    assert_eq!(next(&mut lexer), (TokenKind::Eq, at(1, 25)));
    assert_eq!(next(&mut lexer), (TokenKind::NotEq, at(1, 28)));
    assert_eq!(next(&mut lexer), (TokenKind::Less, at(1, 31)));
    assert_eq!(next(&mut lexer), (TokenKind::LessEq, at(1, 33)));
    assert_eq!(next(&mut lexer), (TokenKind::More, at(1, 36)));
    assert_eq!(next(&mut lexer), (TokenKind::MoreEq, at(1, 38)));

}





#[test]
fn assignment() {
    let src = "x = 10;PI = 3.14";
    let mut lexer = Lexer::new(src);
    assert_eq!(next(&mut lexer), (TokenKind::Ident("x".to_string()), at(1, 1)));
    assert_eq!(next(&mut lexer), (TokenKind::Assign, at(1, 3)));
    assert_eq!(next(&mut lexer), (TokenKind::Int(10), at(1, 5)));
    assert_eq!(next(&mut lexer), (TokenKind::Separator, at(1, 7)));
    assert_eq!(next(&mut lexer), (TokenKind::Ident("PI".to_string()), at(1, 8)));
    assert_eq!(next(&mut lexer), (TokenKind::Assign, at(1, 11)));
    assert_eq!(next_float(&mut lexer), (3.14, at(1, 13)));
}

#[test]
fn basic_arithmetic() {
    let src = "x = 10; y = 20; z = x + y; a = z - x; b = a * z; c = b / a; d = c % b";
    let mut lexer = Lexer::new(src);
    assert_eq!(next(&mut lexer), (TokenKind::Ident("x".to_string()), at(1, 1)));
    assert_eq!(next(&mut lexer), (TokenKind::Assign, at(1, 3)));
    assert_eq!(next(&mut lexer), (TokenKind::Int(10), at(1, 5)));
    assert_eq!(next(&mut lexer), (TokenKind::Separator, at(1, 7)));
    assert_eq!(next(&mut lexer), (TokenKind::Ident("y".to_string()), at(1, 9)));
    assert_eq!(next(&mut lexer), (TokenKind::Assign, at(1, 11)));
    assert_eq!(next(&mut lexer), (TokenKind::Int(20), at(1, 13)));
    assert_eq!(next(&mut lexer), (TokenKind::Separator, at(1, 15)));
    assert_eq!(next(&mut lexer), (TokenKind::Ident("z".to_string()), at(1, 17)));
    assert_eq!(next(&mut lexer), (TokenKind::Assign, at(1, 19)));
    assert_eq!(next(&mut lexer), (TokenKind::Ident("x".to_string()), at(1, 21)));
    assert_eq!(next(&mut lexer), (TokenKind::Plus, at(1, 23)));
    assert_eq!(next(&mut lexer), (TokenKind::Ident("y".to_string()), at(1, 25)));
    assert_eq!(next(&mut lexer), (TokenKind::Separator, at(1, 26)));
    assert_eq!(next(&mut lexer), (TokenKind::Ident("a".to_string()), at(1, 28)));
    assert_eq!(next(&mut lexer), (TokenKind::Assign, at(1, 30)));
    assert_eq!(next(&mut lexer), (TokenKind::Ident("z".to_string()), at(1, 32)));
    assert_eq!(next(&mut lexer), (TokenKind::Minus, at(1, 34)));
    assert_eq!(next(&mut lexer), (TokenKind::Ident("x".to_string()), at(1, 36)));
    assert_eq!(next(&mut lexer), (TokenKind::Separator, at(1, 37)));
    assert_eq!(next(&mut lexer), (TokenKind::Ident("b".to_string()), at(1, 39)));
    assert_eq!(next(&mut lexer), (TokenKind::Assign, at(1, 41)));
    assert_eq!(next(&mut lexer), (TokenKind::Ident("a".to_string()), at(1, 43)));
    assert_eq!(next(&mut lexer), (TokenKind::Mult, at(1, 45)));
    assert_eq!(next(&mut lexer), (TokenKind::Ident("z".to_string()), at(1, 47)));
    assert_eq!(next(&mut lexer), (TokenKind::Separator, at(1, 48)));
    assert_eq!(next(&mut lexer), (TokenKind::Ident("c".to_string()), at(1, 50)));
    assert_eq!(next(&mut lexer), (TokenKind::Assign, at(1, 52)));
    assert_eq!(next(&mut lexer), (TokenKind::Ident("b".to_string()), at(1, 54)));
    assert_eq!(next(&mut lexer), (TokenKind::Div, at(1, 56)));
    assert_eq!(next(&mut lexer), (TokenKind::Ident("a".to_string()), at(1, 58)));
    assert_eq!(next(&mut lexer), (TokenKind::Separator, at(1, 59)));
    assert_eq!(next(&mut lexer), (TokenKind::Ident("d".to_string()), at(1, 61)));
    assert_eq!(next(&mut lexer), (TokenKind::Assign, at(1, 63)));
    assert_eq!(next(&mut lexer), (TokenKind::Ident("c".to_string()), at(1, 65)));
    assert_eq!(next(&mut lexer), (TokenKind::Mod, at(1, 67)));
    assert_eq!(next(&mut lexer), (TokenKind::Ident("b".to_string()), at(1, 69)));
}

#[test]
fn functions() {
    let src = "fn add(a, b) return a+b end; print(add(1, 2))";
    let mut lexer = Lexer::new(src);
    assert_eq!(next(&mut lexer), (TokenKind::Fn, at(1, 1)));
    assert_eq!(next(&mut lexer), (TokenKind::Ident("add".to_string()), at(1, 4)));
    assert_eq!(next(&mut lexer), (TokenKind::Lparen, at(1, 7)));
    assert_eq!(next(&mut lexer), (TokenKind::Ident("a".to_string()), at(1, 8)));
    assert_eq!(next(&mut lexer), (TokenKind::Comma, at(1, 9)));
    assert_eq!(next(&mut lexer), (TokenKind::Ident("b".to_string()), at(1, 11)));
    assert_eq!(next(&mut lexer), (TokenKind::Rparen, at(1, 12)));
    assert_eq!(next(&mut lexer), (TokenKind::Return, at(1, 14)));
    assert_eq!(next(&mut lexer), (TokenKind::Ident("a".to_string()), at(1, 21)));
    assert_eq!(next(&mut lexer), (TokenKind::Plus, at(1, 22)));
    assert_eq!(next(&mut lexer), (TokenKind::Ident("b".to_string()), at(1, 23)));
    assert_eq!(next(&mut lexer), (TokenKind::End, at(1, 25)));
    assert_eq!(next(&mut lexer), (TokenKind::Separator, at(1, 28)));
    assert_eq!(next(&mut lexer), (TokenKind::Ident("print".to_string()), at(1, 30)));
    assert_eq!(next(&mut lexer), (TokenKind::Lparen, at(1, 35)));
    assert_eq!(next(&mut lexer), (TokenKind::Ident("add".to_string()), at(1, 36)));
    assert_eq!(next(&mut lexer), (TokenKind::Lparen, at(1, 39)));
    assert_eq!(next(&mut lexer), (TokenKind::Int(1), at(1, 40)));
    assert_eq!(next(&mut lexer), (TokenKind::Comma, at(1, 41)));
    assert_eq!(next(&mut lexer), (TokenKind::Int(2), at(1, 43)));
    assert_eq!(next(&mut lexer), (TokenKind::Rparen, at(1, 44)));
    assert_eq!(next(&mut lexer), (TokenKind::Rparen, at(1, 45)));

    let src = "fn sub(a, b)\r\nsum = a - b\r\nreturn sum\r\nend add(1, 2)";
    let mut lexer = Lexer::new(src);

    assert_eq!(next(&mut lexer), (TokenKind::Fn, at(1, 1)));
    assert_eq!(next(&mut lexer), (TokenKind::Ident("sub".to_string()), at(1, 4)));
    assert_eq!(next(&mut lexer), (TokenKind::Lparen, at(1, 7)));
    assert_eq!(next(&mut lexer), (TokenKind::Ident("a".to_string()), at(1, 8)));
    assert_eq!(next(&mut lexer), (TokenKind::Comma, at(1, 9)));
    assert_eq!(next(&mut lexer), (TokenKind::Ident("b".to_string()), at(1, 11)));
    assert_eq!(next(&mut lexer), (TokenKind::Rparen, at(1, 12)));
    assert_eq!(next(&mut lexer), (TokenKind::Separator, at(2, 1)));
    assert_eq!(next(&mut lexer), (TokenKind::Ident("sum".to_string()), at(2, 1)));
    assert_eq!(next(&mut lexer), (TokenKind::Assign, at(2, 5)));
    assert_eq!(next(&mut lexer), (TokenKind::Ident("a".to_string()), at(2, 7)));
    assert_eq!(next(&mut lexer), (TokenKind::Minus, at(2, 9)));
    assert_eq!(next(&mut lexer), (TokenKind::Ident("b".to_string()), at(2, 11)));
    assert_eq!(next(&mut lexer), (TokenKind::Separator, at(3, 1)));
    assert_eq!(next(&mut lexer), (TokenKind::Return, at(3, 1)));
    assert_eq!(next(&mut lexer), (TokenKind::Ident("sum".to_string()), at(3, 8)));
    assert_eq!(next(&mut lexer), (TokenKind::Separator, at(4, 1)));
    assert_eq!(next(&mut lexer), (TokenKind::End, at(4, 1)));
    assert_eq!(next(&mut lexer), (TokenKind::Ident("add".to_string()), at(4, 5)));
    assert_eq!(next(&mut lexer), (TokenKind::Lparen, at(4, 8)));
    assert_eq!(next(&mut lexer), (TokenKind::Int(1), at(4, 9)));
    assert_eq!(next(&mut lexer), (TokenKind::Comma, at(4, 10)));
    assert_eq!(next(&mut lexer), (TokenKind::Int(2), at(4, 12)));
    assert_eq!(next(&mut lexer), (TokenKind::Rparen, at(4, 13)));
}

#[test]
fn comparison_statements() {
    let src = "if a == b or c != d then\r\n/*do nothing*/\r\nelse e < f and not g > h >= i <= j then end";
    let mut lexer = Lexer::new(src);
    assert_eq!(next(&mut lexer), (TokenKind::If, at(1, 1)));
    assert_eq!(next(&mut lexer), (TokenKind::Ident("a".to_string()), at(1, 4)));
    assert_eq!(next(&mut lexer), (TokenKind::Eq, at(1, 6)));
    assert_eq!(next(&mut lexer), (TokenKind::Ident("b".to_string()), at(1, 9)));
    assert_eq!(next(&mut lexer), (TokenKind::Or, at(1, 11)));
    assert_eq!(next(&mut lexer), (TokenKind::Ident("c".to_string()), at(1, 14)));
    assert_eq!(next(&mut lexer), (TokenKind::NotEq, at(1, 16)));
    assert_eq!(next(&mut lexer), (TokenKind::Ident("d".to_string()), at(1, 19)));
    assert_eq!(next(&mut lexer), (TokenKind::Then, at(1, 21)));
    assert_eq!(next(&mut lexer), (TokenKind::Separator, at(3, 1)));
    assert_eq!(next(&mut lexer), (TokenKind::Else, at(3, 1)));
    assert_eq!(next(&mut lexer), (TokenKind::Ident("e".to_string()), at(3, 6)));
    assert_eq!(next(&mut lexer), (TokenKind::Less, at(3, 8)));
    assert_eq!(next(&mut lexer), (TokenKind::Ident("f".to_string()), at(3, 10)));
    assert_eq!(next(&mut lexer), (TokenKind::And, at(3, 12)));
    assert_eq!(next(&mut lexer), (TokenKind::Not, at(3, 16)));
    assert_eq!(next(&mut lexer), (TokenKind::Ident("g".to_string()), at(3, 20)));
    assert_eq!(next(&mut lexer), (TokenKind::More, at(3, 22)));
    assert_eq!(next(&mut lexer), (TokenKind::Ident("h".to_string()), at(3, 24)));
    assert_eq!(next(&mut lexer), (TokenKind::MoreEq, at(3, 26)));
    assert_eq!(next(&mut lexer), (TokenKind::Ident("i".to_string()), at(3, 29)));
    assert_eq!(next(&mut lexer), (TokenKind::LessEq, at(3, 31)));
    assert_eq!(next(&mut lexer), (TokenKind::Ident("j".to_string()), at(3, 34)));
    assert_eq!(next(&mut lexer), (TokenKind::Then, at(3, 36)));
    assert_eq!(next(&mut lexer), (TokenKind::End, at(3, 41)));
}

#[test]
fn while_statements() {
    let src = "while a < b do\r\na = a + 1\r\nend";
    let mut lexer = Lexer::new(src);
    assert_eq!(next(&mut lexer), (TokenKind::While, at(1, 1)));
    assert_eq!(next(&mut lexer), (TokenKind::Ident("a".to_string()), at(1, 7)));
    assert_eq!(next(&mut lexer), (TokenKind::Less, at(1, 9)));
    assert_eq!(next(&mut lexer), (TokenKind::Ident("b".to_string()), at(1, 11)));
    assert_eq!(next(&mut lexer), (TokenKind::Do, at(1, 13)));
    assert_eq!(next(&mut lexer), (TokenKind::Separator, at(2, 1)));
    assert_eq!(next(&mut lexer), (TokenKind::Ident("a".to_string()), at(2, 1)));
    assert_eq!(next(&mut lexer), (TokenKind::Assign, at(2, 3)));
    assert_eq!(next(&mut lexer), (TokenKind::Ident("a".to_string()), at(2, 5)));
    assert_eq!(next(&mut lexer), (TokenKind::Plus, at(2, 7)));
    assert_eq!(next(&mut lexer), (TokenKind::Int(1), at(2, 9)));
    assert_eq!(next(&mut lexer), (TokenKind::Separator, at(3, 1)));
    assert_eq!(next(&mut lexer), (TokenKind::End, at(3, 1)));
}

#[test]
fn import_statements() {
    let src = "import test\r\nimport yes, no";
    let mut lexer = Lexer::new(src);
    assert_eq!(next(&mut lexer), (TokenKind::Import, at(1, 1)));
    assert_eq!(next(&mut lexer), (TokenKind::Ident("test".to_string()), at(1, 8)));
    assert_eq!(next(&mut lexer), (TokenKind::Separator, at(2, 1)));
    assert_eq!(next(&mut lexer), (TokenKind::Import, at(2, 1)));
    assert_eq!(next(&mut lexer), (TokenKind::Ident("yes".to_string()), at(2, 8)));
    assert_eq!(next(&mut lexer), (TokenKind::Comma, at(2, 11)));
    assert_eq!(next(&mut lexer), (TokenKind::Ident("no".to_string()), at(2, 13)));
}

#[test]
fn lists() {
    let src = "x = [1, 2, 3, 4, 5]";
    let mut lexer = Lexer::new(src);
    assert_eq!(next(&mut lexer), (TokenKind::Ident("x".to_string()), at(1, 1)));
    assert_eq!(next(&mut lexer), (TokenKind::Assign, at(1, 3)));
    assert_eq!(next(&mut lexer), (TokenKind::LBracket, at(1, 5)));
    assert_eq!(next(&mut lexer), (TokenKind::Int(1), at(1, 6)));
    assert_eq!(next(&mut lexer), (TokenKind::Comma, at(1, 7)));
    assert_eq!(next(&mut lexer), (TokenKind::Int(2), at(1, 9)));
    assert_eq!(next(&mut lexer), (TokenKind::Comma, at(1, 10)));
    assert_eq!(next(&mut lexer), (TokenKind::Int(3), at(1, 12)));
    assert_eq!(next(&mut lexer), (TokenKind::Comma, at(1, 13)));
    assert_eq!(next(&mut lexer), (TokenKind::Int(4), at(1, 15)));
    assert_eq!(next(&mut lexer), (TokenKind::Comma, at(1, 16)));
    assert_eq!(next(&mut lexer), (TokenKind::Int(5), at(1, 18)));
    assert_eq!(next(&mut lexer), (TokenKind::RBracket, at(1, 19)));
}
