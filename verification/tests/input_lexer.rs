use ghi::input_lexer::{InputCmdLexer, Token};

#[test]
fn input_lexer_lex() {
    let input = "display-message -p -t client-0 'Hello, World!'";
    let exp = vec![
        Token::Str(String::from("display-message")),
        Token::FlagShort('p'),
        Token::FlagShort('t'),
        Token::Str(String::from("client-0")),
        Token::Str(String::from("Hello, World!")),
    ];
    let result = InputCmdLexer::compile(&input);
    assert_eq!(result, exp);
}

#[test]
fn input_lexer_cmd1() {
    let input = "capture-pane -t pane-1";
    let exp = vec![
        Token::Str(String::from("capture-pane")),
        Token::FlagShort('t'),
        Token::Str(String::from("pane-1")),
    ];
    let result = InputCmdLexer::compile(&input);
    assert_eq!(result, exp);
}

#[test]
fn input_lexer_cmd2() {
    let input = "save-buffer -b 1 /path/to/file.txt";
    let exp = vec![
        Token::Str(String::from("save-buffer")),
        Token::FlagShort('b'),
        Token::Str(String::from("1")),
        Token::Str(String::from("/path/to/file.txt")),
    ];
    let result = InputCmdLexer::compile(&input);
    assert_eq!(result, exp);
}

#[test]
fn input_lexer_cmd3() {
    let input = "paste-buffer -t pane-2 -b 5";
    let exp = vec![
        Token::Str(String::from("paste-buffer")),
        Token::FlagShort('t'),
        Token::Str(String::from("pane-2")),
        Token::FlagShort('b'),
        Token::Str(String::from("5")),
    ];
    let result = InputCmdLexer::compile(&input);
    assert_eq!(result, exp);
}

#[test]
fn input_lexer_cmd4() {
    let input = "if-shell -b -t pane-3 \"test -f myfile.txt\" \"echo File exists\" \"echo File does not exist\"";
    let exp = vec![
        Token::Str(String::from("if-shell")),
        Token::FlagShort('b'),
        Token::FlagShort('t'),
        Token::Str(String::from("pane-3")),
        Token::Str(String::from("test -f myfile.txt")),
        Token::Str(String::from("echo File exists")),
        Token::Str(String::from("echo File does not exist")),
    ];
    let result = InputCmdLexer::compile(&input);
    assert_eq!(result, exp);
}

#[test]
fn input_lexer_cmd5() {
    let input = "-la";
    let exp = vec![Token::FlagCombo(vec!['l', 'a'])];
    let result = InputCmdLexer::compile(&input);
    assert_eq!(result, exp);
}

#[test]
fn cmd6() {
    let input = "--long";
    let exp = vec![Token::FlagLong("long".to_string())];
    let result = InputCmdLexer::compile(&input);
    assert_eq!(result, exp);
}
