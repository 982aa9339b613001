use ghi::lexer::{CmdLexer, Token};

#[test]
fn just_once_letter() {
    let input = "a";
    let exp = vec![Token::Str(String::from("a"))];
    let result = CmdLexer::compile(&input).unwrap();
    assert_eq!(result, exp);
}

#[test]
fn lexer_lex() {
    let input = "[]<>f";
    let exp = vec![
        Token::LSq,
        Token::RSq,
        Token::LAr,
        Token::RAr,
        Token::Str(String::from("f")),
    ];
    let result = CmdLexer::compile(&input).unwrap();
    assert_eq!(result, exp);
}

#[test]
fn flag() {
    let input = "[]<>-fa[";
    let exp = vec![
        Token::LSq,
        Token::RSq,
        Token::LAr,
        Token::RAr,
        Token::FlagCombo(String::from("fa")),
        Token::LSq,
    ];
    let result = CmdLexer::compile(&input).unwrap();
    assert_eq!(result, exp);
}

#[test]
fn command() {
    let input = "[-t <target-session>]";
    let exp = vec![
        Token::LSq,
        Token::FlagShort(String::from("t")),
        Token::LAr,
        Token::Str(String::from("target-session")),
        Token::RAr,
        Token::RSq,
    ];
    let result = CmdLexer::compile(&input).unwrap();
    assert_eq!(result, exp);
}

#[test]
fn lexer_cmd1() {
    let input = "[-t <current-name>] <new-name>";
    let exp = vec![
        Token::LSq,
        Token::FlagShort(String::from("t")),
        Token::LAr,
        Token::Str(String::from("current-name")),
        Token::RAr,
        Token::RSq,
        Token::LAr,
        Token::Str(String::from("new-name")),
        Token::RAr,
    ];
    let result = CmdLexer::compile(&input).unwrap();
    assert_eq!(result, exp);
}

#[test]
fn lexer_cmd2() {
    let input = "[-c <target-client>] [-t <target-session>]";
    let exp = vec![
        Token::LSq,
        Token::FlagShort(String::from("c")),
        Token::LAr,
        Token::Str(String::from("target-client")),
        Token::RAr,
        Token::RSq,
        Token::LSq,
        Token::FlagShort(String::from("t")),
        Token::LAr,
        Token::Str(String::from("target-session")),
        Token::RAr,
        Token::RSq,
    ];
    let result = CmdLexer::compile(&input).unwrap();
    assert_eq!(result, exp);
}

#[test]
fn lexer_cmd3() {
    let input = "[-b] [-t <target-pane>] <shell-command>";
    let exp = vec![
        Token::LSq,
        Token::FlagShort(String::from("b")),
        Token::RSq,
        Token::LSq,
        Token::FlagShort(String::from("t")),
        Token::LAr,
        Token::Str(String::from("target-pane")),
        Token::RAr,
        Token::RSq,
        Token::LAr,
        Token::Str(String::from("shell-command")),
        Token::RAr,
    ];
    let result = CmdLexer::compile(&input).unwrap();
    assert_eq!(result, exp);
}

#[test]
fn lexer_cmd4() {
    let input = "[-s <session-name>] [-n <window-name>] [command]";
    let exp = vec![
        Token::LSq,
        Token::FlagShort(String::from("s")),
        Token::LAr,
        Token::Str(String::from("session-name")),
        Token::RAr,
        Token::RSq,
        Token::LSq,
        Token::FlagShort(String::from("n")),
        Token::LAr,
        Token::Str(String::from("window-name")),
        Token::RAr,
        Token::RSq,
        Token::LSq,
        Token::Str(String::from("command")),
        Token::RSq,
    ];
    let result = CmdLexer::compile(&input).unwrap();
    assert_eq!(result, exp);
}

#[test]
fn lexer_cmd5() {
    let input = "[-b] [-t <target-pane>] <shell-command> <command> [else-command]";
    let exp = vec![
        Token::LSq,
        Token::FlagShort(String::from("b")),
        Token::RSq,
        Token::LSq,
        Token::FlagShort(String::from("t")),
        Token::LAr,
        Token::Str(String::from("target-pane")),
        Token::RAr,
        Token::RSq,
        Token::LAr,
        Token::Str(String::from("shell-command")),
        Token::RAr,
        Token::LAr,
        Token::Str(String::from("command")),
        Token::RAr,
        Token::LSq,
        Token::Str(String::from("else-command")),
        Token::RSq,
    ];
    let result = CmdLexer::compile(&input).unwrap();
    assert_eq!(result, exp);
}

#[test]
fn flag_with_or() {
    let input = "[-D | -U] [-t <target-pane>]";
    let exp = vec![
        Token::LSq,
        Token::FlagShort(String::from("D")),
        Token::Or,
        Token::FlagShort(String::from("U")),
        Token::RSq,
        Token::LSq,
        Token::FlagShort(String::from("t")),
        Token::LAr,
        Token::Str(String::from("target-pane")),
        Token::RAr,
        Token::RSq,
    ];
    let result = CmdLexer::compile(&input).unwrap();
    assert_eq!(result, exp);
}

#[test]
fn long_argument() {
    let input = "[-b <branch>] [--depth <depth>] <repository> [<directory>]";
    let exp = vec![
        Token::LSq,
        Token::FlagShort(String::from("b")),
        Token::LAr,
        Token::Str(String::from("branch")),
        Token::RAr,
        Token::RSq,
        Token::LSq,
        Token::FlagLong(String::from("depth")),
        Token::LAr,
        Token::Str(String::from("depth")),
        Token::RAr,
        Token::RSq,
        Token::LAr,
        Token::Str(String::from("repository")),
        Token::RAr,
        Token::LSq,
        Token::LAr,
        Token::Str(String::from("directory")),
        Token::RAr,
        Token::RSq,
    ];
    let result = CmdLexer::compile(&input).unwrap();
    assert_eq!(result, exp);
}

#[test]
fn two_long_flags() {
    let input = "[--hard | --soft] <commit>";
    let exp = vec![
        Token::LSq,
        Token::FlagLong(String::from("hard")),
        Token::Or,
        Token::FlagLong(String::from("soft")),
        Token::RSq,
        Token::LAr,
        Token::Str(String::from("commit")),
        Token::RAr,
    ];
    let result = CmdLexer::compile(&input).unwrap();
    assert_eq!(result, exp);
}

#[test]
fn flag_with_dash() {
    let input = "[--hard-one] <commit>";
    let exp = vec![
        Token::LSq,
        Token::FlagLong(String::from("hard-one")),
        Token::RSq,
        Token::LAr,
        Token::Str(String::from("commit")),
        Token::RAr,
    ];
    let result = CmdLexer::compile(&input).unwrap();
    assert_eq!(result, exp);
}

#[test]
fn command_and_subcommand() {
    let input = "git reset [--hard | --soft] <commit>";
    let exp = vec![
        Token::Str(String::from("git")),
        Token::Str(String::from("reset")),
        Token::LSq,
        Token::FlagLong(String::from("hard")),
        Token::Or,
        Token::FlagLong(String::from("soft")),
        Token::RSq,
        Token::LAr,
        Token::Str(String::from("commit")),
        Token::RAr,
    ];
    let result = CmdLexer::compile(&input).unwrap();
    assert_eq!(result, exp);
}

#[test]
fn multiple_dot_inputs() {
    let input = "git add [<file>... | <directory>...]";
    let exp = vec![
        Token::Str(String::from("git")),
        Token::Str(String::from("add")),
        Token::LSq,
        Token::LAr,
        Token::Str(String::from("file")),
        Token::RAr,
        Token::Multiple,
        Token::Or,
        Token::LAr,
        Token::Str(String::from("directory")),
        Token::RAr,
        Token::Multiple,
        Token::RSq,
    ];
    let result = CmdLexer::compile(&input).unwrap();
    assert_eq!(result, exp);
}
