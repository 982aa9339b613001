use ghi::parser::{CmdParser, CmdWord, Variable};

#[test]
fn one_literal() {
    let parser = CmdParser::compile("git").unwrap();

    assert_eq!(parser, vec![CmdWord::Literal { value: "git".to_string() }]);
}

#[test]
fn two_literal() {
    let parser = CmdParser::compile("git add").unwrap();

    assert_eq!(
        parser,
        vec![
            CmdWord::Literal { value: "git".to_string() },
            CmdWord::Literal { value: "add".to_string() },
        ]
    );
}

#[test]
fn command_with_required_input() {
    let parser = CmdParser::compile("git add <path>").unwrap();

    assert_eq!(
        parser,
        vec![
            CmdWord::Literal { value: "git".to_string() },
            CmdWord::Literal { value: "add".to_string() },
            CmdWord::Variable { name: "path".to_string(), kind: Variable::String },
        ]
    );
}

#[test]
fn command_with_short_flag() {
    let parser = CmdParser::compile("some command -f").unwrap();

    assert_eq!(
        parser,
        vec![
            CmdWord::Literal { value: "some".to_string() },
            CmdWord::Literal { value: "command".to_string() },
            CmdWord::FlagShort { value: 'f', input: Box::new(None) },
        ]
    );
}

#[test]
fn cmd_with_short_flag_with_input() {
    let parser = CmdParser::compile("some command -f <value>").unwrap();

    assert_eq!(
        parser,
        vec![
            CmdWord::Literal { value: "some".to_string() },
            CmdWord::Literal { value: "command".to_string() },
            CmdWord::FlagShort {
                value: 'f',
                input: Box::new(Some(CmdWord::Variable {
                    name: "value".to_string(),
                    kind: Variable::String,
                })),
            },
        ]
    );
}

#[test]
fn command_with_long_flag() {
    let parser = CmdParser::compile("some command --depth").unwrap();

    assert_eq!(
        parser,
        vec![
            CmdWord::Literal { value: "some".to_string() },
            CmdWord::Literal { value: "command".to_string() },
            CmdWord::FlagLong { value: "depth".to_string(), input: Box::new(None) },
        ]
    );
}

#[test]
fn command_with_combo_flag() {
    let parser = CmdParser::compile("some command -la").unwrap();

    assert_eq!(
        parser,
        vec![
            CmdWord::Literal { value: "some".to_string() },
            CmdWord::Literal { value: "command".to_string() },
            CmdWord::FlagCombo { values: vec!['l', 'a'] },
        ]
    );
}
