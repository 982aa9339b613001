use ghi::compare::match_schema;
use ghi::input_lexer::InputCmdLexer;
use ghi::parser::CmdParser;

#[test]
fn match_single_item() {
    let tests = vec![("git", "git"), ("-f", "-f")];

    for (cmd, s) in tests {
        let ast = CmdParser::compile(cmd).unwrap();
        let input = InputCmdLexer::compile(s);
        let matcher = match_schema(&ast, &input, 0, 0);

        for (val, correctness) in matcher {
            assert_eq!(val, s);
            assert_eq!(correctness, val == s);
        }
    }
}

#[test]
fn match_multiple_items() {
    let val = "git add";
    let ast = CmdParser::compile(&val).unwrap();
    let input = InputCmdLexer::compile(&val);
    let matcher = match_schema(&ast, &input, 0, 0);
    let splits = val.split_whitespace().collect::<Vec<_>>();

    for (i, (cmd, s)) in matcher.iter().enumerate() {
        let split = splits[i];
        assert_eq!(cmd, split);
        assert_eq!(*s, cmd.as_str() == split);
    }
}

#[test]
fn match_short_flag() {
    let val = "git -f";
    let ast = CmdParser::compile(&val).unwrap();
    let input = InputCmdLexer::compile(&val);
    let matcher = match_schema(&ast, &input, 0, 0);
    let splits = val.split_whitespace().collect::<Vec<_>>();

    for (i, (cmd, s)) in matcher.iter().enumerate() {
        let split = splits[i];
        assert_eq!(cmd, split);
        assert_eq!(*s, cmd.as_str() == split);
    }
}

#[test]
fn match_long_flag() {
    let val = "git --depht";
    let ast = CmdParser::compile(&val).unwrap();
    let input = InputCmdLexer::compile(&val);
    let matcher = match_schema(&ast, &input, 0, 0);
    let splits = val.split_whitespace().collect::<Vec<_>>();

    for (i, (cmd, s)) in matcher.iter().enumerate() {
        let split = splits[i];
        assert_eq!(cmd, split);
        assert_eq!(*s, cmd.as_str() == split);
    }
}

#[test]
fn match_combo_flag() {
    let val = "git -la";
    let ast = CmdParser::compile(&val).unwrap();
    let input = InputCmdLexer::compile(&val);
    let matcher = match_schema(&ast, &input, 0, 0);
    let splits = val.split_whitespace().collect::<Vec<_>>();

    for (i, (cmd, s)) in matcher.iter().enumerate() {
        let split = splits[i];
        assert_eq!(cmd, split);
        assert_eq!(*s, cmd.as_str() == split);
    }
}
