use ghi::compare::{fully_correct, match_schema};
use ghi::config::{parse_database_dir, resolve_database_dir};
use ghi::error::CompileError;
use ghi::explore::{ExploreAction, ExploreState, ExploreView};
use ghi::history::{recent_unique, History, MoveDirection};
use ghi::input_lexer::InputCmdLexer;
use ghi::lexer::CmdLexer;
use ghi::parser::{CmdParser, CmdWord, Variable};
use ghi::prompt::{Prompt, PromptView};
use ghi::rect::{GhiDebug, Point, Rect};
use ghi::store::{Cache, DbIndex, HistoryItem, HistoryItems};
use ghi::text::first_word;
use ghi::tmux::{lex, parse_usize, Arg, Token};

fn entries(report: &Vec<(String, bool)>) -> Vec<(&str, bool)> {
    report.iter().map(|(s, b)| (s.as_str(), *b)).collect()
}

#[test]
fn compiling_twice_gives_equal_asts() {
    let pattern = "git commit -m <message> [--amend]";
    let first = CmdParser::compile(pattern).unwrap();
    let second = CmdParser::compile(pattern).unwrap();
    assert_eq!(first, second);
}

#[test]
fn lexing_answer_twice_gives_equal_tokens() {
    let answer = "git commit -m 'first try' --amend";
    let first = InputCmdLexer::compile(answer);
    let second = InputCmdLexer::compile(answer);
    assert_eq!(first, second);
}

#[test]
fn substituted_answer_is_fully_correct() {
    let ast = CmdParser::compile("git commit -m <message> --file <path> -la").unwrap();
    let tokens = InputCmdLexer::compile("git commit -m fix --file notes.txt -la");
    assert!(fully_correct(&ast, &tokens));
}

#[test]
fn report_for_exact_answer() {
    let ast = CmdParser::compile("git add <path>").unwrap();
    let tokens = InputCmdLexer::compile("git add src");
    let report = match_schema(&ast, &tokens, 0, 0);
    assert_eq!(
        entries(&report),
        vec![("git", true), ("add", true), ("src", true)]
    );
    assert!(fully_correct(&ast, &tokens));
}

#[test]
fn flag_word_against_plain_string_is_one_mismatch() {
    let ast = CmdParser::compile("git commit -m <message>").unwrap();
    let tokens = InputCmdLexer::compile("git commit init");
    let report = match_schema(&ast, &tokens, 0, 0);
    assert_eq!(
        entries(&report),
        vec![("git", true), ("commit", true), ("-m <message>", false)]
    );
    assert!(!fully_correct(&ast, &tokens));
}

#[test]
fn combo_comparison_is_order_sensitive() {
    let ast = CmdParser::compile("git -la").unwrap();

    let same = InputCmdLexer::compile("git -la");
    assert_eq!(
        entries(&match_schema(&ast, &same, 0, 0)),
        vec![("git", true), ("-la", true)]
    );
    assert!(fully_correct(&ast, &same));

    let swapped = InputCmdLexer::compile("git -al");
    assert_eq!(
        entries(&match_schema(&ast, &swapped, 0, 0)),
        vec![("git", true), ("-la", false)]
    );
    assert!(!fully_correct(&ast, &swapped));
}

#[test]
fn trailing_input_is_appended_as_mismatch() {
    let ast = CmdParser::compile("display-message -p -t <target>").unwrap();
    let tokens = InputCmdLexer::compile("display-message -p -t c0 extra");
    let report = match_schema(&ast, &tokens, 0, 0);
    assert_eq!(
        entries(&report),
        vec![
            ("display-message", true),
            ("-p", true),
            ("-t", true),
            ("<target>", true),
            ("extra", false),
        ]
    );
    assert!(!fully_correct(&ast, &tokens));
}

#[test]
fn leftover_pattern_words_block_full_correctness() {
    let ast = CmdParser::compile("git add <path>").unwrap();
    let tokens = InputCmdLexer::compile("git");
    let report = match_schema(&ast, &tokens, 0, 0);
    assert_eq!(entries(&report), vec![("git", true)]);
    assert!(!fully_correct(&ast, &tokens));
}

#[test]
fn rendering_each_word_kind() {
    let literal = CmdWord::Literal { value: "git".to_string() };
    assert_eq!(literal.render(), "git");

    let variable = CmdWord::Variable { name: "path".to_string(), kind: Variable::String };
    assert_eq!(variable.render(), "<path>");

    let bare_short = CmdWord::FlagShort { value: 'c', input: Box::new(None) };
    assert_eq!(bare_short.render(), "-c");

    let nested = CmdWord::Variable { name: "value".to_string(), kind: Variable::String };
    let short = CmdWord::FlagShort { value: 'c', input: Box::new(Some(nested)) };
    assert_eq!(short.render(), "-c <value>");

    let bare_long = CmdWord::FlagLong { value: "depth".to_string(), input: Box::new(None) };
    assert_eq!(bare_long.render(), "--depth");

    let nested = CmdWord::Variable { name: "n".to_string(), kind: Variable::String };
    let long = CmdWord::FlagLong { value: "depth".to_string(), input: Box::new(Some(nested)) };
    assert_eq!(long.render(), "--depth <n>");

    let combo = CmdWord::FlagCombo { values: vec!['c', 's'] };
    assert_eq!(combo.render(), "-cs");
}

#[test]
fn report_text_uses_the_rendering() {
    // A mismatched word is reported as exactly its rendering.
    let ast = CmdParser::compile("git --depth <n>").unwrap();
    let tokens = InputCmdLexer::compile("tig -x files");
    let report = match_schema(&ast, &tokens, 0, 0);
    assert_eq!(
        entries(&report),
        vec![("git", false), ("--depth <n>", false), ("files", false)]
    );
}

#[test]
fn long_flag_with_nested_variable_matches() {
    let ast = CmdParser::compile("git clone --depth <n>").unwrap();
    let tokens = InputCmdLexer::compile("git clone --depth 1");
    assert!(fully_correct(&ast, &tokens));
}

#[test]
fn bracket_contents_are_flattened() {
    let ast = CmdParser::compile("git [-t <target>]").unwrap();
    let nested = CmdWord::Variable { name: "target".to_string(), kind: Variable::String };
    assert_eq!(
        ast,
        vec![
            CmdWord::Literal { value: "git".to_string() },
            CmdWord::FlagShort { value: 't', input: Box::new(Some(nested)) },
        ]
    );
}

#[test]
fn illegal_character_is_recoverable() {
    assert_eq!(
        CmdLexer::compile("git !"),
        Err(CompileError::IllegalToken { position: 4 })
    );
    assert_eq!(
        CmdParser::compile("git !"),
        Err(CompileError::IllegalToken { position: 4 })
    );
}

#[test]
fn empty_pattern_is_rejected() {
    assert_eq!(CmdParser::compile(""), Err(CompileError::EmptyPattern));
    assert_eq!(CmdParser::compile("   "), Err(CompileError::EmptyPattern));
}

#[test]
fn malformed_angles_are_rejected() {
    assert_eq!(CmdParser::compile("git < >"), Err(CompileError::AngleMissingName));
    assert_eq!(CmdParser::compile("git <path"), Err(CompileError::AngleUnclosed));
    assert_eq!(CmdParser::compile("git path>"), Err(CompileError::UnexpectedAngleClose));
}

#[test]
fn malformed_brackets_are_rejected() {
    assert_eq!(CmdParser::compile("git [-t"), Err(CompileError::UnterminatedBracket));
    assert_eq!(CmdParser::compile("git -t]"), Err(CompileError::UnexpectedBracketClose));
}

#[test]
fn unsupported_grammar_is_rejected() {
    assert_eq!(
        CmdParser::compile("git [--hard | --soft]"),
        Err(CompileError::UnsupportedAlternation)
    );
    assert_eq!(
        CmdParser::compile("git add <file>..."),
        Err(CompileError::UnsupportedRepetition)
    );
}

#[test]
fn prompt_grades_a_correct_answer() {
    let mut prompt = Prompt::new("Stage a file", "git add <path>").unwrap();
    assert_eq!(prompt.view, PromptView::Prompt);
    assert_eq!(prompt.cmd, vec!['g', 'i', 't']);
    for ch in "git add src".chars() {
        prompt.append_input(ch);
    }
    assert_eq!(prompt.get_input_string(), "git add src");
    prompt.submit_answer();
    assert_eq!(prompt.view, PromptView::Correct);
}

#[test]
fn prompt_underlines_a_wrong_answer() {
    let mut prompt = Prompt::new("Ask for git", "git").unwrap();
    for ch in "got".chars() {
        prompt.append_input(ch);
    }
    prompt.submit_answer();
    assert_eq!(prompt.view, PromptView::Wrong);
    assert_eq!(prompt.feedback, Some(vec!['^', '^', '^', ' ']));
}

#[test]
fn prompt_set_question_resets_the_round() {
    let mut prompt = Prompt::new("one", "git add <path>").unwrap();
    for ch in "typed".chars() {
        prompt.append_input(ch);
    }
    prompt.set_question("two", "ls -la").unwrap();
    assert_eq!(prompt.view, PromptView::Prompt);
    assert_eq!(prompt.cmd, vec!['l', 's']);
    assert_eq!(prompt.get_input_string(), "");
    assert!(prompt.set_question("three", "").is_err());
}

#[test]
fn prompt_input_editing() {
    let mut prompt = Prompt::new("q", "git").unwrap();
    prompt.append_input('g');
    prompt.append_input('i');
    prompt.backspace_input();
    assert_eq!(prompt.get_input_string(), "g");
    prompt.backspace_input();
    prompt.backspace_input();
    assert_eq!(prompt.get_input_string(), "");
    prompt.append_input('x');
    prompt.reset_input();
    assert_eq!(prompt.get_input_string(), "");
}

#[test]
fn history_search_filters_by_query() {
    let mut history = History::from_commands(vec![
        "git add src".to_string(),
        "cargo build".to_string(),
        "git commit".to_string(),
    ]);
    let results = history.init_search(2).clone();
    assert_eq!(results, vec!["git add src".to_string(), "cargo build".to_string()]);

    for ch in "git".chars() {
        history.append_query(ch);
    }
    let results = history.search(10).clone();
    assert_eq!(results, vec!["git add src".to_string(), "git commit".to_string()]);

    for ch in "zzz".chars() {
        history.append_query(ch);
    }
    let results = history.search(10).clone();
    assert_eq!(results, Vec::<String>::new());
}

#[test]
fn history_selection_moves_inside_results() {
    let mut history = History::from_commands(vec![
        "one".to_string(),
        "two".to_string(),
        "three".to_string(),
    ]);
    history.init_search(3);
    history.move_selected_index(MoveDirection::Down);
    history.move_selected_index(MoveDirection::Down);
    history.move_selected_index(MoveDirection::Down);
    assert_eq!(history.selected_idx, 2);
    assert_eq!(history.get_selection(), Some(&"three".to_string()));
    history.move_selected_index(MoveDirection::Up);
    assert_eq!(history.selected_idx, 1);
}

#[test]
fn recent_lines_are_reversed_and_deduplicated() {
    let lines = vec![
        "one".to_string(),
        "two".to_string(),
        "three".to_string(),
        "one".to_string(),
    ];
    assert_eq!(
        recent_unique(&lines),
        vec!["one".to_string(), "three".to_string(), "two".to_string()]
    );
}

#[test]
fn db_index_round_trip() {
    let lines = vec!["git add".to_string(), "".to_string(), "ls -la".to_string()];
    let mut index = DbIndex::parse(&lines);
    assert_eq!(index.all(), &vec!["git add".to_string(), "ls -la".to_string()]);
    assert!(index.has("git add"));
    assert!(!index.has("git"));
    index.add("cargo test");
    assert_eq!(index.get(2), Some(&"cargo test".to_string()));
    assert_eq!(index.get(3), None);
    assert_eq!(index.render(), "git add\nls -la\ncargo test\n");
}

#[test]
fn db_index_filter_returns_matching_indices() {
    let mut index = DbIndex::new();
    index.add("git add");
    index.add("cargo build");
    index.add("git commit");
    assert_eq!(index.filter("git", 10), vec![0, 2]);
    assert_eq!(index.filter("git", 1), vec![0]);
    assert_eq!(index.filter("zzz", 10), Vec::<usize>::new());
}

#[test]
fn cache_marks_history_against_the_index() {
    let mut cache = Cache::new();
    cache.db.add("git add");
    let lines = vec![
        "git add".to_string(),
        "cargo build".to_string(),
        "git add".to_string(),
    ];
    cache.ingest_history(&lines);
    let first = cache.get_history_item(0).unwrap();
    assert_eq!(first.value, "git add");
    assert!(first.selected);
    let second = cache.get_history_item(1).unwrap();
    assert_eq!(second.value, "cargo build");
    assert!(!second.selected);
    assert!(cache.get_history_item(2).is_none());
    assert_eq!(cache.get_history_refs("git", 10), vec![0]);
    assert_eq!(cache.get_refs("git", 10), vec![0]);
    assert_eq!(cache.get_item(0), Some(&"git add".to_string()));
}

#[test]
fn history_items_basics() {
    let mut items = HistoryItems::new();
    items.push(HistoryItem::new("git add", true));
    items.push(HistoryItem::new("cargo run", false));
    assert_eq!(items.get(0).unwrap().value, "git add");
    assert!(items.get(2).is_none());
    assert_eq!(items.filter("cargo", 10), vec![1]);
}

#[test]
fn database_dir_resolution() {
    assert_eq!(
        parse_database_dir("/home/u", &Some("~/data".to_string())),
        Some("/home/u/data".to_string())
    );
    assert_eq!(
        parse_database_dir("/home/u", &Some("/abs/path".to_string())),
        Some("/abs/path".to_string())
    );
    assert_eq!(parse_database_dir("/home/u", &None), None);
    assert_eq!(resolve_database_dir("/home/u", &None), "/home/u/.ghi");
    assert_eq!(
        resolve_database_dir("/home/u", &Some("~/data".to_string())),
        "/home/u/data"
    );
}

#[test]
fn explorer_navigation() {
    let mut state = ExploreState::new(3);
    assert_eq!(state.get_selection_idx(), 0);
    state.select_down();
    state.select_down();
    state.select_down();
    assert_eq!(state.lessons_idx, 2);
    state.select_up();
    assert_eq!(state.lessons_idx, 1);

    let action = state.select();
    assert_eq!(action, ExploreAction::LoadQuests { lessons_idx: 1 });
    assert_eq!(state.view, ExploreView::Quests);
    state.set_quests_len(2);
    state.select_down();
    assert_eq!(state.get_selection_idx(), 1);
    let action = state.select();
    assert_eq!(action, ExploreAction::OpenQuest { quest_pos: 0 });
    assert_eq!(state.view, ExploreView::Quest);
    assert_eq!(state.select(), ExploreAction::CloseQuest);
    assert_eq!(state.view, ExploreView::Quests);
    state.select_up();
    assert_eq!(state.get_selection_idx(), 0);
    assert_eq!(state.select(), ExploreAction::BackToLessons);
    assert_eq!(state.view, ExploreView::Lessons);
}

#[test]
fn point_and_rect_arithmetic() {
    let p = Point::new(3, 4);
    assert_eq!(p.buf_addr(10), 43);
    let q = p.add(2, 1);
    assert_eq!((q.x, q.y), (5, 5));

    let mut rect = Rect::new(1, 2, 30, 20);
    rect.set_padding(Some(2), Some(4), Some(1), Some(4));
    let tl = rect.top_left_padded();
    assert_eq!((tl.x, tl.y), (5, 4));
    let bl = rect.bottom_left();
    assert_eq!((bl.x, bl.y), (1, 22));
    assert_eq!(rect.width(), 30);
    assert_eq!(rect.height(), 20);
    let lines = rect.debug();
    assert_eq!(
        lines,
        vec![
            "x: 1".to_string(),
            "y: 2".to_string(),
            "width: 30".to_string(),
            "height: 20".to_string(),
            "padding: 2, 4, 1, 4".to_string(),
        ]
    );
}

#[test]
fn prompt_resize_fits_the_screen() {
    let mut prompt = Prompt::new("q", "git").unwrap();
    prompt.resize(80, 40);
    assert_eq!(prompt.rect.width(), 60);
    assert_eq!(prompt.rect.height(), 32);
}

#[test]
fn first_word_of_text() {
    assert_eq!(first_word("  git add"), Some("git".to_string()));
    assert_eq!(first_word("   "), None);
}

#[test]
fn lenient_quote_handling() {
    assert_eq!(
        InputCmdLexer::compile("echo 'unterminated"),
        vec![
            ghi::input_lexer::Token::Str("echo".to_string()),
            ghi::input_lexer::Token::Str("unterminated".to_string()),
        ]
    );
    assert_eq!(
        InputCmdLexer::compile("\"\""),
        vec![ghi::input_lexer::Token::Str(String::new())]
    );
    assert_eq!(
        InputCmdLexer::compile("cd -"),
        vec![
            ghi::input_lexer::Token::Str("cd".to_string()),
            ghi::input_lexer::Token::Str("-".to_string()),
        ]
    );
}

#[test]
fn description_words_become_tokens() {
    let tokens = lex("new-session -s <string> [optional] <3>");
    assert_eq!(
        tokens,
        vec![
            Token::Command("new-session".to_string()),
            Token::Flag("-s".to_string()),
            Token::Argument(Arg::String("string".to_string())),
            Token::Argument(Arg::Int(3)),
        ]
    );
}

#[test]
fn decimal_parsing_matches_the_standard_reading() {
    assert_eq!(parse_usize("42"), Some(42));
    assert_eq!(parse_usize("+42"), Some(42));
    assert_eq!(parse_usize("0007"), Some(7));
    assert_eq!(parse_usize(""), None);
    assert_eq!(parse_usize("+"), None);
    assert_eq!(parse_usize("4x"), None);
    assert_eq!(parse_usize("18446744073709551615"), Some(usize::MAX));
    assert_eq!(parse_usize("18446744073709551616"), None);
}
