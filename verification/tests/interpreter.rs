use ccplus::interpreter::{expressions, interpret, Action, Fatal, Outcome};

fn evaluate(expression: &str) -> Option<String> {
    mexprp::eval::<f64>(expression).ok().map(|value| value.to_string())
}

fn answers_for(script: &str) -> Vec<Option<String>> {
    expressions(script)
        .into_iter()
        .map(|expression| expression.and_then(|text| evaluate(&text)))
        .collect()
}

fn run(script: &str) -> Outcome {
    interpret(script, 0, &answers_for(script))
}

fn print(text: &str) -> Action {
    Action::Print(text.to_string())
}

#[test]
fn an_empty_script_asks_for_nothing() {
    assert_eq!(run(""), Outcome { actions: vec![], fatal: None });
}

#[test]
fn empty_lines_ask_for_nothing() {
    assert_eq!(run("\n"), Outcome { actions: vec![], fatal: None });
    assert_eq!(run("\n  \t\n\r\n   "), Outcome { actions: vec![], fatal: None });
    assert_eq!(run("\n\nTXT/ a\n\n").printed(), "a \n");
}

#[test]
fn text_is_printed_word_by_word() {
    let outcome = run("TXT/ hello   world");
    assert_eq!(outcome.actions, vec![print("hello "), print("world "), print("\n")]);
    assert_eq!(outcome.fatal, None);
    assert_eq!(outcome.printed(), "hello world \n");
    assert!(outcome.succeeded());
}

#[test]
fn text_without_arguments_is_a_line_feed() {
    assert_eq!(run("TXT/").actions, vec![print("\n")]);
}

#[test]
fn keywords_are_printed_as_they_are_spelled() {
    assert_eq!(run("txt/ If/ Then = ( ) : fix/").printed(), "If/ Then = ( ) : fix/ \n");
}

#[test]
fn an_assigned_variable_is_shown() {
    let outcome = run("FIX/ name = value\nTXT/ %name%");
    assert_eq!(outcome.actions, vec![print("value "), print("\n")]);
    assert_eq!(outcome.fatal, None);
}

#[test]
fn an_assigned_variable_is_shown_later() {
    let outcome = run("FIX/ name = value\nTXT/ between\n' remark\n\nTXT/ it is %name% !");
    assert_eq!(outcome.printed(), "between \nit is value ! \n");
    assert_eq!(outcome.fatal, None);
}

#[test]
fn the_last_assignment_wins() {
    assert_eq!(run("FIX/ x = 1\nFIX/ x = 2\nTXT/ %x%").printed(), "2 \n");
    assert_eq!(run("FIX/ x = 1\nFIX/ y = 2\nTXT/ %x% %y%").printed(), "1 2 \n");
}

#[test]
fn an_assignment_has_exactly_four_tokens() {
    for line in [
        "FIX/ x = 1 2",
        "FIX/ x =",
        "FIX/ x",
        "FIX/",
        "FIX/ x 1 =",
        "FIX/ = x 1",
        "FIX/ x = =",
        "FIX/ x = TXT/",
        "FIX/ x : 1",
    ] {
        let script = format!("{}\nTXT/ %x%", line);
        let outcome = run(&script);
        assert_eq!(outcome.actions, vec![], "{}", line);
        assert_eq!(
            outcome.fatal,
            Some(Fatal::UndefinedVariable { line: 2, name: "x".to_string() }),
            "{}",
            line
        );
    }
}

#[test]
fn an_assignment_may_take_the_value_of_an_expression() {
    assert_eq!(run("FIX/ x = /C(2 * 21)\nTXT/ %x%").printed(), "42 \n");
}

#[test]
fn a_missing_variable_ends_the_script() {
    let outcome = run("TXT/ %missing%");
    assert_eq!(outcome.actions, vec![]);
    assert_eq!(
        outcome.fatal,
        Some(Fatal::UndefinedVariable { line: 1, name: "missing".to_string() })
    );
    assert!(!outcome.succeeded());
    assert_eq!(outcome.fatal.unwrap().message(), "LINE 1: Variable missing not found !");
}

#[test]
fn a_missing_variable_is_named_with_its_line() {
    let outcome = run("TXT/ first\n\nTXT/ shown %missing% never\nTXT/ never");
    assert_eq!(outcome.actions, vec![print("first "), print("\n"), print("shown ")]);
    assert_eq!(
        outcome.fatal,
        Some(Fatal::UndefinedVariable { line: 3, name: "missing".to_string() })
    );
    assert_eq!(outcome.fatal.unwrap().message(), "LINE 3: Variable missing not found !");
}

#[test]
fn line_numbers_begin_after_the_offset() {
    let script = "TXT/ %missing%";
    let outcome = interpret(script, 41, &answers_for(script));
    assert_eq!(
        outcome.fatal,
        Some(Fatal::UndefinedVariable { line: 42, name: "missing".to_string() })
    );
    let outcome = interpret(script, usize::MAX, &answers_for(script));
    assert_eq!(
        outcome.fatal,
        Some(Fatal::UndefinedVariable { line: usize::MAX as u128 + 1, name: "missing".to_string() })
    );
}

#[test]
fn the_line_feed_is_suppressed() {
    let outcome = run("TXT/ hello /#R\nTXT/ world");
    assert_eq!(outcome.actions, vec![print("hello "), print("world "), print("\n")]);
    assert_eq!(outcome.printed(), "hello world \n");
}

#[test]
fn the_line_feed_is_suppressed_from_anywhere_in_the_line() {
    assert_eq!(run("TXT/ /#R a b").actions, vec![print("a "), print("b ")]);
    assert_eq!(run("TXT/ a /#R b").actions, vec![print("a "), print("b ")]);
    assert_eq!(run("TXT/ /#R").actions, vec![]);
    assert_eq!(run("TXT/ /#r").actions, vec![print("/#r "), print("\n")]);
}

#[test]
fn a_pause_ends_its_line() {
    let outcome = run("TXT/ before \\#PAUSE after\nTXT/ next");
    assert_eq!(
        outcome.actions,
        vec![
            print("before "),
            print("\n"),
            Action::Pause,
            print("\n"),
            print("next "),
            print("\n")
        ]
    );
    assert_eq!(outcome.printed(), "before \n\nnext \n");
}

#[test]
fn a_pause_after_a_suppressed_line_feed() {
    assert_eq!(run("TXT/ /#R \\#PAUSE x").actions, vec![print("\n"), Action::Pause]);
    assert_eq!(
        run("TXT/ \\#PAUSE /#R").actions,
        vec![print("\n"), Action::Pause, print("\n")]
    );
}

#[test]
fn a_percent_sign() {
    assert_eq!(run("TXT/ 100 \\%").actions, vec![print("100 "), print("%"), print("\n")]);
    assert_eq!(run("TXT/ %").actions, vec![print("% "), print("\n")]);
}

#[test]
fn an_empty_name_has_no_value() {
    assert_eq!(
        run("TXT/ %%").fatal,
        Some(Fatal::UndefinedVariable { line: 1, name: "".to_string() })
    );
}

#[test]
fn arithmetic_is_folded() {
    let outcome = run("TXT/ /C(2 + 3)");
    assert_eq!(outcome.actions, vec![print("5 "), print("\n")]);
    assert_eq!(outcome.fatal, None);
}

#[test]
fn arithmetic_knows_precedence() {
    assert_eq!(run("TXT/ /C(2 + 3*4)").printed(), "14 \n");
    assert_eq!(run("TXT/ /C(2 + 3 * 4)").printed(), "14 \n");
    assert_eq!(run("TXT/ /C(2*3 + 4)").printed(), "10 \n");
    assert_eq!(run("TXT/ /C(10 / 4)").printed(), "2.5 \n");
    assert_eq!(run("TXT/ /C(7 - 10)").printed(), "-3 \n");
    assert_eq!(run("TXT/ /C(2 ^ 10)").printed(), "1024 \n");
}

#[test]
fn arithmetic_keeps_the_tokens_around_it() {
    assert_eq!(run("TXT/ sum: /C(1 + 1) done").printed(), "sum: 2 done \n");
    assert_eq!(run("TXT/ a b /C(8) c /#R").printed(), "a b 8 c ");
}

#[test]
fn arithmetic_is_folded_once_in_a_line() {
    assert_eq!(run("TXT/ /C(1 + 1) /C(2 + 2)").printed(), "2 /C(2 + 2) \n");
}

#[test]
fn arithmetic_that_fails_ends_the_script() {
    for line in ["TXT/ /C(2 + )", "TXT/ /C(1 / 0)", "TXT/ /C(x)", "TXT/ /C()", "TXT/ /C((1 + 2) * 3)"] {
        let script = format!("TXT/ before\n{}\nTXT/ after", line);
        let outcome = run(&script);
        assert_eq!(outcome.actions, vec![print("before "), print("\n")], "{}", line);
        assert_eq!(outcome.fatal, Some(Fatal::Evaluation { line: 2 }), "{}", line);
    }
    assert_eq!(
        Fatal::Evaluation { line: 2 }.message(),
        "LINE 2: Failed to evaluate expression"
    );
}

#[test]
fn an_open_run_ends_the_script() {
    let outcome = run("TXT/ /C(2 + 3");
    assert_eq!(outcome.actions, vec![]);
    assert_eq!(outcome.fatal, Some(Fatal::Evaluation { line: 1 }));
    let outcome = run("' remark /C(");
    assert_eq!(outcome.fatal, Some(Fatal::Evaluation { line: 1 }));
}

#[test]
fn the_answers_are_taken_as_given() {
    let script = "TXT/ /C(2 + 3)\nTXT/ /C(1)";
    let outcome = interpret(script, 0, &vec![Some("five".to_string()), Some("one".to_string())]);
    assert_eq!(outcome.printed(), "five \none \n");
    let outcome = interpret(script, 0, &vec![Some("five".to_string())]);
    assert_eq!(outcome.printed(), "five \n");
    assert_eq!(outcome.fatal, Some(Fatal::Evaluation { line: 2 }));
    let outcome = interpret(script, 0, &vec![None, Some("one".to_string())]);
    assert_eq!(outcome.actions, vec![]);
    assert_eq!(outcome.fatal, Some(Fatal::Evaluation { line: 1 }));
}

#[test]
fn answers_for_lines_without_arithmetic_are_not_used() {
    let outcome = interpret("TXT/ a\nTXT/ b", 0, &vec![Some("x".to_string()), None]);
    assert_eq!(outcome.printed(), "a \nb \n");
    assert_eq!(outcome.fatal, None);
}

#[test]
fn the_expressions_of_a_script() {
    assert_eq!(
        expressions("TXT/ /C(2 + 3)\n\nTXT/ none\nFIX/ x = /C(pi)\nTXT/ /C(1 +"),
        vec![Some("2+3".to_string()), None, None, Some("PI".to_string()), None]
    );
    assert_eq!(expressions(""), Vec::<Option<String>>::new());
}

#[test]
fn a_stray_endif_is_reported() {
    let outcome = run("ENDIF/\nTXT/ after");
    assert_eq!(
        outcome.actions,
        vec![print("LINE 1: Not in a if statement !\n"), print("after "), print("\n")]
    );
    assert_eq!(outcome.fatal, None);
}

#[test]
fn a_stray_endif_is_named_with_its_line() {
    let script = "TXT/ a\n\nendif/";
    assert_eq!(run(script).printed(), "a \nLINE 3: Not in a if statement !\n");
    let outcome = interpret(script, 10, &answers_for(script));
    assert_eq!(outcome.printed(), "a \nLINE 13: Not in a if statement !\n");
    assert_eq!(outcome.fatal, None);
}

#[test]
fn the_labels_of_the_branches() {
    assert_eq!(run("THEN\nTHEN:\nELSE/").printed(), "Then\nThen\nElse\n");
    assert_eq!(run("then whatever follows").actions, vec![print("Then\n")]);
}

#[test]
fn a_block_runs_at_its_endif() {
    let outcome = run("TXT/ a\nIF/ x\nTXT/ b\nTXT/ c\nENDIF/\nTXT/ d");
    assert_eq!(outcome.printed(), "a \nIf\nb \nc \nd \n");
    assert_eq!(outcome.fatal, None);
}

#[test]
fn what_a_block_assigns_is_gone_after_it() {
    let outcome = run("FIX/ x = 1\nIF/ c\nFIX/ y = 2\nTXT/ %y%\nENDIF/\nTXT/ %x%\nTXT/ %y%");
    assert_eq!(outcome.printed(), "If\n2 \n1 \n");
    assert_eq!(outcome.fatal, Some(Fatal::UndefinedVariable { line: 7, name: "y".to_string() }));
}

#[test]
fn a_block_does_not_change_a_variable_outside() {
    let outcome = run("FIX/ x = 1\nIF/\nFIX/ x = 2\nTXT/ %x%\nENDIF/\nTXT/ %x%");
    assert_eq!(outcome.printed(), "If\n2 \n1 \n");
    assert_eq!(outcome.fatal, None);
}

#[test]
fn a_block_begins_without_variables() {
    let outcome = run("FIX/ x = 1\nIF/\nTXT/ in\nTXT/ %x%\nENDIF/\nTXT/ out");
    assert_eq!(outcome.printed(), "If\nin \n");
    assert_eq!(outcome.fatal, Some(Fatal::UndefinedVariable { line: 4, name: "x".to_string() }));
}

#[test]
fn blocks_inside_blocks() {
    let script = "IF/ a\nTXT/ 1\nIF/ b\nTXT/ 2\nENDIF/\nTXT/ 3\nENDIF/\nTXT/ 4\nENDIF/";
    let outcome = run(script);
    assert_eq!(
        outcome.printed(),
        "If\n1 \nIf\n2 \n3 \n4 \nLINE 9: Not in a if statement !\n"
    );
    assert_eq!(outcome.fatal, None);
}

#[test]
fn lines_inside_blocks_keep_their_numbers() {
    let script = "TXT/ a\nIF/ a\n\nIF/ b\nTXT/ x\nTXT/ %deep%\nENDIF/\nENDIF/";
    let outcome = run(script);
    assert_eq!(outcome.printed(), "a \nIf\nIf\nx \n");
    assert_eq!(
        outcome.fatal,
        Some(Fatal::UndefinedVariable { line: 6, name: "deep".to_string() })
    );
    let outcome = interpret(script, 100, &answers_for(script));
    assert_eq!(
        outcome.fatal,
        Some(Fatal::UndefinedVariable { line: 106, name: "deep".to_string() })
    );
}

#[test]
fn arithmetic_inside_blocks() {
    let script = "IF/ a\nTXT/ /C(1 + 1)\nIF/ b\nTXT/ /C(2 + 2)\nENDIF/\nENDIF/\nTXT/ /C(3 + 3)";
    assert_eq!(run(script).printed(), "If\n2 \nIf\n4 \n6 \n");
    let script = "IF/ a\nIF/ b\nTXT/ /C(2 + )\nENDIF/\nENDIF/\nTXT/ after";
    let outcome = run(script);
    assert_eq!(outcome.printed(), "If\nIf\n");
    assert_eq!(outcome.fatal, Some(Fatal::Evaluation { line: 3 }));
}

#[test]
fn a_block_that_nothing_closes_never_runs() {
    let outcome = run("TXT/ a\nIF/ x\nTXT/ b\nTXT/ %missing%\nTXT/ /C(");
    assert_eq!(outcome.printed(), "a \nIf\n");
    assert_eq!(outcome.fatal, None);
    let outcome = run("IF/ a\nIF/ b\nTXT/ x\nENDIF/");
    assert_eq!(outcome.printed(), "If\n");
    assert_eq!(outcome.fatal, None);
}

#[test]
fn an_empty_block() {
    assert_eq!(run("IF/ a\nENDIF/\nTXT/ b").printed(), "If\nb \n");
}

#[test]
fn clearing_the_screen() {
    assert_eq!(
        run("TXT/ a\nCLS/\nTXT/ b").actions,
        vec![print("a "), print("\n"), Action::ClearScreen, print("b "), print("\n")]
    );
    assert_eq!(run("cls/ ignored words").actions, vec![Action::ClearScreen]);
}

#[test]
fn remarks_ask_for_nothing() {
    assert_eq!(run("REM/ a remark\n' another\n// and one more").actions, vec![]);
}

#[test]
fn other_lines_are_syntax_errors() {
    for line in ["hello", "= x", ": x", "( x", ") x", "/C(1 + 1) x", "%x%", "TXT hello"] {
        let script = format!("{}\nTXT/ after", line);
        let outcome = run(&script);
        assert_eq!(outcome.printed(), "Syntax error !\nafter \n", "{}", line);
        assert_eq!(outcome.fatal, None, "{}", line);
    }
}

#[test]
fn the_printed_text_leaves_out_what_is_not_printed() {
    let outcome = Outcome {
        actions: vec![print("a"), Action::Pause, print("b"), Action::ClearScreen, print("")],
        fatal: None,
    };
    assert_eq!(outcome.printed(), "ab");
    assert_eq!(Outcome { actions: vec![], fatal: None }.printed(), "");
}

#[test]
fn the_messages_of_the_errors() {
    assert_eq!(
        Fatal::Evaluation { line: 120 }.message(),
        "LINE 120: Failed to evaluate expression"
    );
    assert_eq!(
        Fatal::UndefinedVariable { line: 7, name: "größe".to_string() }.message(),
        "LINE 7: Variable größe not found !"
    );
    assert_eq!(
        Fatal::UndefinedVariable { line: 0, name: "".to_string() }.message(),
        "LINE 0: Variable  not found !"
    );
}
