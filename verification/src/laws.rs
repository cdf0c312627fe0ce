//! What holds of the tokenizer and of the interpreter on every input.

use crate::interpreter::{
    answer_at, answers_between, block_len, dispatch, failed, fatal_message, folded, followed,
    is_assignment, refers, run, run_from, shown, silent, stray_endif, ActionView, FatalView,
    OutcomeView, Vars,
};
use crate::parser::{
    enclosed, has_math, has_shape, joined_backwards, keyword, kinds, position_of, retrieved,
    spaced_backwards, spliced, token_of, tokens_of, trailing_len, TokenView, Type,
};
use crate::text::{decimal, is_space, space_len, uppercase_of, words_of};
use vstd::prelude::*;

verus! {

/// A text of white space only has no words.
pub proof fn law_blank_text_has_no_words(text: Seq<char>)
    requires
        forall|i: int| 0 <= i < text.len() ==> is_space(#[trigger] text[i]),
    ensures
        words_of(text) == Seq::<Seq<char>>::empty(),
        tokens_of(words_of(text)) == Seq::<TokenView>::empty(),
{
    lemma_spaces_to_the_end(text, 0);
    assert(tokens_of(Seq::<Seq<char>>::empty()) =~= Seq::<TokenView>::empty());
}

proof fn lemma_spaces_to_the_end(text: Seq<char>, from: int)
    requires
        0 <= from <= text.len(),
        forall|i: int| 0 <= i < text.len() ==> is_space(#[trigger] text[i]),
    ensures
        from + space_len(text, from) == text.len(),
    decreases text.len() - from,
{
    if from < text.len() {
        lemma_spaces_to_the_end(text, from + 1);
    }
}

/// An empty line has no tokens, and a script that is one empty line asks
/// for nothing.
pub proof fn law_empty_line_is_silent(answers: Seq<Option<Seq<char>>>, offset: nat)
    ensures
        tokens_of(words_of(Seq::<char>::empty())) == Seq::<TokenView>::empty(),
        run(seq![Seq::<char>::empty()], answers, offset) == silent(),
{
    law_blank_text_has_no_words(Seq::<char>::empty());
    let lines = seq![Seq::<char>::empty()];
    assert(run_from(lines, answers, offset, 1, Map::empty()) == silent());
}

/// A line without words changes nothing: the script goes on after it as if
/// the line were not there.
pub proof fn law_line_without_words_is_skipped(
    lines: Seq<Seq<char>>,
    answers: Seq<Option<Seq<char>>>,
    offset: nat,
    pos: int,
    vars: Vars,
)
    requires
        0 <= pos < lines.len(),
        words_of(lines[pos]).len() == 0,
    ensures
        run_from(lines, answers, offset, pos, vars) == run_from(
            lines,
            answers,
            offset,
            pos + 1,
            vars,
        ),
{
}

/// Keywords are told by the upper-case form of a word alone: two words
/// with the same upper-case form, where that form is a keyword, have the
/// same class.
pub proof fn law_keyword_by_upper_case(first: Seq<char>, second: Seq<char>)
    requires
        uppercase_of(first) == uppercase_of(second),
        keyword(uppercase_of(first)) is Some,
    ensures
        token_of(first).kind == token_of(second).kind,
        token_of(first).kind == keyword(uppercase_of(first))->0,
{
}

/// A word whose upper-case form is `CLS/` is a `CLS`, however it is
/// spelled.
pub proof fn law_cls_in_any_case(word: Seq<char>)
    requires
        uppercase_of(word) == "CLS/"@,
    ensures
        token_of(word).kind == Type::CLS,
{
    reveal_strlit("CLS/");
    reveal_strlit("REM/");
    reveal_strlit("'");
    reveal_strlit("//");
    let upper = uppercase_of(word);
    assert(upper.len() == 4 && upper[0] == 'C');
    assert("REM/"@[0] == 'R');
}

/// Every token keeps the text of its word, and a line has one token for
/// each word.
pub proof fn law_tokens_keep_words(words: Seq<Seq<char>>)
    ensures
        tokens_of(words).len() == words.len(),
        forall|i: int| 0 <= i < words.len() ==> (#[trigger] tokens_of(words)[i]).text == words[i],
{
}

/// The reference to the variable `name`.
pub open spec fn reference_to(name: Seq<char>) -> Seq<char> {
    seq!['%'] + name + seq!['%']
}

/// `reference_to(name)` is a reference, it encloses `name`, and it is none
/// of the texts with a meaning of their own.
pub proof fn lemma_reference(name: Seq<char>)
    ensures
        refers(reference_to(name)),
        enclosed(reference_to(name)) == name,
        reference_to(name) != "/#R"@,
        reference_to(name) != "\\#PAUSE"@,
        reference_to(name) != "\\%"@,
{
    reveal_strlit("/#R");
    reveal_strlit("\\#PAUSE");
    reveal_strlit("\\%");
    let text = reference_to(name);
    assert(text[0] == '%');
    assert(text.last() == '%');
    assert(enclosed(text) =~= name);
    assert("/#R"@[0] == '/');
    assert("\\#PAUSE"@[0] == '\\');
    assert("\\%"@[0] == '\\');
}

/// An assignment gives the variable its value and asks for nothing: after
/// `FIX/ name = value` the variable `name` holds `value`, whatever it held
/// before, and no other variable has changed.
pub proof fn law_assignment(tokens: Seq<TokenView>, vars: Vars, line: nat)
    requires
        is_assignment(tokens),
    ensures
        dispatch(tokens, vars, line).outcome == silent(),
        dispatch(tokens, vars, line).vars == vars.insert(tokens[1].text, tokens[3].text),
        dispatch(tokens, vars, line).vars[tokens[1].text] == tokens[3].text,
{
}

/// A `FIX` line of any other shape changes nothing and asks for nothing.
pub proof fn law_other_fix_is_ignored(tokens: Seq<TokenView>, vars: Vars, line: nat)
    requires
        tokens.len() > 0,
        tokens[0].kind == Type::FIX,
        !is_assignment(tokens),
    ensures
        dispatch(tokens, vars, line).outcome == silent(),
        dispatch(tokens, vars, line).vars == vars,
{
}

/// Only an assignment changes the variables: after any other line they are
/// what they were before it.
pub proof fn law_only_assignments_change_variables(tokens: Seq<TokenView>, vars: Vars, line: nat)
    requires
        tokens.len() > 0,
        !is_assignment(tokens),
    ensures
        dispatch(tokens, vars, line).vars == vars,
{
}

/// A `TXT` line that refers to a variable with a value prints the value,
/// a space, and a line feed.
pub proof fn law_value_is_shown(
    first: TokenView,
    kind: Type,
    name: Seq<char>,
    vars: Vars,
    line: nat,
)
    requires
        first.kind == Type::TXT,
        vars.contains_key(name),
    ensures
        dispatch(seq![first, TokenView { kind, text: reference_to(name) }], vars, line).outcome
            == (OutcomeView {
            actions: seq![ActionView::Print(vars[name] + " "@), ActionView::Print("\n"@)],
            fatal: None,
        }),
{
    lemma_reference(name);
    let tokens = seq![first, TokenView { kind, text: reference_to(name) }];
    let end = shown(tokens, 2, vars, line, true);
    assert(end.actions == seq![ActionView::Print("\n"@)]);
    let all = shown(tokens, 1, vars, line, true);
    assert(all == followed(seq![ActionView::Print(vars[name] + " "@)], end));
    assert(all.actions =~= seq![ActionView::Print(vars[name] + " "@), ActionView::Print("\n"@)]);
}

/// A variable that was assigned is shown with the value it was given:
/// after `FIX/ name = value`, a line `TXT/ %name%` prints `value`, a
/// space, and a line feed.
pub proof fn law_assigned_value_is_shown(
    assignment: Seq<TokenView>,
    first: TokenView,
    kind: Type,
    vars: Vars,
    line: nat,
    later: nat,
)
    requires
        is_assignment(assignment),
        first.kind == Type::TXT,
    ensures
        dispatch(
            seq![first, TokenView { kind, text: reference_to(assignment[1].text) }],
            dispatch(assignment, vars, line).vars,
            later,
        ).outcome == (OutcomeView {
            actions: seq![
                ActionView::Print(assignment[3].text + " "@),
                ActionView::Print("\n"@),
            ],
            fatal: None,
        }),
{
    law_assignment(assignment, vars, line);
    law_value_is_shown(
        first,
        kind,
        assignment[1].text,
        dispatch(assignment, vars, line).vars,
        later,
    );
}

/// In a script, too: where the line at `pos` is an assignment and the next
/// line is `TXT` with a reference to the assigned name, the two lines
/// print the assigned value, a space and a line feed, and the script goes
/// on with the variable assigned.
pub proof fn law_assignment_then_reference(
    lines: Seq<Seq<char>>,
    answers: Seq<Option<Seq<char>>>,
    offset: nat,
    pos: int,
    vars: Vars,
)
    requires
        0 <= pos,
        pos + 1 < lines.len(),
        is_assignment(tokens_of(words_of(lines[pos]))),
        tokens_of(words_of(lines[pos + 1])).len() == 2,
        tokens_of(words_of(lines[pos + 1]))[0].kind == Type::TXT,
        tokens_of(words_of(lines[pos + 1]))[1].kind == Type::ARG,
        tokens_of(words_of(lines[pos + 1]))[1].text == reference_to(
            tokens_of(words_of(lines[pos]))[1].text,
        ),
    ensures
        ({
            let assignment = tokens_of(words_of(lines[pos]));
            run_from(lines, answers, offset, pos, vars) == followed(
                seq![
                    ActionView::Print(assignment[3].text + " "@),
                    ActionView::Print("\n"@),
                ],
                run_from(
                    lines,
                    answers,
                    offset,
                    pos + 2,
                    vars.insert(assignment[1].text, assignment[3].text),
                ),
            )
        }),
{
    let assignment = tokens_of(words_of(lines[pos]));
    let showing = tokens_of(words_of(lines[pos + 1]));
    let assigned = vars.insert(assignment[1].text, assignment[3].text);
    let line = (offset + pos + 1) as nat;
    let later = (offset + pos + 2) as nat;
    assert(!has_math(assignment));
    assert(!has_math(showing));
    assert(folded(assignment, answer_at(answers, pos)) == Some(assignment));
    assert(folded(showing, answer_at(answers, pos + 1)) == Some(showing));
    law_assignment(assignment, vars, line);
    law_value_is_shown(showing[0], Type::ARG, assignment[1].text, assigned, later);
    assert(showing =~= seq![
        showing[0],
        TokenView { kind: Type::ARG, text: reference_to(assignment[1].text) },
    ]);
    let printed = seq![
        ActionView::Print(assignment[3].text + " "@),
        ActionView::Print("\n"@),
    ];
    let rest = run_from(lines, answers, offset, pos + 2, assigned);
    let second = run_from(lines, answers, offset, pos + 1, assigned);
    assert(dispatch(showing, assigned, later).vars == assigned);
    assert(second == followed(printed, rest));
    assert(run_from(lines, answers, offset, pos, vars) == followed(Seq::empty(), second));
    assert(Seq::<ActionView>::empty() + second.actions =~= second.actions);
}

/// A `TXT` line that refers to a variable without a value ends the script
/// with an error that names the variable and the line, and prints nothing
/// for the reference.
pub proof fn law_missing_variable_is_fatal(
    first: TokenView,
    kind: Type,
    name: Seq<char>,
    vars: Vars,
    line: nat,
)
    requires
        first.kind == Type::TXT,
        !vars.contains_key(name),
    ensures
        dispatch(seq![first, TokenView { kind, text: reference_to(name) }], vars, line).outcome
            == failed(FatalView::UndefinedVariable { line, name }),
        fatal_message(FatalView::UndefinedVariable { line, name }) == "LINE "@ + decimal(line)
            + ": "@ + "Variable "@ + name + " not found !"@,
{
    lemma_reference(name);
}

/// A line whose outcome is fatal is the last one that runs: the script
/// comes to what the line came to, and the error carries the number of the
/// line, its index in the script after the offset and one.
pub proof fn law_fatal_line_ends_the_script(
    lines: Seq<Seq<char>>,
    answers: Seq<Option<Seq<char>>>,
    offset: nat,
    pos: int,
    vars: Vars,
)
    requires
        0 <= pos < lines.len(),
        tokens_of(words_of(lines[pos])).len() > 0,
    ensures
        ({
            let tokens = tokens_of(words_of(lines[pos]));
            let line = (offset + pos + 1) as nat;
            match folded(tokens, answer_at(answers, pos)) {
                None => run_from(lines, answers, offset, pos, vars) == failed(
                    FatalView::Evaluation { line },
                ),
                Some(line_tokens) => dispatch(line_tokens, vars, line).outcome.fatal is Some
                    ==> run_from(lines, answers, offset, pos, vars) == dispatch(
                    line_tokens,
                    vars,
                    line,
                ).outcome,
            }
        }),
{
}

/// Whether the tokens from index `from` on are shown to the end of the
/// line: none of them is `/#R` or `\#PAUSE`, and every variable they refer
/// to has a value.
pub open spec fn shown_through(tokens: Seq<TokenView>, from: int, vars: Vars) -> bool {
    forall|i: int|
        from <= i < tokens.len() ==> {
            let text = (#[trigger] tokens[i]).text;
            &&& text != "/#R"@
            &&& text != "\\#PAUSE"@
            &&& (text != "\\%"@ && refers(text) ==> vars.contains_key(enclosed(text)))
        }
}

/// `/#R` suppresses the line feed of its line and nothing else: a `TXT`
/// line that is shown to its end prints, with `/#R` after it, what it
/// prints without, less the line feed at the end.
pub proof fn law_suppressed_line_feed(
    tokens: Seq<TokenView>,
    kind: Type,
    vars: Vars,
    line: nat,
)
    requires
        tokens.len() >= 1,
        shown_through(tokens, 1, vars),
    ensures
        shown(tokens, 1, vars, line, true).fatal is None,
        shown(tokens.push(TokenView { kind, text: "/#R"@ }), 1, vars, line, true).fatal is None,
        shown(tokens, 1, vars, line, true).actions == shown(
            tokens.push(TokenView { kind, text: "/#R"@ }),
            1,
            vars,
            line,
            true,
        ).actions + seq![ActionView::Print("\n"@)],
{
    lemma_suppressed_from(tokens, kind, 1, vars, line, true);
}

proof fn lemma_suppressed_from(
    tokens: Seq<TokenView>,
    kind: Type,
    from: int,
    vars: Vars,
    line: nat,
    newline: bool,
)
    requires
        0 <= from <= tokens.len(),
        shown_through(tokens, from, vars),
    ensures
        shown(tokens, from, vars, line, true).fatal is None,
        shown(tokens.push(TokenView { kind, text: "/#R"@ }), from, vars, line, newline).fatal
            is None,
        shown(tokens, from, vars, line, true).actions == shown(
            tokens.push(TokenView { kind, text: "/#R"@ }),
            from,
            vars,
            line,
            newline,
        ).actions + seq![ActionView::Print("\n"@)],
    decreases tokens.len() - from,
{
    let longer = tokens.push(TokenView { kind, text: "/#R"@ });
    let feed = seq![ActionView::Print("\n"@)];
    if from == tokens.len() {
        assert(longer[from].text == "/#R"@);
        assert(shown(longer, from + 1, vars, line, false).actions == Seq::<ActionView>::empty());
        assert(shown(longer, from, vars, line, newline) == shown(
            longer,
            from + 1,
            vars,
            line,
            false,
        ));
        assert(Seq::<ActionView>::empty() + feed =~= feed);
    } else {
        lemma_suppressed_from(tokens, kind, from + 1, vars, line, newline);
        let text = tokens[from].text;
        assert(longer[from] == tokens[from]);
        let short_rest = shown(tokens, from + 1, vars, line, true);
        let long_rest = shown(longer, from + 1, vars, line, newline);
        let head = if text == "\\%"@ {
            seq![ActionView::Print("%"@)]
        } else if refers(text) {
            seq![ActionView::Print(vars[enclosed(text)] + " "@)]
        } else {
            seq![ActionView::Print(text + " "@)]
        };
        assert(shown(tokens, from, vars, line, true) == followed(head, short_rest));
        assert(shown(longer, from, vars, line, newline) == followed(head, long_rest));
        assert(head + (long_rest.actions + feed) =~= (head + long_rest.actions) + feed);
    }
}

/// Folding leaves the tokens outside the run as they were: those before it
/// keep their places, one argument with the value stands where the run
/// began, and those after the run follow it in their order.
pub proof fn law_fold_keeps_other_tokens(
    tokens: Seq<TokenView>,
    start: int,
    end: int,
    value: Seq<char>,
)
    requires
        0 <= start <= end < tokens.len(),
    ensures
        spliced(tokens, start, end, value).len() == tokens.len() - (end - start),
        forall|i: int| 0 <= i < start ==> spliced(tokens, start, end, value)[i] == tokens[i],
        spliced(tokens, start, end, value)[start] == (TokenView { kind: Type::ARG, text: value }),
        forall|i: int|
            end < i < tokens.len() ==> spliced(tokens, start, end, value)[i - (end - start)]
                == tokens[i],
{
}

/// An `ENDIF` that closes nothing prints its diagnostic, which names the
/// line, and the script goes on with the next line and the same variables.
pub proof fn law_stray_endif_goes_on(
    lines: Seq<Seq<char>>,
    answers: Seq<Option<Seq<char>>>,
    offset: nat,
    pos: int,
    vars: Vars,
)
    requires
        0 <= pos < lines.len(),
        folded(tokens_of(words_of(lines[pos])), answer_at(answers, pos)) is Some,
        tokens_of(words_of(lines[pos])).len() > 0,
        folded(tokens_of(words_of(lines[pos])), answer_at(answers, pos))->0[0].kind == Type::ENDIF,
    ensures
        run_from(lines, answers, offset, pos, vars) == followed(
            seq![ActionView::Print(stray_endif((offset + pos + 1) as nat))],
            run_from(lines, answers, offset, pos + 1, vars),
        ),
        stray_endif((offset + pos + 1) as nat) == "LINE "@ + decimal((offset + pos + 1) as nat)
            + ": "@ + "Not in a if statement !\n"@,
{
}

/// What is assigned inside a block is gone after it. A block that is
/// closed runs as a script of its own, with no variables to begin with,
/// and the script goes on after the `ENDIF` with the variables that were
/// in force at the `IF`.
pub proof fn law_block_keeps_its_variables(
    lines: Seq<Seq<char>>,
    answers: Seq<Option<Seq<char>>>,
    offset: nat,
    pos: int,
    vars: Vars,
)
    requires
        0 <= pos < lines.len(),
        folded(tokens_of(words_of(lines[pos])), answer_at(answers, pos)) is Some,
        tokens_of(words_of(lines[pos])).len() > 0,
        folded(tokens_of(words_of(lines[pos])), answer_at(answers, pos))->0[0].kind == Type::IF,
        pos + 1 + block_len(lines, pos + 1, 0) < lines.len(),
    ensures
        ({
            let end = pos + 1 + block_len(lines, pos + 1, 0);
            let inner = run(
                lines.subrange(pos + 1, end),
                answers_between(answers, pos + 1, end),
                (offset + pos + 1) as nat,
            );
            run_from(lines, answers, offset, pos, vars) == if inner.fatal is Some {
                followed(seq![ActionView::Print("If\n"@)], inner)
            } else {
                followed(
                    seq![ActionView::Print("If\n"@)] + inner.actions,
                    run_from(lines, answers, offset, end + 1, vars),
                )
            }
        }),
{
}

/// In an assignment, the shape and the two retrievals agree with the
/// places of the tokens: the line follows the shape `FIX`, `ARG`, `EQ`,
/// `ARG`, the first argument is the name, and the run of arguments at the
/// end is the value.
pub proof fn law_assignment_parts(tokens: Seq<TokenView>)
    requires
        is_assignment(tokens),
    ensures
        has_shape(kinds(tokens), seq![Type::FIX, Type::ARG, Type::EQ, Type::ARG]),
        retrieved(tokens, Type::ARG, 0) == Some(tokens[1]),
        retrieved(tokens, Type::ARG, -1) == Some(
            TokenView { kind: Type::ARG, text: tokens[3].text },
        ),
{
    reveal_with_fuel(position_of, 3);
    reveal_with_fuel(trailing_len, 3);
    reveal_with_fuel(spaced_backwards, 3);
    assert(tokens.drop_last().last() == tokens[2]);
    assert(trailing_len(tokens, Type::ARG) == 1);
    assert(spaced_backwards(tokens, 1) == tokens[3].text + seq![' '] + Seq::<char>::empty());
    assert(joined_backwards(tokens, 1) =~= tokens[3].text);
}

} // verus!
