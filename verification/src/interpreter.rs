//! The line interpreter: what a script asks for, line by line, as a value.
//!
//! Nothing here prints, reads or evaluates arithmetic. A script is turned
//! into the sequence of actions that it asks for and the fatal error that
//! ended it, if one did; whoever runs the script performs the actions in
//! order. The values of arithmetic expressions are handed in: `expressions`
//! says which expression each line holds, and `interpret` takes an answer
//! for each line.

use crate::parser::{
    enclosed, has_math, is_reference, line_expression, math_run, spliced, tokenize_line,
    tokens_of, views, HasMathOperator, Token, TokenView, Type,
};
use crate::text::{
    chars_of, decimal, lines_of, push_decimal, spells, split_lines, text_between, texts, words_of,
};
use vstd::hash_map::StringHashMap;
use vstd::prelude::*;
use vstd::string::StringExecFns;

verus! {

/// Something that a script asks of whoever runs it.
#[derive(Debug, Clone, PartialEq, Eq)]
pub enum Action {
    /// Write the text to the standard output, as it is.
    Print(String),
    /// Wait for one line of input and discard it.
    Pause,
    /// Clear the terminal.
    ClearScreen,
}

/// An error that ends a script.
#[derive(Debug, Clone, PartialEq, Eq)]
pub enum Fatal {
    /// The arithmetic of the line could not be folded.
    Evaluation { line: u128 },
    /// The line shows a variable that has no value.
    UndefinedVariable { line: u128, name: String },
}

/// What a script came to: the actions it asks for, in order, and the error
/// that ended it, if one did.
#[derive(Debug, Clone, PartialEq, Eq)]
pub struct Outcome {
    pub actions: Vec<Action>,
    pub fatal: Option<Fatal>,
}

/// What an action is to the contracts.
pub enum ActionView {
    Print(Seq<char>),
    Pause,
    ClearScreen,
}

/// What an error is to the contracts.
pub enum FatalView {
    Evaluation { line: nat },
    UndefinedVariable { line: nat, name: Seq<char> },
}

/// What an outcome is to the contracts.
pub struct OutcomeView {
    pub actions: Seq<ActionView>,
    pub fatal: Option<FatalView>,
}

impl View for Action {
    type V = ActionView;

    open spec fn view(&self) -> ActionView {
        match *self {
            Action::Print(text) => ActionView::Print(text@),
            Action::Pause => ActionView::Pause,
            Action::ClearScreen => ActionView::ClearScreen,
        }
    }
}

impl View for Fatal {
    type V = FatalView;

    open spec fn view(&self) -> FatalView {
        match *self {
            Fatal::Evaluation { line } => FatalView::Evaluation { line: line as nat },
            Fatal::UndefinedVariable { line, name } => FatalView::UndefinedVariable {
                line: line as nat,
                name: name@,
            },
        }
    }
}

impl View for Outcome {
    type V = OutcomeView;

    open spec fn view(&self) -> OutcomeView {
        OutcomeView { actions: acts(self.actions@), fatal: fatal_view(self.fatal) }
    }
}

/// The views of a sequence of actions.
pub open spec fn acts(actions: Seq<Action>) -> Seq<ActionView> {
    Seq::new(actions.len(), |i: int| actions[i]@)
}

/// The view of an error, where there is one.
pub open spec fn fatal_view(fatal: Option<Fatal>) -> Option<FatalView> {
    match fatal {
        Some(error) => Some(error@),
        None => None,
    }
}

/// The values of the variables, by name.
pub type Vars = Map<Seq<char>, Seq<char>>;

/// The variables that a table holds.
pub open spec fn scope(table: Map<Seq<char>, String>) -> Vars {
    table.map_values(|value: String| value@)
}

/// The views of a sequence of answers.
pub open spec fn answer_views(answers: Seq<Option<String>>) -> Seq<Option<Seq<char>>> {
    Seq::new(
        answers.len(),
        |i: int|
            match answers[i] {
                Some(text) => Some(text@),
                None => None,
            },
    )
}

/// The answer for the line at index `i`; `None` where none was given.
pub open spec fn answer_at(answers: Seq<Option<Seq<char>>>, i: int) -> Option<Seq<char>> {
    if 0 <= i < answers.len() {
        answers[i]
    } else {
        None
    }
}

/// The answers for the lines from index `from` up to, not including,
/// index `to`.
pub open spec fn answers_between(answers: Seq<Option<Seq<char>>>, from: int, to: int) -> Seq<
    Option<Seq<char>>,
> {
    Seq::new((to - from) as nat, |k: int| answer_at(answers, from + k))
}

/// An outcome that begins with `actions` and goes on as `rest`.
pub open spec fn followed(actions: Seq<ActionView>, rest: OutcomeView) -> OutcomeView {
    OutcomeView { actions: actions + rest.actions, fatal: rest.fatal }
}

/// The outcome of printing one text.
pub open spec fn says(text: Seq<char>) -> OutcomeView {
    OutcomeView { actions: seq![ActionView::Print(text)], fatal: None }
}

/// The outcome that asks for nothing.
pub open spec fn silent() -> OutcomeView {
    OutcomeView { actions: Seq::empty(), fatal: None }
}

/// The outcome that is the error `fatal` and nothing before it.
pub open spec fn failed(fatal: FatalView) -> OutcomeView {
    OutcomeView { actions: Seq::empty(), fatal: Some(fatal) }
}

/// How a diagnostic names its line.
pub open spec fn line_label(line: nat) -> Seq<char> {
    "LINE "@ + decimal(line) + ": "@
}

/// The message of a fatal error.
pub open spec fn fatal_message(fatal: FatalView) -> Seq<char> {
    match fatal {
        FatalView::Evaluation { line } => line_label(line) + "Failed to evaluate expression"@,
        FatalView::UndefinedVariable { line, name } => line_label(line) + "Variable "@ + name
            + " not found !"@,
    }
}

/// The line that is printed for an `ENDIF` that closes nothing.
pub open spec fn stray_endif(line: nat) -> Seq<char> {
    line_label(line) + "Not in a if statement !\n"@
}

/// The end of a shown line: a line feed, unless it was suppressed.
pub open spec fn line_end(newline: bool) -> Seq<ActionView> {
    if newline {
        seq![ActionView::Print("\n"@)]
    } else {
        Seq::empty()
    }
}

/// Whether a text is a reference to a variable: at least two characters,
/// the first and the last a percent sign.
pub open spec fn refers(text: Seq<char>) -> bool {
    text.len() >= 2 && is_reference(text)
}

/// What a `TXT` line shows from its token at index `from` on. `newline`
/// says whether the line will end with a line feed as things stand.
///
/// - `/#R` shows nothing and suppresses the line feed;
/// - `\#PAUSE` prints a line feed, pauses, and ends the line at once;
/// - `\%` prints a percent sign;
/// - a reference to a variable prints the variable's value and a space, or
///   ends the script where the variable has no value;
/// - any other text is printed with a space after it.
pub open spec fn shown(
    tokens: Seq<TokenView>,
    from: int,
    vars: Vars,
    line: nat,
    newline: bool,
) -> OutcomeView
    decreases tokens.len() - from,
{
    if from < 0 || from >= tokens.len() {
        OutcomeView { actions: line_end(newline), fatal: None }
    } else {
        let text = tokens[from].text;
        if text == "/#R"@ {
            shown(tokens, from + 1, vars, line, false)
        } else if text == "\\#PAUSE"@ {
            OutcomeView {
                actions: seq![ActionView::Print("\n"@), ActionView::Pause] + line_end(newline),
                fatal: None,
            }
        } else if text == "\\%"@ {
            followed(seq![ActionView::Print("%"@)], shown(tokens, from + 1, vars, line, newline))
        } else if refers(text) {
            if vars.contains_key(enclosed(text)) {
                followed(
                    seq![ActionView::Print(vars[enclosed(text)] + " "@)],
                    shown(tokens, from + 1, vars, line, newline),
                )
            } else {
                failed(FatalView::UndefinedVariable { line, name: enclosed(text) })
            }
        } else {
            followed(
                seq![ActionView::Print(text + " "@)],
                shown(tokens, from + 1, vars, line, newline),
            )
        }
    }
}

/// Whether a line is an assignment: exactly the four tokens `FIX`, an
/// argument, `EQ`, an argument.
pub open spec fn is_assignment(tokens: Seq<TokenView>) -> bool {
    &&& tokens.len() == 4
    &&& tokens[0].kind == Type::FIX
    &&& tokens[1].kind == Type::ARG
    &&& tokens[2].kind == Type::EQ
    &&& tokens[3].kind == Type::ARG
}

/// What one line does: what it asks for, and the variables after it.
pub struct LineEffect {
    pub outcome: OutcomeView,
    pub vars: Vars,
}

/// What a line of at least one token does, by the class of its first
/// token, when it stands outside any block. `line` is the number by which
/// diagnostics name the line.
pub open spec fn dispatch(tokens: Seq<TokenView>, vars: Vars, line: nat) -> LineEffect {
    match tokens[0].kind {
        Type::TXT => LineEffect { outcome: shown(tokens, 1, vars, line, true), vars },
        Type::IF => LineEffect { outcome: says("If\n"@), vars },
        Type::THEN | Type::THENCOLON => LineEffect { outcome: says("Then\n"@), vars },
        Type::ELSE => LineEffect { outcome: says("Else\n"@), vars },
        Type::ENDIF => LineEffect { outcome: says(stray_endif(line)), vars },
        Type::FIX => LineEffect {
            outcome: silent(),
            vars: if is_assignment(tokens) {
                vars.insert(tokens[1].text, tokens[3].text)
            } else {
                vars
            },
        },
        Type::CLS => LineEffect {
            outcome: OutcomeView { actions: seq![ActionView::ClearScreen], fatal: None },
            vars,
        },
        Type::COMMENT => LineEffect { outcome: silent(), vars },
        _ => LineEffect { outcome: says("Syntax error !\n"@), vars },
    }
}

/// The tokens of a line after its arithmetic was folded with `answer`, the
/// value of the expression of its arithmetic run. A line without a
/// `MATHOP` is left as it is. `None` where the line has a `MATHOP` but no
/// run, or where the expression has no value.
pub open spec fn folded(tokens: Seq<TokenView>, answer: Option<Seq<char>>) -> Option<
    Seq<TokenView>,
> {
    if !has_math(tokens) {
        Some(tokens)
    } else {
        match (math_run(tokens), answer) {
            (Some((start, end)), Some(value)) => Some(spliced(tokens, start, end, value)),
            _ => None,
        }
    }
}

/// The class of the first token of a line; `None` for a line without
/// tokens.
pub open spec fn line_kind(line: Seq<char>) -> Option<Type> {
    let tokens = tokens_of(words_of(line));
    if tokens.len() == 0 {
        None
    } else {
        Some(tokens[0].kind)
    }
}

/// How many lines from index `from` on belong to the block that is open
/// there, when `depth` blocks inside it are open as well: the lines before
/// the `ENDIF` that closes the block, or all the lines that are left where
/// nothing closes it. A line that begins with `IF` opens a block inside,
/// and the next `ENDIF` closes that one.
pub open spec fn block_len(lines: Seq<Seq<char>>, from: int, depth: nat) -> nat
    decreases lines.len() - from,
{
    if from < 0 || from >= lines.len() {
        0
    } else {
        let kind = line_kind(lines[from]);
        if kind == Some(Type::ENDIF) && depth == 0 {
            0
        } else {
            let inside = if kind == Some(Type::IF) {
                depth + 1
            } else if kind == Some(Type::ENDIF) {
                (depth - 1) as nat
            } else {
                depth
            };
            1 + block_len(lines, from + 1, inside)
        }
    }
}

/// What the lines of a script from index `pos` on come to, with the
/// variables `vars` in force. The line at index `i` is named
/// `offset + i + 1` in diagnostics, and `answers` holds at index `i` the
/// value of the expression of that line's arithmetic.
///
/// - A line without tokens does nothing.
/// - A line whose arithmetic cannot be folded ends the script.
/// - A line that begins with `IF` prints its label and opens a block. The
///   lines up to the `ENDIF` that closes the block are not run where they
///   stand: at the `ENDIF` they are run as a script of their own, with no
///   variables to begin with and with offsets that keep their line
///   numbers, and what they assign is gone afterwards. Where nothing
///   closes the block, its lines are never run.
/// - Any other line does what `dispatch` says.
pub open spec fn run_from(
    lines: Seq<Seq<char>>,
    answers: Seq<Option<Seq<char>>>,
    offset: nat,
    pos: int,
    vars: Vars,
) -> OutcomeView
    decreases lines.len(), lines.len() - pos,
{
    if pos < 0 || pos >= lines.len() {
        silent()
    } else {
        let tokens = tokens_of(words_of(lines[pos]));
        let line = (offset + pos + 1) as nat;
        if tokens.len() == 0 {
            run_from(lines, answers, offset, pos + 1, vars)
        } else {
            match folded(tokens, answer_at(answers, pos)) {
                None => failed(FatalView::Evaluation { line }),
                Some(line_tokens) => {
                    let effect = dispatch(line_tokens, vars, line);
                    if effect.outcome.fatal is Some {
                        effect.outcome
                    } else if line_tokens[0].kind == Type::IF {
                        let end = pos + 1 + block_len(lines, pos + 1, 0);
                        if end < lines.len() {
                            let inner = run_from(
                                lines.subrange(pos + 1, end),
                                answers_between(answers, pos + 1, end),
                                line,
                                0,
                                Map::empty(),
                            );
                            if inner.fatal is Some {
                                followed(effect.outcome.actions, inner)
                            } else {
                                followed(
                                    effect.outcome.actions + inner.actions,
                                    run_from(lines, answers, offset, end + 1, vars),
                                )
                            }
                        } else {
                            effect.outcome
                        }
                    } else {
                        followed(
                            effect.outcome.actions,
                            run_from(lines, answers, offset, pos + 1, effect.vars),
                        )
                    }
                },
            }
        }
    }
}

/// What a script comes to.
pub open spec fn run(lines: Seq<Seq<char>>, answers: Seq<Option<Seq<char>>>, offset: nat)
    -> OutcomeView {
    run_from(lines, answers, offset, 0, Map::empty())
}

/// The text that a sequence of actions writes to the standard output.
pub open spec fn printed_text(actions: Seq<ActionView>) -> Seq<char>
    decreases actions.len(),
{
    if actions.len() == 0 {
        Seq::empty()
    } else {
        printed_text(actions.drop_last()) + match actions.last() {
            ActionView::Print(text) => text,
            _ => Seq::empty(),
        }
    }
}

/// Appending an action appends its view.
pub proof fn lemma_acts_push(actions: Seq<Action>, action: Action)
    ensures
        acts(actions.push(action)) == acts(actions).push(action@),
{
    assert(acts(actions.push(action)) =~= acts(actions).push(action@));
}

/// The views of two sequences of actions, one after the other.
pub proof fn lemma_acts_add(first: Seq<Action>, second: Seq<Action>)
    ensures
        acts(first + second) == acts(first) + acts(second),
{
    assert(acts(first + second) =~= acts(first) + acts(second));
}

/// An outcome that goes on after some actions, after some actions.
pub proof fn lemma_followed_twice(first: Seq<ActionView>, second: Seq<ActionView>, rest: OutcomeView)
    ensures
        followed(first, followed(second, rest)) == followed(first + second, rest),
        followed(Seq::empty(), rest) == rest,
{
    assert(first + (second + rest.actions) =~= (first + second) + rest.actions);
    assert(Seq::<ActionView>::empty() + rest.actions =~= rest.actions);
}

/// Assigning a variable in a table assigns it in the scope.
pub proof fn lemma_scope_insert(table: Map<Seq<char>, String>, name: Seq<char>, value: String)
    ensures
        scope(table.insert(name, value)) == scope(table).insert(name, value@),
{
    assert(scope(table.insert(name, value)) =~= scope(table).insert(name, value@));
}

/// An empty table holds no variable.
pub proof fn lemma_scope_empty()
    ensures
        scope(Map::empty()) == Map::<Seq<char>, Seq<char>>::empty(),
{
    assert(scope(Map::empty()) =~= Map::<Seq<char>, Seq<char>>::empty());
}

/// The action that prints a text.
fn print(text: &str) -> (action: Action)
    ensures
        action@ == ActionView::Print(text@),
{
    Action::Print(text.to_owned())
}

/// The action that prints a text and a space after it.
fn print_spaced(text: &str) -> (action: Action)
    ensures
        action@ == ActionView::Print(text@ + " "@),
{
    let mut spaced = text.to_owned();
    spaced.append(" ");
    Action::Print(spaced)
}

/// How a diagnostic names its line.
fn label(line: u128) -> (text: String)
    ensures
        text@ == line_label(line as nat),
{
    let mut text = "LINE ".to_owned();
    push_decimal(&mut text, line);
    text.append(": ");
    text
}

impl Fatal {
    /// The message of the error.
    pub fn message(&self) -> (text: String)
        ensures
            text@ == fatal_message(self@),
    {
        match self {
            Fatal::Evaluation { line } => {
                let mut text = label(*line);
                text.append("Failed to evaluate expression");
                text
            },
            Fatal::UndefinedVariable { line, name } => {
                let mut text = label(*line);
                text.append("Variable ");
                text.append(name.as_str());
                text.append(" not found !");
                text
            },
        }
    }
}

impl Outcome {
    /// The text that the actions write to the standard output.
    pub fn printed(&self) -> (text: String)
        ensures
            text@ == printed_text(self@.actions),
    {
        let ghost all = acts(self.actions@);
        let mut text = String::new();
        let mut i: usize = 0;
        assert(all.take(0) == Seq::<ActionView>::empty());
        while i < self.actions.len()
            invariant
                i <= self.actions.len(),
                all == acts(self.actions@),
                text@ == printed_text(all.take(i as int)),
            decreases self.actions.len() - i,
        {
            proof {
                let next = all.take(i + 1);
                assert(next.drop_last() == all.take(i as int));
                assert(next.last() == self.actions[i as int]@);
            }
            match &self.actions[i] {
                Action::Print(part) => {
                    text.append(part.as_str());
                },
                _ => {},
            }
            i += 1;
        }
        assert(all.take(self.actions.len() as int) == all);
        text
    }

    /// Whether the script ran to its end.
    pub fn succeeded(&self) -> (done: bool)
        ensures
            done == (self@.fatal is None),
    {
        self.fatal.is_none()
    }
}

/// What a `TXT` line shows: appends to `actions` what the tokens after the
/// first ask for, and returns the error that ended the line, if one did.
pub fn show(
    tokens: &Vec<Token>,
    vars: &StringHashMap<String>,
    line: u128,
    actions: &mut Vec<Action>,
) -> (fatal: Option<Fatal>)
    ensures
        followed(acts(old(actions)@), shown(views(tokens@), 1, scope(vars@), line as nat, true))
            == (OutcomeView { actions: acts(final(actions)@), fatal: fatal_view(fatal) }),
{
    let ghost all = views(tokens@);
    let ghost goal = followed(acts(actions@), shown(all, 1, scope(vars@), line as nat, true));
    let mut newline = true;
    let mut i: usize = 1;
    while i < tokens.len()
        invariant
            1 <= i,
            all == views(tokens@),
            goal == followed(
                acts(old(actions)@),
                shown(all, 1, scope(vars@), line as nat, true),
            ),
            goal == followed(acts(actions@), shown(all, i as int, scope(vars@), line as nat, newline)),
        decreases tokens.len() - i,
    {
        let ghost before = actions@;
        let ghost rest = shown(all, i + 1, scope(vars@), line as nat, newline);
        assert(all[i as int] == tokens[i as int]@);
        let chars = chars_of(tokens[i].value.as_str());
        if spells(&chars, "/#R") {
            newline = false;
        } else if spells(&chars, "\\#PAUSE") {
            let first = print("\n");
            let second = Action::Pause;
            actions.push(first);
            actions.push(second);
            proof {
                lemma_acts_push(before, first);
                lemma_acts_push(before.push(first), second);
            }
            if newline {
                let third = print("\n");
                actions.push(third);
                proof {
                    lemma_acts_push(before.push(first).push(second), third);
                }
            }
            assert(acts(actions@) =~= acts(before) + (seq![
                ActionView::Print("\n"@),
                ActionView::Pause,
            ] + line_end(newline)));
            return None;
        } else if spells(&chars, "\\%") {
            let action = print("%");
            actions.push(action);
            proof {
                lemma_acts_push(before, action);
                lemma_followed_twice(acts(before), seq![action@], rest);
                assert(acts(before).push(action@) =~= acts(before) + seq![action@]);
            }
        } else if chars.len() >= 2 && chars[0] == '%' && chars[chars.len() - 1] == '%' {
            let name = text_between(&chars, 1, chars.len() - 1);
            match vars.get(name.as_str()) {
                Some(value) => {
                    let action = print_spaced(value.as_str());
                    actions.push(action);
                    proof {
                        lemma_acts_push(before, action);
                        lemma_followed_twice(acts(before), seq![action@], rest);
                        assert(acts(before).push(action@) =~= acts(before) + seq![action@]);
                    }
                },
                None => {
                    assert(acts(before) + Seq::<ActionView>::empty() =~= acts(before));
                    return Some(Fatal::UndefinedVariable { line, name });
                },
            }
        } else {
            let action = print_spaced(tokens[i].value.as_str());
            actions.push(action);
            proof {
                lemma_acts_push(before, action);
                lemma_followed_twice(acts(before), seq![action@], rest);
                assert(acts(before).push(action@) =~= acts(before) + seq![action@]);
            }
        }
        i += 1;
    }
    let ghost before = actions@;
    if newline {
        let action = print("\n");
        actions.push(action);
        proof {
            lemma_acts_push(before, action);
            assert(acts(before).push(action@) =~= acts(before) + seq![action@]);
        }
    } else {
        assert(acts(before) + Seq::<ActionView>::empty() =~= acts(before));
    }
    None
}

/// The view of an answer.
pub open spec fn answer_view(answer: Option<String>) -> Option<Seq<char>> {
    match answer {
        Some(text) => Some(text@),
        None => None,
    }
}

/// The answer for the line at index `i`; `None` where none was given.
fn answer_for(answers: &Vec<Option<String>>, i: usize) -> (answer: Option<String>)
    ensures
        answer_view(answer) == answer_at(answer_views(answers@), i as int),
{
    if i < answers.len() {
        match &answers[i] {
            Some(text) => Some(text.clone()),
            None => None,
        }
    } else {
        None
    }
}

/// The class of the first token of a line.
pub fn first_kind(line: &str) -> (kind: Option<Type>)
    ensures
        kind == line_kind(line@),
{
    let tokens = tokenize_line(line);
    if tokens.len() == 0 {
        None
    } else {
        assert(views(tokens@)[0] == tokens[0]@);
        Some(tokens[0].token_type)
    }
}

/// Does what a line of at least one token asks for where it stands outside
/// any block: appends its actions to `actions`, assigns what it assigns in
/// `vars`, and returns the error that ended it, if one did.
pub fn perform(
    tokens: &Vec<Token>,
    vars: &mut StringHashMap<String>,
    line: u128,
    actions: &mut Vec<Action>,
) -> (fatal: Option<Fatal>)
    requires
        tokens.len() > 0,
    ensures
        followed(
            acts(old(actions)@),
            dispatch(views(tokens@), scope(old(vars)@), line as nat).outcome,
        ) == (OutcomeView { actions: acts(final(actions)@), fatal: fatal_view(fatal) }),
        scope(final(vars)@) == dispatch(views(tokens@), scope(old(vars)@), line as nat).vars,
{
    let ghost all = views(tokens@);
    let ghost before = actions@;
    assert(all[0] == tokens[0]@);
    match tokens[0].token_type {
        Type::TXT => show(tokens, vars, line, actions),
        Type::IF => {
            say(actions, print("If\n"));
            None
        },
        Type::THEN | Type::THENCOLON => {
            say(actions, print("Then\n"));
            None
        },
        Type::ELSE => {
            say(actions, print("Else\n"));
            None
        },
        Type::ENDIF => {
            let mut text = label(line);
            text.append("Not in a if statement !\n");
            say(actions, Action::Print(text));
            None
        },
        Type::FIX => {
            if tokens.len() == 4 {
                assert(all[1] == tokens[1]@);
                assert(all[2] == tokens[2]@);
                assert(all[3] == tokens[3]@);
                if tokens[1].token_type == Type::ARG && tokens[2].token_type == Type::EQ
                    && tokens[3].token_type == Type::ARG {
                    proof {
                        lemma_scope_insert(vars@, tokens[1].value@, tokens[3].value);
                    }
                    vars.insert(tokens[1].value.clone(), tokens[3].value.clone());
                }
            }
            assert(acts(before) + Seq::<ActionView>::empty() =~= acts(before));
            None
        },
        Type::CLS => {
            say(actions, Action::ClearScreen);
            None
        },
        Type::COMMENT => {
            assert(acts(before) + Seq::<ActionView>::empty() =~= acts(before));
            None
        },
        _ => {
            say(actions, print("Syntax error !\n"));
            None
        },
    }
}

/// Appends one action.
fn say(actions: &mut Vec<Action>, action: Action)
    ensures
        acts(final(actions)@) == acts(old(actions)@) + seq![action@],
{
    proof {
        lemma_acts_push(actions@, action);
        assert(acts(actions@).push(action@) =~= acts(actions@) + seq![action@]);
    }
    actions.push(action);
}

/// The lines of the block that is open at index `from`, with the answers
/// for them.
pub fn collect_block(lines: &Vec<String>, answers: &Vec<Option<String>>, from: usize) -> (block: (
    Vec<String>,
    Vec<Option<String>>,
))
    requires
        from <= lines.len(),
    ensures
        block.0.len() == block_len(texts(lines@), from as int, 0),
        from + block.0.len() <= lines.len(),
        texts(block.0@) == texts(lines@).subrange(from as int, from + block.0.len()),
        answer_views(block.1@) == answers_between(
            answer_views(answers@),
            from as int,
            from + block.0.len(),
        ),
{
    let ghost all = texts(lines@);
    let ghost given = answer_views(answers@);
    let mut block: Vec<String> = Vec::new();
    let mut block_answers: Vec<Option<String>> = Vec::new();
    let mut depth: usize = 0;
    let mut i: usize = from;
    loop
        invariant
            from <= i <= lines.len(),
            depth <= i - from,
            all == texts(lines@),
            given == answer_views(answers@),
            (i - from) + block_len(all, i as int, depth as nat) == block_len(all, from as int, 0),
            block.len() == i - from,
            block_answers.len() == i - from,
            forall|j: int| 0 <= j < block.len() ==> (#[trigger] block[j])@ == all[from + j],
            forall|j: int|
                0 <= j < block_answers.len() ==> answer_view(#[trigger] block_answers[j])
                    == answer_at(given, from + j),
        ensures
            from <= i <= lines.len(),
            i - from == block_len(all, from as int, 0),
            block.len() == i - from,
            block_answers.len() == i - from,
            forall|j: int| 0 <= j < block.len() ==> (#[trigger] block[j])@ == all[from + j],
            forall|j: int|
                0 <= j < block_answers.len() ==> answer_view(#[trigger] block_answers[j])
                    == answer_at(given, from + j),
        decreases lines.len() - i,
    {
        if i >= lines.len() {
            break ;
        }
        assert(all[i as int] == lines[i as int]@);
        let kind = first_kind(lines[i].as_str());
        match kind {
            Some(Type::ENDIF) => {
                if depth == 0 {
                    break ;
                }
                depth -= 1;
            },
            Some(Type::IF) => {
                depth += 1;
            },
            _ => {},
        }
        block.push(lines[i].clone());
        block_answers.push(answer_for(answers, i));
        i += 1;
    }
    assert(texts(block@) =~= all.subrange(from as int, from + block.len()));
    assert(answer_views(block_answers@) =~= answers_between(
        given,
        from as int,
        from + block.len(),
    ));
    (block, block_answers)
}

/// What the lines of a script come to; see `run_from`.
pub fn run_lines(lines: &Vec<String>, answers: &Vec<Option<String>>, offset: u128) -> (outcome:
    Outcome)
    requires
        offset + lines.len() < u128::MAX,
    ensures
        outcome@ == run(texts(lines@), answer_views(answers@), offset as nat),
    decreases lines.len(),
{
    let ghost all = texts(lines@);
    let ghost given = answer_views(answers@);
    let ghost goal = run(all, given, offset as nat);
    let mut vars: StringHashMap<String> = StringHashMap::new();
    let mut actions: Vec<Action> = Vec::new();
    let mut pos: usize = 0;
    proof {
        lemma_scope_empty();
        lemma_followed_twice(Seq::empty(), Seq::empty(), goal);
        assert(acts(actions@) =~= Seq::<ActionView>::empty());
    }
    while pos < lines.len()
        invariant
            pos <= lines.len(),
            all == texts(lines@),
            given == answer_views(answers@),
            offset + lines.len() < u128::MAX,
            goal == run(all, given, offset as nat),
            goal == followed(
                acts(actions@),
                run_from(all, given, offset as nat, pos as int, scope(vars@)),
            ),
        decreases lines.len() - pos,
    {
        let ghost before = actions@;
        let ghost scope_before = scope(vars@);
        assert(all[pos as int] == lines[pos as int]@);
        let mut tokens = tokenize_line(lines[pos].as_str());
        if tokens.len() == 0 {
            pos += 1;
        } else {
            let line: u128 = offset + (pos as u128) + 1;
            let ghost raw = views(tokens@);
            if tokens.has_math_operator() {
                let answer = answer_for(answers, pos);
                match tokens.do_math(answer) {
                    Ok(()) => {},
                    Err(_) => {
                        assert(acts(before) + Seq::<ActionView>::empty() =~= acts(before));
                        return Outcome { actions, fatal: Some(Fatal::Evaluation { line }) };
                    },
                }
            }
            let ghost line_tokens = views(tokens@);
            assert(folded(raw, answer_at(given, pos as int)) == Some(line_tokens));
            assert(line_tokens[0] == tokens[0]@);
            let opens = match tokens[0].token_type {
                Type::IF => true,
                _ => false,
            };
            let fatal = perform(&tokens, &mut vars, line, &mut actions);
            let ghost effect = dispatch(line_tokens, scope_before, line as nat);
            if fatal.is_some() {
                return Outcome { actions, fatal };
            }
            if opens {
                let (block, block_answers) = collect_block(lines, answers, pos + 1);
                let end: usize = pos + 1 + block.len();
                if end < lines.len() {
                    let inner = run_lines(&block, &block_answers, line);
                    let ghost inner_view = inner@;
                    let Outcome { actions: mut inner_actions, fatal: inner_fatal } = inner;
                    let ghost mine = actions@;
                    proof {
                        lemma_acts_add(mine, inner_actions@);
                    }
                    actions.append(&mut inner_actions);
                    if inner_fatal.is_some() {
                        proof {
                            lemma_followed_twice(acts(before), effect.outcome.actions, inner_view);
                            assert(acts(actions@) =~= (acts(before) + effect.outcome.actions)
                                + inner_view.actions);
                        }
                        return Outcome { actions, fatal: inner_fatal };
                    }
                    proof {
                        let rest = run_from(all, given, offset as nat, end + 1, scope_before);
                        lemma_followed_twice(
                            acts(before),
                            effect.outcome.actions + inner_view.actions,
                            rest,
                        );
                        assert(acts(actions@) =~= acts(before) + (effect.outcome.actions
                            + inner_view.actions));
                    }
                    pos = end + 1;
                } else {
                    return Outcome { actions, fatal: None };
                }
            } else {
                proof {
                    let rest = run_from(all, given, offset as nat, pos + 1, effect.vars);
                    lemma_followed_twice(acts(before), effect.outcome.actions, rest);
                }
                pos += 1;
            }
        }
    }
    proof {
        assert(acts(actions@) + Seq::<ActionView>::empty() =~= acts(actions@));
    }
    Outcome { actions, fatal: None }
}

/// What a script comes to. The line at index `i` of the script is named
/// `line_offset + i + 1` in diagnostics; `answers` holds at index `i` the
/// value of the expression of that line's arithmetic, or `None` where the
/// expression has no value. Lines beyond the end of `answers` have no
/// answer.
pub fn interpret(script: &str, line_offset: usize, answers: &Vec<Option<String>>) -> (outcome:
    Outcome)
    ensures
        outcome@ == run(lines_of(script@), answer_views(answers@), line_offset as nat),
{
    let lines = split_lines(script);
    run_lines(&lines, answers, line_offset as u128)
}

/// The expressions of a script: for each of its lines, the expression of
/// the line's arithmetic run, or `None` where the line has no such run.
pub open spec fn expressions_of(lines: Seq<Seq<char>>) -> Seq<Option<Seq<char>>> {
    Seq::new(lines.len(), |i: int| line_expression(tokens_of(words_of(lines[i]))))
}

/// The expressions of a script, one entry for each line. Their values, in
/// the same order, are the answers that `interpret` takes.
pub fn expressions(script: &str) -> (found: Vec<Option<String>>)
    ensures
        answer_views(found@) == expressions_of(lines_of(script@)),
{
    let lines = split_lines(script);
    let ghost all = texts(lines@);
    let mut found: Vec<Option<String>> = Vec::new();
    let mut i: usize = 0;
    while i < lines.len()
        invariant
            i <= lines.len(),
            all == texts(lines@),
            found.len() == i,
            forall|j: int|
                0 <= j < i ==> answer_view(#[trigger] found[j]) == line_expression(
                    tokens_of(words_of(all[j])),
                ),
        decreases lines.len() - i,
    {
        assert(all[i as int] == lines[i as int]@);
        let tokens = tokenize_line(lines[i].as_str());
        found.push(tokens.math_expression());
        i += 1;
    }
    assert(answer_views(found@) =~= expressions_of(all));
    found
}

} // verus!
