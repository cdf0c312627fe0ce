//! The tokenizer: the classes of words, the tokens of a line, and the
//! folding of an arithmetic run of tokens into one argument.

use crate::text::{chars_of, spells, split_words, text_between, texts, uppercase, uppercase_of, words_of};
use vstd::prelude::*;
use vstd::std_specs::cmp::PartialEqSpecImpl;
use vstd::string::StringExecFns;

verus! {

/// The class of a word.
#[derive(Debug, Clone, Copy, PartialEq, Eq, Hash, Structural)]
pub enum Type {
    CLS,
    TXT,
    IF,
    THEN,
    THENCOLON,
    ELSE,
    ENDIF,
    COLON,
    COMMENT,
    ARG,
    FIX,
    EQ,
    MATHOP,
    PARENTOPEN,
    PARENTCLOSE,
}

/// A classified word of a line.
#[derive(Debug, Clone, Hash)]
pub struct Token {
    pub token_type: Type,
    pub value: String,
}

/// What a token is to the contracts: its class and the characters of its
/// word.
pub struct TokenView {
    pub kind: Type,
    pub text: Seq<char>,
}

impl View for Token {
    type V = TokenView;

    open spec fn view(&self) -> TokenView {
        TokenView { kind: self.token_type, text: self.value@ }
    }
}

impl PartialEq for Token {
    /// Two tokens are equal when they have the same class and the same
    /// text.
    fn eq(&self, other: &Token) -> (same: bool) {
        self.token_type == other.token_type && self.value == other.value
    }
}

impl PartialEqSpecImpl for Token {
    open spec fn obeys_eq_spec() -> bool {
        true
    }

    open spec fn eq_spec(&self, other: &Token) -> bool {
        self.token_type == other.token_type && self.value@ == other.value@
    }
}

/// The views of a sequence of tokens.
pub open spec fn views(tokens: Seq<Token>) -> Seq<TokenView> {
    Seq::new(tokens.len(), |i: int| tokens[i]@)
}

/// The classes of a sequence of tokens.
pub open spec fn kinds(tokens: Seq<TokenView>) -> Seq<Type> {
    Seq::new(tokens.len(), |i: int| tokens[i].kind)
}

/// The class that a keyword stands for, given the upper-case form of the
/// word; `None` where that form is no keyword.
pub open spec fn keyword(upper: Seq<char>) -> Option<Type> {
    if upper == "REM/"@ || upper == "'"@ || upper == "//"@ {
        Some(Type::COMMENT)
    } else if upper == "CLS/"@ {
        Some(Type::CLS)
    } else if upper == "TXT/"@ {
        Some(Type::TXT)
    } else if upper == "IF/"@ {
        Some(Type::IF)
    } else if upper == "THEN:"@ {
        Some(Type::THENCOLON)
    } else if upper == "THEN"@ {
        Some(Type::THEN)
    } else if upper == "ELSE/"@ {
        Some(Type::ELSE)
    } else if upper == "ENDIF/"@ {
        Some(Type::ENDIF)
    } else if upper == "FIX/"@ {
        Some(Type::FIX)
    } else if upper == ":"@ {
        Some(Type::COLON)
    } else if upper == "="@ {
        Some(Type::EQ)
    } else if upper == "("@ {
        Some(Type::PARENTOPEN)
    } else if upper == ")"@ {
        Some(Type::PARENTCLOSE)
    } else {
        None
    }
}

/// Whether a word begins with the marker of an arithmetic expression,
/// `/C(`.
pub open spec fn has_marker(word: Seq<char>) -> bool {
    word.len() >= 3 && word[0] == '/' && word[1] == 'C' && word[2] == '('
}

/// The class of `word`, whose upper-case form is `upper`: that of the
/// keyword where the upper-case form is one, else `MATHOP` where the word
/// itself begins with the marker, else `ARG`.
pub open spec fn classify(upper: Seq<char>, word: Seq<char>) -> Type {
    match keyword(upper) {
        Some(kind) => kind,
        None => if has_marker(word) {
            Type::MATHOP
        } else {
            Type::ARG
        },
    }
}

/// The token of a word.
pub open spec fn token_of(word: Seq<char>) -> TokenView {
    TokenView { kind: classify(uppercase_of(word), word), text: word }
}

/// The tokens of a sequence of words: one for each word, in order.
pub open spec fn tokens_of(words: Seq<Seq<char>>) -> Seq<TokenView> {
    Seq::new(words.len(), |i: int| token_of(words[i]))
}

/// Whether the classes `kinds` follow `shape`: there are at least as many
/// of them as the shape has entries, each of the first equals the entry at
/// its place, and each of the others equals the last entry.
pub open spec fn has_shape(kinds: Seq<Type>, shape: Seq<Type>) -> bool {
    &&& shape.len() <= kinds.len()
    &&& shape.len() == 0 ==> kinds.len() == 0
    &&& forall|i: int|
        0 <= i < kinds.len() ==> #[trigger] kinds[i] == shape[if i < shape.len() {
            i
        } else {
            shape.len() - 1
        }]
}

/// How many tokens of class `kind` stand in a row at the end of `tokens`.
pub open spec fn trailing_len(tokens: Seq<TokenView>, kind: Type) -> nat
    decreases tokens.len(),
{
    if tokens.len() > 0 && tokens.last().kind == kind {
        1 + trailing_len(tokens.drop_last(), kind)
    } else {
        0
    }
}

/// The texts of the last `count` tokens, the last one first, each
/// followed by one space.
pub open spec fn spaced_backwards(tokens: Seq<TokenView>, count: nat) -> Seq<char>
    decreases count,
{
    if count == 0 || tokens.len() == 0 {
        Seq::empty()
    } else {
        tokens.last().text + seq![' '] + spaced_backwards(tokens.drop_last(), (count - 1) as nat)
    }
}

/// The texts of the last `count` tokens, the last one first, with one
/// space between two of them.
pub open spec fn joined_backwards(tokens: Seq<TokenView>, count: nat) -> Seq<char> {
    spaced_backwards(tokens, count).drop_last()
}

/// The index, at or after `from`, of the token of class `kind` that has
/// `skip` tokens of that class between `from` and itself; `None` where
/// there are not that many.
pub open spec fn position_of(tokens: Seq<TokenView>, kind: Type, skip: nat, from: int) -> Option<
    int,
>
    decreases tokens.len() - from,
{
    if from < 0 || from >= tokens.len() {
        None
    } else if tokens[from].kind == kind {
        if skip == 0 {
            Some(from)
        } else {
            position_of(tokens, kind, (skip - 1) as nat, from + 1)
        }
    } else {
        position_of(tokens, kind, skip, from + 1)
    }
}

/// What `tokens_retrieve` finds. With `index` -1 it is a token of class
/// `kind` whose text joins the run of such tokens at the end of the line,
/// the last one first; `None` where the line does not end in such a token.
/// With any other `index` it is the token of class `kind` that has `index`
/// such tokens before it (the first one for a negative `index`).
pub open spec fn retrieved(tokens: Seq<TokenView>, kind: Type, index: int) -> Option<TokenView> {
    if index == -1 {
        let count = trailing_len(tokens, kind);
        if count == 0 {
            None
        } else {
            Some(TokenView { kind, text: joined_backwards(tokens, count) })
        }
    } else {
        let skip = if index < 0 {
            0nat
        } else {
            index as nat
        };
        match position_of(tokens, kind, skip, 0) {
            Some(i) => Some(tokens[i]),
            None => None,
        }
    }
}

impl Token {
    /// A copy of the text.
    pub fn get_value(&mut self) -> (value: String)
        ensures
            value@ == old(self).value@,
            *final(self) == *old(self),
    {
        self.value.clone()
    }

    /// The class.
    pub fn get_type(&mut self) -> (kind: Type)
        ensures
            kind == old(self).token_type,
            *final(self) == *old(self),
    {
        self.token_type
    }

    /// Whether the text has no characters.
    pub fn is_empty(&mut self) -> (empty: bool)
        ensures
            empty == (old(self).value@.len() == 0),
            *final(self) == *old(self),
    {
        self.value.as_str().is_empty()
    }

    /// A token of the given class and text. The receiver plays no part.
    pub fn new(&mut self, token_type: Type, value: String) -> (token: Token)
        ensures
            token.token_type == token_type,
            token.value == value,
            *final(self) == *old(self),
    {
        Token { token_type, value }
    }

    /// Whether the text begins and ends with a percent sign. A text of one
    /// percent sign does both.
    pub fn is_variable(&mut self) -> (variable: bool)
        ensures
            variable == is_reference(old(self).value@),
            *final(self) == *old(self),
    {
        let text = self.value.as_str();
        let len = text.unicode_len();
        len > 0 && text.get_char(0) == '%' && text.get_char(len - 1) == '%'
    }

    /// The text without its first and its last character: the name that a
    /// variable reference encloses.
    pub fn get_varname(&mut self) -> (name: &str)
        requires
            old(self).value@.len() >= 2,
        ensures
            name@ == enclosed(old(self).value@),
            *final(self) == *old(self),
    {
        let text = self.value.as_str();
        let len = text.unicode_len();
        text.substring_char(1, len - 1)
    }
}

/// Whether a text begins and ends with a percent sign.
pub open spec fn is_reference(text: Seq<char>) -> bool {
    text.len() > 0 && text[0] == '%' && text.last() == '%'
}

/// A text without its first and its last character.
pub open spec fn enclosed(text: Seq<char>) -> Seq<char> {
    text.subrange(1, text.len() - 1)
}

/// The class of a word, given its upper-case form.
pub fn classify_word(upper: &str, word: &str) -> (kind: Type)
    ensures
        kind == classify(upper@, word@),
{
    let u = chars_of(upper);
    if spells(&u, "REM/") || spells(&u, "'") || spells(&u, "//") {
        Type::COMMENT
    } else if spells(&u, "CLS/") {
        Type::CLS
    } else if spells(&u, "TXT/") {
        Type::TXT
    } else if spells(&u, "IF/") {
        Type::IF
    } else if spells(&u, "THEN:") {
        Type::THENCOLON
    } else if spells(&u, "THEN") {
        Type::THEN
    } else if spells(&u, "ELSE/") {
        Type::ELSE
    } else if spells(&u, "ENDIF/") {
        Type::ENDIF
    } else if spells(&u, "FIX/") {
        Type::FIX
    } else if spells(&u, ":") {
        Type::COLON
    } else if spells(&u, "=") {
        Type::EQ
    } else if spells(&u, "(") {
        Type::PARENTOPEN
    } else if spells(&u, ")") {
        Type::PARENTCLOSE
    } else {
        let w = chars_of(word);
        if w.len() >= 3 && w[0] == '/' && w[1] == 'C' && w[2] == '(' {
            Type::MATHOP
        } else {
            Type::ARG
        }
    }
}

/// The tokens of the words of a line, one for each word, in order.
pub fn tokenize(words: &Vec<String>) -> (tokens: Vec<Token>)
    ensures
        views(tokens@) == tokens_of(texts(words@)),
{
    let mut tokens: Vec<Token> = Vec::new();
    let mut i: usize = 0;
    while i < words.len()
        invariant
            i <= words.len(),
            tokens.len() == i,
            forall|j: int| 0 <= j < i ==> (#[trigger] tokens[j])@ == token_of(words[j]@),
        decreases words.len() - i,
    {
        let word = words[i].as_str();
        let upper = uppercase(word);
        let kind = classify_word(upper.as_str(), word);
        tokens.push(Token { token_type: kind, value: words[i].clone() });
        i += 1;
    }
    assert(views(tokens@) =~= tokens_of(texts(words@)));
    tokens
}

/// The tokens of a line.
pub fn tokenize_line(line: &str) -> (tokens: Vec<Token>)
    ensures
        views(tokens@) == tokens_of(words_of(line@)),
{
    let words = split_words(line);
    tokenize(&words)
}

/// Whether the classes of `tokens` follow the shape `token_types`.
pub fn tokens_contain(tokens: Vec<Token>, token_types: &[Type]) -> (follows: bool)
    ensures
        follows == has_shape(kinds(views(tokens@)), token_types@),
{
    let ghost found = kinds(views(tokens@));
    if token_types.len() > tokens.len() || (token_types.len() == 0 && tokens.len() > 0) {
        return false;
    }
    let mut i: usize = 0;
    while i < tokens.len()
        invariant
            i <= tokens.len(),
            token_types.len() <= tokens.len(),
            token_types.len() == 0 ==> tokens.len() == 0,
            found == kinds(views(tokens@)),
            forall|j: int|
                0 <= j < i ==> #[trigger] found[j] == token_types@[if j < token_types.len() {
                    j
                } else {
                    token_types.len() - 1
                }],
        decreases tokens.len() - i,
    {
        let at: usize = if i < token_types.len() {
            i
        } else {
            token_types.len() - 1
        };
        if tokens[i].token_type != token_types[at] {
            assert(found[i as int] != token_types@[at as int]);
            return false;
        }
        i += 1;
    }
    true
}

/// Finds a token of class `token_type` among `tokens`; see `retrieved`.
pub fn tokens_retrieve(tokens: Vec<Token>, token_type: Type, index: isize) -> (found: Result<
    Token,
    String,
>)
    ensures
        match found {
            Ok(token) => retrieved(views(tokens@), token_type, index as int) == Some(token@),
            Err(message) => retrieved(views(tokens@), token_type, index as int) is None
                && message@ == "Couldn't retrieve the element !"@,
        },
{
    let ghost all = views(tokens@);
    if index == -1 {
        let mut value = String::new();
        let mut i: usize = tokens.len();
        assert(all.take(i as int) == all);
        while i > 0 && tokens[i - 1].token_type == token_type
            invariant
                i <= tokens.len(),
                all == views(tokens@),
                trailing_len(all, token_type) == (tokens.len() - i) + trailing_len(
                    all.take(i as int),
                    token_type,
                ),
                spaced_backwards(all, trailing_len(all, token_type)) == value@ + spaced_backwards(
                    all.take(i as int),
                    trailing_len(all.take(i as int), token_type),
                ),
                i < tokens.len() ==> value@.len() > 0 && value@.last() == ' ',
            decreases i,
        {
            let ghost rest = all.take(i as int);
            let ghost before = value@;
            proof {
                reveal_strlit(" ");
                assert(" "@ == seq![' ']);
                assert(rest.drop_last() == all.take(i - 1));
                assert(rest.last() == all[i - 1]);
                assert(before + (rest.last().text + seq![' '] + spaced_backwards(
                    rest.drop_last(),
                    trailing_len(rest.drop_last(), token_type),
                )) == before + rest.last().text + seq![' '] + spaced_backwards(
                    rest.drop_last(),
                    trailing_len(rest.drop_last(), token_type),
                ));
            }
            value.append(tokens[i - 1].value.as_str());
            value.append(" ");
            i -= 1;
        }
        if i == tokens.len() {
            Err("Couldn't retrieve the element !".to_string())
        } else {
            let chars = chars_of(value.as_str());
            let text = text_between(&chars, 0, chars.len() - 1);
            assert(chars@.subrange(0, chars.len() - 1) == chars@.drop_last());
            Ok(Token { token_type, value: text })
        }
    } else {
        let mut skip: usize = if index < 0 {
            0
        } else {
            index as usize
        };
        let mut i: usize = 0;
        while i < tokens.len()
            invariant
                i <= tokens.len(),
                index != -1,
                all == views(tokens@),
                position_of(all, token_type, skip as nat, i as int) == position_of(
                    all,
                    token_type,
                    if index < 0 {
                        0nat
                    } else {
                        index as nat
                    },
                    0,
                ),
            decreases tokens.len() - i,
        {
            assert(all[i as int] == tokens[i as int]@);
            if tokens[i].token_type == token_type {
                if skip == 0 {
                    return Ok(Token { token_type, value: tokens[i].value.clone() });
                }
                skip -= 1;
            }
            i += 1;
        }
        Err("Couldn't retrieve the element !".to_string())
    }
}

/// Whether one of the tokens is a `MATHOP`.
pub open spec fn has_math(tokens: Seq<TokenView>) -> bool {
    exists|i: int| 0 <= i < tokens.len() && (#[trigger] tokens[i]).kind == Type::MATHOP
}

/// How many tokens other than a `MATHOP` stand in a row from index `from`
/// on.
pub open spec fn math_offset(tokens: Seq<TokenView>, from: int) -> nat
    decreases tokens.len() - from,
{
    if 0 <= from < tokens.len() && tokens[from].kind != Type::MATHOP {
        1 + math_offset(tokens, from + 1)
    } else {
        0
    }
}

/// Whether a text ends with a closing parenthesis.
pub open spec fn closes(text: Seq<char>) -> bool {
    text.len() > 0 && text.last() == ')'
}

/// How many tokens whose text does not end with a closing parenthesis stand
/// in a row from index `from` on.
pub open spec fn closing_offset(tokens: Seq<TokenView>, from: int) -> nat
    decreases tokens.len() - from,
{
    if 0 <= from < tokens.len() && !closes(tokens[from].text) {
        1 + closing_offset(tokens, from + 1)
    } else {
        0
    }
}

/// The arithmetic run of a line: the indices of its first `MATHOP` and of
/// the first token, from there on, whose text ends with a closing
/// parenthesis. `None` where the line has no `MATHOP`, or no such token
/// after it.
pub open spec fn math_run(tokens: Seq<TokenView>) -> Option<(int, int)> {
    let start = math_offset(tokens, 0) as int;
    let end = start + closing_offset(tokens, start);
    if end < tokens.len() {
        Some((start, end))
    } else {
        None
    }
}

/// The texts of the tokens from index `start` to index `end`, both
/// included, one after the other with nothing between them.
pub open spec fn run_text(tokens: Seq<TokenView>, start: int, end: int) -> Seq<char>
    decreases end + 1 - start,
{
    if end < start {
        Seq::empty()
    } else {
        run_text(tokens, start, end - 1) + tokens[end].text
    }
}

/// A text without the occurrences of the character `c`.
pub open spec fn without(text: Seq<char>, c: char) -> Seq<char>
    decreases text.len(),
{
    if text.len() == 0 {
        text
    } else if text.last() == c {
        without(text.drop_last(), c)
    } else {
        without(text.drop_last(), c).push(text.last())
    }
}

/// A text without the marker `/C(` that it begins with; the text itself
/// where it does not begin with the marker.
pub open spec fn after_marker(text: Seq<char>) -> Seq<char> {
    if has_marker(text) {
        text.skip(3)
    } else {
        text
    }
}

/// The expression that the text of an arithmetic run stands for: the text
/// after its marker, without closing parentheses, in upper case.
pub open spec fn expression_of(run: Seq<char>) -> Seq<char> {
    uppercase_of(without(after_marker(run), ')'))
}

/// The expression of the arithmetic run of a line, where it has one.
pub open spec fn line_expression(tokens: Seq<TokenView>) -> Option<Seq<char>> {
    match math_run(tokens) {
        Some((start, end)) => Some(expression_of(run_text(tokens, start, end))),
        None => None,
    }
}

/// The line with its tokens from `start` to `end` replaced by one argument
/// whose text is `value`.
pub open spec fn spliced(tokens: Seq<TokenView>, start: int, end: int, value: Seq<char>) -> Seq<
    TokenView,
> {
    tokens.subrange(0, start).push(TokenView { kind: Type::ARG, text: value }) + tokens.subrange(
        end + 1,
        tokens.len() as int,
    )
}

/// The greatest index at which `token` stands in `tokens`; 0 where it
/// stands nowhere.
pub open spec fn last_index_of(tokens: Seq<TokenView>, token: TokenView) -> int
    decreases tokens.len(),
{
    if tokens.len() == 0 {
        0
    } else if tokens.last() == token {
        tokens.len() - 1
    } else {
        last_index_of(tokens.drop_last(), token)
    }
}

/// Why a line's arithmetic could not be folded.
#[derive(Debug, Clone, Copy, PartialEq, Eq, Structural)]
pub enum MathError {
    /// The line has no `MATHOP` token.
    NoMarker,
    /// No token from the `MATHOP` on ends with a closing parenthesis.
    Unclosed,
    /// The expression has no value.
    Rejected,
}

/// `math_offset` stays inside the line, counts no `MATHOP`, and stops at
/// one or at the end.
pub proof fn lemma_math_offset(tokens: Seq<TokenView>, from: int)
    requires
        0 <= from <= tokens.len(),
    ensures
        from + math_offset(tokens, from) <= tokens.len(),
        forall|i: int|
            from <= i < from + math_offset(tokens, from) ==> (#[trigger] tokens[i]).kind
                != Type::MATHOP,
        from + math_offset(tokens, from) < tokens.len() ==> tokens[from + math_offset(
            tokens,
            from,
        )].kind == Type::MATHOP,
    decreases tokens.len() - from,
{
    if from < tokens.len() && tokens[from].kind != Type::MATHOP {
        lemma_math_offset(tokens, from + 1);
    }
}

/// A line has a `MATHOP` exactly where `math_offset` stops before its end.
pub proof fn lemma_has_math(tokens: Seq<TokenView>)
    ensures
        has_math(tokens) <==> math_offset(tokens, 0) < tokens.len(),
        math_run(tokens) is Some ==> has_math(tokens),
{
    lemma_math_offset(tokens, 0);
    let start = math_offset(tokens, 0) as int;
    if start < tokens.len() {
        assert(tokens[start].kind == Type::MATHOP);
    }
}

/// Whether a text ends with a closing parenthesis.
pub fn ends_closing(text: &str) -> (closing: bool)
    ensures
        closing == closes(text@),
{
    let chars = chars_of(text);
    chars.len() > 0 && chars[chars.len() - 1] == ')'
}

/// The arithmetic run of a line.
pub fn find_run(tokens: &Vec<Token>) -> (run: Option<(usize, usize)>)
    ensures
        match run {
            Some((start, end)) => math_run(views(tokens@)) == Some((start as int, end as int)),
            None => math_run(views(tokens@)) is None,
        },
{
    let ghost all = views(tokens@);
    let start = find_start(tokens);
    let mut end: usize = start;
    while end < tokens.len() && !ends_closing(tokens[end].value.as_str())
        invariant
            start <= end <= tokens.len(),
            all == views(tokens@),
            end + closing_offset(all, end as int) == start + closing_offset(all, start as int),
        decreases tokens.len() - end,
    {
        assert(all[end as int] == tokens[end as int]@);
        end += 1;
    }
    assert(end < tokens.len() ==> all[end as int] == tokens[end as int]@);
    if end < tokens.len() {
        Some((start, end))
    } else {
        None
    }
}

/// The characters of `text` from index `from` on, without closing
/// parentheses.
pub fn strip_closing(text: &Vec<char>, from: usize) -> (stripped: String)
    requires
        from <= text.len(),
    ensures
        stripped@ == without(text@.skip(from as int), ')'),
{
    let mut stripped = String::new();
    let mut i: usize = from;
    let ghost tail = text@.skip(from as int);
    assert(tail.take(0) == Seq::<char>::empty());
    while i < text.len()
        invariant
            from <= i <= text.len(),
            tail == text@.skip(from as int),
            stripped@ == without(tail.take(i - from), ')'),
        decreases text.len() - i,
    {
        proof {
            let next = tail.take(i + 1 - from);
            assert(next.drop_last() == tail.take(i - from));
            assert(next.last() == text[i as int]);
        }
        if text[i] != ')' {
            stripped.push(text[i]);
        }
        i += 1;
    }
    assert(tail.take(text.len() - from) == tail);
    stripped
}

/// The expression that stands in the tokens from `start` to `end`.
pub fn expression_between(tokens: &Vec<Token>, start: usize, end: usize) -> (expression: String)
    requires
        start <= end < tokens.len(),
    ensures
        expression@ == expression_of(run_text(views(tokens@), start as int, end as int)),
{
    let ghost all = views(tokens@);
    let mut run = String::new();
    let mut i: usize = start;
    while i <= end
        invariant
            start <= i <= end + 1,
            end < tokens.len(),
            all == views(tokens@),
            run@ == run_text(all, start as int, i - 1),
        decreases end + 1 - i,
    {
        assert(all[i as int] == tokens[i as int]@);
        run.append(tokens[i].value.as_str());
        i += 1;
    }
    let chars = chars_of(run.as_str());
    let marked = chars.len() >= 3 && chars[0] == '/' && chars[1] == 'C' && chars[2] == '(';
    let from: usize = if marked {
        3
    } else {
        0
    };
    assert(chars@.skip(0) == chars@);
    let stripped = strip_closing(&chars, from);
    uppercase(stripped.as_str())
}

/// A copy of a token.
fn copy_token(token: &Token) -> (copy: Token)
    ensures
        copy@ == token@,
{
    Token { token_type: token.token_type, value: token.value.clone() }
}

/// The line `tokens` with its tokens from `start` to `end` replaced by one
/// argument whose text is `value`.
pub fn splice(tokens: &Vec<Token>, start: usize, end: usize, value: String) -> (folded: Vec<Token>)
    requires
        start <= end < tokens.len(),
    ensures
        views(folded@) == spliced(views(tokens@), start as int, end as int, value@),
{
    let ghost all = views(tokens@);
    let ghost target = spliced(all, start as int, end as int, value@);
    let mut folded: Vec<Token> = Vec::new();
    let mut i: usize = 0;
    while i < start
        invariant
            i <= start <= end < tokens.len(),
            all == views(tokens@),
            folded.len() == i,
            forall|j: int| 0 <= j < i ==> (#[trigger] folded[j])@ == all[j],
        decreases start - i,
    {
        assert(all[i as int] == tokens[i as int]@);
        folded.push(copy_token(&tokens[i]));
        i += 1;
    }
    folded.push(Token { token_type: Type::ARG, value });
    let mut k: usize = end + 1;
    while k < tokens.len()
        invariant
            start <= end < k <= tokens.len(),
            all == views(tokens@),
            folded.len() == start + 1 + (k - end - 1),
            forall|j: int| 0 <= j < start ==> (#[trigger] folded[j])@ == all[j],
            folded[start as int]@ == (TokenView { kind: Type::ARG, text: value@ }),
            forall|j: int|
                start < j < folded.len() ==> (#[trigger] folded[j])@ == all[j - start + end],
        decreases tokens.len() - k,
    {
        assert(all[k as int] == tokens[k as int]@);
        folded.push(copy_token(&tokens[k]));
        k += 1;
    }
    assert(views(folded@) =~= target);
    folded
}

/// What a line of tokens offers for its arithmetic.
pub trait HasMathOperator {
    /// Whether one of the tokens is a `MATHOP`.
    fn has_math_operator(&mut self) -> bool;

    /// Replaces the arithmetic run of the line by one argument whose text
    /// is `answer`, the value of the run's expression; `None` says that
    /// the expression has no value.
    fn do_math(&mut self, answer: Option<String>) -> Result<(), MathError>;

    /// The greatest index at which a token equal to `token` stands; 0 where
    /// none does.
    fn get_index(&mut self, token: &mut Token) -> usize;

    /// The expression of the arithmetic run of the line, where it has one.
    fn math_expression(&self) -> Option<String>;
}

impl HasMathOperator for Vec<Token> {
    fn has_math_operator(&mut self) -> (found: bool)
        ensures
            found == has_math(views(old(self)@)),
            views(final(self)@) == views(old(self)@),
    {
        proof {
            lemma_has_math(views(self@));
        }
        find_start(self) < self.len()
    }

    fn do_math(&mut self, answer: Option<String>) -> (done: Result<(), MathError>)
        ensures
            match done {
                Ok(()) => match (math_run(views(old(self)@)), answer) {
                    (Some((start, end)), Some(value)) => views(final(self)@) == spliced(
                        views(old(self)@),
                        start,
                        end,
                        value@,
                    ),
                    _ => false,
                },
                Err(MathError::NoMarker) => !has_math(views(old(self)@)),
                Err(MathError::Unclosed) => has_math(views(old(self)@)) && math_run(
                    views(old(self)@),
                ) is None,
                Err(MathError::Rejected) => math_run(views(old(self)@)) is Some && answer is None,
            },
            done is Err ==> views(final(self)@) == views(old(self)@),
    {
        proof {
            lemma_has_math(views(self@));
        }
        match find_run(self) {
            None => {
                if find_start(self) < self.len() {
                    Err(MathError::Unclosed)
                } else {
                    Err(MathError::NoMarker)
                }
            },
            Some((start, end)) => match answer {
                None => Err(MathError::Rejected),
                Some(value) => {
                    let folded = splice(self, start, end, value);
                    *self = folded;
                    Ok(())
                },
            },
        }
    }

    fn get_index(&mut self, token: &mut Token) -> (index: usize)
        ensures
            index == last_index_of(views(old(self)@), old(token)@),
            views(final(self)@) == views(old(self)@),
            final(token)@ == old(token)@,
    {
        let ghost all = views(self@);
        let mut index: usize = 0;
        let mut i: usize = 0;
        assert(all.take(0).len() == 0);
        while i < self.len()
            invariant
                i <= self.len(),
                all == views(self@),
                index == last_index_of(all.take(i as int), token@),
                index <= i,
            decreases self.len() - i,
        {
            proof {
                let next = all.take(i + 1);
                assert(next.drop_last() == all.take(i as int));
                assert(next.last() == self[i as int]@);
            }
            if self[i] == *token {
                index = i;
            }
            i += 1;
        }
        assert(all.take(self.len() as int) == all);
        index
    }

    fn math_expression(&self) -> (expression: Option<String>)
        ensures
            match expression {
                Some(text) => line_expression(views(self@)) == Some(text@),
                None => line_expression(views(self@)) is None,
            },
    {
        match find_run(self) {
            None => None,
            Some((start, end)) => {
                Some(expression_between(self, start, end))
            },
        }
    }
}

/// The index of the first `MATHOP` of a line; its length where it has
/// none.
pub fn find_start(tokens: &Vec<Token>) -> (start: usize)
    ensures
        start == math_offset(views(tokens@), 0),
        start <= tokens.len(),
{
    let ghost all = views(tokens@);
    let mut start: usize = 0;
    while start < tokens.len() && tokens[start].token_type != Type::MATHOP
        invariant
            start <= tokens.len(),
            all == views(tokens@),
            start + math_offset(all, start as int) == math_offset(all, 0),
        decreases tokens.len() - start,
    {
        assert(all[start as int] == tokens[start as int]@);
        start += 1;
    }
    assert(start < tokens.len() ==> all[start as int] == tokens[start as int]@);
    start
}

} // verus!
