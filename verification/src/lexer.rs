//! Lexical analysis: from the characters of a source text to its tokens.
use crate::error::ParseError;
use vstd::prelude::*;

verus! {

/// The kinds of token.
#[derive(Debug, Clone, Copy, PartialEq, Eq, Structural)]
pub enum Token {
    /// An integer literal, with its value.
    Number { value: u64 },
    /// A name: a letter or `_`, then letters, digits and `_`.
    Name,
    /// The word `let`.
    Let,
    /// The word `println`.
    PrintLn,
    /// `+`
    Plus,
    /// `*`
    Star,
    /// `(`
    Open,
    /// `)`
    Close,
    /// `=`
    Equals,
    /// `;`
    Semicolon,
    /// The end of the text.
    End,
}

/// A token and the characters it was read from: those from index `start` up
/// to, not including, index `end`.
#[derive(Debug, Clone, Copy, PartialEq, Eq, Structural)]
pub struct Lexeme {
    pub token: Token,
    pub start: usize,
    pub end: usize,
}

/// The classes of character that make up a run.
#[derive(Debug, Clone, Copy, PartialEq, Eq, Structural)]
pub enum Class {
    /// `0` to `9`.
    Digit,
    /// What a name may hold after its first character.
    Word,
    /// What a comment may hold: everything but the end of the line.
    Comment,
}

/// Whether `c` is space: a blank, a tab or the end of a line.
pub open spec fn is_space(c: char) -> bool {
    c == ' ' || c == '\t' || c == '\n' || c == '\r'
}

/// Whether `c` is one of `0` to `9`.
pub open spec fn is_digit(c: char) -> bool {
    '0' <= c <= '9'
}

/// Whether `c` may start a name: a letter of the alphabet or `_`.
pub open spec fn is_letter(c: char) -> bool {
    'a' <= c <= 'z' || 'A' <= c <= 'Z' || c == '_'
}

/// Whether `c` is of the class.
pub open spec fn belongs(c: char, class: Class) -> bool {
    match class {
        Class::Digit => is_digit(c),
        Class::Word => is_letter(c) || is_digit(c),
        Class::Comment => c != '\n',
    }
}

/// How many characters of the class stand in a row from index `at` on.
pub open spec fn run_length(text: Seq<char>, at: int, class: Class) -> nat
    decreases text.len() - at,
{
    if 0 <= at < text.len() && belongs(text[at], class) {
        1 + run_length(text, at + 1, class)
    } else {
        0
    }
}

/// The number that a row of digits writes in base ten.
pub open spec fn decimal(digits: Seq<char>) -> nat
    decreases digits.len(),
{
    if digits.len() == 0 {
        0
    } else {
        decimal(digits.drop_last()) * 10 + digit_value(digits.last())
    }
}

/// The number that one digit writes.
pub open spec fn digit_value(c: char) -> nat {
    if is_digit(c) {
        (c as nat - '0' as nat) as nat
    } else {
        0
    }
}

/// The token that the word `word` is: a keyword or a name.
pub open spec fn word_token(word: Seq<char>) -> Token {
    if word == seq!['l', 'e', 't'] {
        Token::Let
    } else if word == seq!['p', 'r', 'i', 'n', 't', 'l', 'n'] {
        Token::PrintLn
    } else {
        Token::Name
    }
}

/// The token that the single character `c` is, if it is one.
pub open spec fn sign_token(c: char) -> Option<Token> {
    if c == '+' {
        Some(Token::Plus)
    } else if c == '*' {
        Some(Token::Star)
    } else if c == '(' {
        Some(Token::Open)
    } else if c == ')' {
        Some(Token::Close)
    } else if c == '=' {
        Some(Token::Equals)
    } else if c == ';' {
        Some(Token::Semicolon)
    } else {
        None
    }
}

/// The run from index `at` on ends within the text.
pub proof fn lemma_run_within(text: Seq<char>, at: int, class: Class)
    requires
        0 <= at <= text.len(),
    ensures
        at + run_length(text, at, class) <= text.len(),
    decreases text.len() - at,
{
    if at < text.len() && belongs(text[at], class) {
        lemma_run_within(text, at + 1, class);
    }
}

/// The index behind the token that starts at index `at`. A literal takes all
/// the digits in a row, a word all the letters, digits and `_`; any other
/// token is one character.
pub open spec fn token_end(text: Seq<char>, at: int) -> int
    recommends
        0 <= at < text.len(),
{
    if is_digit(text[at]) {
        at + 1 + run_length(text, at + 1, Class::Digit)
    } else if is_letter(text[at]) {
        at + 1 + run_length(text, at + 1, Class::Word)
    } else {
        at + 1
    }
}

/// The token that starts at index `at`, where a character stands that is
/// neither space nor the start of a comment.
pub open spec fn token_at(text: Seq<char>, at: int) -> Result<Token, ParseError>
    recommends
        0 <= at < text.len(),
{
    let c = text[at];
    let written = text.subrange(at, token_end(text, at));
    if is_digit(c) {
        if decimal(written) > u64::MAX {
            Err(ParseError::NumberTooLarge { offset: at as usize })
        } else {
            Ok(Token::Number { value: decimal(written) as u64 })
        }
    } else if is_letter(c) {
        Ok(word_token(written))
    } else {
        match sign_token(c) {
            Some(token) => Ok(token),
            None => Err(ParseError::UnexpectedChar { offset: at as usize }),
        }
    }
}

/// Whether a comment starts at index `at`.
pub open spec fn comment_at(text: Seq<char>, at: int) -> bool {
    0 <= at && at + 1 < text.len() && text[at] == '/' && text[at + 1] == '/'
}

/// The token that marks the end of a text of the given length.
pub open spec fn end_of(length: nat) -> Lexeme {
    Lexeme { token: Token::End, start: length as usize, end: length as usize }
}

/// The tokens of the text from index `at` on. Space separates tokens and is
/// dropped; so is a comment, which runs from `//` to the end of its line. The
/// last token is `End`, at the length of the text. The first character that
/// starts no token, or the first literal that is too large, is the error.
pub open spec fn lex_from(text: Seq<char>, at: int) -> Result<Seq<Lexeme>, ParseError>
    decreases text.len() - at,
{
    if at < 0 || at >= text.len() {
        Ok(seq![end_of(text.len())])
    } else if is_space(text[at]) {
        lex_from(text, at + 1)
    } else if comment_at(text, at) {
        proof {
            lemma_run_within(text, at + 2, Class::Comment);
        }
        lex_from(text, at + 2 + run_length(text, at + 2, Class::Comment))
    } else {
        proof {
            lemma_run_within(text, at + 1, Class::Digit);
            lemma_run_within(text, at + 1, Class::Word);
        }
        match token_at(text, at) {
            Err(error) => Err(error),
            Ok(token) => followed_by(
                seq![Lexeme { token, start: at as usize, end: token_end(text, at) as usize }],
                lex_from(text, token_end(text, at)),
            ),
        }
    }
}

/// The tokens `done` and then those of `rest`, or the error that `rest` is.
pub open spec fn followed_by(done: Seq<Lexeme>, rest: Result<Seq<Lexeme>, ParseError>) -> Result<
    Seq<Lexeme>,
    ParseError,
> {
    match rest {
        Ok(more) => Ok(done + more),
        Err(error) => Err(error),
    }
}

/// The tokens of a text.
pub open spec fn lex(text: Seq<char>) -> Result<Seq<Lexeme>, ParseError> {
    lex_from(text, 0)
}

/// Whether the tokens end once: the last is `End`, and no other is.
pub open spec fn ends_once(tokens: Seq<Lexeme>) -> bool {
    &&& tokens.len() >= 1
    &&& tokens.last().token == Token::End
    &&& forall|i: int| 0 <= i < tokens.len() - 1 ==> (#[trigger] tokens[i]).token != Token::End
}

/// Whether every token was read from characters of the text.
pub open spec fn spans_within(text: Seq<char>, tokens: Seq<Lexeme>) -> bool {
    forall|i: int| 0 <= i < tokens.len() ==> (#[trigger] tokens[i]).start <= tokens[i].end <= text.len()
}

/// The tokens of a text end once.
pub proof fn lemma_lex_ends(text: Seq<char>, at: int)
    ensures
        lex_from(text, at) matches Ok(tokens) ==> ends_once(tokens),
    decreases text.len() - at,
{
    if 0 <= at < text.len() {
        if is_space(text[at]) {
            lemma_lex_ends(text, at + 1);
        } else if comment_at(text, at) {
            lemma_run_within(text, at + 2, Class::Comment);
            lemma_lex_ends(text, at + 2 + run_length(text, at + 2, Class::Comment));
        } else {
            lemma_run_within(text, at + 1, Class::Digit);
            lemma_run_within(text, at + 1, Class::Word);
            lemma_lex_ends(text, token_end(text, at));
        }
    }
}

/// The tokens of a text were read from characters of the text.
pub proof fn lemma_lex_spans(text: Seq<char>, at: int)
    requires
        0 <= at,
        text.len() <= usize::MAX,
    ensures
        lex_from(text, at) matches Ok(tokens) ==> spans_within(text, tokens),
    decreases text.len() - at,
{
    if at < text.len() {
        if is_space(text[at]) {
            lemma_lex_spans(text, at + 1);
        } else if comment_at(text, at) {
            lemma_run_within(text, at + 2, Class::Comment);
            lemma_lex_spans(text, at + 2 + run_length(text, at + 2, Class::Comment));
        } else {
            lemma_run_within(text, at + 1, Class::Digit);
            lemma_run_within(text, at + 1, Class::Word);
            lemma_lex_spans(text, token_end(text, at));
        }
    }
}

/// The model of what `tokenize` returns.
pub open spec fn lexed(res: Result<Vec<Lexeme>, ParseError>) -> Result<Seq<Lexeme>, ParseError> {
    match res {
        Ok(tokens) => Ok(tokens@),
        Err(error) => Err(error),
    }
}

/// Whether `c` is of the class.
fn in_class(c: char, class: Class) -> (yes: bool)
    ensures
        yes == belongs(c, class),
{
    match class {
        Class::Digit => '0' <= c && c <= '9',
        Class::Word => ('a' <= c && c <= 'z') || ('A' <= c && c <= 'Z') || c == '_' || ('0' <= c
            && c <= '9'),
        Class::Comment => c != '\n',
    }
}

/// The index behind the run of the class that starts at `at`.
fn run_end(text: &Vec<char>, at: usize, class: Class) -> (end: usize)
    requires
        at <= text.len(),
    ensures
        end == at + run_length(text@, at as int, class),
        end <= text.len(),
{
    let mut end = at;
    while end < text.len() && in_class(text[end], class)
        invariant
            at <= end <= text.len(),
            run_length(text@, at as int, class) == (end - at) + run_length(
                text@,
                end as int,
                class,
            ),
        decreases text.len() - end,
    {
        end += 1;
    }
    end
}

/// A row of digits writes no less than any row it starts with.
proof fn lemma_decimal_grows(text: Seq<char>, from: int, mid: int, to: int)
    requires
        0 <= from <= mid <= to <= text.len(),
    ensures
        decimal(text.subrange(from, mid)) <= decimal(text.subrange(from, to)),
    decreases to - mid,
{
    if mid < to {
        lemma_decimal_grows(text, from, mid, to - 1);
        assert(text.subrange(from, to).drop_last() =~= text.subrange(from, to - 1));
    }
}

/// The number that the digits from `from` up to `to` write, if it fits in 64
/// bits.
fn number(text: &Vec<char>, from: usize, to: usize) -> (value: Option<u64>)
    requires
        from <= to <= text.len(),
        forall|i: int| from <= i < to ==> is_digit(#[trigger] text[i]),
    ensures
        match value {
            Some(value) => decimal(text@.subrange(from as int, to as int)) == value,
            None => decimal(text@.subrange(from as int, to as int)) > u64::MAX,
        },
{
    let mut value: u64 = 0;
    let mut at = from;
    while at < to
        invariant
            from <= at <= to <= text.len(),
            forall|i: int| from <= i < to ==> is_digit(#[trigger] text[i]),
            value == decimal(text@.subrange(from as int, at as int)),
        decreases to - at,
    {
        let digit = (text[at] as u32 - '0' as u32) as u64;
        proof {
            assert(text@.subrange(from as int, at + 1).drop_last() =~= text@.subrange(
                from as int,
                at as int,
            ));
            assert(digit == digit_value(text[at as int]));
            lemma_decimal_grows(text@, from as int, at + 1, to as int);
        }
        let next = match value.checked_mul(10) {
            Some(shifted) => shifted.checked_add(digit),
            None => None,
        };
        match next {
            Some(next) => {
                value = next;
            },
            None => {
                return None;
            },
        }
        at += 1;
    }
    Some(value)
}

/// The token that the word from `from` up to `to` is.
fn word(text: &Vec<char>, from: usize, to: usize) -> (token: Token)
    requires
        from <= to <= text.len(),
    ensures
        token == word_token(text@.subrange(from as int, to as int)),
{
    let ghost written = text@.subrange(from as int, to as int);
    if to - from == 3 && text[from] == 'l' && text[from + 1] == 'e' && text[from + 2] == 't' {
        assert(written =~= seq!['l', 'e', 't']);
        Token::Let
    } else if to - from == 7 && text[from] == 'p' && text[from + 1] == 'r' && text[from + 2] == 'i'
        && text[from + 3] == 'n' && text[from + 4] == 't' && text[from + 5] == 'l' && text[from
        + 6] == 'n' {
        assert(written =~= seq!['p', 'r', 'i', 'n', 't', 'l', 'n']);
        Token::PrintLn
    } else {
        proof {
            let short = seq!['l', 'e', 't'];
            let long = seq!['p', 'r', 'i', 'n', 't', 'l', 'n'];
            assert(short.len() == 3 && short[0] == 'l' && short[1] == 'e' && short[2] == 't');
            assert(long.len() == 7 && long[0] == 'p' && long[1] == 'r' && long[2] == 'i' && long[3]
                == 'n' && long[4] == 't' && long[5] == 'l' && long[6] == 'n');
            if written == short {
                assert(written[0] == text[from as int] && written[1] == text[from + 1]
                    && written[2] == text[from + 2]);
            }
            if written == long {
                assert(written[0] == text[from as int] && written[1] == text[from + 1]
                    && written[2] == text[from + 2] && written[3] == text[from + 3] && written[4]
                    == text[from + 4] && written[5] == text[from + 5] && written[6] == text[from
                    + 6]);
            }
        }
        Token::Name
    }
}

/// The token that the single character `c` is, if it is one.
fn sign(c: char) -> (token: Option<Token>)
    ensures
        token == sign_token(c),
{
    if c == '+' {
        Some(Token::Plus)
    } else if c == '*' {
        Some(Token::Star)
    } else if c == '(' {
        Some(Token::Open)
    } else if c == ')' {
        Some(Token::Close)
    } else if c == '=' {
        Some(Token::Equals)
    } else if c == ';' {
        Some(Token::Semicolon)
    } else {
        None
    }
}

/// All the characters of a run are of its class.
proof fn lemma_run_members(text: Seq<char>, at: int, class: Class)
    requires
        0 <= at,
    ensures
        forall|i: int| at <= i < at + run_length(text, at, class) ==> belongs(#[trigger] text[i], class),
    decreases text.len() - at,
{
    if at < text.len() && belongs(text[at], class) {
        lemma_run_members(text, at + 1, class);
    }
}

/// The tokens of `text`, the last of them `End`; or the first character that
/// starts no token, or the first literal that is too large.
pub fn tokenize(text: &Vec<char>) -> (res: Result<Vec<Lexeme>, ParseError>)
    ensures
        lexed(res) == lex(text@),
        res matches Ok(tokens) ==> ends_once(tokens@) && spans_within(text@, tokens@),
{
    proof {
        lemma_lex_ends(text@, 0);
        lemma_lex_spans(text@, 0);
    }
    let mut tokens: Vec<Lexeme> = Vec::new();
    let mut at: usize = 0;
    assert(followed_by(tokens@, lex_from(text@, 0)) == lex(text@)) by {
        if let Ok(more) = lex_from(text@, 0) {
            assert(tokens@ + more =~= more);
        }
    }
    while at < text.len()
        invariant
            at <= text.len(),
            lex(text@) == followed_by(tokens@, lex_from(text@, at as int)),
        decreases text.len() - at,
    {
        let c = text[at];
        if c == ' ' || c == '\t' || c == '\n' || c == '\r' {
            at += 1;
        } else if c == '/' && at + 1 < text.len() && text[at + 1] == '/' {
            at = run_end(text, at + 2, Class::Comment);
        } else {
            let end = if in_class(c, Class::Digit) {
                run_end(text, at + 1, Class::Digit)
            } else if in_class(c, Class::Word) {
                run_end(text, at + 1, Class::Word)
            } else {
                at + 1
            };
            assert(end == token_end(text@, at as int));
            let token = if in_class(c, Class::Digit) {
                proof {
                    lemma_run_members(text@, at + 1, Class::Digit);
                }
                match number(text, at, end) {
                    Some(value) => Token::Number { value },
                    None => {
                        return Err(ParseError::NumberTooLarge { offset: at });
                    },
                }
            } else if in_class(c, Class::Word) {
                word(text, at, end)
            } else {
                match sign(c) {
                    Some(token) => token,
                    None => {
                        return Err(ParseError::UnexpectedChar { offset: at });
                    },
                }
            };
            assert(token_at(text@, at as int) == Ok::<Token, ParseError>(token));
            let lexeme = Lexeme { token, start: at, end };
            proof {
                if let Ok(more) = lex_from(text@, end as int) {
                    assert(tokens@ + (seq![lexeme] + more) =~= tokens@.push(lexeme) + more);
                }
            }
            tokens.push(lexeme);
            at = end;
        }
    }
    let ghost before = tokens@;
    tokens.push(Lexeme { token: Token::End, start: at, end: at });
    assert(tokens@ =~= before + seq![end_of(text@.len())]);
    Ok(tokens)
}

/// The characters of a string, in order.
pub fn characters(input: &str) -> (text: Vec<char>)
    ensures
        text@ == input@,
{
    let mut text: Vec<char> = Vec::new();
    for c in it: input.chars()
        invariant
            it.seq() == input@,
            text@ == input@.take(it.index() as int),
    {
        text.push(c);
        assert(text@ =~= input@.take(it.index() + 1));
    }
    assert(input@.take(input@.len() as int) =~= input@);
    text
}

} // verus!
