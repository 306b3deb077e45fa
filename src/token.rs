use vstd::prelude::*;

verus! {

/// One decoded instruction of a program.
#[derive(PartialEq, Eq, Structural, Clone, Copy, Debug)]
pub enum TokenValue {
    MoveRight,
    MoveLeft,
    IncrementCell,
    DecrementCell,
    Output,
    Input,
    JumpForwardIfZero,
    JumpBackwardIfNonZero,
    End,
}

/// A token of a program: the instruction it stands for.
#[derive(PartialEq, Eq, Structural, Clone, Copy, Debug)]
pub struct Token {
    pub value: TokenValue,
}

/// The instruction that a character of program text stands for, if any.
pub open spec fn instruction_of(c: char) -> Option<TokenValue> {
    match c {
        '>' => Some(TokenValue::MoveRight),
        '<' => Some(TokenValue::MoveLeft),
        '+' => Some(TokenValue::IncrementCell),
        '-' => Some(TokenValue::DecrementCell),
        '.' => Some(TokenValue::Output),
        ',' => Some(TokenValue::Input),
        '[' => Some(TokenValue::JumpForwardIfZero),
        ']' => Some(TokenValue::JumpBackwardIfNonZero),
        _ => None,
    }
}

/// The token that a character of program text becomes, if any.
pub open spec fn token_of(c: char) -> Option<Token> {
    match instruction_of(c) {
        Some(v) => Some(Token { value: v }),
        None => None,
    }
}

/// The tokens of program text, in order, without the end marker.
pub open spec fn tokens_of(s: Seq<char>) -> Seq<Token>
    decreases s.len(),
{
    if s.len() == 0 {
        seq![]
    } else {
        let front = tokens_of(s.drop_last());
        match token_of(s.last()) {
            Some(t) => front.push(t),
            None => front,
        }
    }
}

/// The program that text stands for: its tokens followed by one end marker.
pub open spec fn program_of(s: Seq<char>) -> Seq<Token> {
    tokens_of(s).push(Token { value: TokenValue::End })
}

/// A well-formed program: at least one token, the last one is the end
/// marker, and the end marker stands nowhere else.
pub open spec fn is_program(p: Seq<Token>) -> bool {
    &&& p.len() >= 1
    &&& p.last().value == TokenValue::End
    &&& forall|i: int| 0 <= i < p.len() - 1 ==> p[i].value != TokenValue::End
}

/// Text yields no token other than the end marker.
pub proof fn lemma_tokens_of_has_no_end(s: Seq<char>)
    ensures
        forall|i: int| 0 <= i < tokens_of(s).len() ==> tokens_of(s)[i].value != TokenValue::End,
    decreases s.len(),
{
    if s.len() > 0 {
        lemma_tokens_of_has_no_end(s.drop_last());
    }
}

/// What text becomes is always a well-formed program.
pub proof fn lemma_program_of_is_program(s: Seq<char>)
    ensures
        is_program(program_of(s)),
{
    lemma_tokens_of_has_no_end(s);
    let p = program_of(s);
    assert forall|i: int| 0 <= i < p.len() - 1 implies p[i].value != TokenValue::End by {
        assert(p[i] == tokens_of(s)[i]);
    }
}

/// Text in which no character has an instruction meaning becomes the program
/// that holds the end marker alone.
pub proof fn lemma_program_of_instruction_free(s: Seq<char>)
    requires
        forall|i: int| 0 <= i < s.len() ==> instruction_of(#[trigger] s[i]) is None,
    ensures
        program_of(s) == seq![Token { value: TokenValue::End }],
        program_of(s).len() == 1,
    decreases s.len(),
{
    if s.len() > 0 {
        let f = s.drop_last();
        assert forall|i: int| 0 <= i < f.len() implies instruction_of(#[trigger] f[i]) is None by {
            assert(f[i] == s[i]);
        }
        lemma_program_of_instruction_free(f);
        assert(instruction_of(s[s.len() - 1]) is None);
    }
    assert(tokens_of(s) =~= seq![]);
    assert(program_of(s) =~= seq![Token { value: TokenValue::End }]);
}

/// Tokenizing is a function of the text alone: the same text always gives
/// the same program.
pub proof fn lemma_program_of_deterministic(a: Seq<char>, b: Seq<char>)
    requires
        a == b,
    ensures
        program_of(a) == program_of(b),
{
}

impl Token {
    /// The token for one character of program text; `None` for a character
    /// that has no instruction meaning.
    pub fn build(c: char) -> (r: Option<Token>)
        ensures
            r == token_of(c),
    {
        match c {
            '>' => Some(Token { value: TokenValue::MoveRight }),
            '<' => Some(Token { value: TokenValue::MoveLeft }),
            '+' => Some(Token { value: TokenValue::IncrementCell }),
            '-' => Some(Token { value: TokenValue::DecrementCell }),
            '.' => Some(Token { value: TokenValue::Output }),
            ',' => Some(Token { value: TokenValue::Input }),
            '[' => Some(Token { value: TokenValue::JumpForwardIfZero }),
            ']' => Some(Token { value: TokenValue::JumpBackwardIfNonZero }),
            _ => None,
        }
    }

    /// The end-of-program marker.
    pub fn build_end() -> (r: Token)
        ensures
            r.value == TokenValue::End,
    {
        Token { value: TokenValue::End }
    }
}

} // verus!
