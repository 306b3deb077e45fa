use brainfuck_rust::{lex, Token, TokenValue};

#[test]
fn test_lexer() {
    let program_string = "\
<>+-adsfl ageaf
.,[qowejga]";

    assert_eq!(
        vec![
            Token {
                value: TokenValue::MoveLeft
            },
            Token {
                value: TokenValue::MoveRight
            },
            Token {
                value: TokenValue::IncrementCell
            },
            Token {
                value: TokenValue::DecrementCell
            },
            Token {
                value: TokenValue::Output
            },
            Token {
                value: TokenValue::Input
            },
            Token {
                value: TokenValue::JumpForwardIfZero
            },
            Token {
                value: TokenValue::JumpBackwardIfNonZero
            },
            Token {
                value: TokenValue::End
            }
        ],
        lex(program_string)
    );
}

#[test]
fn lex_instruction_free_text_gives_end_only() {
    let tokens = lex("hello world 123 abc\n\t xyz");
    assert_eq!(tokens.len(), 1);
    assert_eq!(tokens[0].value, TokenValue::End);
}

#[test]
fn lex_empty_text_gives_end_only() {
    assert_eq!(lex(""), vec![Token::build_end()]);
}

#[test]
fn lex_all_instructions_in_order() {
    let tokens = lex("<>+-.,[]");
    let values: Vec<TokenValue> = tokens.iter().map(|t| t.value).collect();
    assert_eq!(
        values,
        vec![
            TokenValue::MoveLeft,
            TokenValue::MoveRight,
            TokenValue::IncrementCell,
            TokenValue::DecrementCell,
            TokenValue::Output,
            TokenValue::Input,
            TokenValue::JumpForwardIfZero,
            TokenValue::JumpBackwardIfNonZero,
            TokenValue::End,
        ]
    );
}

#[test]
fn lex_is_deterministic() {
    let text = "++[>+<-] some comment >.";
    assert_eq!(lex(text), lex(text));
}

#[test]
fn build_maps_each_instruction_character() {
    assert_eq!(Token::build('>').unwrap().value, TokenValue::MoveRight);
    assert_eq!(Token::build('<').unwrap().value, TokenValue::MoveLeft);
    assert_eq!(Token::build('+').unwrap().value, TokenValue::IncrementCell);
    assert_eq!(Token::build('-').unwrap().value, TokenValue::DecrementCell);
    assert_eq!(Token::build('.').unwrap().value, TokenValue::Output);
    assert_eq!(Token::build(',').unwrap().value, TokenValue::Input);
    assert_eq!(Token::build('[').unwrap().value, TokenValue::JumpForwardIfZero);
    assert_eq!(Token::build(']').unwrap().value, TokenValue::JumpBackwardIfNonZero);
    assert_eq!(Token::build('a'), None);
    assert_eq!(Token::build(' '), None);
}
