use tape_machine::nesting::{check_nesting, NestingError};
use tape_machine::token::{tokenize, Token};

#[test]
fn each_instruction_character_has_its_token() {
    assert_eq!(
        tokenize("><+-.,[]"),
        vec![
            Token::INCP,
            Token::DECP,
            Token::INCC,
            Token::DECC,
            Token::PCHR,
            Token::GCHR,
            Token::LBRK,
            Token::RBRK,
        ]
    );
}

#[test]
fn from_char_reads_single_characters() {
    assert_eq!(Token::from_char('>'), Some(Token::INCP));
    assert_eq!(Token::from_char('<'), Some(Token::DECP));
    assert_eq!(Token::from_char('+'), Some(Token::INCC));
    assert_eq!(Token::from_char('-'), Some(Token::DECC));
    assert_eq!(Token::from_char('.'), Some(Token::PCHR));
    assert_eq!(Token::from_char(','), Some(Token::GCHR));
    assert_eq!(Token::from_char('['), Some(Token::LBRK));
    assert_eq!(Token::from_char(']'), Some(Token::RBRK));
    assert_eq!(Token::from_char('a'), None);
    assert_eq!(Token::from_char(' '), None);
    assert_eq!(Token::from_char('\n'), None);
    assert_eq!(Token::from_char('é'), None);
}

#[test]
fn other_characters_are_dropped_and_order_is_kept() {
    let code = tokenize("move > right, then + add.\n[ loop ] -- é <");
    assert_eq!(
        code,
        vec![
            Token::INCP,
            Token::GCHR,
            Token::INCC,
            Token::PCHR,
            Token::LBRK,
            Token::RBRK,
            Token::DECC,
            Token::DECC,
            Token::DECP,
        ]
    );
}

#[test]
fn length_is_the_count_of_instruction_characters() {
    let source = "a+b-c[d]e.f,g>h<i 12345 ++ \t\n";
    let count = source.chars().filter(|c| "><+-.,[]".contains(*c)).count();
    assert_eq!(count, 10);
    assert_eq!(tokenize(source).len(), count);
}

#[test]
fn empty_and_comment_only_text_give_the_empty_program() {
    assert!(tokenize("").is_empty());
    assert!(tokenize("nothing to see").is_empty());
}

#[test]
fn balanced_programs_pass() {
    assert_eq!(check_nesting(&tokenize("")), Ok(()));
    assert_eq!(check_nesting(&tokenize("+-><.,")), Ok(()));
    assert_eq!(check_nesting(&tokenize("[]")), Ok(()));
    assert_eq!(check_nesting(&tokenize("[[][]][]")), Ok(()));
    assert_eq!(check_nesting(&tokenize("+[>[-]<-]")), Ok(()));
}

#[test]
fn stray_close_is_refused() {
    assert_eq!(check_nesting(&tokenize("]")), Err(NestingError::StrayClose));
    assert_eq!(check_nesting(&tokenize("][")), Err(NestingError::StrayClose));
    assert_eq!(check_nesting(&tokenize("[]]")), Err(NestingError::StrayClose));
    assert_eq!(check_nesting(&tokenize("[]][[")), Err(NestingError::StrayClose));
}

#[test]
fn unclosed_open_is_refused() {
    assert_eq!(check_nesting(&tokenize("[")), Err(NestingError::UnclosedOpen));
    assert_eq!(check_nesting(&tokenize("[[]")), Err(NestingError::UnclosedOpen));
    assert_eq!(check_nesting(&tokenize("+[-[>]")), Err(NestingError::UnclosedOpen));
}
