use haskell_lib::lexer::token::{Needed, Token, Tokens};

fn buffer() -> Vec<Token> {
    vec![Token::IntLiteral(1), Token::Plus, Token::IntLiteral(2), Token::EOF]
}

#[test]
fn new_stream_spans_the_buffer() {
    let buffer = buffer();
    let stream = Tokens::new(&buffer);
    assert_eq!(stream.input_len(), 4);
    for (offset, token) in buffer.iter().enumerate() {
        assert_eq!(stream.peek(offset), Some(token));
    }
    let empty: Vec<Token> = Vec::new();
    assert_eq!(Tokens::new(&empty).input_len(), 0);
}

#[test]
fn peek_reads_ahead_without_consuming() {
    let buffer = buffer();
    let stream = Tokens::new(&buffer);
    assert_eq!(stream.peek(0), Some(&Token::IntLiteral(1)));
    assert_eq!(stream.peek(3), Some(&Token::EOF));
    assert_eq!(stream.peek(4), None);
    assert_eq!(stream.peek(usize::MAX), None);
    assert_eq!(stream.input_len(), 4);
}

#[test]
fn slice_index_tells_whether_enough_tokens_remain() {
    let buffer = buffer();
    let stream = Tokens::new(&buffer);
    assert_eq!(stream.slice_index(0), Ok(0));
    assert_eq!(stream.slice_index(4), Ok(4));
    assert_eq!(stream.slice_index(5), Err(Needed { missing: 1 }));
    assert_eq!(stream.slice_index(10), Err(Needed { missing: 6 }));
}

#[test]
fn take_gives_the_next_tokens() {
    let buffer = buffer();
    let stream = Tokens::new(&buffer);
    let taken = stream.take(2).unwrap();
    assert_eq!(taken.input_len(), 2);
    assert_eq!(taken.peek(0), Some(&Token::IntLiteral(1)));
    assert_eq!(taken.peek(1), Some(&Token::Plus));
    assert_eq!(taken.peek(2), None);
    assert_eq!(stream.take(4).unwrap().input_len(), 4);
    assert_eq!(stream.take(0).unwrap().input_len(), 0);
    assert_eq!(stream.take(5), Err(Needed { missing: 1 }));
}

#[test]
fn take_split_gives_consumed_then_remainder() {
    let buffer = buffer();
    let stream = Tokens::new(&buffer);
    let (consumed, remainder) = stream.take_split(1);
    assert_eq!(consumed, stream.take(1).unwrap());
    assert_eq!(consumed.input_len(), 1);
    assert_eq!(consumed.peek(0), Some(&Token::IntLiteral(1)));
    assert_eq!(consumed.peek(1), None);
    assert_eq!(remainder.peek(0), Some(&Token::Plus));
    assert_eq!(remainder.input_len(), 3);

    let (again, rest) = remainder.take_split(2);
    assert_eq!(again.peek(1), Some(&Token::IntLiteral(2)));
    assert_eq!(rest.peek(0), Some(&Token::EOF));
    assert_eq!(rest.take(2), Err(Needed { missing: 1 }));

    let (all, nothing) = stream.take_split(4);
    assert_eq!(all.input_len(), 4);
    assert_eq!(nothing.input_len(), 0);
    assert_eq!(nothing.peek(0), None);
}

#[test]
fn splitting_shares_the_buffer() {
    let buffer = buffer();
    let stream = Tokens::new(&buffer);
    let (consumed, remainder) = stream.take_split(2);
    assert!(std::ptr::eq(consumed.peek(0).unwrap(), &buffer[0]));
    assert!(std::ptr::eq(consumed.peek(1).unwrap(), &buffer[1]));
    assert!(std::ptr::eq(remainder.peek(0).unwrap(), &buffer[2]));
    assert!(std::ptr::eq(remainder.peek(1).unwrap(), &buffer[3]));
    assert_eq!(stream, Tokens::new(&buffer));
}
