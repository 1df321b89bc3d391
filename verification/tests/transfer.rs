use rew::transfer::{PathDiff, Position, Terminator, TransferError, TransferErrorKind};

fn unpack_error(error: TransferError) -> (TransferErrorKind, String) {
    (error.kind, error.message)
}

#[test]
fn position() {
    let mut position = Position::new();
    assert_eq!(position.describe(), "item #1 at offset 0");
    position.increment(1);
    assert_eq!(position.describe(), "item #2 at offset 1");
    position.increment(2);
    assert_eq!(position.describe(), "item #3 at offset 3");
}

#[test]
fn empty() {
    assert_eq!(
        PathDiff::new("", Terminator::Newline).read().map_err(unpack_error),
        Ok(None)
    );
}

#[test]
fn valid() {
    let input = "<abc\n>def\n< g h i \n> j k l \n";
    let mut path_diff = PathDiff::new(input, Terminator::Newline);
    assert_eq!(
        path_diff.read().map_err(unpack_error),
        Ok(Some(("abc".to_string(), "def".to_string())))
    );
    assert_eq!(
        path_diff.read().map_err(unpack_error),
        Ok(Some((" g h i ".to_string(), " j k l ".to_string())))
    );
    assert_eq!(path_diff.read().map_err(unpack_error), Ok(None));
}

#[test]
fn invalid_in_prefix() {
    assert_eq!(
        PathDiff::new("abc", Terminator::Newline).read().map_err(unpack_error),
        Err((
            TransferErrorKind::InvalidData,
            String::from("Expected '<' but got 'a' (item #1 at offset 0)")
        ))
    )
}

#[test]
fn invalid_out_prefix() {
    assert_eq!(
        PathDiff::new("<abc\ndef", Terminator::Newline).read().map_err(unpack_error),
        Err((
            TransferErrorKind::InvalidData,
            String::from("Expected '>' but got 'd' (item #2 at offset 5)")
        ))
    )
}

#[test]
fn no_in_path() {
    assert_eq!(
        PathDiff::new("<", Terminator::Newline).read().map_err(unpack_error),
        Err((
            TransferErrorKind::UnexpectedEof,
            String::from("Expected a path after '<' (item #1 at offset 0)")
        ))
    )
}

#[test]
fn no_out_path() {
    assert_eq!(
        PathDiff::new("<abc\n>", Terminator::Newline).read().map_err(unpack_error),
        Err((
            TransferErrorKind::UnexpectedEof,
            String::from("Expected a path after '>' (item #2 at offset 5)")
        ))
    )
}

#[test]
fn no_out() {
    assert_eq!(
        PathDiff::new("<abc", Terminator::Newline).read().map_err(unpack_error),
        Err((
            TransferErrorKind::UnexpectedEof,
            String::from("Expected '>' (item #2 at offset 4)")
        ))
    )
}

#[test]
fn empty_out() {
    assert_eq!(
        PathDiff::new("<abc\n\n", Terminator::Newline).read().map_err(unpack_error),
        Err((
            TransferErrorKind::UnexpectedEof,
            String::from("Expected '>' (item #2 at offset 5)")
        ))
    )
}
