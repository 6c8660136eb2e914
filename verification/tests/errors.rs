use anyval::{apply, Any, Kind, Op, OpError, Outcome};

fn num(x: f64) -> Any {
    Any::number_from_bits(x.to_bits())
}

fn text(s: &str) -> Any {
    Any::from_text(s)
}

#[test]
fn set_plus_mapping_is_unsupported() {
    let r = apply(Op::Add, Any::empty_set(), Any::empty_mapping());
    assert_eq!(
        r,
        Err(OpError::Unsupported {
            op: Op::Add,
            left: Kind::SetOf,
            right: Kind::Mapping,
        })
    );
}

#[test]
fn undefined_pairings_are_unsupported() {
    let r = apply(Op::Add, text("a"), text("b"));
    assert_eq!(
        r,
        Err(OpError::Unsupported {
            op: Op::Add,
            left: Kind::Text,
            right: Kind::Text,
        })
    );
    let r = apply(Op::Sub, text("a"), num(1.0));
    assert_eq!(
        r,
        Err(OpError::Unsupported {
            op: Op::Sub,
            left: Kind::Text,
            right: Kind::Number,
        })
    );
    let r = apply(Op::Mul, num(2.0), text("a"));
    assert_eq!(
        r,
        Err(OpError::Unsupported {
            op: Op::Mul,
            left: Kind::Number,
            right: Kind::Text,
        })
    );
    let r = apply(
        Op::Div,
        Any::list_from_vec(vec![num(1.0)]),
        Any::list_from_vec(vec![]),
    );
    assert_eq!(
        r,
        Err(OpError::Unsupported {
            op: Op::Div,
            left: Kind::List,
            right: Kind::List,
        })
    );
}

#[test]
fn chunk_width_zero_is_out_of_range() {
    // 0.5 truncates toward zero to a width of 0.
    let r = apply(Op::Div, text("abc"), num(0.5));
    assert_eq!(r, Err(OpError::OutOfRange { op: Op::Div }));
}

#[test]
fn chunk_width_negative_is_out_of_range() {
    let r = apply(Op::Div, text("abc"), num(-3.0));
    assert_eq!(r, Err(OpError::OutOfRange { op: Op::Div }));
}

#[test]
fn chunk_width_nan_is_out_of_range() {
    let r = apply(Op::Div, text("abc"), num(f64::NAN));
    assert_eq!(r, Err(OpError::OutOfRange { op: Op::Div }));
}

#[test]
fn supported_pairs_succeed() {
    assert!(apply(Op::Add, num(1.0), num(2.0)).is_ok());
    assert!(apply(Op::Add, num(1.0), text("x")).is_ok());
    assert!(apply(Op::Add, text("x"), num(1.0)).is_ok());
    assert!(apply(Op::Sub, num(1.0), num(2.0)).is_ok());
    assert!(apply(Op::Mul, num(1.0), num(2.0)).is_ok());
    assert!(apply(Op::Mul, text("x"), num(1.0)).is_ok());
    assert!(apply(Op::Div, num(1.0), num(2.0)).is_ok());
    assert!(apply(Op::Div, text("x"), text("y")).is_ok());
    assert!(apply(Op::Div, text("x"), num(1.0)).is_ok());
    // A successful text rule really is finished work, not a task.
    match apply(Op::Mul, text("xy"), num(3.0)).unwrap() {
        Outcome::Done(v) => assert_eq!(v, text("xyxyxy")),
        other => panic!("expected a finished value, got {:?}", other),
    }
}
