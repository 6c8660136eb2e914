use anyval::{apply, Any, Op, OpError, Outcome};

fn eval(op: Op, a: Any, b: Any) -> Result<Any, OpError> {
    match apply(op, a, b)? {
        Outcome::Done(v) => Ok(v),
        Outcome::NeedsArith { op, left, right } => {
            let x = f64::from_bits(left);
            let y = f64::from_bits(right);
            let z = match op {
                Op::Add => x + y,
                Op::Sub => x - y,
                Op::Mul => x * y,
                Op::Div => x / y,
            };
            Ok(Any::number_from_bits(z.to_bits()))
        }
        Outcome::NeedsRender {
            bits,
            text,
            number_first,
        } => {
            let rendered = format!("{}", f64::from_bits(bits));
            Ok(Any::finish_render(rendered, text, number_first))
        }
    }
}

fn num(x: f64) -> Any {
    Any::number_from_bits(x.to_bits())
}

fn text(s: &str) -> Any {
    Any::from_text(s)
}

fn as_f64(v: &Any) -> f64 {
    match v {
        Any::Number(bits) => f64::from_bits(*bits),
        other => panic!("expected a number, got {:?}", other),
    }
}

fn as_str_list(v: Any) -> Vec<String> {
    match v {
        Any::List(items) => items
            .into_iter()
            .map(|item| match item {
                Any::Text(s) => s,
                other => panic!("expected text, got {:?}", other),
            })
            .collect(),
        other => panic!("expected a list, got {:?}", other),
    }
}

#[test]
fn addition_and_multiplication_commute() {
    let pairs = [(0.1, 2.0), (-3.5, 7.25), (1e10, 1e-10), (0.0, -0.0)];
    for (a, b) in pairs {
        let left = eval(Op::Add, num(a), num(b)).unwrap();
        let right = eval(Op::Add, num(b), num(a)).unwrap();
        assert_eq!(left, right);
        let left = eval(Op::Mul, num(a), num(b)).unwrap();
        let right = eval(Op::Mul, num(b), num(a)).unwrap();
        assert_eq!(left, right);
    }
}

#[test]
fn division_inverts_multiplication_within_tolerance() {
    let pairs = [(1.0, 3.0), (0.1, 2.0), (-7.5, 0.3), (1e6, -11.0)];
    for (a, b) in pairs {
        let quotient = eval(Op::Div, num(a), num(b)).unwrap();
        let back = eval(Op::Mul, quotient, num(b)).unwrap();
        let got = as_f64(&back);
        assert!((got - a).abs() <= 1e-9 * a.abs().max(1.0), "{a} / {b} * {b} = {got}");
    }
}

#[test]
fn repetition_length_and_content() {
    let t = "ab!";
    let n = 5;
    let result = eval(Op::Mul, text(t), num(n as f64)).unwrap();
    match &result {
        Any::Text(s) => {
            assert_eq!(s.chars().count(), n * t.chars().count());
            assert_eq!(s, &t.repeat(n));
        }
        other => panic!("expected text, got {:?}", other),
    }
}

#[test]
fn repetition_by_zero_is_empty() {
    assert_eq!(eval(Op::Mul, text("abc"), num(0.0)).unwrap(), text(""));
    // A fractional count keeps only its whole part.
    assert_eq!(eval(Op::Mul, text("abc"), num(1.9)).unwrap(), text("abc"));
    // A negative count truncates and saturates to zero repetitions.
    assert_eq!(eval(Op::Mul, text("abc"), num(-2.0)).unwrap(), text(""));
}

#[test]
fn splitting_then_joining_reconstructs() {
    let cases = [
        ("hello there world!", " "),
        ("a,b,,c", ","),
        ("no delimiter here", "|"),
        ("xx", "x"),
    ];
    for (t, d) in cases {
        let split = eval(Op::Div, text(t), text(d)).unwrap();
        let pieces = as_str_list(split);
        assert_eq!(pieces.join(d), t);
        assert_eq!(pieces, t.split(d).collect::<Vec<_>>());
    }
}

#[test]
fn splitting_at_empty_delimiter_cuts_every_boundary() {
    let split = eval(Op::Div, text("ab"), text("")).unwrap();
    assert_eq!(as_str_list(split), vec!["", "a", "b", ""]);
    let split = eval(Op::Div, text(""), text("")).unwrap();
    assert_eq!(as_str_list(split), vec!["", ""]);
}

#[test]
fn splitting_empty_text_gives_one_empty_piece() {
    let split = eval(Op::Div, text(""), text(" ")).unwrap();
    assert_eq!(as_str_list(split), vec![""]);
}

#[test]
fn chunking_concatenates_back_and_fills_every_chunk_but_the_last() {
    let cases = [("hello there world!", 3), ("hello", 2), ("xyz", 7), ("", 4)];
    for (t, k) in cases {
        let chunked = eval(Op::Div, text(t), num(k as f64)).unwrap();
        let chunks = as_str_list(chunked);
        assert_eq!(chunks.concat(), t);
        for (i, c) in chunks.iter().enumerate() {
            if i + 1 < chunks.len() {
                assert_eq!(c.chars().count(), k);
            } else {
                assert!(c.chars().count() >= 1 && c.chars().count() <= k);
            }
        }
    }
}

#[test]
fn chunking_counts_characters_not_bytes() {
    let chunked = eval(Op::Div, text("héllo wörld"), num(2.0)).unwrap();
    assert_eq!(
        as_str_list(chunked),
        vec!["hé", "ll", "o ", "wö", "rl", "d"]
    );
}

#[test]
fn values_compare_structurally() {
    assert_eq!(text("1"), text("1"));
    assert_ne!(text("1"), num(1.0));
    assert_ne!(num(1.0), num(2.0));
    assert_eq!(
        Any::list_from_vec(vec![text("a"), num(1.0)]),
        Any::list_from_vec(vec![text("a"), num(1.0)])
    );
    assert_ne!(Any::empty_set(), Any::empty_mapping());
    assert_ne!(Any::list_from_vec(vec![]), Any::empty_set());
}
