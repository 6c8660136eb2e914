use anyval::{apply, Any, Op, OpError, Outcome};

/// Runs one operator application to completion, supplying the two
/// floating-point tasks (arithmetic, decimal rendering) a host owes the
/// library.
fn eval(op: Op, a: Any, b: Any) -> Result<Any, OpError> {
    match apply(op, a, b)? {
        Outcome::Done(v) => Ok(v),
        Outcome::NeedsArith { op, left, right } => {
            let x = f64::from_bits(left);
            let y = f64::from_bits(right);
            let z = match op {
                Op::Add => x + y,
                Op::Sub => x - y,
                Op::Mul => x * y,
                Op::Div => x / y,
            };
            Ok(Any::number_from_bits(z.to_bits()))
        }
        Outcome::NeedsRender {
            bits,
            text,
            number_first,
        } => {
            let rendered = format!("{}", f64::from_bits(bits));
            Ok(Any::finish_render(rendered, text, number_first))
        }
    }
}

fn num(x: f64) -> Any {
    Any::number_from_bits(x.to_bits())
}

fn num_int(x: i64) -> Any {
    num(x as f64)
}

fn text(s: &str) -> Any {
    Any::from_text(s)
}

fn texts(items: &[&str]) -> Any {
    Any::list_from_vec(items.iter().map(|s| Any::from_text(s)).collect())
}

#[test]
fn add() {
    let result = eval(Op::Add, num(0.1), num_int(2)).unwrap();
    assert_eq!(result, num(2.1));
    let result = eval(Op::Add, text("count: "), num_int(100)).unwrap();
    assert_eq!(result, text("count: 100"));
}

#[test]
fn sub() {
    let result = eval(Op::Sub, num(0.1), num_int(2)).unwrap();
    assert_eq!(result, num(-1.9));
}

#[test]
fn mul() {
    let result = eval(Op::Mul, num(0.1), num_int(2)).unwrap();
    assert_eq!(result, num(0.2));
    let result = eval(Op::Mul, text("abc"), num_int(10)).unwrap();
    assert_eq!(result, text("abcabcabcabcabcabcabcabcabcabc"));
    let s: Any = text("hello world!");
    let n: Any = num_int(2);
    assert_eq!(eval(Op::Mul, s, n).unwrap(), text("hello world!hello world!"));
}

#[test]
fn div() {
    let result = eval(Op::Div, num_int(5), num_int(2)).unwrap();
    assert_eq!(result, num(2.5));
    let result = eval(Op::Div, text("hello there world!"), text(" ")).unwrap();
    assert_eq!(result, texts(&["hello", "there", "world!"]));
    let result = eval(Op::Div, text("hello there world!"), num_int(3)).unwrap();
    assert_eq!(result, texts(&["hel", "lo ", "the", "re ", "wor", "ld!"]));
}

#[test]
fn number_rendered_before_text() {
    let result = eval(Op::Add, num_int(7), text(" dwarves")).unwrap();
    assert_eq!(result, text("7 dwarves"));
}

#[test]
fn operator_methods_match_apply() {
    let r = num_int(3).add(num_int(4)).unwrap();
    assert_eq!(
        r,
        Outcome::NeedsArith {
            op: Op::Add,
            left: (3.0f64).to_bits(),
            right: (4.0f64).to_bits(),
        }
    );
    let r = text("ab").mul(num_int(2)).unwrap();
    assert_eq!(r, Outcome::Done(text("abab")));
    let r = text("a b").div(text(" ")).unwrap();
    assert_eq!(r, Outcome::Done(texts(&["a", "b"])));
    let r = num_int(9).sub(num_int(4)).unwrap();
    assert_eq!(
        r,
        Outcome::NeedsArith {
            op: Op::Sub,
            left: (9.0f64).to_bits(),
            right: (4.0f64).to_bits(),
        }
    );
}

#[test]
fn divide_by_zero_follows_ieee() {
    // Number division keeps raw IEEE-754 semantics: dividing by zero
    // yields an infinity rather than an error.
    let result = eval(Op::Div, num_int(1), num_int(0)).unwrap();
    assert_eq!(result, num(f64::INFINITY));
}
