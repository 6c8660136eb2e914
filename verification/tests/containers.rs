use anyval::order::{cmp, Order};
use anyval::{Any, Kind, Op, OpError};

fn num(x: f64) -> Any {
    Any::number_from_bits(x.to_bits())
}

fn text(s: &str) -> Any {
    Any::from_text(s)
}

fn set_of(items: Vec<Any>) -> Any {
    let mut s = Any::empty_set();
    for item in items {
        s = s.set_insert(item);
    }
    s
}

#[test]
fn set_order_is_deterministic() {
    // The same elements in any insertion order give the same set.
    let a = set_of(vec![num(2.0), text("b"), num(1.0), text("a")]);
    let b = set_of(vec![text("a"), num(1.0), text("b"), num(2.0)]);
    assert_eq!(a, b);
    // Texts rank before numbers, and each kind is ordered internally.
    match &a {
        Any::SetOf(items) => {
            assert_eq!(items.len(), 4);
            assert_eq!(items[0], text("a"));
            assert_eq!(items[1], text("b"));
            assert_eq!(items[2], num(1.0));
            assert_eq!(items[3], num(2.0));
        }
        other => panic!("expected a set, got {:?}", other),
    }
}

#[test]
fn set_keeps_elements_unique() {
    let s = set_of(vec![num(1.0), num(1.0), text("x"), text("x"), num(1.0)]);
    match &s {
        Any::SetOf(items) => assert_eq!(items.len(), 2),
        other => panic!("expected a set, got {:?}", other),
    }
}

#[test]
fn mapping_replaces_on_equal_key() {
    let m = Any::empty_mapping()
        .mapping_insert(text("k"), num(1.0))
        .mapping_insert(text("a"), num(0.0))
        .mapping_insert(text("k"), num(2.0));
    match &m {
        Any::Mapping(entries) => {
            assert_eq!(entries.len(), 2);
            assert_eq!(entries[0], (text("a"), num(0.0)));
            assert_eq!(entries[1], (text("k"), num(2.0)));
        }
        other => panic!("expected a mapping, got {:?}", other),
    }
}

#[test]
fn comparison_is_antisymmetric_on_samples() {
    let samples = [
        text(""),
        text("ab"),
        num(0.0),
        num(-1.5),
        Any::list_from_vec(vec![text("x"), num(3.0)]),
        Any::list_from_vec(vec![]),
        Any::empty_set(),
        Any::empty_mapping().mapping_insert(num(1.0), text("v")),
    ];
    for a in &samples {
        for b in &samples {
            let ab = cmp(a, b);
            let ba = cmp(b, a);
            let flipped = match ab {
                Order::Less => Order::Greater,
                Order::Equal => Order::Equal,
                Order::Greater => Order::Less,
            };
            assert_eq!(ba, flipped, "{:?} vs {:?}", a, b);
        }
    }
}

#[test]
fn nested_containers_reject_operators() {
    let nested = Any::list_from_vec(vec![set_of(vec![num(1.0)])]);
    let r = anyval::apply(Op::Mul, nested, num(2.0));
    assert_eq!(
        r,
        Err(OpError::Unsupported {
            op: Op::Mul,
            left: Kind::List,
            right: Kind::Number,
        })
    );
}
