use jqbe::json::{json_equal, JsonValue};
use jqbe::number::{float_bits_of_u64, JsonNumber};
use jqbe::text::{push_decimal, str_eq, str_order, Compared};

fn s(text: &str) -> JsonValue {
    JsonValue::String(text.to_string())
}

fn n(value: u64) -> JsonValue {
    JsonValue::Number(JsonNumber::PosInt(value))
}

fn f(value: f64) -> JsonValue {
    JsonValue::Number(JsonNumber::Float(value.to_bits()))
}

fn obj(members: Vec<(&str, JsonValue)>) -> JsonValue {
    JsonValue::Object(members.into_iter().map(|(k, v)| (k.to_string(), v)).collect())
}

#[test]
fn float_bits_match_conversion() {
    for u in [0u64, 1, 2, 3, 100, 150, 1 << 52, (1 << 53) - 1, 1 << 53, (1 << 53) + 1, (1 << 53) + 3, u64::MAX, 12345678901234567890] {
        assert_eq!(float_bits_of_u64(u), (u as f64).to_bits(), "for {u}");
    }
}

#[test]
fn number_keys_order_like_floats() {
    let values = [
        JsonNumber::NegInt(-5),
        JsonNumber::Float((-2.5f64).to_bits()),
        JsonNumber::Float((-0.0f64).to_bits()),
        JsonNumber::PosInt(0),
        JsonNumber::Float(0.5f64.to_bits()),
        JsonNumber::PosInt(1),
        JsonNumber::Float(100.25f64.to_bits()),
        JsonNumber::PosInt(9007199254740993),
    ];
    let as_float = |n: &JsonNumber| match n {
        JsonNumber::PosInt(u) => *u as f64,
        JsonNumber::NegInt(i) => *i as f64,
        JsonNumber::Float(b) => f64::from_bits(*b),
    };
    for a in &values {
        for b in &values {
            assert_eq!(a.key() < b.key(), as_float(a) < as_float(b));
            assert_eq!(a.key() == b.key(), as_float(a) == as_float(b));
        }
    }
}

#[test]
fn number_equality_follows_representation() {
    assert!(JsonNumber::PosInt(1).equals(&JsonNumber::PosInt(1)));
    assert!(!JsonNumber::PosInt(1).equals(&JsonNumber::Float(1.0f64.to_bits())));
    assert!(JsonNumber::Float(0.0f64.to_bits()).equals(&JsonNumber::Float((-0.0f64).to_bits())));
    assert!(!JsonNumber::Float(f64::NAN.to_bits()).equals(&JsonNumber::Float(f64::NAN.to_bits())));
    assert!(JsonNumber::Float(f64::NAN.to_bits()).is_nan());
    assert_eq!(JsonNumber::PosInt(7).as_u64(), Some(7));
    assert_eq!(JsonNumber::NegInt(-7).as_u64(), None);
}

#[test]
fn objects_equal_in_any_member_order() {
    let a = obj(vec![("x", n(1)), ("y", s("two"))]);
    let b = obj(vec![("y", s("two")), ("x", n(1))]);
    let c = obj(vec![("y", s("two")), ("x", n(2))]);
    let d = obj(vec![("x", n(1))]);
    assert!(json_equal(&a, &b));
    assert!(!json_equal(&a, &c));
    assert!(!json_equal(&a, &d));
    assert!(!json_equal(&d, &a));
    assert!(json_equal(&JsonValue::Array(vec![a.deep_copy()]), &JsonValue::Array(vec![b.deep_copy()])));
    assert!(!json_equal(&f(f64::NAN), &f(f64::NAN)));
}

#[test]
fn later_member_is_the_one_read() {
    let v = obj(vec![("x", n(1)), ("x", n(2))]);
    assert!(matches!(v.get("x"), Some(JsonValue::Number(JsonNumber::PosInt(2)))));
    assert!(v.get("y").is_none());
    assert!(n(1).get("x").is_none());
}

#[test]
fn strings_compare_bytewise() {
    assert!(str_eq("abc", "abc"));
    assert!(!str_eq("abc", "abd"));
    assert_eq!(str_order("abc", "abd"), Compared::Less);
    assert_eq!(str_order("b", "abc"), Compared::Greater);
    assert_eq!(str_order("ab", "abc"), Compared::Less);
    assert_eq!(str_order("é", "z"), Compared::Greater);
    assert_eq!(str_order("same", "same"), Compared::Equal);
}

#[test]
fn decimal_numerals() {
    let mut t = String::from("x");
    push_decimal(&mut t, 0);
    push_decimal(&mut t, 1207);
    assert_eq!(t, "x01207");
}
