use akashic_record::rule::{Call, Expr};
use akashic_record::scope::{Scope, SimpleScope};
use akashic_record::symbol_map::SymbolMap;
use akashic_record::value::{Dict, Pair, Symbol, Tuple, Value};

fn uint(n: u64) -> Value {
    Value::Uint(n)
}

fn cons(head: Value, tail: Value) -> Value {
    Value::Pair(Box::new(Pair(head, tail)))
}

#[test]
fn text_of_atoms() {
    assert_eq!(Value::Nil.to_text(), "nil");
    assert_eq!(Value::Bool(true).to_text(), "true");
    assert_eq!(Value::Bool(false).to_text(), "false");
    assert_eq!(Value::Char('x').to_text(), "(char \"x\")");
    assert_eq!(Value::Str("hi there".to_string()).to_text(), "\"hi there\"");
    assert_eq!(Value::Str(String::new()).to_text(), "\"\"");
    assert_eq!(Value::Sym(Symbol::new("alice")).to_text(), "alice");
    assert_eq!(Value::Float("1.5".to_string()).to_text(), "1.5");
}

#[test]
fn text_of_integers() {
    assert_eq!(uint(0).to_text(), "0");
    assert_eq!(uint(7).to_text(), "7");
    assert_eq!(uint(10).to_text(), "10");
    assert_eq!(uint(1234567890).to_text(), "1234567890");
    assert_eq!(uint(u64::MAX).to_text(), "18446744073709551615");
    assert_eq!(Value::Int(0).to_text(), "0");
    assert_eq!(Value::Int(42).to_text(), "42");
    assert_eq!(Value::Int(-1).to_text(), "-1");
    assert_eq!(Value::Int(-907).to_text(), "-907");
    assert_eq!(Value::Int(i64::MAX).to_text(), "9223372036854775807");
    assert_eq!(Value::Int(i64::MIN).to_text(), "-9223372036854775808");
}

#[test]
fn text_of_integers_agrees_with_the_standard_formatting() {
    for n in [0u64, 1, 9, 10, 11, 99, 100, 101, 65535, 4294967296, u64::MAX - 1] {
        assert_eq!(uint(n).to_text(), n.to_string());
    }
    for n in [0i64, 1, -1, 9, -9, 10, -10, 12345, -12345, i64::MIN + 1] {
        assert_eq!(Value::Int(n).to_text(), n.to_string());
    }
}

#[test]
fn text_of_lists() {
    assert_eq!(cons(uint(1), Value::Nil).to_text(), "'(1)");
    assert_eq!(cons(uint(1), cons(uint(2), cons(uint(3), Value::Nil))).to_text(), "'(1 2 3)");
    assert_eq!(cons(uint(1), uint(2)).to_text(), "'(1 . 2)");
    assert_eq!(cons(uint(1), cons(uint(2), uint(3))).to_text(), "'(1 2 . 3)");
    assert_eq!(
        cons(cons(uint(1), Value::Nil), cons(Value::Nil, Value::Nil)).to_text(),
        "'('(1) nil)"
    );
    assert_eq!(Pair(uint(1), cons(uint(2), Value::Nil)).to_text(), "'(1 2)");
    assert_eq!(
        cons(Value::Tuple(Tuple(vec![uint(1)])), Value::Tuple(Tuple(vec![]))).to_text(),
        "'((vec 1) . (vec ))"
    );
}

#[test]
fn text_of_tuples() {
    assert_eq!(Value::Tuple(Tuple(vec![])).to_text(), "(vec )");
    assert_eq!(Value::Tuple(Tuple(vec![uint(1)])).to_text(), "(vec 1)");
    assert_eq!(
        Value::Tuple(Tuple(vec![uint(1), Value::Str("a".to_string()), Value::Nil])).to_text(),
        "(vec 1 \"a\" nil)"
    );
    assert_eq!(
        Tuple(vec![Value::Tuple(Tuple(vec![uint(1), uint(2)])), cons(uint(3), Value::Nil)])
            .to_text(),
        "(vec (vec 1 2) '(3))"
    );
}

#[test]
fn text_of_dictionaries() {
    assert_eq!(Dict(vec![]).to_text(), "(dict )");
    assert_eq!(Dict(vec![("k".to_string(), uint(1))]).to_text(), "(dict '(\"k\" . 1))");
    assert_eq!(
        Dict(vec![("k".to_string(), uint(1)), ("m".to_string(), Value::Nil)]).to_text(),
        "(dict '(\"k\" . 1) '(\"m\" . nil))"
    );
}

#[test]
fn values_are_equal_by_structure() {
    assert_eq!(uint(1), uint(1));
    assert_ne!(uint(1), uint(2));
    assert_ne!(uint(1), Value::Int(1));
    assert_ne!(Value::Str("a".to_string()), Value::Sym(Symbol::new("a")));
    assert_ne!(Value::Float("1.0".to_string()), Value::Float("1.5".to_string()));
    assert_eq!(Value::Float("1.5".to_string()), Value::Float("1.5".to_string()));
    assert_eq!(cons(uint(1), Value::Nil), cons(uint(1), Value::Nil));
    assert_ne!(cons(uint(1), Value::Nil), cons(uint(1), uint(1)));
    assert_eq!(Value::Tuple(Tuple(vec![uint(1), uint(2)])), Value::Tuple(Tuple(vec![uint(1), uint(2)])));
    assert_ne!(Value::Tuple(Tuple(vec![uint(1), uint(2)])), Value::Tuple(Tuple(vec![uint(1)])));
    assert_ne!(Value::Tuple(Tuple(vec![uint(1), uint(2)])), Value::Tuple(Tuple(vec![uint(1), uint(3)])));
    assert_ne!(Value::Tuple(Tuple(vec![])), Value::Nil);
}

#[test]
fn clones_are_equal_to_what_was_cloned() {
    let v = cons(
        Value::Tuple(Tuple(vec![uint(1), Value::Char('c'), Value::Bool(false)])),
        cons(Value::Str("s".to_string()), Value::Sym(Symbol::new("t"))),
    );
    assert_eq!(v.clone(), v);
    let e = Expr::FunctionCall(Box::new(Call {
        call_name: Symbol::new("f"),
        args: vec![Expr::Value(v.clone()), Expr::Variable(Symbol::new("x"))],
    }));
    assert_eq!(e.clone(), e);
    assert_ne!(e, Expr::Value(v));
    assert_ne!(Expr::Variable(Symbol::new("x")), Expr::Variable(Symbol::new("y")));
}

#[test]
fn lists_from_slices() {
    let items = [uint(1), uint(2), uint(3)];
    assert_eq!(Value::list(&items), cons(uint(1), cons(uint(2), cons(uint(3), Value::Nil))));
    assert_eq!(Value::from(&items[..]), Value::list(&items));
    assert_eq!(Value::list(&[]), Value::Nil);
    assert_eq!(Value::list(&items[..1]).to_text(), "'(1)");
}

#[test]
fn kinds_of_values() {
    assert!(Value::Nil.is_nil());
    assert!(!uint(0).is_nil());
    assert!(Value::Bool(false).is_bool());
    assert!(Value::Char('a').is_char());
    assert!(Value::Int(-1).is_int());
    assert!(!uint(1).is_int());
    assert!(uint(1).is_uint());
    assert!(Value::Float("0.5".to_string()).is_float());
    assert!(Value::Str(String::new()).is_str());
    assert!(!Value::Str(String::new()).is_sym());
    assert!(Value::Sym(Symbol::new("s")).is_sym());
    assert!(cons(Value::Nil, Value::Nil).is_pair());
    assert!(!Value::Nil.is_pair());
    assert!(Value::Tuple(Tuple(vec![])).is_tuple());
    assert!(!cons(Value::Nil, Value::Nil).is_tuple());
}

#[test]
fn symbols_are_equal_by_name() {
    assert_eq!(Symbol::new("a"), Symbol::new("a"));
    assert_ne!(Symbol::new("a"), Symbol::new("b"));
    assert_eq!(Symbol::new("friend-of-friend").as_str(), "friend-of-friend");
    assert_eq!(Symbol::new("a").clone(), Symbol::new("a"));
}

#[test]
fn symbol_map_keeps_the_order_of_insertion() {
    let mut map: SymbolMap<u64> = SymbolMap::new();
    assert_eq!(map.len(), 0);
    assert_eq!(map.get(&Symbol::new("a")), None);
    map.insert(Symbol::new("a"), 1);
    map.insert(Symbol::new("b"), 2);
    map.insert(Symbol::new("a"), 3);
    assert_eq!(map.len(), 2);
    assert_eq!(map.get(&Symbol::new("a")), Some(&3));
    assert_eq!(map.get(&Symbol::new("b")), Some(&2));
    assert_eq!(map.position(&Symbol::new("b")), Some(1));
    assert_eq!(map.position(&Symbol::new("c")), None);
    assert_eq!(map.name_at(0), &Symbol::new("a"));
    assert_eq!(map.item_at(1), &2);
}

#[test]
fn scopes_find_the_innermost_binding() {
    let mut root = Scope::new();
    assert_eq!(root.find(&Symbol::new("x")), None);
    root.set(&Symbol::new("x"), &uint(1));
    root.set(&Symbol::new("y"), &uint(2));
    let mut frame = SimpleScope::new();
    frame.set(&Symbol::new("x"), &uint(10));
    let mut inner = root.new_level(frame);
    assert_eq!(inner.find(&Symbol::new("x")), Some(&uint(10)));
    assert_eq!(inner.find(&Symbol::new("y")), Some(&uint(2)));
    assert_eq!(inner.find(&Symbol::new("z")), None);
    inner.set(&Symbol::new("y"), &uint(20));
    assert_eq!(inner.find(&Symbol::new("y")), Some(&uint(20)));
    let innermost = inner.new_level(SimpleScope::new());
    assert_eq!(innermost.find(&Symbol::new("x")), Some(&uint(10)));
    assert_eq!(innermost.this_level.len(), 0);
    let pairs = inner.this_level.to_pairs();
    assert_eq!(pairs.len(), 2);
    assert_eq!(pairs[0], (Symbol::new("x"), uint(10)));
    assert_eq!(pairs[1], (Symbol::new("y"), uint(20)));
    assert_eq!(root.find(&Symbol::new("y")), Some(&uint(2)));
    assert_eq!(root.find(&Symbol::new("x")), Some(&uint(1)));
}
