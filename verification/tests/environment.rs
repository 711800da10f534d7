use ming::scheme::builtins::Arg;
use ming::scheme::env::Interpreter;
use ming::scheme::environment::{Env, Environment};
use ming::scheme::position::SourcePos;
use ming::scheme::value::{Builtin, Value};

fn shown(interp: &Interpreter, v: &Value) -> String {
    interp.render(v)
}

#[test]
fn environment_define_then_lookup() {
    let mut interp = Interpreter::new(100);
    let global = Environment::new(&mut interp);
    global.define(&mut interp, "x", Value::Integer(1));
    let x = global.lookup(&interp, "x").unwrap();
    assert_eq!(shown(&interp, &x), "1");
    assert!(global.lookup(&interp, "y").is_none());
    global.define(&mut interp, "x", Value::Integer(2));
    let x = global.lookup(&interp, "x").unwrap();
    assert_eq!(shown(&interp, &x), "2");
}

#[test]
fn environment_child_sees_and_shadows_its_parent() {
    let mut interp = Interpreter::new(100);
    let global = Environment::new(&mut interp);
    global.define(&mut interp, "x", Value::Integer(1));
    let inner = global.child(&mut interp);
    let x = inner.lookup(&interp, "x").unwrap();
    assert_eq!(shown(&interp, &x), "1");
    inner.define(&mut interp, "x", Value::Integer(5));
    let inner_x = inner.lookup(&interp, "x").unwrap();
    let outer_x = global.lookup(&interp, "x").unwrap();
    assert_eq!(shown(&interp, &inner_x), "5");
    assert_eq!(shown(&interp, &outer_x), "1");
}

#[test]
fn environment_set_rebinds_the_nearest_binding() {
    let mut interp = Interpreter::new(100);
    let global = Environment::new(&mut interp);
    global.define(&mut interp, "x", Value::Integer(1));
    let inner = global.child(&mut interp);
    assert!(inner.set(&mut interp, "x", Value::Boolean(true)));
    let x = global.lookup(&interp, "x").unwrap();
    assert_eq!(shown(&interp, &x), "#t");
    assert!(!inner.set(&mut interp, "missing", Value::Integer(3)));
    assert!(inner.lookup(&interp, "missing").is_none());
}

#[test]
fn env_get_reports_unbound_names() {
    let mut interp = Interpreter::new(100);
    let root = Env::new(&mut interp);
    root.set(&mut interp, "a", Value::Integer(7));
    let child = Env::with_parent(&mut interp, &root);
    let a = child.get(&interp, "a").unwrap();
    assert_eq!(shown(&interp, &a), "7");
    let e = child.get(&interp, "b").unwrap_err();
    assert_eq!(e.display_text(), "unbound variable: b");
}

#[test]
fn env_set_existing_changes_the_defining_frame() {
    let mut interp = Interpreter::new(100);
    let root = Env::new(&mut interp);
    root.set(&mut interp, "a", Value::Integer(7));
    let child = Env::with_parent(&mut interp, &root);
    assert!(Env::set_existing(&child, &mut interp, "a", Value::Integer(8)).is_ok());
    let a = root.get(&interp, "a").unwrap();
    assert_eq!(shown(&interp, &a), "8");
    let e = Env::set_existing(&child, &mut interp, "zz", Value::Integer(1)).unwrap_err();
    assert_eq!(e.display_text(), "unbound variable: zz");
}

#[test]
fn environments_are_separate_from_the_global_frame() {
    let mut interp = Interpreter::new(100);
    let fresh = Environment::new(&mut interp);
    assert!(fresh.lookup(&interp, "car").is_none());
}

#[test]
fn eval_builtin_applies_a_primitive_by_name() {
    let at = SourcePos::new(1, 1);
    let mut interp = Interpreter::new(100);
    let args = vec![
        Arg { value: Value::Integer(2), pos: at },
        Arg { value: Value::Integer(40), pos: at },
    ];
    let sum = interp.eval_builtin("+", &args, at).unwrap();
    assert_eq!(shown(&interp, &sum), "42");
    let e = interp.eval_builtin("frobnicate", &args, SourcePos::new(2, 5)).unwrap_err();
    assert_eq!(e.display_text(), "2:5: unbound variable: frobnicate");
    let e = interp.eval_builtin("car", &args, at).unwrap_err();
    assert_eq!(e.display_text(), "1:1: car: expected exactly 1 argument");
    let mapped = interp
        .eval_builtin(
            "map",
            &vec![
                Arg { value: Value::Builtin(Builtin::Not), pos: at },
                Arg { value: Value::List(vec![Value::Boolean(true), Value::Integer(0)]), pos: at },
            ],
            at,
        )
        .unwrap();
    assert_eq!(shown(&interp, &mapped), "(#f #f)");
}
