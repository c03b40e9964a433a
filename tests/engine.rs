use aunify::clause::{App, Clause, Pred, Statement};
use aunify::env::{unify, unify_apps, Env, Session};
use aunify::scheme::{MaybeScheme, VarSource};
use aunify::sub::{ErrorKind, Sub};
use aunify::term::{Value, Var};

fn fx(name: &str) -> Var {
    Var::Formal(name.to_string())
}

fn num(n: u64) -> Value {
    Value::Num(n)
}

fn app(id: u64, name: &str, args: Vec<Value>) -> App {
    let n = args.len();
    App::new(Pred::new(id, name.to_string(), n), args)
}

fn fact(a: App) -> MaybeScheme<Statement> {
    MaybeScheme::Scheme(Statement { head: a, body: Clause::Top })
}

fn lookup(s: &Sub, v: &Var) -> Option<Value> {
    s.get(v).map(|x| x.copy())
}

#[test]
fn with_adds_binding() {
    let s = Sub::top().with(fx("X"), num(1)).unwrap();
    assert!(!s.is_top());
    assert_eq!(lookup(&s, &fx("X")), Some(num(1)));
    assert_eq!(lookup(&s, &fx("Y")), None);
    assert_eq!(s.len(), 1);
}

#[test]
fn rebinding_fails_even_with_same_value() {
    let s = Sub::top().with(fx("X"), num(1)).unwrap();
    assert_eq!(s.copy().with(fx("X"), num(2)).unwrap_err(), ErrorKind::DuplicateSub);
    assert_eq!(s.with(fx("X"), num(1)).unwrap_err(), ErrorKind::DuplicateSub);
}

#[test]
fn top_is_empty() {
    assert!(Sub::top().is_top());
    assert_eq!(Sub::top().len(), 0);
}

#[test]
fn formal_and_auto_differ() {
    assert!(!Var::Formal("0".to_string()).same(&Var::Auto(0)));
    assert!(Var::Auto(3).same(&Var::Auto(3)));
}

#[test]
fn compose_with_single_binding_extends() {
    let s = Sub::top().with(fx("X"), num(1)).unwrap();
    let one = Sub::top().with(fx("Y"), num(2)).unwrap();
    let r = s.sub(&one);
    assert_eq!(r.len(), 2);
    assert_eq!(lookup(&r, &fx("X")), Some(num(1)));
    assert_eq!(lookup(&r, &fx("Y")), Some(num(2)));
    let again = r.sub(&one);
    assert_eq!(again.len(), 2);
    assert_eq!(lookup(&again, &fx("Y")), Some(num(2)));
}

#[test]
fn compose_keeps_earlier_binding_and_folds_later() {
    let s = Sub::top().with(fx("X"), Value::Var(fx("Y"))).unwrap();
    let inc = Sub::top()
        .with(fx("X"), num(9))
        .unwrap()
        .with(fx("Y"), num(2))
        .unwrap();
    let r = s.sub(&inc);
    assert_eq!(lookup(&r, &fx("X")), Some(num(2)));
    assert_eq!(lookup(&r, &fx("Y")), Some(num(2)));
    assert_eq!(r.len(), 2);
}

#[test]
fn apply_follows_chains() {
    let s = Sub::top()
        .with(fx("X"), Value::Var(fx("Y")))
        .unwrap()
        .with(fx("Y"), num(7))
        .unwrap();
    let t = Value::Cons(Box::new(Value::Var(fx("X"))), Box::new(Value::Nil));
    assert_eq!(s.apply(&t), Value::Cons(Box::new(num(7)), Box::new(Value::Nil)));
}

#[test]
fn apply_stops_on_cycles() {
    let s = Sub::top()
        .with(fx("X"), Value::Var(fx("Y")))
        .unwrap()
        .with(fx("Y"), Value::Var(fx("X")))
        .unwrap();
    let r = s.apply(&Value::Var(fx("X")));
    assert_eq!(r, Value::Var(fx("X")));
}

#[test]
fn relevant_to_projects() {
    let s = Sub::top()
        .with(fx("X"), num(1))
        .unwrap()
        .with(fx("Y"), num(2))
        .unwrap();
    let r = s.relevant_to(&Value::Var(fx("Y")));
    assert_eq!(r.len(), 1);
    assert_eq!(lookup(&r, &fx("Y")), Some(num(2)));
}

#[test]
fn without_autos_drops_generated() {
    let s = Sub::top()
        .with(fx("X"), num(1))
        .unwrap()
        .with(Var::Auto(0), num(2))
        .unwrap();
    let r = s.without_autos();
    assert_eq!(r.len(), 1);
    assert_eq!(lookup(&r, &fx("X")), Some(num(1)));
    assert_eq!(r.into_map().len(), 1);
}

#[test]
fn instantiation_is_fresh() {
    let mut src = VarSource::new();
    let t = Value::Cons(Box::new(Value::Var(fx("X"))), Box::new(Value::Var(fx("Y"))));
    let a = MaybeScheme::Scheme(t.copy()).inst(&mut src).unwrap();
    let b = MaybeScheme::Scheme(t.copy()).inst(&mut src).unwrap();
    let mut va = Vec::new();
    a.collect_free_vars(&mut va);
    let mut vb = Vec::new();
    b.collect_free_vars(&mut vb);
    assert_eq!(va.len(), 2);
    assert_eq!(vb.len(), 2);
    for x in &va {
        assert!(matches!(x, Var::Auto(_)));
        assert!(!vb.contains(x));
    }
    let c = MaybeScheme::Bare(t.copy()).inst(&mut src).unwrap();
    assert_eq!(c, t);
}

#[test]
fn fresh_counts_from_zero() {
    let mut src = VarSource::new();
    assert_eq!(src.fresh(), Some(Var::Auto(0)));
    assert_eq!(src.fresh(), Some(Var::Auto(1)));
}

#[test]
fn unify_binds_variable() {
    let a = Value::Cons(Box::new(Value::Var(fx("X"))), Box::new(num(2)));
    let b = Value::Cons(Box::new(num(1)), Box::new(Value::Var(fx("Y"))));
    let s = unify(&a, &b, Sub::top()).unwrap();
    assert_eq!(lookup(&s, &fx("X")), Some(num(1)));
    assert_eq!(lookup(&s, &fx("Y")), Some(num(2)));
}

#[test]
fn unify_mismatch() {
    assert_eq!(unify(&num(1), &num(2), Sub::top()).unwrap_err(), ErrorKind::Mismatch);
    let a = app(1, "p", vec![num(1)]);
    let b = app(2, "q", vec![num(1)]);
    assert_eq!(unify_apps(&a, &b, Sub::top()).unwrap_err(), ErrorKind::Mismatch);
}

#[test]
fn unify_occurs_check() {
    let t = Value::Cons(Box::new(Value::Var(fx("X"))), Box::new(Value::Nil));
    assert_eq!(unify(&Value::Var(fx("X")), &t, Sub::top()).unwrap_err(), ErrorKind::Mismatch);
}

#[test]
fn top_and_bot_queries() {
    let mut env = Env::new();
    env.state(fact(app(1, "p", vec![num(1)])));
    let mut src = VarSource::new();
    let r = env.solve_clause(&Clause::Top, &mut src, 10).0;
    assert_eq!(r.len(), 1);
    assert!(r[0].is_top());
    assert_eq!(env.solve_clause(&Clause::Bot, &mut src, 10).0.len(), 0);
}

#[test]
fn conjunction_composes() {
    let mut env = Env::new();
    env.state(fact(app(1, "p", vec![num(1)])));
    env.state(fact(app(2, "q", vec![num(2)])));
    let mut src = VarSource::new();
    let query = Clause::And(
        Box::new(Clause::App(app(1, "p", vec![Value::Var(fx("X"))]))),
        Box::new(Clause::App(app(2, "q", vec![Value::Var(fx("Y"))]))),
    );
    let r = env.solve_clause(&query, &mut src, 10).0;
    assert_eq!(r.len(), 1);
    let s = r.into_iter().next().unwrap().without_autos();
    assert_eq!(lookup(&s, &fx("X")), Some(num(1)));
    assert_eq!(lookup(&s, &fx("Y")), Some(num(2)));
}

#[test]
fn solutions_follow_assertion_order() {
    let mut env = Env::new();
    env.state(fact(app(1, "p", vec![num(1)])));
    env.state(fact(app(1, "p", vec![num(2)])));
    let mut src = VarSource::new();
    let query = Clause::App(app(1, "p", vec![Value::Var(fx("X"))]));
    let r = env.solve_clause(&query, &mut src, 10).0;
    assert_eq!(r.len(), 2);
    assert_eq!(lookup(&r[0], &fx("X")), Some(num(1)));
    assert_eq!(lookup(&r[1], &fx("X")), Some(num(2)));
}

#[test]
fn disjunction_concatenates() {
    let mut env = Env::new();
    env.state(fact(app(1, "p", vec![num(1)])));
    env.state(fact(app(2, "q", vec![num(2)])));
    let mut src = VarSource::new();
    let query = Clause::Or(
        Box::new(Clause::App(app(2, "q", vec![Value::Var(fx("X"))]))),
        Box::new(Clause::App(app(1, "p", vec![Value::Var(fx("X"))]))),
    );
    let r = env.solve_clause(&query, &mut src, 10).0;
    assert_eq!(r.len(), 2);
    assert_eq!(lookup(&r[0], &fx("X")), Some(num(2)));
    assert_eq!(lookup(&r[1], &fx("X")), Some(num(1)));
}

#[test]
fn negation_as_failure() {
    let mut env = Env::new();
    let mut src = VarSource::new();
    let query = Clause::Not(Box::new(Clause::App(app(3, "r", vec![num(3)]))));
    let r = env.solve_clause(&query, &mut src, 10).0;
    assert_eq!(r.len(), 1);
    assert!(r[0].is_top());
    env.state(fact(app(3, "r", vec![num(3)])));
    assert_eq!(env.solve_clause(&query, &mut src, 10).0.len(), 0);
}

#[test]
fn rule_with_body() {
    // q(X) holds when p(X) does.
    let mut env = Env::new();
    env.state(fact(app(1, "p", vec![num(5)])));
    env.state(MaybeScheme::Scheme(Statement {
        head: app(2, "q", vec![Value::Var(fx("X"))]),
        body: Clause::App(app(1, "p", vec![Value::Var(fx("X"))])),
    }));
    let mut src = VarSource::new();
    let query = Clause::App(app(2, "q", vec![Value::Var(fx("Z"))]));
    let r = env.solve_clause(&query, &mut src, 10).0;
    assert_eq!(r.len(), 1);
    assert_eq!(r[0].apply(&Value::Var(fx("Z"))), num(5));
}

#[test]
fn depth_bounds_recursive_rules() {
    // p(X) holds when p(X) does: no base case.
    let mut env = Env::new();
    env.state(MaybeScheme::Scheme(Statement {
        head: app(1, "p", vec![Value::Var(fx("X"))]),
        body: Clause::App(app(1, "p", vec![Value::Var(fx("X"))])),
    }));
    let mut src = VarSource::new();
    let query = Clause::App(app(1, "p", vec![num(1)]));
    assert_eq!(env.solve_clause(&query, &mut src, 20).0.len(), 0);
}

#[test]
fn reset_is_total() {
    let mut session = Session::new();
    session.env.state(fact(app(1, "p", vec![num(1)])));
    let _ = session.vars.fresh();
    session.reset();
    assert_eq!(session.env.premises().len(), 0);
    let query = Clause::App(app(1, "p", vec![Value::Var(fx("X"))]));
    assert_eq!(session.env.solve_clause(&query, &mut session.vars, 10).0.len(), 0);
    assert_eq!(session.vars.fresh(), Some(Var::Auto(0)));
}

#[test]
fn clause_sub_and_vars() {
    let c = Clause::And(
        Box::new(Clause::App(app(1, "p", vec![Value::Var(fx("X"))]))),
        Box::new(Clause::Not(Box::new(Clause::App(app(2, "q", vec![Value::Var(fx("Y"))]))))),
    );
    let mut vs = Vec::new();
    c.collect_free_vars(&mut vs);
    assert_eq!(vs.len(), 2);
    let s = Sub::top().with(fx("X"), num(4)).unwrap();
    assert!(c.can_sub(&s));
    let d = c.sub(&s);
    let mut ws = Vec::new();
    d.collect_free_vars(&mut ws);
    assert_eq!(ws, vec![fx("Y")]);
}

#[test]
fn clause_text_uses_precedence() {
    let c = Clause::And(
        Box::new(Clause::Or(
            Box::new(Clause::App(app(1, "p", vec![num(1)]))),
            Box::new(Clause::App(app(2, "q", vec![num(2), num(30)]))),
        )),
        Box::new(Clause::Not(Box::new(Clause::App(app(3, "r", vec![Value::Var(fx("X"))]))))),
    );
    assert_eq!(c.to_text(), "(p(1); q(2, 30)), ~r(X)");
    assert_eq!(Clause::Top.to_text(), "⊤");
    assert_eq!(Clause::Not(Box::new(Clause::Bot)).to_text(), "~⊥");
}

#[test]
fn value_and_sub_text() {
    let t = Value::Cons(Box::new(Value::Var(Var::Auto(12))), Box::new(Value::Nil));
    assert_eq!(t.to_text(), "[?12 | []]");
    assert_eq!(Sub::top().to_text(), "⊤");
    let s = Sub::top()
        .with(fx("X"), num(1))
        .unwrap()
        .with(fx("Y"), num(205))
        .unwrap();
    assert_eq!(s.to_text(), "X <- 1, Y <- 205");
    assert_eq!(app(1, "p", vec![]).to_text(), "p()");
}

#[test]
fn explicit_unification_of_schemes() {
    let mut src = VarSource::new();
    let a = MaybeScheme::Scheme(Value::Cons(Box::new(Value::Var(fx("X"))), Box::new(num(2))));
    let b = MaybeScheme::Bare(Value::Cons(Box::new(num(1)), Box::new(Value::Var(fx("Y")))));
    let (a1, b1, s, a2, b2) = aunify::env::inst_and_unify(a, b, &mut src).unwrap();
    assert_eq!(a1, Value::Cons(Box::new(Value::Var(Var::Auto(0))), Box::new(num(2))));
    assert_eq!(b1, Value::Cons(Box::new(num(1)), Box::new(Value::Var(fx("Y")))));
    assert_eq!(lookup(&s, &Var::Auto(0)), Some(num(1)));
    assert_eq!(a2, b2);
    assert_eq!(a2, Value::Cons(Box::new(num(1)), Box::new(num(2))));
}

#[test]
fn explicit_unification_of_apps_fails_on_constants() {
    let mut src = VarSource::new();
    let a = MaybeScheme::Bare(app(1, "p", vec![num(1)]));
    let b = MaybeScheme::Bare(app(1, "p", vec![num(2)]));
    assert_eq!(
        aunify::env::inst_and_unify_apps(a, b, &mut src).err(),
        Some(ErrorKind::Mismatch)
    );
}

#[test]
fn sub_free_vars_cover_keys_and_values() {
    let s = Sub::top()
        .with(fx("X"), Value::Cons(Box::new(Value::Var(fx("Y"))), Box::new(num(1))))
        .unwrap()
        .with(fx("Z"), Value::Var(fx("X")))
        .unwrap();
    let mut vs = Vec::new();
    s.collect_free_vars(&mut vs);
    assert_eq!(vs.len(), 3);
    for v in [fx("X"), fx("Y"), fx("Z")] {
        assert!(vs.contains(&v));
    }
    assert!(s.can_sub(&Sub::top()));
}

#[test]
fn depth_cut_is_reported() {
    // p(X) holds when p(X) does: no base case.
    let mut env = Env::new();
    env.state(MaybeScheme::Scheme(Statement {
        head: app(1, "p", vec![Value::Var(fx("X"))]),
        body: Clause::App(app(1, "p", vec![Value::Var(fx("X"))])),
    }));
    let mut src = VarSource::new();
    let query = Clause::App(app(1, "p", vec![num(1)]));
    let (answers, cut) = env.solve_clause(&query, &mut src, 5);
    assert!(answers.is_empty());
    assert!(cut);
    // A negation whose goal was cut off is not taken as true.
    let neg = Clause::Not(Box::new(Clause::App(app(1, "p", vec![num(1)]))));
    let (answers, cut) = env.solve_clause(&neg, &mut src, 5);
    assert!(answers.is_empty());
    assert!(cut);
}

#[test]
fn complete_search_is_not_cut() {
    let mut env = Env::new();
    env.state(fact(app(1, "p", vec![num(1)])));
    let mut src = VarSource::new();
    let query = Clause::App(app(1, "p", vec![Value::Var(fx("X"))]));
    let (answers, cut) = env.solve_clause(&query, &mut src, 3);
    assert_eq!(answers.len(), 1);
    assert!(!cut);
    assert_eq!(src.fresh(), Some(Var::Auto(0)));
}

#[test]
fn interning_keeps_identities() {
    let mut pt = aunify::intern::ParserTag::new();
    let p1 = pt.make_app("p".to_string(), vec![num(1)]);
    let q = pt.make_app("q".to_string(), vec![num(2)]);
    let p2 = pt.make_app("p".to_string(), vec![num(3)]);
    let p0 = pt.make_app("p".to_string(), vec![]);
    assert_eq!(p1.pred.id, p2.pred.id);
    assert_ne!(p1.pred.id, q.pred.id);
    assert_ne!(p1.pred.id, p0.pred.id);
    assert_eq!(pt.len(), 3);
    let mut env = Env::new();
    env.state(fact(p1));
    let mut src = VarSource::new();
    let query = Clause::App(pt.make_app("p".to_string(), vec![Value::Var(fx("X"))]));
    let (r, _) = env.solve_clause(&query, &mut src, 4);
    assert_eq!(r.len(), 1);
    assert_eq!(lookup(&r[0], &fx("X")), Some(num(1)));
}
