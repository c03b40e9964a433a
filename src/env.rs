use vstd::prelude::*;
use crate::term::{Var, VarV, Value, Term, has_var, term_vars, var_set};
use crate::sub::{Sub, ErrorKind, subst, compose};
use crate::clause::{App, AppV, Clause, ClauseV, Statement, subst_all};
use crate::scheme::{MaybeScheme, VarSource, inst_stmt_spec, inst_value_spec, inst_app_spec, ren_fold, is_renaming};
use crate::term::term_var_seq;

verus! {

/// Binding the variable `v` to `t` within `m`: refused when `v` is already
/// bound or occurs in `t`, else the composition of `m` with that binding.
pub open spec fn bind_spec(v: VarV, t: Term, m: Map<VarV, Term>) -> Option<Map<VarV, Term>> {
    if m.contains_key(v) || term_vars(t).contains(v) {
        None
    } else {
        Some(compose(m, Map::empty().insert(v, t)))
    }
}

/// The unification search: both terms are resolved under `m`; equal terms
/// need nothing more, a variable on the left (else on the right) is bound to
/// the other side, two tuple cells are unified head first and then rest, and
/// anything else fails. At most `depth` nested steps are taken.
pub open spec fn unify_search_spec(a: Term, b: Term, m: Map<VarV, Term>, depth: nat) -> Option<Map<VarV, Term>>
    decreases depth,
{
    let a1 = subst(m, a);
    let b1 = subst(m, b);
    if a1 == b1 {
        Some(m)
    } else if depth == 0 {
        None
    } else {
        match (a1, b1) {
            (Term::Var(v), _) => bind_spec(v, b1, m),
            (_, Term::Var(v)) => bind_spec(v, a1, m),
            (Term::Cons(h1, t1), Term::Cons(h2, t2)) => match unify_search_spec(*h1, *h2, m, (depth - 1) as nat) {
                Some(m1) => unify_search_spec(*t1, *t2, m1, (depth - 1) as nat),
                None => None,
            },
            _ => None,
        }
    }
}

/// Unification of two terms under `m`: the search's result, kept only when
/// it makes the two terms equal.
pub open spec fn unify_spec(a: Term, b: Term, m: Map<VarV, Term>) -> Option<Map<VarV, Term>> {
    match unify_search_spec(a, b, m, UNIFY_DEPTH as nat) {
        Some(r) => if subst(r, a) == subst(r, b) { Some(r) } else { None },
        None => None,
    }
}

/// Unification of the first `n` argument pairs, left to right.
pub open spec fn unify_args_spec(a: Seq<Term>, b: Seq<Term>, m: Map<VarV, Term>, n: nat) -> Option<Map<VarV, Term>>
    decreases n,
{
    if n == 0 {
        Some(m)
    } else {
        match unify_args_spec(a, b, m, (n - 1) as nat) {
            Some(m1) => unify_spec(a[n - 1], b[n - 1], m1),
            None => None,
        }
    }
}

/// Unification of two applications: same predicate and arity, the argument
/// pairs unified left to right, and the result kept only when it makes all
/// arguments equal.
pub open spec fn unify_apps_spec(a: AppV, b: AppV, m: Map<VarV, Term>) -> Option<Map<VarV, Term>> {
    if a.pred != b.pred || a.args.len() != b.args.len() {
        None
    } else {
        match unify_args_spec(a.args, b.args, m, a.args.len()) {
            Some(r) => if subst_all(r, a.args) == subst_all(r, b.args) { Some(r) } else { None },
            None => None,
        }
    }
}

proof fn lemma_args_fail(a: Seq<Term>, b: Seq<Term>, m: Map<VarV, Term>, i: nat, n: nat)
    requires
        i <= n,
        unify_args_spec(a, b, m, i) is None,
    ensures
        unify_args_spec(a, b, m, n) is None,
    decreases n - i,
{
    if i < n {
        lemma_args_fail(a, b, m, i + 1, n);
    }
}

fn unify_search(a: &Value, b: &Value, s: Sub, depth: usize) -> (r: Option<Sub>)
    requires
        s.wf(),
    ensures
        r is Some <==> unify_search_spec(a@, b@, s@, depth as nat) is Some,
        r is Some ==> r->0.wf() && r->0@ == unify_search_spec(a@, b@, s@, depth as nat)->0,
    decreases depth,
{
    let a1 = s.apply(a);
    let b1 = s.apply(b);
    if a1.same(&b1) {
        return Some(s);
    }
    if depth == 0 {
        return None;
    }
    match (&a1, &b1) {
        (Value::Var(v), _) => bind(v, &b1, s),
        (_, Value::Var(v)) => bind(v, &a1, s),
        (Value::Cons(h1, t1), Value::Cons(h2, t2)) => {
            match unify_search(h1, h2, s, depth - 1) {
                Some(s1) => unify_search(t1, t2, s1, depth - 1),
                None => None,
            }
        },
        _ => None,
    }
}

/// Binds the unbound variable `v` to `t` within `s`, unless `t` mentions `v`.
fn bind(v: &Var, t: &Value, s: Sub) -> (r: Option<Sub>)
    requires
        s.wf(),
    ensures
        r is Some <==> bind_spec(v@, t@, s@) is Some,
        r is Some ==> r->0.wf() && r->0@ == bind_spec(v@, t@, s@)->0,
{
    if s.get(v).is_some() {
        return None;
    }
    let mut vars: Vec<Var> = Vec::new();
    t.collect_free_vars(&mut vars);
    assert(var_set(vars@) =~= term_vars(t@)) by {
        assert(var_set(Seq::<Var>::empty()) =~= Set::<VarV>::empty());
    }
    if has_var(&vars, v) {
        return None;
    }
    match Sub::top().with(v.copy(), t.copy()) {
        Ok(one) => Some(s.sub(&one)),
        Err(_) => None,
    }
}

/// The largest nesting the unifier explores.
pub const UNIFY_DEPTH: usize = 1000000;

/// Extends `s` so that `a` and `b` become equal; every binding the result
/// returns is checked before it is handed out.
pub fn unify(a: &Value, b: &Value, s: Sub) -> (r: Result<Sub, ErrorKind>)
    requires
        s.wf(),
    ensures
        r is Ok <==> unify_spec(a@, b@, s@) is Some,
        r is Ok ==> r->Ok_0.wf() && r->Ok_0@ == unify_spec(a@, b@, s@)->0
            && subst(r->Ok_0@, a@) == subst(r->Ok_0@, b@),
        r is Err ==> r->Err_0 == ErrorKind::Mismatch,
        subst(s@, a@) == subst(s@, b@) ==> r is Ok && r->Ok_0@ == s@,
        a@ is Num && b@ is Num && a@ != b@ ==> r is Err,
{
    match unify_search(a, b, s, UNIFY_DEPTH) {
        Some(r) => {
            let a1 = r.apply(a);
            let b1 = r.apply(b);
            if a1.same(&b1) {
                Ok(r)
            } else {
                Err(ErrorKind::Mismatch)
            }
        },
        None => Err(ErrorKind::Mismatch),
    }
}

/// Extends `s` so that two applications become equal: same predicate, and
/// the terms agree pairwise.
pub fn unify_apps(a: &App, b: &App, s: Sub) -> (r: Result<Sub, ErrorKind>)
    requires
        s.wf(),
    ensures
        r is Ok <==> unify_apps_spec(a@, b@, s@) is Some,
        r is Ok ==> r->Ok_0.wf() && r->Ok_0@ == unify_apps_spec(a@, b@, s@)->0
            && a@.pred == b@.pred
            && subst_all(r->Ok_0@, a@.args) == subst_all(r->Ok_0@, b@.args),
        a@.pred != b@.pred || a.args.len() != b.args.len() ==> r == Err::<Sub, ErrorKind>(ErrorKind::Mismatch),
        r is Err ==> r->Err_0 == ErrorKind::Mismatch,
{
    if a.pred.id != b.pred.id || a.args.len() != b.args.len() {
        return Err(ErrorKind::Mismatch);
    }
    let mut cur = s;
    let mut i: usize = 0;
    while i < a.args.len()
        invariant
            a.args.len() == b.args.len(),
            0 <= i <= a.args.len(),
            cur.wf(),
            unify_args_spec(a@.args, b@.args, s@, i as nat) == Some(cur@),
        decreases a.args.len() - i,
    {
        match unify(&a.args[i], &b.args[i], cur) {
            Ok(r) => cur = r,
            Err(e) => {
                proof {
                    lemma_args_fail(a@.args, b@.args, s@, (i + 1) as nat, a.args.len() as nat);
                }
                return Err(e);
            },
        }
        i = i + 1;
    }
    let ra = a.sub(&cur);
    let rb = b.sub(&cur);
    let mut j: usize = 0;
    while j < a.args.len()
        invariant
            a.args.len() == b.args.len(),
            ra.args.len() == a.args.len(),
            rb.args.len() == b.args.len(),
            ra@.args == subst_all(cur@, a@.args),
            rb@.args == subst_all(cur@, b@.args),
            unify_args_spec(a@.args, b@.args, s@, a.args.len() as nat) == Some(cur@),
            0 <= j <= a.args.len(),
            forall|k: int| 0 <= k < j ==> ra@.args[k] == rb@.args[k],
        decreases a.args.len() - j,
    {
        if !ra.args[j].same(&rb.args[j]) {
            assert(subst_all(cur@, a@.args)[j as int] != subst_all(cur@, b@.args)[j as int]);
            return Err(ErrorKind::Mismatch);
        }
        j = j + 1;
    }
    assert(subst_all(cur@, a@.args) =~= subst_all(cur@, b@.args));
    Ok(cur)
}

/// Instantiates both terms afresh (the left one first) and unifies them. On
/// success, returns the two instances, the unifier, and each instance with
/// the unifier applied. `OutOfVariables` comes exactly when the counter runs
/// out, `Mismatch` exactly when unification of the instances fails.
pub fn inst_and_unify(a: MaybeScheme<Value>, b: MaybeScheme<Value>, src: &mut VarSource) -> (r: Result<
    (Value, Value, Sub, Value, Value),
    ErrorKind,
>)
    ensures
        ({
            let (ia, c1) = inst_value_spec(a, old(src).counter());
            let (ib, c2) = inst_value_spec(b, c1);
            &&& (ia is None ==> r == Err::<(Value, Value, Sub, Value, Value), ErrorKind>(ErrorKind::OutOfVariables)
                && final(src).counter() == c1)
            &&& (ia is Some && ib is None ==> r == Err::<(Value, Value, Sub, Value, Value), ErrorKind>(ErrorKind::OutOfVariables)
                && final(src).counter() == c2)
            &&& (ia is Some && ib is Some ==> final(src).counter() == c2
                && (r is Ok <==> unify_spec(ia->0, ib->0, Map::empty()) is Some)
                && (r is Err ==> r->Err_0 == ErrorKind::Mismatch))
            &&& (r is Ok ==> ({
                let (a1, b1, s, a2, b2) = r->Ok_0;
                &&& a1@ == ia->0
                &&& b1@ == ib->0
                &&& s.wf()
                &&& s@ == unify_spec(ia->0, ib->0, Map::empty())->0
                &&& a2@ == subst(s@, a1@)
                &&& b2@ == subst(s@, b1@)
                &&& a2@ == b2@
                &&& (a is Bare ==> a1 == a->Bare_0)
                &&& (b is Bare ==> b1 == b->Bare_0)
                &&& (a is Scheme ==> is_renaming(ren_fold(term_var_seq(a->Scheme_0@), old(src).counter()).0,
                    term_vars(a->Scheme_0@), old(src).counter(), c1))
                &&& (b is Scheme ==> is_renaming(ren_fold(term_var_seq(b->Scheme_0@), c1).0,
                    term_vars(b->Scheme_0@), c1, c2))
            }))
        }),
{
    let a1 = match a.inst(src) {
        Some(x) => x,
        None => return Err(ErrorKind::OutOfVariables),
    };
    let b1 = match b.inst(src) {
        Some(x) => x,
        None => return Err(ErrorKind::OutOfVariables),
    };
    let s = unify(&a1, &b1, Sub::top())?;
    let a2 = s.apply(&a1);
    let b2 = s.apply(&b1);
    Ok((a1, b1, s, a2, b2))
}

/// As [`inst_and_unify`], for applications.
pub fn inst_and_unify_apps(a: MaybeScheme<App>, b: MaybeScheme<App>, src: &mut VarSource) -> (r: Result<
    (App, App, Sub, App, App),
    ErrorKind,
>)
    ensures
        ({
            let (ia, c1) = inst_app_spec(a, old(src).counter());
            let (ib, c2) = inst_app_spec(b, c1);
            &&& (ia is None ==> r == Err::<(App, App, Sub, App, App), ErrorKind>(ErrorKind::OutOfVariables)
                && final(src).counter() == c1)
            &&& (ia is Some && ib is None ==> r == Err::<(App, App, Sub, App, App), ErrorKind>(ErrorKind::OutOfVariables)
                && final(src).counter() == c2)
            &&& (ia is Some && ib is Some ==> final(src).counter() == c2
                && (r is Ok <==> unify_apps_spec(ia->0, ib->0, Map::empty()) is Some)
                && (r is Err ==> r->Err_0 == ErrorKind::Mismatch))
            &&& (r is Ok ==> ({
                let (a1, b1, s, a2, b2) = r->Ok_0;
                &&& a1@ == ia->0
                &&& b1@ == ib->0
                &&& s.wf()
                &&& s@ == unify_apps_spec(ia->0, ib->0, Map::empty())->0
                &&& a2@.pred == a1@.pred
                &&& b2@.pred == b1@.pred
                &&& a2@.args == subst_all(s@, a1@.args)
                &&& b2@.args == subst_all(s@, b1@.args)
                &&& a2@.args == b2@.args
                &&& (a is Bare ==> a1 == a->Bare_0)
                &&& (b is Bare ==> b1 == b->Bare_0)
            }))
        }),
{
    let a1 = match a.inst(src) {
        Some(x) => x,
        None => return Err(ErrorKind::OutOfVariables),
    };
    let b1 = match b.inst(src) {
        Some(x) => x,
        None => return Err(ErrorKind::OutOfVariables),
    };
    let s = unify_apps(&a1, &b1, Sub::top())?;
    let a2 = a1.sub(&s);
    let b2 = b1.sub(&s);
    Ok((a1, b1, s, a2, b2))
}

/// What a search produces: the answers in order, the counter of generated
/// variables afterwards, and whether the depth bound cut some branch off.
pub struct Outcome {
    pub answers: Seq<Map<VarV, Term>>,
    pub counter: nat,
    pub cut: bool,
}

/// The views of a sequence of substitutions.
pub open spec fn sviews(v: Seq<Sub>) -> Seq<Map<VarV, Term>> {
    v.map_values(|x: Sub| x@)
}

/// The search for `c` against the statements `env`, from the bindings `m`
/// and the counter `k`, with `depth` nested statement uses allowed:
/// - `Top` has the one answer `m`, `Bot` none;
/// - `Not(x)` has the one answer `m` when the search for `x` has no answer
///   and was not cut off, and none otherwise; it is itself cut off when `x`
///   had no answer but was cut off;
/// - `Or(a, b)` has the answers of `a`, then those of `b`;
/// - `And(a, b)` has, for each answer of `a` in order, the answers of `b`
///   from it;
/// - an application with no depth left has no answer and is cut off; else
///   each statement is tried in order: instantiated afresh, its head unified
///   with the application, and its body searched with one level less.
pub open spec fn solve_spec(env: Seq<MaybeScheme<Statement>>, c: ClauseV, m: Map<VarV, Term>, k: nat, depth: nat) -> Outcome
    decreases depth, c, 1nat, 0nat,
{
    match c {
        ClauseV::Top => Outcome { answers: seq![m], counter: k, cut: false },
        ClauseV::Bot => Outcome { answers: Seq::empty(), counter: k, cut: false },
        ClauseV::Not(x) => {
            let o = solve_spec(env, *x, m, k, depth);
            if o.answers.len() > 0 {
                Outcome { answers: Seq::empty(), counter: o.counter, cut: false }
            } else if o.cut {
                Outcome { answers: Seq::empty(), counter: o.counter, cut: true }
            } else {
                Outcome { answers: seq![m], counter: o.counter, cut: false }
            }
        },
        ClauseV::Or(a, b) => {
            let oa = solve_spec(env, *a, m, k, depth);
            let ob = solve_spec(env, *b, m, oa.counter, depth);
            Outcome { answers: oa.answers + ob.answers, counter: ob.counter, cut: oa.cut || ob.cut }
        },
        ClauseV::And(a, b) => {
            let oa = solve_spec(env, *a, m, k, depth);
            let ob = and_fold(env, *b, oa.answers, oa.answers.len(), oa.counter, depth);
            Outcome { answers: ob.answers, counter: ob.counter, cut: oa.cut || ob.cut }
        },
        ClauseV::App(q) => if depth == 0 {
            Outcome { answers: Seq::empty(), counter: k, cut: true }
        } else {
            app_fold(env, q, m, k, depth, env.len())
        },
    }
}

/// The search for `b` from each of the first `n` of `firsts`, in order,
/// answers concatenated.
pub open spec fn and_fold(env: Seq<MaybeScheme<Statement>>, b: ClauseV, firsts: Seq<Map<VarV, Term>>, n: nat, k: nat, depth: nat) -> Outcome
    decreases depth, b, 2nat, n,
{
    if n == 0 {
        Outcome { answers: Seq::empty(), counter: k, cut: false }
    } else {
        let o = and_fold(env, b, firsts, (n - 1) as nat, k, depth);
        let o2 = solve_spec(env, b, firsts[n - 1], o.counter, depth);
        Outcome { answers: o.answers + o2.answers, counter: o2.counter, cut: o.cut || o2.cut }
    }
}

/// Resolution of the application `q` against the first `n` statements, in
/// order, answers concatenated.
pub open spec fn app_fold(env: Seq<MaybeScheme<Statement>>, q: AppV, m: Map<VarV, Term>, k: nat, depth: nat, n: nat) -> Outcome
    decreases depth, ClauseV::App(q), 0nat, n,
{
    if n == 0 || depth == 0 {
        Outcome { answers: Seq::empty(), counter: k, cut: false }
    } else {
        let o = app_fold(env, q, m, k, depth, (n - 1) as nat);
        let (inst, k1) = inst_stmt_spec(env[n - 1], o.counter);
        match inst {
            None => Outcome { answers: o.answers, counter: k1, cut: o.cut },
            Some(hb) => match unify_apps_spec(q, hb.0, m) {
                None => Outcome { answers: o.answers, counter: k1, cut: o.cut },
                Some(m1) => {
                    let o2 = solve_spec(env, hb.1, m1, k1, (depth - 1) as nat);
                    Outcome { answers: o.answers + o2.answers, counter: o2.counter, cut: o.cut || o2.cut }
                },
            },
        }
    }
}

/// The asserted statements, in assertion order.
#[derive(Debug)]
pub struct Env {
    premises: Vec<MaybeScheme<Statement>>,
}

impl Env {
    pub closed spec fn premises_spec(&self) -> Seq<MaybeScheme<Statement>> {
        self.premises@
    }

    /// An environment with no statement.
    pub fn new() -> (r: Env)
        ensures
            r.premises_spec().len() == 0,
    {
        Env { premises: Vec::new() }
    }

    /// Appends a statement.
    pub fn state(&mut self, stmt: MaybeScheme<Statement>)
        ensures
            final(self).premises_spec() == old(self).premises_spec().push(stmt),
    {
        self.premises.push(stmt);
    }

    /// The asserted statements, in assertion order.
    pub fn premises(&self) -> (r: &Vec<MaybeScheme<Statement>>)
        ensures
            r@ == self.premises_spec(),
    {
        &self.premises
    }

    /// All ways to satisfy `query` that extend the bindings `s`, depth first
    /// and left to right, with at most `depth` nested statement uses; the
    /// flag tells whether the depth bound cut some branch off.
    #[verifier::loop_isolation(false)]
    pub fn solve_under(&self, query: &Clause, s: &Sub, src: &mut VarSource, depth: usize) -> (r: (Vec<Sub>, bool))
        requires
            s.wf(),
        ensures
            forall|i: int| 0 <= i < r.0@.len() ==> (#[trigger] r.0@[i]).wf(),
            sviews(r.0@) == solve_spec(self.premises_spec(), query@, s@, old(src).counter(), depth as nat).answers,
            r.1 == solve_spec(self.premises_spec(), query@, s@, old(src).counter(), depth as nat).cut,
            final(src).counter() == solve_spec(self.premises_spec(), query@, s@, old(src).counter(), depth as nat).counter,
        decreases depth, query,
    {
        let ghost env = self.premises_spec();
        let ghost k0 = src.counter();
        match query {
            Clause::Top => {
                let mut r: Vec<Sub> = Vec::new();
                r.push(s.copy());
                assert(sviews(r@) =~= seq![s@]);
                (r, false)
            },
            Clause::Bot => {
                let r: Vec<Sub> = Vec::new();
                assert(sviews(r@) =~= Seq::<Map<VarV, Term>>::empty());
                (r, false)
            },
            Clause::Not(c) => {
                let inner = self.solve_under(c, s, src, depth);
                let mut r: Vec<Sub> = Vec::new();
                if inner.0.len() > 0 {
                    assert(sviews(r@) =~= Seq::<Map<VarV, Term>>::empty());
                    (r, false)
                } else if inner.1 {
                    assert(sviews(r@) =~= Seq::<Map<VarV, Term>>::empty());
                    (r, true)
                } else {
                    r.push(s.copy());
                    assert(sviews(r@) =~= seq![s@]);
                    (r, false)
                }
            },
            Clause::Or(a, b) => {
                let (mut r, ca) = self.solve_under(a, s, src, depth);
                let ghost ra = r@;
                let (mut rb, cb) = self.solve_under(b, s, src, depth);
                let ghost rbv = rb@;
                r.append(&mut rb);
                assert(sviews(r@) =~= sviews(ra) + sviews(rbv));
                (r, ca || cb)
            },
            Clause::And(a, b) => {
                let (first, ca) = self.solve_under(a, s, src, depth);
                let ghost oa = solve_spec(env, a@, s@, k0, depth as nat);
                let mut r: Vec<Sub> = Vec::new();
                let mut cut = false;
                let mut i: usize = 0;
                assert(sviews(r@) =~= Seq::<Map<VarV, Term>>::empty());
                while i < first.len()
                    invariant
                        0 <= i <= first.len(),
                        sviews(first@) == oa.answers,
                        forall|j: int| 0 <= j < first@.len() ==> (#[trigger] first@[j]).wf(),
                        forall|j: int| 0 <= j < r@.len() ==> (#[trigger] r@[j]).wf(),
                        sviews(r@) == and_fold(env, b@, oa.answers, i as nat, oa.counter, depth as nat).answers,
                        cut == and_fold(env, b@, oa.answers, i as nat, oa.counter, depth as nat).cut,
                        src.counter() == and_fold(env, b@, oa.answers, i as nat, oa.counter, depth as nat).counter,
                    decreases first.len() - i,
                {
                    let (mut more, cm) = self.solve_under(b, &first[i], src, depth);
                    let ghost rv = r@;
                    let ghost mv = more@;
                    r.append(&mut more);
                    assert(sviews(r@) =~= sviews(rv) + sviews(mv));
                    assert(oa.answers[i as int] == first@[i as int]@);
                    cut = cut || cm;
                    i = i + 1;
                }
                (r, ca || cut)
            },
            Clause::App(q) => {
                let mut r: Vec<Sub> = Vec::new();
                assert(sviews(r@) =~= Seq::<Map<VarV, Term>>::empty());
                if depth == 0 {
                    return (r, true);
                }
                let mut cut = false;
                let mut i: usize = 0;
                while i < self.premises.len()
                    invariant
                        s.wf(),
                        env == self.premises@,
                        0 <= i <= self.premises.len(),
                        forall|j: int| 0 <= j < r@.len() ==> (#[trigger] r@[j]).wf(),
                        sviews(r@) == app_fold(env, q@, s@, k0, depth as nat, i as nat).answers,
                        cut == app_fold(env, q@, s@, k0, depth as nat, i as nat).cut,
                        src.counter() == app_fold(env, q@, s@, k0, depth as nat, i as nat).counter,
                    decreases self.premises.len() - i,
                {
                    let p = self.premises[i].copy();
                    assert(inst_stmt_spec(p, src.counter()) == inst_stmt_spec(env[i as int], src.counter()));
                    match p.inst(src) {
                        Some(stmt) => match unify_apps(q, &stmt.head, s.copy()) {
                            Ok(s1) => {
                                let (mut more, cm) = self.solve_under(&stmt.body, &s1, src, depth - 1);
                                let ghost rv = r@;
                                let ghost mv = more@;
                                r.append(&mut more);
                                assert(sviews(r@) =~= sviews(rv) + sviews(mv));
                                cut = cut || cm;
                            },
                            Err(_) => {},
                        },
                        None => {},
                    }
                    i = i + 1;
                }
                (r, cut)
            },
        }
    }

    /// All solutions of `query`, starting from no bindings, with at most
    /// `depth` nested statement uses; the flag tells whether the depth bound
    /// cut some branch off, so that more answers may exist.
    pub fn solve_clause(&self, query: &Clause, src: &mut VarSource, depth: usize) -> (r: (Vec<Sub>, bool))
        ensures
            forall|i: int| 0 <= i < r.0@.len() ==> (#[trigger] r.0@[i]).wf(),
            sviews(r.0@) == solve_spec(self.premises_spec(), query@, Map::empty(), old(src).counter(), depth as nat).answers,
            r.1 == solve_spec(self.premises_spec(), query@, Map::empty(), old(src).counter(), depth as nat).cut,
            final(src).counter() == solve_spec(self.premises_spec(), query@, Map::empty(), old(src).counter(), depth as nat).counter,
            query@ is Top ==> r.0@.len() == 1 && r.0@[0]@ == Map::<VarV, Term>::empty(),
            query@ is Bot ==> r.0@.len() == 0,
            query@ is App && self.premises_spec().len() == 0 ==> r.0@.len() == 0,
    {
        let top = Sub::top();
        let r = self.solve_under(query, &top, src, depth);
        proof {
            assert(sviews(r.0@).len() == r.0@.len());
            if query@ is Top {
                assert(sviews(r.0@) == seq![Map::<VarV, Term>::empty()]);
                assert(sviews(r.0@)[0] == r.0@[0]@);
            }
            if query@ is App && self.premises_spec().len() == 0 {
                let q = query@->App_0;
                assert(query@ == ClauseV::App(q));
                assert(app_fold(self.premises_spec(), q, Map::empty(), old(src).counter(), depth as nat, 0).answers.len() == 0);
                assert(sviews(r.0@).len() == 0);
            }
        }
        r
    }
}

/// One evaluation session: the statements asserted so far and the source of
/// generated variables.
#[derive(Debug)]
pub struct Session {
    pub env: Env,
    pub vars: VarSource,
}

impl Session {
    pub fn new() -> (r: Session)
        ensures
            r.env.premises_spec().len() == 0,
            r.vars.counter() == 0,
    {
        Session { env: Env::new(), vars: VarSource::new() }
    }

    /// Discards every statement and restarts the variable counter.
    pub fn reset(&mut self)
        ensures
            final(self).env.premises_spec().len() == 0,
            final(self).vars.counter() == 0,
    {
        *self = Session::new();
    }
}

} // verus!
