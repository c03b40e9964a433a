use vstd::prelude::*;
use crate::term::{Var, VarV, Value, Term, term_vars, var_set, vars_distinct, term_var_seq, vviews};
use crate::sub::{Sub, subst};
use crate::render::clause_text;

verus! {

/// A predicate: a name with a fixed arity and an identity handed out by the
/// interning table that built it. Two predicates are the same predicate
/// exactly when their identities agree.
#[derive(Debug)]
pub struct Pred {
    pub id: u64,
    pub name: String,
    pub arity: usize,
}

impl Pred {
    pub fn new(id: u64, name: String, arity: usize) -> (r: Pred)
        ensures
            r.id == id,
            r.name@ == name@,
            r.arity == arity,
    {
        Pred { id, name, arity }
    }

    pub fn copy(&self) -> (r: Pred)
        ensures
            r.id == self.id,
            r.name@ == self.name@,
            r.arity == self.arity,
    {
        Pred { id: self.id, name: self.name.clone(), arity: self.arity }
    }
}

/// An atomic application of a predicate to a tuple of terms.
#[derive(Debug)]
pub struct App {
    pub pred: Pred,
    pub args: Vec<Value>,
}

/// Mathematical model of an application: the predicate identity and the terms.
pub struct AppV {
    pub pred: nat,
    pub args: Seq<Term>,
}

impl View for App {
    type V = AppV;

    open spec fn view(&self) -> AppV {
        AppV { pred: self.pred.id as nat, args: self.args@.map_values(|v: Value| v@) }
    }
}

/// Free variables of a sequence of terms.
pub open spec fn terms_vars(s: Seq<Term>) -> Set<VarV> {
    Set::new(|x: VarV| exists|i: int| 0 <= i < s.len() && #[trigger] term_vars(s[i]).contains(x))
}

/// The variables of a sequence of terms in order of occurrence.
pub open spec fn terms_var_seq(s: Seq<Term>) -> Seq<VarV>
    decreases s.len(),
{
    if s.len() == 0 {
        Seq::empty()
    } else {
        terms_var_seq(s.drop_last()) + term_var_seq(s.last())
    }
}

/// A sequence of terms with a substitution applied to each.
pub open spec fn subst_all(m: Map<VarV, Term>, s: Seq<Term>) -> Seq<Term> {
    s.map_values(|t: Term| subst(m, t))
}

impl App {
    /// An application; the number of terms must match the predicate's arity.
    pub fn new(pred: Pred, args: Vec<Value>) -> (r: App)
        requires
            args.len() == pred.arity,
        ensures
            r.wf(),
            r.pred.id == pred.id,
            r.pred.name@ == pred.name@,
            r.pred.arity == pred.arity,
            r.args@ == args@,
    {
        App { pred, args }
    }

    pub open spec fn wf(&self) -> bool {
        self.args.len() == self.pred.arity
    }

    pub fn copy(&self) -> (r: App)
        ensures
            r@ == self@,
            r.pred.name@ == self.pred.name@,
            r.pred.arity == self.pred.arity,
            r.args.len() == self.args.len(),
    {
        let mut args: Vec<Value> = Vec::new();
        let mut i: usize = 0;
        while i < self.args.len()
            invariant
                0 <= i <= self.args.len(),
                args@.len() == i,
                forall|j: int| 0 <= j < i ==> args@[j]@ == self.args@[j]@,
            decreases self.args.len() - i,
        {
            args.push(self.args[i].copy());
            i = i + 1;
        }
        let r = App { pred: self.pred.copy(), args };
        assert(r@.args =~= self@.args);
        r
    }

    /// Accumulates every variable occurring in the application.
    pub fn collect_free_vars(&self, set: &mut Vec<Var>)
        ensures
            var_set(final(set)@) == var_set(old(set)@).union(terms_vars(self@.args)),
            vars_distinct(old(set)@) ==> vars_distinct(final(set)@),
    {
        let mut i: usize = 0;
        while i < self.args.len()
            invariant
                0 <= i <= self.args.len(),
                var_set(set@) == var_set(old(set)@).union(terms_vars(self@.args.take(i as int))),
                vars_distinct(old(set)@) ==> vars_distinct(set@),
            decreases self.args.len() - i,
        {
            let ghost before = set@;
            self.args[i].collect_free_vars(set);
            proof {
                let s = self@.args;
                assert(s.take(i + 1) =~= s.take(i as int).push(s[i as int]));
                assert(terms_vars(s.take(i + 1)) =~= terms_vars(s.take(i as int)).union(term_vars(s[i as int]))) by {
                    assert forall|x: VarV| terms_vars(s.take(i + 1)).contains(x) implies
                        #[trigger] terms_vars(s.take(i as int)).union(term_vars(s[i as int])).contains(x) by {
                        let j = choose|j: int| 0 <= j < i + 1 && #[trigger] term_vars(s.take(i + 1)[j]).contains(x);
                        if j < i {
                            assert(term_vars(s.take(i as int)[j]).contains(x));
                        }
                    }
                    assert forall|x: VarV| #[trigger] terms_vars(s.take(i as int)).union(term_vars(s[i as int])).contains(x)
                        implies terms_vars(s.take(i + 1)).contains(x) by {
                        if term_vars(s[i as int]).contains(x) {
                            assert(term_vars(s.take(i + 1)[i as int]).contains(x));
                        } else {
                            let j = choose|j: int| 0 <= j < i && #[trigger] term_vars(s.take(i as int)[j]).contains(x);
                            assert(term_vars(s.take(i + 1)[j]).contains(x));
                        }
                    }
                }
                assert(var_set(set@) =~= var_set(old(set)@).union(terms_vars(self@.args.take(i + 1))));
            }
            i = i + 1;
        }
        assert(self@.args.take(self.args.len() as int) =~= self@.args);
    }

    /// Appends the variables of the terms in order of occurrence.
    pub fn push_vars(&self, out: &mut Vec<Var>)
        ensures
            vviews(final(out)@) == vviews(old(out)@) + terms_var_seq(self@.args),
    {
        let mut i: usize = 0;
        assert(self@.args.take(0) =~= Seq::<Term>::empty());
        assert(vviews(out@) =~= vviews(old(out)@) + terms_var_seq(self@.args.take(0)));
        while i < self.args.len()
            invariant
                0 <= i <= self.args.len(),
                vviews(out@) == vviews(old(out)@) + terms_var_seq(self@.args.take(i as int)),
            decreases self.args.len() - i,
        {
            self.args[i].push_vars(out);
            assert(self@.args.take(i + 1).drop_last() =~= self@.args.take(i as int));
            assert(vviews(out@) =~= vviews(old(out)@) + terms_var_seq(self@.args.take(i + 1)));
            i = i + 1;
        }
        assert(self@.args.take(self.args.len() as int) =~= self@.args);
    }

    /// Applies `s` to every term of the application.
    pub fn sub(&self, s: &Sub) -> (r: App)
        requires
            s.wf(),
        ensures
            r.pred.id == self.pred.id,
            r.pred.name@ == self.pred.name@,
            r.pred.arity == self.pred.arity,
            r.args.len() == self.args.len(),
            r@.args == subst_all(s@, self@.args),
    {
        let mut args: Vec<Value> = Vec::new();
        let mut i: usize = 0;
        while i < self.args.len()
            invariant
                s.wf(),
                0 <= i <= self.args.len(),
                args@.len() == i,
                forall|j: int| 0 <= j < i ==> args@[j]@ == subst(s@, self.args@[j]@),
            decreases self.args.len() - i,
        {
            args.push(s.apply(&self.args[i]));
            i = i + 1;
        }
        let r = App { pred: self.pred.copy(), args };
        assert(r@.args =~= subst_all(s@, self@.args));
        r
    }
}

/// A formula over applications.
#[derive(Debug)]
pub enum Clause {
    Top,
    Bot,
    App(App),
    Not(Box<Clause>),
    And(Box<Clause>, Box<Clause>),
    Or(Box<Clause>, Box<Clause>),
}

/// Mathematical model of a clause.
pub enum ClauseV {
    Top,
    Bot,
    App(AppV),
    Not(Box<ClauseV>),
    And(Box<ClauseV>, Box<ClauseV>),
    Or(Box<ClauseV>, Box<ClauseV>),
}

pub open spec fn clause_model(c: &Clause) -> ClauseV
    decreases c,
{
    match c {
        Clause::Top => ClauseV::Top,
        Clause::Bot => ClauseV::Bot,
        Clause::App(a) => ClauseV::App(a@),
        Clause::Not(x) => ClauseV::Not(Box::new(clause_model(x))),
        Clause::And(a, b) => ClauseV::And(Box::new(clause_model(a)), Box::new(clause_model(b))),
        Clause::Or(a, b) => ClauseV::Or(Box::new(clause_model(a)), Box::new(clause_model(b))),
    }
}

impl View for Clause {
    type V = ClauseV;

    open spec fn view(&self) -> ClauseV {
        clause_model(self)
    }
}

/// Free variables of a clause.
pub open spec fn clause_vars(c: ClauseV) -> Set<VarV>
    decreases c,
{
    match c {
        ClauseV::Top => Set::empty(),
        ClauseV::Bot => Set::empty(),
        ClauseV::App(a) => terms_vars(a.args),
        ClauseV::Not(x) => clause_vars(*x),
        ClauseV::And(a, b) => clause_vars(*a).union(clause_vars(*b)),
        ClauseV::Or(a, b) => clause_vars(*a).union(clause_vars(*b)),
    }
}

/// The variables of a clause in order of occurrence.
pub open spec fn clause_var_seq(c: ClauseV) -> Seq<VarV>
    decreases c,
{
    match c {
        ClauseV::App(a) => terms_var_seq(a.args),
        ClauseV::Not(x) => clause_var_seq(*x),
        ClauseV::And(a, b) => clause_var_seq(*a) + clause_var_seq(*b),
        ClauseV::Or(a, b) => clause_var_seq(*a) + clause_var_seq(*b),
        _ => Seq::empty(),
    }
}

/// A clause with a substitution applied to every application in it.
pub open spec fn clause_subst(m: Map<VarV, Term>, c: ClauseV) -> ClauseV
    decreases c,
{
    match c {
        ClauseV::Top => ClauseV::Top,
        ClauseV::Bot => ClauseV::Bot,
        ClauseV::App(a) => ClauseV::App(AppV { pred: a.pred, args: subst_all(m, a.args) }),
        ClauseV::Not(x) => ClauseV::Not(Box::new(clause_subst(m, *x))),
        ClauseV::And(a, b) => ClauseV::And(Box::new(clause_subst(m, *a)), Box::new(clause_subst(m, *b))),
        ClauseV::Or(a, b) => ClauseV::Or(Box::new(clause_subst(m, *a)), Box::new(clause_subst(m, *b))),
    }
}

impl Clause {
    /// An equal copy, with the same predicate names.
    pub fn copy(&self) -> (r: Clause)
        ensures
            r@ == self@,
            forall|p: u32| #[trigger] clause_text(&r, p) == clause_text(self, p),
        decreases self,
    {
        let r = match self {
            Clause::Top => Clause::Top,
            Clause::Bot => Clause::Bot,
            Clause::App(a) => Clause::App(a.copy()),
            Clause::Not(c) => Clause::Not(Box::new(c.copy())),
            Clause::And(a, b) => Clause::And(Box::new(a.copy()), Box::new(b.copy())),
            Clause::Or(a, b) => Clause::Or(Box::new(a.copy()), Box::new(b.copy())),
        };
        assert forall|p: u32| #[trigger] clause_text(&r, p) == clause_text(self, p) by {
            match (&r, self) {
                (Clause::App(x), Clause::App(y)) => {
                    assert(crate::render::app_text(x) == crate::render::app_text(y));
                },
                (Clause::Not(x), Clause::Not(y)) => {
                    assert(clause_text(x, 2) == clause_text(y, 2));
                },
                (Clause::And(x1, x2), Clause::And(y1, y2)) => {
                    assert(clause_text(x1, 1) == clause_text(y1, 1));
                    assert(clause_text(x2, 1) == clause_text(y2, 1));
                },
                (Clause::Or(x1, x2), Clause::Or(y1, y2)) => {
                    assert(clause_text(x1, 0) == clause_text(y1, 0));
                    assert(clause_text(x2, 0) == clause_text(y2, 0));
                },
                _ => {},
            }
        }
        r
    }

    /// Accumulates every variable occurring in the clause.
    pub fn collect_free_vars(&self, set: &mut Vec<Var>)
        ensures
            var_set(final(set)@) == var_set(old(set)@).union(clause_vars(self@)),
            vars_distinct(old(set)@) ==> vars_distinct(final(set)@),
        decreases self,
    {
        match self {
            Clause::Top => {},
            Clause::Bot => {},
            Clause::App(a) => a.collect_free_vars(set),
            Clause::Not(c) => c.collect_free_vars(set),
            Clause::And(a, b) => {
                a.collect_free_vars(set);
                b.collect_free_vars(set);
            },
            Clause::Or(a, b) => {
                a.collect_free_vars(set);
                b.collect_free_vars(set);
            },
        }
        assert(var_set(set@) =~= var_set(old(set)@).union(clause_vars(self@)));
    }

    /// Appends the variables of the clause in order of occurrence.
    pub fn push_vars(&self, out: &mut Vec<Var>)
        ensures
            vviews(final(out)@) == vviews(old(out)@) + clause_var_seq(self@),
        decreases self,
    {
        match self {
            Clause::App(a) => a.push_vars(out),
            Clause::Not(c) => c.push_vars(out),
            Clause::And(a, b) => {
                a.push_vars(out);
                b.push_vars(out);
            },
            Clause::Or(a, b) => {
                a.push_vars(out);
                b.push_vars(out);
            },
            _ => {},
        }
        assert(vviews(out@) =~= vviews(old(out)@) + clause_var_seq(self@));
    }

    /// Applies `s` throughout the clause.
    pub fn sub(&self, s: &Sub) -> (r: Clause)
        requires
            s.wf(),
        ensures
            r@ == clause_subst(s@, self@),
        decreases self,
    {
        match self {
            Clause::Top => Clause::Top,
            Clause::Bot => Clause::Bot,
            Clause::App(a) => Clause::App(a.sub(s)),
            Clause::Not(c) => Clause::Not(Box::new(c.sub(s))),
            Clause::And(a, b) => Clause::And(Box::new(a.sub(s)), Box::new(b.sub(s))),
            Clause::Or(a, b) => Clause::Or(Box::new(a.sub(s)), Box::new(b.sub(s))),
        }
    }

    /// Whether applying `s` can fail; applying a substitution to a clause
    /// never fails.
    pub fn can_sub(&self, s: &Sub) -> (r: bool)
        ensures
            r,
        decreases self,
    {
        match self {
            Clause::Top => true,
            Clause::Bot => true,
            Clause::App(_) => true,
            Clause::Not(c) => c.can_sub(s),
            Clause::And(a, b) => a.can_sub(s) && b.can_sub(s),
            Clause::Or(a, b) => a.can_sub(s) && b.can_sub(s),
        }
    }
}

/// A stored statement: `head` holds whenever `body` does.
#[derive(Debug)]
pub struct Statement {
    pub head: App,
    pub body: Clause,
}

impl Statement {
    pub fn copy(&self) -> (r: Statement)
        ensures
            r.head@ == self.head@,
            r.head.pred.name@ == self.head.pred.name@,
            forall|p: u32| #[trigger] clause_text(&r.body, p) == clause_text(&self.body, p),
            r.head.pred.arity == self.head.pred.arity,
            r.head.args.len() == self.head.args.len(),
            r.body@ == self.body@,
    {
        Statement { head: self.head.copy(), body: self.body.copy() }
    }
}

} // verus!
