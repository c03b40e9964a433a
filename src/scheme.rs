use vstd::prelude::*;
use crate::term::{Var, VarV, Value, Term, term_vars, var_set, lemma_var_set_push, term_var_seq, vviews, lemma_var_seq_vars, lemma_var_set_views};
use crate::sub::{Sub, subst, resolve};
use crate::clause::{App, AppV, ClauseV, Statement, subst_all, clause_subst, terms_var_seq, clause_var_seq};

verus! {

/// Source of engine-generated variables for one session: a counter that
/// only grows, so no generated variable is handed out twice.
#[derive(Debug)]
pub struct VarSource {
    next: u64,
}

impl VarSource {
    /// The number of the next variable to be handed out.
    pub closed spec fn counter(&self) -> nat {
        self.next as nat
    }

    /// A source whose counter starts at zero.
    pub fn new() -> (r: VarSource)
        ensures
            r.counter() == 0,
    {
        VarSource { next: 0 }
    }

    /// The next fresh variable, or `None` once the counter is exhausted.
    pub fn fresh(&mut self) -> (r: Option<Var>)
        ensures
            old(self).counter() < u64::MAX ==> r == Some(Var::Auto(old(self).counter() as u64))
                && final(self).counter() == old(self).counter() + 1,
            old(self).counter() >= u64::MAX ==> r is None && final(self).counter() == old(self).counter(),
    {
        if self.next == u64::MAX {
            None
        } else {
            let v = Var::Auto(self.next);
            self.next = self.next + 1;
            Some(v)
        }
    }
}

/// `ren` renames every formal variable of `vars`, and nothing else, to its
/// own generated variable numbered in `lo .. hi`.
pub open spec fn is_renaming(ren: Map<VarV, Term>, vars: Set<VarV>, lo: nat, hi: nat) -> bool {
    &&& ren.dom().finite()
    &&& ren.dom() == vars.filter(|v: VarV| v is Formal)
    &&& forall|k: VarV| #[trigger] ren.contains_key(k) ==> ren[k] is Var && ren[k]->Var_0 is Auto
        && lo <= ren[k]->Var_0->Auto_0 < hi
    &&& forall|k1: VarV, k2: VarV| ren.contains_key(k1) && ren.contains_key(k2) && k1 != k2
        ==> #[trigger] ren[k1] != #[trigger] ren[k2]
}

/// The renaming made from the variables `list`, in order, starting at
/// counter `c0`: each formal variable not yet renamed gets the generated
/// variable with the current counter, which then moves on by one. Returns the
/// renaming, the final counter, and whether the counter had room throughout;
/// once it ran out nothing more changes.
pub open spec fn ren_fold(list: Seq<VarV>, c0: nat) -> (Map<VarV, Term>, nat, bool)
    decreases list.len(),
{
    if list.len() == 0 {
        (Map::empty(), c0, true)
    } else {
        let (m, c, ok) = ren_fold(list.drop_last(), c0);
        let v = list.last();
        if !ok {
            (m, c, false)
        } else if v is Formal && !m.contains_key(v) {
            if c >= u64::MAX {
                (m, c, false)
            } else {
                (m.insert(v, Term::Var(VarV::Auto(c))), c + 1, true)
            }
        } else {
            (m, c, true)
        }
    }
}

proof fn lemma_ren_fold_stuck(list: Seq<VarV>, c0: nat, i: int)
    requires
        0 <= i <= list.len(),
        !ren_fold(list.take(i), c0).2,
    ensures
        !ren_fold(list, c0).2,
        ren_fold(list, c0).1 == ren_fold(list.take(i), c0).1,
    decreases list.len() - i,
{
    if i < list.len() {
        assert(list.take(i + 1).drop_last() =~= list.take(i));
        lemma_ren_fold_stuck(list, c0, i + 1);
    } else {
        assert(list.take(i) =~= list);
    }
}

/// A renaming of the formal variables among `vars` to fresh generated ones.
fn renaming(vars: &Vec<Var>, src: &mut VarSource) -> (r: Option<Sub>)
    ensures
        final(src).counter() >= old(src).counter(),
        final(src).counter() == ren_fold(vviews(vars@), old(src).counter()).1,
        r is Some <==> ren_fold(vviews(vars@), old(src).counter()).2,
        r is Some ==> r->0.wf() && r->0@ == ren_fold(vviews(vars@), old(src).counter()).0
            && is_renaming(r->0@, var_set(vars@), old(src).counter(), final(src).counter()),
        old(src).counter() + vars.len() <= u64::MAX ==> r is Some,
{
    let ghost lo = src.counter();
    let mut ren = Sub::top();
    let mut i: usize = 0;
    proof {
        assert(vars@.take(0) =~= Seq::<Var>::empty());
        assert(vviews(vars@.take(0)) =~= Seq::<VarV>::empty());
        assert(var_set(Seq::<Var>::empty()).filter(|v: VarV| v is Formal) =~= Set::<VarV>::empty());
        ren.lemma_finite();
    }
    while i < vars.len()
        invariant
            0 <= i <= vars.len(),
            ren.wf(),
            lo == old(src).counter(),
            lo <= src.counter() <= lo + i,
            is_renaming(ren@, var_set(vars@.take(i as int)), lo, src.counter()),
            ren_fold(vviews(vars@.take(i as int)), lo) == (ren@, src.counter(), true),
        decreases vars.len() - i,
    {
        let ghost pre = vars@.take(i as int);
        proof {
            assert(vars@.take(i + 1) =~= pre.push(vars@[i as int]));
            assert(vviews(vars@.take(i + 1)).drop_last() =~= vviews(pre));
            assert(vviews(vars@.take(i + 1)).last() == vars@[i as int]@);
            lemma_var_set_push(pre, vars@[i as int]);
        }
        if vars[i].formal() && ren.get(&vars[i]).is_none() {
            let ghost before = ren@;
            let a = match src.fresh() {
                Some(a) => a,
                None => {
                    proof {
                        assert(vviews(vars@).take(i + 1) =~= vviews(vars@.take(i + 1)));
                        assert(!ren_fold(vviews(vars@).take(i + 1), lo).2);
                        lemma_ren_fold_stuck(vviews(vars@), lo, i + 1);
                    }
                    return None;
                },
            };
            ren = match ren.with(vars[i].copy(), Value::Var(a)) {
                Ok(r) => r,
                Err(_) => return None,
            };
            proof {
                ren.lemma_finite();
                assert(ren@.dom() =~= var_set(vars@.take(i + 1)).filter(|v: VarV| v is Formal));
                assert forall|k1: VarV, k2: VarV| ren@.contains_key(k1) && ren@.contains_key(k2) && k1 != k2
                    implies #[trigger] ren@[k1] != #[trigger] ren@[k2] by {
                    if k1 != vars@[i as int]@ && k2 != vars@[i as int]@ {
                        assert(before[k1] != before[k2]);
                    } else if k1 == vars@[i as int]@ {
                        assert(before.contains_key(k2));
                    } else {
                        assert(before.contains_key(k1));
                    }
                }
            }
        } else {
            assert(ren@.dom() =~= var_set(vars@.take(i + 1)).filter(|v: VarV| v is Formal));
        }
        i = i + 1;
    }
    assert(vars@.take(vars.len() as int) =~= vars@);
    Some(ren)
}

/// A term that may still hold formal variables meant as placeholders, to be
/// renamed apart before each use.
#[derive(Debug)]
pub enum MaybeScheme<T> {
    Bare(T),
    Scheme(T),
}

/// The list of variables renamed when instantiating a statement.
pub open spec fn stmt_var_seq(st: Statement) -> Seq<VarV> {
    terms_var_seq(st.head@.args) + clause_var_seq(st.body@)
}

/// Instantiating a stored statement with the counter at `c`: the head and
/// body of the use, if the counter had room, and the counter after it.
pub open spec fn inst_stmt_spec(p: MaybeScheme<Statement>, c: nat) -> (Option<(AppV, ClauseV)>, nat) {
    match p {
        MaybeScheme::Bare(st) => (Some((st.head@, st.body@)), c),
        MaybeScheme::Scheme(st) => {
            let (m, c1, ok) = ren_fold(stmt_var_seq(st), c);
            if ok {
                (Some((AppV { pred: st.head@.pred, args: subst_all(m, st.head@.args) }, clause_subst(m, st.body@))), c1)
            } else {
                (None, c1)
            }
        },
    }
}

/// Instantiating a term with the counter at `c`: the instance, if the
/// counter had room, and the counter after it.
pub open spec fn inst_value_spec(p: MaybeScheme<Value>, c: nat) -> (Option<Term>, nat) {
    match p {
        MaybeScheme::Bare(t) => (Some(t@), c),
        MaybeScheme::Scheme(t) => {
            let (m, c1, ok) = ren_fold(term_var_seq(t@), c);
            if ok { (Some(subst(m, t@)), c1) } else { (None, c1) }
        },
    }
}

/// Instantiating an application with the counter at `c`.
pub open spec fn inst_app_spec(p: MaybeScheme<App>, c: nat) -> (Option<AppV>, nat) {
    match p {
        MaybeScheme::Bare(t) => (Some(t@), c),
        MaybeScheme::Scheme(t) => {
            let (m, c1, ok) = ren_fold(terms_var_seq(t@.args), c);
            if ok { (Some(AppV { pred: t@.pred, args: subst_all(m, t@.args) }), c1) } else { (None, c1) }
        },
    }
}

impl MaybeScheme<Value> {
    /// A concrete term is returned as it is; a scheme has each of its formal
    /// variables replaced by its own fresh generated variable, numbered in
    /// order of first occurrence.
    pub fn inst(self, src: &mut VarSource) -> (r: Option<Value>)
        ensures
            final(src).counter() >= old(src).counter(),
            self is Bare ==> r == Some(self->Bare_0) && final(src).counter() == old(src).counter(),
            self is Scheme ==> ({
                let (m, c, ok) = ren_fold(term_var_seq(self->Scheme_0@), old(src).counter());
                &&& final(src).counter() == c
                &&& (r is Some <==> ok)
                &&& (r is Some ==> r->0@ == subst(m, self->Scheme_0@))
                &&& (r is Some ==> is_renaming(m, term_vars(self->Scheme_0@), old(src).counter(), c))
            }),
            self is Scheme ==> (old(src).counter() + term_var_seq(self->Scheme_0@).len() <= u64::MAX ==> r is Some),
    {
        match self {
            MaybeScheme::Bare(t) => Some(t),
            MaybeScheme::Scheme(t) => {
                let mut vars: Vec<Var> = Vec::new();
                t.push_vars(&mut vars);
                proof {
                    assert(vviews(vars@) =~= term_var_seq(t@));
                    lemma_var_seq_vars(t@);
                    lemma_var_set_views(vars@);
                    assert(var_set(vars@) =~= term_vars(t@));
                }
                match renaming(&vars, src) {
                    Some(ren) => Some(ren.apply(&t)),
                    None => None,
                }
            },
        }
    }
}

impl MaybeScheme<App> {
    /// As for terms, over all the terms of the application.
    pub fn inst(self, src: &mut VarSource) -> (r: Option<App>)
        ensures
            final(src).counter() >= old(src).counter(),
            self is Bare ==> r == Some(self->Bare_0) && final(src).counter() == old(src).counter(),
            self is Scheme ==> ({
                let (m, c, ok) = ren_fold(terms_var_seq(self->Scheme_0@.args), old(src).counter());
                &&& final(src).counter() == c
                &&& (r is Some <==> ok)
                &&& (r is Some ==> r->0@.args == subst_all(m, self->Scheme_0@.args)
                    && r->0.pred.id == self->Scheme_0.pred.id
                    && r->0.pred.name@ == self->Scheme_0.pred.name@
                    && r->0.pred.arity == self->Scheme_0.pred.arity
                    && r->0.args.len() == self->Scheme_0.args.len())
            }),
            self is Scheme ==> (old(src).counter() + terms_var_seq(self->Scheme_0@.args).len() <= u64::MAX ==> r is Some),
    {
        match self {
            MaybeScheme::Bare(t) => Some(t),
            MaybeScheme::Scheme(t) => {
                let mut vars: Vec<Var> = Vec::new();
                t.push_vars(&mut vars);
                assert(vviews(vars@) =~= terms_var_seq(t@.args));
                match renaming(&vars, src) {
                    Some(ren) => Some(t.sub(&ren)),
                    None => None,
                }
            },
        }
    }
}

impl MaybeScheme<Statement> {
    pub fn copy(&self) -> (r: MaybeScheme<Statement>)
        ensures
            r is Bare <==> self is Bare,
            self is Bare ==> r->Bare_0.head@ == self->Bare_0.head@ && r->Bare_0.body@ == self->Bare_0.body@
                && r->Bare_0.head.pred.arity == self->Bare_0.head.pred.arity
                && r->Bare_0.head.args.len() == self->Bare_0.head.args.len(),
            self is Scheme ==> r->Scheme_0.head@ == self->Scheme_0.head@ && r->Scheme_0.body@ == self->Scheme_0.body@
                && r->Scheme_0.head.pred.arity == self->Scheme_0.head.pred.arity
                && r->Scheme_0.head.args.len() == self->Scheme_0.head.args.len(),
    {
        match self {
            MaybeScheme::Bare(t) => MaybeScheme::Bare(t.copy()),
            MaybeScheme::Scheme(t) => MaybeScheme::Scheme(t.copy()),
        }
    }

    /// As for terms, with one renaming shared by the head and the body.
    pub fn inst(self, src: &mut VarSource) -> (r: Option<Statement>)
        ensures
            inst_stmt_spec(self, old(src).counter()).1 == final(src).counter(),
            r is Some <==> inst_stmt_spec(self, old(src).counter()).0 is Some,
            r is Some ==> r->0.head@ == (inst_stmt_spec(self, old(src).counter()).0->0).0
                && r->0.body@ == (inst_stmt_spec(self, old(src).counter()).0->0).1,
            final(src).counter() >= old(src).counter(),
    {
        match self {
            MaybeScheme::Bare(t) => Some(t),
            MaybeScheme::Scheme(t) => {
                let mut vars: Vec<Var> = Vec::new();
                t.head.push_vars(&mut vars);
                t.body.push_vars(&mut vars);
                assert(vviews(vars@) =~= stmt_var_seq(t));
                match renaming(&vars, src) {
                    Some(ren) => Some(Statement { head: t.head.sub(&ren), body: t.body.sub(&ren) }),
                    None => None,
                }
            },
        }
    }
}

/// After a renaming of every variable of `t`, all variables of the result
/// are generated ones numbered in the renaming's range.
proof fn lemma_renamed_sub(ren: Map<VarV, Term>, t: Term, all: Set<VarV>, lo: nat, hi: nat, fuel: nat)
    requires
        is_renaming(ren, all, lo, hi),
        term_vars(t).subset_of(all),
        forall|x: VarV| #[trigger] all.contains(x) ==> x is Formal,
        fuel > 0,
    ensures
        forall|x: VarV| #[trigger] term_vars(resolve(ren, t, fuel)).contains(x) ==> x is Auto
            && lo <= x->Auto_0 < hi,
    decreases t,
{
    match t {
        Term::Var(v) => {
            assert(term_vars(t).contains(v));
            assert(ren.contains_key(v));
            let a = ren[v];
            assert(!ren.contains_key(a->Var_0));
            assert(resolve(ren, a, (fuel - 1) as nat) == a);
            assert(resolve(ren, t, fuel) == a);
            assert(term_vars(a) =~= set![a->Var_0]);
            assert(a->Var_0 is Auto && lo <= a->Var_0->Auto_0 < hi);
            assert forall|x: VarV| #[trigger] term_vars(resolve(ren, t, fuel)).contains(x) implies x is Auto
                && lo <= x->Auto_0 < hi by {
                assert(x == a->Var_0);
            }
        },
        Term::Cons(h, tl) => {
            lemma_renamed_sub(ren, *h, all, lo, hi, fuel);
            lemma_renamed_sub(ren, *tl, all, lo, hi, fuel);
            assert(term_vars(resolve(ren, t, fuel)) =~= term_vars(resolve(ren, *h, fuel)).union(
                term_vars(resolve(ren, *tl, fuel))));
        },
        _ => {
            assert(term_vars(resolve(ren, t, fuel)) =~= Set::<VarV>::empty());
        },
    }
}

/// Two instantiations of one scheme made one after the other from the same
/// source share no variable.
pub proof fn law_instances_disjoint(t: Term, ren1: Map<VarV, Term>, ren2: Map<VarV, Term>, a: nat, b: nat, c: nat)
    requires
        forall|x: VarV| #[trigger] term_vars(t).contains(x) ==> x is Formal,
        is_renaming(ren1, term_vars(t), a, b),
        is_renaming(ren2, term_vars(t), b, c),
    ensures
        forall|x: VarV| #[trigger] term_vars(subst(ren1, t)).contains(x) ==> !term_vars(subst(ren2, t)).contains(x),
{
    if ren1.dom().len() > 0 && ren2.dom().len() > 0 {
        lemma_renamed_sub(ren1, t, term_vars(t), a, b, ren1.dom().len());
        lemma_renamed_sub(ren2, t, term_vars(t), b, c, ren2.dom().len());
    } else {
        assert forall|x: VarV| #[trigger] term_vars(subst(ren1, t)).contains(x) implies !term_vars(subst(ren2, t)).contains(x) by {
            if term_vars(t).contains(x) {
                assert(ren1.contains_key(x));
                assert(ren2.contains_key(x));
            }
            crate::sub::lemma_resolve_unbound(ren1, t, 0);
            crate::sub::lemma_resolve_unbound(ren2, t, 0);
        }
    }
}

} // verus!
