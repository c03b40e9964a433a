use vstd::prelude::*;
use crate::term::{Var, VarV, Value, Term, term_vars, var_set, has_var, add_var, vars_distinct};
use crate::render::{binds_text, write_var, write_value, string_of};

verus! {

/// Errors of the substitution algebra and of explicit unification.
#[derive(Debug, PartialEq, Eq, Clone, Copy)]
pub enum ErrorKind {
    /// A variable was bound twice within one substitution.
    DuplicateSub,
    /// Two terms or applications have no unifier found by the algorithm.
    Mismatch,
    /// The session's counter of generated variables is used up.
    OutOfVariables,
}

/// A finite mapping from variables to terms; a variable, once bound, is
/// never rebound within the same substitution.
#[derive(Debug)]
pub struct Sub {
    binds: Vec<(Var, Value)>,
}

/// The mapping described by a sequence of bindings.
pub open spec fn pairs_map(s: Seq<(Var, Value)>) -> Map<VarV, Term>
    decreases s.len(),
{
    if s.len() == 0 {
        Map::empty()
    } else {
        pairs_map(s.drop_last()).insert(s.last().0@, s.last().1@)
    }
}

/// No two bindings share a variable.
pub open spec fn keys_unique(s: Seq<(Var, Value)>) -> bool {
    forall|i: int, j: int| 0 <= i < j < s.len() ==> s[i].0@ != s[j].0@
}

/// Applies `m` to `t`, following a bound variable into its value at most
/// `fuel` times along any path.
pub open spec fn resolve(m: Map<VarV, Term>, t: Term, fuel: nat) -> Term
    decreases fuel, t,
{
    match t {
        Term::Var(v) => if m.contains_key(v) && fuel > 0 {
            resolve(m, m[v], (fuel - 1) as nat)
        } else {
            t
        },
        Term::Cons(h, tl) => Term::Cons(Box::new(resolve(m, *h, fuel)), Box::new(resolve(m, *tl, fuel))),
        _ => t,
    }
}

/// Applies `m` to `t` to a fixed point: every chain of bindings is followed
/// to its end, and a chain that leads back to a variable already followed
/// stops after as many steps as `m` has bindings.
pub open spec fn subst(m: Map<VarV, Term>, t: Term) -> Term {
    resolve(m, t, m.dom().len())
}

/// Composition: bindings of `a` win, bindings of `b` on other variables are
/// folded into the values of `a` and then added.
pub open spec fn compose(a: Map<VarV, Term>, b: Map<VarV, Term>) -> Map<VarV, Term> {
    let fresh = b.remove_keys(a.dom());
    Map::new(
        |k: VarV| a.contains_key(k) || fresh.contains_key(k),
        |k: VarV| if a.contains_key(k) { subst(fresh, a[k]) } else { fresh[k] },
    )
}

/// Variables that occur in a substitution, as keys or in values.
pub open spec fn map_vars(m: Map<VarV, Term>) -> Set<VarV> {
    Set::new(|x: VarV| m.contains_key(x) || exists|k: VarV| m.contains_key(k) && #[trigger] term_vars(m[k]).contains(x))
}

/// Variables bound by, or occurring in the values of, a sequence of bindings.
pub open spec fn binds_vars(s: Seq<(Var, Value)>) -> Set<VarV> {
    Set::new(|x: VarV| exists|j: int| #![trigger s[j]] 0 <= j < s.len() && (s[j].0@ == x || term_vars(s[j].1@).contains(x)))
}

proof fn lemma_binds_vars_push(s: Seq<(Var, Value)>, b: (Var, Value))
    ensures
        binds_vars(s.push(b)) == binds_vars(s).insert(b.0@).union(term_vars(b.1@)),
{
    let t = s.push(b);
    assert forall|x: VarV| #[trigger] binds_vars(t).contains(x) implies binds_vars(s).insert(b.0@).union(term_vars(b.1@)).contains(x) by {
        let j = choose|j: int| #![trigger t[j]] 0 <= j < t.len() && (t[j].0@ == x || term_vars(t[j].1@).contains(x));
        if j < s.len() {
            assert(s[j] == t[j]);
            assert(s[j].0@ == x || term_vars(s[j].1@).contains(x));
        }
    }
    assert forall|x: VarV| #[trigger] binds_vars(s).insert(b.0@).union(term_vars(b.1@)).contains(x) implies binds_vars(t).contains(x) by {
        if x == b.0@ || term_vars(b.1@).contains(x) {
            assert(t[s.len() as int] == b);
            assert(t[s.len() as int].0@ == x || term_vars(t[s.len() as int].1@).contains(x));
        } else {
            let j = choose|j: int| #![trigger s[j]] 0 <= j < s.len() && (s[j].0@ == x || term_vars(s[j].1@).contains(x));
            assert(t[j] == s[j]);
            assert(t[j].0@ == x || term_vars(t[j].1@).contains(x));
        }
    }
    assert(binds_vars(t) =~= binds_vars(s).insert(b.0@).union(term_vars(b.1@)));
}

proof fn lemma_pairs_map(s: Seq<(Var, Value)>)
    requires
        keys_unique(s),
    ensures
        forall|j: int| 0 <= j < s.len() ==> pairs_map(s).contains_key(#[trigger] s[j].0@)
            && pairs_map(s)[s[j].0@] == s[j].1@,
        forall|k: VarV| #[trigger] pairs_map(s).contains_key(k) ==> exists|j: int| 0 <= j < s.len() && s[j].0@ == k,
        pairs_map(s).dom().finite(),
        pairs_map(s).dom().len() == s.len(),
    decreases s.len(),
{
    if s.len() > 0 {
        let p = s.drop_last();
        assert(keys_unique(p));
        lemma_pairs_map(p);
        assert forall|k: VarV| #[trigger] pairs_map(s).contains_key(k) implies exists|j: int| 0 <= j < s.len() && s[j].0@ == k by {
            if k != s.last().0@ {
                let j = choose|j: int| 0 <= j < p.len() && p[j].0@ == k;
                assert(s[j].0@ == k);
            }
        }
        assert(!pairs_map(p).contains_key(s.last().0@)) by {
            if pairs_map(p).contains_key(s.last().0@) {
                let j = choose|j: int| 0 <= j < p.len() && p[j].0@ == s.last().0@;
                assert(s[j].0@ == s[s.len() - 1].0@);
            }
        }
        assert forall|j: int| 0 <= j < s.len() implies pairs_map(s).contains_key(#[trigger] s[j].0@)
            && pairs_map(s)[s[j].0@] == s[j].1@ by {
            if j < s.len() - 1 {
                assert(p[j] == s[j]);
            }
        }
    }
}

/// Which bindings a filter keeps.
pub enum Keep {
    Inside(Vec<Var>),
    Outside(Vec<Var>),
    Formal,
}

pub open spec fn keep_set(mode: Keep) -> Set<VarV> {
    match mode {
        Keep::Inside(vs) => var_set(vs@),
        Keep::Outside(vs) => var_set(vs@).complement(),
        Keep::Formal => Set::new(|k: VarV| k is Formal),
    }
}

fn keeps(mode: &Keep, v: &Var) -> (r: bool)
    ensures
        r == keep_set(*mode).contains(v@),
{
    match mode {
        Keep::Inside(vs) => has_var(vs, v),
        Keep::Outside(vs) => !has_var(vs, v),
        Keep::Formal => v.formal(),
    }
}

impl View for Sub {
    type V = Map<VarV, Term>;

    closed spec fn view(&self) -> Map<VarV, Term> {
        pairs_map(self.binds@)
    }
}

impl Sub {
    /// Well-formedness: each variable is bound at most once.
    pub closed spec fn wf(&self) -> bool {
        keys_unique(self.binds@)
    }

    pub proof fn lemma_finite(&self)
        requires
            self.wf(),
        ensures
            self@.dom().finite(),
    {
        lemma_pairs_map(self.binds@);
    }

    /// The identity substitution.
    pub fn top() -> (r: Sub)
        ensures
            r.wf(),
            r@ == Map::<VarV, Term>::empty(),
    {
        Sub { binds: Vec::new() }
    }

    /// The value bound to `var`, if any.
    pub fn get(&self, var: &Var) -> (r: Option<&Value>)
        requires
            self.wf(),
        ensures
            r is Some <==> self@.contains_key(var@),
            r is Some ==> r->0@ == self@[var@],
    {
        proof {
            lemma_pairs_map(self.binds@);
        }
        let mut i: usize = 0;
        while i < self.binds.len()
            invariant
                0 <= i <= self.binds.len(),
                self.wf(),
                forall|j: int| 0 <= j < i ==> self.binds@[j].0@ != var@,
            decreases self.binds.len() - i,
        {
            if self.binds[i].0.same(var) {
                proof {
                    lemma_pairs_map(self.binds@);
                }
                return Some(&self.binds[i].1);
            }
            i = i + 1;
        }
        proof {
            lemma_pairs_map(self.binds@);
            if self@.contains_key(var@) {
                let j = choose|j: int| 0 <= j < self.binds@.len() && self.binds@[j].0@ == var@;
            }
        }
        None
    }

    /// Whether this is the identity substitution.
    pub fn is_top(&self) -> (r: bool)
        requires
            self.wf(),
        ensures
            r == (self@ == Map::<VarV, Term>::empty()),
    {
        proof {
            lemma_pairs_map(self.binds@);
            if self.binds.len() == 0 {
                assert(self@ =~= Map::<VarV, Term>::empty());
            } else {
                assert(self@.contains_key(self.binds@[0].0@));
            }
        }
        self.binds.len() == 0
    }

    /// Number of bindings.
    pub fn len(&self) -> (r: usize)
        requires
            self.wf(),
        ensures
            r == self@.dom().len(),
    {
        proof {
            lemma_pairs_map(self.binds@);
        }
        self.binds.len()
    }

    /// Adds the binding `var <- is`; binding an already bound variable is an
    /// error, whatever the value.
    pub fn with(self, var: Var, is: Value) -> (r: Result<Sub, ErrorKind>)
        requires
            self.wf(),
        ensures
            self@.contains_key(var@) ==> r == Err::<Sub, ErrorKind>(ErrorKind::DuplicateSub),
            !self@.contains_key(var@) ==> r is Ok && r->Ok_0.wf() && r->Ok_0@ == self@.insert(var@, is@),
    {
        if self.get(&var).is_some() {
            return Err(ErrorKind::DuplicateSub);
        }
        let mut binds = self.binds;
        let ghost before = binds@;
        proof {
            lemma_pairs_map(before);
        }
        binds.push((var, is));
        assert(binds@.drop_last() =~= before);
        Ok(Sub { binds })
    }

    /// Keeps the bindings whose variable `mode` selects.
    fn retain(&self, mode: &Keep) -> (r: Sub)
        requires
            self.wf(),
        ensures
            r.wf(),
            r@ == self@.restrict(keep_set(*mode)),
    {
        let src = &self.binds;
        let mut out: Vec<(Var, Value)> = Vec::new();
        let mut i: usize = 0;
        proof {
            lemma_pairs_map(src@);
            assert(src@.take(0) =~= Seq::<(Var, Value)>::empty());
            assert(pairs_map(out@) =~= pairs_map(src@.take(0)).restrict(keep_set(*mode)));
        }
        while i < src.len()
            invariant
                0 <= i <= src.len(),
                keys_unique(src@),
                keys_unique(out@),
                pairs_map(out@) == pairs_map(src@.take(i as int)).restrict(keep_set(*mode)),
            decreases src.len() - i,
        {
            let ghost pre = src@.take(i as int);
            proof {
                assert(src@.take(i + 1).drop_last() =~= pre);
                assert(keys_unique(pre));
                lemma_pairs_map(pre);
                lemma_pairs_map(out@);
                assert(!pairs_map(pre).contains_key(src@[i as int].0@)) by {
                    if pairs_map(pre).contains_key(src@[i as int].0@) {
                        let j = choose|j: int| 0 <= j < pre.len() && pre[j].0@ == src@[i as int].0@;
                        assert(src@[j].0@ == src@[i as int].0@);
                    }
                }
            }
            if keeps(mode, &src[i].0) {
                let ghost o = out@;
                out.push((src[i].0.copy(), src[i].1.copy()));
                proof {
                    assert(out@.drop_last() =~= o);
                    assert forall|a: int, b: int| 0 <= a < b < out@.len() implies out@[a].0@ != out@[b].0@ by {
                        if b == out@.len() - 1 {
                            assert(pairs_map(o).contains_key(o[a].0@));
                        }
                    }
                    assert(pairs_map(out@) =~= pairs_map(src@.take(i + 1)).restrict(keep_set(*mode)));
                }
            } else {
                assert(pairs_map(out@) =~= pairs_map(src@.take(i + 1)).restrict(keep_set(*mode)));
            }
            i = i + 1;
        }
        assert(src@.take(src.len() as int) =~= src@);
        Sub { binds: out }
    }

    /// Keeps only the bindings of variables that occur free in `vars`, the
    /// free variables of a term.
    pub fn relevant_to_vars(self, vars: Vec<Var>) -> (r: Sub)
        requires
            self.wf(),
        ensures
            r.wf(),
            r@ == self@.restrict(var_set(vars@)),
    {
        self.retain(&Keep::Inside(vars))
    }

    /// Keeps only the bindings of variables that occur free in `t`.
    pub fn relevant_to(self, t: &Value) -> (r: Sub)
        requires
            self.wf(),
        ensures
            r.wf(),
            r@ == self@.restrict(term_vars(t@)),
    {
        let mut vars: Vec<Var> = Vec::new();
        t.collect_free_vars(&mut vars);
        assert(var_set(vars@) =~= term_vars(t@)) by {
            assert(var_set(Seq::<Var>::empty()) =~= Set::<VarV>::empty());
        }
        self.relevant_to_vars(vars)
    }

    /// Drops every binding of an engine-generated variable.
    pub fn without_autos(self) -> (r: Sub)
        requires
            self.wf(),
        ensures
            r.wf(),
            r@ == self@.restrict(Set::new(|k: VarV| k is Formal)),
    {
        self.retain(&Keep::Formal)
    }

    /// The bindings, each variable once.
    pub fn into_map(self) -> (r: Vec<(Var, Value)>)
        requires
            self.wf(),
        ensures
            keys_unique(r@),
            pairs_map(r@) == self@,
    {
        self.binds
    }

    /// The text of the substitution: `⊤` for the identity, else each binding
    /// once, as `v <- t`, separated by `, `, in the order the bindings were
    /// made.
    pub fn to_text(&self) -> (r: String)
        requires
            self.wf(),
        ensures
            self@ == Map::<VarV, Term>::empty() ==> r@ == seq!['⊤'],
            self@ != Map::<VarV, Term>::empty() ==> exists|bs: Seq<(Var, Value)>|
                bs.len() > 0 && keys_unique(bs) && #[trigger] pairs_map(bs) == self@ && r@ == binds_text(bs),
    {
        proof {
            lemma_pairs_map(self.binds@);
            if self.binds.len() == 0 {
                assert(self@ =~= Map::<VarV, Term>::empty());
            } else {
                assert(self@.contains_key(self.binds@[0].0@));
            }
        }
        let mut out: Vec<char> = Vec::new();
        if self.binds.len() == 0 {
            out.push('⊤');
            assert(out@ =~= seq!['⊤']);
            return string_of(&out);
        }
        let mut i: usize = 0;
        while i < self.binds.len()
            invariant
                0 <= i <= self.binds.len(),
                self.binds.len() > 0,
                out@ == binds_text(self.binds@.take(i as int)),
            decreases self.binds.len() - i,
        {
            if i > 0 {
                out.push(',');
                out.push(' ');
            }
            write_var(&self.binds[i].0, &mut out);
            out.push(' ');
            out.push('<');
            out.push('-');
            out.push(' ');
            write_value(&self.binds[i].1, &mut out);
            proof {
                let t = self.binds@.take(i + 1);
                assert(t.drop_last() =~= self.binds@.take(i as int));
                if i == 0 {
                    assert(self.binds@.take(0) =~= Seq::<(Var, Value)>::empty());
                }
                assert(out@ =~= binds_text(t));
            }
            i = i + 1;
        }
        assert(self.binds@.take(self.binds.len() as int) =~= self.binds@);
        assert(pairs_map(self.binds@) == self@);
        string_of(&out)
    }

    /// Accumulates every variable bound here or occurring in a bound value.
    pub fn collect_free_vars(&self, set: &mut Vec<Var>)
        requires
            self.wf(),
        ensures
            var_set(final(set)@) == var_set(old(set)@).union(map_vars(self@)),
            vars_distinct(old(set)@) ==> vars_distinct(final(set)@),
    {
        let mut i: usize = 0;
        proof {
            assert(binds_vars(self.binds@.take(0)) =~= Set::<VarV>::empty());
            assert(var_set(set@) =~= var_set(old(set)@).union(binds_vars(self.binds@.take(0))));
        }
        while i < self.binds.len()
            invariant
                0 <= i <= self.binds.len(),
                var_set(set@) == var_set(old(set)@).union(binds_vars(self.binds@.take(i as int))),
                vars_distinct(old(set)@) ==> vars_distinct(set@),
            decreases self.binds.len() - i,
        {
            add_var(set, &self.binds[i].0);
            self.binds[i].1.collect_free_vars(set);
            proof {
                let t = self.binds@.take(i as int);
                assert(self.binds@.take(i + 1) =~= t.push(self.binds@[i as int]));
                lemma_binds_vars_push(t, self.binds@[i as int]);
                assert(var_set(set@) =~= var_set(old(set)@).union(binds_vars(self.binds@.take(i + 1))));
            }
            i = i + 1;
        }
        proof {
            assert(self.binds@.take(self.binds.len() as int) =~= self.binds@);
            lemma_pairs_map(self.binds@);
            let bs = self.binds@;
            assert forall|x: VarV| #[trigger] binds_vars(bs).contains(x) == map_vars(self@).contains(x) by {
                if binds_vars(bs).contains(x) {
                    let j = choose|j: int| #![trigger bs[j]] 0 <= j < bs.len() && (bs[j].0@ == x || term_vars(bs[j].1@).contains(x));
                    let k = bs[j].0@;
                    assert(self@.contains_key(k));
                    if k != x {
                        assert(term_vars(self@[k]).contains(x));
                    }
                }
                if map_vars(self@).contains(x) {
                    if self@.contains_key(x) {
                        let j = choose|j: int| 0 <= j < bs.len() && bs[j].0@ == x;
                        assert(bs[j].0@ == x);
                    } else {
                        let k = choose|k: VarV| self@.contains_key(k) && #[trigger] term_vars(self@[k]).contains(x);
                        let j = choose|j: int| 0 <= j < bs.len() && bs[j].0@ == k;
                        assert(term_vars(bs[j].1@).contains(x));
                    }
                }
            }
            assert(var_set(set@) =~= var_set(old(set)@).union(map_vars(self@)));
        }
    }

    /// Whether applying `s` to this substitution can fail; composition never
    /// fails.
    pub fn can_sub(&self, s: &Sub) -> (r: bool)
        ensures
            r,
    {
        true
    }

    /// An equal copy.
    pub fn copy(&self) -> (r: Sub)
        requires
            self.wf(),
        ensures
            r.wf(),
            r@ == self@,
    {
        let mut out: Vec<(Var, Value)> = Vec::new();
        let mut i: usize = 0;
        while i < self.binds.len()
            invariant
                0 <= i <= self.binds.len(),
                out@.len() == i,
                forall|j: int| 0 <= j < i ==> out@[j].0@ == self.binds@[j].0@ && out@[j].1@ == self.binds@[j].1@,
            decreases self.binds.len() - i,
        {
            out.push((self.binds[i].0.copy(), self.binds[i].1.copy()));
            i = i + 1;
        }
        proof {
            lemma_pairs_map(self.binds@);
            assert(keys_unique(out@));
            lemma_pairs_map(out@);
            assert forall|k: VarV| #[trigger] pairs_map(out@).contains_key(k) == self@.contains_key(k)
                && (self@.contains_key(k) ==> pairs_map(out@)[k] == self@[k]) by {
                if self@.contains_key(k) {
                    let j = choose|j: int| 0 <= j < self.binds@.len() && self.binds@[j].0@ == k;
                    assert(out@[j].0@ == k);
                }
                if pairs_map(out@).contains_key(k) {
                    let j = choose|j: int| 0 <= j < out@.len() && out@[j].0@ == k;
                    assert(self.binds@[j].0@ == k);
                }
            }
            assert(pairs_map(out@) =~= self@);
        }
        Sub { binds: out }
    }

    /// The bound variables.
    pub fn keys(&self) -> (r: Vec<Var>)
        requires
            self.wf(),
        ensures
            var_set(r@) == self@.dom(),
    {
        let mut out: Vec<Var> = Vec::new();
        let mut i: usize = 0;
        while i < self.binds.len()
            invariant
                0 <= i <= self.binds.len(),
                out@.len() == i,
                forall|j: int| 0 <= j < i ==> out@[j]@ == self.binds@[j].0@,
            decreases self.binds.len() - i,
        {
            out.push(self.binds[i].0.copy());
            i = i + 1;
        }
        proof {
            lemma_pairs_map(self.binds@);
            assert forall|k: VarV| #[trigger] var_set(out@).contains(k) == self@.contains_key(k) by {
                if self@.contains_key(k) {
                    let j = choose|j: int| 0 <= j < self.binds@.len() && self.binds@[j].0@ == k;
                    assert(out@[j]@ == k);
                }
                if var_set(out@).contains(k) {
                    let j = choose|j: int| 0 <= j < out@.len() && out@[j]@ == k;
                    assert(self.binds@[j].0@ == k);
                }
            }
            assert(var_set(out@) =~= self@.dom());
        }
        out
    }

    /// Applies this substitution to `t`, following bound variables at most
    /// `fuel` times along any path.
    fn resolve_value(&self, t: &Value, fuel: usize) -> (r: Value)
        requires
            self.wf(),
        ensures
            r@ == resolve(self@, t@, fuel as nat),
        decreases fuel, t,
    {
        match t {
            Value::Var(v) => {
                if fuel > 0 {
                    match self.get(v) {
                        Some(x) => self.resolve_value(x, fuel - 1),
                        None => t.copy(),
                    }
                } else {
                    t.copy()
                }
            },
            Value::Cons(h, tl) => {
                let a = self.resolve_value(h, fuel);
                let b = self.resolve_value(tl, fuel);
                Value::Cons(Box::new(a), Box::new(b))
            },
            _ => t.copy(),
        }
    }

    /// Applies this substitution to `t`, to a fixed point.
    pub fn apply(&self, t: &Value) -> (r: Value)
        requires
            self.wf(),
        ensures
            r@ == subst(self@, t@),
    {
        let n = self.len();
        self.resolve_value(t, n)
    }

    /// Composition with `incoming`: bindings already here are kept, the
    /// others from `incoming` are applied to the values here and then added.
    pub fn sub(self, incoming: &Sub) -> (r: Sub)
        requires
            self.wf(),
            incoming.wf(),
        ensures
            r.wf(),
            r@ == compose(self@, incoming@),
    {
        let keys = self.keys();
        let fresh = incoming.retain(&Keep::Outside(keys));
        assert(fresh@ =~= incoming@.remove_keys(self@.dom()));
        let mut out: Vec<(Var, Value)> = Vec::new();
        let n = self.binds.len();
        let mut i: usize = 0;
        while i < n
            invariant
                n == self.binds.len(),
                fresh.wf(),
                0 <= i <= n,
                out@.len() == i,
                forall|j: int| 0 <= j < i ==> out@[j].0@ == self.binds@[j].0@
                    && out@[j].1@ == subst(fresh@, self.binds@[j].1@),
            decreases n - i,
        {
            let v = fresh.apply(&self.binds[i].1);
            out.push((self.binds[i].0.copy(), v));
            i = i + 1;
        }
        let m = fresh.binds.len();
        let mut i: usize = 0;
        while i < m
            invariant
                n == self.binds.len(),
                m == fresh.binds.len(),
                0 <= i <= m,
                out@.len() == n + i,
                forall|j: int| 0 <= j < n ==> out@[j].0@ == self.binds@[j].0@
                    && out@[j].1@ == subst(fresh@, self.binds@[j].1@),
                forall|j: int| 0 <= j < i ==> out@[n + j].0@ == fresh.binds@[j].0@
                    && out@[n + j].1@ == fresh.binds@[j].1@,
            decreases m - i,
        {
            out.push((fresh.binds[i].0.copy(), fresh.binds[i].1.copy()));
            i = i + 1;
        }
        proof {
            lemma_pairs_map(self.binds@);
            lemma_pairs_map(fresh.binds@);
            assert forall|a: int, b: int| 0 <= a < b < out@.len() implies out@[a].0@ != out@[b].0@ by {
                if b >= n && a < n {
                    assert(self@.contains_key(self.binds@[a].0@));
                    assert(fresh@.contains_key(fresh.binds@[b - n].0@));
                } else if a >= n {
                    assert(fresh.binds@[a - n].0@ != fresh.binds@[b - n].0@);
                }
            }
            lemma_pairs_map(out@);
            let c = compose(self@, incoming@);
            assert forall|k: VarV| #[trigger] pairs_map(out@).contains_key(k) == c.contains_key(k)
                && (c.contains_key(k) ==> pairs_map(out@)[k] == c[k]) by {
                if self@.contains_key(k) {
                    let j = choose|j: int| 0 <= j < self.binds@.len() && self.binds@[j].0@ == k;
                    assert(out@[j].0@ == k);
                } else if fresh@.contains_key(k) {
                    let j = choose|j: int| 0 <= j < fresh.binds@.len() && fresh.binds@[j].0@ == k;
                    assert(out@[n + j].0@ == k);
                }
                if pairs_map(out@).contains_key(k) {
                    let j = choose|j: int| 0 <= j < out@.len() && out@[j].0@ == k;
                    if j < n {
                        assert(self.binds@[j].0@ == k);
                    } else {
                        assert(fresh.binds@[j - n].0@ == k);
                    }
                }
            }
            assert(pairs_map(out@) =~= c);
        }
        Sub { binds: out }
    }
}

/// Applying a substitution leaves alone a term none of whose variables it binds.
pub proof fn lemma_resolve_unbound(m: Map<VarV, Term>, t: Term, fuel: nat)
    requires
        forall|v: VarV| term_vars(t).contains(v) ==> !m.contains_key(v),
    ensures
        resolve(m, t, fuel) == t,
    decreases t,
{
    if let Term::Cons(h, tl) = t {
        lemma_resolve_unbound(m, *h, fuel);
        lemma_resolve_unbound(m, *tl, fuel);
    }
}

/// Composing with a single binding of a variable that is neither bound nor
/// mentioned in `s` extends `s` with exactly that binding; composing the
/// result with the same binding again changes nothing.
pub proof fn law_compose_single(s: Map<VarV, Term>, v: VarV, x: Term)
    requires
        s.dom().finite(),
        !s.contains_key(v),
        forall|k: VarV| s.contains_key(k) ==> !(#[trigger] term_vars(s[k])).contains(v),
    ensures
        compose(s, Map::empty().insert(v, x)) == s.insert(v, x),
        compose(s.insert(v, x), Map::empty().insert(v, x)) == s.insert(v, x),
{
    let one = Map::<VarV, Term>::empty().insert(v, x);
    let fresh = one.remove_keys(s.dom());
    assert(fresh =~= one);
    assert forall|k: VarV| s.contains_key(k) implies subst(fresh, s[k]) == s[k] by {
        lemma_resolve_unbound(fresh, s[k], fresh.dom().len());
    }
    assert(compose(s, one) =~= s.insert(v, x));
    let e = s.insert(v, x);
    let none = one.remove_keys(e.dom());
    assert(none =~= Map::<VarV, Term>::empty());
    assert forall|k: VarV| e.contains_key(k) implies subst(none, e[k]) == e[k] by {
        lemma_resolve_unbound(none, e[k], none.dom().len());
    }
    assert(compose(e, one) =~= e);
}

} // verus!
