use vstd::prelude::*;

verus! {

/// A logic variable: either written by the user (identified by its name) or
/// generated by the engine (identified by a sequence number).
#[derive(Clone, Debug, PartialEq, Eq, Hash)]
pub enum Var {
    Formal(String),
    Auto(u64),
}

/// Mathematical model of a variable.
pub enum VarV {
    Formal(Seq<char>),
    Auto(nat),
}

impl View for Var {
    type V = VarV;

    open spec fn view(&self) -> VarV {
        match self {
            Var::Formal(n) => VarV::Formal(n@),
            Var::Auto(k) => VarV::Auto(*k as nat),
        }
    }
}

impl Var {
    /// Structural equality of variables: formal and generated variables never
    /// compare equal.
    pub fn same(&self, o: &Var) -> (r: bool)
        ensures
            r == (self@ == o@),
    {
        match (self, o) {
            (Var::Formal(a), Var::Formal(b)) => a.eq(b),
            (Var::Auto(a), Var::Auto(b)) => *a == *b,
            _ => false,
        }
    }

    pub fn copy(&self) -> (r: Var)
        ensures
            r@ == self@,
    {
        match self {
            Var::Formal(n) => Var::Formal(n.clone()),
            Var::Auto(k) => Var::Auto(*k),
        }
    }

    pub fn formal(&self) -> (r: bool)
        ensures
            r == (self@ is Formal),
    {
        match self {
            Var::Formal(_) => true,
            Var::Auto(_) => false,
        }
    }
}

/// A term: a variable, a numeric constant, the empty tuple, or a tuple cell
/// holding a first element and the rest of the tuple.
#[derive(Debug, PartialEq, Eq)]
pub enum Value {
    Var(Var),
    Num(u64),
    Nil,
    Cons(Box<Value>, Box<Value>),
}

/// Mathematical model of a term.
pub enum Term {
    Var(VarV),
    Num(nat),
    Nil,
    Cons(Box<Term>, Box<Term>),
}

/// Model of a term, by structural recursion.
pub open spec fn value_model(v: &Value) -> Term
    decreases v,
{
    match v {
        Value::Var(x) => Term::Var(x@),
        Value::Num(n) => Term::Num(*n as nat),
        Value::Nil => Term::Nil,
        Value::Cons(h, t) => Term::Cons(Box::new(value_model(h)), Box::new(value_model(t))),
    }
}

impl View for Value {
    type V = Term;

    open spec fn view(&self) -> Term {
        value_model(self)
    }
}

/// Free variables of a term.
pub open spec fn term_vars(t: Term) -> Set<VarV>
    decreases t,
{
    match t {
        Term::Var(v) => set![v],
        Term::Num(_) => Set::empty(),
        Term::Nil => Set::empty(),
        Term::Cons(h, tl) => term_vars(*h).union(term_vars(*tl)),
    }
}

/// The variables of a term in order of occurrence, repeats included.
pub open spec fn term_var_seq(t: Term) -> Seq<VarV>
    decreases t,
{
    match t {
        Term::Var(v) => seq![v],
        Term::Cons(h, tl) => term_var_seq(*h) + term_var_seq(*tl),
        _ => Seq::empty(),
    }
}

/// A variable occurs in the ordered list exactly when it is a free variable.
pub proof fn lemma_var_seq_vars(t: Term)
    ensures
        forall|x: VarV| #[trigger] term_var_seq(t).contains(x) == term_vars(t).contains(x),
    decreases t,
{
    match t {
        Term::Var(v) => {
            assert(term_var_seq(t)[0] == v);
        },
        Term::Cons(h, tl) => {
            lemma_var_seq_vars(*h);
            lemma_var_seq_vars(*tl);
            let a = term_var_seq(*h);
            let b = term_var_seq(*tl);
            assert forall|x: VarV| #[trigger] (a + b).contains(x) == (a.contains(x) || b.contains(x)) by {
                if a.contains(x) {
                    let i = choose|i: int| 0 <= i < a.len() && a[i] == x;
                    assert((a + b)[i] == x);
                }
                if b.contains(x) {
                    let i = choose|i: int| 0 <= i < b.len() && b[i] == x;
                    assert((a + b)[a.len() + i] == x);
                }
                if (a + b).contains(x) {
                    let i = choose|i: int| 0 <= i < (a + b).len() && (a + b)[i] == x;
                    if i < a.len() {
                        assert(a[i] == x);
                    } else {
                        assert(b[i - a.len()] == x);
                    }
                }
            }
        },
        _ => {},
    }
}

/// The views of a sequence of variables.
pub open spec fn vviews(s: Seq<Var>) -> Seq<VarV> {
    s.map_values(|v: Var| v@)
}

pub proof fn lemma_var_set_views(s: Seq<Var>)
    ensures
        forall|x: VarV| #[trigger] var_set(s).contains(x) == vviews(s).contains(x),
{
    assert forall|x: VarV| #[trigger] var_set(s).contains(x) == vviews(s).contains(x) by {
        if var_set(s).contains(x) {
            let i = choose|i: int| 0 <= i < s.len() && #[trigger] s[i]@ == x;
            assert(vviews(s)[i] == x);
        }
        if vviews(s).contains(x) {
            let i = choose|i: int| 0 <= i < vviews(s).len() && vviews(s)[i] == x;
            assert(s[i]@ == x);
        }
    }
}

/// The set of (views of) variables held in a sequence.
pub open spec fn var_set(s: Seq<Var>) -> Set<VarV> {
    Set::new(|k: VarV| exists|i: int| 0 <= i < s.len() && #[trigger] s[i]@ == k)
}

/// No variable is held twice.
pub open spec fn vars_distinct(s: Seq<Var>) -> bool {
    forall|i: int, j: int| 0 <= i < j < s.len() ==> s[i]@ != s[j]@
}

pub proof fn lemma_var_set_push(s: Seq<Var>, x: Var)
    ensures
        var_set(s.push(x)) == var_set(s).insert(x@),
{
    let t = s.push(x);
    assert forall|k: VarV| #[trigger] var_set(t).contains(k) implies var_set(s).insert(x@).contains(k) by {
        let j = choose|j: int| 0 <= j < t.len() && #[trigger] t[j]@ == k;
        if j < s.len() {
            assert(s[j]@ == k);
        }
    }
    assert forall|k: VarV| #[trigger] var_set(s).insert(x@).contains(k) implies var_set(t).contains(k) by {
        if k == x@ {
            assert(t[s.len() as int]@ == k);
        } else {
            let j = choose|j: int| 0 <= j < s.len() && #[trigger] s[j]@ == k;
            assert(t[j]@ == k);
        }
    }
    assert(var_set(t) =~= var_set(s).insert(x@));
}

/// Adds `v` to the variable collection unless it is already there.
pub fn add_var(set: &mut Vec<Var>, v: &Var)
    ensures
        var_set(final(set)@) == var_set(old(set)@).insert(v@),
        vars_distinct(old(set)@) ==> vars_distinct(final(set)@),
{
    let mut i: usize = 0;
    while i < set.len()
        invariant
            0 <= i <= set.len(),
            forall|j: int| 0 <= j < i ==> set@[j]@ != v@,
        decreases set.len() - i,
    {
        if set[i].same(v) {
            assert(var_set(set@) =~= var_set(set@).insert(v@));
            return;
        }
        i = i + 1;
    }
    let ghost before = set@;
    set.push(v.copy());
    assert(var_set(set@) =~= var_set(before).insert(v@)) by {
        assert forall|k: VarV| var_set(before).insert(v@).contains(k) implies #[trigger] var_set(set@).contains(k) by {
            if k == v@ {
                assert(set@[before.len() as int]@ == k);
            } else {
                let j = choose|j: int| 0 <= j < before.len() && #[trigger] before[j]@ == k;
                assert(set@[j]@ == k);
            }
        }
    }
}

/// Whether `v` is in the collection.
pub fn has_var(set: &Vec<Var>, v: &Var) -> (r: bool)
    ensures
        r == var_set(set@).contains(v@),
{
    let mut i: usize = 0;
    while i < set.len()
        invariant
            0 <= i <= set.len(),
            forall|j: int| 0 <= j < i ==> set@[j]@ != v@,
        decreases set.len() - i,
    {
        if set[i].same(v) {
            assert(set@[i as int]@ == v@);
            return true;
        }
        i = i + 1;
    }
    false
}

impl Value {
    /// Appends the variables of the term in order of occurrence.
    pub fn push_vars(&self, out: &mut Vec<Var>)
        ensures
            vviews(final(out)@) == vviews(old(out)@) + term_var_seq(self@),
        decreases self,
    {
        match self {
            Value::Var(v) => {
                out.push(v.copy());
            },
            Value::Cons(h, t) => {
                h.push_vars(out);
                t.push_vars(out);
            },
            _ => {},
        }
        assert(vviews(out@) =~= vviews(old(out)@) + term_var_seq(self@));
    }

    pub fn copy(&self) -> (r: Value)
        ensures
            r@ == self@,
        decreases self,
    {
        match self {
            Value::Var(v) => Value::Var(v.copy()),
            Value::Num(n) => Value::Num(*n),
            Value::Nil => Value::Nil,
            Value::Cons(h, t) => Value::Cons(Box::new(h.copy()), Box::new(t.copy())),
        }
    }

    /// Structural equality of terms.
    pub fn same(&self, o: &Value) -> (r: bool)
        ensures
            r == (self@ == o@),
        decreases self,
    {
        match (self, o) {
            (Value::Var(a), Value::Var(b)) => a.same(b),
            (Value::Num(a), Value::Num(b)) => *a == *b,
            (Value::Nil, Value::Nil) => true,
            (Value::Cons(h1, t1), Value::Cons(h2, t2)) => h1.same(h2) && t1.same(t2),
            _ => false,
        }
    }

    /// Accumulates every variable occurring in the term.
    pub fn collect_free_vars(&self, set: &mut Vec<Var>)
        ensures
            var_set(final(set)@) == var_set(old(set)@).union(term_vars(self@)),
            vars_distinct(old(set)@) ==> vars_distinct(final(set)@),
        decreases self,
    {
        match self {
            Value::Var(v) => {
                add_var(set, v);
                assert(var_set(set@) =~= var_set(old(set)@).union(term_vars(self@)));
            },
            Value::Num(_) => {
                assert(var_set(set@) =~= var_set(old(set)@).union(term_vars(self@)));
            },
            Value::Nil => {
                assert(var_set(set@) =~= var_set(old(set)@).union(term_vars(self@)));
            },
            Value::Cons(h, t) => {
                h.collect_free_vars(set);
                t.collect_free_vars(set);
                assert(var_set(set@) =~= var_set(old(set)@).union(term_vars(self@)));
            },
        }
    }
}

} // verus!
