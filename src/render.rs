use vstd::prelude::*;
use crate::term::{Var, VarV, Value, Term};
use crate::clause::{App, Clause};

verus! {

broadcast use vstd::string::axiom_spec_iter;

/// The decimal digit for `d < 10`.
pub open spec fn digit(d: nat) -> char {
    if d == 0 { '0' } else if d == 1 { '1' } else if d == 2 { '2' } else if d == 3 { '3' }
    else if d == 4 { '4' } else if d == 5 { '5' } else if d == 6 { '6' } else if d == 7 { '7' }
    else if d == 8 { '8' } else { '9' }
}

/// Decimal text of a number.
pub open spec fn num_text(n: nat) -> Seq<char>
    decreases n,
{
    if n < 10 {
        seq![digit(n)]
    } else {
        num_text(n / 10).push(digit(n % 10))
    }
}

/// Text of a variable: its name, or `?` and its number for a generated one.
pub open spec fn var_text(v: VarV) -> Seq<char> {
    match v {
        VarV::Formal(n) => n,
        VarV::Auto(k) => seq!['?'] + num_text(k),
    }
}

/// Text of a term; a tuple cell is written `[head | rest]`, the empty tuple `[]`.
pub open spec fn term_text(t: Term) -> Seq<char>
    decreases t,
{
    match t {
        Term::Var(v) => var_text(v),
        Term::Num(n) => num_text(n),
        Term::Nil => seq!['[', ']'],
        Term::Cons(h, tl) => seq!['['] + term_text(*h) + seq![' ', '|', ' '] + term_text(*tl) + seq![']'],
    }
}

/// Terms separated by `, `.
pub open spec fn terms_text(s: Seq<Term>) -> Seq<char>
    decreases s.len(),
{
    if s.len() == 0 {
        Seq::empty()
    } else if s.len() == 1 {
        term_text(s[0])
    } else {
        terms_text(s.drop_last()) + seq![',', ' '] + term_text(s.last())
    }
}

/// Text of an application: the predicate's name and its terms in parentheses.
pub open spec fn app_text(a: &App) -> Seq<char> {
    a.pred.name@ + seq!['('] + terms_text(a@.args) + seq![')']
}

/// Binding strength of a clause's connective: atoms bind tightest, then
/// negation, conjunction, and disjunction loosest.
pub open spec fn clause_prec(c: &Clause) -> u32 {
    match c {
        Clause::Not(_) => 2,
        Clause::And(_, _) => 1,
        Clause::Or(_, _) => 0,
        _ => 3,
    }
}

/// Text of a clause inside a context of strength `prec`: parenthesized when
/// its own connective binds more loosely than the context. Conjunction is
/// written with `, `, disjunction with `; `.
pub open spec fn clause_text(c: &Clause, prec: u32) -> Seq<char>
    decreases c,
{
    let my = clause_prec(c);
    let inner = match c {
        Clause::Top => seq!['⊤'],
        Clause::Bot => seq!['⊥'],
        Clause::App(a) => app_text(a),
        Clause::Not(x) => seq!['~'] + clause_text(x, my),
        Clause::And(a, b) => clause_text(a, my) + seq![',', ' '] + clause_text(b, my),
        Clause::Or(a, b) => clause_text(a, my) + seq![';', ' '] + clause_text(b, my),
    };
    if my < prec {
        seq!['('] + inner + seq![')']
    } else {
        inner
    }
}

/// Text of a sequence of bindings, `v <- t` separated by `, `.
pub open spec fn binds_text(s: Seq<(Var, Value)>) -> Seq<char>
    decreases s.len(),
{
    if s.len() == 0 {
        Seq::empty()
    } else if s.len() == 1 {
        var_text(s[0].0@) + seq![' ', '<', '-', ' '] + term_text(s[0].1@)
    } else {
        binds_text(s.drop_last()) + seq![',', ' '] + var_text(s.last().0@) + seq![' ', '<', '-', ' ']
            + term_text(s.last().1@)
    }
}

fn digit_char(d: u64) -> (r: char)
    requires
        d < 10,
    ensures
        r == digit(d as nat),
{
    if d == 0 { '0' } else if d == 1 { '1' } else if d == 2 { '2' } else if d == 3 { '3' }
    else if d == 4 { '4' } else if d == 5 { '5' } else if d == 6 { '6' } else if d == 7 { '7' }
    else if d == 8 { '8' } else { '9' }
}

fn write_num(n: u64, out: &mut Vec<char>)
    ensures
        final(out)@ == old(out)@ + num_text(n as nat),
    decreases n,
{
    if n < 10 {
        out.push(digit_char(n));
    } else {
        write_num(n / 10, out);
        out.push(digit_char(n % 10));
    }
}

fn write_string(s: &String, out: &mut Vec<char>)
    ensures
        final(out)@ == old(out)@ + s@,
{
    let ghost start = out@;
    for c in it: s.chars()
        invariant
            it.seq() == s@,
            out@ == start + it.seq().take(it.index()),
    {
        proof {
            assert(it.seq().take(it.index() + 1) =~= it.seq().take(it.index()).push(c));
        }
        out.push(c);
    }
    assert(s@.take(s@.len() as int) =~= s@);
}

pub(crate) fn write_var(v: &Var, out: &mut Vec<char>)
    ensures
        final(out)@ == old(out)@ + var_text(v@),
{
    match v {
        Var::Formal(n) => write_string(n, out),
        Var::Auto(k) => {
            out.push('?');
            write_num(*k, out);
            assert(out@ =~= old(out)@ + var_text(v@));
        },
    }
}

pub(crate) fn write_value(t: &Value, out: &mut Vec<char>)
    ensures
        final(out)@ == old(out)@ + term_text(t@),
    decreases t,
{
    match t {
        Value::Var(v) => write_var(v, out),
        Value::Num(n) => write_num(*n, out),
        Value::Nil => {
            out.push('[');
            out.push(']');
            assert(out@ =~= old(out)@ + term_text(t@));
        },
        Value::Cons(h, tl) => {
            out.push('[');
            write_value(h, out);
            out.push(' ');
            out.push('|');
            out.push(' ');
            write_value(tl, out);
            out.push(']');
            assert(out@ =~= old(out)@ + term_text(t@));
        },
    }
}

/// Relies on std's `FromIterator<&char>` for `String`: collecting characters
/// yields the string of exactly those characters, in order.
#[verifier::external_body]
pub(crate) fn string_of(cs: &Vec<char>) -> (r: String)
    ensures
        r@ == cs@,
{
    cs.iter().collect()
}

impl Value {
    /// The term's text.
    pub fn to_text(&self) -> (r: String)
        ensures
            r@ == term_text(self@),
    {
        let mut out: Vec<char> = Vec::new();
        write_value(self, &mut out);
        string_of(&out)
    }
}

impl App {
    fn write(&self, out: &mut Vec<char>)
        ensures
            final(out)@ == old(out)@ + app_text(self),
    {
        write_string(&self.pred.name, out);
        out.push('(');
        let ghost mid = out@;
        let ghost args = self@.args;
        let mut i: usize = 0;
        while i < self.args.len()
            invariant
                0 <= i <= self.args.len(),
                args == self@.args,
                out@ == mid + terms_text(args.take(i as int)),
            decreases self.args.len() - i,
        {
            let ghost before = out@;
            if i > 0 {
                out.push(',');
                out.push(' ');
            }
            write_value(&self.args[i], out);
            proof {
                let t = args.take(i + 1);
                assert(t.drop_last() =~= args.take(i as int));
                assert(t.last() == self.args@[i as int]@);
                if i == 0 {
                    assert(args.take(0) =~= Seq::<Term>::empty());
                }
                assert(out@ =~= mid + terms_text(t));
            }
            i = i + 1;
        }
        assert(args.take(self.args.len() as int) =~= args);
        out.push(')');
        assert(out@ =~= old(out)@ + app_text(self));
    }

    /// The application's text.
    pub fn to_text(&self) -> (r: String)
        ensures
            r@ == app_text(self),
    {
        let mut out: Vec<char> = Vec::new();
        self.write(&mut out);
        assert(out@ =~= app_text(self));
        string_of(&out)
    }
}

impl Clause {
    /// Writes the clause as it reads inside a context of strength `prec`.
    pub fn disp_prec(&self, prec: u32, out: &mut Vec<char>)
        ensures
            final(out)@ == old(out)@ + clause_text(self, prec),
        decreases self,
    {
        let my: u32 = match self {
            Clause::Not(_) => 2,
            Clause::And(_, _) => 1,
            Clause::Or(_, _) => 0,
            _ => 3,
        };
        if my < prec {
            out.push('(');
        }
        let ghost mid = out@;
        match self {
            Clause::Top => out.push('⊤'),
            Clause::Bot => out.push('⊥'),
            Clause::App(a) => a.write(out),
            Clause::Not(c) => {
                out.push('~');
                c.disp_prec(my, out);
            },
            Clause::And(a, b) => {
                a.disp_prec(my, out);
                out.push(',');
                out.push(' ');
                b.disp_prec(my, out);
            },
            Clause::Or(a, b) => {
                a.disp_prec(my, out);
                out.push(';');
                out.push(' ');
                b.disp_prec(my, out);
            },
        }
        if my < prec {
            out.push(')');
        }
        assert(out@ =~= old(out)@ + clause_text(self, prec));
    }

    /// The clause's text.
    pub fn to_text(&self) -> (r: String)
        ensures
            r@ == clause_text(self, 0),
    {
        let mut out: Vec<char> = Vec::new();
        self.disp_prec(0, &mut out);
        assert(out@ =~= clause_text(self, 0));
        string_of(&out)
    }
}

} // verus!
