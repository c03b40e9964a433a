use vstd::prelude::*;
use crate::term::Value;
use crate::clause::{App, Pred};

verus! {

/// Hands out one predicate identity per (name, arity): the position of that
/// pair in order of first use.
#[derive(Debug)]
pub struct ParserTag {
    entries: Vec<(String, usize)>,
}

impl ParserTag {
    /// The (name, arity) pairs met so far, in order of first use.
    pub closed spec fn keys(&self) -> Seq<(Seq<char>, nat)> {
        self.entries@.map_values(|e: (String, usize)| (e.0@, e.1 as nat))
    }

    /// No pair is held twice.
    pub open spec fn wf(&self) -> bool {
        forall|i: int, j: int| 0 <= i < j < self.keys().len() ==> self.keys()[i] != self.keys()[j]
    }

    pub fn new() -> (r: ParserTag)
        ensures
            r.wf(),
            r.keys().len() == 0,
    {
        let r = ParserTag { entries: Vec::new() };
        assert(r.keys() =~= Seq::<(Seq<char>, nat)>::empty());
        r
    }

    /// How many pairs were met so far.
    pub fn len(&self) -> (r: usize)
        ensures
            r == self.keys().len(),
    {
        self.entries.len()
    }

    /// The application of the predicate `name` with the arity of `vals` to
    /// `vals`. A pair met before keeps its identity; a new one is added at
    /// the end and gets the next identity.
    pub fn make_app(&mut self, name: String, vals: Vec<Value>) -> (r: App)
        requires
            old(self).wf(),
            old(self).keys().len() < u64::MAX,
        ensures
            final(self).wf(),
            r.wf(),
            r.args@ == vals@,
            r.pred.name@ == name@,
            r.pred.arity == vals.len(),
            r.pred.id < final(self).keys().len(),
            final(self).keys()[r.pred.id as int] == (name@, vals.len() as nat),
            old(self).keys().contains((name@, vals.len() as nat)) ==> final(self).keys() == old(self).keys(),
            !old(self).keys().contains((name@, vals.len() as nat)) ==> final(self).keys()
                == old(self).keys().push((name@, vals.len() as nat)),
    {
        let n = vals.len();
        let mut i: usize = 0;
        while i < self.entries.len()
            invariant
                0 <= i <= self.entries.len(),
                n == vals.len(),
                self.wf(),
                forall|j: int| 0 <= j < i ==> self.keys()[j] != (name@, n as nat),
            decreases self.entries.len() - i,
        {
            if self.entries[i].1 == n && self.entries[i].0.eq(&name) {
                assert(self.keys()[i as int] == (name@, n as nat));
                let id = i as u64;
                return App::new(Pred::new(id, name, n), vals);
            }
            i = i + 1;
        }
        let ghost before = self.keys();
        let id = self.entries.len() as u64;
        self.entries.push((name.clone(), n));
        assert(self.keys() =~= before.push((name@, n as nat)));
        assert(!before.contains((name@, n as nat))) by {
            if before.contains((name@, n as nat)) {
                let j = choose|j: int| 0 <= j < before.len() && before[j] == (name@, n as nat);
                assert(self.keys()[j] == before[j]);
            }
        }
        App::new(Pred::new(id, name, n), vals)
    }
}

} // verus!
