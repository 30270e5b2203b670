use vstd::prelude::*;

use crate::name_order::{
    lemma_name_lt_irreflexive, lemma_name_lt_total, lemma_name_lt_transitive, name_less, name_lt,
};
use crate::record::{Record, RecordModel};

verus! {

/// The registry of one invocation: every record defined so far, kept in
/// ascending order of name, one record per name.
pub struct State {
    pub variables: Vec<Record>,
}

impl State {
    /// Names strictly ascend, so no name occurs twice.
    pub open spec fn wf(&self) -> bool {
        forall|i: int, j: int|
            0 <= i < j < self.variables.len() ==> name_lt(
                #[trigger] self.variables[i].name@,
                #[trigger] self.variables[j].name@,
            )
    }

    pub open spec fn has(&self, k: Seq<char>) -> bool {
        exists|i: int| 0 <= i < self.variables.len() && #[trigger] self.variables[i].name@ == k
    }

    /// The index at which `k` is stored, when `has(k)`.
    pub open spec fn index_of(&self, k: Seq<char>) -> int {
        choose|i: int| 0 <= i < self.variables.len() && #[trigger] self.variables[i].name@ == k
    }

    /// The records, in the order in which they are emitted.
    pub open spec fn records(&self) -> Seq<RecordModel> {
        self.variables@.map_values(|r: Record| r@)
    }
}

impl View for State {
    type V = Map<Seq<char>, RecordModel>;

    /// The registry as a map from name to record.
    open spec fn view(&self) -> Map<Seq<char>, RecordModel> {
        Map::new(|k: Seq<char>| self.has(k), |k: Seq<char>| self.variables[self.index_of(k)]@)
    }
}

pub proof fn lemma_view_at(s: State, i: int)
    requires
        s.wf(),
        0 <= i < s.variables.len(),
    ensures
        s@.contains_key(s.variables[i].name@),
        s@[s.variables[i].name@] == s.variables[i]@,
{
    let k = s.variables[i].name@;
    assert(s.has(k));
    let j = s.index_of(k);
    if j != i {
        lemma_name_lt_irreflexive(k);
        if i < j {
            assert(name_lt(s.variables[i].name@, s.variables[j].name@));
        } else {
            assert(name_lt(s.variables[j].name@, s.variables[i].name@));
        }
    }
    assert(s@.dom().contains(k));
    assert(s@[k] == s.variables[j]@);
}

impl State {
    /// An empty registry.
    pub fn new() -> (r: State)
        ensures
            r.wf(),
            r@ == Map::<Seq<char>, RecordModel>::empty(),
    {
        let r = State { variables: Vec::new() };
        assert(r@ =~= Map::<Seq<char>, RecordModel>::empty());
        r
    }

    /// The record registered under `name`, if any.
    pub fn lookup(&self, name: &String) -> (r: Option<&Record>)
        requires
            self.wf(),
        ensures
            r is None <==> !self@.contains_key(name@),
            r matches Some(rec) ==> rec@ == self@[name@],
    {
        let mut i: usize = 0;
        while i < self.variables.len()
            invariant
                self.wf(),
                i <= self.variables.len(),
                forall|j: int| 0 <= j < i ==> #[trigger] self.variables[j].name@ != name@,
            decreases self.variables.len() - i,
        {
            if self.variables[i].name == *name {
                proof {
                    lemma_view_at(*self, i as int);
                }
                return Some(&self.variables[i]);
            }
            i += 1;
        }
        None
    }

    /// Whether a record is registered under `name`.
    pub fn contains_key(&self, name: &String) -> (r: bool)
        requires
            self.wf(),
        ensures
            r == self@.contains_key(name@),
    {
        self.lookup(name).is_some()
    }

    /// Registers `record` under its own name, which must be new.
    pub fn insert(&mut self, record: Record)
        requires
            old(self).wf(),
            !old(self)@.contains_key(record.name@),
        ensures
            final(self).wf(),
            final(self)@ == old(self)@.insert(record.name@, record@),
    {
        let ghost old_s = *self;
        let ghost k = record.name@;
        let mut p: usize = 0;
        while p < self.variables.len()
            invariant
                *self == old_s,
                k == record.name@,
                p <= self.variables.len(),
                forall|j: int| 0 <= j < p ==> name_lt(#[trigger] self.variables[j].name@, k),
            ensures
                *self == old_s,
                p <= self.variables.len(),
                forall|j: int| 0 <= j < p ==> name_lt(#[trigger] self.variables[j].name@, k),
                p < self.variables.len() ==> !name_lt(self.variables[p as int].name@, k),
            decreases self.variables.len() - p,
        {
            if !name_less(&self.variables[p].name, &record.name) {
                break;
            }
            p += 1;
        }
        proof {
            if p < old_s.variables.len() {
                let n = old_s.variables[p as int].name@;
                if n == k {
                    assert(old_s.has(k));
                }
                assert(!name_lt(n, k));
                lemma_name_lt_total(n, k);
                assert(name_lt(k, n));
            }
        }
        let ghost rec = record@;
        self.variables.insert(p, record);
        proof {
            let nv = self.variables;
            let ov = old_s.variables;
            assert(nv@ == ov@.insert(p as int, nv[p as int]));
            assert forall|i: int, j: int| 0 <= i < j < nv.len() implies name_lt(
                #[trigger] nv[i].name@,
                #[trigger] nv[j].name@,
            ) by {
                if j < p {
                    assert(nv[i] == ov[i] && nv[j] == ov[j]);
                } else if j == p {
                    assert(nv[i] == ov[i]);
                } else if i == p {
                    assert(nv[j] == ov[j - 1]);
                    if j - 1 > p {
                        assert(name_lt(ov[p as int].name@, ov[j - 1].name@));
                        lemma_name_lt_transitive(k, ov[p as int].name@, ov[j - 1].name@);
                    }
                } else if i < p {
                    assert(nv[i] == ov[i] && nv[j] == ov[j - 1]);
                    if p < ov.len() {
                        if j - 1 > p {
                            assert(name_lt(ov[p as int].name@, ov[j - 1].name@));
                            lemma_name_lt_transitive(k, ov[p as int].name@, ov[j - 1].name@);
                        }
                        lemma_name_lt_transitive(ov[i].name@, k, ov[j - 1].name@);
                    }
                } else {
                    assert(nv[i] == ov[i - 1] && nv[j] == ov[j - 1]);
                }
            }
            let target = old_s@.insert(k, rec);
            assert forall|q: Seq<char>| #[trigger] self@.contains_key(q) <==> target.contains_key(q) by {
                if self@.contains_key(q) {
                    let i = choose|i: int| 0 <= i < nv.len() && #[trigger] nv[i].name@ == q;
                    if i < p {
                        assert(ov[i].name@ == q);
                        assert(old_s.has(q));
                    } else if i > p {
                        assert(ov[i - 1].name@ == q);
                        assert(old_s.has(q));
                    }
                }
                if target.contains_key(q) {
                    if q == k {
                        assert(nv[p as int].name@ == q);
                    } else {
                        let i = choose|i: int| 0 <= i < ov.len() && #[trigger] ov[i].name@ == q;
                        if i < p {
                            assert(nv[i].name@ == q);
                        } else {
                            assert(nv[i + 1].name@ == q);
                        }
                    }
                }
            }
            assert forall|q: Seq<char>| #[trigger] self@.contains_key(q) implies self@[q] == target[q] by {
                if q == k {
                    lemma_view_at(*self, p as int);
                } else {
                    let i = choose|i: int| 0 <= i < ov.len() && #[trigger] ov[i].name@ == q;
                    lemma_view_at(old_s, i);
                    if i < p {
                        lemma_view_at(*self, i);
                    } else {
                        assert(nv[i + 1] == ov[i]);
                        lemma_view_at(*self, i + 1);
                    }
                }
            }
            assert(self@ =~= target);
        }
    }
}

} // verus!
