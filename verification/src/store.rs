//! The expectation store: a single ordered sequence of expectations.
//! Every mutation yields a new sequence that is a pure function of the
//! old one, and a snapshot is exactly the current sequence — no reader
//! ever sees a partial blend. Concurrent publication of snapshots is the
//! embedding program's concern (a pointer swap or a lock around this
//! store); the store itself defines what each operation does.

use vstd::prelude::*;
use vstd::pervasive::VecAdditionalExecFns;

use crate::models::{exps_view, Expectation, ExpectationV, MockRequest};

verus! {

/// Index of the first expectation with the given id, or `s.len()`.
pub open spec fn find_index(s: Seq<ExpectationV>, id: u64) -> int
    decreases s.len(),
{
    if s.len() == 0 {
        0
    } else if s[0].id == id {
        0
    } else {
        1 + find_index(s.drop_first(), id)
    }
}

pub proof fn lemma_find_index(s: Seq<ExpectationV>, id: u64)
    ensures
        0 <= find_index(s, id) <= s.len(),
        find_index(s, id) < s.len() ==> s[find_index(s, id)].id == id,
        forall|j: int| 0 <= j < find_index(s, id) ==> s[j].id != id,
    decreases s.len(),
{
    if s.len() > 0 && s[0].id != id {
        lemma_find_index(s.drop_first(), id);
        assert forall|j: int| 0 <= j < find_index(s, id) implies s[j].id != id by {
            if j > 0 {
                assert(s.drop_first()[j - 1] == s[j]);
            }
        }
    }
}

/// Largest id in the sequence, 0 when empty.
pub open spec fn max_id(s: Seq<ExpectationV>) -> int
    decreases s.len(),
{
    if s.len() == 0 {
        0
    } else if max_id(s.drop_last()) >= s.last().id {
        max_id(s.drop_last())
    } else {
        s.last().id as int
    }
}

pub proof fn lemma_max_id(s: Seq<ExpectationV>)
    ensures
        0 <= max_id(s) <= u64::MAX,
        forall|j: int| 0 <= j < s.len() ==> s[j].id <= max_id(s),
    decreases s.len(),
{
    if s.len() > 0 {
        lemma_max_id(s.drop_last());
        assert forall|j: int| 0 <= j < s.len() implies s[j].id <= max_id(s) by {
            if j < s.len() - 1 {
                assert(s.drop_last()[j] == s[j]);
            }
        }
    }
}

/// The id an add assigns: the one the caller supplied, else one past the
/// largest id in the store.
pub open spec fn assigned_id(s: Seq<ExpectationV>, requested: Option<u64>) -> int {
    match requested {
        Option::Some(id) => id as int,
        Option::None => max_id(s) + 1,
    }
}

/// What replacing the whole sequence yields.
pub open spec fn spec_replace(s: Seq<ExpectationV>, new: Seq<ExpectationV>) -> Seq<ExpectationV> {
    new
}

/// What export hands out.
pub open spec fn spec_export(s: Seq<ExpectationV>) -> Seq<ExpectationV> {
    s
}

/// The in-memory expectation store. Its view is the ordered sequence of
/// expectation views; insertion and import order is preserved, which
/// first-match dispatch depends on.
pub struct ExpectationStore {
    items: Vec<Expectation>,
}

impl View for ExpectationStore {
    type V = Seq<ExpectationV>;

    closed spec fn view(&self) -> Seq<ExpectationV> {
        exps_view(self.items@)
    }
}

impl ExpectationStore {
    /// An empty store.
    pub fn new() -> (r: ExpectationStore)
        ensures
            r@ == Seq::<ExpectationV>::empty(),
    {
        let r = ExpectationStore { items: Vec::new() };
        proof {
            assert(r@ =~= Seq::<ExpectationV>::empty());
        }
        r
    }

    /// A store over an initial list, as loaded from persistence.
    pub fn from_items(items: Vec<Expectation>) -> (r: ExpectationStore)
        ensures
            r@ == exps_view(items@),
    {
        ExpectationStore { items }
    }

    pub fn len(&self) -> (r: usize)
        ensures
            r == self@.len(),
    {
        self.items.len()
    }

    /// A consistent view of the current sequence: exactly the stored
    /// list, never a partial blend of two lists.
    pub fn snapshot(&self) -> (r: &Vec<Expectation>)
        ensures
            exps_view(r@) == spec_export(self@),
    {
        &self.items
    }

    /// Export is the same consistent view the dispatcher reads.
    pub fn export(&self) -> (r: &Vec<Expectation>)
        ensures
            exps_view(r@) == spec_export(self@),
    {
        &self.items
    }

    /// Atomically installs a whole new sequence (import does this too).
    pub fn replace(&mut self, items: Vec<Expectation>)
        ensures
            final(self)@ == spec_replace(old(self)@, exps_view(items@)),
    {
        self.items = items;
    }

    /// Appends a new expectation. When the request carries no id, one
    /// past the largest stored id is assigned.
    pub fn add(&mut self, req: MockRequest) -> (id: u64)
        requires
            req.id is Some || max_id(old(self)@) < u64::MAX,
        ensures
            id == assigned_id(old(self)@, req.id),
            final(self)@ == old(self)@.push(
                ExpectationV { id, condition: req.condition@, response: req.response@ },
            ),
    {
        let id: u64 = match req.id {
            Option::Some(id) => id,
            Option::None => self.next_id(),
        };
        let exp = Expectation { id, condition: req.condition, response: req.response };
        let ghost v0 = self@;
        self.items.push(exp);
        proof {
            assert(self@ =~= v0.push(exp@));
        }
        id
    }

    /// One past the largest stored id.
    fn next_id(&self) -> (r: u64)
        requires
            max_id(self@) < u64::MAX,
        ensures
            r == max_id(self@) + 1,
    {
        proof {
            lemma_max_id(self@);
        }
        let mut acc: u64 = 0;
        let mut i: usize = 0;
        proof {
            assert(self@.take(0) =~= Seq::<ExpectationV>::empty());
        }
        while i < self.items.len()
            invariant
                i <= self.items@.len(),
                self@.len() == self.items@.len(),
                forall|j: int| 0 <= j < self@.len() ==> self@[j] == #[trigger] self.items@[j]@,
                acc == max_id(self@.take(i as int)),
        decreases self.items@.len() - i,
        {
            proof {
                assert(self@.take(i + 1).drop_last() =~= self@.take(i as int));
                assert(self@.take(i + 1).last() == self@[i as int]);
            }
            let cand = self.items[i].id;
            if cand > acc {
                acc = cand;
            }
            i = i + 1;
        }
        proof {
            assert(self@.take(i as int) =~= self@);
        }
        acc + 1
    }

    /// Replaces the first expectation whose id matches, in place; reports
    /// whether one was found.
    pub fn update(&mut self, id: u64, exp: Expectation) -> (found: bool)
        ensures
            found == (find_index(old(self)@, id) < old(self)@.len()),
            found ==> final(self)@ == old(self)@.update(find_index(old(self)@, id), exp@),
            !found ==> final(self)@ == old(self)@,
    {
        proof {
            lemma_find_index(self@, id);
        }
        match self.position_of(id) {
            Option::Some(pos) => {
                let ghost v0 = self@;
                self.items.set(pos, exp);
                proof {
                    assert(self@ =~= v0.update(pos as int, exp@));
                }
                true
            },
            Option::None => false,
        }
    }

    /// Removes the first expectation whose id matches; reports whether
    /// one was found.
    pub fn delete(&mut self, id: u64) -> (found: bool)
        ensures
            found == (find_index(old(self)@, id) < old(self)@.len()),
            found ==> final(self)@ == old(self)@.remove(find_index(old(self)@, id)),
            !found ==> final(self)@ == old(self)@,
    {
        proof {
            lemma_find_index(self@, id);
        }
        match self.position_of(id) {
            Option::Some(pos) => {
                let ghost v0 = self@;
                self.items.remove(pos);
                proof {
                    assert(self@ =~= v0.remove(pos as int));
                }
                true
            },
            Option::None => false,
        }
    }

    /// Position of the first expectation with the given id.
    fn position_of(&self, id: u64) -> (r: Option<usize>)
        ensures
            match r {
                Option::Some(pos) => pos == find_index(self@, id) && pos < self@.len(),
                Option::None => find_index(self@, id) >= self@.len(),
            },
    {
        proof {
            lemma_find_index(self@, id);
        }
        let mut i: usize = 0;
        while i < self.items.len()
            invariant
                i <= self.items@.len(),
                self@.len() == self.items@.len(),
                forall|j: int| 0 <= j < self@.len() ==> self@[j] == #[trigger] self.items@[j]@,
                forall|j: int| 0 <= j < i ==> self@[j].id != id,
            decreases self.items@.len() - i,
        {
            if self.items[i].id == id {
                assert(self@[i as int] == self.items@[i as int]@);
                assert(self@[i as int].id == id);
                return Some(i);
            }
            i = i + 1;
        }
        None
    }
}

/// Round trip: importing exactly what export handed out leaves the
/// stored sequence unchanged.
pub proof fn lemma_export_import_roundtrip(s: Seq<ExpectationV>)
    ensures
        spec_replace(s, spec_export(s)) == s,
{
}

} // verus!
