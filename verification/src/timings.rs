//! The books of a stopwatch: how often each numbered operation was
//! measured, and how long it took in all.

use std::collections::HashMap;
use vstd::prelude::*;
use vstd::std_specs::iter::IteratorSpec;

verus! {

/// Operations with a number below this one are not measured.
pub const FIRST_TIMED_ID: usize = 15;

/// True when the operation with this number is measured.
pub open spec fn is_timed(id: usize) -> bool {
    id >= FIRST_TIMED_ID
}

/// True when the operation with this number is measured.
pub fn is_enabled(id: usize) -> (enabled: bool)
    ensures
        enabled == is_timed(id),
{
    id >= FIRST_TIMED_ID
}

/// How often something was measured and how long it took in all.
#[derive(Clone, Copy, Debug, PartialEq, Eq, Structural)]
pub struct Tally {
    /// The number of measurements.
    pub count: usize,
    /// Their sum, in nanoseconds.
    pub total_nanos: u128,
}

/// The tally of what was never measured.
pub open spec fn no_tally() -> Tally {
    Tally { count: 0, total_nanos: 0 }
}

/// The sum of two numbers, or `limit` where the sum is beyond it.
pub open spec fn capped_sum(a: int, b: int, limit: int) -> int {
    if a + b > limit {
        limit
    } else {
        a + b
    }
}

/// Two tallies as one: counts and times add up, and each stops at the
/// largest number its type can hold.
pub open spec fn combined(a: Tally, b: Tally) -> Tally {
    Tally {
        count: capped_sum(a.count as int, b.count as int, usize::MAX as int) as usize,
        total_nanos: capped_sum(
            a.total_nanos as int,
            b.total_nanos as int,
            u128::MAX as int,
        ) as u128,
    }
}

/// The mean time of a measurement in nanoseconds, rounded down; zero where
/// nothing was measured.
pub open spec fn mean_nanos(tally: Tally) -> int {
    if tally.count == 0 {
        0
    } else {
        tally.total_nanos as int / tally.count as int
    }
}

impl Tally {
    /// One measurement of this length.
    pub fn single(elapsed_nanos: u128) -> (tally: Tally)
        ensures
            tally == (Tally { count: 1, total_nanos: elapsed_nanos }),
    {
        Tally { count: 1, total_nanos: elapsed_nanos }
    }

    /// This tally and another as one.
    pub fn plus(self, other: Tally) -> (sum: Tally)
        ensures
            sum == combined(self, other),
    {
        let count = match self.count.checked_add(other.count) {
            Some(count) => count,
            None => usize::MAX,
        };
        let total_nanos = match self.total_nanos.checked_add(other.total_nanos) {
            Some(total_nanos) => total_nanos,
            None => u128::MAX,
        };
        Tally { count, total_nanos }
    }

    /// The mean time of a measurement.
    pub fn average_nanos(&self) -> (mean: u128)
        ensures
            mean == mean_nanos(*self),
    {
        if self.count == 0 {
            0
        } else {
            self.total_nanos / (self.count as u128)
        }
    }
}

/// What was measured of the operation in these books, and the tally of
/// nothing measured where they do not know it.
pub open spec fn tally_in(books: Map<usize, Tally>, id: usize) -> Tally {
    if books.contains_key(id) {
        books[id]
    } else {
        no_tally()
    }
}

/// The tally of one operation, as a ledger hands it out.
pub struct Row {
    /// The number of the operation.
    pub id: usize,
    /// What was measured of it.
    pub tally: Tally,
}

/// True when one of the rows is for `id`.
pub open spec fn has_row(rows: Seq<Row>, id: usize) -> bool {
    exists|i: int| 0 <= i < rows.len() && (#[trigger] rows[i]).id == id
}

/// True when no two rows are for the same operation.
pub open spec fn ids_distinct(rows: Seq<Row>) -> bool {
    forall|i: int, j: int|
        0 <= i < j < rows.len() ==> (#[trigger] rows[i]).id != (#[trigger] rows[j]).id
}

/// The operation that the entry at `at` of a walk over a map is for.
spec fn key_at(walk: Seq<(&usize, &Tally)>, at: int) -> usize {
    *walk[at].0
}

/// True when one of the first `upto` entries of a walk is for `id`.
spec fn met(walk: Seq<(&usize, &Tally)>, upto: int, id: usize) -> bool {
    exists|j: int| 0 <= j < upto && #[trigger] key_at(walk, j) == id
}

/// True when the walk shows the entries of the books and nothing else.
spec fn covers(walk: Seq<(&usize, &Tally)>, books: Map<usize, Tally>) -> bool {
    &&& walk.len() == books.dom().len()
    &&& forall|j: int|
        0 <= j < walk.len() ==> books.contains_key(#[trigger] key_at(walk, j)) && books[key_at(
            walk,
            j,
        )] == *walk[j].1
    &&& forall|id: usize| #[trigger] books.contains_key(id) <==> met(walk, walk.len() as int, id)
}

/// True when no two entries of the walk are for the same operation.
spec fn keys_distinct(walk: Seq<(&usize, &Tally)>) -> bool {
    forall|i: int, j: int|
        0 <= i < j < walk.len() ==> #[trigger] key_at(walk, i) != #[trigger] key_at(walk, j)
}

/// The tallies of all operations that were measured.
pub struct Ledger {
    tallies: HashMap<usize, Tally>,
}

impl View for Ledger {
    type V = Map<usize, Tally>;

    /// The tally of each operation that was measured.
    closed spec fn view(&self) -> Map<usize, Tally> {
        self.tallies@
    }
}

impl Ledger {
    /// True when the operation was measured.
    pub open spec fn measured(&self, id: usize) -> bool {
        self@.contains_key(id)
    }

    /// What was measured of the operation.
    pub open spec fn tally(&self, id: usize) -> Tally {
        tally_in(self@, id)
    }

    /// A ledger of nothing.
    pub fn new() -> (ledger: Ledger)
        ensures
            ledger@ == Map::<usize, Tally>::empty(),
    {
        Ledger { tallies: HashMap::new() }
    }

    /// What was measured of the operation.
    pub fn tally_of(&self, id: usize) -> (tally: Tally)
        ensures
            tally == self.tally(id),
    {
        match self.tallies.get(&id) {
            Some(tally) => *tally,
            None => Tally { count: 0, total_nanos: 0 },
        }
    }

    /// Adds `more` to what was measured of the operation, and leaves all
    /// other operations as they are.
    pub fn add(&mut self, id: usize, more: Tally)
        ensures
            final(self)@ == old(self)@.insert(id, combined(old(self).tally(id), more)),
    {
        let sum = self.tally_of(id).plus(more);
        self.tallies.insert(id, sum);
    }

    /// Takes one measurement of the operation into the books.
    pub fn record(&mut self, id: usize, elapsed_nanos: u128)
        ensures
            final(self)@ == old(self)@.insert(
                id,
                combined(old(self).tally(id), Tally { count: 1, total_nanos: elapsed_nanos }),
            ),
    {
        self.add(id, Tally::single(elapsed_nanos));
    }

    /// Takes all that another ledger holds into this one: of each operation,
    /// what this ledger and the other measured, as one.
    pub fn merge(&mut self, other: &Ledger)
        ensures
            final(self)@.dom() == old(self)@.dom().union(other@.dom()),
            forall|id: usize|
                final(self).tally(id) == combined(old(self).tally(id), other.tally(id)),
    {
        let ghost mine = self@;
        let ghost theirs = other@;
        proof {
            lemma_walk_covers(&other.tallies);
            assert forall|id: usize| tally_in(mine, id) == combined(tally_in(mine, id), no_tally()) by {
                lemma_combined_with_nothing(tally_in(mine, id));
            }
        }
        for pair in it: other.tallies.iter()
            invariant
                theirs == other.tallies@,
                it.seq().no_duplicates(),
                covers(it.seq(), theirs),
                forall|id: usize|
                    #[trigger] self@.contains_key(id) == (mine.contains_key(id) || met(
                        it.seq(),
                        it.index() as int,
                        id,
                    )),
                forall|id: usize|
                    #[trigger] tally_in(self@, id) == combined(
                        tally_in(mine, id),
                        if met(it.seq(), it.index() as int, id) {
                            theirs[id]
                        } else {
                            no_tally()
                        },
                    ),
        {
            let ghost at = it.index() as int;
            let ghost walk = it.seq();
            let ghost before = self@;
            let (id, tally) = pair;
            proof {
                lemma_keys_distinct(walk, theirs);
                assert(key_at(walk, at) == *id);
                assert(!met(walk, at, *id));
                lemma_combined_with_nothing(tally_in(mine, *id));
            }
            self.add(*id, *tally);
            proof {
                assert(before.contains_key(*id) == mine.contains_key(*id));
                assert(tally_in(before, *id) == tally_in(mine, *id));
                assert forall|any: usize| met(walk, at + 1, any) == (any == *id || met(
                    walk,
                    at,
                    any,
                )) by {
                    if met(walk, at + 1, any) && any != *id {
                        let j = choose|j: int| 0 <= j < at + 1 && #[trigger] key_at(walk, j) == any;
                        assert(j < at);
                    }
                    if met(walk, at, any) {
                        let j = choose|j: int| 0 <= j < at && #[trigger] key_at(walk, j) == any;
                        assert(key_at(walk, j) == any);
                    }
                }
                assert forall|any: usize| #[trigger]
                    self@.contains_key(any) == (mine.contains_key(any) || met(
                        walk,
                        at + 1,
                        any,
                    )) by {
                    assert(before.contains_key(any) == (mine.contains_key(any) || met(
                        walk,
                        at,
                        any,
                    )));
                }
                assert forall|any: usize| #[trigger]
                    tally_in(self@, any) == combined(
                        tally_in(mine, any),
                        if met(walk, at + 1, any) {
                            theirs[any]
                        } else {
                            no_tally()
                        },
                    ) by {
                    assert(tally_in(before, any) == combined(
                        tally_in(mine, any),
                        if met(walk, at, any) {
                            theirs[any]
                        } else {
                            no_tally()
                        },
                    ));
                }
            }
        }
        proof {
            assert forall|id: usize|
                self.tally(id) == combined(tally_in(mine, id), tally_in(theirs, id)) by {
                assert(tally_in(self@, id) == tally_in(self@, id));
            }
            assert forall|id: usize|
                self@.contains_key(id) == (mine.contains_key(id) || theirs.contains_key(id)) by {
                assert(self@.contains_key(id) == self@.contains_key(id));
            }
            assert(self@.dom() =~= mine.dom().union(theirs.dom()));
        }
    }

    /// The tallies as rows: one for each operation that was measured, in no
    /// order that could be told beforehand.
    pub fn entries(&self) -> (rows: Vec<Row>)
        ensures
            rows@.len() == self@.dom().len(),
            ids_distinct(rows@),
            forall|i: int|
                0 <= i < rows@.len() ==> self.measured((#[trigger] rows@[i]).id) && self.tally(
                    rows@[i].id,
                ) == rows@[i].tally,
            forall|id: usize| self.measured(id) ==> has_row(rows@, id),
    {
        let mut rows: Vec<Row> = Vec::new();
        proof {
            lemma_walk_covers(&self.tallies);
        }
        for pair in it: self.tallies.iter()
            invariant
                it.seq().no_duplicates(),
                covers(it.seq(), self.tallies@),
                rows@.len() == it.index(),
                forall|i: int|
                    0 <= i < rows@.len() ==> (#[trigger] rows@[i]).id == key_at(it.seq(), i)
                        && rows@[i].tally == *it.seq()[i].1,
                ids_distinct(rows@),
                forall|i: int|
                    0 <= i < rows@.len() ==> self.tallies@.contains_key((#[trigger] rows@[i]).id)
                        && self.tallies@[rows@[i].id] == rows@[i].tally,
                forall|id: usize|
                    #[trigger] met(it.seq(), it.index() as int, id) ==> has_row(rows@, id),
        {
            let ghost at = it.index() as int;
            let ghost walk = it.seq();
            let ghost before = rows@;
            let (id, tally) = pair;
            proof {
                lemma_keys_distinct(walk, self.tallies@);
                assert(key_at(walk, at) == *id);
            }
            rows.push(Row { id: *id, tally: *tally });
            proof {
                let after = rows@;
                assert forall|i: int, j: int| 0 <= i < j < after.len() implies (#[trigger] after[i]).id
                    != (#[trigger] after[j]).id by {
                    assert(key_at(walk, i) != key_at(walk, j));
                }
                assert forall|any: usize| #[trigger] met(walk, at + 1, any) implies has_row(
                    after,
                    any,
                ) by {
                    let j = choose|j: int| 0 <= j < at + 1 && #[trigger] key_at(walk, j) == any;
                    assert(after[j].id == any);
                }
            }
        }
        rows
    }
}

/// A walk over a map shows its entries and nothing else.
proof fn lemma_walk_covers(books: &HashMap<usize, Tally>)
    ensures
        covers(vstd::std_specs::hash::spec_hash_map_iter(books).remaining(), books@),
{
    vstd::std_specs::hash::axiom_spec_hash_map_iter(books);
    let walk = vstd::std_specs::hash::spec_hash_map_iter(books).remaining();
    assert forall|j: int| 0 <= j < walk.len() implies books@.contains_key(
        #[trigger] key_at(walk, j),
    ) && books@[key_at(walk, j)] == *walk[j].1 by {
        assert(books@.contains_key(*walk[j].0));
    }
    assert forall|id: usize| #[trigger] books@.contains_key(id) <==> met(
        walk,
        walk.len() as int,
        id,
    ) by {
        if books@.contains_key(id) {
            let j = choose|j: int| 0 <= j < walk.len() && walk[j] == (&id, &books@[id]);
            assert(key_at(walk, j) == id);
        }
        if met(walk, walk.len() as int, id) {
            let j = choose|j: int| 0 <= j < walk.len() && #[trigger] key_at(walk, j) == id;
            assert(books@.contains_key(key_at(walk, j)));
        }
    }
}

/// A walk that shows no entry twice shows no operation twice, since the
/// books hold one tally for each.
proof fn lemma_keys_distinct(walk: Seq<(&usize, &Tally)>, books: Map<usize, Tally>)
    requires
        walk.no_duplicates(),
        covers(walk, books),
    ensures
        keys_distinct(walk),
{
    assert forall|i: int, j: int| 0 <= i < j < walk.len() implies #[trigger] key_at(walk, i)
        != #[trigger] key_at(walk, j) by {
        if key_at(walk, i) == key_at(walk, j) {
            assert(books[key_at(walk, i)] == *walk[i].1);
            assert(books[key_at(walk, j)] == *walk[j].1);
            assert(walk[i] == walk[j]);
        }
    }
}

/// Nothing measured adds nothing.
pub proof fn lemma_combined_with_nothing(tally: Tally)
    ensures
        combined(tally, no_tally()) == tally,
        combined(no_tally(), tally) == tally,
{
}

/// Tallies can be taken together in any order and any grouping, so the
/// sum over several ledgers does not depend on the order in which they are
/// merged.
pub proof fn lemma_combined_in_any_order(a: Tally, b: Tally, c: Tally)
    ensures
        combined(a, b) == combined(b, a),
        combined(combined(a, b), c) == combined(a, combined(b, c)),
{
}

} // verus!
