//! The table that gives every aggregate its own lock.
use vstd::hash_map::StringHashMap;
use vstd::prelude::*;

verus! {

/// A table with fewer rows than this is never swept.
pub const MIN_SWEEP_WATERMARK: u64 = 64;

/// What the table knows of an aggregate: its lock, and the number of commands
/// that hold it or wait for it. With no such command the row is garbage.
#[derive(Clone, Copy)]
struct LockRow {
    lock: u64,
    interest: u64,
}

/// The rows of a table by aggregate ID, and the IDs once more, to walk them.
struct LockRows {
    table: StringHashMap<LockRow>,
    ids: Vec<String>,
}

impl LockRows {
    /// Every ID with a row is listed, exactly once.
    spec fn listed(self) -> bool {
        &&& forall|i: int, j: int|
            0 <= i < j < self.ids@.len() ==> (#[trigger] self.ids@[i])@ != (
            #[trigger] self.ids@[j])@
        &&& forall|i: int|
            0 <= i < self.ids@.len() ==> self.table@.contains_key((#[trigger] self.ids@[i])@)
        &&& forall|id: Seq<char>| #[trigger]
            self.table@.contains_key(id) ==> exists|i: int|
                0 <= i < self.ids@.len() && (#[trigger] self.ids@[i])@ == id
    }

    fn new() -> (rows: Self)
        ensures
            rows.listed(),
            rows.table@ == Map::<Seq<char>, LockRow>::empty(),
            rows.ids@.len() == 0,
    {
        Self { table: StringHashMap::new(), ids: Vec::new() }
    }
}

/// For each ID that some command is interested in: its lock, and the number of
/// those commands.
spec fn live_rows(table: Map<Seq<char>, LockRow>) -> Map<Seq<char>, (nat, nat)> {
    Map::new(
        |id: Seq<char>| table.contains_key(id) && table[id].interest > 0,
        |id: Seq<char>| (table[id].lock as nat, table[id].interest as nat),
    )
}

spec fn locks_distinct(table: Map<Seq<char>, LockRow>) -> bool {
    forall|left: Seq<char>, right: Seq<char>|
        #![trigger table.contains_key(left), table.contains_key(right)]
        table.contains_key(left) && table.contains_key(right) && table[left].lock
            == table[right].lock ==> left == right
}

/// There are as many rows as listed IDs.
proof fn lemma_row_count(rows: LockRows)
    requires
        rows.listed(),
    ensures
        rows.table@.dom().finite(),
        rows.table@.dom().len() == rows.ids@.len(),
{
    let ids = rows.ids@.map_values(|id: String| id@);
    assert forall|i: int, j: int| 0 <= i < ids.len() && 0 <= j < ids.len() && i
        != j implies ids[i] != ids[j] by {
        if i < j {
            assert(rows.ids@[i]@ != rows.ids@[j]@);
        } else {
            assert(rows.ids@[j]@ != rows.ids@[i]@);
        }
    }
    ids.unique_seq_to_set();
    assert forall|id: Seq<char>| ids.to_set().contains(id) == rows.table@.dom().contains(id) by {
        if ids.contains(id) {
            let i = choose|i: int| 0 <= i < ids.len() && ids[i] == id;
            assert(rows.table@.contains_key(rows.ids@[i]@));
        }
        if rows.table@.contains_key(id) {
            let i = choose|i: int| 0 <= i < rows.ids@.len() && (#[trigger] rows.ids@[i])@ == id;
            assert(ids[i] == id);
        }
    }
    assert(rows.table@.dom() =~= ids.to_set());
}

/// A row that is changed stays listed.
proof fn lemma_row_changed(before: LockRows, after: LockRows, id: Seq<char>, row: LockRow)
    requires
        before.listed(),
        before.table@.contains_key(id),
        after.table@ == before.table@.insert(id, row),
        after.ids@ == before.ids@,
    ensures
        after.listed(),
{
    assert forall|key: Seq<char>| #[trigger] after.table@.contains_key(key) implies exists|i: int|
        0 <= i < after.ids@.len() && (#[trigger] after.ids@[i])@ == key by {
        assert(before.table@.contains_key(key));
    }
}

/// A row that is added under a new ID, and listed, leaves all rows listed.
proof fn lemma_row_added(before: LockRows, after: LockRows, id: String, row: LockRow)
    requires
        before.listed(),
        !before.table@.contains_key(id@),
        after.table@ == before.table@.insert(id@, row),
        after.ids@ == before.ids@.push(id),
    ensures
        after.listed(),
{
    assert forall|i: int, j: int| 0 <= i < j < after.ids@.len() implies (#[trigger] after.ids@[i])@
        != (#[trigger] after.ids@[j])@ by {
        assert(before.ids@[i] == after.ids@[i]);
        if j < before.ids@.len() {
            assert(before.ids@[j] == after.ids@[j]);
        } else {
            assert(before.table@.contains_key(before.ids@[i]@));
        }
    }
    assert forall|i: int| 0 <= i < after.ids@.len() implies #[trigger] after.table@.contains_key(
        after.ids@[i]@,
    ) by {
        if i < before.ids@.len() {
            assert(before.ids@[i] == after.ids@[i]);
        }
    }
    assert forall|key: Seq<char>| #[trigger] after.table@.contains_key(key) implies exists|i: int|
        0 <= i < after.ids@.len() && (#[trigger] after.ids@[i])@ == key by {
        if before.table@.contains_key(key) {
            let i = choose|i: int|
                0 <= i < before.ids@.len() && (#[trigger] before.ids@[i])@ == key;
            assert(after.ids@[i]@ == key);
        } else {
            assert(after.ids@[before.ids@.len() as int]@ == key);
        }
    }
}

/// The rows without the garbage among them, in a table of their size.
fn swept(rows: LockRows) -> (kept: LockRows)
    requires
        rows.listed(),
    ensures
        kept.listed(),
        kept.table@.submap_of(rows.table@),
        kept.table@.dom() == live_rows(rows.table@).dom(),
        live_rows(kept.table@) == live_rows(rows.table@),
        kept.ids@.len() <= rows.ids@.len(),
{
    let ghost ids = rows.ids@;
    let table = rows.table;
    let mut rest: Vec<String> = rows.ids;
    let mut kept = LockRows::new();
    while rest.len() > 0
        invariant
            rows.listed(),
            ids == rows.ids@,
            table@ == rows.table@,
            rest@.len() <= ids.len(),
            rest@ == ids.take(rest@.len() as int),
            kept.listed(),
            kept.ids@.len() + rest@.len() <= ids.len(),
            forall|id: Seq<char>| #[trigger]
                kept.table@.contains_key(id) ==> table@.contains_key(id) && kept.table@[id]
                    == table@[id] && table@[id].interest > 0,
            forall|i: int|
                0 <= i < rest@.len() ==> !kept.table@.contains_key((#[trigger] ids[i])@),
            forall|i: int|
                rest@.len() <= i < ids.len() && table@[(#[trigger] ids[i])@].interest > 0
                    ==> kept.table@.contains_key(ids[i]@),
        decreases rest@.len(),
    {
        let ghost last = rest@.len() - 1;
        let ghost before = kept;
        match rest.pop() {
            Some(id) => {
                assert(id == ids[last]);
                assert(rest@ =~= ids.take(last as int));
                match table.get(id.as_str()) {
                    Some(row) => {
                        let row: LockRow = *row;
                        if row.interest > 0 {
                            kept.table.insert(id.clone(), row);
                            kept.ids.push(id);
                            proof {
                                lemma_row_added(before, kept, ids[last], row);
                                assert forall|i: int| 0 <= i < rest@.len() implies !(
                                kept.table@.contains_key((#[trigger] ids[i])@)) by {
                                    assert(ids[i]@ != ids[last]@);
                                }
                            }
                        }
                    },
                    None => {
                        assert(rows.table@.contains_key(rows.ids@[last]@));
                    },
                }
            },
            None => {},
        }
    }
    proof {
        assert forall|id: Seq<char>|
            rows.table@.contains_key(id) && rows.table@[id].interest > 0 implies #[trigger]
            kept.table@.contains_key(id) by {
            let i = choose|i: int| 0 <= i < rows.ids@.len() && (#[trigger] rows.ids@[i])@ == id;
            assert(ids[i]@ == id);
        }
        assert(kept.table@.dom() =~= live_rows(rows.table@).dom());
        assert(live_rows(kept.table@) =~= live_rows(rows.table@));
    }
    kept
}

/// The watermark that a sweep leaving `live` rows sets: twice their number, but
/// no less than the smallest one.
pub open spec fn watermark_for(live: nat) -> nat {
    if 2 * live <= MIN_SWEEP_WATERMARK {
        MIN_SWEEP_WATERMARK as nat
    } else {
        2 * live
    }
}

/// The state of a lock table.
#[verifier::ext_equal]
pub struct LockState {
    /// For each aggregate ID that some command holds or waits for: its lock,
    /// and the number of those commands.
    pub live: Map<Seq<char>, (nat, nat)>,
    /// The number of times a lock was acquired.
    pub acquired: nat,
    /// The aggregate IDs that take up a row, with garbage rows among them.
    pub rows: Set<Seq<char>>,
    /// The number of rows at which the next row to be added has the garbage
    /// swept out first.
    pub watermark: nat,
}

/// One step in the life of a lock table, named by the aggregate it is about.
pub enum LockStep {
    /// A command starts to hold the lock or to wait for it.
    Acquire(Seq<char>),
    /// A command is done, or stops waiting.
    Release(Seq<char>),
}

impl LockState {
    /// The state of a table that was never used.
    pub open spec fn initial() -> LockState {
        LockState {
            live: Map::empty(),
            acquired: 0,
            rows: Set::empty(),
            watermark: MIN_SWEEP_WATERMARK as nat,
        }
    }

    /// Live aggregates have locks of their own, all of them handed out, with
    /// some command interested in each. They all have a row, and there are no
    /// more rows than the watermark allows.
    pub open spec fn consistent(self) -> bool {
        &&& forall|id: Seq<char>| #[trigger]
            self.live.contains_key(id) ==> self.live[id].0 < self.acquired && self.live[id].1 > 0
        &&& forall|left: Seq<char>, right: Seq<char>|
            #![trigger self.live.contains_key(left), self.live.contains_key(right)]
            self.live.contains_key(left) && self.live.contains_key(right) && self.live[left].0
                == self.live[right].0 ==> left == right
        &&& self.live.dom().subset_of(self.rows)
        &&& self.rows.finite()
        &&& self.rows.len() <= self.watermark
        &&& MIN_SWEEP_WATERMARK <= self.watermark
    }

    /// The lock that a command on `id` gets: the live one, else a fresh one.
    pub open spec fn lock_for(self, id: Seq<char>) -> nat {
        if self.live.contains_key(id) {
            self.live[id].0
        } else {
            self.acquired
        }
    }

    /// The number of commands that hold the lock of `id` or wait for it.
    pub open spec fn interest(self, id: Seq<char>) -> nat {
        if self.live.contains_key(id) {
            self.live[id].1
        } else {
            0
        }
    }

    /// Whether acquiring the lock of `id` has the garbage swept out first.
    pub open spec fn sweeps_for(self, id: Seq<char>) -> bool {
        !self.rows.contains(id) && self.rows.len() >= self.watermark
    }

    /// The state after `step`.
    pub open spec fn after(self, step: LockStep) -> LockState {
        match step {
            LockStep::Acquire(id) => LockState {
                live: self.live.insert(id, (self.lock_for(id), self.interest(id) + 1)),
                acquired: self.acquired + 1,
                rows: if self.sweeps_for(id) {
                    self.live.dom().insert(id)
                } else {
                    self.rows.insert(id)
                },
                watermark: if self.sweeps_for(id) {
                    watermark_for(self.live.dom().len())
                } else {
                    self.watermark
                },
            },
            LockStep::Release(id) => LockState {
                live: if self.interest(id) > 1 {
                    self.live.insert(id, (self.lock_for(id), (self.interest(id) - 1) as nat))
                } else {
                    self.live.remove(id)
                },
                ..self
            },
        }
    }

    /// The state after all of `steps`, in order.
    pub open spec fn after_all(self, steps: Seq<LockStep>) -> LockState
        decreases steps.len(),
    {
        if steps.len() == 0 {
            self
        } else {
            self.after_all(steps.drop_last()).after(steps.last())
        }
    }
}

/// What is left of the interest in an aggregate when one command withdraws.
#[derive(Debug, Clone, Copy, PartialEq, Eq, Structural)]
pub enum Withdrawal {
    /// No command was interested in it.
    Nothing,
    /// Other commands still hold its lock or wait for it.
    OthersRemain,
    /// It was the last one. The lock is not handed out again.
    LastOne,
}

/// Locks handed out to the commands of one store, one per aggregate ID.
///
/// A lock is a number. Commands that acquire the same number take turns, and
/// commands that acquire different numbers do not wait for each other. The
/// table remembers the lock of an aggregate for as long as some command holds
/// it or waits for it. After that the row is garbage: it is swept out once the
/// table has grown to its watermark, and the aggregate gets a fresh lock if it
/// is ever commanded again.
pub struct PerAggregateLocks {
    rows: LockRows,
    acquisitions: u64,
    watermark: u128,
}

impl View for PerAggregateLocks {
    type V = LockState;

    closed spec fn view(&self) -> LockState {
        LockState {
            live: live_rows(self.rows.table@),
            acquired: self.acquisitions as nat,
            rows: self.rows.table@.dom(),
            watermark: self.watermark as nat,
        }
    }
}

impl Default for PerAggregateLocks {
    /// A table without rows.
    fn default() -> (table: Self)
        ensures
            table@ == LockState::initial(),
    {
        let table = Self {
            rows: LockRows::new(),
            acquisitions: 0,
            watermark: MIN_SWEEP_WATERMARK as u128,
        };
        assert(table@ =~= LockState::initial());
        table
    }
}

impl PerAggregateLocks {
    /// Rows are listed, have distinct locks that were handed out, and there are
    /// no more of them than the watermark allows.
    #[verifier::type_invariant]
    pub closed spec fn wf(self) -> bool {
        &&& self.rows.listed()
        &&& locks_distinct(self.rows.table@)
        &&& forall|id: Seq<char>| #[trigger]
            self.rows.table@.contains_key(id) ==> self.rows.table@[id].lock < self.acquisitions
                && self.rows.table@[id].interest <= self.acquisitions
        &&& self.rows.ids@.len() <= self.acquisitions
        &&& self.rows.ids@.len() <= self.watermark
        &&& MIN_SWEEP_WATERMARK <= self.watermark
    }

    /// How many times a lock was acquired so far.
    pub fn acquisitions(&self) -> (count: u64)
        ensures
            count == self@.acquired,
    {
        self.acquisitions
    }

    /// The number of rows the table takes up.
    pub fn len(&self) -> (rows: usize)
        ensures
            rows == self@.rows.len(),
    {
        proof {
            use_type_invariant(self);
            lemma_row_count(self.rows);
        }
        self.rows.ids.len()
    }

    /// Registers the interest of one more command in the lock of
    /// `aggregate_id`, and gives that lock.
    ///
    /// A command joins the lock that others hold or wait for. Where there is
    /// none, it gets a lock that was never handed out before. The one demand on
    /// the caller is that the count of acquisitions has not run out.
    pub fn acquire(&mut self, aggregate_id: &str) -> (lock: u64)
        requires
            old(self)@.acquired < u64::MAX,
        ensures
            lock == old(self)@.lock_for(aggregate_id@),
            old(self)@.live.contains_key(aggregate_id@) ==> lock
                == old(self)@.live[aggregate_id@].0,
            !old(self)@.live.contains_key(aggregate_id@) ==> lock == old(self)@.acquired,
            final(self)@ == old(self)@.after(LockStep::Acquire(aggregate_id@)),
            final(self)@.consistent(),
    {
        proof {
            use_type_invariant(&*self);
            law_live_aggregates_have_locks_of_their_own(*self);
            law_steps_keep_the_table_consistent(self@, LockStep::Acquire(aggregate_id@));
            lemma_row_count(self.rows);
        }
        let fresh: u64 = self.acquisitions;
        let mut rows = LockRows::new();
        std::mem::swap(&mut rows, &mut self.rows);
        let ghost before = rows;
        let known: Option<LockRow> = match rows.table.get(aggregate_id) {
            Some(row) => Some(*row),
            None => None,
        };
        let row: LockRow = match known {
            Some(row) if row.interest > 0 => LockRow {
                lock: row.lock,
                interest: row.interest + 1,
            },
            _ => LockRow { lock: fresh, interest: 1 },
        };
        if known.is_none() {
            if rows.ids.len() as u128 >= self.watermark {
                rows = swept(rows);
                proof {
                    lemma_row_count(rows);
                }
                let doubled: u128 = rows.ids.len() as u128 * 2;
                self.watermark = if doubled < MIN_SWEEP_WATERMARK as u128 {
                    MIN_SWEEP_WATERMARK as u128
                } else {
                    doubled
                };
            }
            let id = aggregate_id.to_owned();
            let ghost others = rows;
            rows.ids.push(id.clone());
            rows.table.insert(id, row);
            proof {
                lemma_row_added(others, rows, id, row);
            }
        } else {
            rows.table.insert(aggregate_id.to_owned(), row);
            proof {
                lemma_row_changed(before, rows, aggregate_id@, row);
            }
        }
        self.acquisitions = fresh + 1;
        self.rows = rows;
        row.lock
    }

    /// Withdraws the interest of one command in the lock of `aggregate_id`:
    /// it is done, or was cancelled while it held the lock or waited for it.
    pub fn release(&mut self, aggregate_id: &str) -> (withdrawal: Withdrawal)
        ensures
            final(self)@ == old(self)@.after(LockStep::Release(aggregate_id@)),
            final(self)@.consistent(),
            withdrawal is Nothing <==> old(self)@.interest(aggregate_id@) == 0,
            withdrawal is LastOne <==> old(self)@.interest(aggregate_id@) == 1,
            withdrawal is OthersRemain <==> old(self)@.interest(aggregate_id@) > 1,
            withdrawal is Nothing <==> !old(self)@.live.contains_key(aggregate_id@),
            withdrawal is OthersRemain <==> final(self)@.live.contains_key(aggregate_id@),
    {
        proof {
            use_type_invariant(&*self);
            law_live_aggregates_have_locks_of_their_own(*self);
            law_steps_keep_the_table_consistent(self@, LockStep::Release(aggregate_id@));
        }
        let mut rows = LockRows::new();
        std::mem::swap(&mut rows, &mut self.rows);
        let ghost before = rows;
        let known: Option<LockRow> = match rows.table.get(aggregate_id) {
            Some(row) => Some(*row),
            None => None,
        };
        let withdrawal = match known {
            Some(row) if row.interest > 0 => {
                let left: u64 = row.interest - 1;
                let row = LockRow { lock: row.lock, interest: left };
                rows.table.insert(aggregate_id.to_owned(), row);
                proof {
                    lemma_row_changed(before, rows, aggregate_id@, row);
                }
                if left == 0 {
                    Withdrawal::LastOne
                } else {
                    Withdrawal::OthersRemain
                }
            },
            _ => Withdrawal::Nothing,
        };
        self.rows = rows;
        assert(self@ =~= old(self)@.after(LockStep::Release(aggregate_id@)));
        withdrawal
    }
}

/// A table never gives two live aggregates the same lock, nor a live aggregate a
/// lock that was not handed out; it keeps a row for each of them, and has no
/// more rows than its watermark.
pub proof fn law_live_aggregates_have_locks_of_their_own(table: PerAggregateLocks)
    requires
        table.wf(),
    ensures
        table@.consistent(),
{
    lemma_row_count(table.rows);
}

/// A table that was never used has no rows, knows of no command, and is swept
/// first when it has grown to the smallest watermark.
pub proof fn law_unused_table_is_empty(id: Seq<char>)
    ensures
        !LockState::initial().live.contains_key(id),
        !LockState::initial().rows.contains(id),
        LockState::initial().acquired == 0,
        LockState::initial().watermark == 64,
{
}

/// A command joins the lock that others on the same aggregate hold or wait for,
/// and where there is none gets the number of locks acquired before it.
pub proof fn law_command_joins_the_live_lock(state: LockState, id: Seq<char>)
    ensures
        state.live.contains_key(id) ==> state.lock_for(id) == state.live[id].0,
        !state.live.contains_key(id) ==> state.lock_for(id) == state.acquired,
        state.live.contains_key(id) ==> state.interest(id) == state.live[id].1,
        !state.live.contains_key(id) ==> state.interest(id) == 0,
{
}

/// Acquiring a lock counts one more command on its aggregate, under the lock
/// that the aggregate had or else under a fresh one, and changes nothing for
/// any other aggregate.
pub proof fn law_acquiring_counts_one_more_command(
    state: LockState,
    id: Seq<char>,
    other: Seq<char>,
    next: LockState,
)
    requires
        next == state.after(LockStep::Acquire(id)),
    ensures
        next.live.contains_key(other) <==> other == id || state.live.contains_key(other),
        state.live.contains_key(id) ==> next.live[id] == (state.live[id].0, state.live[id].1 + 1),
        !state.live.contains_key(id) ==> next.live[id] == (state.acquired, 1nat),
        other != id && state.live.contains_key(other) ==> next.live[other] == state.live[other],
        next.acquired == state.acquired + 1,
{
}

/// Acquiring a lock makes a row for its aggregate. A row that is new to a table
/// that has reached its watermark has the garbage swept out first: then only
/// aggregates in flight keep their rows, and the watermark becomes twice their
/// number, but no less than the smallest one.
pub proof fn law_acquiring_makes_a_row(
    state: LockState,
    id: Seq<char>,
    other: Seq<char>,
    next: LockState,
)
    requires
        next == state.after(LockStep::Acquire(id)),
    ensures
        state.sweeps_for(id) <==> !state.rows.contains(id) && state.rows.len() >= state.watermark,
        state.rows.contains(id) || state.rows.len() < state.watermark ==> {
            &&& next.rows.contains(other) <==> other == id || state.rows.contains(other)
            &&& next.watermark == state.watermark
        },
        !state.rows.contains(id) && state.rows.len() >= state.watermark ==> {
            &&& next.rows.contains(other) <==> other == id || state.live.contains_key(other)
            &&& 2 * state.live.dom().len() <= 64 ==> next.watermark == 64
            &&& 2 * state.live.dom().len() > 64 ==> next.watermark == 2 * state.live.dom().len()
        },
{
}

/// Releasing a lock counts one command less on its aggregate, which is live no
/// more after the last one. The lock of the others stays theirs, no other
/// aggregate is changed, and neither are the rows nor the watermark.
pub proof fn law_releasing_counts_one_command_less(
    state: LockState,
    id: Seq<char>,
    other: Seq<char>,
    next: LockState,
)
    requires
        next == state.after(LockStep::Release(id)),
    ensures
        next.live.contains_key(id) <==> state.live.contains_key(id) && state.live[id].1 > 1,
        next.live.contains_key(id) ==> next.live[id].0 == state.live[id].0 && next.live[id].1 + 1
            == state.live[id].1,
        other != id ==> (next.live.contains_key(other) <==> state.live.contains_key(other)),
        other != id && state.live.contains_key(other) ==> next.live[other] == state.live[other],
        next.acquired == state.acquired,
        next.rows == state.rows,
        next.watermark == state.watermark,
{
}

/// Steps are taken one by one, in order, and none is left out.
pub proof fn law_steps_are_taken_one_by_one(
    state: LockState,
    steps: Seq<LockStep>,
    step: LockStep,
)
    ensures
        state.after_all(Seq::empty()) == state,
        state.after_all(steps.push(step)) == state.after_all(steps).after(step),
{
    assert(steps.push(step).drop_last() =~= steps);
}

/// In a consistent table two aggregates in flight never have the same lock, the
/// lock of each was handed out and has a command, and each has a row; there are
/// no more rows than the watermark.
pub proof fn law_consistent_table_keeps_aggregates_apart(
    state: LockState,
    left: Seq<char>,
    right: Seq<char>,
)
    requires
        state.consistent(),
        state.live.contains_key(left),
        state.live.contains_key(right),
    ensures
        state.live[left].0 == state.live[right].0 <==> left == right,
        state.live[left].0 < state.acquired,
        state.live[left].1 > 0,
        state.rows.contains(left),
        state.rows.finite(),
        state.rows.len() <= state.watermark,
        state.watermark >= 64,
{
    assert(state.live.dom().contains(left));
}

/// A watermark is at least twice the number of aggregates it was set for and at
/// least the smallest one, and no more than the larger of the two.
pub proof fn law_watermark_is_twice_what_is_live(live: nat)
    ensures
        watermark_for(live) >= 2 * live,
        watermark_for(live) >= 64,
        watermark_for(live) == 2 * live || watermark_for(live) == 64,
{
}

/// From any state on, the size of the table follows what is in flight from then
/// on, not what was in flight before: a watermark within twice as many rows as
/// aggregates are in flight at once, or within the smallest one, stays there,
/// and the table with it. Every aggregate in flight keeps its row.
pub proof fn law_table_follows_what_is_in_flight(state: LockState, steps: Seq<LockStep>, most: nat)
    requires
        state.consistent(),
        state.watermark <= watermark_for(most),
        forall|n: int|
            0 <= n <= steps.len() ==> (#[trigger] state.after_all(steps.take(n))).live.dom().len()
                <= most,
    ensures
        state.after_all(steps).consistent(),
        state.after_all(steps).rows.len() <= watermark_for(most),
        state.after_all(steps).watermark <= watermark_for(most),
        state.after_all(steps).live.dom().subset_of(state.after_all(steps).rows),
    decreases steps.len(),
{
    if steps.len() > 0 {
        let earlier = steps.drop_last();
        assert forall|n: int| 0 <= n <= earlier.len() implies (#[trigger] state.after_all(
            earlier.take(n),
        )).live.dom().len() <= most by {
            assert(earlier.take(n) =~= steps.take(n));
        }
        law_table_follows_what_is_in_flight(state, earlier, most);
        assert(earlier.take(earlier.len() as int) =~= earlier);
        law_steps_keep_the_table_consistent(state.after_all(earlier), steps.last());
    }
}

/// However many aggregates have come and gone, the table has at most twice as
/// many rows as aggregates were ever in flight at once, or the smallest
/// watermark, and it has a row for every aggregate in flight.
pub proof fn law_table_is_bounded_by_what_is_in_flight(steps: Seq<LockStep>, most: nat)
    requires
        forall|n: int|
            0 <= n <= steps.len() ==> (#[trigger] LockState::initial().after_all(
                steps.take(n),
            )).live.dom().len() <= most,
    ensures
        LockState::initial().after_all(steps).consistent(),
        LockState::initial().after_all(steps).rows.len() <= watermark_for(most),
        LockState::initial().after_all(steps).watermark <= watermark_for(most),
        LockState::initial().after_all(steps).live.dom().subset_of(
            LockState::initial().after_all(steps).rows,
        ),
{
    law_table_follows_what_is_in_flight(LockState::initial(), steps, most);
}

/// A sweep leaves the rows of the aggregates in flight and the row it makes room
/// for, and sets the watermark to twice the number of aggregates in flight, or
/// to the smallest one, whatever the watermark was before.
pub proof fn law_sweep_sets_the_watermark_anew(state: LockState, id: Seq<char>)
    requires
        state.consistent(),
        state.sweeps_for(id),
    ensures
        state.after(LockStep::Acquire(id)).watermark == watermark_for(state.live.dom().len()),
        state.after(LockStep::Acquire(id)).rows == state.live.dom().insert(id),
        state.after(LockStep::Acquire(id)).rows.len() == state.live.dom().len() + 1,
{
    vstd::set_lib::lemma_len_subset(state.live.dom(), state.rows);
}

/// One sweep forgets an earlier peak: from then on the table is bounded by the
/// most aggregates in flight at once since just before the sweep.
pub proof fn law_sweep_forgets_the_peak(
    state: LockState,
    id: Seq<char>,
    steps: Seq<LockStep>,
    most: nat,
)
    requires
        state.consistent(),
        state.sweeps_for(id),
        state.live.dom().len() <= most,
        forall|n: int|
            0 <= n <= steps.len() ==> (#[trigger] state.after(LockStep::Acquire(id)).after_all(
                steps.take(n),
            )).live.dom().len() <= most,
    ensures
        state.after(LockStep::Acquire(id)).after_all(steps).rows.len() <= watermark_for(most),
        state.after(LockStep::Acquire(id)).after_all(steps).watermark <= watermark_for(most),
{
    law_sweep_sets_the_watermark_anew(state, id);
    law_steps_keep_the_table_consistent(state, LockStep::Acquire(id));
    law_table_follows_what_is_in_flight(state.after(LockStep::Acquire(id)), steps, most);
}

/// A command on an aggregate that nobody is interested in gets a lock that no
/// live aggregate has, however the table came to its state.
pub proof fn law_fresh_lock_is_nobody_elses(state: LockState, id: Seq<char>, other: Seq<char>)
    requires
        state.consistent(),
        !state.live.contains_key(id),
        state.live.contains_key(other),
    ensures
        state.lock_for(id) != state.live[other].0,
        state.after(LockStep::Acquire(id)).live[other] == state.live[other],
{
}

/// A lock that is created was never handed out before: it differs from the lock
/// that any command got at any earlier time, live or not.
pub proof fn law_fresh_lock_was_never_handed_out(
    state: LockState,
    earlier: Seq<char>,
    steps: Seq<LockStep>,
    id: Seq<char>,
)
    requires
        state.consistent(),
        !state.after(LockStep::Acquire(earlier)).after_all(steps).live.contains_key(id),
    ensures
        state.after(LockStep::Acquire(earlier)).after_all(steps).lock_for(id) > state.lock_for(
            earlier,
        ),
{
    lemma_acquired_never_shrinks(state.after(LockStep::Acquire(earlier)), steps);
}

proof fn lemma_acquired_never_shrinks(state: LockState, steps: Seq<LockStep>)
    ensures
        state.acquired <= state.after_all(steps).acquired,
    decreases steps.len(),
{
    if steps.len() > 0 {
        lemma_acquired_never_shrinks(state, steps.drop_last());
    }
}

/// Every step keeps the locks of live aggregates distinct, the rows of live
/// aggregates in the table, and the table within its watermark.
pub proof fn law_steps_keep_the_table_consistent(state: LockState, step: LockStep)
    requires
        state.consistent(),
    ensures
        state.after(step).consistent(),
{
}

/// A step on one aggregate leaves every other aggregate alone.
pub proof fn law_steps_leave_other_aggregates_alone(
    state: LockState,
    step: LockStep,
    other: Seq<char>,
)
    requires
        step != LockStep::Acquire(other),
        step != LockStep::Release(other),
    ensures
        state.after(step).live.contains_key(other) == state.live.contains_key(other),
        state.after(step).interest(other) == state.interest(other),
        state.live.contains_key(other) ==> state.after(step).lock_for(other) == state.lock_for(
            other,
        ),
{
}

/// A release undoes an acquisition: who is interested in what is as before.
pub proof fn law_release_undoes_acquire(state: LockState, id: Seq<char>)
    requires
        state.consistent(),
    ensures
        state.after(LockStep::Acquire(id)).after(LockStep::Release(id)).live == state.live,
{
    assert(state.after(LockStep::Acquire(id)).after(LockStep::Release(id)).live =~= state.live);
}

/// As long as some command holds the lock of an aggregate or waits for it,
/// every further command on that aggregate gets the same lock, whatever
/// commands come and go in between.
pub proof fn law_lock_is_stable_while_anyone_is_interested(
    state: LockState,
    id: Seq<char>,
    steps: Seq<LockStep>,
)
    requires
        forall|n: int|
            0 <= n <= steps.len() ==> (#[trigger] state.after_all(
                steps.take(n),
            )).live.contains_key(id),
    ensures
        state.after_all(steps).lock_for(id) == state.lock_for(id),
    decreases steps.len(),
{
    assert(steps.take(steps.len() as int) =~= steps);
    assert(steps.take(0) =~= Seq::<LockStep>::empty());
    assert(state.after_all(steps.take(0)).live.contains_key(id));
    if steps.len() > 0 {
        let earlier = steps.drop_last();
        assert forall|n: int| 0 <= n <= earlier.len() implies (#[trigger] state.after_all(
            earlier.take(n),
        )).live.contains_key(id) by {
            assert(earlier.take(n) =~= steps.take(n));
        }
        law_lock_is_stable_while_anyone_is_interested(state, id, earlier);
        assert(steps.take(earlier.len() as int) =~= earlier);
    }
}

} // verus!
