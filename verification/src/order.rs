//! Commit order is dispatch order: what the lock table and its locks add up to
//! over the whole history of a store.
use crate::locks::{LockState, LockStep};
use vstd::prelude::*;

verus! {

/// One moment in the history of a store. Commands are told apart by numbers.
pub enum CommandStep {
    /// A command is admitted, and registers with the lock of its aggregate.
    Register(nat),
    /// A command is granted the lock.
    Grant(nat),
    /// A command commits its events.
    Commit(nat),
    /// The events of a command have reached every reactor and projection.
    Dispatch(nat),
    /// A command ends or is cancelled, and gives up the lock.
    Finish(nat),
}

/// The lock table after a history that began with an empty one, where `ids`
/// gives the aggregate of each command.
pub open spec fn table_after(ids: spec_fn(nat) -> Seq<char>, history: Seq<CommandStep>) -> LockState
    decreases history.len(),
{
    if history.len() == 0 {
        LockState::initial()
    } else {
        let before = table_after(ids, history.drop_last());
        match history.last() {
            CommandStep::Register(command) => before.after(LockStep::Acquire(ids(command))),
            CommandStep::Finish(command) => before.after(LockStep::Release(ids(command))),
            _ => before,
        }
    }
}

/// Every command registers once, and finishes at most once, after that.
pub open spec fn well_formed(history: Seq<CommandStep>) -> bool
    decreases history.len(),
{
    history.len() == 0 || {
        let before = history.drop_last();
        &&& well_formed(before)
        &&& match history.last() {
            CommandStep::Register(command) => !before.contains(CommandStep::Register(command)),
            CommandStep::Finish(command) => in_flight(before, command),
            _ => true,
        }
    }
}

/// Whether a command has registered and not finished.
pub open spec fn in_flight(history: Seq<CommandStep>, command: nat) -> bool {
    history.contains(CommandStep::Register(command)) && !history.contains(
        CommandStep::Finish(command),
    )
}

/// The commands in flight on one aggregate.
pub open spec fn in_flight_on(
    ids: spec_fn(nat) -> Seq<char>,
    history: Seq<CommandStep>,
    id: Seq<char>,
) -> Set<nat> {
    Set::new(|command: nat| in_flight(history, command) && ids(command) == id)
}

/// The lock that the command registering at `moment` gets.
pub open spec fn lock_at(
    ids: spec_fn(nat) -> Seq<char>,
    history: Seq<CommandStep>,
    moment: int,
    command: nat,
) -> nat {
    table_after(ids, history.take(moment)).lock_for(ids(command))
}

proof fn lemma_contains_after(history: Seq<CommandStep>, step: CommandStep)
    requires
        history.len() > 0,
    ensures
        history.contains(step) <==> history.drop_last().contains(step) || history.last() == step,
{
    let before = history.drop_last();
    if history.contains(step) {
        let i = choose|i: int| 0 <= i < history.len() && history[i] == step;
        if i < before.len() {
            assert(before[i] == step);
        }
    }
    if before.contains(step) {
        let i = choose|i: int| 0 <= i < before.len() && before[i] == step;
        assert(history[i] == step);
    }
    assert(history[history.len() - 1] == history.last());
}

/// The table counts, for every aggregate, the commands in flight on it.
pub proof fn law_table_counts_the_commands_in_flight(
    ids: spec_fn(nat) -> Seq<char>,
    history: Seq<CommandStep>,
    id: Seq<char>,
)
    requires
        well_formed(history),
    ensures
        in_flight_on(ids, history, id).finite(),
        table_after(ids, history).interest(id) == in_flight_on(ids, history, id).len(),
        table_after(ids, history).live.contains_key(id) <==> in_flight_on(ids, history, id).len()
            > 0,
    decreases history.len(),
{
    let now = in_flight_on(ids, history, id);
    if history.len() == 0 {
        assert(now =~= Set::<nat>::empty());
    } else {
        let earlier = history.drop_last();
        let before = in_flight_on(ids, earlier, id);
        law_table_counts_the_commands_in_flight(ids, earlier, id);
        assert forall|command: nat|
            #![trigger now.contains(command)]
            in_flight(history, command) <==> (earlier.contains(CommandStep::Register(command))
                || history.last() == CommandStep::Register(command)) && !(earlier.contains(
                CommandStep::Finish(command),
            ) || history.last() == CommandStep::Finish(command)) by {
            lemma_contains_after(history, CommandStep::Register(command));
            lemma_contains_after(history, CommandStep::Finish(command));
        }
        match history.last() {
            CommandStep::Register(command) => {
                lemma_contains_after(history, CommandStep::Register(command));
                lemma_finish_follows_register(earlier, command);
                if ids(command) == id {
                    assert(now =~= before.insert(command));
                } else {
                    assert(now =~= before);
                }
            },
            CommandStep::Finish(command) => {
                if ids(command) == id {
                    assert(before.contains(command));
                    assert(now =~= before.remove(command));
                } else {
                    assert(now =~= before);
                }
            },
            _ => {
                assert(now =~= before);
            },
        }
    }
}

proof fn lemma_finish_follows_register(history: Seq<CommandStep>, command: nat)
    requires
        well_formed(history),
    ensures
        history.contains(CommandStep::Finish(command)) ==> history.contains(
            CommandStep::Register(command),
        ),
    decreases history.len(),
{
    if history.len() > 0 {
        lemma_finish_follows_register(history.drop_last(), command);
        lemma_contains_after(history, CommandStep::Finish(command));
        lemma_contains_after(history, CommandStep::Register(command));
    }
}

proof fn lemma_prefix_is_well_formed(history: Seq<CommandStep>, len: int)
    requires
        well_formed(history),
        0 <= len <= history.len(),
    ensures
        well_formed(history.take(len)),
    decreases history.len(),
{
    if len < history.len() {
        lemma_prefix_is_well_formed(history.drop_last(), len);
        assert(history.drop_last().take(len) =~= history.take(len));
    } else {
        assert(history.take(len) =~= history);
    }
}

/// The commands in flight, on any aggregate.
pub open spec fn all_in_flight(history: Seq<CommandStep>) -> Set<nat> {
    Set::new(|command: nat| in_flight(history, command))
}

proof fn lemma_finitely_many_in_flight(history: Seq<CommandStep>)
    ensures
        all_in_flight(history).finite(),
    decreases history.len(),
{
    let now = all_in_flight(history);
    if history.len() == 0 {
        assert(now =~= Set::<nat>::empty());
    } else {
        let earlier = history.drop_last();
        lemma_finitely_many_in_flight(earlier);
        let known = match history.last() {
            CommandStep::Register(command) => all_in_flight(earlier).insert(command),
            _ => all_in_flight(earlier),
        };
        assert forall|command: nat| now.contains(command) implies known.contains(command) by {
            lemma_contains_after(history, CommandStep::Register(command));
            lemma_contains_after(history, CommandStep::Finish(command));
        }
        vstd::set_lib::lemma_len_subset(now, known);
    }
}

/// Where every aggregate has a command of its own, there are no more aggregates
/// than commands.
proof fn lemma_no_more_aggregates_than_commands(
    ids: spec_fn(nat) -> Seq<char>,
    aggregates: Set<Seq<char>>,
    commands: Set<nat>,
)
    requires
        aggregates.finite(),
        commands.finite(),
        forall|id: Seq<char>| #[trigger]
            aggregates.contains(id) ==> exists|command: nat| #[trigger]
                commands.contains(command) && ids(command) == id,
    ensures
        aggregates.len() <= commands.len(),
    decreases aggregates.len(),
{
    if aggregates.len() > 0 {
        let id = aggregates.choose();
        let command = choose|command: nat| #[trigger]
            commands.contains(command) && ids(command) == id;
        let (fewer_aggregates, fewer_commands) = (aggregates.remove(id), commands.remove(command));
        assert forall|other: Seq<char>| #[trigger]
            fewer_aggregates.contains(other) implies exists|another: nat| #[trigger]
            fewer_commands.contains(another) && ids(another) == other by {
            assert(aggregates.contains(other));
            let another = choose|another: nat| #[trigger]
                commands.contains(another) && ids(another) == other;
            assert(fewer_commands.contains(another));
        }
        lemma_no_more_aggregates_than_commands(ids, fewer_aggregates, fewer_commands);
    }
}

proof fn lemma_table_is_consistent(ids: spec_fn(nat) -> Seq<char>, history: Seq<CommandStep>)
    ensures
        table_after(ids, history).consistent(),
    decreases history.len(),
{
    if history.len() > 0 {
        let before = table_after(ids, history.drop_last());
        lemma_table_is_consistent(ids, history.drop_last());
        match history.last() {
            CommandStep::Register(command) => {
                crate::locks::law_steps_keep_the_table_consistent(
                    before,
                    LockStep::Acquire(ids(command)),
                );
            },
            CommandStep::Finish(command) => {
                crate::locks::law_steps_keep_the_table_consistent(
                    before,
                    LockStep::Release(ids(command)),
                );
            },
            _ => {},
        }
    }
}

/// From any moment on, the size of the table follows the commands in flight from
/// then on, not those before: a watermark within twice as many rows as commands
/// are in flight at once, or within the smallest one, stays there, and the table
/// with it. The aggregate of every command in flight keeps its row.
pub proof fn law_table_follows_the_commands_in_flight(
    ids: spec_fn(nat) -> Seq<char>,
    history: Seq<CommandStep>,
    since: int,
    most: nat,
)
    requires
        well_formed(history),
        0 <= since <= history.len(),
        table_after(ids, history.take(since)).watermark <= crate::locks::watermark_for(most),
        forall|n: int|
            since <= n <= history.len() ==> all_in_flight(#[trigger] history.take(n)).len() <= most,
    ensures
        table_after(ids, history).rows.len() <= crate::locks::watermark_for(most),
        table_after(ids, history).watermark <= crate::locks::watermark_for(most),
        forall|command: nat| #[trigger]
            in_flight(history, command) ==> table_after(ids, history).rows.contains(ids(command)),
    decreases history.len(),
{
    let table = table_after(ids, history);
    lemma_table_is_consistent(ids, history);
    if since < history.len() {
        let earlier = history.drop_last();
        assert forall|n: int| since <= n <= earlier.len() implies all_in_flight(
            #[trigger] earlier.take(n),
        ).len() <= most by {
            assert(earlier.take(n) =~= history.take(n));
        }
        assert(earlier.take(since) =~= history.take(since));
        law_table_follows_the_commands_in_flight(ids, earlier, since, most);
        let before = table_after(ids, earlier);
        lemma_table_is_consistent(ids, earlier);
        lemma_finitely_many_in_flight(earlier);
        assert(earlier.take(earlier.len() as int) =~= earlier);
        vstd::set_lib::lemma_len_subset(before.live.dom(), before.rows);
        assert forall|id: Seq<char>| #[trigger]
            before.live.dom().contains(id) implies exists|command: nat| #[trigger]
            all_in_flight(earlier).contains(command) && ids(command) == id by {
            law_table_counts_the_commands_in_flight(ids, earlier, id);
            let command = in_flight_on(ids, earlier, id).choose();
            assert(in_flight_on(ids, earlier, id).contains(command));
            assert(all_in_flight(earlier).contains(command));
        }
        lemma_no_more_aggregates_than_commands(ids, before.live.dom(), all_in_flight(earlier));
    } else {
        assert(history.take(since) =~= history);
    }
    assert forall|command: nat| #[trigger] in_flight(history, command) implies table.rows.contains(
        ids(command),
    ) by {
        law_table_counts_the_commands_in_flight(ids, history, ids(command));
        assert(in_flight_on(ids, history, ids(command)).contains(command));
        assert(table.live.dom().contains(ids(command)));
    }
}

/// However many commands have come and gone, the table has at most twice as
/// many rows as commands were ever in flight at once, or the smallest
/// watermark, and it has a row for the aggregate of every command in flight.
pub proof fn law_table_is_bounded_by_the_commands_in_flight(
    ids: spec_fn(nat) -> Seq<char>,
    history: Seq<CommandStep>,
    most: nat,
)
    requires
        well_formed(history),
        forall|n: int|
            0 <= n <= history.len() ==> all_in_flight(#[trigger] history.take(n)).len() <= most,
    ensures
        table_after(ids, history).rows.len() <= crate::locks::watermark_for(most),
        table_after(ids, history).watermark <= crate::locks::watermark_for(most),
        forall|command: nat| #[trigger]
            in_flight(history, command) ==> table_after(ids, history).rows.contains(ids(command)),
{
    assert(history.take(0) =~= Seq::<CommandStep>::empty());
    law_table_follows_the_commands_in_flight(ids, history, 0, most);
}

/// Two commands on one aggregate that are in flight together get the same
/// lock: the second registers while the first has not finished.
pub proof fn law_commands_in_flight_together_share_a_lock(
    ids: spec_fn(nat) -> Seq<char>,
    history: Seq<CommandStep>,
    first: nat,
    second: nat,
    first_registers: int,
    second_registers: int,
)
    requires
        well_formed(history),
        0 <= first_registers < second_registers < history.len(),
        history[first_registers] == CommandStep::Register(first),
        history[second_registers] == CommandStep::Register(second),
        ids(first) == ids(second),
        !history.take(second_registers).contains(CommandStep::Finish(first)),
    ensures
        lock_at(ids, history, first_registers, first) == lock_at(
            ids,
            history,
            second_registers,
            second,
        ),
{
    lemma_lock_is_kept(ids, history, first, first_registers, second_registers);
}

/// While a command has not finished, its aggregate keeps the lock it got.
proof fn lemma_lock_is_kept(
    ids: spec_fn(nat) -> Seq<char>,
    history: Seq<CommandStep>,
    command: nat,
    registers: int,
    until: int,
)
    requires
        well_formed(history),
        0 <= registers < until <= history.len(),
        history[registers] == CommandStep::Register(command),
        !history.take(until).contains(CommandStep::Finish(command)),
    ensures
        table_after(ids, history.take(until)).live.contains_key(ids(command)),
        table_after(ids, history.take(until)).lock_for(ids(command)) == lock_at(
            ids,
            history,
            registers,
            command,
        ),
    decreases until,
{
    let id = ids(command);
    let now = history.take(until);
    let earlier = history.take(until - 1);
    assert(now.drop_last() =~= earlier);
    assert(now.last() == history[until - 1]);
    lemma_prefix_is_well_formed(history, until);
    lemma_prefix_is_well_formed(history, until - 1);
    assert(now[registers] == CommandStep::Register(command));
    assert(in_flight(now, command));
    law_table_counts_the_commands_in_flight(ids, now, id);
    assert(in_flight_on(ids, now, id).contains(command));
    if registers < until - 1 {
        assert(!earlier.contains(CommandStep::Finish(command))) by {
            lemma_contains_after(now, CommandStep::Finish(command));
        }
        lemma_lock_is_kept(ids, history, command, registers, until - 1);
    }
}

/// Of two commands in flight at one time, the locks are the same exactly when
/// the aggregates are: no command can be delayed by one on another aggregate.
pub proof fn law_locks_are_shared_on_the_same_aggregate_only(
    ids: spec_fn(nat) -> Seq<char>,
    history: Seq<CommandStep>,
    left: nat,
    right: nat,
    left_registers: int,
    right_registers: int,
)
    requires
        well_formed(history),
        0 <= left_registers < history.len(),
        0 <= right_registers < history.len(),
        history[left_registers] == CommandStep::Register(left),
        history[right_registers] == CommandStep::Register(right),
        in_flight(history, left),
        in_flight(history, right),
    ensures
        lock_at(ids, history, left_registers, left) == lock_at(ids, history, right_registers, right)
            <==> ids(left) == ids(right),
{
    let len = history.len() as int;
    assert(history.take(len) =~= history);
    lemma_lock_is_kept(ids, history, left, left_registers, len);
    lemma_lock_is_kept(ids, history, right, right_registers, len);
    lemma_table_is_consistent(ids, history);
}

/// A command on an aggregate that no other command in flight is on, whatever
/// came before, gets a lock that no command in flight has: there is nothing for
/// it to wait for.
pub proof fn law_command_on_an_idle_aggregate_waits_for_nobody(
    ids: spec_fn(nat) -> Seq<char>,
    history: Seq<CommandStep>,
    command: nat,
    other: nat,
    registers: int,
    other_registers: int,
)
    requires
        well_formed(history),
        0 <= other_registers < registers < history.len(),
        history[registers] == CommandStep::Register(command),
        history[other_registers] == CommandStep::Register(other),
        in_flight_on(ids, history.take(registers), ids(command)).len() == 0,
        in_flight(history.take(registers), other),
    ensures
        lock_at(ids, history, registers, command) != lock_at(ids, history, other_registers, other),
{
    let before = history.take(registers);
    lemma_prefix_is_well_formed(history, registers);
    law_table_counts_the_commands_in_flight(ids, before, ids(command));
    lemma_lock_is_kept(ids, history, other, other_registers, registers);
    lemma_table_is_consistent(ids, before);
}

/// Whether `left` and `right` are different commands that register at `l` and
/// `r` and get the same lock, which is granted to `left` at `p` and after that
/// to `right` at `q`.
pub open spec fn granted_in_turn(
    ids: spec_fn(nat) -> Seq<char>,
    history: Seq<CommandStep>,
    left: nat,
    right: nat,
    l: int,
    r: int,
    p: int,
    q: int,
) -> bool {
    &&& left != right
    &&& 0 <= l < history.len()
    &&& 0 <= r < history.len()
    &&& 0 <= p < q < history.len()
    &&& history[l] == CommandStep::Register(left)
    &&& history[r] == CommandStep::Register(right)
    &&& lock_at(ids, history, l, left) == lock_at(ids, history, r, right)
    &&& history[p] == CommandStep::Grant(left)
    &&& history[q] == CommandStep::Grant(right)
}

/// What a lock adds: it is held by one command at a time. Of two commands with
/// the same lock, the one that is granted it first finishes before the other is
/// granted it.
pub open spec fn locks_exclude(ids: spec_fn(nat) -> Seq<char>, history: Seq<CommandStep>) -> bool {
    forall|left: nat, right: nat, l: int, r: int, p: int, q: int| #[trigger]
        granted_in_turn(ids, history, left, right, l, r, p, q) ==> history.take(q).contains(
            CommandStep::Finish(left),
        )
}

/// The moments of one command that ran: it registers, is granted the lock,
/// commits and has its events dispatched, in this order, and finishes only
/// after that.
pub struct CommandRun {
    pub command: nat,
    pub registers: int,
    pub granted: int,
    pub commits: int,
    pub dispatched: int,
}

impl CommandRun {
    /// The moments are those of the history.
    pub open spec fn part_of(self, history: Seq<CommandStep>) -> bool {
        &&& 0 <= self.registers < self.granted < self.commits < self.dispatched < history.len()
        &&& history[self.registers] == CommandStep::Register(self.command)
        &&& history[self.granted] == CommandStep::Grant(self.command)
        &&& history[self.commits] == CommandStep::Commit(self.command)
        &&& history[self.dispatched] == CommandStep::Dispatch(self.command)
        &&& !history.take(self.dispatched).contains(CommandStep::Finish(self.command))
    }
}

/// Commands on one aggregate dispatch in the order in which they commit.
///
/// The events of the command that commits first have reached every reactor and
/// projection before the other command is granted the lock, so before it so
/// much as loads the aggregate.
pub proof fn law_dispatch_follows_commit_order(
    ids: spec_fn(nat) -> Seq<char>,
    history: Seq<CommandStep>,
    first: CommandRun,
    second: CommandRun,
)
    requires
        well_formed(history),
        locks_exclude(ids, history),
        first.part_of(history),
        second.part_of(history),
        first.command != second.command,
        ids(first.command) == ids(second.command),
        first.commits < second.commits,
    ensures
        first.dispatched < second.granted,
        first.dispatched < second.dispatched,
{
    let (a, b) = (first.command, second.command);
    let (shared, finished) = lemma_share_or_finish(ids, history, first, second);
    if shared {
        if first.granted < second.granted {
            assert(granted_in_turn(
                ids,
                history,
                a,
                b,
                first.registers,
                second.registers,
                first.granted,
                second.granted,
            ));
            lemma_dispatch_before_finish(history, first, second.granted);
        } else {
            assert(granted_in_turn(
                ids,
                history,
                b,
                a,
                second.registers,
                first.registers,
                second.granted,
                first.granted,
            ));
            lemma_dispatch_before_finish(history, second, first.granted);
        }
    } else if finished {
        lemma_dispatch_before_finish(history, first, second.registers);
    } else {
        lemma_dispatch_before_finish(history, second, first.registers);
    }
}

/// The cycles of two commands on one aggregate do not overlap: the events of one
/// have reached every reactor and projection before the other is granted the
/// lock.
pub proof fn law_cycles_on_one_aggregate_do_not_overlap(
    ids: spec_fn(nat) -> Seq<char>,
    history: Seq<CommandStep>,
    left: CommandRun,
    right: CommandRun,
)
    requires
        well_formed(history),
        locks_exclude(ids, history),
        left.part_of(history),
        right.part_of(history),
        left.command != right.command,
        ids(left.command) == ids(right.command),
    ensures
        left.dispatched < right.granted || right.dispatched < left.granted,
{
    if left.commits < right.commits {
        law_dispatch_follows_commit_order(ids, history, left, right);
    } else {
        assert(history[left.commits] == CommandStep::Commit(left.command));
        assert(history[right.commits] == CommandStep::Commit(right.command));
        law_dispatch_follows_commit_order(ids, history, right, left);
    }
}

/// Whether two runs on one aggregate share a lock, and if they do not, whether
/// it is the first that finished before the second registered.
proof fn lemma_share_or_finish(
    ids: spec_fn(nat) -> Seq<char>,
    history: Seq<CommandStep>,
    first: CommandRun,
    second: CommandRun,
) -> (outcome: (bool, bool))
    requires
        well_formed(history),
        first.part_of(history),
        second.part_of(history),
        first.command != second.command,
        ids(first.command) == ids(second.command),
    ensures
        outcome.0 ==> lock_at(ids, history, first.registers, first.command) == lock_at(
            ids,
            history,
            second.registers,
            second.command,
        ),
        !outcome.0 && outcome.1 ==> history.take(second.registers).contains(
            CommandStep::Finish(first.command),
        ),
        !outcome.0 && !outcome.1 ==> history.take(first.registers).contains(
            CommandStep::Finish(second.command),
        ),
{
    if first.registers < second.registers {
        if history.take(second.registers).contains(CommandStep::Finish(first.command)) {
            (false, true)
        } else {
            law_commands_in_flight_together_share_a_lock(
                ids,
                history,
                first.command,
                second.command,
                first.registers,
                second.registers,
            );
            (true, false)
        }
    } else {
        if history.take(first.registers).contains(CommandStep::Finish(second.command)) {
            (false, false)
        } else {
            law_commands_in_flight_together_share_a_lock(
                ids,
                history,
                second.command,
                first.command,
                second.registers,
                first.registers,
            );
            (true, false)
        }
    }
}

/// A command that finished before a moment had its events dispatched before it.
proof fn lemma_dispatch_before_finish(history: Seq<CommandStep>, run: CommandRun, moment: int)
    requires
        run.part_of(history),
        0 <= moment <= history.len(),
        history.take(moment).contains(CommandStep::Finish(run.command)),
    ensures
        run.dispatched < moment,
{
    let finish = CommandStep::Finish(run.command);
    let i = choose|i: int| 0 <= i < history.take(moment).len() && history.take(moment)[i] == finish;
    if i < run.dispatched {
        assert(history.take(run.dispatched)[i] == finish);
    } else if i == run.dispatched {
        assert(history[i] == CommandStep::Dispatch(run.command));
    }
}

} // verus!
