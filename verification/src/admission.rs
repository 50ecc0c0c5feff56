//! The reentrancy guard: which commands a chain of commands may issue.
use std::any::TypeId;
use vstd::prelude::*;

verus! {

/// The identity of a Rust type, as `std::any::TypeId` gives it. Nothing is
/// known of it but whether two are the same.
#[verifier::external_type_specification]
#[verifier::external_body]
pub struct ExTypeId(std::any::TypeId);

/// Compares two type identities with the `==` of `std::any::TypeId`: true
/// exactly when they are the same identity.
#[verifier::external_body]
fn same_type(left: &TypeId, right: &TypeId) -> (same: bool)
    ensures
        same == (*left == *right),
{
    left == right
}

/// Identifies one aggregate instance: an entity type plus the text of its ID.
///
/// The two parts are kept apart, so that two different pairs never share a key.
#[derive(Debug)]
pub struct AggregateLockKey {
    /// The entity type.
    pub entity: TypeId,
    /// The aggregate ID within that type.
    pub id: String,
}

impl View for AggregateLockKey {
    type V = (TypeId, Seq<char>);

    open spec fn view(&self) -> (TypeId, Seq<char>) {
        (self.entity, self.id@)
    }
}

impl AggregateLockKey {
    /// The key of aggregate `id` of type `entity`.
    pub fn new(entity: TypeId, id: String) -> (key: Self)
        ensures
            key@ == (entity, id@),
            key.entity == entity,
            key.id@ == id@,
    {
        Self { entity, id }
    }

    /// Whether two keys identify the same aggregate instance.
    pub fn same_as(&self, other: &Self) -> (same: bool)
        ensures
            same == (self@ == other@),
            same <==> self.entity == other.entity && self.id@ == other.id@,
    {
        same_type(&self.entity, &other.entity) && self.id == other.id
    }

    /// Another copy of this key.
    pub fn duplicate(&self) -> (copy: Self)
        ensures
            copy@ == self@,
            copy.entity == self.entity,
            copy.id@ == self.id@,
    {
        Self { entity: self.entity, id: self.id.clone() }
    }
}

/// The aggregate instances that a chain of commands is in the middle of
/// commanding, viewed as the set of their keys.
#[derive(Debug)]
pub struct HeldLocks {
    keys: Vec<AggregateLockKey>,
}

impl View for HeldLocks {
    type V = Set<(TypeId, Seq<char>)>;

    closed spec fn view(&self) -> Set<(TypeId, Seq<char>)> {
        Set::new(
            |key: (TypeId, Seq<char>)|
                exists|i: int| 0 <= i < self.keys@.len() && key == #[trigger] self.keys@[i]@,
        )
    }
}

impl HeldLocks {
    #[verifier::type_invariant]
    spec fn holds_each_key_once(self) -> bool {
        forall|i: int, j: int|
            0 <= i < j < self.keys@.len() ==> #[trigger] self.keys@[i]@
                != #[trigger] self.keys@[j]@
    }

    /// Holds one key.
    pub fn only(key: &AggregateLockKey) -> (held: Self)
        ensures
            held@ == set![key@],
            held@ == set![(key.entity, key.id@)],
    {
        let mut keys: Vec<AggregateLockKey> = Vec::new();
        keys.push(key.duplicate());
        let held = Self { keys };
        assert(held.keys@[0]@ == key@);
        held
    }

    /// Whether a key is held.
    pub fn contains(&self, key: &AggregateLockKey) -> (found: bool)
        ensures
            found == self@.contains(key@),
            found == self@.contains((key.entity, key.id@)),
    {
        let mut index: usize = 0;
        while index < self.keys.len()
            invariant
                index <= self.keys@.len(),
                forall|i: int| 0 <= i < index ==> (#[trigger] self.keys@[i])@ != key@,
            decreases self.keys@.len() - index,
        {
            if self.keys[index].same_as(key) {
                return true;
            }
            index = index + 1;
        }
        false
    }

    /// Everything held, plus one key that is not held yet. What is held is
    /// read, never changed.
    fn extended(&self, key: &AggregateLockKey) -> (held: Self)
        requires
            !self@.contains(key@),
        ensures
            held@ == self@.insert(key@),
    {
        proof {
            use_type_invariant(self);
        }
        let mut keys: Vec<AggregateLockKey> = Vec::new();
        let mut index: usize = 0;
        while index < self.keys.len()
            invariant
                index <= self.keys@.len(),
                keys@.len() == index,
                forall|i: int| 0 <= i < index ==> (#[trigger] keys@[i])@ == self.keys@[i]@,
            decreases self.keys@.len() - index,
        {
            keys.push(self.keys[index].duplicate());
            index = index + 1;
        }
        keys.push(key.duplicate());
        let ghost last = self.keys@.len() as int;
        assert forall|i: int, j: int| 0 <= i < j < keys@.len() implies #[trigger] keys@[i]@
            != #[trigger] keys@[j]@ by {
            assert(keys@[i]@ == self.keys@[i]@);
            if j < last {
                assert(keys@[j]@ == self.keys@[j]@);
            } else {
                assert(self@.contains(self.keys@[i]@));
            }
        }
        let held = Self { keys };
        assert forall|k: (TypeId, Seq<char>)|
            held@.contains(k) == self@.insert(key@).contains(k) by {
            if self@.contains(k) {
                let i = choose|i: int| 0 <= i < self.keys@.len() && k == #[trigger] self.keys@[i]@;
                assert(held.keys@[i]@ == k);
            }
            assert(held.keys@[last]@ == key@);
        }
        assert(held@ =~= self@.insert(key@));
        held
    }
}

/// What is held is finite: there are as many keys as were added.
proof fn lemma_finitely_many_keys(held: HeldLocks)
    requires
        held.holds_each_key_once(),
    ensures
        held@.finite(),
        held@.len() == held.keys@.len(),
{
    let keys = held.keys@.map_values(|key: AggregateLockKey| key@);
    assert forall|i: int, j: int| 0 <= i < keys.len() && 0 <= j < keys.len() && i
        != j implies keys[i] != keys[j] by {
        if i < j {
            assert(held.keys@[i]@ != held.keys@[j]@);
        } else {
            assert(held.keys@[j]@ != held.keys@[i]@);
        }
    }
    keys.unique_seq_to_set();
    assert forall|key: (TypeId, Seq<char>)| keys.to_set().contains(key) == held@.contains(key) by {
        if held@.contains(key) {
            let i = choose|i: int| 0 <= i < held.keys@.len() && key == #[trigger] held.keys@[i]@;
            assert(keys[i] == key);
        }
        if keys.contains(key) {
            let i = choose|i: int| 0 <= i < keys.len() && keys[i] == key;
            assert(held.keys@[i]@ == key);
        }
    }
    assert(held@ =~= keys.to_set());
}

/// The keys that a command inherited: none where it was issued outside any
/// chain.
pub open spec fn inherited_keys(inherited: Option<&HeldLocks>) -> Set<(TypeId, Seq<char>)> {
    match inherited {
        Some(held) => held@,
        None => Set::empty(),
    }
}

/// Outcome of the reentrancy check that a command runs against the keys it
/// inherited from the chain of commands it was issued from.
#[derive(Debug)]
pub enum Admission {
    /// A command further up this chain already holds the key, so proceeding
    /// would wait on a lock that the chain itself is holding.
    Reject,
    /// Safe to proceed. Carries what this command's own nested commands
    /// inherit: everything it inherited itself, plus its own key.
    Proceed(HeldLocks),
}

impl Admission {
    /// What the command's own nested commands inherit, if it is admitted.
    pub open spec fn passed_on(self) -> Option<Set<(TypeId, Seq<char>)>> {
        match self {
            Admission::Reject => None,
            Admission::Proceed(held) => Some(held@),
        }
    }

    /// Checks a command against the keys it inherited.
    ///
    /// The inherited keys are read and extended in a copy, never changed in
    /// place, so a sibling command that inherited the very same keys is
    /// unaffected by the key that this one goes on to add.
    pub fn for_inherited_scope(held: &HeldLocks, lock_key: &AggregateLockKey) -> (admission: Self)
        ensures
            admission.passed_on() == admitted(held@, lock_key@),
            admission is Reject <==> held@.contains((lock_key.entity, lock_key.id@)),
            admission matches Admission::Proceed(extended) ==> extended@ == held@.insert(
                (lock_key.entity, lock_key.id@),
            ),
            held@.finite(),
            admission matches Admission::Proceed(extended) ==> extended@.finite() && extended@.len()
                == held@.len() + 1,
    {
        proof {
            use_type_invariant(held);
            lemma_finitely_many_keys(*held);
        }
        if held.contains(lock_key) {
            return Admission::Reject;
        }
        Admission::Proceed(held.extended(lock_key))
    }

    /// Checks a command that may have been issued outside any chain, in which
    /// case there is nothing it could collide with.
    pub fn for_command(inherited: Option<&HeldLocks>, lock_key: &AggregateLockKey) -> (admission:
        Self)
        ensures
            admission.passed_on() == admitted(inherited_keys(inherited), lock_key@),
            match inherited {
                Some(held) => {
                    &&& admission is Reject <==> held@.contains((lock_key.entity, lock_key.id@))
                    &&& admission matches Admission::Proceed(extended) ==> extended@
                        == held@.insert((lock_key.entity, lock_key.id@))
                },
                None => {
                    &&& admission matches Admission::Proceed(extended)
                    &&& extended@ == set![(lock_key.entity, lock_key.id@)]
                },
            },
            inherited_keys(inherited).finite(),
            admission matches Admission::Proceed(extended) ==> extended@.finite() && extended@.len()
                == inherited_keys(inherited).len() + 1,
    {
        match inherited {
            Some(held) => Self::for_inherited_scope(held, lock_key),
            None => {
                let held = HeldLocks::only(lock_key);
                assert(held@ =~= Set::<(TypeId, Seq<char>)>::empty().insert(lock_key@));
                Admission::Proceed(held)
            },
        }
    }
}

/// Whether a command on `key` may proceed when its ancestors hold `held`, and
/// if so, what its own nested commands inherit.
pub open spec fn admitted(held: Set<(TypeId, Seq<char>)>, key: (TypeId, Seq<char>)) -> Option<
    Set<(TypeId, Seq<char>)>,
> {
    if held.contains(key) {
        None
    } else {
        Some(held.insert(key))
    }
}

/// A key is the entity type and the whole text of the ID: two keys are the same
/// exactly when both parts are.
pub proof fn law_key_is_the_type_and_the_whole_id(left: AggregateLockKey, right: AggregateLockKey)
    ensures
        left@ == (left.entity, left.id@),
        left@ == right@ <==> left.entity == right.entity && left.id@ == right.id@,
{
}

/// A command inherits every key that the command it was issued from passes on,
/// and nothing where it was issued outside any chain.
pub proof fn law_every_held_key_is_inherited(held: &HeldLocks)
    ensures
        inherited_keys(Some(held)) == held@,
        inherited_keys(None) == Set::<(TypeId, Seq<char>)>::empty(),
{
}

/// Only a key that is held is refused. Any other is passed on together with
/// everything that is held.
pub proof fn law_held_keys_are_refused(
    held: Set<(TypeId, Seq<char>)>,
    key: (TypeId, Seq<char>),
    other: (TypeId, Seq<char>),
)
    ensures
        held.contains(key) <==> admitted(held, key) is None,
        admitted(held, key) matches Some(extended) ==> (extended.contains(other) <==> other == key
            || held.contains(other)),
{
}

/// A rejected command passes nothing on, and an admitted one all that it carries.
pub proof fn law_admission_passes_on_what_it_carries(admission: Admission)
    ensures
        admission is Reject <==> admission.passed_on() is None,
        admission matches Admission::Proceed(held) ==> admission.passed_on() == Some(held@),
{
}

/// A command is rejected exactly when its key is among those it inherits, and
/// otherwise passes on those and its own.
pub proof fn law_command_is_checked_against_all_it_inherits(
    held: &HeldLocks,
    lock_key: &AggregateLockKey,
    admission: Admission,
)
    requires
        call_ensures(Admission::for_command, (Some(held), lock_key), admission),
    ensures
        held@.contains((lock_key.entity, lock_key.id@)) ==> admission is Reject,
        !held@.contains((lock_key.entity, lock_key.id@)) ==> {
            &&& admission matches Admission::Proceed(extended)
            &&& extended@ == held@.insert((lock_key.entity, lock_key.id@))
        },
{
}

/// A command that was admitted rejects a nested one on its own aggregate, and
/// on every aggregate that it inherited, whatever the type and the ID.
pub proof fn law_nested_command_on_a_held_aggregate_is_rejected(
    inherited: Option<&HeldLocks>,
    lock_key: &AggregateLockKey,
    passed_on: HeldLocks,
    nested_key: &AggregateLockKey,
    nested: Admission,
)
    requires
        call_ensures(
            Admission::for_command,
            (inherited, lock_key),
            Admission::Proceed(passed_on),
        ),
        call_ensures(Admission::for_command, (Some(&passed_on), nested_key), nested),
    ensures
        nested_key.entity == lock_key.entity && nested_key.id@ == lock_key.id@ ==> nested is Reject,
        inherited matches Some(held) && held@.contains((nested_key.entity, nested_key.id@))
            ==> nested is Reject,
        nested is Reject ==> (nested_key.entity == lock_key.entity && nested_key.id@
            == lock_key.id@) || (inherited matches Some(held) && held@.contains(
            (nested_key.entity, nested_key.id@),
        )),
{
}

/// A command that is issued outside any chain is always admitted, and holds its
/// own key only.
pub proof fn law_outermost_command_is_admitted(lock_key: &AggregateLockKey, admission: Admission)
    requires
        call_ensures(Admission::for_command, (None, lock_key), admission),
    ensures
        admission matches Admission::Proceed(held) && held@ == set![
            (lock_key.entity, lock_key.id@),
        ],
{
}

/// What the innermost command of a chain passes on, when each command of
/// `chain` was issued from the one before it and all were admitted. `None` if
/// some command was rejected.
pub open spec fn chain_scope(chain: Seq<(TypeId, Seq<char>)>) -> Option<Set<(TypeId, Seq<char>)>>
    decreases chain.len(),
{
    if chain.len() == 0 {
        Some(Set::empty())
    } else {
        match chain_scope(chain.drop_last()) {
            Some(held) => admitted(held, chain.last()),
            None => None,
        }
    }
}

/// A chain of nested commands is admitted throughout exactly when it commands
/// no aggregate twice, and the innermost command then passes on all its keys.
pub proof fn law_chain_is_admitted_iff_no_aggregate_repeats(chain: Seq<(TypeId, Seq<char>)>)
    ensures
        chain_scope(chain) is Some <==> chain.no_duplicates(),
        chain_scope(chain) matches Some(held) ==> held == chain.to_set(),
    decreases chain.len(),
{
    if chain.len() > 0 {
        let outer = chain.drop_last();
        law_chain_is_admitted_iff_no_aggregate_repeats(outer);
        assert(chain =~= outer.push(chain.last()));
        if chain.no_duplicates() {
            assert(outer.no_duplicates());
            assert(!outer.contains(chain.last()));
        }
        if outer.no_duplicates() && !outer.contains(chain.last()) {
            assert forall|i: int, j: int|
                0 <= i < chain.len() && 0 <= j < chain.len() && i != j implies chain[i]
                != chain[j] by {
                if i == chain.len() - 1 {
                    assert(outer[j] == chain[j]);
                } else if j == chain.len() - 1 {
                    assert(outer[i] == chain[i]);
                } else {
                    assert(outer[i] == chain[i] && outer[j] == chain[j]);
                }
            }
        }
        assert forall|key: (TypeId, Seq<char>)|
            chain.to_set().contains(key) == outer.to_set().insert(chain.last()).contains(key) by {
            if chain.contains(key) {
                let i = chain.index_of(key);
                if i < outer.len() {
                    assert(outer[i] == key);
                }
            }
            if outer.contains(key) {
                let i = outer.index_of(key);
                assert(chain[i] == key);
            }
            assert(chain[chain.len() - 1] == chain.last());
        }
        assert(chain.to_set() =~= outer.to_set().insert(chain.last()));
    } else {
        assert(chain.to_set() =~= Set::<(TypeId, Seq<char>)>::empty());
    }
}

/// A command is rejected exactly when some command further up its chain is
/// still commanding the same aggregate, whether it was issued from that one
/// directly or through others.
pub proof fn law_command_is_rejected_iff_an_ancestor_commands_its_aggregate(
    chain: Seq<(TypeId, Seq<char>)>,
    key: (TypeId, Seq<char>),
)
    requires
        chain_scope(chain) is Some,
    ensures
        admitted(chain_scope(chain).unwrap(), key) is None <==> chain.contains(key),
{
    law_chain_is_admitted_iff_no_aggregate_repeats(chain);
}

/// Being admitted adds exactly one key to what is held.
pub proof fn law_admission_adds_one_key(
    held: Set<(TypeId, Seq<char>)>,
    key: (TypeId, Seq<char>),
)
    requires
        held.finite(),
    ensures
        admitted(held, key) matches Some(extended) ==> extended.finite() && extended.len()
            == held.len() + 1 && extended.contains(key) && held.subset_of(extended),
{
}

/// Commands issued side by side inherit the same keys and do not see each
/// other's: once one has been admitted, the other is admitted exactly when no
/// ancestor holds its key, even if both command the same aggregate.
pub proof fn law_siblings_do_not_see_each_other(
    held: Set<(TypeId, Seq<char>)>,
    first: (TypeId, Seq<char>),
    second: (TypeId, Seq<char>),
)
    requires
        admitted(held, first) is Some,
    ensures
        admitted(held, second) is Some <==> !held.contains(second),
        first == second ==> admitted(held, second) is Some,
{
}

/// Aggregates of different entity types never collide, even when their IDs
/// have the same text.
pub proof fn law_entity_types_never_collide(
    chain: Seq<(TypeId, Seq<char>)>,
    key: (TypeId, Seq<char>),
)
    requires
        chain_scope(chain) is Some,
        forall|i: int| 0 <= i < chain.len() ==> (#[trigger] chain[i]).0 != key.0,
    ensures
        admitted(chain_scope(chain).unwrap(), key) is Some,
{
    law_command_is_rejected_iff_an_ancestor_commands_its_aggregate(chain, key);
}

} // verus!
