//! The tasks that a connection serves, each with an owner: admission, cancellation,
//! and the removal of tasks that end by themselves.
use vstd::prelude::*;

use crate::id::{number_after, number_at, numbered, IdSequence};
use crate::operation::{
    admission_keeps_limits, claimed, full, of_owner, owned_by, removal_keeps_limits, taken,
    within_limits, without_owner, ActiveModel, OperationAdmissionError, OperationLimits,
    OperationModel, OwnedOperation, OwnedOperations,
};
use crate::sorted_map::{ascending, entry_map, has_key, lemma_key_index};
use crate::text::{optional_str, optional_text};

verus! {

/// How many tasks may be active.
#[derive(Debug, Clone, Copy, PartialEq, Eq)]
pub struct TaskLimits {
    pub total: usize,
    pub per_owner: usize,
}

/// How many tasks may usually be active.
pub open spec fn usual_limits() -> TaskLimits {
    TaskLimits { total: 256, per_owner: 64 }
}

impl Default for TaskLimits {
    fn default() -> (limits: Self)
        ensures
            limits == usual_limits(),
    {
        TaskLimits { total: 256, per_owner: 64 }
    }
}

/// Why a task is not admitted.
#[derive(Debug, Clone, Copy, PartialEq, Eq, Structural)]
pub enum TaskAdmissionError {
    Closed,
    Full,
    DuplicateId,
}

impl TaskAdmissionError {
    /// What the error says.
    pub open spec fn text(&self) -> Seq<char> {
        match *self {
            TaskAdmissionError::Closed => "task registry is shutting down"@,
            TaskAdmissionError::Full => "too many active tasks; retry after a task finishes"@,
            TaskAdmissionError::DuplicateId => "task ID is already active"@,
        }
    }

    /// What the error says.
    pub fn message(&self) -> (r: &'static str)
        ensures
            r@ == self.text(),
    {
        match self {
            TaskAdmissionError::Closed => "task registry is shutting down",
            TaskAdmissionError::Full => "too many active tasks; retry after a task finishes",
            TaskAdmissionError::DuplicateId => "task ID is already active",
        }
    }
}

/// A task by its handle, and the generation that tells it from earlier tasks with the
/// same identifier.
#[derive(Debug, PartialEq)]
pub struct OwnedTask<H> {
    pub handle: H,
    pub generation: u64,
}

/// The active tasks by their identifiers.
pub type TasksModel<H> = ActiveModel<OwnedTask<H>>;

/// The tasks of one serving connection.
pub struct OwnedTaskRegistry<H> {
    ids: IdSequence,
    tasks: OwnedOperations<OwnedTask<H>>,
    closed: bool,
    generation: u64,
}

/// What a registry holds.
#[verifier::ext_equal]
pub struct RegistryModel<H> {
    pub tasks: TasksModel<H>,
    pub limits: TaskLimits,
    pub closed: bool,
    pub next_id: nat,
    pub next_generation: nat,
}

impl<H> RegistryModel<H> {
    /// The limits, as those of operations.
    pub open spec fn operation_limits(self) -> OperationLimits {
        OperationLimits { total: self.limits.total, per_owner: self.limits.per_owner }
    }

    /// Whether the active tasks are within the limits.
    pub open spec fn within_limits(self) -> bool {
        within_limits(self.tasks, self.operation_limits())
    }

    /// Why a task is not admitted, if it is not.
    pub open spec fn refusal(self, id: Seq<char>, owner: Option<Seq<char>>) -> Option<
        TaskAdmissionError,
    > {
        if self.closed {
            Some(TaskAdmissionError::Closed)
        } else if self.tasks.contains_key(id) {
            Some(TaskAdmissionError::DuplicateId)
        } else if full(self.tasks, owner, self.operation_limits()) {
            Some(TaskAdmissionError::Full)
        } else {
            None
        }
    }

    /// The registry with another task.
    pub open spec fn with_task(self, id: Seq<char>, owner: Option<Seq<char>>, handle: H) -> Self {
        RegistryModel {
            tasks: self.tasks.insert(
                id,
                OperationModel {
                    owner,
                    value: OwnedTask { handle, generation: self.next_generation as u64 },
                },
            ),
            next_generation: number_after(self.next_generation),
            ..self
        }
    }

    /// The registry once an owner has cancelled a task, if it is one of its own.
    pub open spec fn cancelled(self, id: Seq<char>, owner: Option<Seq<char>>) -> Self {
        RegistryModel { tasks: claimed(self.tasks, id, owner), ..self }
    }

    /// The handle of a task, if an owner has it.
    pub open spec fn handle_of(self, id: Seq<char>, owner: Option<Seq<char>>) -> Option<H> {
        if owned_by(self.tasks, owner).contains(id) {
            Some(self.tasks[id].value.handle)
        } else {
            None
        }
    }

    /// The registry without the tasks of an owner.
    pub open spec fn owner_cancelled(self, owner: Seq<char>) -> Self {
        RegistryModel { tasks: without_owner(self.tasks, Some(owner)), ..self }
    }

    /// The registry without tasks, and closed if it should be.
    pub open spec fn drained(self, close: bool) -> Self {
        RegistryModel {
            tasks: TasksModel::<H>::empty(),
            closed: self.closed || close,
            ..self
        }
    }

    /// Whether the active task with an identifier has a generation.
    pub open spec fn is_current(self, id: Seq<char>, generation: u64) -> bool {
        self.tasks.contains_key(id) && self.tasks[id].value.generation == generation
    }

    /// The registry once a task of a generation has ended by itself.
    pub open spec fn released(self, id: Seq<char>, generation: u64) -> Self {
        if self.is_current(id, generation) {
            RegistryModel { tasks: self.tasks.remove(id), ..self }
        } else {
            self
        }
    }
}

/// The handles of tasks.
pub open spec fn handles<H>(tasks: TasksModel<H>) -> Map<Seq<char>, H> {
    tasks.map_values(|task: OperationModel<OwnedTask<H>>| task.value.handle)
}

impl<H> View for OwnedTaskRegistry<H> {
    type V = RegistryModel<H>;

    closed spec fn view(&self) -> RegistryModel<H> {
        RegistryModel {
            tasks: self.tasks@,
            limits: TaskLimits {
                total: self.tasks.spec_limits().total,
                per_owner: self.tasks.spec_limits().per_owner,
            },
            closed: self.closed,
            next_id: self.ids@,
            next_generation: self.generation as nat,
        }
    }
}

/// Takes the handles out of removed tasks.
fn take_handles<H>(entries: Vec<(String, OwnedOperation<OwnedTask<H>>)>) -> (r: Vec<(String, H)>)
    requires
        ascending(entries@),
    ensures
        ascending(r@),
        entry_map(r@) == handles(taken(entries@)),
{
    let ghost all = entries@;
    let mut r: Vec<(String, H)> = Vec::new();
    for entry in it: entries
        invariant
            it.seq() == all,
            r@.len() == it.index(),
            forall|i: int|
                0 <= i < r@.len() ==> (#[trigger] r@[i]).0 == all[i].0 && r@[i].1
                    == all[i].1.value.handle,
    {
        assert(entry == all[it.index()]);
        let (id, operation) = entry;
        r.push((id, operation.value.handle));
    }
    proof {
        assert(r@.len() == all.len());
        assert forall|i: int, j: int| 0 <= i < j < r@.len() implies crate::text::precedes(
            (#[trigger] r@[i]).0@,
            (#[trigger] r@[j]).0@,
        ) by {
            assert(crate::text::precedes(all[i].0@, all[j].0@));
        }
        let held = handles(taken(all));
        assert forall|id: Seq<char>| entry_map(r@).contains_key(id) <==> held.contains_key(id) by {
            if has_key(r@, id) {
                let i = choose|i: int| 0 <= i < r@.len() && (#[trigger] r@[i]).0@ == id;
                assert(all[i].0@ == id);
                assert(has_key(all, id));
            }
            if has_key(all, id) {
                let i = choose|i: int| 0 <= i < all.len() && (#[trigger] all[i]).0@ == id;
                assert(r@[i].0@ == id);
                assert(has_key(r@, id));
            }
        }
        assert forall|id: Seq<char>| entry_map(r@).contains_key(id) implies entry_map(r@)[id]
            == held[id] by {
            let i = choose|i: int| 0 <= i < r@.len() && (#[trigger] r@[i]).0@ == id;
            lemma_key_index(r@, i);
            assert(all[i].0@ == id);
            lemma_key_index(all, i);
        }
        assert(entry_map(r@) =~= held);
    }
    r
}

impl<H> OwnedTaskRegistry<H> {
    /// A registry whose first identifier has a number, with the usual limits.
    pub fn new(first_id: u64) -> (registry: Self)
        ensures
            registry@ == (RegistryModel {
                tasks: TasksModel::<H>::empty(),
                limits: usual_limits(),
                closed: false,
                next_id: first_id as nat,
                next_generation: 0,
            }),
    {
        Self::with_limits(first_id, TaskLimits::default())
    }

    /// A registry whose first identifier has a number.
    pub fn with_limits(first_id: u64, limits: TaskLimits) -> (registry: Self)
        ensures
            registry@ == (RegistryModel {
                tasks: TasksModel::<H>::empty(),
                limits,
                closed: false,
                next_id: first_id as nat,
                next_generation: 0,
            }),
    {
        OwnedTaskRegistry {
            ids: IdSequence::new(first_id),
            tasks: OwnedOperations::new(
                OperationLimits { total: limits.total, per_owner: limits.per_owner },
            ),
            closed: false,
            generation: 0,
        }
    }

    /// The next identifier.
    pub fn next_id(&mut self, prefix: &str) -> (id: String)
        ensures
            id@ == numbered(prefix@, old(self)@.next_id),
            final(self)@ == (RegistryModel {
                next_id: number_after(old(self)@.next_id),
                ..old(self)@
            }),
    {
        self.ids.next(prefix)
    }

    /// Whether a task would be admitted, and the generation that it would have.
    pub fn admission(&self, id: &str, owner: Option<&str>) -> (r: Result<u64, TaskAdmissionError>)
        ensures
            match self@.refusal(id@, optional_str(owner)) {
                Some(error) => r == Err::<u64, _>(error),
                None => r matches Ok(generation) && generation == self@.next_generation,
            },
    {
        if self.closed {
            return Err(TaskAdmissionError::Closed);
        }
        if self.tasks.contains(id) {
            return Err(TaskAdmissionError::DuplicateId);
        }
        match self.tasks.check_admission(owner) {
            Ok(()) => Ok(self.generation),
            Err(_) => Err(TaskAdmissionError::Full),
        }
    }

    /// Registers a task, if it is admitted, and tells its generation. The task waits
    /// to run until it is registered.
    pub fn spawn_until(&mut self, id: String, owner: Option<String>, handle: H) -> (r: Result<
        u64,
        TaskAdmissionError,
    >)
        ensures
            match old(self)@.refusal(id@, optional_text(owner)) {
                Some(error) => r == Err::<u64, _>(error) && final(self)@ == old(self)@,
                None => {
                    &&& r matches Ok(generation)
                    &&& generation == old(self)@.next_generation
                    &&& final(self)@ == old(self)@.with_task(id@, optional_text(owner), handle)
                },
            },
    {
        if self.closed {
            return Err(TaskAdmissionError::Closed);
        }
        let generation = self.generation;
        match self.tasks.insert(id, owner, OwnedTask { handle, generation }) {
            Ok(()) => {
                self.generation = generation.wrapping_add(1);
                Ok(generation)
            },
            Err(OperationAdmissionError::DuplicateId) => Err(TaskAdmissionError::DuplicateId),
            Err(OperationAdmissionError::Full) => Err(TaskAdmissionError::Full),
        }
    }

    /// Removes a task of an owner. The result is its handle, to be aborted.
    pub fn cancel_owned(&mut self, id: &str, owner: Option<&str>) -> (r: Option<H>)
        ensures
            final(self)@ == old(self)@.cancelled(id@, optional_str(owner)),
            r == old(self)@.handle_of(id@, optional_str(owner)),
    {
        match self.tasks.claim_owned(id, owner) {
            Some(operation) => Some(operation.value.handle),
            None => None,
        }
    }

    /// Removes the tasks of an owner. The result holds their handles, to be aborted.
    pub fn cancel_owner(&mut self, owner: &str) -> (r: Vec<(String, H)>)
        ensures
            final(self)@ == old(self)@.owner_cancelled(owner@),
            ascending(r@),
            entry_map(r@) == handles(of_owner(old(self)@.tasks, Some(owner@))),
    {
        let entries = self.tasks.take_owned(Some(owner));
        take_handles(entries)
    }

    /// Removes all tasks, and closes the registry if it should. The result holds the
    /// handles, to be aborted and joined.
    fn drain(&mut self, close: bool) -> (r: Vec<(String, H)>)
        ensures
            final(self)@ == old(self)@.drained(close),
            ascending(r@),
            entry_map(r@) == handles(old(self)@.tasks),
    {
        self.closed = self.closed || close;
        let entries = self.tasks.take_all();
        take_handles(entries)
    }

    /// Removes all tasks. The result holds their handles, to be aborted and joined.
    pub fn cancel_all(&mut self) -> (r: Vec<(String, H)>)
        ensures
            final(self)@ == old(self)@.drained(false),
            ascending(r@),
            entry_map(r@) == handles(old(self)@.tasks),
    {
        self.drain(false)
    }

    /// Removes all tasks for good. The result holds their handles, to be aborted and
    /// joined.
    pub fn shutdown(&mut self) -> (r: Vec<(String, H)>)
        ensures
            final(self)@ == old(self)@.drained(true),
            ascending(r@),
            entry_map(r@) == handles(old(self)@.tasks),
    {
        self.drain(true)
    }

    /// Removes a task that has ended by itself, unless its identifier belongs to
    /// another task by now.
    pub fn release(&mut self, id: &str, generation: u64) -> (r: bool)
        ensures
            r == old(self)@.is_current(id@, generation),
            final(self)@ == old(self)@.released(id@, generation),
    {
        let current = match self.tasks.get(id) {
            Some(task) => task.value.generation == generation,
            None => false,
        };
        if current {
            let _ = self.tasks.claim(id);
        }
        current
    }

    /// Whether no task is active.
    pub fn is_empty(&self) -> (r: bool)
        ensures
            r == (self@.tasks == TasksModel::<H>::empty()),
    {
        let length: usize = self.tasks.len();
        proof {
            if length == 0 {
                assert(self@.tasks =~= TasksModel::<H>::empty());
            } else {
                assert(self@.tasks.dom().len() > 0);
            }
        }
        length == 0
    }
}

impl<H> Default for OwnedTaskRegistry<H> {
    fn default() -> (registry: Self)
        ensures
            registry@ == (RegistryModel {
                tasks: TasksModel::<H>::empty(),
                limits: usual_limits(),
                closed: false,
                next_id: 1,
                next_generation: 0,
            }),
    {
        Self::new(1)
    }
}

/// The cleanup of a task cannot remove a later task with the same identifier: it
/// leaves everything as it is, as long as the generations last.
pub proof fn old_cleanup_cannot_remove_reused_id<H>(
    earlier: RegistryModel<H>,
    later: RegistryModel<H>,
    spawns: nat,
    id: Seq<char>,
    owner: Option<Seq<char>>,
    handle: H,
)
    requires
        later.next_generation == number_at(earlier.next_generation, spawns + 1),
        earlier.next_generation + spawns + 1 <= u64::MAX,
    ensures
        later.with_task(id, owner, handle).released(id, earlier.next_generation as u64)
            == later.with_task(id, owner, handle),
        later.with_task(id, owner, handle).released(id, later.next_generation as u64).tasks
            == later.tasks.remove(id),
{
    crate::id::ids_are_monotonic(earlier.next_generation, spawns + 1);
    let after = later.with_task(id, owner, handle);
    assert(after.released(id, later.next_generation as u64).tasks =~= later.tasks.remove(id));
}

/// A registry keeps its limits: tasks are admitted within them, and tasks that leave make
/// room.
pub proof fn registries_keep_limits<H>(
    registry: RegistryModel<H>,
    id: Seq<char>,
    owner: Option<Seq<char>>,
    handle: H,
    generation: u64,
    gone: Set<Seq<char>>,
)
    requires
        registry.within_limits(),
    ensures
        registry.refusal(id, owner) is None ==> registry.with_task(
            id,
            owner,
            handle,
        ).within_limits(),
        registry.released(id, generation).within_limits(),
        (RegistryModel { tasks: registry.tasks.remove_keys(gone), ..registry }).within_limits(),
{
    let limits = registry.operation_limits();
    if registry.refusal(id, owner) is None {
        let task = OperationModel {
            owner,
            value: OwnedTask { handle, generation: registry.next_generation as u64 },
        };
        admission_keeps_limits(registry.tasks, limits, id, task);
    }
    removal_keeps_limits(registry.tasks, limits, gone);
    removal_keeps_limits(registry.tasks, limits, set![id]);
    assert(registry.tasks.remove(id) =~= registry.tasks.remove_keys(set![id]));
}

/// A closed registry admits nothing, whatever is done to it.
pub proof fn closed_registries_stay_closed<H>(
    registry: RegistryModel<H>,
    id: Seq<char>,
    owner: Option<Seq<char>>,
    generation: u64,
)
    requires
        registry.closed,
    ensures
        registry.refusal(id, owner) == Some(TaskAdmissionError::Closed),
        registry.released(id, generation).closed,
{
}

/// A task is refused by a closed registry before anything else is asked, then for an
/// identifier that is in use, and then for want of room; it is admitted in all other
/// cases.
pub proof fn tasks_are_refused_in_order<H>(
    registry: RegistryModel<H>,
    id: Seq<char>,
    owner: Option<Seq<char>>,
)
    ensures
        registry.refusal(id, owner) == Some(TaskAdmissionError::Closed) <==> registry.closed,
        registry.refusal(id, owner) == Some(TaskAdmissionError::DuplicateId) <==> !registry.closed
            && registry.tasks.contains_key(id),
        registry.refusal(id, owner) is None <==> !registry.closed && !registry.tasks.contains_key(
            id,
        ) && registry.tasks.dom().len() < registry.limits.total && owned_by(
            registry.tasks,
            owner,
        ).len() < registry.limits.per_owner,
{
}

/// A task that is registered is there under its identifier, with its owner, its handle
/// and the generation that was promised, and changes no other task. The next task gets
/// another generation.
pub proof fn registered_tasks_are_there<H>(
    registry: RegistryModel<H>,
    id: Seq<char>,
    owner: Option<Seq<char>>,
    handle: H,
    other: Seq<char>,
)
    requires
        registry.next_generation <= u64::MAX,
    ensures
        ({
            let after = registry.with_task(id, owner, handle);
            &&& after.tasks.contains_key(id)
            &&& after.tasks[id].owner == owner
            &&& after.tasks[id].value.handle == handle
            &&& after.tasks[id].value.generation == registry.next_generation
            &&& other != id ==> after.tasks.contains_key(other) == registry.tasks.contains_key(other)
            &&& other != id && registry.tasks.contains_key(other) ==> after.tasks[other]
                == registry.tasks[other]
            &&& after.next_generation != registry.next_generation
            &&& registry.next_generation < u64::MAX ==> after.next_generation
                == registry.next_generation + 1
            &&& after.limits == registry.limits
            &&& after.closed == registry.closed
            &&& after.next_id == registry.next_id
        }),
{
}

/// A task that ended is removed, if it is still the one of its generation, and nothing
/// else changes.
pub proof fn ended_tasks_leave_alone<H>(
    registry: RegistryModel<H>,
    id: Seq<char>,
    generation: u64,
)
    ensures
        ({
            let after = registry.released(id, generation);
            let ended = registry.tasks.contains_key(id) && registry.tasks[id].value.generation
                == generation;
            &&& registry.is_current(id, generation) == ended
            &&& ended ==> after.tasks == registry.tasks.remove(id)
            &&& !ended ==> after.tasks == registry.tasks
            &&& after.limits == registry.limits
            &&& after.closed == registry.closed
            &&& after.next_id == registry.next_id
            &&& after.next_generation == registry.next_generation
        }),
{
}

/// The handles that are given up are those of the tasks, each under its identifier.
pub proof fn handles_are_those_of_the_tasks<H>(tasks: TasksModel<H>, id: Seq<char>)
    ensures
        handles(tasks).contains_key(id) == tasks.contains_key(id),
        tasks.contains_key(id) ==> handles(tasks)[id] == tasks[id].value.handle,
{
}

/// An owner cancels a task of its own by its identifier, and gets its handle; tasks of
/// others, and all else of the registry, stay as they are.
pub proof fn owners_cancel_their_own_tasks<H>(
    registry: RegistryModel<H>,
    id: Seq<char>,
    owner: Option<Seq<char>>,
    other: Seq<char>,
)
    ensures
        ({
            let after = registry.cancelled(id, owner);
            let own = registry.tasks.contains_key(id) && registry.tasks[id].owner == owner;
            &&& registry.handle_of(id, owner) == if own {
                Some(registry.tasks[id].value.handle)
            } else {
                None
            }
            &&& own ==> !after.tasks.contains_key(id)
            &&& !own ==> after == registry
            &&& other != id ==> after.tasks.contains_key(other) == registry.tasks.contains_key(
                other,
            )
            &&& after.tasks.contains_key(other) ==> after.tasks[other] == registry.tasks[other]
            &&& after == (RegistryModel { tasks: after.tasks, ..registry })
        }),
{
}

/// All tasks of an owner are cancelled together, and no other; those without an owner, and
/// all else of the registry, stay as they are.
pub proof fn owners_are_cancelled_as_a_whole<H>(
    registry: RegistryModel<H>,
    owner: Seq<char>,
    id: Seq<char>,
)
    ensures
        ({
            let after = registry.owner_cancelled(owner);
            let gone = handles(of_owner(registry.tasks, Some(owner)));
            &&& after.tasks.contains_key(id) <==> registry.tasks.contains_key(id)
                && registry.tasks[id].owner != Some(owner)
            &&& after.tasks.contains_key(id) ==> after.tasks[id] == registry.tasks[id]
            &&& gone.contains_key(id) <==> registry.tasks.contains_key(id)
                && registry.tasks[id].owner == Some(owner)
            &&& gone.contains_key(id) ==> gone[id] == registry.tasks[id].value.handle
            &&& after == (RegistryModel { tasks: after.tasks, ..registry })
        }),
{
}

/// A registry that is emptied keeps no task, is closed from then on where that was asked
/// for, and stays closed where it was; all else stays as it is.
pub proof fn emptied_registries_keep_no_task<H>(registry: RegistryModel<H>, id: Seq<char>)
    ensures
        !registry.drained(true).tasks.contains_key(id),
        !registry.drained(false).tasks.contains_key(id),
        registry.drained(true).closed,
        registry.drained(false).closed == registry.closed,
        registry.drained(true).limits == registry.limits,
        registry.drained(true).next_id == registry.next_id,
        registry.drained(true).next_generation == registry.next_generation,
        registry.drained(false).limits == registry.limits,
        registry.drained(false).next_id == registry.next_id,
        registry.drained(false).next_generation == registry.next_generation,
{
}

/// The errors say why a task is refused.
pub proof fn task_errors_are_told()
    ensures
        TaskAdmissionError::Closed.text() == "task registry is shutting down"@,
        TaskAdmissionError::Full.text() == "too many active tasks; retry after a task finishes"@,
        TaskAdmissionError::DuplicateId.text() == "task ID is already active"@,
{
}

/// Usually two hundred and fifty-six tasks may be active, sixty-four of them for an owner.
pub proof fn usual_limits_are_kept<H>(
    registry: RegistryModel<H>,
    id: Seq<char>,
    owner: Option<Seq<char>>,
)
    requires
        registry.limits == usual_limits(),
        !registry.closed,
        !registry.tasks.contains_key(id),
    ensures
        registry.refusal(id, owner) is None <==> registry.tasks.dom().len() < 256 && owned_by(
            registry.tasks,
            owner,
        ).len() < 64,
{
}

} // verus!
