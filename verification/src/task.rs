//! Ownership of background workers, by their handles.
use vstd::prelude::*;

use crate::text::push_text;

verus! {

/// One generation of workers. Once it is closed, no worker is added.
pub struct TaskGroup<H> {
    closed: bool,
    handles: Vec<H>,
}

/// What a group holds.
#[verifier::ext_equal]
pub struct GroupModel<H> {
    pub closed: bool,
    pub handles: Seq<H>,
}

impl<H> View for TaskGroup<H> {
    type V = GroupModel<H>;

    closed spec fn view(&self) -> GroupModel<H> {
        GroupModel { closed: self.closed, handles: self.handles@ }
    }
}

/// The handles whose workers have not finished.
pub open spec fn unfinished<H>(handles: Seq<H>, finished: Seq<bool>) -> Seq<H>
    decreases handles.len(),
{
    if handles.len() == 0 || finished.len() == 0 {
        Seq::empty()
    } else {
        let rest = unfinished(handles.drop_last(), finished.drop_last());
        if finished.last() {
            rest
        } else {
            rest.push(handles.last())
        }
    }
}

impl<H> GroupModel<H> {
    /// The group with another worker, unless it is closed, and without those that have
    /// finished.
    pub open spec fn with_worker(self, finished: Seq<bool>, handle: H) -> Self {
        if self.closed {
            self
        } else {
            GroupModel { closed: false, handles: unfinished(self.handles, finished).push(handle) }
        }
    }

    /// The group once it is closed.
    pub open spec fn aborted(self) -> Self {
        GroupModel { closed: true, handles: self.handles }
    }

    /// The group once it is closed and its handles are given up.
    pub open spec fn given_up(self) -> Self {
        GroupModel { closed: true, handles: Seq::empty() }
    }
}

impl<H> TaskGroup<H> {
    /// A group without workers.
    pub fn new() -> (group: Self)
        ensures
            group@ == (GroupModel { closed: false, handles: Seq::<H>::empty() }),
    {
        let group = TaskGroup { closed: false, handles: Vec::new() };
        assert(group@.handles =~= Seq::<H>::empty());
        group
    }

    /// Whether the group is closed.
    pub fn is_closed(&self) -> (r: bool)
        ensures
            r == self@.closed,
    {
        self.closed
    }

    /// The handles of the workers.
    pub fn handles(&self) -> (r: &Vec<H>)
        ensures
            r@ == self@.handles,
    {
        &self.handles
    }

    /// Adds a worker, if the group is open, in place of those that have finished. The
    /// flags tell for each handle whether its worker has.
    pub fn spawn(&mut self, finished: Vec<bool>, handle: H) -> (r: bool)
        requires
            finished@.len() == old(self)@.handles.len(),
        ensures
            r == !old(self)@.closed,
            final(self)@ == old(self)@.with_worker(finished@, handle),
    {
        if self.closed {
            return false;
        }
        let ghost all = self.handles@;
        let mut handles: Vec<H> = Vec::new();
        std::mem::swap(&mut handles, &mut self.handles);
        let mut kept: Vec<H> = Vec::new();
        let mut i: usize = 0;
        assert(all.take(0) =~= Seq::empty());
        assert(kept@ =~= unfinished(all.take(0), finished@.take(0)));
        for running in it: handles
            invariant
                it.seq() == all,
                i == it.index(),
                finished@.len() == all.len(),
                kept@ == unfinished(all.take(it.index()), finished@.take(it.index())),
        {
            proof {
                let n = it.index();
                assert(running == all[n]);
                assert(all.take(n + 1).drop_last() =~= all.take(n));
                assert(finished@.take(n + 1).drop_last() =~= finished@.take(n));
                assert(all.take(n + 1).last() == running);
                assert(finished@.take(n + 1).last() == finished@[n]);
            }
            assert(i < finished.len());
            if !finished[i] {
                kept.push(running);
            }
            i += 1;
        }
        assert(all.take(all.len() as int) =~= all);
        assert(finished@.take(all.len() as int) =~= finished@);
        kept.push(handle);
        self.handles = kept;
        true
    }

    /// Closes the group. The result holds the handles, to be aborted.
    pub fn abort(&mut self) -> (r: &Vec<H>)
        ensures
            final(self)@ == old(self)@.aborted(),
            r@ == old(self)@.handles,
    {
        self.closed = true;
        &self.handles
    }

    /// Closes the group and gives up the handles, to be aborted and joined.
    pub fn shutdown(&mut self) -> (r: Vec<H>)
        ensures
            final(self)@ == old(self)@.given_up(),
            r@ == old(self)@.handles,
    {
        self.closed = true;
        let mut handles: Vec<H> = Vec::new();
        std::mem::swap(&mut handles, &mut self.handles);
        assert(self@.handles =~= Seq::<H>::empty());
        handles
    }
}

impl<H> Default for TaskGroup<H> {
    fn default() -> (group: Self)
        ensures
            group@ == (GroupModel { closed: false, handles: Seq::<H>::empty() }),
    {
        Self::new()
    }
}

/// Pruning drops finished workers only: every worker that has not finished stays, in
/// order.
pub proof fn running_workers_stay_owned<H>(handles: Seq<H>, finished: Seq<bool>)
    requires
        handles.len() == finished.len(),
    ensures
        unfinished(handles, finished).len() <= handles.len(),
        forall|i: int|
            0 <= i < handles.len() && !finished[i] ==> unfinished(handles, finished).contains(
                #[trigger] handles[i],
            ),
        (forall|i: int| 0 <= i < finished.len() ==> !(#[trigger] finished[i])) ==> unfinished(
            handles,
            finished,
        ) == handles,
    decreases handles.len(),
{
    if handles.len() > 0 {
        let init = handles.drop_last();
        let flags = finished.drop_last();
        running_workers_stay_owned(init, flags);
        let rest = unfinished(init, flags);
        let all = unfinished(handles, finished);
        assert forall|i: int| 0 <= i < handles.len() && !finished[i] implies all.contains(
            #[trigger] handles[i],
        ) by {
            if i < init.len() {
                assert(init[i] == handles[i] && flags[i] == finished[i]);
                let k = choose|k: int| 0 <= k < rest.len() && rest[k] == init[i];
                assert(all[k] == handles[i]);
            } else {
                assert(all[rest.len() as int] == handles[i]);
            }
        }
        if forall|i: int| 0 <= i < finished.len() ==> !(#[trigger] finished[i]) {
            assert forall|i: int| 0 <= i < flags.len() implies !(#[trigger] flags[i]) by {
                assert(flags[i] == finished[i]);
            }
            assert(!finished[finished.len() - 1]);
            assert(all =~= handles);
        }
    } else {
        assert(unfinished(handles, finished) =~= handles);
    }
}

/// The report of a panic.
pub open spec fn panic_text(name: Seq<char>, panic: Option<Seq<char>>) -> Seq<char> {
    name + " panicked: "@ + match panic {
        Some(message) => message,
        None => "non-string panic"@,
    }
}

/// The report of a panic, by its message if it has one.
pub fn panic_report(name: &str, panic: Option<&str>) -> (r: String)
    ensures
        r@ == panic_text(name@, crate::text::optional_str(panic)),
{
    let mut r = name.to_owned();
    push_text(&mut r, " panicked: ");
    push_text(
        &mut r,
        match panic {
            Some(message) => message,
            None => "non-string panic",
        },
    );
    r
}

/// Pruning leaves just the workers that have not finished, each where it stood among them.
pub proof fn finished_workers_go<H>(handles: Seq<H>, finished: Seq<bool>, handle: H, done: bool)
    requires
        handles.len() == finished.len(),
    ensures
        unfinished(handles.push(handle), finished.push(done)) == if done {
            unfinished(handles, finished)
        } else {
            unfinished(handles, finished).push(handle)
        },
        unfinished(Seq::<H>::empty(), Seq::<bool>::empty()) == Seq::<H>::empty(),
{
    assert(handles.push(handle).drop_last() =~= handles);
    assert(finished.push(done).drop_last() =~= finished);
}

/// The report of a panic names the task, and says what the panic said.
pub proof fn panics_are_reported(name: Seq<char>, message: Seq<char>)
    ensures
        panic_text(name, Some(message)) == name + " panicked: "@ + message,
        panic_text(name, None) == name + " panicked: "@ + "non-string panic"@,
{
}

/// A worker joins an open group behind those that still run, and a closed group never;
/// a group that is aborted or given up is closed from then on.
pub proof fn workers_join_open_groups<H>(
    group: GroupModel<H>,
    finished: Seq<bool>,
    handle: H,
    i: int,
)
    requires
        finished.len() == group.handles.len(),
    ensures
        group.closed ==> group.with_worker(finished, handle) == group,
        !group.closed ==> {
            let after = group.with_worker(finished, handle);
            &&& !after.closed
            &&& after.handles.last() == handle
            &&& after.handles.len() > 0
            &&& 0 <= i < group.handles.len() && !finished[i] ==> after.handles.contains(
                group.handles[i],
            )
            &&& (forall|k: int| 0 <= k < finished.len() ==> !(#[trigger] finished[k]))
                ==> after.handles == group.handles.push(handle)
            &&& (forall|k: int| 0 <= k < finished.len() ==> #[trigger] finished[k])
                ==> after.handles == seq![handle]
        },
        group.aborted().closed && group.aborted().handles == group.handles,
        group.given_up().closed && group.given_up().handles == Seq::<H>::empty(),
{
    running_workers_stay_owned(group.handles, finished);
    let rest = unfinished(group.handles, finished);
    if 0 <= i < group.handles.len() && !finished[i] {
        let k = choose|k: int| 0 <= k < rest.len() && rest[k] == group.handles[i];
        assert(rest.push(handle)[k] == group.handles[i]);
    }
    if forall|k: int| 0 <= k < finished.len() ==> #[trigger] finished[k] {
        lemma_all_finished(group.handles, finished);
    }
}

proof fn lemma_all_finished<H>(handles: Seq<H>, finished: Seq<bool>)
    requires
        handles.len() == finished.len(),
        forall|k: int| 0 <= k < finished.len() ==> #[trigger] finished[k],
    ensures
        unfinished(handles, finished) == Seq::<H>::empty(),
    decreases handles.len(),
{
    if handles.len() > 0 {
        assert(finished[finished.len() - 1]);
        lemma_all_finished(handles.drop_last(), finished.drop_last());
    }
}

} // verus!
