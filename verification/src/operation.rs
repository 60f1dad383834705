//! Bookkeeping of operations: admission within limits, one winner of the terminal
//! transition, and a bounded list of recent results. The effects of cancellation and
//! the visibility of outcomes are left to the caller.
use std::time::{Duration, Instant};
use vstd::prelude::*;

use crate::sorted_map::{ascending, entry_map, has_key, lemma_key_index, SortedMap};
use crate::text::{
    borrow_optional, optional_str, optional_text, precedes, same_optional_text, same_text,
};

verus! {

/// How many operations may be active.
#[derive(Debug, Clone, Copy, PartialEq, Eq)]
pub struct OperationLimits {
    pub total: usize,
    pub per_owner: usize,
}

/// Why an operation is not admitted.
#[derive(Debug, Clone, Copy, PartialEq, Eq, Structural)]
pub enum OperationAdmissionError {
    Full,
    DuplicateId,
}

impl OperationAdmissionError {
    /// What the error says.
    pub open spec fn text(&self) -> Seq<char> {
        match *self {
            OperationAdmissionError::Full =>
                "too many active operations; retry after an operation finishes"@,
            OperationAdmissionError::DuplicateId => "operation ID is already active"@,
        }
    }

    /// What the error says.
    pub fn message(&self) -> (r: &'static str)
        ensures
            r@ == self.text(),
    {
        match self {
            OperationAdmissionError::Full =>
                "too many active operations; retry after an operation finishes",
            OperationAdmissionError::DuplicateId => "operation ID is already active",
        }
    }
}

/// An operation and its owner.
#[derive(Debug, PartialEq)]
pub struct OwnedOperation<T> {
    pub owner: Option<String>,
    pub value: T,
}

/// An operation and its owner.
#[verifier::ext_equal]
pub struct OperationModel<T> {
    pub owner: Option<Seq<char>>,
    pub value: T,
}

impl<T> View for OwnedOperation<T> {
    type V = OperationModel<T>;

    open spec fn view(&self) -> OperationModel<T> {
        OperationModel { owner: optional_text(self.owner), value: self.value }
    }
}

/// The active operations by their identifiers.
pub type ActiveModel<T> = Map<Seq<char>, OperationModel<T>>;

/// The identifiers of the operations of an owner.
pub open spec fn owned_by<T>(active: ActiveModel<T>, owner: Option<Seq<char>>) -> Set<Seq<char>> {
    active.dom().filter(|id: Seq<char>| active[id].owner == owner)
}

/// Whether there is no room for another operation of an owner.
pub open spec fn full<T>(
    active: ActiveModel<T>,
    owner: Option<Seq<char>>,
    limits: OperationLimits,
) -> bool {
    active.dom().len() >= limits.total || owned_by(active, owner).len() >= limits.per_owner
}

/// Whether there is room for another operation of an owner.
pub open spec fn admission<T>(
    active: ActiveModel<T>,
    owner: Option<Seq<char>>,
    limits: OperationLimits,
) -> Result<(), OperationAdmissionError> {
    if full(active, owner, limits) {
        Err(OperationAdmissionError::Full)
    } else {
        Ok(())
    }
}

/// Whether an operation is inserted: its identifier is not in use, and there is room.
pub open spec fn insertion<T>(
    active: ActiveModel<T>,
    id: Seq<char>,
    owner: Option<Seq<char>>,
    limits: OperationLimits,
) -> Result<(), OperationAdmissionError> {
    if active.contains_key(id) {
        Err(OperationAdmissionError::DuplicateId)
    } else {
        admission(active, owner, limits)
    }
}

/// What is active with an operation under an identifier.
pub open spec fn with_operation<T>(
    active: ActiveModel<T>,
    id: Seq<char>,
    owner: Option<Seq<char>>,
    value: T,
) -> ActiveModel<T> {
    active.insert(id, OperationModel { owner, value })
}

/// What is active without the operation under an identifier.
pub open spec fn without_operation<T>(active: ActiveModel<T>, id: Seq<char>) -> ActiveModel<T> {
    active.remove(id)
}

/// What is active once an owner has claimed an operation, if it is one of its own.
pub open spec fn claimed<T>(
    active: ActiveModel<T>,
    id: Seq<char>,
    owner: Option<Seq<char>>,
) -> ActiveModel<T> {
    if owned_by(active, owner).contains(id) {
        active.remove(id)
    } else {
        active
    }
}

/// The operations of all others than an owner.
pub open spec fn without_owner<T>(
    active: ActiveModel<T>,
    owner: Option<Seq<char>>,
) -> ActiveModel<T> {
    active.remove_keys(owned_by(active, owner))
}

/// The operations of an owner.
pub open spec fn of_owner<T>(active: ActiveModel<T>, owner: Option<Seq<char>>) -> ActiveModel<T> {
    active.restrict(owned_by(active, owner))
}

/// The active operations. The caller synchronizes admission and insertion. To remove
/// an operation is to claim its terminal transition: whoever comes later gets nothing.
pub struct OwnedOperations<T> {
    active: SortedMap<OwnedOperation<T>>,
    limits: OperationLimits,
}

impl<T> View for OwnedOperations<T> {
    type V = ActiveModel<T>;

    closed spec fn view(&self) -> ActiveModel<T> {
        self.active@.map_values(|operation: OwnedOperation<T>| operation@)
    }
}

spec fn owned_keys<T>(
    entries: Seq<(String, OwnedOperation<T>)>,
    owner: Option<Seq<char>>,
    n: int,
) -> Set<Seq<char>> {
    Set::new(
        |id: Seq<char>|
            exists|i: int|
                0 <= i < n && (#[trigger] entries[i]).0@ == id && entries[i].1@.owner == owner,
    )
}

proof fn lemma_owned_keys_step<T>(
    entries: Seq<(String, OwnedOperation<T>)>,
    owner: Option<Seq<char>>,
    n: int,
)
    requires
        ascending(entries),
        0 <= n < entries.len(),
    ensures
        entries[n].1@.owner == owner ==> owned_keys(entries, owner, n + 1) == owned_keys(
            entries,
            owner,
            n,
        ).insert(entries[n].0@) && !owned_keys(entries, owner, n).contains(entries[n].0@),
        entries[n].1@.owner != owner ==> owned_keys(entries, owner, n + 1) == owned_keys(
            entries,
            owner,
            n,
        ),
{
    let before = owned_keys(entries, owner, n);
    let after = owned_keys(entries, owner, n + 1);
    let key = entries[n].0@;
    assert forall|i: int| 0 <= i < n implies (#[trigger] entries[i]).0@ != key by {
        lemma_key_index(entries, i);
        lemma_key_index(entries, n);
    }
    if entries[n].1@.owner == owner {
        assert forall|id: Seq<char>| before.insert(key).contains(id) implies after.contains(id) by {
            if id == key {
                assert(entries[n].0@ == id);
            }
        }
        assert(after =~= before.insert(key));
    } else {
        assert(after =~= before);
    }
}

proof fn lemma_owned_keys_all<T>(
    entries: Seq<(String, OwnedOperation<T>)>,
    owner: Option<Seq<char>>,
)
    requires
        ascending(entries),
    ensures
        owned_keys(entries, owner, entries.len() as int) == owned_by(
            entry_map(entries).map_values(|operation: OwnedOperation<T>| operation@),
            owner,
        ),
{
    let all = owned_keys(entries, owner, entries.len() as int);
    let map = entry_map(entries);
    let active = map.map_values(|operation: OwnedOperation<T>| operation@);
    let owned = owned_by(active, owner);
    assert forall|id: Seq<char>| all.contains(id) <==> owned.contains(id) by {
        if all.contains(id) {
            let i = choose|i: int|
                0 <= i < entries.len() && (#[trigger] entries[i]).0@ == id && entries[i].1@.owner
                    == owner;
            lemma_key_index(entries, i);
            assert(map.contains_key(id));
        }
        if owned.contains(id) {
            assert(map.contains_key(id));
            let i = choose|i: int| 0 <= i < entries.len() && (#[trigger] entries[i]).0@ == id;
            lemma_key_index(entries, i);
            assert(entries[i].1@.owner == owner);
        }
    }
    assert(all =~= owned);
}

/// The operations in a sequence of removed ones.
pub open spec fn taken<T>(entries: Seq<(String, OwnedOperation<T>)>) -> ActiveModel<T> {
    entry_map(entries).map_values(|operation: OwnedOperation<T>| operation@)
}

spec fn keys_taken<T>(entries: Seq<(String, OwnedOperation<T>)>) -> Set<Seq<char>> {
    Set::new(|id: Seq<char>| has_key(entries, id))
}

proof fn lemma_keys_taken_push<T>(
    entries: Seq<(String, OwnedOperation<T>)>,
    entry: (String, OwnedOperation<T>),
)
    ensures
        keys_taken(entries.push(entry)) == keys_taken(entries).insert(entry.0@),
{
    let after = entries.push(entry);
    assert forall|id: Seq<char>| keys_taken(entries).insert(entry.0@).contains(id) implies keys_taken(
        after,
    ).contains(id) by {
        if id == entry.0@ {
            assert(after[entries.len() as int].0@ == id);
        } else {
            let j = choose|j: int| 0 <= j < entries.len() && (#[trigger] entries[j]).0@ == id;
            assert(after[j].0@ == id);
        }
    }
    assert(keys_taken(after) =~= keys_taken(entries).insert(entry.0@));
}

/// The entries of an owner.
spec fn owned_entries<T>(
    entries: Seq<(String, OwnedOperation<T>)>,
    owner: Option<Seq<char>>,
) -> Seq<(String, OwnedOperation<T>)> {
    entries.filter(|entry: (String, OwnedOperation<T>)| entry.1@.owner == owner)
}

proof fn lemma_owned_entries<T>(
    entries: Seq<(String, OwnedOperation<T>)>,
    owner: Option<Seq<char>>,
)
    requires
        ascending(entries),
    ensures
        ascending(owned_entries(entries, owner)),
        forall|i: int|
            0 <= i < owned_entries(entries, owner).len() ==> entries.contains(
                #[trigger] owned_entries(entries, owner)[i],
            ) && owned_entries(entries, owner)[i].1@.owner == owner,
        forall|i: int|
            0 <= i < entries.len() && (#[trigger] entries[i]).1@.owner == owner ==> owned_entries(
                entries,
                owner,
            ).contains(entries[i]),
    decreases entries.len(),
{
    let p = |entry: (String, OwnedOperation<T>)| entry.1@.owner == owner;
    reveal(Seq::filter);
    if entries.len() > 0 {
        let init = entries.drop_last();
        let last = entries.last();
        lemma_owned_entries(init, owner);
        let before = owned_entries(init, owner);
        let after = owned_entries(entries, owner);
        assert(entries[entries.len() - 1] == last);
        assert forall|i: int| 0 <= i < before.len() implies entries.contains(#[trigger] before[i])
            && precedes(before[i].0@, last.0@) by {
            let k = choose|k: int| 0 <= k < init.len() && init[k] == before[i];
            assert(entries[k] == before[i]);
        }
        if p(last) {
            assert(after == before.push(last));
            assert(after[before.len() as int] == last);
            assert forall|i: int|
                0 <= i < entries.len() && (#[trigger] entries[i]).1@.owner
                    == owner implies after.contains(entries[i]) by {
                if i < init.len() {
                    assert(init[i] == entries[i]);
                    let k = choose|k: int| 0 <= k < before.len() && before[k] == init[i];
                    assert(after[k] == entries[i]);
                }
            }
        } else {
            assert(after == before);
            assert forall|i: int|
                0 <= i < entries.len() && (#[trigger] entries[i]).1@.owner
                    == owner implies after.contains(entries[i]) by {
                assert(init[i] == entries[i]);
            }
        }
    }
}

proof fn lemma_taken_owned<T>(
    entries: Seq<(String, OwnedOperation<T>)>,
    owner: Option<Seq<char>>,
)
    requires
        ascending(entries),
    ensures
        ascending(owned_entries(entries, owner)),
        keys_taken(owned_entries(entries, owner)) == owned_by(taken(entries), owner),
        taken(owned_entries(entries, owner)) == taken(entries).restrict(
            owned_by(taken(entries), owner),
        ),
{
    let r = owned_entries(entries, owner);
    let all = taken(entries);
    let owned = owned_by(all, owner);
    lemma_owned_entries(entries, owner);
    assert forall|id: Seq<char>| keys_taken(r).contains(id) implies owned.contains(id) && taken(
        r,
    )[id] == all[id] by {
        let j = choose|j: int| 0 <= j < r.len() && (#[trigger] r[j]).0@ == id;
        let k = choose|k: int| 0 <= k < entries.len() && entries[k] == r[j];
        assert(entries[k].0@ == id);
        lemma_key_index(entries, k);
        lemma_key_index(r, j);
    }
    assert forall|id: Seq<char>| owned.contains(id) implies keys_taken(r).contains(id) by {
        let k = choose|k: int| 0 <= k < entries.len() && (#[trigger] entries[k]).0@ == id;
        lemma_key_index(entries, k);
        assert(r.contains(entries[k]));
        let j = choose|j: int| 0 <= j < r.len() && r[j] == entries[k];
        assert(r[j].0@ == id);
    }
    assert(keys_taken(r) =~= owned);
    assert(taken(r).dom() =~= keys_taken(r));
    assert(taken(r) =~= all.restrict(owned));
}

impl<T> OwnedOperations<T> {
    /// How many operations may be active.
    pub closed spec fn spec_limits(&self) -> OperationLimits {
        self.limits
    }

    /// No operation is active.
    pub fn new(limits: OperationLimits) -> (operations: Self)
        ensures
            operations@ == ActiveModel::<T>::empty(),
            operations.spec_limits() == limits,
    {
        let operations = OwnedOperations { active: SortedMap::new(), limits };
        assert(operations@ =~= ActiveModel::<T>::empty());
        operations
    }

    /// How many operations an owner has.
    fn count_owned(&self, owner: Option<&str>) -> (n: usize)
        ensures
            n == owned_by(self@, optional_str(owner)).len(),
            owned_by(self@, optional_str(owner)).finite(),
    {
        let length: usize = self.active.len();
        let ghost entries = self.active.in_order();
        let ghost named = optional_str(owner);
        let mut n: usize = 0;
        let mut i: usize = 0;
        assert(owned_keys(entries, named, 0) =~= Set::empty());
        while i < length
            invariant
                i <= length == entries.len(),
                entries == self.active.in_order(),
                ascending(entries),
                named == optional_str(owner),
                n <= i,
                owned_keys(entries, named, i as int).finite(),
                n == owned_keys(entries, named, i as int).len(),
            decreases length - i,
        {
            proof {
                lemma_owned_keys_step(entries, named, i as int);
            }
            if same_optional_text(&self.active.value_at(i).owner, owner) {
                n += 1;
            }
            i += 1;
        }
        proof {
            lemma_owned_keys_all(entries, named);
        }
        n
    }

    /// Whether there is room for another operation of an owner.
    pub fn check_admission(&self, owner: Option<&str>) -> (r: Result<(), OperationAdmissionError>)
        ensures
            r == admission(self@, optional_str(owner), self.spec_limits()),
    {
        let length: usize = self.active.len();
        assert(self@.dom() =~= self.active@.dom());
        if length >= self.limits.total || self.count_owned(owner) >= self.limits.per_owner {
            Err(OperationAdmissionError::Full)
        } else {
            Ok(())
        }
    }

    /// Adds an operation, if its identifier is free and there is room for it.
    pub fn insert(&mut self, id: String, owner: Option<String>, value: T) -> (r: Result<
        (),
        OperationAdmissionError,
    >)
        ensures
            final(self).spec_limits() == old(self).spec_limits(),
            r == insertion(old(self)@, id@, optional_text(owner), old(self).spec_limits()),
            final(self)@ == if r is Ok {
                with_operation(old(self)@, id@, optional_text(owner), value)
            } else {
                old(self)@
            },
    {
        if self.active.contains_key(id.as_str()) {
            return Err(OperationAdmissionError::DuplicateId);
        }
        match self.check_admission(borrow_optional(&owner)) {
            Ok(()) => {},
            Err(error) => return Err(error),
        }
        let operation = OwnedOperation { owner, value };
        self.active.insert(id, operation);
        assert(self@ =~= old(self)@.insert(id@, operation@));
        Ok(())
    }

    /// Whether an identifier is in use.
    pub fn contains(&self, id: &str) -> (r: bool)
        ensures
            r == self@.contains_key(id@),
    {
        self.active.contains_key(id)
    }

    /// The operation with an identifier.
    pub fn get(&self, id: &str) -> (r: Option<&OwnedOperation<T>>)
        ensures
            match r {
                Some(operation) => self@.contains_key(id@) && operation@ == self@[id@],
                None => !self@.contains_key(id@),
            },
    {
        self.active.get(id)
    }

    /// The operation with an identifier, if the owner is its owner.
    pub fn get_owned(&self, id: &str, owner: Option<&str>) -> (r: Option<&T>)
        ensures
            r == (if owned_by(self@, optional_str(owner)).contains(id@) {
                Some(&self@[id@].value)
            } else {
                None
            }),
    {
        match self.active.get(id) {
            Some(operation) => if same_optional_text(&operation.owner, owner) {
                Some(&operation.value)
            } else {
                None
            },
            None => None,
        }
    }

    /// The operation with an identifier, to be changed.
    pub fn get_mut(&mut self, id: &str) -> (r: Option<&mut T>)
        ensures
            final(self).spec_limits() == old(self).spec_limits(),
            match r {
                Some(value) => {
                    &&& old(self)@.contains_key(id@)
                    &&& *value == old(self)@[id@].value
                    &&& final(self)@ == with_operation(
                        old(self)@,
                        id@,
                        old(self)@[id@].owner,
                        *final(value),
                    )
                },
                None => !old(self)@.contains_key(id@) && final(self)@ == old(self)@,
            },
    {
        match self.active.get_mut(id) {
            Some(operation) => Some(&mut operation.value),
            None => None,
        }
    }

    /// Removes an operation and hands it back.
    pub fn claim(&mut self, id: &str) -> (r: Option<OwnedOperation<T>>)
        ensures
            final(self).spec_limits() == old(self).spec_limits(),
            final(self)@ == without_operation(old(self)@, id@),
            match r {
                Some(operation) => old(self)@.contains_key(id@) && operation@ == old(self)@[id@],
                None => !old(self)@.contains_key(id@),
            },
    {
        let r = self.active.remove(id);
        assert(self@ =~= old(self)@.remove(id@));
        r
    }

    /// Removes an operation and hands it back, if the owner is its owner.
    pub fn claim_owned(&mut self, id: &str, owner: Option<&str>) -> (r: Option<OwnedOperation<T>>)
        ensures
            final(self).spec_limits() == old(self).spec_limits(),
            final(self)@ == claimed(old(self)@, id@, optional_str(owner)),
            match r {
                Some(operation) => owned_by(old(self)@, optional_str(owner)).contains(id@)
                    && operation@ == old(self)@[id@],
                None => !owned_by(old(self)@, optional_str(owner)).contains(id@),
            },
    {
        if self.get_owned(id, owner).is_none() {
            return None;
        }
        self.claim(id)
    }

    /// Removes the operations of an owner and hands them back, in order of their
    /// identifiers.
    pub fn take_owned(&mut self, owner: Option<&str>) -> (r: Vec<(String, OwnedOperation<T>)>)
        ensures
            final(self).spec_limits() == old(self).spec_limits(),
            final(self)@ == without_owner(old(self)@, optional_str(owner)),
            ascending(r@),
            taken(r@) == of_owner(old(self)@, optional_str(owner)),
    {
        let ghost all = self.active@;
        let ghost named = optional_str(owner);
        let mut length: usize = self.active.len();
        let ghost entries = self.active.in_order();
        let mut r: Vec<(String, OwnedOperation<T>)> = Vec::new();
        let ghost mut kept: Seq<(String, OwnedOperation<T>)> = Seq::empty();
        let ghost mut t: int = 0;
        let ghost limits = self.spec_limits();
        let mut i: usize = 0;
        assert(kept + entries.skip(0) =~= entries);
        assert(r@ =~= owned_entries(entries.take(0), named)) by {
            reveal(Seq::filter);
        }
        assert(all.remove_keys(keys_taken(r@)) =~= all);
        while i < length
            invariant
                0 <= t <= entries.len(),
                i == kept.len(),
                length == i + (entries.len() - t),
                self.active.in_order() == kept + entries.skip(t),
                self.active@ == all.remove_keys(keys_taken(r@)),
                self.spec_limits() == limits,
                ascending(entries),
                named == optional_str(owner),
                r@ == owned_entries(entries.take(t), named),
            decreases length - i,
        {
            let ghost now = self.active.in_order();
            let ghost before = r@;
            proof {
                assert(now[i as int] == entries.skip(t)[0]);
                assert(entries.skip(t)[0] == entries[t]);
                assert(entries.take(t + 1) =~= entries.take(t).push(entries[t]));
                entries.take(t).lemma_filter_push(
                    entries[t],
                    |entry: (String, OwnedOperation<T>)| entry.1@.owner == named,
                );
            }
            if same_optional_text(&self.active.value_at(i).owner, owner) {
                let entry = self.active.remove_at(i);
                r.push(entry);
                proof {
                    assert(self.active.in_order() =~= kept + entries.skip(t + 1));
                    lemma_keys_taken_push(before, entry);
                    assert(self.active@ =~= all.remove_keys(keys_taken(r@)));
                    t = t + 1;
                }
                length -= 1;
            } else {
                proof {
                    assert(kept.push(entries[t]) + entries.skip(t + 1) =~= now);
                    kept = kept.push(entries[t]);
                    t = t + 1;
                }
                i += 1;
            }
        }
        proof {
            assert(t == entries.len());
            assert(old(self)@ == taken(entries));
            assert(entries.take(t) =~= entries);
            lemma_taken_owned(entries, named);
            assert(self@ =~= old(self)@.remove_keys(keys_taken(r@)));
        }
        r
    }

    /// Removes all operations and hands them back, in order of their identifiers.
    pub fn take_all(&mut self) -> (r: Vec<(String, OwnedOperation<T>)>)
        ensures
            final(self).spec_limits() == old(self).spec_limits(),
            final(self)@ == ActiveModel::<T>::empty(),
            ascending(r@),
            taken(r@) == old(self)@,
    {
        let ghost all = self.active@;
        let length: usize = self.active.len();
        let ghost entries = self.active.in_order();
        let ghost limits = self.spec_limits();
        let mut r: Vec<(String, OwnedOperation<T>)> = Vec::new();
        let mut i: usize = 0;
        assert(entries.skip(0) =~= entries);
        while i < length
            invariant
                i <= length == entries.len(),
                self.active.in_order() == entries.skip(i as int),
                self.spec_limits() == limits,
                r@ == entries.take(i as int),
            decreases length - i,
        {
            let ghost now = self.active.in_order();
            assert(now[0] == entries[i as int]);
            let entry = self.active.remove_at(0);
            assert(now.remove(0) =~= entries.skip(i + 1));
            assert(entries.take(i + 1) =~= entries.take(i as int).push(entry));
            r.push(entry);
            i += 1;
        }
        let left: usize = self.active.len();
        proof {
            assert(r@ =~= entries);
            assert(left == 0);
            assert(self.active@.dom() =~= Set::empty());
            assert(self@ =~= ActiveModel::<T>::empty());
            assert(taken(r@) =~= old(self)@);
        }
        r
    }

    /// How many operations are active.
    pub fn len(&self) -> (n: usize)
        ensures
            n == self@.dom().len(),
            self@.dom().finite(),
    {
        assert(self@.dom() =~= self.active@.dom());
        self.active.len()
    }

    /// The operations with their identifiers, each once, in order of the identifiers.
    pub fn iter(&self) -> (r: Vec<(&String, &OwnedOperation<T>)>)
        ensures
            r@.len() == self@.dom().len(),
            forall|i: int|
                0 <= i < r@.len() ==> self@.contains_key((#[trigger] r@[i]).0@) && self@[r@[i].0@]
                    == r@[i].1@,
            forall|i: int, j: int|
                0 <= i < j < r@.len() ==> precedes(
                    (#[trigger] r@[i]).0@,
                    (#[trigger] r@[j]).0@,
                ),
    {
        let length: usize = self.active.len();
        let ghost entries = self.active.in_order();
        assert(self@.dom() =~= self.active@.dom());
        let mut r: Vec<(&String, &OwnedOperation<T>)> = Vec::new();
        let mut i: usize = 0;
        while i < length
            invariant
                i <= length == entries.len(),
                entries == self.active.in_order(),
                r@.len() == i,
                forall|j: int|
                    0 <= j < i ==> *(#[trigger] r@[j]).0 == entries[j].0 && self@.contains_key(
                        r@[j].0@,
                    ) && self@[r@[j].0@] == r@[j].1@,
            decreases length - i,
        {
            let key = self.active.key_at(i);
            let value = self.active.value_at(i);
            assert(self@[key@] == value@);
            r.push((key, value));
            i += 1;
        }
        r
    }
}

/// Whether the active operations are within the limits.
pub open spec fn within_limits<T>(active: ActiveModel<T>, limits: OperationLimits) -> bool {
    &&& active.dom().finite()
    &&& active.dom().len() <= limits.total
    &&& forall|owner: Option<Seq<char>>|
        (#[trigger] owned_by(active, owner)).len() <= limits.per_owner
}

/// Admission keeps the limits, in total and of every owner.
pub proof fn admission_keeps_limits<T>(
    active: ActiveModel<T>,
    limits: OperationLimits,
    id: Seq<char>,
    operation: OperationModel<T>,
)
    requires
        within_limits(active, limits),
        !active.contains_key(id),
        !full(active, operation.owner, limits),
    ensures
        within_limits(active.insert(id, operation), limits),
{
    let after = active.insert(id, operation);
    assert(after.dom() =~= active.dom().insert(id));
    assert forall|owner: Option<Seq<char>>|
        (#[trigger] owned_by(after, owner)).len() <= limits.per_owner by {
        let before = owned_by(active, owner);
        assert(before.finite());
        if operation.owner == owner {
            assert(owned_by(after, owner) =~= before.insert(id));
        } else {
            assert(owned_by(after, owner) =~= before);
        }
    }
}

/// An operation that was inserted is found by its owner and by nobody else, and changes
/// nothing for the others.
pub proof fn inserted_operations_are_found<T>(
    active: ActiveModel<T>,
    id: Seq<char>,
    operation: OperationModel<T>,
    owner: Option<Seq<char>>,
    other: Seq<char>,
)
    ensures
        owned_by(active.insert(id, operation), owner).contains(id) == (operation.owner == owner),
        active.insert(id, operation)[id] == operation,
        other != id ==> owned_by(active.insert(id, operation), owner).contains(other) == owned_by(
            active,
            owner,
        ).contains(other),
{
}

/// Owners do not share operations; those without an owner have a share of their own.
pub proof fn owners_are_separate<T>(
    active: ActiveModel<T>,
    a: Option<Seq<char>>,
    b: Option<Seq<char>>,
)
    requires
        a != b,
    ensures
        owned_by(active, a).disjoint(owned_by(active, b)),
{
}

/// Operations that leave, for whatever reason, keep the limits.
pub proof fn removal_keeps_limits<T>(
    active: ActiveModel<T>,
    limits: OperationLimits,
    gone: Set<Seq<char>>,
)
    requires
        within_limits(active, limits),
    ensures
        within_limits(active.remove_keys(gone), limits),
{
    let after = active.remove_keys(gone);
    vstd::set_lib::lemma_len_subset(after.dom(), active.dom());
    assert forall|owner: Option<Seq<char>>|
        (#[trigger] owned_by(after, owner)).len() <= limits.per_owner by {
        let before = owned_by(active, owner);
        assert(before.finite());
        assert(owned_by(after, owner).subset_of(before));
        vstd::set_lib::lemma_len_subset(owned_by(after, owner), before);
    }
}

/// Writing to an operation that is there keeps the limits, and what each owner has.
pub proof fn writing_keeps_limits<T>(
    active: ActiveModel<T>,
    limits: OperationLimits,
    id: Seq<char>,
    value: T,
    owner: Option<Seq<char>>,
)
    requires
        within_limits(active, limits),
        active.contains_key(id),
    ensures
        ({
            let written = OperationModel { owner: active[id].owner, value };
            &&& within_limits(active.insert(id, written), limits)
            &&& owned_by(active.insert(id, written), owner) == owned_by(active, owner)
        }),
{
    let after = active.insert(id, OperationModel { owner: active[id].owner, value });
    assert(after.dom() =~= active.dom());
    assert forall|any: Option<Seq<char>>| #[trigger]
        owned_by(after, any) == owned_by(active, any) by {
        assert(owned_by(after, any) =~= owned_by(active, any));
    }
}

/// To claim an operation keeps the limits, makes room for its owner, and leaves
/// nothing to claim again.
pub proof fn claims_have_one_winner<T>(
    active: ActiveModel<T>,
    limits: OperationLimits,
    id: Seq<char>,
)
    requires
        within_limits(active, limits),
        active.contains_key(id),
    ensures
        within_limits(active.remove(id), limits),
        !active.remove(id).contains_key(id),
        !full(active.remove(id), active[id].owner, limits),
{
    let after = active.remove(id);
    let mine = active[id].owner;
    assert(after.dom() =~= active.dom().remove(id));
    assert(owned_by(active, mine).contains(id));
    assert forall|owner: Option<Seq<char>>|
        (#[trigger] owned_by(after, owner)).len() <= limits.per_owner by {
        let before = owned_by(active, owner);
        assert(before.finite());
        assert(owned_by(after, owner) =~= before.remove(id));
    }
    assert(owned_by(after, mine) =~= owned_by(active, mine).remove(id));
    assert(owned_by(active, mine).finite());
    assert(owned_by(active, mine).len() <= limits.per_owner);
}

/// An instant of the monotonic clock.
#[verifier::external_type_specification]
#[verifier::external_body]
pub struct ExInstant(std::time::Instant);

/// `Instant::now` reads the monotonic clock. Nothing is claimed of the instant.
pub assume_specification[ Instant::now ]() -> Instant
;

/// The time from one instant to a later one, or none if it is earlier.
pub uninterp spec fn span_between(earlier: Instant, later: Instant) -> Duration;

/// `Instant::saturating_duration_since` gives the time between two instants, or zero
/// if they are the other way round, which depends on the two instants alone.
pub assume_specification[ Instant::saturating_duration_since ](
    later: &Instant,
    earlier: Instant,
) -> (span: Duration)
    ensures
        span == span_between(earlier, *later),
;

/// The length of a span of time in nanoseconds.
pub uninterp spec fn nanos_of(span: Duration) -> u128;

/// `Duration::as_nanos` gives the length of a span of time in nanoseconds.
pub assume_specification[ Duration::as_nanos ](span: &Duration) -> (nanos: u128)
    ensures
        nanos == nanos_of(*span),
;

/// The time from one instant to a later one in nanoseconds, or zero if it is earlier.
pub open spec fn nanos_between(earlier: Instant, later: Instant) -> u128 {
    nanos_of(span_between(earlier, later))
}

/// A finished operation, and when it was recorded.
#[derive(Debug, PartialEq)]
struct Finished<T> {
    id: String,
    owner: Option<String>,
    value: T,
    recorded: u128,
}

/// A finished operation, and when it was recorded.
#[verifier::ext_equal]
pub struct FinishedModel<T> {
    pub id: Seq<char>,
    pub owner: Option<Seq<char>>,
    pub value: T,
    pub recorded: u128,
}

impl<T> View for Finished<T> {
    type V = FinishedModel<T>;

    closed spec fn view(&self) -> FinishedModel<T> {
        FinishedModel {
            id: self.id@,
            owner: optional_text(self.owner),
            value: self.value,
            recorded: self.recorded,
        }
    }
}

/// How long ago something was recorded.
pub open spec fn age(now: u128, recorded: u128) -> int {
    if now < recorded {
        0
    } else {
        now - recorded
    }
}

/// Whether a result is younger than the time for which results are kept.
pub open spec fn fresh<T>(result: FinishedModel<T>, retention: Option<u128>, now: u128) -> bool {
    match retention {
        Some(retention) => age(now, result.recorded) < retention,
        None => true,
    }
}

/// The results that are still kept.
pub open spec fn pruned<T>(
    results: Seq<FinishedModel<T>>,
    retention: Option<u128>,
    now: u128,
) -> Seq<FinishedModel<T>> {
    results.filter(|result: FinishedModel<T>| fresh(result, retention, now))
}

/// The last results, up to a limit.
pub open spec fn newest<T>(
    results: Seq<FinishedModel<T>>,
    limit: nat,
) -> Seq<FinishedModel<T>> {
    if results.len() > limit {
        results.skip(results.len() - limit)
    } else {
        results
    }
}

/// The results without the one of an operation.
pub open spec fn without_id<T>(
    results: Seq<FinishedModel<T>>,
    id: Seq<char>,
) -> Seq<FinishedModel<T>> {
    results.filter(|result: FinishedModel<T>| result.id != id)
}

/// The results once another one was recorded, in place of an earlier one of the same
/// operation.
pub open spec fn with_result<T>(
    results: Seq<FinishedModel<T>>,
    retention: Option<u128>,
    limit: nat,
    result: FinishedModel<T>,
) -> Seq<FinishedModel<T>> {
    newest(
        without_id(pruned(results, retention, result.recorded), result.id).push(result),
        limit,
    )
}

/// The first result of an operation that its owner asks for.
pub open spec fn result_for<T>(
    results: Seq<FinishedModel<T>>,
    id: Seq<char>,
    owner: Option<Seq<char>>,
) -> Option<T>
    decreases results.len(),
{
    if results.len() == 0 {
        None
    } else if results[0].id == id && results[0].owner == owner {
        Some(results[0].value)
    } else {
        result_for(results.drop_first(), id, owner)
    }
}

/// Whether no operation has two results.
pub open spec fn one_result_each<T>(results: Seq<FinishedModel<T>>) -> bool {
    forall|i: int, j: int|
        0 <= i < j < results.len() ==> (#[trigger] results[i]).id != (#[trigger] results[j]).id
}

/// The results of recent operations, up to a limit, for a time. Times are nanoseconds
/// since the list was made.
pub struct RecentResults<T> {
    entries: Vec<Finished<T>>,
    limit: usize,
    retention: Option<u128>,
    made: Instant,
}

impl<T> View for RecentResults<T> {
    type V = Seq<FinishedModel<T>>;

    /// The results, oldest first.
    closed spec fn view(&self) -> Seq<FinishedModel<T>> {
        self.entries@.map_values(|entry: Finished<T>| entry@)
    }
}

impl<T> RecentResults<T> {
    /// How many results are kept at most.
    pub closed spec fn spec_limit(&self) -> nat {
        self.limit as nat
    }

    /// For how long results are kept, in nanoseconds.
    pub closed spec fn spec_retention(&self) -> Option<u128> {
        self.retention
    }

    /// When the list was made.
    pub closed spec fn spec_made(&self) -> Instant {
        self.made
    }

    /// Whether only the results changed.
    pub open spec fn same_policy(&self, other: Self) -> bool {
        &&& self.spec_limit() == other.spec_limit()
        &&& self.spec_retention() == other.spec_retention()
        &&& self.spec_made() == other.spec_made()
    }

    /// No result is known.
    pub fn new(limit: usize, retention: Option<Duration>) -> (results: Self)
        ensures
            results@ == Seq::<FinishedModel<T>>::empty(),
            results.spec_limit() == limit,
            results.spec_retention() == match retention {
                Some(retention) => Some(nanos_of(retention)),
                None => None,
            },
            call_ensures(Instant::now, (), results.spec_made()),
    {
        let retention = match retention {
            Some(retention) => Some(retention.as_nanos()),
            None => None,
        };
        let results = RecentResults { entries: Vec::new(), limit, retention, made: Instant::now() };
        assert(results@ =~= Seq::<FinishedModel<T>>::empty());
        results
    }

    /// The time of an instant, since the list was made.
    fn time_of(&self, now: Instant) -> (nanos: u128)
        ensures
            nanos == nanos_between(self.spec_made(), now),
    {
        now.saturating_duration_since(self.made).as_nanos()
    }

    /// Drops the results that are too old at a time.
    pub fn prune_at(&mut self, now: u128)
        ensures
            final(self)@ == pruned(old(self)@, old(self).spec_retention(), now),
            final(self).same_policy(*old(self)),
    {
        let ghost keep = |result: FinishedModel<T>| fresh(result, self.retention, now);
        let ghost all = self@;
        let retention = match self.retention {
            Some(retention) => retention,
            None => {
                proof {
                    assert forall|i: int| 0 <= i < all.len() implies keep(#[trigger] all[i]) by {}
                    lemma_filter_keeps_all(all, keep);
                }
                return;
            },
        };
        let mut entries: Vec<Finished<T>> = Vec::new();
        std::mem::swap(&mut entries, &mut self.entries);
        let ghost before = entries@;
        let mut kept: Vec<Finished<T>> = Vec::new();
        assert(all.take(0).filter(keep) =~= Seq::empty()) by {
            reveal(Seq::filter);
        }
        assert(finished_models(kept@) =~= Seq::empty());
        for entry in it: entries
            invariant
                it.seq() == before,
                all == finished_models(before),
                keep == (|result: FinishedModel<T>| fresh(result, Some(retention), now)),
                finished_models(kept@) == all.take(it.index()).filter(keep),
        {
            proof {
                let i = it.index();
                assert(all[i] == entry@);
                assert(all.take(i + 1) =~= all.take(i).push(entry@));
                all.take(i).lemma_filter_push(entry@, keep);
            }
            let ghost so_far = finished_models(kept@);
            let young = if now < entry.recorded {
                0 < retention
            } else {
                now - entry.recorded < retention
            };
            if young {
                kept.push(entry);
                assert(finished_models(kept@) =~= so_far.push(entry@));
            }
        }
        assert(all.take(all.len() as int) =~= all);
        self.entries = kept;
        assert(self@ =~= finished_models(kept@));
    }

    /// Records the result of an operation at a time.
    pub fn record_at(&mut self, id: String, owner: Option<String>, value: T, now: u128)
        ensures
            final(self)@ == with_result(
                old(self)@,
                old(self).spec_retention(),
                old(self).spec_limit(),
                FinishedModel { id: id@, owner: optional_text(owner), value, recorded: now },
            ),
            final(self).same_policy(*old(self)),
    {
        self.prune_at(now);
        let ghost all = self@;
        let ghost keep = |result: FinishedModel<T>| result.id != id@;
        let mut entries: Vec<Finished<T>> = Vec::new();
        std::mem::swap(&mut entries, &mut self.entries);
        let ghost before = entries@;
        let mut kept: Vec<Finished<T>> = Vec::new();
        assert(all.take(0).filter(keep) =~= Seq::empty()) by {
            reveal(Seq::filter);
        }
        assert(finished_models(kept@) =~= Seq::empty());
        for entry in it: entries
            invariant
                it.seq() == before,
                all == finished_models(before),
                keep == (|result: FinishedModel<T>| result.id != id@),
                finished_models(kept@) == all.take(it.index()).filter(keep),
        {
            proof {
                let i = it.index();
                assert(all[i] == entry@);
                assert(all.take(i + 1) =~= all.take(i).push(entry@));
                all.take(i).lemma_filter_push(entry@, keep);
            }
            let ghost so_far = finished_models(kept@);
            if !same_text(entry.id.as_str(), id.as_str()) {
                kept.push(entry);
                assert(finished_models(kept@) =~= so_far.push(entry@));
            }
        }
        assert(all.take(all.len() as int) =~= all);
        let entry = Finished { id, owner, value, recorded: now };
        let ghost others = finished_models(kept@);
        kept.push(entry);
        let ghost full = finished_models(kept@);
        assert(full =~= others.push(entry@));
        let limit = self.limit;
        assert(full.skip(0) =~= full);
        while kept.len() > limit
            invariant
                full.len() >= kept@.len(),
                kept@.len() >= limit || kept@.len() == full.len(),
                finished_models(kept@) == full.skip(full.len() - kept@.len()),
            decreases kept.len(),
        {
            let ghost n = full.len() - kept@.len();
            let ghost now_kept = finished_models(kept@);
            kept.remove(0);
            assert(finished_models(kept@) =~= now_kept.drop_first());
            assert(now_kept.drop_first() =~= full.skip(n + 1));
        }
        self.entries = kept;
        assert(self@ =~= finished_models(kept@));
    }

    /// Records the result of an operation.
    pub fn record(&mut self, id: String, owner: Option<String>, value: T)
        ensures
            exists|now: Instant|
                call_ensures(Instant::now, (), now) && final(self)@ == with_result(
                    old(self)@,
                    old(self).spec_retention(),
                    old(self).spec_limit(),
                    FinishedModel {
                        id: id@,
                        owner: optional_text(owner),
                        value,
                        recorded: #[trigger] nanos_between(old(self).spec_made(), now),
                    },
                ),
            final(self).same_policy(*old(self)),
    {
        let now: u128 = self.time_of(Instant::now());
        self.record_at(id, owner, value, now);
    }

    /// The result of an operation that its owner asks for at a time.
    pub fn get_owned_at(&mut self, id: &str, owner: Option<&str>, now: u128) -> (r: Option<&T>)
        ensures
            final(self)@ == pruned(old(self)@, old(self).spec_retention(), now),
            final(self).same_policy(*old(self)),
            match r {
                Some(value) => result_for(final(self)@, id@, optional_str(owner)) == Some(*value),
                None => result_for(final(self)@, id@, optional_str(owner)) is None,
            },
    {
        self.prune_at(now);
        let ghost all = self@;
        assert(all.skip(0) =~= all);
        let mut i: usize = 0;
        while i < self.entries.len()
            invariant
                i <= self.entries.len(),
                all == self@,
                all == pruned(old(self)@, old(self).spec_retention(), now),
                self.same_policy(*old(self)),
                result_for(all, id@, optional_str(owner)) == result_for(
                    all.skip(i as int),
                    id@,
                    optional_str(owner),
                ),
            decreases self.entries.len() - i,
        {
            let entry = &self.entries[i];
            assert(all.skip(i as int)[0] == entry@);
            assert(all.skip(i as int).drop_first() =~= all.skip(i + 1));
            if same_text(entry.id.as_str(), id) && same_optional_text(&entry.owner, owner) {
                return Some(&self.entries[i].value);
            }
            i += 1;
        }
        None
    }

    /// The result of an operation that its owner asks for.
    pub fn get_owned(&mut self, id: &str, owner: Option<&str>) -> (r: Option<&T>)
        ensures
            exists|now: Instant|
                call_ensures(Instant::now, (), now) && final(self)@ == pruned(
                    old(self)@,
                    old(self).spec_retention(),
                    #[trigger] nanos_between(old(self).spec_made(), now),
                ),
            final(self).same_policy(*old(self)),
            match r {
                Some(value) => result_for(final(self)@, id@, optional_str(owner)) == Some(*value),
                None => result_for(final(self)@, id@, optional_str(owner)) is None,
            },
    {
        let now: u128 = self.time_of(Instant::now());
        self.get_owned_at(id, owner, now)
    }

    /// The values of the results at a time, oldest first.
    pub fn values_at(&mut self, now: u128) -> (r: Vec<&T>)
        ensures
            final(self)@ == pruned(old(self)@, old(self).spec_retention(), now),
            final(self).same_policy(*old(self)),
            r@.len() == final(self)@.len(),
            forall|i: int| 0 <= i < r@.len() ==> *(#[trigger] r@[i]) == final(self)@[i].value,
    {
        self.prune_at(now);
        let mut r: Vec<&T> = Vec::new();
        let mut i: usize = 0;
        while i < self.entries.len()
            invariant
                i <= self.entries.len(),
                r@.len() == i,
                forall|j: int| 0 <= j < i ==> *(#[trigger] r@[j]) == self@[j].value,
            decreases self.entries.len() - i,
        {
            assert(self@[i as int] == self.entries@[i as int]@);
            r.push(&self.entries[i].value);
            i += 1;
        }
        r
    }

    /// The values of the results, oldest first.
    pub fn values(&mut self) -> (r: Vec<&T>)
        ensures
            exists|now: Instant|
                call_ensures(Instant::now, (), now) && final(self)@ == pruned(
                    old(self)@,
                    old(self).spec_retention(),
                    #[trigger] nanos_between(old(self).spec_made(), now),
                ),
            final(self).same_policy(*old(self)),
            r@.len() == final(self)@.len(),
            forall|i: int| 0 <= i < r@.len() ==> *(#[trigger] r@[i]) == final(self)@[i].value,
    {
        let now: u128 = self.time_of(Instant::now());
        self.values_at(now)
    }

    /// Drops the results that are too old at an instant.
    pub fn prune(&mut self, now: Instant)
        ensures
            final(self)@ == pruned(
                old(self)@,
                old(self).spec_retention(),
                nanos_between(old(self).spec_made(), now),
            ),
            final(self).same_policy(*old(self)),
    {
        let now: u128 = self.time_of(now);
        self.prune_at(now);
    }

    /// Whether no result is kept.
    pub fn is_empty(&self) -> (r: bool)
        ensures
            r == (self@.len() == 0),
    {
        self.entries.len() == 0
    }
}

spec fn finished_models<T>(entries: Seq<Finished<T>>) -> Seq<FinishedModel<T>> {
    entries.map_values(|entry: Finished<T>| entry@)
}

proof fn lemma_filter_keeps_all<A>(all: Seq<A>, keep: spec_fn(A) -> bool)
    requires
        forall|i: int| 0 <= i < all.len() ==> keep(#[trigger] all[i]),
    ensures
        all.filter(keep) == all,
    decreases all.len(),
{
    reveal(Seq::filter);
    if all.len() > 0 {
        lemma_filter_keeps_all(all.drop_last(), keep);
        assert(all =~= all.drop_last().push(all.last()));
    }
}

proof fn lemma_filter_distinct<T>(
    results: Seq<FinishedModel<T>>,
    keep: spec_fn(FinishedModel<T>) -> bool,
)
    requires
        one_result_each(results),
    ensures
        one_result_each(results.filter(keep)),
        forall|i: int|
            0 <= i < results.filter(keep).len() ==> results.contains(
                #[trigger] results.filter(keep)[i],
            ) && keep(results.filter(keep)[i]),
        results.filter(keep).len() <= results.len(),
    decreases results.len(),
{
    reveal(Seq::filter);
    if results.len() > 0 {
        let init = results.drop_last();
        let last = results.last();
        lemma_filter_distinct(init, keep);
        let kept = results.filter(keep);
        let before = init.filter(keep);
        assert forall|i: int| 0 <= i < before.len() implies (#[trigger] before[i]).id != last.id
            && results.contains(before[i]) by {
            let j = choose|j: int| 0 <= j < init.len() && init[j] == before[i];
            assert(results[j] == before[i]);
            assert(results[results.len() - 1] == last);
        }
        assert(results.contains(last)) by {
            assert(results[results.len() - 1] == last);
        }
    }
}

/// The list stays within its limit and holds one result of an operation at most,
/// whatever is recorded or dropped.
pub proof fn results_are_bounded_and_replaced<T>(
    results: Seq<FinishedModel<T>>,
    retention: Option<u128>,
    limit: nat,
    result: FinishedModel<T>,
)
    requires
        one_result_each(results),
    ensures
        with_result(results, retention, limit, result).len() <= limit,
        one_result_each(with_result(results, retention, limit, result)),
        one_result_each(pruned(results, retention, result.recorded)),
{
    let young = pruned(results, retention, result.recorded);
    lemma_filter_distinct(
        results,
        |kept: FinishedModel<T>| fresh(kept, retention, result.recorded),
    );
    lemma_filter_distinct(young, |kept: FinishedModel<T>| kept.id != result.id);
    let others = without_id(young, result.id);
    let full = others.push(result);
    assert(one_result_each(full));
    let kept = newest(full, limit);
    assert forall|i: int, j: int| 0 <= i < j < kept.len() implies (#[trigger] kept[i]).id != (
    #[trigger] kept[j]).id by {
        let n = full.len() - kept.len();
        assert(kept[i] == full[i + n] && kept[j] == full[j + n]);
    }
}

proof fn lemma_result_for_last<T>(
    results: Seq<FinishedModel<T>>,
    id: Seq<char>,
    owner: Option<Seq<char>>,
)
    requires
        one_result_each(results),
        results.len() > 0,
        results.last().id == id,
    ensures
        result_for(results, id, owner) == (if results.last().owner == owner {
            Some(results.last().value)
        } else {
            None
        }),
    decreases results.len(),
{
    let rest = results.drop_first();
    if results.len() == 1 {
        assert(rest.len() == 0);
    } else {
        assert(results[0].id != results[results.len() - 1].id);
        assert(rest.last() == results.last());
        assert forall|i: int, j: int| 0 <= i < j < rest.len() implies (#[trigger] rest[i]).id != (
        #[trigger] rest[j]).id by {
            assert(rest[i] == results[i + 1] && rest[j] == results[j + 1]);
        }
        lemma_result_for_last(rest, id, owner);
    }
}

/// A result that was just recorded is found by its owner, and by nobody else, if
/// anything is kept at all.
pub proof fn recorded_results_are_found<T>(
    results: Seq<FinishedModel<T>>,
    retention: Option<u128>,
    limit: nat,
    result: FinishedModel<T>,
    owner: Option<Seq<char>>,
)
    requires
        one_result_each(results),
        limit > 0,
    ensures
        result_for(with_result(results, retention, limit, result), result.id, owner) == (
        if result.owner == owner {
            Some(result.value)
        } else {
            None
        }),
{
    results_are_bounded_and_replaced(results, retention, limit, result);
    let kept = with_result(results, retention, limit, result);
    assert(kept.last() == result);
    lemma_result_for_last(kept, result.id, owner);
}

/// What is kept is younger than the time for which results are kept, so that nothing
/// is left once that time has passed since the last result.
pub proof fn results_expire<T>(results: Seq<FinishedModel<T>>, retention: u128, now: u128)
    ensures
        forall|i: int|
            0 <= i < pruned(results, Some(retention), now).len() ==> age(
                now,
                (#[trigger] pruned(results, Some(retention), now)[i]).recorded,
            ) < retention,
        (forall|i: int|
            0 <= i < results.len() ==> now >= (#[trigger] results[i]).recorded + retention)
            ==> pruned(results, Some(retention), now).len() == 0,
{
    let keep = |result: FinishedModel<T>| fresh(result, Some(retention), now);
    let kept = pruned(results, Some(retention), now);
    assert forall|i: int| 0 <= i < kept.len() implies age(now, (#[trigger] kept[i]).recorded)
        < retention && results.contains(kept[i]) by {
        assert(kept.contains(kept[i]));
        results.lemma_filter_contains_rev(keep, kept[i]);
        results.lemma_filter_pred(keep, i);
    }
    if kept.len() > 0 {
        assert(results.contains(kept[0]));
        let j = choose|j: int| 0 <= j < results.len() && results[j] == kept[0];
        assert(age(now, results[j].recorded) < retention);
    }
}

/// Without a time limit nothing expires.
pub proof fn results_without_retention_stay<T>(results: Seq<FinishedModel<T>>, now: u128)
    ensures
        pruned(results, None, now) == results,
{
    lemma_filter_keeps_all(results, |result: FinishedModel<T>| fresh(result, None, now));
}

/// An owner has the operations that were inserted for it, and those without an owner are
/// on their own.
pub proof fn owners_have_their_operations<T>(
    active: ActiveModel<T>,
    owner: Option<Seq<char>>,
    id: Seq<char>,
)
    ensures
        owned_by(active, owner).contains(id) <==> active.contains_key(id) && active[id].owner
            == owner,
        owned_by(active, owner).subset_of(active.dom()),
{
}

/// There is room for another operation just as long as fewer are active than may be, in
/// total and for its owner. What others own matters for the total only.
pub proof fn admission_goes_by_numbers<T>(
    active: ActiveModel<T>,
    other: ActiveModel<T>,
    owner: Option<Seq<char>>,
    limits: OperationLimits,
)
    ensures
        !full(active, owner, limits) <==> active.dom().len() < limits.total && owned_by(
            active,
            owner,
        ).len() < limits.per_owner,
        active.dom().len() == other.dom().len() && owned_by(active, owner) == owned_by(other, owner)
            ==> full(active, owner, limits) == full(other, owner, limits),
        limits.total > 0 && limits.per_owner > 0 ==> !full(
            ActiveModel::<T>::empty(),
            owner,
            limits,
        ),
{
    assert(owned_by(ActiveModel::<T>::empty(), owner) =~= Set::empty());
}

/// Operations that were taken out are those of their identifiers, each as it was.
pub proof fn taken_operations_are_as_they_were<T>(
    entries: Seq<(String, OwnedOperation<T>)>,
    i: int,
    id: Seq<char>,
)
    requires
        ascending(entries),
    ensures
        0 <= i < entries.len() ==> taken(entries).contains_key(entries[i].0@) && taken(
            entries,
        )[entries[i].0@] == (OperationModel {
            owner: optional_text(entries[i].1.owner),
            value: entries[i].1.value,
        }),
        taken(entries).contains_key(id) ==> exists|j: int|
            0 <= j < entries.len() && (#[trigger] entries[j]).0@ == id,
        taken(entries).dom().len() == entries.len(),
{
    if 0 <= i < entries.len() {
        lemma_key_index(entries, i);
    }
    crate::sorted_map::lemma_entry_map_len(entries);
    assert(taken(entries).dom() =~= entry_map(entries).dom());
}

proof fn lemma_filter_twice<A>(s: Seq<A>, p: spec_fn(A) -> bool, q: spec_fn(A) -> bool)
    ensures
        s.filter(p).filter(q) == s.filter(|x: A| p(x) && q(x)),
    decreases s.len(),
{
    let both = |x: A| p(x) && q(x);
    if s.len() > 0 {
        let init = s.drop_last();
        let last = s.last();
        lemma_filter_twice(init, p, q);
        assert(s =~= init.push(last));
        init.lemma_filter_push(last, p);
        init.lemma_filter_push(last, both);
        init.filter(p).lemma_filter_push(last, q);
    } else {
        reveal(Seq::filter);
        assert(s.filter(p).filter(q) =~= s.filter(both));
    }
}

/// Whether a result stays when another one is recorded: it is that of another operation,
/// and not as old as the time for which results are kept.
pub open spec fn survives<T>(
    earlier: FinishedModel<T>,
    retention: Option<u128>,
    result: FinishedModel<T>,
) -> bool {
    &&& earlier.id != result.id
    &&& retention matches Some(time) ==> {
        ||| earlier.recorded <= result.recorded && result.recorded - earlier.recorded < time
        ||| earlier.recorded > result.recorded && 0 < time
    }
}

/// A recorded result stands behind all earlier ones that stay: those of other operations
/// that are not too old, whoever owns them, in their order. Only where these are more
/// than may be kept, the oldest ones go, and no more than have to.
pub proof fn recording_keeps_the_others<T>(
    results: Seq<FinishedModel<T>>,
    retention: Option<u128>,
    limit: nat,
    result: FinishedModel<T>,
)
    ensures
        ({
            let kept = results.filter(
                |earlier: FinishedModel<T>| survives(earlier, retention, result),
            ).push(result);
            let after = with_result(results, retention, limit, result);
            &&& kept.len() <= limit ==> after == kept
            &&& kept.len() > limit ==> after.len() == limit && after == kept.skip(
                kept.len() - limit,
            )
        }),
{
    let young = |earlier: FinishedModel<T>| fresh(earlier, retention, result.recorded);
    let other = |earlier: FinishedModel<T>| earlier.id != result.id;
    let stays = |earlier: FinishedModel<T>| survives(earlier, retention, result);
    lemma_filter_twice(results, young, other);
    let both = |x: FinishedModel<T>| young(x) && other(x);
    assert forall|x: FinishedModel<T>| #[trigger] both(x) == stays(x) by {}
    lemma_filter_alike(results, both, stays);
}

proof fn lemma_filter_alike<A>(s: Seq<A>, p: spec_fn(A) -> bool, q: spec_fn(A) -> bool)
    requires
        forall|x: A| #[trigger] p(x) == q(x),
    ensures
        s.filter(p) == s.filter(q),
    decreases s.len(),
{
    reveal(Seq::filter);
    if s.len() > 0 {
        lemma_filter_alike(s.drop_last(), p, q);
        assert(p(s.last()) == q(s.last()));
    }
}

/// Below the limit and with nothing too old, recording puts the result behind the earlier
/// ones of all other operations.
pub proof fn recording_below_the_limit_appends<T>(
    results: Seq<FinishedModel<T>>,
    limit: nat,
    result: FinishedModel<T>,
)
    requires
        results.len() < limit,
        forall|i: int| 0 <= i < results.len() ==> (#[trigger] results[i]).id != result.id,
    ensures
        with_result(results, None, limit, result) == results.push(result),
{
    recording_keeps_the_others(results, None, limit, result);
    lemma_filter_keeps_all(
        results,
        |earlier: FinishedModel<T>| survives(earlier, None, result),
    );
}

/// A result is found by the owner that it was recorded for, under the identifier of its
/// operation, and by nobody else; an operation without a result has none.
pub proof fn results_are_found_by_their_owner<T>(
    results: Seq<FinishedModel<T>>,
    id: Seq<char>,
    owner: Option<Seq<char>>,
    k: int,
)
    requires
        one_result_each(results),
    ensures
        0 <= k < results.len() && results[k].id == id ==> result_for(results, id, owner) == (
        if results[k].owner == owner {
            Some(results[k].value)
        } else {
            None
        }),
        (forall|i: int| 0 <= i < results.len() ==> (#[trigger] results[i]).id != id) ==> result_for(
            results,
            id,
            owner,
        ) is None,
    decreases results.len(),
{
    if results.len() > 0 {
        let rest = results.drop_first();
        assert forall|i: int, j: int| 0 <= i < j < rest.len() implies (#[trigger] rest[i]).id != (
        #[trigger] rest[j]).id by {
            assert(rest[i] == results[i + 1] && rest[j] == results[j + 1]);
        }
        results_are_found_by_their_owner(rest, id, owner, k - 1);
        if k > 0 && k < results.len() {
            assert(rest[k - 1] == results[k]);
        }
        if forall|i: int| 0 <= i < results.len() ==> (#[trigger] results[i]).id != id {
            assert forall|i: int| 0 <= i < rest.len() implies (#[trigger] rest[i]).id != id by {
                assert(rest[i] == results[i + 1]);
            }
            assert(results[0].id != id);
        }
        if k == 0 && results[0].id == id && results[0].owner != owner {
            assert forall|i: int| 0 <= i < rest.len() implies (#[trigger] rest[i]).id != id by {
                assert(rest[i] == results[i + 1]);
                assert(results[0].id != results[i + 1].id);
            }
        }
        if 0 < k < results.len() && results[k].id == id {
            assert(results[0].id != results[k].id);
        }
    }
}

/// What others can ask for does not change when a result is recorded: a result of another
/// operation that is not too old is found as before, as long as it is among the newest
/// that may be kept beside the new one.
pub proof fn recorded_results_leave_the_others<T>(
    results: Seq<FinishedModel<T>>,
    retention: Option<u128>,
    limit: nat,
    result: FinishedModel<T>,
    k: int,
    owner: Option<Seq<char>>,
)
    requires
        one_result_each(results),
        0 <= k < results.len(),
        survives(results[k], retention, result),
        results.skip(k).filter(
            |earlier: FinishedModel<T>| survives(earlier, retention, result),
        ).len() < limit,
    ensures
        with_result(results, retention, limit, result).contains(results[k]),
        result_for(with_result(results, retention, limit, result), results[k].id, owner)
            == result_for(results, results[k].id, owner),
{
    let stays = |earlier: FinishedModel<T>| survives(earlier, retention, result);
    let older = results.take(k);
    let newer = results.skip(k);
    let after = with_result(results, retention, limit, result);
    let others = results.filter(stays);
    recording_keeps_the_others(results, retention, limit, result);
    assert(results =~= older + newer);
    Seq::filter_distributes_over_add(older, newer, stays);
    assert(newer =~= seq![results[k]] + newer.drop_first());
    Seq::filter_distributes_over_add(seq![results[k]], newer.drop_first(), stays);
    assert(seq![results[k]].filter(stays) =~= seq![results[k]]) by {
        reveal(Seq::filter);
        assert(seq![results[k]].drop_last() =~= Seq::empty());
    }
    let i = older.filter(stays).len() as int;
    assert(others[i] == results[k]);
    let kept = others.push(result);
    assert(kept[i] == results[k]);
    let n = if kept.len() > limit {
        kept.len() - limit
    } else {
        0
    };
    assert(n <= i);
    assert(after[i - n] == results[k]);
    results_are_bounded_and_replaced(results, retention, limit, result);
    results_are_found_by_their_owner(results, results[k].id, owner, k);
    results_are_found_by_their_owner(after, results[k].id, owner, i - n);
}

/// What is kept at a time are the results whose age is below the time for which results
/// are kept, in their order; a result of the future counts as new.
pub proof fn pruning_goes_by_age<T>(
    results: Seq<FinishedModel<T>>,
    retention: u128,
    now: u128,
    k: int,
)
    requires
        0 <= k < results.len(),
    ensures
        pruned(results, Some(retention), now).contains(results[k]) <==> (if results[k].recorded
            <= now {
            now - results[k].recorded < retention
        } else {
            0 < retention
        }),
        pruned(results.take(k), Some(retention), now) + pruned(
            results.skip(k),
            Some(retention),
            now,
        ) == pruned(results, Some(retention), now),
{
    let keep = |result: FinishedModel<T>| fresh(result, Some(retention), now);
    let kept = pruned(results, Some(retention), now);
    if keep(results[k]) {
        results.lemma_filter_contains(keep, k);
    }
    if kept.contains(results[k]) {
        let i = choose|i: int| 0 <= i < kept.len() && kept[i] == results[k];
        results.lemma_filter_pred(keep, i);
    }
    assert(results =~= results.take(k) + results.skip(k));
    Seq::filter_distributes_over_add(results.take(k), results.skip(k), keep);
}

/// As long as there is room for all of them, recording loses no result of another
/// operation that is younger than the time for which results are kept, whoever owns it.
pub proof fn young_results_stay<T>(
    results: Seq<FinishedModel<T>>,
    retention: Option<u128>,
    limit: nat,
    result: FinishedModel<T>,
    k: int,
    owner: Option<Seq<char>>,
)
    requires
        one_result_each(results),
        results.len() < limit,
        0 <= k < results.len(),
        results[k].id != result.id,
        results[k].recorded <= result.recorded,
        retention matches Some(time) ==> result.recorded - results[k].recorded < time,
    ensures
        with_result(results, retention, limit, result).contains(results[k]),
        result_for(with_result(results, retention, limit, result), results[k].id, owner)
            == result_for(results, results[k].id, owner),
{
    results.skip(k).lemma_filter_len(
        |earlier: FinishedModel<T>| survives(earlier, retention, result),
    );
    recorded_results_leave_the_others(results, retention, limit, result, k, owner);
}

/// An operation is refused for an identifier that is in use, whether there is room or not,
/// then for want of room, and accepted in all other cases.
pub proof fn insertions_are_refused_in_order<T>(
    active: ActiveModel<T>,
    id: Seq<char>,
    owner: Option<Seq<char>>,
    limits: OperationLimits,
)
    ensures
        insertion(active, id, owner, limits) == Err::<(), _>(OperationAdmissionError::DuplicateId)
            <==> active.contains_key(id),
        insertion(active, id, owner, limits) is Ok <==> !active.contains_key(id)
            && active.dom().len() < limits.total && owned_by(active, owner).len()
            < limits.per_owner,
        admission(active, owner, limits) is Ok <==> active.dom().len() < limits.total && owned_by(
            active,
            owner,
        ).len() < limits.per_owner,
        admission(active, owner, limits) is Err ==> admission(active, owner, limits) == Err::<
            (),
            _,
        >(OperationAdmissionError::Full),
{
}

/// To claim an operation removes it, if it is one of the owner's own, and nothing else.
pub proof fn claims_take_one_of_their_own<T>(
    active: ActiveModel<T>,
    id: Seq<char>,
    owner: Option<Seq<char>>,
    other: Seq<char>,
)
    ensures
        claimed(active, id, owner).contains_key(id) <==> active.contains_key(id)
            && active[id].owner != owner,
        other != id ==> claimed(active, id, owner).contains_key(other) == active.contains_key(
            other,
        ),
        claimed(active, id, owner).contains_key(other) ==> claimed(active, id, owner)[other]
            == active[other],
{
}

/// Operations are parted by their owner: those of the owner are taken, all of them, and
/// the others stay as they are.
pub proof fn operations_are_parted_by_owner<T>(
    active: ActiveModel<T>,
    owner: Option<Seq<char>>,
    id: Seq<char>,
)
    ensures
        of_owner(active, owner).contains_key(id) <==> active.contains_key(id) && active[id].owner
            == owner,
        without_owner(active, owner).contains_key(id) <==> active.contains_key(id)
            && active[id].owner != owner,
        of_owner(active, owner).contains_key(id) ==> of_owner(active, owner)[id] == active[id],
        without_owner(active, owner).contains_key(id) ==> without_owner(active, owner)[id]
            == active[id],
{
}

/// The errors say why an operation is refused.
pub proof fn operation_errors_are_told()
    ensures
        OperationAdmissionError::Full.text()
            == "too many active operations; retry after an operation finishes"@,
        OperationAdmissionError::DuplicateId.text() == "operation ID is already active"@,
{
}

/// An operation is written under its identifier, with its owner and its value, and removed
/// again by its identifier; in between and afterwards the others stay as they are.
pub proof fn operations_come_and_go_alone<T>(
    active: ActiveModel<T>,
    id: Seq<char>,
    owner: Option<Seq<char>>,
    value: T,
    other: Seq<char>,
)
    ensures
        ({
            let with = with_operation(active, id, owner, value);
            let without = without_operation(active, id);
            &&& with.contains_key(id)
            &&& with[id].owner == owner
            &&& with[id].value == value
            &&& !without.contains_key(id)
            &&& other != id ==> with.contains_key(other) == active.contains_key(other)
            &&& other != id ==> without.contains_key(other) == active.contains_key(other)
            &&& other != id && active.contains_key(other) ==> with[other] == active[other]
                && without[other] == active[other]
            &&& !active.contains_key(id) ==> without_operation(with, id) == active
        }),
{
    let with = with_operation(active, id, owner, value);
    if !active.contains_key(id) {
        assert(without_operation(with, id) =~= active);
    }
}

/// Results are kept by the same policy just where the number that may be kept, the time for
/// which they are, and the instant from which time is told are the same.
pub proof fn policies_are_kept_as_a_whole<T>(a: RecentResults<T>, b: RecentResults<T>)
    ensures
        a.same_policy(b) <==> a.spec_limit() == b.spec_limit() && a.spec_retention()
            == b.spec_retention() && a.spec_made() == b.spec_made(),
{
}

/// What is known of an operation is what it was given with.
pub proof fn operations_are_known_as_given<T>(operation: OwnedOperation<T>)
    ensures
        operation@.value == operation.value,
        operation.owner matches Some(owner) ==> operation@.owner == Some(owner@),
        operation.owner is None ==> operation@.owner is None,
{
}

} // verus!
