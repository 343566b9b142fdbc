//! Edits collected but not saved yet: the rows changed, added and deleted,
//! as a batch edit keeps them until the user saves or discards.

use crate::column::{ids_model, ColumnId, ColumnSpec};
use crate::rowsort::Cell;
use crate::state::{first_position, lemma_first_position, lemma_first_position_found};
use crate::value::{canonical, lemma_cells_equal};
use std::hash::Hash;
use vstd::prelude::*;

verus! {

/// A row of the application's data, identified by a key that stays the
/// same when the row is edited.
pub trait GridRow {
    /// What identifies a row.
    type Key: Clone + Eq + Hash;

    /// The key of this row.
    fn key(&self) -> Self::Key;
}

/// The key a row answers with.
pub trait RowKey: GridRow {
    /// The key [`GridRow::key`] gives for this row.
    spec fn row_key(&self) -> Self::Key;
}

impl<T: GridRow> RowKey for T {
    open spec fn row_key(&self) -> T::Key {
        choose|k: T::Key| call_ensures(T::key, (self,), k)
    }
}

/// Whether a row type's key is a function of the row: two calls of
/// [`GridRow::key`] on one row give the same key.
pub open spec fn keys_deterministic<T: GridRow>() -> bool {
    forall|r: &T, a: T::Key, b: T::Key| call_ensures(T::key, (r,), a) && call_ensures(T::key, (r,), b) ==> a == b
}

/// A key [`GridRow::key`] gave is the row's key.
proof fn lemma_row_key<T: GridRow>(r: &T, k: T::Key)
    requires
        keys_deterministic::<T>(),
        call_ensures(T::key, (r,), k),
    ensures
        r.row_key() == k,
{
    let c = choose|c: T::Key| call_ensures(T::key, (r,), c);
    assert(call_ensures(T::key, (r,), c));
}

/// What the change tracking needs of a row type: `==` on rows and on keys
/// is equality, and a row's key is a function of the row.
pub open spec fn row_model<T: GridRow + PartialEq>() -> bool {
    &&& vstd::laws_eq::obeys_concrete_eq::<T>()
    &&& vstd::laws_eq::obeys_concrete_eq::<T::Key>()
    &&& keys_deterministic::<T>()
}

/// The keys of a list of rows.
pub open spec fn keys_of<T: GridRow>(rows: Seq<T>) -> Seq<T::Key> {
    rows.map_values(|r: T| r.row_key())
}

/// The keys of a list of changed rows, by their originals.
pub open spec fn pair_keys_of<T: GridRow>(pairs: Seq<(T, T)>) -> Seq<T::Key> {
    pairs.map_values(|p: (T, T)| p.0.row_key())
}

/// The changed rows whose current version still differs from the
/// original, in order.
pub open spec fn still_changed<T>(pairs: Seq<(T, T)>) -> Seq<(T, T)>
    decreases pairs.len(),
{
    if pairs.len() == 0 {
        pairs
    } else {
        let rest = still_changed(pairs.drop_last());
        if pairs.last().0 != pairs.last().1 {
            rest.push(pairs.last())
        } else {
            rest
        }
    }
}

/// The rows whose key is not `key`, in order.
pub open spec fn without_key<T: GridRow>(rows: Seq<T>, key: T::Key) -> Seq<T>
    decreases rows.len(),
{
    if rows.len() == 0 {
        rows
    } else {
        let rest = without_key(rows.drop_last(), key);
        if rows.last().row_key() != key {
            rest.push(rows.last())
        } else {
            rest
        }
    }
}

/// Edits collected but not saved yet.
///
/// Each row appears at most once. Editing a row twice keeps its first
/// original; editing it back to how it was drops it; deleting a row that
/// was added drops it altogether.
#[derive(Clone, Debug, PartialEq)]
pub struct Changes<T> {
    /// Changed rows, as `(original, current)`.
    pub updated: Vec<(T, T)>,
    /// New rows.
    pub added: Vec<T>,
    /// Deleted rows, as they were before any change.
    pub deleted: Vec<T>,
}

impl<T> Default for Changes<T> {
    fn default() -> (r: Self)
        ensures
            r.updated@.len() == 0,
            r.added@.len() == 0,
            r.deleted@.len() == 0,
    {
        Changes { updated: Vec::new(), added: Vec::new(), deleted: Vec::new() }
    }
}

/// How [`Changes::update`] leaves the changes: an added row takes the new
/// version; a changed row keeps its original and takes the new version; an
/// unchanged row becomes changed unless the new version is the same; and
/// rows edited back to their original are dropped.
pub open spec fn updated_by<T: GridRow>(before: Changes<T>, original: T, current: T, after: Changes<T>) -> bool {
    let key = original.row_key();
    match first_position(keys_of(before.added@), key) {
        Some(i) => {
            &&& after.added@ == before.added@.update(i, current)
            &&& after.updated@ == before.updated@
            &&& after.deleted@ == before.deleted@
        },
        None => {
            let pairs = match first_position(pair_keys_of(before.updated@), key) {
                Some(j) => before.updated@.update(j, (before.updated@[j].0, current)),
                None => if original != current {
                    before.updated@.push((original, current))
                } else {
                    before.updated@
                },
            };
            &&& after.updated@ == still_changed(pairs)
            &&& after.added@ == before.added@
            &&& after.deleted@ == before.deleted@
        },
    }
}

/// How [`Changes::delete`] leaves the changes: an added row is dropped;
/// otherwise the row, as it was before any change, is marked deleted once.
pub open spec fn deleted_by<T: GridRow>(before: Changes<T>, row: T, after: Changes<T>) -> bool {
    let key = row.row_key();
    match first_position(keys_of(before.added@), key) {
        Some(i) => {
            &&& after.added@ == before.added@.remove(i)
            &&& after.updated@ == before.updated@
            &&& after.deleted@ == before.deleted@
        },
        None => {
            let (pairs, original) = match first_position(pair_keys_of(before.updated@), key) {
                Some(j) => (before.updated@.remove(j), before.updated@[j].0),
                None => (before.updated@, row),
            };
            &&& after.updated@ == pairs
            &&& after.added@ == before.added@
            &&& after.deleted@ == if keys_of(before.deleted@).contains(key) {
                before.deleted@
            } else {
                before.deleted@.push(original)
            }
        },
    }
}

/// How [`Changes::restore`] leaves the changes: the deletion of the row
/// with `key` is taken back.
pub open spec fn restored_by<T: GridRow>(before: Changes<T>, key: T::Key, after: Changes<T>) -> bool {
    &&& after.deleted@ == without_key(before.deleted@, key)
    &&& after.updated@ == before.updated@
    &&& after.added@ == before.added@
}

/// Where the first row with `key` is.
fn find_row<T: GridRow + PartialEq>(rows: &Vec<T>, key: &T::Key) -> (r: Option<usize>)
    requires
        row_model::<T>(),
    ensures
        match first_position(keys_of(rows@), *key) {
            Some(p) => r matches Some(j) && j as int == p,
            None => r is None,
        },
        r matches Some(j) ==> j < rows@.len(),
{
    let ghost keys = keys_of(rows@);
    let mut i: usize = 0;
    while i < rows.len()
        invariant
            i <= rows@.len(),
            row_model::<T>(),
            keys == keys_of(rows@),
            forall|j: int| 0 <= j < i ==> keys[j] != *key,
        decreases rows.len() - i,
    {
        proof {
            reveal(vstd::laws_eq::obeys_concrete_eq);
        }
        let k = rows[i].key();
        proof {
            lemma_row_key(&rows@[i as int], k);
        }
        if k == *key {
            proof {
                lemma_first_position(keys, *key, i as int);
            }
            return Some(i);
        }
        i = i + 1;
    }
    proof {
        lemma_first_position(keys, *key, i as int);
    }
    None
}

/// Where the first changed row whose original has `key` is.
fn find_pair<T: GridRow + PartialEq>(pairs: &Vec<(T, T)>, key: &T::Key) -> (r: Option<usize>)
    requires
        row_model::<T>(),
    ensures
        match first_position(pair_keys_of(pairs@), *key) {
            Some(p) => r matches Some(j) && j as int == p,
            None => r is None,
        },
        r matches Some(j) ==> j < pairs@.len(),
{
    let ghost keys = pair_keys_of(pairs@);
    let mut i: usize = 0;
    while i < pairs.len()
        invariant
            i <= pairs@.len(),
            row_model::<T>(),
            keys == pair_keys_of(pairs@),
            forall|j: int| 0 <= j < i ==> keys[j] != *key,
        decreases pairs.len() - i,
    {
        proof {
            reveal(vstd::laws_eq::obeys_concrete_eq);
        }
        let k = pairs[i].0.key();
        proof {
            lemma_row_key(&pairs@[i as int].0, k);
        }
        if k == *key {
            proof {
                lemma_first_position(keys, *key, i as int);
            }
            return Some(i);
        }
        i = i + 1;
    }
    proof {
        lemma_first_position(keys, *key, i as int);
    }
    None
}

impl<T: GridRow + PartialEq> Changes<T> {
    /// No changes.
    pub fn new() -> (r: Self)
        ensures
            r.updated@.len() == 0,
            r.added@.len() == 0,
            r.deleted@.len() == 0,
    {
        Changes { updated: Vec::new(), added: Vec::new(), deleted: Vec::new() }
    }

    /// Whether there is nothing to save.
    pub fn is_empty(&self) -> (r: bool)
        ensures
            r == (self.updated@.len() == 0 && self.added@.len() == 0 && self.deleted@.len() == 0),
    {
        self.updated.len() == 0 && self.added.len() == 0 && self.deleted.len() == 0
    }

    /// How many rows are changed, added or deleted.
    pub fn len(&self) -> (r: usize)
        requires
            self.updated@.len() + self.added@.len() + self.deleted@.len() <= usize::MAX,
        ensures
            r == self.updated@.len() + self.added@.len() + self.deleted@.len(),
    {
        self.updated.len() + self.added.len() + self.deleted.len()
    }

    /// Drops the changed rows that were edited back to their original.
    fn drop_unchanged(&mut self)
        requires
            row_model::<T>(),
        ensures
            final(self).updated@ == still_changed(old(self).updated@),
            final(self).added@ == old(self).added@,
            final(self).deleted@ == old(self).deleted@,
    {
        let ghost all = self.updated@;
        let n = self.updated.len();
        let mut pending: Vec<(T, T)> = Vec::new();
        std::mem::swap(&mut pending, &mut self.updated);
        let mut k: usize = 0;
        assert(all.skip(0) =~= all);
        while pending.len() > 0
            invariant
                row_model::<T>(),
                k <= all.len(),
                all.len() == n,
                self.added@ == old(self).added@,
                self.deleted@ == old(self).deleted@,
                pending@ == all.skip(k as int),
                self.updated@ == still_changed(all.take(k as int)),
            decreases pending.len(),
        {
            let pair = pending.remove(0);
            proof {
                reveal(vstd::laws_eq::obeys_concrete_eq);
                assert(pair == all[k as int]);
                assert(all.take(k + 1).drop_last() =~= all.take(k as int));
                assert(pending@ =~= all.skip(k + 1));
            }
            if pair.0 != pair.1 {
                self.updated.push(pair);
            }
            k = k + 1;
        }
        assert(all.take(k as int) =~= all);
    }

    /// Records that `original` now reads `current`.
    pub fn update(&mut self, original: T, current: T)
        requires
            row_model::<T>(),
        ensures
            updated_by(*old(self), original, current, *final(self)),
    {
        let key = original.key();
        proof {
            lemma_row_key(&original, key);
        }
        if let Some(i) = find_row(&self.added, &key) {
            self.added.set(i, current);
            return;
        }
        match find_pair(&self.updated, &key) {
            Some(j) => {
                let ghost before = self.updated@;
                let (first, _) = self.updated.remove(j);
                self.updated.insert(j, (first, current));
                assert(self.updated@ =~= before.update(j as int, (before[j as int].0, current)));
            },
            None => {
                proof {
                    reveal(vstd::laws_eq::obeys_concrete_eq);
                }
                if original != current {
                    self.updated.push((original, current));
                }
            },
        }
        self.drop_unchanged();
    }

    /// Records a new row.
    pub fn add(&mut self, row: T)
        ensures
            final(self).added@ == old(self).added@.push(row),
            final(self).updated@ == old(self).updated@,
            final(self).deleted@ == old(self).deleted@,
    {
        self.added.push(row);
    }

    /// Records that `row` is deleted.
    pub fn delete(&mut self, row: T)
        requires
            row_model::<T>(),
        ensures
            deleted_by(*old(self), row, *final(self)),
    {
        let key = row.key();
        proof {
            lemma_row_key(&row, key);
        }
        if let Some(index) = find_row(&self.added, &key) {
            self.added.remove(index);
            return;
        }
        let original = match find_pair(&self.updated, &key) {
            Some(index) => self.updated.remove(index).0,
            None => row,
        };
        if !self.is_deleted(&key) {
            self.deleted.push(original);
        }
    }

    /// Takes back a deletion.
    pub fn restore(&mut self, key: &T::Key)
        requires
            row_model::<T>(),
        ensures
            restored_by(*old(self), *key, *final(self)),
    {
        let ghost all = self.deleted@;
        let n = self.deleted.len();
        let mut pending: Vec<T> = Vec::new();
        std::mem::swap(&mut pending, &mut self.deleted);
        let mut k: usize = 0;
        assert(all.skip(0) =~= all);
        while pending.len() > 0
            invariant
                row_model::<T>(),
                k <= all.len(),
                all.len() == n,
                self.added@ == old(self).added@,
                self.updated@ == old(self).updated@,
                pending@ == all.skip(k as int),
                self.deleted@ == without_key(all.take(k as int), *key),
            decreases pending.len(),
        {
            let row = pending.remove(0);
            proof {
                reveal(vstd::laws_eq::obeys_concrete_eq);
                assert(row == all[k as int]);
                assert(all.take(k + 1).drop_last() =~= all.take(k as int));
                assert(pending@ =~= all.skip(k + 1));
            }
            let row_k = row.key();
            proof {
                lemma_row_key(&row, row_k);
            }
            if row_k != *key {
                self.deleted.push(row);
            }
            k = k + 1;
        }
        assert(all.take(k as int) =~= all);
    }

    /// The row as edited, if it was changed or added.
    pub fn current(&self, key: &T::Key) -> (r: Option<&T>)
        requires
            row_model::<T>(),
        ensures
            match first_position(pair_keys_of(self.updated@), *key) {
                Some(j) => r matches Some(x) && *x == self.updated@[j].1,
                None => match first_position(keys_of(self.added@), *key) {
                    Some(i) => r matches Some(x) && *x == self.added@[i],
                    None => r is None,
                },
            },
    {
        match find_pair(&self.updated, key) {
            Some(j) => Some(&self.updated[j].1),
            None => match find_row(&self.added, key) {
                Some(i) => Some(&self.added[i]),
                None => None,
            },
        }
    }

    /// The row before it was changed, if it was.
    pub fn original(&self, key: &T::Key) -> (r: Option<&T>)
        requires
            row_model::<T>(),
        ensures
            match first_position(pair_keys_of(self.updated@), *key) {
                Some(j) => r matches Some(x) && *x == self.updated@[j].0,
                None => r is None,
            },
    {
        match find_pair(&self.updated, key) {
            Some(j) => Some(&self.updated[j].0),
            None => None,
        }
    }

    /// Whether the row is marked deleted.
    pub fn is_deleted(&self, key: &T::Key) -> (r: bool)
        requires
            row_model::<T>(),
        ensures
            r == keys_of(self.deleted@).contains(*key),
    {
        proof {
            lemma_first_position_found(keys_of(self.deleted@), *key);
        }
        find_row(&self.deleted, key).is_some()
    }
}

/// Keeping the rows still changed keeps exactly those, and keeps the
/// originals' keys distinct.
proof fn lemma_still_changed<T: GridRow>(s: Seq<(T, T)>)
    ensures
        forall|x: (T, T)| #[trigger] still_changed(s).contains(x) <==> s.contains(x) && x.0 != x.1,
        pair_keys_of(s).no_duplicates() ==> pair_keys_of(still_changed(s)).no_duplicates(),
    decreases s.len(),
{
    if s.len() > 0 {
        let init = s.drop_last();
        let last = s.last();
        lemma_still_changed(init);
        let rest = still_changed(init);
        broadcast use vstd::seq_lib::lemma_seq_contains_after_push;
        assert(s =~= init.push(last));
        assert forall|x: (T, T)| #[trigger] still_changed(s).contains(x) <==> s.contains(x) && x.0 != x.1 by {
            if s.contains(x) {
                let i = choose|i: int| 0 <= i < s.len() && s[i] == x;
                if i < init.len() {
                    assert(init[i] == x);
                }
            }
            if init.contains(x) {
                let i = choose|i: int| 0 <= i < init.len() && init[i] == x;
                assert(s[i] == x);
            }
            assert(s[s.len() - 1] == last);
        }
        if pair_keys_of(s).no_duplicates() {
            assert(pair_keys_of(init).no_duplicates()) by {
                assert forall|a: int, b: int| 0 <= a < init.len() && 0 <= b < init.len() && a != b implies pair_keys_of(init)[a]
                    != pair_keys_of(init)[b] by {
                    assert(pair_keys_of(init)[a] == pair_keys_of(s)[a]);
                    assert(pair_keys_of(init)[b] == pair_keys_of(s)[b]);
                }
            }
            if last.0 != last.1 {
                assert forall|j: int| 0 <= j < rest.len() implies rest[j].0.row_key() != last.0.row_key() by {
                    assert(rest.contains(rest[j]));
                    assert(init.contains(rest[j]));
                    let i = choose|i: int| 0 <= i < init.len() && init[i] == rest[j];
                    assert(pair_keys_of(s)[i] == rest[j].0.row_key());
                    assert(pair_keys_of(s)[s.len() - 1] == last.0.row_key());
                }
                let out = rest.push(last);
                assert forall|a: int, b: int| 0 <= a < out.len() && 0 <= b < out.len() && a != b implies pair_keys_of(out)[a]
                    != pair_keys_of(out)[b] by {
                    if a < rest.len() && b < rest.len() {
                        assert(pair_keys_of(out)[a] == pair_keys_of(rest)[a]);
                        assert(pair_keys_of(out)[b] == pair_keys_of(rest)[b]);
                    } else if a < rest.len() {
                        assert(out[b] == last);
                        assert(out[a] == rest[a]);
                    } else {
                        assert(out[a] == last);
                        assert(out[b] == rest[b]);
                    }
                }
            }
        }
    }
}

/// Leaving out the rows with one key keeps exactly the others, and keeps
/// the keys distinct.
proof fn lemma_without_key<T: GridRow>(s: Seq<T>, key: T::Key)
    ensures
        forall|x: T| #[trigger] without_key(s, key).contains(x) <==> s.contains(x) && x.row_key() != key,
        keys_of(s).no_duplicates() ==> keys_of(without_key(s, key)).no_duplicates(),
    decreases s.len(),
{
    if s.len() > 0 {
        let init = s.drop_last();
        let last = s.last();
        lemma_without_key(init, key);
        let rest = without_key(init, key);
        broadcast use vstd::seq_lib::lemma_seq_contains_after_push;
        assert(s =~= init.push(last));
        assert forall|x: T| #[trigger] without_key(s, key).contains(x) <==> s.contains(x) && x.row_key() != key by {
            if s.contains(x) {
                let i = choose|i: int| 0 <= i < s.len() && s[i] == x;
                if i < init.len() {
                    assert(init[i] == x);
                }
            }
            if init.contains(x) {
                let i = choose|i: int| 0 <= i < init.len() && init[i] == x;
                assert(s[i] == x);
            }
            assert(s[s.len() - 1] == last);
        }
        if keys_of(s).no_duplicates() {
            assert(keys_of(init).no_duplicates()) by {
                assert forall|a: int, b: int| 0 <= a < init.len() && 0 <= b < init.len() && a != b implies keys_of(init)[a]
                    != keys_of(init)[b] by {
                    assert(keys_of(init)[a] == keys_of(s)[a]);
                    assert(keys_of(init)[b] == keys_of(s)[b]);
                }
            }
            if last.row_key() != key {
                assert forall|j: int| 0 <= j < rest.len() implies rest[j].row_key() != last.row_key() by {
                    assert(rest.contains(rest[j]));
                    assert(init.contains(rest[j]));
                    let i = choose|i: int| 0 <= i < init.len() && init[i] == rest[j];
                    assert(keys_of(s)[i] == rest[j].row_key());
                    assert(keys_of(s)[s.len() - 1] == last.row_key());
                }
                let out = rest.push(last);
                assert forall|a: int, b: int| 0 <= a < out.len() && 0 <= b < out.len() && a != b implies keys_of(out)[a]
                    != keys_of(out)[b] by {
                    if a < rest.len() && b < rest.len() {
                        assert(keys_of(out)[a] == keys_of(rest)[a]);
                        assert(keys_of(out)[b] == keys_of(rest)[b]);
                    } else if a < rest.len() {
                        assert(out[b] == last);
                        assert(out[a] == rest[a]);
                    } else {
                        assert(out[a] == last);
                        assert(out[b] == rest[b]);
                    }
                }
            }
        }
    }
}

/// One tracked edit of the row at position `k` among the original rows: a
/// new version of it, its deletion, or taking the deletion back.
pub enum EditStep<T> {
    /// The row now reads as the given version.
    Update(int, T),
    /// The row is deleted.
    Delete(int),
    /// The row's deletion is taken back, and it reads as it was.
    Restore(int),
}

/// The changes, the rows as they read now, and which rows are deleted.
pub struct EditState<T> {
    /// The changes recorded so far.
    pub changes: Changes<T>,
    /// The rows as they read now.
    pub rows: Seq<T>,
    /// Which rows are deleted.
    pub deleted: Seq<bool>,
}

/// Whether `after` is how `step` leaves `before`, for rows whose originals
/// are `originals`: an update of a row that is not deleted gives it the
/// new version (with its key) and records it by [`Changes::update`]; a
/// deletion of a row that is not deleted marks it and records it by
/// [`Changes::delete`]; a restore of a deleted row gives back its original
/// and records it by [`Changes::restore`].
pub open spec fn step_recorded<T: GridRow>(originals: Seq<T>, before: EditState<T>, step: EditStep<T>, after: EditState<T>) -> bool {
    match step {
        EditStep::Update(k, edited) => {
            &&& 0 <= k < originals.len()
            &&& !before.deleted[k]
            &&& edited.row_key() == originals[k].row_key()
            &&& updated_by(before.changes, before.rows[k], edited, after.changes)
            &&& after.rows == before.rows.update(k, edited)
            &&& after.deleted == before.deleted
        },
        EditStep::Delete(k) => {
            &&& 0 <= k < originals.len()
            &&& !before.deleted[k]
            &&& deleted_by(before.changes, before.rows[k], after.changes)
            &&& after.rows == before.rows
            &&& after.deleted == before.deleted.update(k, true)
        },
        EditStep::Restore(k) => {
            &&& 0 <= k < originals.len()
            &&& before.deleted[k]
            &&& restored_by(before.changes, originals[k].row_key(), after.changes)
            &&& after.rows == before.rows.update(k, originals[k])
            &&& after.deleted == before.deleted.update(k, false)
        },
    }
}

/// Whatever edits are made, starting from no changes on rows with distinct
/// keys, the changes record exactly the difference between the rows as they
/// were and as they are: each changed row that is not deleted once, with its
/// first original and its current version, and each deleted row once, as
/// it was before any change.
pub proof fn lemma_steps_record_difference<T: GridRow>(originals: Seq<T>, steps: Seq<EditStep<T>>, states: Seq<EditState<T>>)
    requires
        keys_of(originals).no_duplicates(),
        states.len() == steps.len() + 1,
        states[0].changes.updated@.len() == 0,
        states[0].changes.added@.len() == 0,
        states[0].changes.deleted@.len() == 0,
        states[0].rows == originals,
        states[0].deleted == Seq::new(originals.len(), |k: int| false),
        forall|i: int| 0 <= i < steps.len() ==> step_recorded(originals, states[i], #[trigger] steps[i], states[i + 1]),
    ensures
        records_difference(states.last().changes, originals, states.last().rows, states.last().deleted),
    decreases steps.len(),
{
    if steps.len() == 0 {
        lemma_new_records(states[0].changes, originals);
    } else {
        let n = steps.len() - 1;
        lemma_steps_record_difference(originals, steps.drop_last(), states.drop_last());
        let before = states[n];
        let after = states[n + 1];
        assert(step_recorded(originals, before, steps[n], after));
        match steps[n] {
            EditStep::Update(k, edited) => {
                lemma_update_records(before.changes, after.changes, originals, before.rows, before.deleted, k, edited);
            },
            EditStep::Delete(k) => {
                lemma_delete_records(before.changes, after.changes, originals, before.rows, before.deleted, k);
            },
            EditStep::Restore(k) => {
                lemma_restore_records(before.changes, after.changes, originals, before.rows, before.deleted, k);
            },
        }
    }
}

/// Whether the changed rows are recorded one per key, each differing from
/// its original.
pub open spec fn one_entry_per_key<T: GridRow>(c: Changes<T>) -> bool {
    &&& pair_keys_of(c.updated@).no_duplicates()
    &&& forall|i: int| 0 <= i < c.updated@.len() ==> (#[trigger] c.updated@[i]).0 != c.updated@[i].1
}

/// Recording an update keeps the changed rows one per key, none of them
/// equal to its original.
pub proof fn lemma_update_keeps_one_entry_per_key<T: GridRow>(
    before: Changes<T>,
    original: T,
    current: T,
    after: Changes<T>,
)
    requires
        one_entry_per_key(before),
        updated_by(before, original, current, after),
    ensures
        one_entry_per_key(after),
{
    let key = original.row_key();
    let s = before.updated@;
    if first_position(keys_of(before.added@), key) is None {
        lemma_first_position_found(pair_keys_of(s), key);
        let pairs = match first_position(pair_keys_of(s), key) {
            Some(j) => s.update(j, (s[j].0, current)),
            None => if original != current {
                s.push((original, current))
            } else {
                s
            },
        };
        match first_position(pair_keys_of(s), key) {
            Some(j) => {
                assert(pair_keys_of(pairs) =~= pair_keys_of(s));
            },
            None => {
                if original != current {
                    assert forall|a: int, b: int|
                        0 <= a < pairs.len() && 0 <= b < pairs.len() && a != b implies pair_keys_of(pairs)[a]
                        != pair_keys_of(pairs)[b] by {
                        if a < s.len() {
                            assert(pair_keys_of(pairs)[a] == pair_keys_of(s)[a]);
                        }
                        if b < s.len() {
                            assert(pair_keys_of(pairs)[b] == pair_keys_of(s)[b]);
                        }
                    }
                }
            },
        }
        lemma_still_changed(pairs);
        assert forall|i: int| 0 <= i < after.updated@.len() implies (#[trigger] after.updated@[i]).0
            != after.updated@[i].1 by {
            assert(still_changed(pairs).contains(after.updated@[i]));
        }
    }
}

/// Recording a deletion keeps the changed rows one per key, none of them
/// equal to its original.
pub proof fn lemma_delete_keeps_one_entry_per_key<T: GridRow>(before: Changes<T>, row: T, after: Changes<T>)
    requires
        one_entry_per_key(before),
        deleted_by(before, row, after),
    ensures
        one_entry_per_key(after),
{
    let key = row.row_key();
    let s = before.updated@;
    if first_position(keys_of(before.added@), key) is None {
        lemma_first_position_found(pair_keys_of(s), key);
        if let Some(j) = first_position(pair_keys_of(s), key) {
            let out = s.remove(j);
            assert forall|a: int, b: int|
                0 <= a < out.len() && 0 <= b < out.len() && a != b implies pair_keys_of(out)[a]
                != pair_keys_of(out)[b] by {
                let a2 = if a < j { a } else { a + 1 };
                let b2 = if b < j { b } else { b + 1 };
                assert(pair_keys_of(out)[a] == pair_keys_of(s)[a2]);
                assert(pair_keys_of(out)[b] == pair_keys_of(s)[b2]);
            }
            assert forall|i: int| 0 <= i < out.len() implies (#[trigger] out[i]).0 != out[i].1 by {
                let i2 = if i < j { i } else { i + 1 };
                assert(out[i] == s[i2]);
            }
        }
    }
}

/// Whether `x` is how row `k` is recorded as changed: it is not deleted,
/// differs from its original, and `x` pairs the two.
pub open spec fn changed_entry<T>(originals: Seq<T>, rows: Seq<T>, deleted: Seq<bool>, k: int, x: (T, T)) -> bool {
    &&& !deleted[k]
    &&& rows[k] != originals[k]
    &&& x == (originals[k], rows[k])
}

/// Whether `c` records exactly how `rows` differ from `originals`, the
/// rows marked in `deleted` being deleted: every row that is not deleted
/// and differs from its original is changed, from that original to the
/// row; every deleted row is deleted as its original; nothing else is
/// recorded.
pub open spec fn records_difference<T: GridRow>(c: Changes<T>, originals: Seq<T>, rows: Seq<T>, deleted: Seq<bool>) -> bool {
    &&& rows.len() == originals.len()
    &&& deleted.len() == originals.len()
    &&& keys_of(originals).no_duplicates()
    &&& forall|k: int| 0 <= k < originals.len() ==> (#[trigger] rows[k]).row_key() == originals[k].row_key()
    &&& c.added@.len() == 0
    &&& pair_keys_of(c.updated@).no_duplicates()
    &&& keys_of(c.deleted@).no_duplicates()
    &&& forall|x: (T, T)|
        #[trigger] c.updated@.contains(x) <==> exists|k: int| 0 <= k < originals.len() && changed_entry(originals, rows, deleted, k, x)
    &&& forall|x: T| #[trigger] c.deleted@.contains(x) <==> exists|k: int| 0 <= k < originals.len() && deleted[k] && x == originals[k]
}

/// Two rows with the same key among rows with distinct keys are the same
/// row.
proof fn lemma_same_key<T: GridRow>(originals: Seq<T>, a: int, b: int)
    requires
        keys_of(originals).no_duplicates(),
        0 <= a < originals.len(),
        0 <= b < originals.len(),
        originals[a].row_key() == originals[b].row_key(),
    ensures
        a == b,
{
    assert(keys_of(originals)[a] == keys_of(originals)[b]);
}

/// A changed row recorded under the key of row `k` is row `k`'s change.
proof fn lemma_changed_with_key<T: GridRow>(c: Changes<T>, originals: Seq<T>, rows: Seq<T>, deleted: Seq<bool>, x: (T, T), k: int)
    requires
        records_difference(c, originals, rows, deleted),
        0 <= k < originals.len(),
        c.updated@.contains(x),
        x.0.row_key() == originals[k].row_key(),
    ensures
        changed_entry(originals, rows, deleted, k, x),
{
    let k2 = choose|k2: int| 0 <= k2 < originals.len() && changed_entry(originals, rows, deleted, k2, x);
    lemma_same_key(originals, k, k2);
}

/// What the changes say of each row when they record the difference: it
/// is deleted exactly when marked so; it is found changed exactly when it
/// is not deleted and differs from its original, and then from that
/// original to the row; and no row is added.
pub proof fn lemma_difference_lookup<T: GridRow>(c: Changes<T>, originals: Seq<T>, rows: Seq<T>, deleted: Seq<bool>, k: int)
    requires
        records_difference(c, originals, rows, deleted),
        0 <= k < originals.len(),
    ensures
        keys_of(c.deleted@).contains(originals[k].row_key()) == deleted[k],
        match first_position(pair_keys_of(c.updated@), originals[k].row_key()) {
            Some(j) => !deleted[k] && rows[k] != originals[k] && c.updated@[j] == (originals[k], rows[k]),
            None => deleted[k] || rows[k] == originals[k],
        },
        first_position(keys_of(c.added@), originals[k].row_key()) is None,
{
    let key = originals[k].row_key();
    lemma_first_position_found(keys_of(c.added@), key);
    lemma_first_position_found(pair_keys_of(c.updated@), key);
    if keys_of(c.deleted@).contains(key) {
        let j = choose|j: int| 0 <= j < keys_of(c.deleted@).len() && keys_of(c.deleted@)[j] == key;
        assert(c.deleted@.contains(c.deleted@[j]));
        let k2 = choose|k2: int| 0 <= k2 < originals.len() && deleted[k2] && c.deleted@[j] == originals[k2];
        lemma_same_key(originals, k, k2);
    }
    if deleted[k] {
        assert(c.deleted@.contains(originals[k]));
        let j = choose|j: int| 0 <= j < c.deleted@.len() && c.deleted@[j] == originals[k];
        assert(keys_of(c.deleted@)[j] == key);
    }
    match first_position(pair_keys_of(c.updated@), key) {
        Some(j) => {
            assert(c.updated@.contains(c.updated@[j]));
            lemma_changed_with_key(c, originals, rows, deleted, c.updated@[j], k);
        },
        None => {
            if !deleted[k] && rows[k] != originals[k] {
                assert(changed_entry(originals, rows, deleted, k, (originals[k], rows[k])));
                assert(c.updated@.contains((originals[k], rows[k])));
                let j = choose|j: int| 0 <= j < c.updated@.len() && c.updated@[j] == (originals[k], rows[k]);
                assert(pair_keys_of(c.updated@)[j] == key);
            }
        },
    }
}

/// No changes record the difference between rows with distinct keys and
/// themselves.
pub proof fn lemma_new_records<T: GridRow>(c: Changes<T>, originals: Seq<T>)
    requires
        keys_of(originals).no_duplicates(),
        c.updated@.len() == 0,
        c.added@.len() == 0,
        c.deleted@.len() == 0,
    ensures
        records_difference(c, originals, originals, Seq::new(originals.len(), |k: int| false)),
{
    let deleted = Seq::new(originals.len(), |k: int| false);
    assert(pair_keys_of(c.updated@).len() == 0);
    assert(keys_of(c.deleted@).len() == 0);
}

/// Editing a row that is not deleted keeps the changes recording the
/// difference: the row's entry follows its new version, and disappears
/// when the row is back to its original.
pub proof fn lemma_update_records<T: GridRow>(
    before: Changes<T>,
    after: Changes<T>,
    originals: Seq<T>,
    rows: Seq<T>,
    deleted: Seq<bool>,
    k: int,
    edited: T,
)
    requires
        records_difference(before, originals, rows, deleted),
        0 <= k < originals.len(),
        !deleted[k],
        edited.row_key() == originals[k].row_key(),
        updated_by(before, rows[k], edited, after),
    ensures
        records_difference(after, originals, rows.update(k, edited), deleted),
{
    broadcast use vstd::seq_lib::lemma_seq_contains_after_push;

    let key = originals[k].row_key();
    let n = originals.len();
    let rows1 = rows.update(k, edited);
    assert(rows[k].row_key() == key);
    lemma_first_position_found(keys_of(before.added@), key);
    lemma_first_position_found(pair_keys_of(before.updated@), key);
    let updated = before.updated@;
    let pairs = match first_position(pair_keys_of(updated), key) {
        Some(j) => updated.update(j, (updated[j].0, edited)),
        None => if rows[k] != edited {
            updated.push((rows[k], edited))
        } else {
            updated
        },
    };
    assert(after.updated@ == still_changed(pairs));
    lemma_still_changed(pairs);
    // Which pairs there are before dropping the unchanged ones.
    assert(forall|x: (T, T)| #[trigger] pairs.contains(x) ==> x == (originals[k], edited) || (updated.contains(x) && x.0.row_key() != key)) by {
        assert forall|x: (T, T)| #[trigger] pairs.contains(x) implies x == (originals[k], edited) || (updated.contains(x) && x.0.row_key()
            != key) by {
            match first_position(pair_keys_of(updated), key) {
                Some(j) => {
                    assert(updated.contains(updated[j]));
                    lemma_changed_with_key(before, originals, rows, deleted, updated[j], k);
                    let i = choose|i: int| 0 <= i < pairs.len() && pairs[i] == x;
                    if i != j {
                        assert(updated[i] == x);
                        assert(updated.contains(x));
                        assert(pair_keys_of(updated)[i] == x.0.row_key());
                        assert(pair_keys_of(updated)[j] == key);
                    }
                },
                None => {
                    if updated.contains(x) {
                        let i = choose|i: int| 0 <= i < updated.len() && updated[i] == x;
                        assert(pair_keys_of(updated)[i] == x.0.row_key());
                    } else if rows[k] != originals[k] {
                        assert(changed_entry(originals, rows, deleted, k, (originals[k], rows[k])));
                        assert(updated.contains((originals[k], rows[k])));
                        let j = choose|j: int| 0 <= j < updated.len() && updated[j] == (originals[k], rows[k]);
                        assert(pair_keys_of(updated)[j] == key);
                    }
                },
            }
        }
    }
    assert(forall|x: (T, T)| updated.contains(x) && x.0.row_key() != key ==> #[trigger] pairs.contains(x)) by {
        assert forall|x: (T, T)| updated.contains(x) && x.0.row_key() != key implies #[trigger] pairs.contains(x) by {
            let i = choose|i: int| 0 <= i < updated.len() && updated[i] == x;
            match first_position(pair_keys_of(updated), key) {
                Some(j) => {
                    assert(pair_keys_of(updated)[i] == x.0.row_key());
                    assert(i != j);
                    assert(pairs[i] == x);
                },
                None => {
                    if rows[k] != edited {
                        assert(pairs[i] == x);
                    }
                },
            }
        }
    }
    if originals[k] != edited {
        match first_position(pair_keys_of(updated), key) {
            Some(j) => {
                assert(updated.contains(updated[j]));
                lemma_changed_with_key(before, originals, rows, deleted, updated[j], k);
                assert(pairs[j] == (originals[k], edited));
            },
            None => {
                if rows[k] != originals[k] {
                    assert(changed_entry(originals, rows, deleted, k, (originals[k], rows[k])));
                    assert(updated.contains((originals[k], rows[k])));
                    let j = choose|j: int| 0 <= j < updated.len() && updated[j] == (originals[k], rows[k]);
                    assert(pair_keys_of(updated)[j] == key);
                }
                assert(pairs[updated.len() as int] == (originals[k], edited));
            },
        }
        assert(pairs.contains((originals[k], edited)));
    }
    // The recorded changes are those of the edited rows.
    assert forall|x: (T, T)| #[trigger] after.updated@.contains(x) <==> exists|k2: int|
        0 <= k2 < n && changed_entry(originals, rows1, deleted, k2, x) by {
        if after.updated@.contains(x) {
            if x == (originals[k], edited) {
                assert(changed_entry(originals, rows1, deleted, k, x));
            } else {
                assert(updated.contains(x));
                let k2 = choose|k2: int| 0 <= k2 < n && changed_entry(originals, rows, deleted, k2, x);
                assert(k2 != k);
                assert(changed_entry(originals, rows1, deleted, k2, x));
            }
        }
        if exists|k2: int| 0 <= k2 < n && changed_entry(originals, rows1, deleted, k2, x) {
            let k2 = choose|k2: int| 0 <= k2 < n && changed_entry(originals, rows1, deleted, k2, x);
            if k2 != k {
                assert(changed_entry(originals, rows, deleted, k2, x));
                assert(updated.contains(x));
                assert(x.0.row_key() != key) by {
                    if x.0.row_key() == key {
                        lemma_same_key(originals, k, k2);
                    }
                }
            }
        }
    }
    // The originals' keys stay distinct.
    assert(pair_keys_of(pairs).no_duplicates()) by {
        match first_position(pair_keys_of(updated), key) {
            Some(j) => {
                assert(pair_keys_of(pairs) =~= pair_keys_of(updated).update(j, updated[j].0.row_key()));
                assert(pair_keys_of(pairs) =~= pair_keys_of(updated));
            },
            None => {
                if rows[k] != edited {
                    assert(pair_keys_of(pairs) =~= pair_keys_of(updated).push(key));
                    assert forall|a: int, b: int| 0 <= a < pairs.len() && 0 <= b < pairs.len() && a != b implies pair_keys_of(
                        pairs,
                    )[a] != pair_keys_of(pairs)[b] by {
                        if a < updated.len() && b < updated.len() {
                        } else if a < updated.len() {
                            assert(pair_keys_of(updated)[a] != key);
                        } else {
                            assert(pair_keys_of(updated)[b] != key);
                        }
                    }
                }
            },
        }
    }
    assert forall|k2: int| 0 <= k2 < n implies (#[trigger] rows1[k2]).row_key() == originals[k2].row_key() by {
        if k2 != k {
            assert(rows1[k2] == rows[k2]);
        }
    }
}

/// Deleting a row that is not deleted keeps the changes recording the
/// difference: its change, if any, gives way to its deletion as the
/// original.
pub proof fn lemma_delete_records<T: GridRow>(
    before: Changes<T>,
    after: Changes<T>,
    originals: Seq<T>,
    rows: Seq<T>,
    deleted: Seq<bool>,
    k: int,
)
    requires
        records_difference(before, originals, rows, deleted),
        0 <= k < originals.len(),
        !deleted[k],
        deleted_by(before, rows[k], after),
    ensures
        records_difference(after, originals, rows, deleted.update(k, true)),
{
    broadcast use vstd::seq_lib::lemma_seq_contains_after_push;

    let key = originals[k].row_key();
    let n = originals.len();
    let deleted1 = deleted.update(k, true);
    assert(rows[k].row_key() == key);
    lemma_difference_lookup(before, originals, rows, deleted, k);
    lemma_first_position_found(pair_keys_of(before.updated@), key);
    let updated = before.updated@;
    let dels = before.deleted@;
    assert(after.deleted@ == dels.push(originals[k]));
    match first_position(pair_keys_of(updated), key) {
        Some(j) => {
            assert(after.updated@ == updated.remove(j));
            assert forall|x: (T, T)| #[trigger] after.updated@.contains(x) <==> updated.contains(x) && x.0.row_key() != key by {
                if after.updated@.contains(x) {
                    let i = choose|i: int| 0 <= i < after.updated@.len() && after.updated@[i] == x;
                    let i2 = if i < j {
                        i
                    } else {
                        i + 1
                    };
                    assert(updated[i2] == x);
                    assert(pair_keys_of(updated)[i2] == x.0.row_key());
                    assert(pair_keys_of(updated)[j] == key);
                }
                if updated.contains(x) && x.0.row_key() != key {
                    let i = choose|i: int| 0 <= i < updated.len() && updated[i] == x;
                    assert(pair_keys_of(updated)[i] == x.0.row_key());
                    if i < j {
                        assert(after.updated@[i] == x);
                    } else {
                        assert(i != j);
                        assert(after.updated@[i - 1] == x);
                    }
                }
            }
            assert(pair_keys_of(after.updated@) =~= pair_keys_of(updated).remove(j));
            assert forall|a: int, b: int| 0 <= a < after.updated@.len() && 0 <= b < after.updated@.len() && a != b implies pair_keys_of(
                after.updated@,
            )[a] != pair_keys_of(after.updated@)[b] by {
                let a2 = if a < j {
                    a
                } else {
                    a + 1
                };
                let b2 = if b < j {
                    b
                } else {
                    b + 1
                };
                assert(pair_keys_of(after.updated@)[a] == pair_keys_of(updated)[a2]);
                assert(pair_keys_of(after.updated@)[b] == pair_keys_of(updated)[b2]);
            }
        },
        None => {
            assert(after.updated@ == updated);
            assert forall|x: (T, T)| #[trigger] after.updated@.contains(x) implies x.0.row_key() != key by {
                let i = choose|i: int| 0 <= i < updated.len() && updated[i] == x;
                assert(pair_keys_of(updated)[i] == x.0.row_key());
            }
        },
    }
    assert forall|x: (T, T)| #[trigger] after.updated@.contains(x) <==> exists|k2: int|
        0 <= k2 < n && changed_entry(originals, rows, deleted1, k2, x) by {
        if after.updated@.contains(x) {
            assert(updated.contains(x));
            let k2 = choose|k2: int| 0 <= k2 < n && changed_entry(originals, rows, deleted, k2, x);
            assert(k2 != k);
            assert(changed_entry(originals, rows, deleted1, k2, x));
        }
        if exists|k2: int| 0 <= k2 < n && changed_entry(originals, rows, deleted1, k2, x) {
            let k2 = choose|k2: int| 0 <= k2 < n && changed_entry(originals, rows, deleted1, k2, x);
            assert(k2 != k);
            assert(changed_entry(originals, rows, deleted, k2, x));
            assert(updated.contains(x));
            if x.0.row_key() == key {
                lemma_same_key(originals, k, k2);
            }
        }
    }
    assert forall|x: T| #[trigger] after.deleted@.contains(x) <==> exists|k2: int| 0 <= k2 < n && deleted1[k2] && x == originals[k2] by {
        if after.deleted@.contains(x) {
            if x != originals[k] {
                assert(dels.contains(x));
                let k2 = choose|k2: int| 0 <= k2 < n && deleted[k2] && x == originals[k2];
                assert(deleted1[k2]);
            } else {
                assert(deleted1[k]);
            }
        }
        if exists|k2: int| 0 <= k2 < n && deleted1[k2] && x == originals[k2] {
            let k2 = choose|k2: int| 0 <= k2 < n && deleted1[k2] && x == originals[k2];
            if k2 != k {
                assert(dels.contains(x));
            }
        }
    }
    assert(keys_of(after.deleted@) =~= keys_of(dels).push(key));
    assert forall|a: int, b: int| 0 <= a < after.deleted@.len() && 0 <= b < after.deleted@.len() && a != b implies keys_of(
        after.deleted@,
    )[a] != keys_of(after.deleted@)[b] by {
        if a < dels.len() && b < dels.len() {
        } else if a < dels.len() {
            assert(keys_of(dels).contains(keys_of(dels)[a]));
        } else {
            assert(keys_of(dels).contains(keys_of(dels)[b]));
        }
    }
}

/// Restoring a deleted row keeps the changes recording the difference,
/// the row coming back as it was before any change.
pub proof fn lemma_restore_records<T: GridRow>(
    before: Changes<T>,
    after: Changes<T>,
    originals: Seq<T>,
    rows: Seq<T>,
    deleted: Seq<bool>,
    k: int,
)
    requires
        records_difference(before, originals, rows, deleted),
        0 <= k < originals.len(),
        deleted[k],
        restored_by(before, originals[k].row_key(), after),
    ensures
        records_difference(after, originals, rows.update(k, originals[k]), deleted.update(k, false)),
{
    let key = originals[k].row_key();
    let n = originals.len();
    let rows1 = rows.update(k, originals[k]);
    let deleted1 = deleted.update(k, false);
    lemma_without_key(before.deleted@, key);
    assert forall|x: T| #[trigger] after.deleted@.contains(x) <==> exists|k2: int| 0 <= k2 < n && deleted1[k2] && x == originals[k2] by {
        if after.deleted@.contains(x) {
            assert(before.deleted@.contains(x));
            let k2 = choose|k2: int| 0 <= k2 < n && deleted[k2] && x == originals[k2];
            assert(k2 != k);
            assert(deleted1[k2]);
        }
        if exists|k2: int| 0 <= k2 < n && deleted1[k2] && x == originals[k2] {
            let k2 = choose|k2: int| 0 <= k2 < n && deleted1[k2] && x == originals[k2];
            assert(k2 != k);
            assert(before.deleted@.contains(x));
            if x.row_key() == key {
                lemma_same_key(originals, k, k2);
            }
        }
    }
    assert forall|x: (T, T)| #[trigger] after.updated@.contains(x) <==> exists|k2: int|
        0 <= k2 < n && changed_entry(originals, rows1, deleted1, k2, x) by {
        if after.updated@.contains(x) {
            let k2 = choose|k2: int| 0 <= k2 < n && changed_entry(originals, rows, deleted, k2, x);
            assert(k2 != k);
            assert(changed_entry(originals, rows1, deleted1, k2, x));
        }
        if exists|k2: int| 0 <= k2 < n && changed_entry(originals, rows1, deleted1, k2, x) {
            let k2 = choose|k2: int| 0 <= k2 < n && changed_entry(originals, rows1, deleted1, k2, x);
            assert(k2 != k);
            assert(changed_entry(originals, rows, deleted, k2, x));
        }
    }
    assert forall|k2: int| 0 <= k2 < n implies (#[trigger] rows1[k2]).row_key() == originals[k2].row_key() by {
        if k2 != k {
            assert(rows1[k2] == rows[k2]);
        }
    }
}

/// The ids of the columns among the first `n` whose value differs between
/// two versions of a row; columns without a value are never reported.
pub open spec fn changed_ids(columns: Seq<ColumnSpec>, before: Seq<Cell>, after: Seq<Cell>, n: int) -> Seq<Seq<char>>
    decreases n,
{
    if n <= 0 {
        Seq::empty()
    } else {
        let rest = changed_ids(columns, before, after, n - 1);
        let c = n - 1;
        if columns[c].has_value && canonical(before[c].value@) != canonical(after[c].value@) {
            rest.push(columns[c].id@)
        } else {
            rest
        }
    }
}

/// The columns whose value differs between two versions of a row, given
/// as one cell per column. Columns without a value are never reported:
/// there is nothing to compare.
pub fn changed_columns(columns: &[ColumnSpec], before: &Vec<Cell>, after: &Vec<Cell>) -> (r: Vec<ColumnId>)
    requires
        before@.len() == columns@.len(),
        after@.len() == columns@.len(),
    ensures
        ids_model(r@) == changed_ids(columns@, before@, after@, columns@.len() as int),
{
    let mut out: Vec<ColumnId> = Vec::new();
    let mut c: usize = 0;
    while c < columns.len()
        invariant
            c <= columns@.len(),
            before@.len() == columns@.len(),
            after@.len() == columns@.len(),
            ids_model(out@) == changed_ids(columns@, before@, after@, c as int),
        decreases columns.len() - c,
    {
        proof {
            lemma_cells_equal(before@[c as int].value@, after@[c as int].value@);
        }
        if columns[c].has_value && !(before[c].value == after[c].value) {
            let ghost prev = out@;
            out.push(columns[c].id.duplicate());
            assert(ids_model(out@) =~= ids_model(prev).push(columns@[c as int].id@));
        }
        c = c + 1;
    }
    out
}

/// The last position of `k` in `keys`.
pub open spec fn last_position<K>(keys: Seq<K>, k: K) -> Option<int>
    decreases keys.len(),
{
    if keys.len() == 0 {
        None
    } else if keys.last() == k {
        Some(keys.len() - 1)
    } else {
        last_position(keys.drop_last(), k)
    }
}

/// Past the last occurrence, the last position is that of the prefix.
proof fn lemma_last_position<K>(keys: Seq<K>, k: K, i: int)
    requires
        0 <= i <= keys.len(),
        forall|j: int| i <= j < keys.len() ==> keys[j] != k,
    ensures
        last_position(keys, k) == last_position(keys.take(i), k),
    decreases keys.len() - i,
{
    if i < keys.len() {
        lemma_last_position(keys.drop_last(), k, i);
        assert(keys.drop_last().take(i) =~= keys.take(i));
    } else {
        assert(keys.take(i) =~= keys);
    }
}

/// A row shown as edited while its save is in flight.
#[derive(Clone, Debug, PartialEq)]
pub struct Pending<T> {
    /// The row as edited.
    pub row: T,
    /// Saved, and waiting for a server-backed grid's reload to show the
    /// server's version.
    pub confirmed: bool,
}

/// The keys of the rows being saved, with `None` for those already saved.
pub open spec fn unconfirmed_keys<T: GridRow>(p: Seq<Pending<T>>) -> Seq<Option<T::Key>> {
    p.map_values(|x: Pending<T>| if x.confirmed {
        None
    } else {
        Some(x.row.row_key())
    })
}

/// The keys of the rows shown as edited while saving.
pub open spec fn pending_keys<T: GridRow>(p: Seq<Pending<T>>) -> Seq<T::Key> {
    p.map_values(|x: Pending<T>| x.row.row_key())
}

/// The row with `key` as the unsaved changes have it, if they do.
pub open spec fn changed_current<T: GridRow>(c: Changes<T>, key: T::Key) -> Option<T> {
    match first_position(pair_keys_of(c.updated@), key) {
        Some(j) => Some(c.updated@[j].1),
        None => match first_position(keys_of(c.added@), key) {
            Some(i) => Some(c.added@[i]),
            None => None,
        },
    }
}

/// Rows the grid shows differently from its data: edited rows being saved,
/// and a batch's unsaved changes.
#[derive(Clone, Debug)]
pub struct EditRows<T> {
    /// Edited rows whose save is in flight, or saved and not yet reloaded.
    pub pending: Vec<Pending<T>>,
    /// The batch's changes.
    pub changes: Changes<T>,
}

impl<T: GridRow + PartialEq> EditRows<T> {
    /// Nothing being saved, no changes.
    pub fn new() -> (r: Self)
        ensures
            r.pending@.len() == 0,
            r.changes.updated@.len() == 0,
            r.changes.added@.len() == 0,
            r.changes.deleted@.len() == 0,
    {
        EditRows { pending: Vec::new(), changes: Changes::new() }
    }

    /// The row with `key` as the grid should show it, if not as in the
    /// data: as the batch changed it, otherwise as it was last sent to be
    /// saved.
    pub fn current(&self, key: &T::Key) -> (r: Option<&T>)
        requires
            row_model::<T>(),
        ensures
            match changed_current(self.changes, *key) {
                Some(x) => r matches Some(y) && *y == x,
                None => match last_position(pending_keys(self.pending@), *key) {
                    Some(i) => r matches Some(y) && *y == self.pending@[i].row,
                    None => r is None,
                },
            },
    {
        match self.changes.current(key) {
            Some(row) => return Some(row),
            None => {},
        }
        assert(changed_current(self.changes, *key) is None);
        let ghost keys = pending_keys(self.pending@);
        let mut i: usize = self.pending.len();
        while i > 0
            invariant
                i <= self.pending@.len(),
                changed_current(self.changes, *key) is None,
                row_model::<T>(),
                keys == pending_keys(self.pending@),
                forall|j: int| i <= j < keys.len() ==> keys[j] != *key,
            decreases i,
        {
            proof {
                reveal(vstd::laws_eq::obeys_concrete_eq);
            }
            let k = self.pending[i - 1].row.key();
            proof {
                lemma_row_key(&self.pending@[i - 1].row, k);
            }
            if k == *key {
                proof {
                    lemma_last_position(keys, *key, i as int);
                    assert(keys.take(i as int).last() == *key);
                    assert(last_position(keys.take(i as int), *key) == Some(i - 1));
                }
                return Some(&self.pending[i - 1].row);
            }
            i = i - 1;
        }
        proof {
            lemma_last_position(keys, *key, 0);
        }
        None
    }

    /// Shows `row` as edited while its save runs.
    pub fn start_saving(&mut self, row: T)
        ensures
            final(self).pending@ == old(self).pending@.push(Pending { row, confirmed: false }),
            final(self).changes == old(self).changes,
    {
        self.pending.push(Pending { row, confirmed: false });
    }

    /// A save of the row with `key` ended: a server-backed grid keeps
    /// showing a saved row until its reload arrives; otherwise, and after a
    /// failure, the row as edited is no longer shown.
    pub fn finish_saving(&mut self, key: &T::Key, remote: bool, saved: bool)
        requires
            row_model::<T>(),
        ensures
            final(self).changes == old(self).changes,
            match first_position(unconfirmed_keys(old(self).pending@), Some(*key)) {
                None => final(self).pending@ == old(self).pending@,
                Some(i) => if remote && saved {
                    final(self).pending@ == old(self).pending@.update(
                        i,
                        Pending { row: old(self).pending@[i].row, confirmed: true },
                    )
                } else {
                    final(self).pending@ == old(self).pending@.remove(i)
                },
            },
    {
        let ghost keys = unconfirmed_keys(self.pending@);
        let mut i: usize = 0;
        while i < self.pending.len()
            invariant
                i <= self.pending@.len(),
                row_model::<T>(),
                self.pending@ == old(self).pending@,
                self.changes == old(self).changes,
                keys == unconfirmed_keys(self.pending@),
                forall|j: int| 0 <= j < i ==> keys[j] != Some(*key),
            decreases self.pending.len() - i,
        {
            proof {
                reveal(vstd::laws_eq::obeys_concrete_eq);
            }
            if !self.pending[i].confirmed {
                let k = self.pending[i].row.key();
                proof {
                    lemma_row_key(&self.pending@[i as int].row, k);
                }
                if k == *key {
                    proof {
                        lemma_first_position(keys, Some(*key), i as int);
                    }
                    if remote && saved {
                        let mut entry = self.pending.remove(i);
                        entry.confirmed = true;
                        self.pending.insert(i, entry);
                        proof {
                            assert(self.pending@ =~= old(self).pending@.update(
                                i as int,
                                Pending { row: old(self).pending@[i as int].row, confirmed: true },
                            ));
                        }
                    } else {
                        self.pending.remove(i);
                    }
                    return;
                }
            } else {
                assert(keys[i as int] is None);
            }
            i = i + 1;
        }
        proof {
            lemma_first_position(keys, Some(*key), i as int);
        }
    }

    /// Whether the row with `key` is shown as edited while its save runs.
    pub fn is_saving(&self, key: &T::Key) -> (r: bool)
        requires
            row_model::<T>(),
        ensures
            r == unconfirmed_keys(self.pending@).contains(Some(*key)),
    {
        let ghost keys = unconfirmed_keys(self.pending@);
        let mut i: usize = 0;
        while i < self.pending.len()
            invariant
                i <= self.pending@.len(),
                row_model::<T>(),
                keys == unconfirmed_keys(self.pending@),
                forall|j: int| 0 <= j < i ==> keys[j] != Some(*key),
            decreases self.pending.len() - i,
        {
            proof {
                reveal(vstd::laws_eq::obeys_concrete_eq);
            }
            if !self.pending[i].confirmed {
                let k = self.pending[i].row.key();
                proof {
                    lemma_row_key(&self.pending@[i as int].row, k);
                }
                if k == *key {
                    assert(keys[i as int] == Some(*key));
                    return true;
                }
            }
            i = i + 1;
        }
        false
    }

    /// Forgets the saved rows once a server-backed grid's new page has
    /// arrived.
    pub fn drop_confirmed(&mut self)
        ensures
            final(self).pending@ == old(self).pending@.filter(|x: Pending<T>| !x.confirmed),
            final(self).changes == old(self).changes,
    {
        let mut kept: Vec<Pending<T>> = Vec::new();
        let mut all: Vec<Pending<T>> = Vec::new();
        std::mem::swap(&mut all, &mut self.pending);
        let ghost original = all@;
        let n = all.len();
        let mut k: usize = 0;
        assert(original.skip(0) =~= original);
        while all.len() > 0
            invariant
                k <= n,
                n == original.len(),
                all@ == original.skip(k as int),
                kept@ == original.take(k as int).filter(|x: Pending<T>| !x.confirmed),
                self.changes == old(self).changes,
                original == old(self).pending@,
            decreases all.len(),
        {
            let entry = all.remove(0);
            proof {
                assert(entry == original[k as int]);
                assert(original.take(k + 1).drop_last() =~= original.take(k as int));
                assert(all@ =~= original.skip(k + 1));
                reveal(Seq::filter);
            }
            if !entry.confirmed {
                kept.push(entry);
            }
            k = k + 1;
        }
        assert(original.take(k as int) =~= original);
        self.pending = kept;
    }

    /// The batch was saved: its changes are gone, and a server-backed grid
    /// shows the saved versions of the changed rows until its reload
    /// arrives.
    pub fn batch_saved(&mut self, remote: bool)
        ensures
            final(self).changes.updated@.len() == 0,
            final(self).changes.added@.len() == 0,
            final(self).changes.deleted@.len() == 0,
            final(self).pending@ == if remote {
                old(self).pending@ + old(self).changes.updated@.map_values(|p: (T, T)| Pending { row: p.1, confirmed: true })
            } else {
                old(self).pending@
            },
    {
        let mut changes = Changes::new();
        std::mem::swap(&mut changes, &mut self.changes);
        if remote {
            let ghost start = self.pending@;
            let ghost saved = changes.updated@;
            let mut rest = changes.updated;
            let n = rest.len();
            let mut k: usize = 0;
            assert(saved.skip(0) =~= saved);
            while rest.len() > 0
                invariant
                    k <= n,
                    n == saved.len(),
                    rest@ == saved.skip(k as int),
                    self.pending@ == start + saved.take(k as int).map_values(|p: (T, T)| Pending { row: p.1, confirmed: true }),
                    self.changes.updated@.len() == 0,
                    self.changes.added@.len() == 0,
                    self.changes.deleted@.len() == 0,
                decreases rest.len(),
            {
                let pair = rest.remove(0);
                proof {
                    assert(pair == saved[k as int]);
                    assert(rest@ =~= saved.skip(k + 1));
                    assert(saved.take(k + 1) =~= saved.take(k as int).push(pair));
                }
                self.pending.push(Pending { row: pair.1, confirmed: true });
                proof {
                    assert(saved.take(k + 1).map_values(|p: (T, T)| Pending { row: p.1, confirmed: true }) =~= saved.take(
                        k as int,
                    ).map_values(|p: (T, T)| Pending { row: p.1, confirmed: true }).push(Pending { row: pair.1, confirmed: true }));
                }
                k = k + 1;
            }
            assert(saved.take(k as int) =~= saved);
        }
    }
}

} // verus!
