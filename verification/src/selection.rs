//! Row selection, including shift-range selection.

use crate::state::{first_position, lemma_first_position};
use std::collections::HashSet;
use std::hash::Hash;
use vstd::prelude::*;

verus! {

broadcast use {
    vstd::std_specs::hash::group_hash_axioms,
    vstd::seq_lib::seq_to_set_is_finite,
};

/// How many rows the user may select.
#[derive(Clone, Copy, Debug, PartialEq, Eq, Structural, Hash)]
pub enum SelectionMode {
    /// Selection is disabled; every mutating call leaves the selection as
    /// it is.
    Disabled,
    /// At most one row at a time.
    Single,
    /// Any number of rows, including shift-ranges.
    Multi,
}

impl Default for SelectionMode {
    fn default() -> (r: Self)
        ensures
            r == SelectionMode::Disabled,
    {
        SelectionMode::Disabled
    }
}

/// What the selection needs of its key type: `==` is equality and a clone
/// is the same key.
pub open spec fn key_model<K: Clone + PartialEq>() -> bool {
    &&& vstd::laws_eq::obeys_concrete_eq::<K>()
    &&& forall|a: K, b: K| #[trigger] vstd::pervasive::strictly_cloned(a, b) ==> a == b
}

/// The selected row keys, plus the anchor a shift-range extends from.
///
/// Keys are whatever identifies a row, so a selection survives sorting,
/// filtering and paging.
#[derive(Clone, Debug)]
pub struct Selection<K> {
    selected: Vec<K>,
    anchor: Option<K>,
}

impl<K> View for Selection<K> {
    type V = Set<K>;

    /// The selected keys.
    closed spec fn view(&self) -> Set<K> {
        self.selected@.to_set()
    }
}

/// How one selection relates to another after selecting `key` in `mode`:
/// replaced by it in single mode, added to in multi mode, left alone when
/// selection is disabled; the key becomes the anchor.
pub open spec fn selects<K>(
    before: Set<K>,
    before_anchor: Option<K>,
    after: Set<K>,
    after_anchor: Option<K>,
    key: K,
    mode: SelectionMode,
) -> bool {
    match mode {
        SelectionMode::Disabled => after == before && after_anchor == before_anchor,
        SelectionMode::Single => after == Set::empty().insert(key) && after_anchor == Some(key),
        SelectionMode::Multi => after == before.insert(key) && after_anchor == Some(key),
    }
}

/// The stretch of `ordered` between the anchor and `key`, ends included,
/// when both are in it.
pub open spec fn extend_range<K>(anchor: Option<K>, ordered: Seq<K>, key: K) -> Option<(int, int)> {
    match anchor {
        Some(a) => match (first_position(ordered, a), first_position(ordered, key)) {
            (Some(from), Some(to)) => if from <= to {
                Some((from, to))
            } else {
                Some((to, from))
            },
            _ => None,
        },
        None => None,
    }
}

impl<K> Selection<K> {
    /// Whether the selection is well formed: its keys are held once each.
    pub closed spec fn wf(&self) -> bool {
        self.selected@.no_duplicates()
    }

    /// The key a shift-range would extend from.
    pub closed spec fn anchor_key(&self) -> Option<K> {
        self.anchor
    }

    /// The selected keys in the order they were selected.
    pub closed spec fn listing(&self) -> Seq<K> {
        self.selected@
    }
}

/// Removing an entry of a sequence without duplicates removes exactly that
/// key from its set.
proof fn lemma_remove_to_set<K>(s: Seq<K>, i: int)
    requires
        s.no_duplicates(),
        0 <= i < s.len(),
    ensures
        s.remove(i).to_set() == s.to_set().remove(s[i]),
        s.remove(i).no_duplicates(),
{
    let t = s.remove(i);
    assert forall|x: K| t.to_set().contains(x) <==> s.to_set().remove(s[i]).contains(x) by {
        if t.contains(x) {
            let j = choose|j: int| 0 <= j < t.len() && t[j] == x;
            if j < i {
                assert(s[j] == x);
            } else {
                assert(s[j + 1] == x);
            }
        }
        if s.contains(x) && x != s[i] {
            let j = choose|j: int| 0 <= j < s.len() && s[j] == x;
            if j < i {
                assert(t[j] == x);
            } else {
                assert(t[j - 1] == x);
            }
        }
    }
    assert(t.to_set() =~= s.to_set().remove(s[i]));
    assert forall|a: int, b: int| 0 <= a < t.len() && 0 <= b < t.len() && a != b implies t[a] != t[b] by {
        let a2 = if a < i {
            a
        } else {
            a + 1
        };
        let b2 = if b < i {
            b
        } else {
            b + 1
        };
        assert(t[a] == s[a2] && t[b] == s[b2]);
    }
}

/// Appending a key not yet present keeps the keys distinct and adds it to
/// the set.
proof fn lemma_push_to_set<K>(s: Seq<K>, x: K)
    requires
        s.no_duplicates(),
        !s.contains(x),
    ensures
        s.push(x).to_set() == s.to_set().insert(x),
        s.push(x).no_duplicates(),
{
    let t = s.push(x);
    assert forall|y: K| t.to_set().contains(y) <==> s.to_set().insert(x).contains(y) by {
        if t.contains(y) {
            let j = choose|j: int| 0 <= j < t.len() && t[j] == y;
            if j < s.len() {
                assert(s[j] == y);
            }
        }
        if s.contains(y) {
            let j = choose|j: int| 0 <= j < s.len() && s[j] == y;
            assert(t[j] == y);
        }
        if y == x {
            assert(t[s.len() as int] == y);
        }
    }
    assert(t.to_set() =~= s.to_set().insert(x));
    assert forall|a: int, b: int| 0 <= a < t.len() && 0 <= b < t.len() && a != b implies t[a] != t[b] by {
        if a < s.len() && b < s.len() {
            assert(t[a] == s[a] && t[b] == s[b]);
        } else if a < s.len() {
            assert(t[a] == s[a]);
        } else if b < s.len() {
            assert(t[b] == s[b]);
        }
    }
}

/// Where `key` first occurs in `keys`.
fn position_of<K: Clone + Eq + Hash>(keys: &[K], key: &K) -> (r: Option<usize>)
    requires
        key_model::<K>(),
    ensures
        match first_position(keys@, *key) {
            Some(p) => r matches Some(j) && j as int == p,
            None => r is None,
        },
        r matches Some(j) ==> j < keys@.len() && keys@[j as int] == *key,
        r is None ==> forall|j: int| 0 <= j < keys@.len() ==> keys@[j] != *key,
{
    proof {
        reveal(vstd::laws_eq::obeys_concrete_eq);
    }
    let mut i: usize = 0;
    while i < keys.len()
        invariant
            i <= keys@.len(),
            key_model::<K>(),
            forall|j: int| 0 <= j < i ==> keys@[j] != *key,
        decreases keys.len() - i,
    {
        proof {
            reveal(vstd::laws_eq::obeys_concrete_eq);
        }
        if keys[i] == *key {
            proof {
                lemma_first_position(keys@, *key, i as int);
            }
            return Some(i);
        }
        i = i + 1;
    }
    proof {
        lemma_first_position(keys@, *key, i as int);
    }
    None
}

/// A clone of `key`, which is the same key.
fn copy_key<K: Clone + Eq + Hash>(key: &K) -> (r: K)
    requires
        key_model::<K>(),
    ensures
        r == *key,
{
    let r = key.clone();
    proof {
        assert(vstd::pervasive::strictly_cloned(*key, r));
    }
    r
}

impl<K: Clone + Eq + Hash> Selection<K> {
    /// An empty selection.
    pub fn new() -> (r: Self)
        ensures
            r.wf(),
            r@ == Set::<K>::empty(),
            r.anchor_key() is None,
    {
        let r = Selection { selected: Vec::new(), anchor: None };
        assert(r@ =~= Set::<K>::empty());
        r
    }

    /// Where `key` is among the selected keys.
    fn find(&self, key: &K) -> (r: Option<usize>)
        requires
            self.wf(),
            key_model::<K>(),
        ensures
            match r {
                Some(i) => i < self.selected@.len() && self.selected@[i as int] == *key,
                None => !self@.contains(*key),
            },
    {
        let keys = self.selected.as_slice();
        let r = position_of(keys, key);
        proof {
            if r is None {
                assert forall|x: K| self.selected@.contains(x) implies x != *key by {
                    let j = choose|j: int| 0 <= j < self.selected@.len() && self.selected@[j] == x;
                    assert(keys@[j] == x);
                }
            }
        }
        r
    }

    /// Adds `key` if it is not selected yet.
    fn insert_key(&mut self, key: K)
        requires
            old(self).wf(),
            key_model::<K>(),
        ensures
            final(self).wf(),
            final(self)@ == old(self)@.insert(key),
            final(self).anchor == old(self).anchor,
    {
        match self.find(&key) {
            Some(_) => {
                assert(self@.insert(key) =~= self@);
            },
            None => {
                proof {
                    lemma_push_to_set(self.selected@, key);
                }
                self.selected.push(key);
            },
        }
    }

    /// Whether a row is selected.
    pub fn contains(&self, key: &K) -> (r: bool)
        requires
            self.wf(),
            key_model::<K>(),
        ensures
            r == self@.contains(*key),
    {
        self.find(key).is_some()
    }

    /// How many rows are selected.
    pub fn len(&self) -> (r: usize)
        requires
            self.wf(),
        ensures
            r == self@.len(),
    {
        proof {
            self.selected@.unique_seq_to_set();
        }
        self.selected.len()
    }

    /// Whether nothing is selected.
    pub fn is_empty(&self) -> (r: bool)
        requires
            self.wf(),
        ensures
            r == (self@ == Set::<K>::empty()),
    {
        proof {
            self.selected@.unique_seq_to_set();
            if self.selected@.len() > 0 {
                assert(self@.contains(self.selected@[0]));
            } else {
                assert(self@ =~= Set::<K>::empty());
            }
        }
        self.selected.len() == 0
    }

    /// The selected keys, in the order they were selected.
    pub fn iter(&self) -> (r: std::slice::Iter<'_, K>)
        requires
            self.wf(),
        ensures
            vstd::std_specs::slice::into_iter_elts(r) == self.listing(),
            self.listing().to_set() == self@,
            self.listing().no_duplicates(),
    {
        let r = self.selected.as_slice().iter();
        assert(vstd::std_specs::slice::into_iter_elts(r) =~= self.selected@);
        r
    }

    /// The rows a delete stands for, given the focused row: the selection,
    /// in the order it was made, if the focused row is part of it or no row
    /// is focused; otherwise the focused row alone.
    pub fn delete_candidates(&self, focused: Option<&K>) -> (r: Vec<K>)
        requires
            self.wf(),
            key_model::<K>(),
        ensures
            match focused {
                Some(k) => if self@.contains(*k) {
                    r@ == self.listing()
                } else {
                    r@ == seq![*k]
                },
                None => r@ == self.listing(),
            },
    {
        if let Some(k) = focused {
            if !self.contains(k) {
                let key = k.clone();
                assert(vstd::pervasive::strictly_cloned(*k, key));
                return vec![key];
            }
        }
        let mut out: Vec<K> = Vec::new();
        let mut i: usize = 0;
        while i < self.selected.len()
            invariant
                i <= self.selected@.len(),
                key_model::<K>(),
                out@ == self.selected@.take(i as int),
            decreases self.selected.len() - i,
        {
            let key = self.selected[i].clone();
            assert(vstd::pervasive::strictly_cloned(self.selected@[i as int], key));
            out.push(key);
            assert(out@ =~= self.selected@.take(i + 1));
            i = i + 1;
        }
        assert(self.selected@.take(i as int) =~= self.selected@);
        out
    }

    /// The key a shift-range would extend from.
    pub fn anchor(&self) -> (r: Option<&K>)
        ensures
            match r {
                Some(a) => self.anchor_key() == Some(*a),
                None => self.anchor_key() is None,
            },
    {
        self.anchor.as_ref()
    }

    /// Selects a row: replaces the selection in single mode, adds to it in
    /// multi mode. Sets the anchor for a later
    /// [`extend_to`](Selection::extend_to).
    pub fn select(&mut self, key: K, mode: SelectionMode)
        requires
            old(self).wf(),
            key_model::<K>(),
        ensures
            final(self).wf(),
            selects(old(self)@, old(self).anchor_key(), final(self)@, final(self).anchor_key(), key, mode),
    {
        match mode {
            SelectionMode::Disabled => {},
            SelectionMode::Single => {
                let copy = copy_key(&key);
                self.selected = Vec::new();
                proof {
                    assert(self@ =~= Set::<K>::empty());
                }
                self.insert_key(copy);
                self.anchor = Some(key);
            },
            SelectionMode::Multi => {
                let copy = copy_key(&key);
                self.insert_key(copy);
                self.anchor = Some(key);
            },
        }
    }

    /// Toggles a row. In single mode, toggling another row replaces the
    /// selection and toggling the selected one clears it and the anchor;
    /// in multi mode the row is added or removed and becomes the anchor.
    pub fn toggle(&mut self, key: K, mode: SelectionMode)
        requires
            old(self).wf(),
            key_model::<K>(),
        ensures
            final(self).wf(),
            match mode {
                SelectionMode::Disabled => final(self)@ == old(self)@ && final(self).anchor_key() == old(self).anchor_key(),
                SelectionMode::Single => if old(self)@.contains(key) {
                    final(self)@ == Set::<K>::empty() && final(self).anchor_key() is None
                } else {
                    final(self)@ == Set::<K>::empty().insert(key) && final(self).anchor_key() == Some(key)
                },
                SelectionMode::Multi => final(self).anchor_key() == Some(key) && if old(self)@.contains(key) {
                    final(self)@ == old(self)@.remove(key)
                } else {
                    final(self)@ == old(self)@.insert(key)
                },
            },
    {
        match mode {
            SelectionMode::Disabled => {},
            SelectionMode::Single => {
                if self.contains(&key) {
                    self.selected = Vec::new();
                    self.anchor = None;
                    assert(self@ =~= Set::<K>::empty());
                } else {
                    self.select(key, mode);
                }
            },
            SelectionMode::Multi => {
                match self.find(&key) {
                    Some(i) => {
                        proof {
                            lemma_remove_to_set(self.selected@, i as int);
                        }
                        self.selected.remove(i);
                    },
                    None => {
                        let copy = copy_key(&key);
                        self.insert_key(copy);
                    },
                }
                self.anchor = Some(key);
            },
        }
    }

    /// Deselects a row without touching the rest of the selection.
    pub fn deselect(&mut self, key: &K)
        requires
            old(self).wf(),
            key_model::<K>(),
        ensures
            final(self).wf(),
            final(self)@ == old(self)@.remove(*key),
            final(self).anchor_key() == old(self).anchor_key(),
    {
        match self.find(key) {
            Some(i) => {
                proof {
                    lemma_remove_to_set(self.selected@, i as int);
                }
                self.selected.remove(i);
            },
            None => {
                assert(self@.remove(*key) =~= self@);
            },
        }
    }

    /// Clears the selection and the anchor.
    pub fn clear(&mut self)
        ensures
            final(self).wf(),
            final(self)@ == Set::<K>::empty(),
            final(self).anchor_key() is None,
    {
        self.selected = Vec::new();
        self.anchor = None;
        assert(self@ =~= Set::<K>::empty());
    }

    /// Selects every key between the anchor and `key`, both included, in
    /// the order `ordered_keys` shows them.
    ///
    /// Only multi mode extends; any other mode, a missing anchor, or an
    /// end that `ordered_keys` does not hold falls back to a plain
    /// [`select`](Selection::select). Extending keeps the anchor, so a
    /// range can be dragged back and forth from the same origin.
    pub fn extend_to(&mut self, ordered_keys: &[K], key: K, mode: SelectionMode)
        requires
            old(self).wf(),
            key_model::<K>(),
        ensures
            final(self).wf(),
            match (mode, extend_range(old(self).anchor_key(), ordered_keys@, key)) {
                (SelectionMode::Multi, Some((start, end))) => final(self)@ == old(self)@.union(
                    ordered_keys@.subrange(start, end + 1).to_set(),
                ) && final(self).anchor_key() == old(self).anchor_key(),
                _ => selects(old(self)@, old(self).anchor_key(), final(self)@, final(self).anchor_key(), key, mode),
            },
    {
        if mode != SelectionMode::Multi {
            self.select(key, mode);
            return;
        }
        let from = match &self.anchor {
            Some(anchor) => position_of(ordered_keys, anchor),
            None => None,
        };
        let to = position_of(ordered_keys, &key);
        let (from, to) = match (from, to) {
            (Some(f), Some(t)) => (f, t),
            _ => {
                self.select(key, mode);
                return;
            },
        };
        let (start, end) = if from <= to {
            (from, to)
        } else {
            (to, from)
        };
        let ghost before = self@;
        let ghost anchor = self.anchor;
        let mut i = start;
        while i <= end
            invariant
                start <= i <= end + 1,
                end < ordered_keys@.len(),
                key_model::<K>(),
                self.wf(),
                self.anchor == anchor,
                self@ == before.union(ordered_keys@.subrange(start as int, i as int).to_set()),
            decreases end + 1 - i,
        {
            let copy = copy_key(&ordered_keys[i]);
            self.insert_key(copy);
            proof {
                let s1 = ordered_keys@.subrange(start as int, i as int);
                let s2 = ordered_keys@.subrange(start as int, i + 1);
                assert(s2 =~= s1.push(ordered_keys@[i as int]));
                assert forall|x: K| s2.to_set().contains(x) <==> s1.to_set().insert(ordered_keys@[i as int]).contains(x) by {
                    if s2.contains(x) {
                        let j = choose|j: int| 0 <= j < s2.len() && s2[j] == x;
                        if j < s1.len() {
                            assert(s1[j] == x);
                        }
                    }
                    if s1.contains(x) {
                        let j = choose|j: int| 0 <= j < s1.len() && s1[j] == x;
                        assert(s2[j] == x);
                    }
                    if x == ordered_keys@[i as int] {
                        assert(s2[s1.len() as int] == x);
                    }
                }
                assert(self@ =~= before.union(s2.to_set()));
            }
            i = i + 1;
        }
    }

    /// Replaces the selection with exactly these keys and clears the
    /// anchor.
    pub fn set(&mut self, keys: Vec<K>)
        requires
            key_model::<K>(),
        ensures
            final(self).wf(),
            final(self)@ == keys@.to_set(),
            final(self).anchor_key() is None,
    {
        self.selected = Vec::new();
        self.anchor = None;
        let mut i: usize = 0;
        assert(self@ =~= keys@.take(0).to_set());
        while i < keys.len()
            invariant
                i <= keys@.len(),
                key_model::<K>(),
                self.wf(),
                self.anchor is None,
                self@ == keys@.take(i as int).to_set(),
            decreases keys.len() - i,
        {
            let copy = copy_key(&keys[i]);
            self.insert_key(copy);
            proof {
                let s1 = keys@.take(i as int);
                let s2 = keys@.take(i + 1);
                assert forall|x: K| s2.to_set().contains(x) <==> s1.to_set().insert(keys@[i as int]).contains(x) by {
                    if s2.contains(x) {
                        let j = choose|j: int| 0 <= j < s2.len() && s2[j] == x;
                        if j < s1.len() {
                            assert(s1[j] == x);
                        }
                    }
                    if s1.contains(x) {
                        let j = choose|j: int| 0 <= j < s1.len() && s1[j] == x;
                        assert(s2[j] == x);
                    }
                    if x == keys@[i as int] {
                        assert(s2[i as int] == x);
                    }
                }
                assert(self@ =~= s2.to_set());
            }
            i = i + 1;
        }
        assert(keys@.take(i as int) =~= keys@);
    }

    /// Drops selected keys that are not in `keys`, and the anchor if it is
    /// not among them either.
    pub fn retain_existing(&mut self, keys: &HashSet<K>)
        requires
            old(self).wf(),
            key_model::<K>(),
            vstd::std_specs::hash::obeys_key_model::<K>(),
        ensures
            final(self).wf(),
            final(self)@ == old(self)@.filter(|k: K| keys@.contains(k)),
            final(self).anchor_key() == match old(self).anchor_key() {
                Some(a) => if keys@.contains(a) {
                    Some(a)
                } else {
                    None
                },
                None => None,
            },
    {
        let ghost before = self.selected@;
        let mut kept: Vec<K> = Vec::new();
        let mut i: usize = 0;
        while i < self.selected.len()
            invariant
                i <= before.len(),
                self.selected@ == before,
                before.no_duplicates(),
                key_model::<K>(),
                vstd::std_specs::hash::obeys_key_model::<K>(),
                kept@.no_duplicates(),
                kept@.to_set() == before.take(i as int).to_set().filter(|k: K| keys@.contains(k)),
                forall|x: K| kept@.contains(x) ==> before.take(i as int).contains(x),
            decreases before.len() - i,
        {
            let ghost s1 = before.take(i as int);
            let ghost s2 = before.take(i + 1);
            let ghost x = before[i as int];
            assert(s2 =~= s1.push(x));
            let present = keys.contains(&self.selected[i]);
            if present {
                let copy = copy_key(&self.selected[i]);
                proof {
                    assert(!kept@.contains(x)) by {
                        if kept@.contains(x) {
                            assert(s1.contains(x));
                            let j = choose|j: int| 0 <= j < s1.len() && s1[j] == x;
                            assert(before[j] == before[i as int]);
                        }
                    }
                    lemma_push_to_set(kept@, x);
                }
                kept.push(copy);
            }
            proof {
                assert forall|y: K| #[trigger] kept@.to_set().contains(y) <==> s2.to_set().filter(|k: K| keys@.contains(k)).contains(y) by {
                    if s1.contains(y) {
                        let j = choose|j: int| 0 <= j < s1.len() && s1[j] == y;
                        assert(s2[j] == y);
                    }
                    if s2.contains(y) && y != x {
                        let j = choose|j: int| 0 <= j < s2.len() && s2[j] == y;
                        assert(j < s1.len());
                        assert(s1[j] == y);
                    }
                    if y == x {
                        assert(s2[i as int] == y);
                    }
                }
                assert(kept@.to_set() =~= s2.to_set().filter(|k: K| keys@.contains(k)));
                assert forall|y: K| kept@.contains(y) implies s2.contains(y) by {
                    if y != x {
                        assert(kept@.to_set().contains(y));
                        assert(s1.contains(y));
                        let j = choose|j: int| 0 <= j < s1.len() && s1[j] == y;
                        assert(s2[j] == y);
                    } else {
                        assert(s2[i as int] == y);
                    }
                }
            }
            i = i + 1;
        }
        assert(before.take(i as int) =~= before);
        self.selected = kept;
        let drop_anchor = match &self.anchor {
            Some(a) => !keys.contains(a),
            None => false,
        };
        if drop_anchor {
            self.anchor = None;
        }
        assert(self@ =~= before.to_set().filter(|k: K| keys@.contains(k)));
    }

    /// Whether every key of this selection is also selected in `other`,
    /// where the key type behaves as [`key_model`] describes.
    fn included_in(&self, other: &Self) -> (r: bool)
        ensures
            key_model::<K>() ==> r == self@.subset_of(other@),
    {
        let mut i: usize = 0;
        while i < self.selected.len()
            invariant
                i <= self.selected@.len(),
                key_model::<K>() ==> forall|j: int| 0 <= j < i ==> other@.contains(#[trigger] self.selected@[j]),
            decreases self.selected.len() - i,
        {
            let mut found = false;
            let mut k: usize = 0;
            while k < other.selected.len()
                invariant
                    i < self.selected@.len(),
                    k <= other.selected@.len(),
                    key_model::<K>() ==> (found ==> other@.contains(self.selected@[i as int])),
                    key_model::<K>() ==> (!found ==> forall|j: int| 0 <= j < k ==> other.selected@[j] != self.selected@[i as int]),
                decreases other.selected.len() - k,
            {
                proof {
                    reveal(vstd::laws_eq::obeys_concrete_eq);
                }
                if other.selected[k] == self.selected[i] {
                    proof {
                        if key_model::<K>() {
                            assert(other.selected@.contains(other.selected@[k as int]));
                        }
                    }
                    found = true;
                }
                k = k + 1;
            }
            if !found {
                proof {
                    if key_model::<K>() {
                        assert(self@.contains(self.selected@[i as int]));
                        assert(!other@.contains(self.selected@[i as int]));
                    }
                }
                return false;
            }
            i = i + 1;
        }
        proof {
            if key_model::<K>() {
                assert forall|x: K| self@.contains(x) implies other@.contains(x) by {
                    let j = choose|j: int| 0 <= j < self.selected@.len() && self.selected@[j] == x;
                }
            }
        }
        true
    }
}

impl<K: Clone + Eq + Hash> PartialEq for Selection<K> {
    /// Compares the selected keys; the anchor is interaction bookkeeping,
    /// not part of what is selected.
    fn eq(&self, other: &Self) -> (r: bool) {
        let r = self.included_in(other) && other.included_in(self);
        proof {
            if key_model::<K>() {
                if self@.subset_of(other@) && other@.subset_of(self@) {
                    assert(self@ =~= other@);
                }
            }
        }
        r
    }
}

impl<K: Clone + Eq + Hash> vstd::std_specs::cmp::PartialEqSpecImpl for Selection<K> {
    open spec fn obeys_eq_spec() -> bool {
        key_model::<K>()
    }

    open spec fn eq_spec(&self, other: &Self) -> bool {
        self@ == other@
    }
}

/// Selecting a row in multi mode adds it and keeps every row already
/// selected; in single mode it leaves that row alone selected; either way
/// it becomes the anchor. Selection disabled changes nothing.
pub proof fn lemma_select_adds_the_row<K>(
    before: Set<K>,
    before_anchor: Option<K>,
    after: Set<K>,
    after_anchor: Option<K>,
    key: K,
    mode: SelectionMode,
)
    requires
        selects(before, before_anchor, after, after_anchor, key, mode),
    ensures
        mode == SelectionMode::Multi ==> after.contains(key) && before.subset_of(after) && after.remove(key).subset_of(
            before,
        ) && after_anchor == Some(key),
        mode == SelectionMode::Single ==> after.contains(key) && (forall|k: K| after.contains(k) ==> k == key)
            && after_anchor == Some(key),
        mode == SelectionMode::Disabled ==> after == before && after_anchor == before_anchor,
{
}

/// Extending from the anchor to a row, both among the ordered rows, takes
/// in every row between them, ends included, whichever comes first.
pub proof fn lemma_extend_takes_the_stretch<K>(anchor: K, ordered: Seq<K>, key: K, i: int, j: int)
    requires
        0 <= i < ordered.len(),
        0 <= j < ordered.len(),
        ordered[i] == anchor,
        ordered[j] == key,
        forall|x: int| 0 <= x < i ==> ordered[x] != anchor,
        forall|x: int| 0 <= x < j ==> ordered[x] != key,
    ensures
        extend_range(Some(anchor), ordered, key) == Some(if i <= j {
            (i, j)
        } else {
            (j, i)
        }),
{
    lemma_first_position(ordered, anchor, i);
    lemma_first_position(ordered, key, j);
}

} // verus!
