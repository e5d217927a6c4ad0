//! The store: a root path, an in-memory byte store standing for the files
//! beneath the root, and a registry arbitrating exclusive access.
//!
//! Each identifier is Free or Locked; `create`, `retrieve` and `get` move
//! it to Locked and hand out the one live handle, `release` moves it back
//! to Free, persisting the entry when it was mutated or freshly created.
//! The surrounding program loads file text in through `preload` and writes
//! it back out from `file_text`; nothing here touches the real filesystem.

use vstd::prelude::*;
use crate::StoreError;
use crate::TypeError;
use crate::ident::Identifier;
use crate::ident::id_wf;
use crate::entry::Entry;
use crate::entry::ser_entry;
use crate::entry::parse_entry;
use crate::entry::insert_path;
use crate::codec::uniq_val;
use crate::codec::uniq_pairs;
use crate::entry::delete_path;
use crate::strutil::spec_split;
use crate::value::HVal;
use crate::value::Value;
use crate::value::model_of;

verus! {

struct Slot {
    id: Identifier,
    disk: Option<String>,
    locked: bool,
}

/// The exclusive handle to one checked-out entry. It is produced only by
/// the store's acquisition operations, so at most one live handle exists
/// per identifier; mutating accessors mark the handle dirty, and releasing
/// it persists the entry exactly when it is dirty or freshly created.
pub struct Handle {
    loc: Identifier,
    entry: Entry,
    dirty: bool,
    fresh: bool,
}

impl Handle {
    /// The identifier this handle has checked out.
    pub closed spec fn location(&self) -> Seq<char> {
        self.loc@
    }

    /// The header tree of the held entry.
    pub closed spec fn header_model(&self) -> Seq<(Seq<char>, HVal)> {
        self.entry.header_model()
    }

    /// The content of the held entry.
    pub closed spec fn content_model(&self) -> Seq<char> {
        self.entry.content_model()
    }

    /// The entry was mutated through this handle.
    pub closed spec fn is_dirty(&self) -> bool {
        self.dirty
    }

    /// The entry was freshly created and not yet persisted.
    pub closed spec fn is_fresh(&self) -> bool {
        self.fresh
    }

    /// The identifier this handle has checked out.
    pub fn get_location(&self) -> (r: &Identifier)
        ensures
            r@ == self.location(),
    {
        &self.loc
    }

    /// Read access to the held entry.
    pub fn get_entry(&self) -> (r: &Entry)
        ensures
            r.header_model() == self.header_model(),
            r.content_model() == self.content_model(),
    {
        &self.entry
    }

    /// Inserts a header value through the handle; marks it dirty.
    pub fn header_insert(&mut self, path: &str, v: Value) -> (r: Result<(), TypeError>)
        ensures
            match r {
                Ok(()) => uniq_val(model_of(v)) && insert_path(
                    old(self).header_model(),
                    spec_split(path@, '.'),
                    model_of(v),
                ) == Some(final (self).header_model()),
                Err(e) => e == TypeError::Mismatch && (insert_path(
                    old(self).header_model(),
                    spec_split(path@, '.'),
                    model_of(v),
                ) == None::<Seq<(Seq<char>, HVal)>> || !uniq_val(model_of(v))) && final (
                self).header_model() == old(self).header_model(),
            },
            final (self).content_model() == old(self).content_model(),
            final (self).is_dirty(),
            final (self).is_fresh() == old(self).is_fresh(),
            final (self).location() == old(self).location(),
            uniq_pairs(old(self).header_model()) ==> uniq_pairs(final (self).header_model()),
    {
        self.dirty = true;
        self.entry.header_insert(path, v)
    }

    /// Deletes a header value through the handle; marks it dirty.
    pub fn header_delete(&mut self, path: &str) -> (r: Result<bool, TypeError>)
        ensures
            match r {
                Ok(b) => delete_path(old(self).header_model(), spec_split(path@, '.')) == Some(
                    (final (self).header_model(), b),
                ),
                Err(e) => e == TypeError::Mismatch && delete_path(
                    old(self).header_model(),
                    spec_split(path@, '.'),
                ) == None::<(Seq<(Seq<char>, HVal)>, bool)> && final (self).header_model() == old(
                    self,
                ).header_model(),
            },
            final (self).content_model() == old(self).content_model(),
            final (self).is_dirty(),
            final (self).is_fresh() == old(self).is_fresh(),
            final (self).location() == old(self).location(),
            uniq_pairs(old(self).header_model()) ==> uniq_pairs(final (self).header_model()),
    {
        self.dirty = true;
        self.entry.header_delete(path)
    }

    /// Replaces the content through the handle; marks it dirty.
    pub fn set_content(&mut self, c: String)
        ensures
            final (self).content_model() == c@,
            final (self).header_model() == old(self).header_model(),
            final (self).is_dirty(),
            final (self).is_fresh() == old(self).is_fresh(),
            final (self).location() == old(self).location(),
    {
        self.dirty = true;
        self.entry.set_content(c);
    }
}

/// The store.
pub struct Store {
    root: String,
    slots: Vec<Slot>,
}

spec fn slot_find(s: Seq<Slot>, k: Seq<char>, i: int) -> int
    decreases s.len() - i,
{
    if i < 0 || i >= s.len() {
        s.len() as int
    } else if s[i].id@ == k {
        i
    } else {
        slot_find(s, k, i + 1)
    }
}

proof fn lemma_slot_find_in_range(s: Seq<Slot>, k: Seq<char>, i: int)
    requires
        0 <= i <= s.len(),
    ensures
        i <= slot_find(s, k, i) <= s.len(),
        slot_find(s, k, i) < s.len() ==> s[slot_find(s, k, i)].id@ == k,
        forall|j: int| i <= j < slot_find(s, k, i) ==> #[trigger] s[j].id@ != k,
    decreases s.len() - i,
{
    if i < s.len() && s[i].id@ != k {
        lemma_slot_find_in_range(s, k, i + 1);
    }
}

proof fn lemma_find_at(s: Seq<Slot>, k: Seq<char>, i: int, j: int)
    requires
        0 <= i <= j < s.len(),
        s[j].id@ == k,
        forall|m: int| i <= m < j ==> (#[trigger] s[m].id@) != k,
    ensures
        slot_find(s, k, i) == j,
    decreases j - i,
{
    if i < j {
        lemma_find_at(s, k, i + 1, j);
    }
}

proof fn lemma_slot_find_same_ids(pre: Seq<Slot>, post: Seq<Slot>, k: Seq<char>, j: int)
    requires
        post.len() == pre.len(),
        forall|m: int| 0 <= m < pre.len() ==> (#[trigger] post[m].id@) == pre[m].id@,
        0 <= j <= pre.len(),
    ensures
        slot_find(post, k, j) == slot_find(pre, k, j),
    decreases pre.len() - j,
{
    if j < pre.len() {
        lemma_slot_find_same_ids(pre, post, k, j + 1);
    }
}

proof fn lemma_find_unique(s: Seq<Slot>, k: Seq<char>, j: int)
    requires
        forall|a: int, b: int|
            0 <= a < b < s.len() ==> (#[trigger] s[a].id@) != (#[trigger] s[b].id@),
        0 <= j < s.len(),
        s[j].id@ == k,
    ensures
        slot_find(s, k, 0) == j,
{
    assert forall|m: int| 0 <= m < j implies (#[trigger] s[m].id@) != k by {
        assert(s[m].id@ != s[j].id@);
    }
    lemma_find_at(s, k, 0, j);
}

spec fn seq_has(s: Seq<Slot>, k: Seq<char>) -> bool {
    slot_find(s, k, 0) < s.len()
}

spec fn seq_disk(s: Seq<Slot>, k: Seq<char>) -> Option<Seq<char>> {
    if seq_has(s, k) {
        match s[slot_find(s, k, 0)].disk {
            Some(t) => Some(t@),
            None => None,
        }
    } else {
        None
    }
}

spec fn seq_locked(s: Seq<Slot>, k: Seq<char>) -> bool {
    seq_has(s, k) && s[slot_find(s, k, 0)].locked
}

/// Replacing one slot by another with the same identifier changes no
/// observation at any other identifier, and the find index stays put.
proof fn lemma_replace(pre: Seq<Slot>, post: Seq<Slot>, i: int)
    requires
        0 <= i < pre.len(),
        post.len() == pre.len(),
        forall|m: int| 0 <= m < pre.len() && m != i ==> #[trigger] post[m] == pre[m],
        post[i].id@ == pre[i].id@,
        slot_find(pre, pre[i].id@, 0) == i,
    ensures
        forall|k: Seq<char>|
            k != pre[i].id@ ==> #[trigger] seq_disk(post, k) == seq_disk(pre, k),
        forall|k: Seq<char>|
            k != pre[i].id@ ==> #[trigger] seq_locked(post, k) == seq_locked(pre, k),
        slot_find(post, pre[i].id@, 0) == i,
{
    assert forall|k: Seq<char>| #[trigger] slot_find(post, k, 0) == slot_find(pre, k, 0) by {
        lemma_slot_find_same_ids(pre, post, k, 0);
    }
    assert forall|k: Seq<char>| k != pre[i].id@ implies #[trigger] seq_disk(post, k) == seq_disk(
        pre,
        k,
    ) by {
        lemma_slot_find_in_range(pre, k, 0);
        let f = slot_find(pre, k, 0);
        if f < pre.len() {
            assert(pre[f].id@ == k);
            assert(f != i);
            assert(post[f] == pre[f]);
        }
    }
    assert forall|k: Seq<char>| k != pre[i].id@ implies #[trigger] seq_locked(post, k)
        == seq_locked(pre, k) by {
        lemma_slot_find_in_range(pre, k, 0);
        let f = slot_find(pre, k, 0);
        if f < pre.len() {
            assert(pre[f].id@ == k);
            assert(f != i);
            assert(post[f] == pre[f]);
        }
    }
}

/// After removing the slot at `i`, every observation at another
/// identifier is unchanged.
proof fn lemma_delete_other(pre: Seq<Slot>, post: Seq<Slot>, i: int, idv: Seq<char>, k: Seq<char>)
    requires
        0 <= i < pre.len(),
        post.len() == pre.len() - 1,
        forall|m: int|
            0 <= m < post.len() ==> #[trigger] post[m] == pre[
                if m < i {
                    m
                } else {
                    m + 1
                }
            ],
        pre[i].id@ == idv,
        k != idv,
    ensures
        seq_disk(post, k) == seq_disk(pre, k),
        seq_locked(post, k) == seq_locked(pre, k),
{
    lemma_slot_find_in_range(pre, k, 0);
    let f = slot_find(pre, k, 0);
    if f < pre.len() {
        assert(pre[f].id@ == k);
        assert(f != i);
        let f2: int = if f < i {
            f
        } else {
            f - 1
        };
        assert(post[f2] == pre[f]);
        assert forall|m: int| 0 <= m < f2 implies (#[trigger] post[m].id@) != k by {
            if m < i {
                assert(post[m] == pre[m]);
            } else {
                assert(post[m] == pre[m + 1]);
            }
        }
        lemma_find_at(post, k, 0, f2);
        assert(slot_find(post, k, 0) == f2);
    } else {
        lemma_slot_find_in_range(post, k, 0);
        if slot_find(post, k, 0) < post.len() {
            let g = slot_find(post, k, 0);
            assert(post[g].id@ == k);
            if g < i {
                assert(pre[g].id@ == k);
            } else {
                assert(pre[g + 1].id@ == k);
            }
            assert(false);
        }
    }
}

impl Store {
    /// The root path the store was opened on.
    pub closed spec fn root_model(&self) -> Seq<char> {
        self.root@
    }

    spec fn find(&self, k: Seq<char>) -> int {
        slot_find(self.slots@, k, 0)
    }

    /// There is a slot (free or locked) for this identifier text.
    pub closed spec fn has_slot(&self, k: Seq<char>) -> bool {
        seq_has(self.slots@, k)
    }

    /// The persisted on-disk text of the entry named `k`, if any.
    pub closed spec fn on_disk(&self, k: Seq<char>) -> Option<Seq<char>> {
        seq_disk(self.slots@, k)
    }

    /// The identifier is currently checked out by a live handle.
    pub closed spec fn is_locked(&self, k: Seq<char>) -> bool {
        seq_locked(self.slots@, k)
    }

    /// Registry sanity: identifiers are well-formed and unique, and a slot
    /// with nothing on disk can only be a freshly created, still-locked one.
    pub closed spec fn wf(&self) -> bool {
        &&& forall|i: int|
            0 <= i < self.slots@.len() ==> id_wf(#[trigger] self.slots@[i].id@)
        &&& forall|i: int, j: int|
            0 <= i < j < self.slots@.len() ==> (#[trigger] self.slots@[i].id@) != (
            #[trigger] self.slots@[j].id@)
        &&& forall|i: int|
            0 <= i < self.slots@.len() ==> ((#[trigger] self.slots@[i].disk) is None
                ==> self.slots@[i].locked)
    }

    /// Opens a store against a root path, with nothing loaded.
    pub fn new(root: String) -> (r: Store)
        ensures
            r.wf(),
            r.root_model() == root@,
            forall|k: Seq<char>| #[trigger] r.on_disk(k) == None::<Seq<char>>,
            forall|k: Seq<char>| !(#[trigger] r.is_locked(k)),
    {
        let s = Store { root, slots: Vec::new() };
        proof {
            assert forall|k: Seq<char>| #[trigger] s.on_disk(k) == None::<Seq<char>> by {
                assert(!s.has_slot(k));
            }
            assert forall|k: Seq<char>| !(#[trigger] s.is_locked(k)) by {
                assert(!s.has_slot(k));
            }
        }
        s
    }

    /// Acquires a fresh entry under `id`. Fails with `Locked` when `id` is
    /// checked out, with `AlreadyExists` when an entry is on disk; else the
    /// returned handle holds a new empty entry and `id` becomes Locked.
    pub fn create(&mut self, id: &Identifier) -> (r: Result<Handle, StoreError>)
        requires
            old(self).wf(),
            id.wf(),
        ensures
            final (self).wf(),
            final (self).root_model() == old(self).root_model(),
            match r {
                Ok(h) => {
                    &&& !old(self).is_locked(id@)
                    &&& old(self).on_disk(id@) is None
                    &&& h.location() == id@
                    &&& h.is_fresh()
                    &&& !h.is_dirty()
                    &&& h.header_model() == Seq::<(Seq<char>, HVal)>::empty()
                    &&& h.content_model() == Seq::<char>::empty()
                    &&& final (self).is_locked(id@)
                    &&& final (self).on_disk(id@) is None
                    &&& forall|k: Seq<char>|
                        k != id@ ==> #[trigger] final (self).on_disk(k) == old(self).on_disk(k)
                    &&& forall|k: Seq<char>|
                        k != id@ ==> #[trigger] final (self).is_locked(k) == old(self).is_locked(k)
                },
                Err(e) => {
                    &&& (e == StoreError::Locked || e == StoreError::AlreadyExists)
                    &&& (e == StoreError::Locked <==> old(self).is_locked(id@))
                    &&& (e == StoreError::AlreadyExists ==> old(self).on_disk(id@) is Some)
                    &&& forall|k: Seq<char>|
                        #[trigger] final (self).on_disk(k) == old(self).on_disk(k)
                    &&& forall|k: Seq<char>|
                        #[trigger] final (self).is_locked(k) == old(self).is_locked(k)
                },
            },
    {
        let ghost pre = self.slots@;
        let i = self.find_x(id);
        proof {
            lemma_slot_find_in_range(pre, id@, 0);
        }
        if i < self.slots.len() {
            if self.slots[i].locked {
                return Err(StoreError::Locked);
            }
            match &self.slots[i].disk {
                Some(_) => Err(StoreError::AlreadyExists),
                None => {
                    proof {
                        assert(self.slots@[i as int].disk is None);
                        assert(self.slots@[i as int].locked);
                        assert(false);
                    }
                    Err(StoreError::AlreadyExists)
                },
            }
        } else {
            assert(!old(self).is_locked(id@) && old(self).on_disk(id@) is None);
            let slot = Slot { id: id.clone(), disk: None, locked: true };
            self.slots.push(slot);
            let h = Handle { loc: id.clone(), entry: Entry::empty(), dirty: false, fresh: true };
            proof {
                let post = self.slots@;
                assert(post[pre.len() as int].id@ == id@);
                assert forall|j: int| 0 <= j < pre.len() implies (#[trigger] post[j].id@)
                    != id@ by {
                    lemma_slot_find_in_range(pre, id@, 0);
                }
                lemma_find_at(post, id@, 0, pre.len() as int);
                assert(self.is_locked(id@));
                assert(self.on_disk(id@) is None);
                self.lemma_push_preserves(pre, id@);
                assert forall|k: Seq<char>| k != id@ implies #[trigger] self.on_disk(k) == old(
                    self,
                ).on_disk(k) by {
                    lemma_slot_find_in_range(pre, k, 0);
                    assert(slot_find(post, k, 0) == if slot_find(pre, k, 0) < pre.len() {
                        slot_find(pre, k, 0)
                    } else {
                        pre.len() + 1int
                    });
                }
                assert forall|k: Seq<char>| k != id@ implies #[trigger] self.is_locked(k) == old(
                    self,
                ).is_locked(k) by {
                    lemma_slot_find_in_range(pre, k, 0);
                    assert(slot_find(post, k, 0) == if slot_find(pre, k, 0) < pre.len() {
                        slot_find(pre, k, 0)
                    } else {
                        pre.len() + 1int
                    });
                }
                assert forall|a: int, b: int| 0 <= a < b < post.len() implies (
                #[trigger] post[a].id@) != (#[trigger] post[b].id@) by {
                    if b < pre.len() {
                        assert(pre[a].id@ != pre[b].id@);
                    } else {
                        assert(post[b].id@ == id@);
                        assert(post[a].id@ != id@);
                    }
                }
                assert(self.wf());
            }
            Ok(h)
        }
    }

    proof fn lemma_push_preserves(&self, pre: Seq<Slot>, newid: Seq<char>)
        requires
            self.slots@.len() == pre.len() + 1,
            forall|j: int| 0 <= j < pre.len() ==> self.slots@[j] == pre[j],
            self.slots@[pre.len() as int].id@ == newid,
        ensures
            forall|k: Seq<char>, i: int|
                k != newid && 0 <= i <= pre.len() ==> #[trigger] slot_find(self.slots@, k, i)
                    == if slot_find(pre, k, i) < pre.len() {
                    slot_find(pre, k, i)
                } else {
                    pre.len() + 1int
                },
    {
        let post = self.slots@;
        assert forall|k: Seq<char>, i: int| k != newid && 0 <= i <= pre.len() implies #[trigger] slot_find(
            post,
            k,
            i,
        ) == if slot_find(pre, k, i) < pre.len() {
            slot_find(pre, k, i)
        } else {
            pre.len() + 1int
        } by {
            lemma_slot_find_in_range(pre, k, i);
            lemma_slot_find_in_range(post, k, i);
            let f = slot_find(pre, k, i);
            if f < pre.len() {
                assert(post[f] == pre[f]);
                assert forall|m: int| i <= m < f implies (#[trigger] post[m].id@) != k by {
                    assert(post[m] == pre[m]);
                    assert(pre[m].id@ != k);
                }
                lemma_find_at(post, k, i, f);
            } else {
                assert forall|j: int| i <= j < post.len() implies (#[trigger] post[j].id@) != k by {
                    if j < pre.len() {
                        assert(pre[j].id@ != k);
                    }
                }
                if slot_find(post, k, i) < post.len() {
                    assert(post[slot_find(post, k, i)].id@ == k);
                    assert(false);
                }
            }
        }
    }

    fn find_x(&self, id: &Identifier) -> (r: usize)
        ensures
            r as int == self.find(id@),
            r <= self.slots@.len(),
            r < self.slots@.len() ==> self.slots@[r as int].id@ == id@,
    {
        let ghost sv = self.slots@;
        proof {
            lemma_slot_find_in_range(sv, id@, 0);
        }
        let mut j: usize = 0;
        while j < self.slots.len()
            invariant
                j <= sv.len(),
                sv == self.slots@,
                slot_find(sv, id@, 0) == slot_find(sv, id@, j as int),
            decreases sv.len() - j,
        {
            if self.slots[j].id == *id {
                assert(slot_find(sv, id@, j as int) == j);
                return j;
            }
            j = j + 1;
        }
        j
    }

    /// Acquires the entry under `id` if one is on disk. Fails with `Locked`
    /// when `id` is checked out and with `Corrupt` when the on-disk text
    /// does not parse; absence is `None`, not an error. Never writes.
    pub fn get(&mut self, id: &Identifier) -> (r: Result<Option<Handle>, StoreError>)
        requires
            old(self).wf(),
            id.wf(),
        ensures
            final (self).wf(),
            final (self).root_model() == old(self).root_model(),
            forall|k: Seq<char>| #[trigger] final (self).on_disk(k) == old(self).on_disk(k),
            match r {
                Ok(Some(h)) => {
                    &&& !old(self).is_locked(id@)
                    &&& match old(self).on_disk(id@) {
                        Some(t) => parse_entry(t) == Some((h.header_model(), h.content_model())),
                        None => false,
                    }
                    &&& h.location() == id@
                    &&& !h.is_dirty()
                    &&& !h.is_fresh()
                    &&& final (self).is_locked(id@)
                    &&& forall|k: Seq<char>|
                        k != id@ ==> #[trigger] final (self).is_locked(k) == old(self).is_locked(k)
                },
                Ok(None) => {
                    &&& old(self).on_disk(id@) is None
                    &&& !old(self).is_locked(id@)
                    &&& forall|k: Seq<char>|
                        #[trigger] final (self).is_locked(k) == old(self).is_locked(k)
                },
                Err(e) => {
                    &&& (e == StoreError::Locked || e == StoreError::Corrupt)
                    &&& (e == StoreError::Locked <==> old(self).is_locked(id@))
                    &&& (e == StoreError::Corrupt ==> match old(self).on_disk(id@) {
                        Some(t) => parse_entry(t) is None,
                        None => false,
                    })
                    &&& forall|k: Seq<char>|
                        #[trigger] final (self).is_locked(k) == old(self).is_locked(k)
                },
            },
    {
        let ghost pre = self.slots@;
        let i = self.find_x(id);
        if i == self.slots.len() {
            return Ok(None);
        }
        if self.slots[i].locked {
            return Err(StoreError::Locked);
        }
        let sl = self.slots.remove(i);
        match sl.disk {
            None => {
                proof {
                    assert(pre[i as int].disk is None);
                    assert(pre[i as int].locked);
                    assert(false);
                }
                self.slots.insert(i, sl);
                Err(StoreError::Corrupt)
            },
            Some(text) => {
                match Entry::parse(text.as_str()) {
                    Ok(e) => {
                        let newsl = Slot { id: sl.id.clone(), disk: Some(text), locked: true };
                        let ghost nsl = newsl;
                        self.slots.insert(i, newsl);
                        let h = Handle { loc: sl.id, entry: e, dirty: false, fresh: false };
                        proof {
                            assert(self.slots@ =~= pre.update(i as int, nsl));
                            lemma_replace(pre, self.slots@, i as int);
                        }
                        Ok(Some(h))
                    },
                    Err(_) => {
                        let newsl = Slot { id: sl.id, disk: Some(text), locked: false };
                        let ghost nsl = newsl;
                        self.slots.insert(i, newsl);
                        proof {
                            assert(nsl == pre[i as int]);
                            assert(self.slots@ =~= pre);
                        }
                        Err(StoreError::Corrupt)
                    },
                }
            },
        }
    }

    /// Acquires the entry under `id`, loading it when on disk and creating
    /// a fresh one otherwise; fails only on contention or a corrupt file.
    pub fn retrieve(&mut self, id: &Identifier) -> (r: Result<Handle, StoreError>)
        requires
            old(self).wf(),
            id.wf(),
        ensures
            final (self).wf(),
            final (self).root_model() == old(self).root_model(),
            forall|k: Seq<char>| #[trigger] final (self).on_disk(k) == old(self).on_disk(k),
            match r {
                Ok(h) => {
                    &&& !old(self).is_locked(id@)
                    &&& h.location() == id@
                    &&& !h.is_dirty()
                    &&& match old(self).on_disk(id@) {
                        Some(t) => parse_entry(t) == Some((h.header_model(), h.content_model()))
                            && !h.is_fresh(),
                        None => h.header_model() == Seq::<(Seq<char>, HVal)>::empty()
                            && h.content_model() == Seq::<char>::empty() && h.is_fresh(),
                    }
                    &&& final (self).is_locked(id@)
                    &&& forall|k: Seq<char>|
                        k != id@ ==> #[trigger] final (self).is_locked(k) == old(self).is_locked(k)
                },
                Err(e) => {
                    &&& (e == StoreError::Locked || e == StoreError::Corrupt)
                    &&& (e == StoreError::Locked <==> old(self).is_locked(id@))
                    &&& (e == StoreError::Corrupt ==> match old(self).on_disk(id@) {
                        Some(t) => parse_entry(t) is None,
                        None => false,
                    })
                    &&& forall|k: Seq<char>|
                        #[trigger] final (self).is_locked(k) == old(self).is_locked(k)
                },
            },
    {
        let i = self.find_x(id);
        if i == self.slots.len() {
            match self.create(id) {
                Ok(h) => Ok(h),
                Err(_) => {
                    proof {
                        assert(false);
                    }
                    Err(StoreError::Locked)
                },
            }
        } else {
            match self.get(id) {
                Ok(Some(h)) => Ok(h),
                Ok(None) => {
                    match self.create(id) {
                        Ok(h) => Ok(h),
                        Err(_) => {
                            proof {
                                assert(false);
                            }
                            Err(StoreError::Locked)
                        },
                    }
                },
                Err(e) => Err(e),
            }
        }
    }

    /// Persists the held entry without releasing the handle; idempotent.
    /// Fails only when this store has nothing checked out under the
    /// handle's identifier.
    pub fn update(&mut self, h: &Handle) -> (r: Result<(), StoreError>)
        requires
            old(self).wf(),
        ensures
            final (self).wf(),
            final (self).root_model() == old(self).root_model(),
            forall|k: Seq<char>| #[trigger] final (self).is_locked(k) == old(self).is_locked(k),
            match r {
                Ok(()) => {
                    &&& old(self).is_locked(h.location())
                    &&& final (self).on_disk(h.location()) == Some(
                        ser_entry(h.header_model(), h.content_model()),
                    )
                    &&& forall|k: Seq<char>|
                        k != h.location() ==> #[trigger] final (self).on_disk(k) == old(
                            self,
                        ).on_disk(k)
                },
                Err(e) => {
                    &&& e == StoreError::NotFound
                    &&& !old(self).is_locked(h.location())
                    &&& forall|k: Seq<char>|
                        #[trigger] final (self).on_disk(k) == old(self).on_disk(k)
                },
            },
    {
        let ghost pre = self.slots@;
        let i = self.find_x(&h.loc);
        if i == self.slots.len() {
            return Err(StoreError::NotFound);
        }
        if !self.slots[i].locked {
            return Err(StoreError::NotFound);
        }
        let text = h.entry.serialize();
        let sl = self.slots.remove(i);
        let newsl = Slot { id: sl.id, disk: Some(text), locked: true };
        let ghost nsl = newsl;
        self.slots.insert(i, newsl);
        proof {
            assert(self.slots@ =~= pre.update(i as int, nsl));
            lemma_replace(pre, self.slots@, i as int);
        }
        Ok(())
    }

    /// Returns a handle to the store: the identifier becomes Free again,
    /// and the entry is written back exactly when the handle is dirty or
    /// fresh (releasing an untouched loaded entry writes nothing). Fails
    /// only when this store has nothing checked out under the handle's
    /// identifier.
    pub fn release(&mut self, h: Handle) -> (r: Result<(), StoreError>)
        requires
            old(self).wf(),
        ensures
            final (self).wf(),
            final (self).root_model() == old(self).root_model(),
            match r {
                Ok(()) => {
                    &&& old(self).is_locked(h.location())
                    &&& !final (self).is_locked(h.location())
                    &&& forall|k: Seq<char>|
                        k != h.location() ==> #[trigger] final (self).is_locked(k) == old(
                            self,
                        ).is_locked(k)
                    &&& (h.is_dirty() || h.is_fresh() || old(self).on_disk(h.location()) is None
                        ==> final (self).on_disk(h.location()) == Some(
                        ser_entry(h.header_model(), h.content_model()),
                    ))
                    &&& (!h.is_dirty() && !h.is_fresh() && old(self).on_disk(h.location()) is Some
                        ==> final (self).on_disk(h.location()) == old(self).on_disk(h.location()))
                    &&& forall|k: Seq<char>|
                        k != h.location() ==> #[trigger] final (self).on_disk(k) == old(
                            self,
                        ).on_disk(k)
                },
                Err(e) => {
                    &&& e == StoreError::NotFound
                    &&& !old(self).is_locked(h.location())
                    &&& forall|k: Seq<char>|
                        #[trigger] final (self).on_disk(k) == old(self).on_disk(k)
                    &&& forall|k: Seq<char>|
                        #[trigger] final (self).is_locked(k) == old(self).is_locked(k)
                },
            },
    {
        let ghost pre = self.slots@;
        let i = self.find_x(&h.loc);
        if i == self.slots.len() {
            return Err(StoreError::NotFound);
        }
        if !self.slots[i].locked {
            return Err(StoreError::NotFound);
        }
        let sl = self.slots.remove(i);
        let newdisk: Option<String> = if h.dirty || h.fresh {
            Some(h.entry.serialize())
        } else {
            match sl.disk {
                Some(t) => Some(t),
                None => Some(h.entry.serialize()),
            }
        };
        let newsl = Slot { id: sl.id, disk: newdisk, locked: false };
        let ghost nsl = newsl;
        self.slots.insert(i, newsl);
        proof {
            assert(self.slots@ =~= pre.update(i as int, nsl));
            lemma_replace(pre, self.slots@, i as int);
        }
        Ok(())
    }

    /// Removes the entry under `id` from the registry and the disk. Fails
    /// with `Locked` on contention and `NotFound` when nothing is there.
    pub fn delete(&mut self, id: &Identifier) -> (r: Result<(), StoreError>)
        requires
            old(self).wf(),
            id.wf(),
        ensures
            final (self).wf(),
            final (self).root_model() == old(self).root_model(),
            match r {
                Ok(()) => {
                    &&& !old(self).is_locked(id@)
                    &&& old(self).on_disk(id@) is Some
                    &&& final (self).on_disk(id@) is None
                    &&& !final (self).is_locked(id@)
                    &&& forall|k: Seq<char>|
                        k != id@ ==> #[trigger] final (self).on_disk(k) == old(self).on_disk(k)
                    &&& forall|k: Seq<char>|
                        k != id@ ==> #[trigger] final (self).is_locked(k) == old(self).is_locked(k)
                },
                Err(e) => {
                    &&& (e == StoreError::Locked || e == StoreError::NotFound)
                    &&& (e == StoreError::Locked <==> old(self).is_locked(id@))
                    &&& (e == StoreError::NotFound ==> old(self).on_disk(id@) is None)
                    &&& forall|k: Seq<char>|
                        #[trigger] final (self).on_disk(k) == old(self).on_disk(k)
                    &&& forall|k: Seq<char>|
                        #[trigger] final (self).is_locked(k) == old(self).is_locked(k)
                },
            },
    {
        let ghost pre = self.slots@;
        let i = self.find_x(id);
        if i == self.slots.len() {
            return Err(StoreError::NotFound);
        }
        if self.slots[i].locked {
            return Err(StoreError::Locked);
        }
        let _removed = self.slots.remove(i);
        proof {
            let post = self.slots@;
            assert forall|m: int| 0 <= m < post.len() implies #[trigger] post[m] == pre[
                if m < i {
                    m
                } else {
                    m + 1
                }
            ] by {}
            assert(pre[i as int].disk is Some) by {
                assert(!pre[i as int].locked);
            }
            assert forall|k: Seq<char>| k != id@ implies #[trigger] seq_disk(post, k) == seq_disk(
                pre,
                k,
            ) by {
                lemma_delete_other(pre, post, i as int, id@, k);
            }
            assert forall|k: Seq<char>| k != id@ implies #[trigger] seq_locked(post, k)
                == seq_locked(pre, k) by {
                lemma_delete_other(pre, post, i as int, id@, k);
            }
            assert forall|a: int, b: int| 0 <= a < b < post.len() implies (
            #[trigger] post[a].id@) != (#[trigger] post[b].id@) by {
                let pa: int = if a < i {
                    a
                } else {
                    a + 1
                };
                let pb: int = if b < i {
                    b
                } else {
                    b + 1
                };
                assert(post[a] == pre[pa] && post[b] == pre[pb]);
                assert(pre[pa].id@ != pre[pb].id@);
            }
            assert(!self.has_slot(id@)) by {
                lemma_slot_find_in_range(post, id@, 0);
                if slot_find(post, id@, 0) < post.len() {
                    let g = slot_find(post, id@, 0);
                    assert(post[g].id@ == id@);
                    if g < i {
                        assert(pre[g].id@ == id@ && pre[i as int].id@ == id@);
                        assert(false);
                    } else {
                        assert(pre[g + 1].id@ == id@ && pre[i as int].id@ == id@);
                        assert(false);
                    }
                }
            }
        }
        Ok(())
    }

    /// The identifiers of every entry on disk, each exactly once, in
    /// registry order.
    pub fn entries(&self) -> (r: Vec<Identifier>)
        requires
            self.wf(),
        ensures
            forall|j: int|
                0 <= j < r@.len() ==> (#[trigger] r@[j]).wf() && self.on_disk(r@[j]@) is Some,
            forall|k: Seq<char>|
                self.on_disk(k) is Some ==> exists|j: int| 0 <= j < r@.len() && (#[trigger] r@[j]@)
                    == k,
            forall|j1: int, j2: int| 0 <= j1 < j2 < r@.len() ==> r@[j1]@ != r@[j2]@,
    {
        let ghost sv = self.slots@;
        let mut out: Vec<Identifier> = Vec::new();
        let mut j: usize = 0;
        while j < self.slots.len()
            invariant
                j <= sv.len(),
                sv == self.slots@,
                self.wf(),
                forall|m: int|
                    0 <= m < out@.len() ==> (#[trigger] out@[m]).wf() && self.on_disk(out@[m]@)
                        is Some,
                forall|jj: int|
                    0 <= jj < j && (#[trigger] sv[jj].disk) is Some ==> exists|m: int|
                        0 <= m < out@.len() && (#[trigger] out@[m]@) == sv[jj].id@,
                forall|m1: int, m2: int| 0 <= m1 < m2 < out@.len() ==> out@[m1]@ != out@[m2]@,
                forall|m: int|
                    0 <= m < out@.len() ==> exists|jj: int|
                        0 <= jj < j && (#[trigger] out@[m]@) == sv[jj].id@,
            decreases sv.len() - j,
        {
            let has = match &self.slots[j].disk {
                Some(_) => true,
                None => false,
            };
            let ghost out_pre = out@;
            if has {
                let idc = self.slots[j].id.clone();
                proof {
                    lemma_find_unique(sv, idc@, j as int);
                    assert(self.on_disk(idc@) is Some);
                    assert forall|m: int| 0 <= m < out@.len() implies (#[trigger] out@[m]@)
                        != idc@ by {
                        let jj = choose|jj: int|
                            0 <= jj < j && (#[trigger] out@[m]@) == sv[jj].id@;
                        assert(sv[jj].id@ != sv[j as int].id@);
                    }
                }
                out.push(idc);
            }
            proof {
                assert forall|jj: int|
                    0 <= jj < j + 1 && (#[trigger] sv[jj].disk) is Some implies exists|m: int|
                    0 <= m < out@.len() && (#[trigger] out@[m]@) == sv[jj].id@ by {
                    if jj < j {
                        let m0 = choose|m: int|
                            0 <= m < out_pre.len() && (#[trigger] out_pre[m]@) == sv[jj].id@;
                        assert(out@[m0]@ == sv[jj].id@);
                    } else {
                        assert(out@[out@.len() - 1]@ == sv[jj].id@);
                    }
                }
            }
            j = j + 1;
        }
        proof {
            assert forall|k: Seq<char>| self.on_disk(k) is Some implies exists|m: int|
                0 <= m < out@.len() && (#[trigger] out@[m]@) == k by {
                lemma_slot_find_in_range(sv, k, 0);
                let f = slot_find(sv, k, 0);
                assert(f < sv.len());
                assert(sv[f].disk is Some);
            }
        }
        out
    }

    /// Loads one file's text into the store's view of the disk, as the
    /// surrounding program reads files beneath the root. Fails with
    /// `Locked` when the identifier is checked out.
    pub fn preload(&mut self, id: &Identifier, text: String) -> (r: Result<(), StoreError>)
        requires
            old(self).wf(),
            id.wf(),
        ensures
            final (self).wf(),
            final (self).root_model() == old(self).root_model(),
            match r {
                Ok(()) => {
                    &&& !old(self).is_locked(id@)
                    &&& final (self).on_disk(id@) == Some(text@)
                    &&& !final (self).is_locked(id@)
                    &&& forall|k: Seq<char>|
                        k != id@ ==> #[trigger] final (self).on_disk(k) == old(self).on_disk(k)
                    &&& forall|k: Seq<char>|
                        k != id@ ==> #[trigger] final (self).is_locked(k) == old(self).is_locked(k)
                },
                Err(e) => {
                    &&& e == StoreError::Locked
                    &&& old(self).is_locked(id@)
                    &&& forall|k: Seq<char>|
                        #[trigger] final (self).on_disk(k) == old(self).on_disk(k)
                    &&& forall|k: Seq<char>|
                        #[trigger] final (self).is_locked(k) == old(self).is_locked(k)
                },
            },
    {
        let ghost pre = self.slots@;
        let i = self.find_x(id);
        if i == self.slots.len() {
            let ghost tv = text@;
            let slot = Slot { id: id.clone(), disk: Some(text), locked: false };
            let ghost gslot = slot;
            self.slots.push(slot);
            proof {
                let post = self.slots@;
                assert(post[pre.len() as int] == gslot);
                assert(post[pre.len() as int].id@ == id@);
                assert(gslot.disk matches Some(t) && t@ == tv);
                assert forall|jj: int| 0 <= jj < pre.len() implies (#[trigger] post[jj].id@)
                    != id@ by {
                    lemma_slot_find_in_range(pre, id@, 0);
                }
                lemma_find_at(post, id@, 0, pre.len() as int);
                self.lemma_push_preserves(pre, id@);
                assert forall|k: Seq<char>| k != id@ implies #[trigger] self.on_disk(k) == old(
                    self,
                ).on_disk(k) by {
                    lemma_slot_find_in_range(pre, k, 0);
                    assert(slot_find(post, k, 0) == if slot_find(pre, k, 0) < pre.len() {
                        slot_find(pre, k, 0)
                    } else {
                        pre.len() + 1int
                    });
                }
                assert forall|k: Seq<char>| k != id@ implies #[trigger] self.is_locked(k) == old(
                    self,
                ).is_locked(k) by {
                    lemma_slot_find_in_range(pre, k, 0);
                    assert(slot_find(post, k, 0) == if slot_find(pre, k, 0) < pre.len() {
                        slot_find(pre, k, 0)
                    } else {
                        pre.len() + 1int
                    });
                }
                assert forall|a: int, b: int| 0 <= a < b < post.len() implies (
                #[trigger] post[a].id@) != (#[trigger] post[b].id@) by {
                    if b < pre.len() {
                        assert(pre[a].id@ != pre[b].id@);
                    } else {
                        assert(post[b].id@ == id@);
                        assert(post[a].id@ != id@);
                    }
                }
            }
            Ok(())
        } else {
            if self.slots[i].locked {
                return Err(StoreError::Locked);
            }
            let sl = self.slots.remove(i);
            let newsl = Slot { id: sl.id, disk: Some(text), locked: false };
            let ghost nsl = newsl;
            self.slots.insert(i, newsl);
            proof {
                assert(self.slots@ =~= pre.update(i as int, nsl));
                lemma_replace(pre, self.slots@, i as int);
            }
            Ok(())
        }
    }

    /// The persisted text of the entry under `id`, for the surrounding
    /// program to write beneath the root.
    pub fn file_text(&self, id: &Identifier) -> (r: Option<String>)
        ensures
            match r {
                Some(t) => self.on_disk(id@) == Some(t@),
                None => self.on_disk(id@) is None,
            },
    {
        let i = self.find_x(id);
        if i == self.slots.len() {
            return None;
        }
        match &self.slots[i].disk {
            Some(t) => {
                proof {
                    lemma_slot_find_in_range(self.slots@, id@, 0);
                }
                Some(t.clone())
            },
            None => None,
        }
    }

    /// The root path the store was opened on.
    pub fn get_root(&self) -> (r: &String)
        ensures
            r@ == self.root_model(),
    {
        &self.root
    }
}

} // verus!
