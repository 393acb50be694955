use vstd::prelude::*;

use crate::error::Error;

verus! {

/// No two entries share a key.
pub open spec fn keys_unique<R>(s: Seq<(Seq<char>, R)>) -> bool {
    forall|i: int, j: int|
        0 <= i < s.len() && 0 <= j < s.len() && i != j ==> #[trigger] s[i].0 != #[trigger] s[j].0
}

pub open spec fn has_key<R>(s: Seq<(Seq<char>, R)>, k: Seq<char>) -> bool {
    exists|i: int| 0 <= i < s.len() && #[trigger] s[i].0 == k
}

/// The index of the entry with key `k`, when there is one.
pub open spec fn index_of<R>(s: Seq<(Seq<char>, R)>, k: Seq<char>) -> int {
    choose|i: int| 0 <= i < s.len() && #[trigger] s[i].0 == k
}

/// The entries after an upsert: an existing key keeps its place and takes the new value;
/// a new key goes last.
pub open spec fn upserted<R>(s: Seq<(Seq<char>, R)>, k: Seq<char>, v: R) -> Seq<(Seq<char>, R)> {
    if has_key(s, k) {
        s.update(index_of(s, k), (k, v))
    } else {
        s.push((k, v))
    }
}

/// The entries after removing key `k`: its entry goes, the others keep their order.
pub open spec fn removed<R>(s: Seq<(Seq<char>, R)>, k: Seq<char>) -> Seq<(Seq<char>, R)> {
    if has_key(s, k) {
        s.remove(index_of(s, k))
    } else {
        s
    }
}

pub open spec fn keys_of<R>(s: Seq<(Seq<char>, R)>) -> Seq<Seq<char>> {
    s.map_values(|e: (Seq<char>, R)| e.0)
}

/// An ordered collection of values under unique string keys. The order of the entries is
/// the order in which keys were first inserted; it is the draw order of a render pass.
pub struct Registry<R> {
    entries: Vec<(String, R)>,
}

/// Upserting a key that is already present keeps every key where it was, gives that
/// key's entry the new value, and leaves every other entry as it was.
pub proof fn lemma_upsert_existing_keeps_order<R>(s: Seq<(Seq<char>, R)>, k: Seq<char>, v: R)
    requires
        keys_unique(s),
        has_key(s, k),
    ensures
        keys_of(upserted(s, k, v)) == keys_of(s),
        upserted(s, k, v)[index_of(s, k)] == (k, v),
        forall|j: int|
            0 <= j < s.len() && j != index_of(s, k) ==> #[trigger] upserted(s, k, v)[j] == s[j],
        keys_unique(upserted(s, k, v)),
{
    let i = index_of(s, k);
    assert(keys_of(upserted(s, k, v)) =~= keys_of(s));
}

/// Upserting a key that is absent appends it, after every key already there.
pub proof fn lemma_upsert_new_appends<R>(s: Seq<(Seq<char>, R)>, k: Seq<char>, v: R)
    requires
        keys_unique(s),
        !has_key(s, k),
    ensures
        keys_of(upserted(s, k, v)) == keys_of(s).push(k),
        upserted(s, k, v).last() == (k, v),
        keys_unique(upserted(s, k, v)),
{
    assert(keys_of(upserted(s, k, v)) =~= keys_of(s).push(k));
}

/// Removing a key that is absent changes nothing; removing a key a second time changes
/// nothing more.
pub proof fn lemma_remove_idempotent<R>(s: Seq<(Seq<char>, R)>, k: Seq<char>)
    requires
        keys_unique(s),
    ensures
        !has_key(s, k) ==> removed(s, k) == s,
        !has_key(removed(s, k), k),
        removed(removed(s, k), k) == removed(s, k),
{
    if has_key(s, k) {
        let i = index_of(s, k);
        let r = s.remove(i);
        assert forall|j: int| 0 <= j < r.len() implies #[trigger] r[j].0 != k by {
            if j < i {
                assert(r[j] == s[j]);
            } else {
                assert(r[j] == s[j + 1]);
            }
        }
    }
}

impl<R> View for Registry<R> {
    type V = Seq<(Seq<char>, R)>;

    closed spec fn view(&self) -> Seq<(Seq<char>, R)> {
        self.entries@.map_values(|e: (String, R)| (e.0@, e.1))
    }
}

impl<R> Registry<R> {
    pub open spec fn wf(&self) -> bool {
        keys_unique(self@)
    }

    pub fn new() -> (r: Registry<R>)
        ensures
            r@ == Seq::<(Seq<char>, R)>::empty(),
            r.wf(),
    {
        let r = Registry { entries: Vec::new() };
        assert(r@ =~= Seq::<(Seq<char>, R)>::empty());
        r
    }

    pub fn len(&self) -> (n: usize)
        ensures
            n == self@.len(),
    {
        self.entries.len()
    }

    pub fn key_at(&self, i: usize) -> (k: &String)
        requires
            i < self@.len(),
        ensures
            k@ == self@[i as int].0,
    {
        &self.entries[i].0
    }

    pub fn value_at(&self, i: usize) -> (v: &R)
        requires
            i < self@.len(),
        ensures
            *v == self@[i as int].1,
    {
        &self.entries[i].1
    }

    /// The index of the entry under `id`, if any.
    pub fn position(&self, id: &String) -> (r: Option<usize>)
        requires
            self.wf(),
        ensures
            match r {
                Some(i) => has_key(self@, id@) && i == index_of(self@, id@) && i < self@.len(),
                None => !has_key(self@, id@),
            },
    {
        let mut i: usize = 0;
        while i < self.entries.len()
            invariant
                i <= self@.len(),
                self@.len() == self.entries@.len(),
                self.wf(),
                forall|j: int| 0 <= j < i ==> #[trigger] self@[j].0 != id@,
            decreases self@.len() - i,
        {
            if self.entries[i].0 == *id {
                proof {
                    assert(self@[i as int].0 == id@);
                    let c = index_of(self@, id@);
                    assert(self@[c].0 == id@);
                }
                return Some(i);
            }
            i = i + 1;
        }
        None
    }

    /// Inserts `value` under `id`, or replaces the value of an existing entry in place.
    pub fn upsert(&mut self, id: String, value: R)
        requires
            old(self).wf(),
        ensures
            final(self)@ == upserted(old(self)@, id@, value),
            final(self).wf(),
    {
        match self.position(&id) {
            Some(i) => {
                let ghost k = id@;
                self.entries.set(i, (id, value));
                assert(self@ =~= old(self)@.update(i as int, (k, value)));
            },
            None => {
                let ghost k = id@;
                self.entries.push((id, value));
                assert(self@ =~= old(self)@.push((k, value)));
            },
        }
    }

    /// Removes the entry under `id`; nothing changes when there is none.
    pub fn remove(&mut self, id: &String)
        requires
            old(self).wf(),
        ensures
            final(self)@ == removed(old(self)@, id@),
            final(self).wf(),
    {
        match self.position(id) {
            Some(i) => {
                self.entries.remove(i);
                assert(self@ =~= old(self)@.remove(i as int));
            },
            None => {},
        }
    }

    /// Adds or replaces the entry under `id` when `renderable` is given, removes it when
    /// it is not. It does not fail.
    pub fn with_renderable(&mut self, id: String, renderable: Option<R>) -> (r: Result<(), Error>)
        requires
            old(self).wf(),
        ensures
            r is Ok,
            final(self).wf(),
            final(self)@ == match renderable {
                Some(v) => upserted(old(self)@, id@, v),
                None => removed(old(self)@, id@),
            },
    {
        match renderable {
            Some(v) => self.upsert(id, v),
            None => self.remove(&id),
        }
        Ok(())
    }

    /// The keys in draw order.
    pub fn keys(&self) -> (r: Vec<String>)
        ensures
            r.deep_view() == keys_of(self@),
    {
        let mut out: Vec<String> = Vec::new();
        let mut i: usize = 0;
        while i < self.entries.len()
            invariant
                i <= self@.len(),
                self@.len() == self.entries@.len(),
                out.deep_view() == keys_of(self@).take(i as int),
            decreases self@.len() - i,
        {
            let ghost before = out.deep_view();
            out.push(self.entries[i].0.clone());
            proof {
                assert(self@[i as int].0 == self.entries@[i as int].0@);
                assert(out.deep_view() =~= before.push(self@[i as int].0));
                assert(out.deep_view() =~= keys_of(self@).take(i + 1));
            }
            i = i + 1;
        }
        proof {
            assert(keys_of(self@).take(i as int) =~= keys_of(self@));
        }
        out
    }
}

} // verus!
