//! The correlation table: the shared map from request id to a pending
//! completion slot.  It is the unit of multiplexing — every reply finds
//! its caller here, and a timed-out call is withdrawn here.
//!
//! The table holds at most one entry per id; its view is the map from
//! id to slot.  The caller guards the whole table with one lock, so
//! register, resolve and abandon are atomic with respect to each other.

use vstd::prelude::*;

verus! {

/// One pending request: its id and the single-use completion slot that
/// will receive the response.
pub struct Pending<T> {
    pub id: String,
    pub slot: T,
}

/// The correlation table.  `T` is the completion slot a resolved entry
/// hands back; the table never uses a slot, so a slot is fulfilled at
/// most once: the one time it leaves the table.
pub struct CorrelationTable<T> {
    entries: Vec<Pending<T>>,
}

impl<T> CorrelationTable<T> {
    /// The map this table stands for.
    pub closed spec fn view(&self) -> Map<Seq<char>, T> {
        Self::map_of(self.entries@)
    }

    pub closed spec fn map_of(es: Seq<Pending<T>>) -> Map<Seq<char>, T>
        decreases es.len(),
    {
        if es.len() == 0 {
            Map::empty()
        } else {
            Self::map_of(es.drop_last()).insert(es.last().id@, es.last().slot)
        }
    }

    /// No two entries carry the same id.
    pub closed spec fn wf(&self) -> bool {
        forall|i: int, j: int|
            0 <= i < j < self.entries@.len() ==> self.entries@[i].id@ != self.entries@[j].id@
    }

    proof fn lemma_map_of_contains(es: Seq<Pending<T>>, id: Seq<char>)
        ensures
            Self::map_of(es).contains_key(id) <==> exists|i: int|
                0 <= i < es.len() && #[trigger] es[i].id@ == id,
        decreases es.len(),
    {
        if es.len() > 0 {
            Self::lemma_map_of_contains(es.drop_last(), id);
            if Self::map_of(es).contains_key(id) {
                if es.last().id@ != id {
                    let i = choose|i: int|
                        0 <= i < es.drop_last().len() && #[trigger] es.drop_last()[i].id@ == id;
                    assert(es[i].id@ == id);
                }
            }
            if exists|i: int| 0 <= i < es.len() && #[trigger] es[i].id@ == id {
                let i = choose|i: int| 0 <= i < es.len() && #[trigger] es[i].id@ == id;
                if i < es.len() - 1 {
                    assert(es.drop_last()[i].id@ == id);
                }
            }
        }
    }

    /// In a well-formed table, the entry at `i` is what the map binds
    /// to its id.
    proof fn lemma_map_of_at(es: Seq<Pending<T>>, i: int)
        requires
            forall|a: int, b: int| 0 <= a < b < es.len() ==> es[a].id@ != es[b].id@,
            0 <= i < es.len(),
        ensures
            Self::map_of(es).contains_key(es[i].id@),
            Self::map_of(es)[es[i].id@] == es[i].slot,
        decreases es.len(),
    {
        if i == es.len() - 1 {
            assert(Self::map_of(es) == Self::map_of(es.drop_last()).insert(
                es.last().id@,
                es.last().slot,
            ));
        } else {
            Self::lemma_map_of_at(es.drop_last(), i);
            assert(es.drop_last()[i] == es[i]);
            assert(es[i].id@ != es.last().id@);
        }
    }

    /// Removing the entry at `i` removes exactly its id from the map.
    proof fn lemma_map_of_remove(es: Seq<Pending<T>>, i: int)
        requires
            forall|a: int, b: int| 0 <= a < b < es.len() ==> es[a].id@ != es[b].id@,
            0 <= i < es.len(),
        ensures
            Self::map_of(es.remove(i)) == Self::map_of(es).remove(es[i].id@),
        decreases es.len(),
    {
        let id = es[i].id@;
        if i == es.len() - 1 {
            assert(es.remove(i) =~= es.drop_last());
            Self::lemma_map_of_contains(es.drop_last(), id);
            assert(!Self::map_of(es.drop_last()).contains_key(id));
            assert(Self::map_of(es.drop_last()) =~= Self::map_of(es).remove(id));
        } else {
            Self::lemma_map_of_remove(es.drop_last(), i);
            assert(es.remove(i).drop_last() =~= es.drop_last().remove(i));
            assert(es.remove(i).last() == es.last());
            assert(es.remove(i).len() == es.len() - 1);
            assert(Self::map_of(es.remove(i)) == Self::map_of(es.drop_last().remove(i)).insert(
                es.last().id@,
                es.last().slot,
            ));
            assert(es[i].id@ != es.last().id@);
            assert(Self::map_of(es.remove(i)) =~= Self::map_of(es).remove(id));
        }
    }

    /// An empty table: nothing outstanding.
    pub fn new() -> (r: Self)
        ensures
            r@ == Map::<Seq<char>, T>::empty(),
            r.wf(),
    {
        let r = CorrelationTable { entries: Vec::new() };
        proof {
            assert(r@ =~= Map::<Seq<char>, T>::empty());
        }
        r
    }

    /// How many requests are outstanding.
    pub fn len(&self) -> (n: usize)
        requires
            self.wf(),
        ensures
            n == self@.dom().len(),
    {
        proof {
            Self::lemma_len(self.entries@);
        }
        self.entries.len()
    }

    proof fn lemma_len(es: Seq<Pending<T>>)
        requires
            forall|a: int, b: int| 0 <= a < b < es.len() ==> es[a].id@ != es[b].id@,
        ensures
            Self::map_of(es).dom().len() == es.len(),
            Self::map_of(es).dom().finite(),
        decreases es.len(),
    {
        if es.len() == 0 {
            assert(Self::map_of(es).dom() =~= Set::<Seq<char>>::empty());
        } else {
            Self::lemma_len(es.drop_last());
            Self::lemma_map_of_contains(es.drop_last(), es.last().id@);
            assert(!Self::map_of(es.drop_last()).contains_key(es.last().id@));
            assert(Self::map_of(es).dom() =~= Self::map_of(es.drop_last()).dom().insert(
                es.last().id@,
            ));
        }
    }

    /// Whether a request with this id is outstanding.
    pub fn contains(&self, id: &String) -> (r: bool)
        requires
            self.wf(),
        ensures
            r == self@.contains_key(id@),
    {
        proof {
            Self::lemma_map_of_contains(self.entries@, id@);
        }
        let n = self.entries.len();
        let mut k: usize = 0;
        #[verifier::loop_isolation(false)]
        while k < n
            invariant
                n == self.entries@.len(),
                k <= n,
                forall|i: int| 0 <= i < k ==> self.entries@[i].id@ != id@,
            decreases n - k,
        {
            if self.entries[k].id == *id {
                return true;
            }
            k += 1;
        }
        false
    }

    /// Inserts a new pending entry.  A second registration under an id
    /// already outstanding is refused and changes nothing: each id has
    /// exactly one waiting caller.
    pub fn register(&mut self, id: String, slot: T) -> (ok: bool)
        requires
            old(self).wf(),
        ensures
            final(self).wf(),
            ok == !old(self)@.contains_key(id@),
            ok ==> final(self)@ == old(self)@.insert(id@, slot),
            !ok ==> final(self)@ == old(self)@,
    {
        if self.contains(&id) {
            return false;
        }
        proof {
            Self::lemma_map_of_contains(self.entries@, id@);
        }
        let ghost pre = self.entries@;
        self.entries.push(Pending { id, slot });
        proof {
            assert(self.entries@.drop_last() =~= pre);
            assert(forall|i: int|
                0 <= i < pre.len() ==> #[trigger] pre[i].id@ != self.entries@.last().id@);
            assert(self.wf());
        }
        true
    }

    fn find(&self, id: &String) -> (r: Option<usize>)
        requires
            self.wf(),
        ensures
            match r {
                Option::Some(i) => i < self.entries@.len() && self.entries@[i as int].id@ == id@,
                Option::None => !self@.contains_key(id@),
            },
    {
        proof {
            Self::lemma_map_of_contains(self.entries@, id@);
        }
        let n = self.entries.len();
        let mut k: usize = 0;
        #[verifier::loop_isolation(false)]
        while k < n
            invariant
                n == self.entries@.len(),
                k <= n,
                forall|i: int| 0 <= i < k ==> self.entries@[i].id@ != id@,
            decreases n - k,
        {
            if self.entries[k].id == *id {
                return Some(k);
            }
            k += 1;
        }
        None
    }

    /// Removes the entry for `id` and hands its slot back so the caller
    /// can fulfill it.  An id with no pending entry changes nothing:
    /// the response is the caller's to discard.
    pub fn resolve(&mut self, id: &String) -> (r: Option<T>)
        requires
            old(self).wf(),
        ensures
            final(self).wf(),
            match r {
                Option::Some(slot) => old(self)@.contains_key(id@) && slot == old(self)@[id@]
                    && final(self)@ == old(self)@.remove(id@),
                Option::None => !old(self)@.contains_key(id@) && final(self)@ == old(self)@,
            },
    {
        match self.find(id) {
            Option::None => None,
            Option::Some(k) => {
                proof {
                    Self::lemma_map_of_at(self.entries@, k as int);
                    Self::lemma_map_of_remove(self.entries@, k as int);
                }
                let ghost pre = self.entries@;
                let e = self.entries.remove(k);
                proof {
                    assert(forall|a: int, b: int|
                        0 <= a < b < self.entries@.len() ==> self.entries@[a].id@
                            != self.entries@[b].id@);
                }
                Some(e.slot)
            },
        }
    }

    /// Removes the entry for `id` without fulfilling it, so a late
    /// response can no longer reach the abandoned caller.  Reports
    /// whether an entry was there.
    pub fn abandon(&mut self, id: &String) -> (r: bool)
        requires
            old(self).wf(),
        ensures
            final(self).wf(),
            r == old(self)@.contains_key(id@),
            final(self)@ == old(self)@.remove(id@),
    {
        let ghost pre = self@;
        let r = self.resolve(id);
        proof {
            if !pre.contains_key(id@) {
                assert(pre.remove(id@) =~= pre);
            }
        }
        r.is_some()
    }

    /// Empties the table and hands every pending slot back, so that a
    /// closing transport can fail each waiting caller.
    pub fn drain(&mut self) -> (r: Vec<Pending<T>>)
        requires
            old(self).wf(),
        ensures
            final(self).wf(),
            final(self)@ == Map::<Seq<char>, T>::empty(),
            r@.len() == old(self)@.dom().len(),
            forall|i: int|
                0 <= i < r@.len() ==> old(self)@.contains_key(#[trigger] r@[i].id@) && old(
                    self,
                )@[r@[i].id@] == r@[i].slot,
    {
        proof {
            Self::lemma_len(self.entries@);
            assert forall|i: int| 0 <= i < self.entries@.len() implies self@.contains_key(
                #[trigger] self.entries@[i].id@,
            ) && self@[self.entries@[i].id@] == self.entries@[i].slot by {
                Self::lemma_map_of_at(self.entries@, i);
            }
        }
        let mut out: Vec<Pending<T>> = Vec::new();
        core::mem::swap(&mut out, &mut self.entries);
        proof {
            assert(self@ =~= Map::<Seq<char>, T>::empty());
        }
        out
    }
}

// ---------------------------------------------------------------------------
// The multiplexing laws the table provides to concurrent callers.
// ---------------------------------------------------------------------------

/// Two callers that register distinct ids are resolved independently:
/// each id is bound to its own slot, and resolving one leaves the
/// other's entry in place.
pub proof fn lemma_distinct_callers<T>(m: Map<Seq<char>, T>, id1: Seq<char>, id2: Seq<char>, s1: T, s2: T)
    requires
        id1 != id2,
    ensures
        m.insert(id1, s1).insert(id2, s2)[id1] == s1,
        m.insert(id1, s1).insert(id2, s2)[id2] == s2,
        m.insert(id1, s1).insert(id2, s2).remove(id2).contains_key(id1),
        m.insert(id1, s1).insert(id2, s2).remove(id2)[id1] == s1,
{
}

/// An unmatched response changes nothing: resolving an id with no
/// pending entry leaves every other caller's entry exactly as it was.
pub proof fn lemma_unmatched_response_discarded<T>(m: Map<Seq<char>, T>, id: Seq<char>)
    requires
        !m.contains_key(id),
    ensures
        forall|other: Seq<char>| #[trigger]
            m.contains_key(other) ==> m.remove(id).contains_key(other) && m.remove(id)[other]
                == m[other],
        m.remove(id) == m,
{
    assert(m.remove(id) =~= m);
}

/// After a timeout abandons id `X`, its entry is gone, so a late
/// response for `X` finds nothing and is discarded, while every other
/// pending call is untouched.
pub proof fn lemma_late_response_after_abandon<T>(m: Map<Seq<char>, T>, x: Seq<char>)
    ensures
        !m.remove(x).contains_key(x),
        forall|other: Seq<char>|
            other != x && #[trigger] m.contains_key(other) ==> m.remove(x).contains_key(other)
                && m.remove(x)[other] == m[other],
{
}

} // verus!