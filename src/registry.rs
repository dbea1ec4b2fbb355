//! The registry of live streaming sessions: each identifier maps to the handle that cancels
//! its session, and to nothing once the session has stopped.
use vstd::prelude::*;
use crate::error::EngineError;

verus! {

pub struct SessionRegistry<H> {
    entries: Vec<(String, H)>,
}

/// The index of the first entry under `id`, or -1.
pub open spec fn id_index<H>(entries: Seq<(Seq<char>, H)>, id: Seq<char>) -> int
    decreases entries.len(),
{
    if entries.len() == 0 {
        -1
    } else {
        let earlier = id_index(entries.drop_last(), id);
        if earlier >= 0 {
            earlier
        } else if entries.last().0 == id {
            entries.len() - 1
        } else {
            -1
        }
    }
}

pub open spec fn ids_unique<H>(entries: Seq<(Seq<char>, H)>) -> bool {
    forall|i: int, j: int|
        0 <= i < entries.len() && 0 <= j < entries.len() && i != j ==> entries[i].0
            != entries[j].0
}

pub open spec fn ids_of<H>(entries: Seq<(Seq<char>, H)>) -> Seq<Seq<char>> {
    entries.map_values(|e: (Seq<char>, H)| e.0)
}

impl<H> View for SessionRegistry<H> {
    type V = Seq<(Seq<char>, H)>;

    closed spec fn view(&self) -> Seq<(Seq<char>, H)> {
        self.entries@.map_values(|e: (String, H)| (e.0@, e.1))
    }
}

impl<H> SessionRegistry<H> {
    /// Each identifier stands at most once.
    #[verifier::type_invariant]
    spec fn wf(&self) -> bool {
        ids_unique(self.entries@.map_values(|e: (String, H)| (e.0@, e.1)))
    }

    pub fn new() -> (r: Self)
        ensures
            r@ == Seq::<(Seq<char>, H)>::empty(),
    {
        let r = SessionRegistry { entries: Vec::new() };
        assert(r@ =~= Seq::<(Seq<char>, H)>::empty());
        r
    }

    /// Where the session `id` stands, if it is live.
    fn position(&self, id: &String) -> (r: Option<usize>)
        ensures
            r matches Some(i) ==> i < self@.len() && id_index(self@, id@) == i,
            r is None ==> id_index(self@, id@) == -1,
    {
        let ghost all = self@;
        let mut i: usize = 0;
        while i < self.entries.len()
            invariant
                0 <= i <= self.entries@.len(),
                all == self@,
                all.len() == self.entries@.len(),
                id_index(all.take(i as int), id@) == -1,
            decreases self.entries@.len() - i,
        {
            assert(all.take(i as int + 1).drop_last() =~= all.take(i as int));
            assert(all.take(i as int + 1).last() == all[i as int]);
            if self.entries[i].0 == *id {
                assert(id_index(all.take(i as int + 1), id@) == i);
                proof {
                    lemma_id_index_prefix(all, id@, i as int + 1);
                }
                return Some(i);
            }
            i += 1;
        }
        assert(all.take(all.len() as int) =~= all);
        None
    }

    /// Whether a session `id` is live.
    pub fn contains(&self, id: &String) -> (r: bool)
        ensures
            r == (id_index(self@, id@) >= 0),
    {
        self.position(id).is_some()
    }

    /// Records a new session under `id`; an identifier that is already live is refused and
    /// the registry left as it was.
    pub fn register(&mut self, id: String, handle: H) -> (r: Result<(), EngineError>)
        ensures
            ids_unique(final(self)@),
            id_index(old(self)@, id@) < 0 ==> r is Ok && final(self)@ == old(self)@.push(
                (id@, handle),
            ),
            id_index(old(self)@, id@) >= 0 ==> (r matches Err(EngineError::SessionConflict(m))
                && m@ == id@ && final(self)@ == old(self)@),
    {
        proof {
            use_type_invariant(&*self);
        }
        if self.position(&id).is_some() {
            return Err(EngineError::SessionConflict(id));
        }
        proof {
            lemma_absent_id(self@, id@);
        }
        let ghost before = self@;
        let ghost idv = id@;
        let mut entries: Vec<(String, H)> = Vec::new();
        std::mem::swap(&mut entries, &mut self.entries);
        entries.push((id, handle));
        assert(entries@.map_values(|e: (String, H)| (e.0@, e.1)) =~= before.push((idv, handle)));
        self.entries = entries;
        Ok(())
    }

    /// Takes the session `id` out of the registry and hands back its handle; an identifier
    /// that is not live is reported as not found.
    pub fn remove(&mut self, id: &String) -> (r: Result<H, EngineError>)
        ensures
            ids_unique(final(self)@),
            id_index(old(self)@, id@) >= 0 ==> (r matches Ok(h) && h == old(self)@[id_index(
                old(self)@,
                id@,
            )].1 && final(self)@ == old(self)@.remove(id_index(old(self)@, id@))),
            id_index(old(self)@, id@) < 0 ==> (r matches Err(EngineError::SessionNotFound(m))
                && m@ == id@ && final(self)@ == old(self)@),
    {
        proof {
            use_type_invariant(&*self);
        }
        match self.position(id) {
            Some(i) => {
                let ghost before = self@;
                let mut entries: Vec<(String, H)> = Vec::new();
                std::mem::swap(&mut entries, &mut self.entries);
                let (_, handle) = entries.remove(i);
                let ghost after = entries@.map_values(|e: (String, H)| (e.0@, e.1));
                assert(after =~= before.remove(i as int));
                assert forall|a: int, b: int|
                    0 <= a < after.len() && 0 <= b < after.len() && a != b implies after[a].0
                    != after[b].0 by {
                    let a0 = if a < i { a } else { a + 1 };
                    let b0 = if b < i { b } else { b + 1 };
                    assert(after[a] == before[a0]);
                    assert(after[b] == before[b0]);
                }
                self.entries = entries;
                Ok(handle)
            },
            None => Err(EngineError::SessionNotFound(id.clone())),
        }
    }

    /// The identifiers of the live sessions, oldest first.
    pub fn active_ids(&self) -> (r: Vec<String>)
        ensures
            r@.map_values(|s: String| s@) == ids_of(self@),
    {
        let mut r: Vec<String> = Vec::new();
        let mut i: usize = 0;
        while i < self.entries.len()
            invariant
                0 <= i <= self.entries@.len(),
                self@.len() == self.entries@.len(),
                r@.map_values(|s: String| s@) == ids_of(self@).take(i as int),
            decreases self.entries@.len() - i,
        {
            let ghost before = r@;
            r.push(self.entries[i].0.clone());
            assert(self@[i as int].0 == self.entries@[i as int].0@);
            assert(r@.map_values(|s: String| s@) =~= before.map_values(|s: String| s@).push(
                self@[i as int].0,
            ));
            assert(r@.map_values(|s: String| s@) =~= ids_of(self@).take(i as int + 1));
            i += 1;
        }
        assert(ids_of(self@).take(self@.len() as int) =~= ids_of(self@));
        r
    }
}

/// An identifier found among the first `k` entries is found at the same place among all.
proof fn lemma_id_index_prefix<H>(entries: Seq<(Seq<char>, H)>, id: Seq<char>, k: int)
    requires
        0 <= k <= entries.len(),
        id_index(entries.take(k), id) >= 0,
    ensures
        id_index(entries, id) == id_index(entries.take(k), id),
    decreases entries.len() - k,
{
    if k < entries.len() {
        assert(entries.take(k + 1).drop_last() =~= entries.take(k));
        lemma_id_index_prefix(entries, id, k + 1);
    } else {
        assert(entries.take(k) =~= entries);
    }
}

/// An identifier without an index stands in no entry.
proof fn lemma_absent_id<H>(entries: Seq<(Seq<char>, H)>, id: Seq<char>)
    requires
        id_index(entries, id) < 0,
    ensures
        forall|i: int| 0 <= i < entries.len() ==> (#[trigger] entries[i]).0 != id,
    decreases entries.len(),
{
    if entries.len() > 0 {
        lemma_absent_id(entries.drop_last(), id);
        assert forall|i: int| 0 <= i < entries.len() implies (#[trigger] entries[i]).0 != id by {
            if i < entries.len() - 1 {
                assert(entries[i] == entries.drop_last()[i]);
            }
        }
    }
}

/// Stopping a session that was just started succeeds once: the registry then no longer
/// holds it, and a second stop finds nothing.
pub proof fn lemma_stop_once<H>(entries: Seq<(Seq<char>, H)>, id: Seq<char>, handle: H)
    requires
        ids_unique(entries),
        id_index(entries, id) < 0,
    ensures
        ({
            let started = entries.push((id, handle));
            let k = id_index(started, id);
            &&& k >= 0
            &&& started[k].1 == handle
            &&& id_index(started.remove(k), id) < 0
            &&& started.remove(k) == entries
        }),
{
    let started = entries.push((id, handle));
    assert(started.drop_last() =~= entries);
    let k = id_index(started, id);
    assert(k == entries.len());
    assert(started.remove(k) =~= entries);
}

} // verus!
