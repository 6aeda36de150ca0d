//! The table of live sessions: ids are handed out in increasing order and never
//! reused, so the table kept in creation order is also in id order, which is the
//! order sessions are listed in.
use vstd::prelude::*;
use crate::text::{decimal_text, spec_decimal};

verus! {

/// The name a session gets when it is not given one: `octoterm-<id>`.
pub open spec fn spec_session_name(name: Option<Seq<char>>, id: u64) -> Seq<char> {
    match name {
        Some(n) => n,
        None => "octoterm-"@ + spec_decimal(id as nat),
    }
}

pub fn session_name(name: Option<String>, id: u64) -> (r: String)
    ensures
        r@ == spec_session_name(crate::launcher::opt_view(name), id),
{
    match name {
        Some(n) => n,
        None => {
            let mut s = String::from_str("octoterm-");
            let d = decimal_text(id);
            s.append(d.as_str());
            s
        },
    }
}

/// The ids of a table's entries.
pub open spec fn ids<S>(entries: Seq<(u64, S)>) -> Seq<u64> {
    entries.map_values(|e: (u64, S)| e.0)
}

/// Live sessions by id, with the next id to hand out. `S` is what a session is to the
/// caller (a handle to the running process).
pub struct SessionTable<S> {
    next_id: u64,
    entries: Vec<(u64, S)>,
}

impl<S> SessionTable<S> {
    /// The entries, in increasing id order.
    pub closed spec fn entries(&self) -> Seq<(u64, S)> {
        self.entries@
    }

    /// The id the next session gets.
    pub closed spec fn next_id(&self) -> u64 {
        self.next_id
    }

    /// Ids increase along the table and stay below the next one to hand out.
    pub open spec fn wf(&self) -> bool {
        &&& forall|i: int, j: int| 0 <= i < j < self.entries().len() ==> self.entries()[i].0 < self.entries()[j].0
        &&& forall|i: int| 0 <= i < self.entries().len() ==> #[trigger] self.entries()[i].0 < self.next_id()
        &&& self.next_id() >= 1
    }

    /// An empty table; the first id is 1.
    pub fn new() -> (t: Self)
        ensures
            t.wf(),
            t.entries().len() == 0,
            t.next_id() == 1,
    {
        SessionTable { next_id: 1, entries: Vec::new() }
    }

    /// Takes the next id for a session about to start. The id is spent even when the
    /// start then fails.
    pub fn take_id(&mut self) -> (id: u64)
        requires
            old(self).wf(),
            old(self).next_id() < u64::MAX,
        ensures
            final(self).wf(),
            id == old(self).next_id(),
            final(self).next_id() == id + 1,
            final(self).entries() == old(self).entries(),
    {
        let id = self.next_id;
        self.next_id = self.next_id + 1;
        assert forall|i: int| 0 <= i < self.entries@.len() implies #[trigger] self.entries@[i].0 < self.next_id by {
            assert(old(self).entries()[i].0 < old(self).next_id());
        }
        id
    }

    /// Records the session started under `id` (taken with [`take_id`], so newer than
    /// every entry).
    pub fn insert(&mut self, id: u64, session: S)
        requires
            old(self).wf(),
            id < old(self).next_id(),
            forall|i: int| 0 <= i < old(self).entries().len() ==> #[trigger] old(self).entries()[i].0 < id,
        ensures
            final(self).wf(),
            final(self).entries() == old(self).entries().push((id, session)),
            final(self).next_id() == old(self).next_id(),
    {
        let ghost before = self.entries@;
        self.entries.push((id, session));
        assert forall|a: int, b: int| 0 <= a < b < self.entries@.len() implies self.entries@[a].0 < self.entries@[b].0 by {
            assert(self.entries@[a] == before[a] || a == before.len());
            if b == before.len() {
                assert(self.entries@[a] == before[a]);
                assert(old(self).entries()[a].0 < id);
            } else {
                assert(self.entries@[b] == before[b]);
                assert(self.entries@[a] == before[a]);
            }
        }
        assert forall|a: int| 0 <= a < self.entries@.len() implies #[trigger] self.entries@[a].0 < self.next_id by {
            if a < before.len() {
                assert(self.entries@[a] == before[a]);
                assert(old(self).entries()[a].0 < old(self).next_id());
            }
        }
    }

    /// The index of the session `id`, if it is live.
    pub fn position(&self, id: u64) -> (r: Option<usize>)
        requires
            self.wf(),
        ensures
            match r {
                Some(i) => i < self.entries().len() && self.entries()[i as int].0 == id,
                None => forall|i: int| 0 <= i < self.entries().len() ==> #[trigger] self.entries()[i].0 != id,
            },
    {
        let mut i: usize = 0;
        while i < self.entries.len()
            invariant
                i <= self.entries@.len(),
                forall|k: int| 0 <= k < i ==> #[trigger] self.entries@[k].0 != id,
            decreases self.entries.len() - i,
        {
            if self.entries[i].0 == id {
                return Some(i);
            }
            i = i + 1;
        }
        None
    }

    /// The session `id`, if it is live.
    pub fn get(&self, id: u64) -> (r: Option<&S>)
        requires
            self.wf(),
        ensures
            match r {
                Some(s) => exists|i: int| 0 <= i < self.entries().len() && self.entries()[i].0 == id && self.entries()[i].1 == *s,
                None => forall|i: int| 0 <= i < self.entries().len() ==> #[trigger] self.entries()[i].0 != id,
            },
    {
        match self.position(id) {
            Some(i) => Some(&self.entries[i].1),
            None => None,
        }
    }

    /// Removes the session `id` and returns it; `None` when there is no such session.
    pub fn remove(&mut self, id: u64) -> (r: Option<S>)
        requires
            old(self).wf(),
        ensures
            final(self).wf(),
            final(self).next_id() == old(self).next_id(),
            match r {
                Some(s) => exists|i: int| 0 <= i < old(self).entries().len() && old(self).entries()[i] == (id, s) && final(self).entries() == old(self).entries().remove(i),
                None => final(self).entries() == old(self).entries() && forall|i: int| 0 <= i < old(self).entries().len() ==> #[trigger] old(self).entries()[i].0 != id,
            },
    {
        match self.position(id) {
            Some(i) => {
                let ghost before = self.entries@;
                let (_, s) = self.entries.remove(i);
                proof {
                    assert forall|a: int, b: int| 0 <= a < b < self.entries@.len() implies self.entries@[a].0 < self.entries@[b].0 by {
                        let a0 = if a < i { a } else { a + 1 };
                        let b0 = if b < i { b } else { b + 1 };
                        assert(self.entries@[a] == before[a0]);
                        assert(self.entries@[b] == before[b0]);
                    }
                    assert forall|a: int| 0 <= a < self.entries@.len() implies #[trigger] self.entries@[a].0 < self.next_id by {
                        let a0 = if a < i { a } else { a + 1 };
                        assert(self.entries@[a] == before[a0]);
                    }
                }
                Some(s)
            },
            None => None,
        }
    }

    /// The sessions, in increasing id order.
    pub fn list(&self) -> (r: Vec<&S>)
        requires
            self.wf(),
        ensures
            r@.len() == self.entries().len(),
            forall|i: int| 0 <= i < r@.len() ==> *r@[i] == self.entries()[i].1,
    {
        let mut out: Vec<&S> = Vec::new();
        let mut i: usize = 0;
        while i < self.entries.len()
            invariant
                i <= self.entries@.len(),
                out@.len() == i,
                forall|k: int| 0 <= k < i ==> *out@[k] == self.entries@[k].1,
            decreases self.entries.len() - i,
        {
            out.push(&self.entries[i].1);
            i = i + 1;
        }
        out
    }
}

} // verus!
