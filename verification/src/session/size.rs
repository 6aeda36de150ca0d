//! The authoritative size of a session, merged from what each attached client wants.
use std::collections::HashMap;
use vstd::prelude::*;
use crate::config::WindowSize;
use vstd::std_specs::hash::spec_values_iter;
use vstd::std_specs::iter::IteratorSpec;

verus! {

broadcast use vstd::std_specs::hash::group_hash_axioms;

/// Lower bound on columns: a client reporting 1x1 must not crush the session.
pub const MIN_COLS: u16 = 20;

/// Lower bound on rows.
pub const MIN_ROWS: u16 = 5;

/// One attach's size request; `ord` grows with every request, so the latest wins
/// under [`WindowSize::Latest`].
#[derive(Debug, Clone, Copy, PartialEq, Eq)]
pub struct Desired {
    pub cols: u16,
    pub rows: u16,
    pub ord: u64,
}

/// `x` is the smallest `cols` among the requests of `m`.
pub open spec fn is_min_cols(m: Map<u64, Desired>, x: u16) -> bool {
    &&& exists|k: u64| m.dom().contains(k) && #[trigger] m[k].cols == x
    &&& forall|k: u64| m.dom().contains(k) ==> x <= #[trigger] m[k].cols
}

/// `x` is the smallest `rows` among the requests of `m`.
pub open spec fn is_min_rows(m: Map<u64, Desired>, x: u16) -> bool {
    &&& exists|k: u64| m.dom().contains(k) && #[trigger] m[k].rows == x
    &&& forall|k: u64| m.dom().contains(k) ==> x <= #[trigger] m[k].rows
}

/// `x` is the largest `cols` among the requests of `m`.
pub open spec fn is_max_cols(m: Map<u64, Desired>, x: u16) -> bool {
    &&& exists|k: u64| m.dom().contains(k) && #[trigger] m[k].cols == x
    &&& forall|k: u64| m.dom().contains(k) ==> #[trigger] m[k].cols <= x
}

/// `x` is the largest `rows` among the requests of `m`.
pub open spec fn is_max_rows(m: Map<u64, Desired>, x: u16) -> bool {
    &&& exists|k: u64| m.dom().contains(k) && #[trigger] m[k].rows == x
    &&& forall|k: u64| m.dom().contains(k) ==> #[trigger] m[k].rows <= x
}

/// `d` is a request of `m` with the greatest `ord`.
pub open spec fn is_latest(m: Map<u64, Desired>, d: Desired) -> bool {
    &&& m.values().contains(d)
    &&& forall|k: u64| m.dom().contains(k) ==> #[trigger] m[k].ord <= d.ord
}

pub open spec fn at_least(x: u16, lo: u16) -> u16 {
    if x < lo {
        lo
    } else {
        x
    }
}

/// The size that requests `m` give under `policy`, before the floor is applied.
pub open spec fn merged_size(policy: WindowSize, m: Map<u64, Desired>, c: u16, r: u16) -> bool {
    match policy {
        WindowSize::Smallest => is_min_cols(m, c) && is_min_rows(m, r),
        WindowSize::Largest => is_max_cols(m, c) && is_max_rows(m, r),
        WindowSize::Latest => exists|d: Desired| #[trigger] is_latest(m, d) && d.cols == c && d.rows == r,
    }
}

/// Merges every attach's request into the pty size under `policy`, raised to at
/// least `MIN_COLS`x`MIN_ROWS`. With no attach at all there is no answer and the
/// session keeps its size.
pub fn effective_size(policy: WindowSize, viewports: &HashMap<u64, Desired>) -> (r: Option<(u16, u16)>)
    ensures
        r is None <==> viewports@.dom().len() == 0,
        r matches Some((cols, rows)) ==> exists|c: u16, w: u16|
            #![trigger merged_size(policy, viewports@, c, w)]
            merged_size(policy, viewports@, c, w) && cols == at_least(c, MIN_COLS) && rows
                == at_least(w, MIN_ROWS),
{
    let ghost m = viewports@;
    let mut best: Option<Desired> = None;
    let mut c: u16 = 0;
    let mut w: u16 = 0;
    let ghost mut count: int = 0;
    let ghost full = spec_values_iter(viewports).remaining().unref();
    assert(full.to_set() == m.values());
    for v in it: viewports.values()
        invariant
            it.seq().unref() == full,
            full.to_set() == m.values(),
            full.len() == m.dom().len(),
            count == it.index(),
            0 <= count <= full.len(),
            count == 0 <==> best is None,
            best matches Some(b) ==> {
                let seen = full.take(count);
                &&& seen.contains(b)
                &&& forall|j: int| 0 <= j < seen.len() ==> #[trigger] seen[j].ord <= b.ord
                &&& exists|j: int| 0 <= j < seen.len() && #[trigger] seen[j].cols == c
                &&& exists|j: int| 0 <= j < seen.len() && #[trigger] seen[j].rows == w
                &&& policy == WindowSize::Largest ==> forall|j: int| 0 <= j < seen.len() ==> #[trigger] seen[j].cols <= c
                &&& policy == WindowSize::Largest ==> forall|j: int| 0 <= j < seen.len() ==> #[trigger] seen[j].rows <= w
                &&& policy != WindowSize::Largest ==> forall|j: int| 0 <= j < seen.len() ==> c <= #[trigger] seen[j].cols
                &&& policy != WindowSize::Largest ==> forall|j: int| 0 <= j < seen.len() ==> w <= #[trigger] seen[j].rows
            },
    {
        let d = *v;
        assert(d == full[count]);
        let ghost old_best = best;
        let ghost (c0, w0) = (c, w);
        match best {
            None => {
                best = Some(d);
                c = d.cols;
                w = d.rows;
            },
            Some(b) => {
                if d.ord >= b.ord {
                    best = Some(d);
                }
                match policy {
                    WindowSize::Largest => {
                        if d.cols > c {
                            c = d.cols;
                        }
                        if d.rows > w {
                            w = d.rows;
                        }
                    },
                    _ => {
                        if d.cols < c {
                            c = d.cols;
                        }
                        if d.rows < w {
                            w = d.rows;
                        }
                    },
                }
            },
        }
        proof {
            let seen0 = full.take(count);
            let seen1 = full.take(count + 1);
            assert(seen1 =~= seen0.push(d));
            assert(seen1[count] == d);
            if old_best is Some {
                let jc0 = choose|j: int| 0 <= j < seen0.len() && #[trigger] seen0[j].cols == c0;
                let jw0 = choose|j: int| 0 <= j < seen0.len() && #[trigger] seen0[j].rows == w0;
                assert(seen1[jc0] == seen0[jc0]);
                assert(seen1[jw0] == seen0[jw0]);
                if c == c0 {
                    assert(seen1[jc0].cols == c);
                } else {
                    assert(seen1[count].cols == c);
                }
                if w == w0 {
                    assert(seen1[jw0].rows == w);
                } else {
                    assert(seen1[count].rows == w);
                }
                let b0 = old_best->Some_0;
                if best == old_best {
                    let jb = choose|j: int| 0 <= j < seen0.len() && seen0[j] == b0;
                    assert(seen1[jb] == b0);
                } else {
                    assert(seen1[count] == d);
                }
                assert forall|j: int| 0 <= j < seen1.len() implies #[trigger] seen1[j].ord <= best->Some_0.ord by {
                    if j < count {
                        assert(seen1[j] == seen0[j]);
                    }
                }
                assert forall|j: int| 0 <= j < seen1.len() implies (policy == WindowSize::Largest ==> #[trigger] seen1[j].cols <= c && seen1[j].rows <= w)
                    && (policy != WindowSize::Largest ==> c <= seen1[j].cols && w <= seen1[j].rows) by {
                    if j < count {
                        assert(seen1[j] == seen0[j]);
                    } else {
                        assert(seen1[j] == d);
                    }
                }
                assert(seen1.contains(best->Some_0));
            } else {
                assert(seen1.len() == 1);
                assert(seen1[0] == d);
                assert(seen1[0].cols == c);
                assert(seen1[0].rows == w);
                assert(seen1.contains(d));
            }
            count = count + 1;
        }
    }
    let ghost seen = full.take(count);
    assert(count == full.len());
    assert(seen =~= full);
    match best {
        None => {
            assert(m.dom().len() == 0);
            None
        },
        Some(b) => {
            proof {
                // every request of `m` occurs in `seen`, and vice versa
                assert forall|k: u64| m.dom().contains(k) implies seen.contains(#[trigger] m[k]) by {
                    assert(m.values().contains(m[k]));
                    assert(seen.to_set().contains(m[k]));
                }
                assert forall|j: int| 0 <= j < seen.len() implies exists|k: u64|
                    m.dom().contains(k) && m[k] == #[trigger] seen[j] by {
                    assert(seen.contains(seen[j]));
                    assert(seen.to_set().contains(seen[j]));
                    assert(m.values().contains(seen[j]));
                }
                let jc = choose|j: int| 0 <= j < seen.len() && #[trigger] seen[j].cols == c;
                let jw = choose|j: int| 0 <= j < seen.len() && #[trigger] seen[j].rows == w;
                let kc = choose|k: u64| m.dom().contains(k) && #[trigger] m[k] == seen[jc];
                let kw = choose|k: u64| m.dom().contains(k) && #[trigger] m[k] == seen[jw];
                assert(m[kc].cols == c);
                assert(m[kw].rows == w);
                assert forall|k: u64| #[trigger] m.dom().contains(k) implies (policy == WindowSize::Largest ==> m[k].cols <= c && m[k].rows <= w)
                    && (policy != WindowSize::Largest ==> c <= m[k].cols && w <= m[k].rows) && m[k].ord <= b.ord by {
                    assert(seen.contains(m[k]));
                    let j = choose|j: int| 0 <= j < seen.len() && seen[j] == m[k];
                    assert(seen[j].cols == m[k].cols);
                }
                assert(seen.to_set().contains(b));
                match policy {
                    WindowSize::Smallest => {
                        assert(is_min_cols(m, c));
                        assert(is_min_rows(m, w));
                    },
                    WindowSize::Largest => {
                        assert(is_max_cols(m, c));
                        assert(is_max_rows(m, w));
                    },
                    WindowSize::Latest => {
                        assert(is_latest(m, b));
                    },
                }
                assert(merged_size(policy, m, if policy == WindowSize::Latest { b.cols } else { c },
                    if policy == WindowSize::Latest { b.rows } else { w }));
            }
            let (cc, ww) = match policy {
                WindowSize::Latest => (b.cols, b.rows),
                _ => (c, w),
            };
            let cols = if cc < MIN_COLS { MIN_COLS } else { cc };
            let rows = if ww < MIN_ROWS { MIN_ROWS } else { ww };
            Some((cols, rows))
        },
    }
}

/// The size requests of a session's attached clients, each stamped with an order
/// that grows with every request.
pub struct Viewports {
    table: HashMap<u64, Desired>,
    next_ord: u64,
}

impl Viewports {
    pub closed spec fn requests(&self) -> Map<u64, Desired> {
        self.table@
    }

    pub closed spec fn next_ord(&self) -> u64 {
        self.next_ord
    }

    /// Every stamp is below the next one.
    pub open spec fn wf(&self) -> bool {
        forall|k: u64| self.requests().dom().contains(k) ==> #[trigger] self.requests()[k].ord < self.next_ord()
    }

    pub fn new() -> (v: Self)
        ensures
            v.wf(),
            v.requests() == Map::<u64, Desired>::empty(),
            v.next_ord() == 0,
    {
        let v = Viewports { table: HashMap::new(), next_ord: 0 };
        assert(v.table@ =~= Map::<u64, Desired>::empty());
        v
    }

    /// Records (or replaces) the request of attach `id`, stamped as the newest.
    pub fn set(&mut self, id: u64, cols: u16, rows: u16)
        requires
            old(self).wf(),
            old(self).next_ord() < u64::MAX,
        ensures
            final(self).wf(),
            final(self).requests() == old(self).requests().insert(id, Desired { cols, rows, ord: old(self).next_ord() }),
            final(self).next_ord() == old(self).next_ord() + 1,
    {
        let ord = self.next_ord;
        self.table.insert(id, Desired { cols, rows, ord });
        self.next_ord = ord + 1;
        assert forall|k: u64| self.table@.dom().contains(k) implies #[trigger] self.table@[k].ord < self.next_ord by {
            if k != id {
                assert(old(self).requests().dom().contains(k));
            }
        }
    }

    /// Forgets the request of attach `id` (it detached).
    pub fn remove(&mut self, id: u64)
        requires
            old(self).wf(),
        ensures
            final(self).wf(),
            final(self).requests() == old(self).requests().remove(id),
            final(self).next_ord() == old(self).next_ord(),
    {
        self.table.remove(&id);
        assert forall|k: u64| self.table@.dom().contains(k) implies #[trigger] self.table@[k].ord < self.next_ord by {
            assert(old(self).requests().dom().contains(k));
        }
    }

    /// The size to resize the pty to, given its size now: `None` when nobody is
    /// attached (the last one leaving keeps the size) or when the merged size is the
    /// current one (no needless resize signal to the program inside).
    pub fn resize_to(&self, policy: WindowSize, current: (u16, u16)) -> (r: Option<(u16, u16)>)
        ensures
            self.requests().dom().len() == 0 ==> r is None,
            r matches Some((cols, rows)) ==> (cols, rows) != current && exists|c: u16, w: u16|
                #![trigger merged_size(policy, self.requests(), c, w)]
                merged_size(policy, self.requests(), c, w) && cols == at_least(c, MIN_COLS) && rows == at_least(w, MIN_ROWS),
            r is None && self.requests().dom().len() > 0 ==> exists|c: u16, w: u16|
                #![trigger merged_size(policy, self.requests(), c, w)]
                merged_size(policy, self.requests(), c, w) && current == (at_least(c, MIN_COLS), at_least(w, MIN_ROWS)),
    {
        match effective_size(policy, &self.table) {
            None => None,
            Some(size) => {
                if size.0 == current.0 && size.1 == current.1 {
                    None
                } else {
                    Some(size)
                }
            },
        }
    }
}

/// Under the latest-wins policy, the client that asked last decides the size: right
/// after a request, the merged size is that request (raised to the floor).
pub proof fn the_latest_request_wins(v: Viewports, id: u64, cols: u16, rows: u16, c: u16, w: u16)
    requires
        v.wf(),
        v.next_ord() < u64::MAX,
        merged_size(WindowSize::Latest, v.requests().insert(id, Desired { cols, rows, ord: v.next_ord() }), c, w),
    ensures
        c == cols && w == rows,
{
    let m = v.requests().insert(id, Desired { cols, rows, ord: v.next_ord() });
    let d = choose|d: Desired| #[trigger] is_latest(m, d) && d.cols == c && d.rows == w;
    assert(m.dom().contains(id));
    assert(m[id].ord <= d.ord);
    let k = choose|k: u64| m.dom().contains(k) && #[trigger] m[k] == d;
    if k != id {
        assert(v.requests().dom().contains(k));
        assert(m[k] == v.requests()[k]);
    }
}

} // verus!
