//! The replay buffer of a session: the last `cap` bytes of its output, numbered by
//! their position in the whole output stream.
use std::collections::VecDeque;
use vstd::prelude::*;

verus! {

broadcast use vstd::std_specs::vecdeque::group_vec_dequeue_axioms;

/// The last `cap` elements of `s` (all of `s` when it is shorter).
pub open spec fn keep_last(s: Seq<u8>, cap: nat) -> Seq<u8> {
    if s.len() <= cap {
        s
    } else {
        s.subrange(s.len() - cap, s.len() as int)
    }
}

/// Sequence number of the oldest byte kept of history `h` with capacity `cap`.
pub open spec fn spec_start_seq(h: Seq<u8>, cap: nat) -> int {
    h.len() - keep_last(h, cap).len()
}

/// What a read from sequence number `seq` returns for history `h`: the bytes from
/// `seq` to the end while they are still kept, `None` when they are evicted or `seq`
/// lies in the future.
pub open spec fn spec_read_from(h: Seq<u8>, cap: nat, seq: int) -> Option<Seq<u8>> {
    if spec_start_seq(h, cap) <= seq <= h.len() {
        Some(h.subrange(seq, h.len() as int))
    } else {
        None
    }
}

pub struct SeqBuffer {
    cap: usize,
    buf: VecDeque<u8>,
    end_seq: u64,
    /// Everything ever appended.
    history: Ghost<Seq<u8>>,
}

impl SeqBuffer {
    /// Every byte ever appended, in order.
    pub closed spec fn history(&self) -> Seq<u8> {
        self.history@
    }

    /// How many bytes the buffer keeps.
    pub closed spec fn capacity(&self) -> nat {
        self.cap as nat
    }

    /// The bytes currently kept: the last `capacity()` bytes of the history.
    pub closed spec fn kept(&self) -> Seq<u8> {
        self.buf@
    }

    pub closed spec fn wf(&self) -> bool {
        &&& self.end_seq == self.history@.len()
        &&& self.buf@ == keep_last(self.history@, self.cap as nat)
    }

    pub fn new(cap: usize) -> (b: Self)
        ensures
            b.wf(),
            b.history() == Seq::<u8>::empty(),
            b.capacity() == cap,
    {
        SeqBuffer { cap, buf: VecDeque::with_capacity(cap), end_seq: 0, history: Ghost(Seq::empty()) }
    }

    /// Appends output; only the last `capacity()` bytes stay readable.
    pub fn append(&mut self, bytes: &[u8])
        requires
            old(self).wf(),
            old(self).history().len() + bytes@.len() <= u64::MAX,
        ensures
            final(self).wf(),
            final(self).history() == old(self).history() + bytes@,
            final(self).capacity() == old(self).capacity(),
    {
        let ghost h = self.history@ + bytes@;
        self.end_seq = self.end_seq + bytes.len() as u64;
        self.history = Ghost(h);
        let n = bytes.len();
        let cap = self.cap;
        if n >= cap {
            self.buf.clear();
            let mut i = n - cap;
            while i < n
                invariant
                    n == bytes.len(),
                    cap <= n,
                    self.cap == cap,
                    self.end_seq == h.len(),
                    self.history@ == h,
                    n - cap <= i <= n,
                    self.buf@ == bytes@.subrange(n - cap, i as int),
                decreases n - i,
            {
                self.buf.push_back(bytes[i]);
                i = i + 1;
                assert(self.buf@ =~= bytes@.subrange(n - cap, i as int));
            }
            assert(keep_last(h, cap as nat) =~= bytes@.subrange(n - cap, n as int));
            return;
        }
        let ghost old_buf = self.buf@;
        assert(old_buf == keep_last(old(self).history@, cap as nat));
        assert(self.buf@.len() <= cap);
        // (buf.len() + n).saturating_sub(cap), written without the intermediate sum
        let room = cap - n;
        let overflow = if self.buf.len() > room {
            self.buf.len() - room
        } else {
            0
        };
        let mut k: usize = 0;
        while k < overflow
            invariant
                self.cap == cap,
                self.end_seq == h.len(),
                self.history@ == h,
                k <= overflow <= old_buf.len(),
                self.buf@ == old_buf.subrange(k as int, old_buf.len() as int),
            decreases overflow - k,
        {
            self.buf.pop_front();
            k = k + 1;
        }
        let ghost mid = self.buf@;
        let mut i: usize = 0;
        while i < n
            invariant
                self.cap == cap,
                self.end_seq == h.len(),
                self.history@ == h,
                n == bytes.len(),
                i <= n,
                self.buf@ == mid + bytes@.subrange(0, i as int),
            decreases n - i,
        {
            self.buf.push_back(bytes[i]);
            i = i + 1;
            assert(self.buf@ =~= mid + bytes@.subrange(0, i as int));
        }
        proof {
            let hist0 = old(self).history@;
            assert(bytes@.subrange(0, n as int) =~= bytes@);
            assert(self.buf@ =~= keep_last(h, self.cap as nat));
        }
    }

    /// Sequence number one past the last byte ever appended.
    pub fn end_seq(&self) -> (r: u64)
        requires
            self.wf(),
        ensures
            r == self.history().len(),
    {
        self.end_seq
    }

    /// Sequence number of the oldest byte still kept.
    pub fn start_seq(&self) -> (r: u64)
        requires
            self.wf(),
        ensures
            r == spec_start_seq(self.history(), self.capacity()),
    {
        self.end_seq - self.buf.len() as u64
    }

    /// The bytes from sequence number `seq` to the end, if they are still kept.
    pub fn read_from(&self, seq: u64) -> (r: Option<Vec<u8>>)
        requires
            self.wf(),
        ensures
            match spec_read_from(self.history(), self.capacity(), seq as int) {
                Some(bytes) => r matches Some(v) && v@ == bytes,
                None => r is None,
            },
    {
        let start = self.end_seq - self.buf.len() as u64;
        if seq < start || seq > self.end_seq {
            return None;
        }
        let offset = (seq - start) as usize;
        let mut out: Vec<u8> = Vec::new();
        let mut i = offset;
        let len = self.buf.len();
        while i < len
            invariant
                offset <= i <= len,
                len == self.buf@.len(),
                out@ == self.buf@.subrange(offset as int, i as int),
            decreases len - i,
        {
            out.push(self.buf[i]);
            i = i + 1;
            assert(out@ =~= self.buf@.subrange(offset as int, i as int));
        }
        proof {
            let h = self.history@;
            let kept = keep_last(h, self.cap as nat);
            assert(kept =~= h.subrange(h.len() - kept.len(), h.len() as int));
            assert(out@ =~= h.subrange(seq as int, h.len() as int));
        }
        Some(out)
    }
}

/// A read from the sequence number where an append started gives back exactly
/// the appended bytes, as long as they fit in the buffer: a client that resumes from
/// its last sequence number loses and repeats nothing.
pub proof fn read_after_append(h: Seq<u8>, bytes: Seq<u8>, cap: nat)
    requires
        bytes.len() <= cap,
    ensures
        spec_read_from(h + bytes, cap, h.len() as int) == Some(bytes),
{
    let t = h + bytes;
    assert(t.subrange(h.len() as int, t.len() as int) =~= bytes);
}

/// Reading from the current end always succeeds and gives nothing.
pub proof fn read_at_end_is_empty(h: Seq<u8>, cap: nat)
    ensures
        spec_read_from(h, cap, h.len() as int) == Some(Seq::<u8>::empty()),
{
    assert(h.subrange(h.len() as int, h.len() as int) =~= Seq::<u8>::empty());
}

/// Appending never moves the oldest readable sequence number backwards.
pub proof fn start_seq_is_monotonic(h: Seq<u8>, bytes: Seq<u8>, cap: nat)
    ensures
        spec_start_seq(h, cap) <= spec_start_seq(h + bytes, cap),
{
}

} // verus!
