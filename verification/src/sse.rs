//! Server-sent-event framing.  A growing byte buffer is repeatedly split at
//! the first blank line (`\n\n`): everything before it is one complete
//! event, everything after it stays buffered for the next network read.
//! Framing happens on raw bytes, so a chunk boundary that splits a
//! multi-byte character can never corrupt an event boundary.

use vstd::prelude::*;

verus! {

/// A blank-line separator (`\n\n`) starts at index `i` of `b`.
pub open spec fn is_sep_at(b: Seq<u8>, i: int) -> bool {
    0 <= i && i + 2 <= b.len() && b[i] == 10u8 && b[i + 1] == 10u8
}

/// The first separator at index `i` or later, if any.
pub open spec fn first_sep_from(b: Seq<u8>, i: int) -> Option<int>
    decreases b.len() - i,
{
    if i >= 0 && i + 2 <= b.len() {
        if b[i] == 10u8 && b[i + 1] == 10u8 {
            Some(i)
        } else {
            first_sep_from(b, i + 1)
        }
    } else {
        None
    }
}

/// The first separator of the whole buffer.
pub open spec fn first_sep(b: Seq<u8>) -> Option<int> {
    first_sep_from(b, 0)
}

/// `first_sep_from` returns the least separator position at `i` or later,
/// and `None` exactly when there is none.
pub proof fn lemma_first_sep_from(b: Seq<u8>, i: int)
    requires
        0 <= i,
    ensures
        match first_sep_from(b, i) {
            Some(k) => i <= k && is_sep_at(b, k) && (forall|j: int| i <= j < k ==> !is_sep_at(b, j)),
            None => forall|j: int| i <= j ==> !is_sep_at(b, j),
        },
    decreases b.len() - i,
{
    if i + 2 <= b.len() {
        if b[i] == 10u8 && b[i + 1] == 10u8 {
        } else {
            lemma_first_sep_from(b, i + 1);
        }
    }
}

/// A separator found in `b1` is still the first separator of `b1 + b2`.
pub proof fn lemma_first_sep_concat(b1: Seq<u8>, b2: Seq<u8>)
    requires
        first_sep(b1) is Some,
    ensures
        first_sep(b1 + b2) == first_sep(b1),
{
    lemma_first_sep_from(b1, 0);
    lemma_first_sep_from(b1 + b2, 0);
    let i = first_sep(b1)->0;
    assert(is_sep_at(b1 + b2, i));
    match first_sep(b1 + b2) {
        None => {
            assert(!is_sep_at(b1 + b2, i));
        }
        Some(k) => {
            if k < i {
                assert((b1 + b2)[k] == b1[k]);
                assert((b1 + b2)[k + 1] == b1[k + 1]);
                assert(is_sep_at(b1, k));
            } else if k > i {
                assert(!is_sep_at(b1 + b2, i));
            }
        }
    }
}

/// All complete events of `b`, in order.
pub open spec fn events_of(b: Seq<u8>) -> Seq<Seq<u8>>
    decreases b.len(),
{
    match first_sep(b) {
        Some(i) => if 0 <= i && i + 2 <= b.len() {
            seq![b.take(i)] + events_of(b.skip(i + 2))
        } else {
            Seq::empty()
        },
        None => Seq::empty(),
    }
}

/// What stays buffered after every complete event of `b` is extracted.
pub open spec fn residue(b: Seq<u8>) -> Seq<u8>
    decreases b.len(),
{
    match first_sep(b) {
        Some(i) => if 0 <= i && i + 2 <= b.len() {
            residue(b.skip(i + 2))
        } else {
            b
        },
        None => b,
    }
}

/// Chunk-boundary invariance of the framing: draining `b1` and then
/// draining the residue extended by `b2` yields exactly the events and the
/// residue of draining `b1 + b2` at once.  Event extraction therefore
/// depends only on the concatenation of the bytes received, never on where
/// the network happened to split them.
pub proof fn lemma_drain_concat(b1: Seq<u8>, b2: Seq<u8>)
    ensures
        events_of(b1 + b2) =~~= events_of(b1) + events_of(residue(b1) + b2),
        residue(b1 + b2) == residue(residue(b1) + b2),
    decreases b1.len(),
{
    lemma_first_sep_from(b1, 0);
    match first_sep(b1) {
        None => {
            assert(residue(b1) == b1);
            assert(events_of(b1) =~~= Seq::empty());
            assert(events_of(b1) + events_of(b1 + b2) =~~= events_of(b1 + b2));
        }
        Some(i) => {
            lemma_first_sep_concat(b1, b2);
            let t1 = b1.skip(i + 2);
            assert((b1 + b2).take(i) =~= b1.take(i));
            assert((b1 + b2).skip(i + 2) =~= t1 + b2);
            lemma_drain_concat(t1, b2);
            assert(events_of(b1 + b2) =~~= seq![b1.take(i)] + events_of(t1 + b2));
            assert(events_of(b1) =~~= seq![b1.take(i)] + events_of(t1));
            assert(residue(b1) == residue(t1));
            assert(seq![b1.take(i)] + (events_of(t1) + events_of(residue(t1) + b2)) =~~= (
            seq![b1.take(i)] + events_of(t1)) + events_of(residue(t1) + b2));
        }
    }
}

/// Buffers incoming bytes and hands out complete events in FIFO order.
pub struct FrameDecoder {
    buf: Vec<u8>,
}

impl FrameDecoder {
    /// The bytes received so far that do not yet form a complete event.
    pub closed spec fn buffered(self) -> Seq<u8> {
        self.buf@
    }

    /// An empty buffer.
    pub fn new() -> (d: FrameDecoder)
        ensures
            d.buffered() == Seq::<u8>::empty(),
    {
        FrameDecoder { buf: Vec::new() }
    }

    /// Appends one received chunk and extracts every event that is now
    /// complete, leaving any trailing partial event buffered.
    pub fn feed(&mut self, chunk: &[u8]) -> (events: Vec<Vec<u8>>)
        ensures
            events.deep_view() == events_of(old(self).buffered() + chunk@),
            final(self).buffered() == residue(old(self).buffered() + chunk@),
    {
        let ghost start: Seq<u8> = self.buf@ + chunk@;
        let mut i: usize = 0;
        while i < chunk.len()
            invariant
                i <= chunk.len(),
                self.buf@ == old(self).buf@ + chunk@.take(i as int),
            decreases chunk.len() - i,
        {
            self.buf.push(chunk[i]);
            i = i + 1;
            proof {
                assert(self.buf@ =~= old(self).buf@ + chunk@.take(i as int));
            }
        }
        proof {
            assert(self.buf@ =~= start);
        }
        let mut events: Vec<Vec<u8>> = Vec::new();
        proof {
            assert(events.deep_view() =~~= Seq::<Seq<u8>>::empty());
            assert(events.deep_view() + events_of(self.buf@) =~~= events_of(start));
        }
        loop
            invariant
                events.deep_view() + events_of(self.buf@) =~~= events_of(start),
                residue(self.buf@) == residue(start),
            ensures
                events.deep_view() + events_of(self.buf@) =~~= events_of(start),
                residue(self.buf@) == residue(start),
                first_sep(self.buf@) is None,
            decreases self.buf@.len(),
        {
            let ghost before: Seq<u8> = self.buf@;
            let found = find_sep(&self.buf);
            match found {
                None => {
                    break ;
                }
                Some(pos) => {
                    proof {
                        lemma_first_sep_from(before, 0);
                        assert(is_sep_at(before, pos as int));
                    }
                    let mut ev: Vec<u8> = Vec::new();
                    let mut j: usize = 0;
                    while j < pos
                        invariant
                            j <= pos,
                            pos + 2 <= self.buf@.len(),
                            self.buf@ == before,
                            ev@ == before.take(pos as int).take(j as int),
                        decreases pos - j,
                    {
                        ev.push(self.buf[j]);
                        j = j + 1;
                        proof {
                            assert(ev@ =~= before.take(pos as int).take(j as int));
                        }
                    }
                    proof {
                        assert(ev@ =~= before.take(pos as int));
                    }
                    let mut rest: Vec<u8> = Vec::new();
                    let blen = self.buf.len();
                    proof {
                        assert(pos + 2 <= blen);
                    }
                    let mut k: usize = pos + 2;
                    while k < self.buf.len()
                        invariant
                            pos + 2 <= k <= self.buf@.len(),
                            self.buf@ == before,
                            rest@ == before.subrange(pos + 2, k as int),
                        decreases self.buf@.len() - k,
                    {
                        rest.push(self.buf[k]);
                        k = k + 1;
                        proof {
                            assert(rest@ =~= before.subrange(pos + 2, k as int));
                        }
                    }
                    proof {
                        assert(rest@ =~= before.skip(pos + 2));
                    }
                    let ghost emitted: Seq<Seq<u8>> = events.deep_view();
                    self.buf = rest;
                    events.push(ev);
                    proof {
                        assert(events_of(before) =~~= seq![before.take(pos as int)] + events_of(
                            before.skip(pos + 2),
                        ));
                        assert(events.deep_view() =~~= emitted + seq![ev@]);
                        assert((emitted + seq![ev@]) + events_of(self.buf@) =~~= emitted + (seq![
                            ev@,
                        ] + events_of(self.buf@)));
                        assert(events.deep_view() + events_of(self.buf@) =~~= events_of(start));
                    }
                }
            }
        }
        proof {
            assert(events_of(self.buf@) =~~= Seq::empty());
            assert(events.deep_view() =~~= events.deep_view() + events_of(self.buf@));
            assert(residue(self.buf@) == self.buf@);
        }
        events
    }
}

/// Finds the first separator of the buffer, if any.
fn find_sep(b: &Vec<u8>) -> (r: Option<usize>)
    ensures
        match r {
            Some(i) => first_sep(b@) == Some(i as int),
            None => first_sep(b@) is None,
        },
{
    let n = b.len();
    if n < 2 {
        proof {
            lemma_first_sep_from(b@, 0);
            if first_sep(b@) is Some {
                let k = first_sep(b@)->0;
                assert(!is_sep_at(b@, k));
            }
        }
        return None;
    }
    let mut i: usize = 0;
    loop
        invariant
            i <= n - 2,
            2 <= n == b@.len(),
            forall|j: int| 0 <= j < i ==> !is_sep_at(b@, j),
        decreases n - i,
    {
        if b[i] == 10u8 && b[i + 1] == 10u8 {
            proof {
                assert(is_sep_at(b@, i as int));
                lemma_first_sep_from(b@, 0);
                match first_sep(b@) {
                    None => {
                        assert(!is_sep_at(b@, i as int));
                    }
                    Some(k) => {
                        if k < i {
                            assert(!is_sep_at(b@, k));
                        } else if k > i {
                            assert(!is_sep_at(b@, i as int));
                        }
                    }
                }
            }
            return Some(i);
        }
        if i >= n - 2 {
            proof {
                assert(!is_sep_at(b@, i as int));
                assert(forall|j: int| !is_sep_at(b@, j)) by {
                    assert forall|j: int| !is_sep_at(b@, j) by {
                        if 0 <= j < i {
                        } else if j == i {
                        } else {
                            assert(j + 2 > n || j < 0);
                        }
                    }
                }
                lemma_first_sep_from(b@, 0);
                if first_sep(b@) is Some {
                    let k = first_sep(b@)->0;
                    assert(!is_sep_at(b@, k));
                }
            }
            return None;
        }
        i = i + 1;
    }
}

} // verus!
