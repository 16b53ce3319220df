//! The pending byte store: bytes that arrived and were not yet taken out.
//!
//! Bytes come in as chunks of any size and leave in runs of an exact
//! length. A chunk is kept as it came; a run that ends inside a chunk
//! leaves the rest of that chunk in place.

use std::collections::VecDeque;
use vstd::prelude::*;
use vstd::slice::slice_subrange;

verus! {

/// The bytes of `chunks`, one chunk after the other.
spec fn concat(chunks: Seq<Vec<u8>>) -> Seq<u8>
    decreases chunks.len(),
{
    if chunks.len() == 0 {
        Seq::empty()
    } else {
        chunks[0]@ + concat(chunks.subrange(1, chunks.len() as int))
    }
}

/// Appending a chunk appends its bytes.
proof fn lemma_concat_push(chunks: Seq<Vec<u8>>, chunk: Vec<u8>)
    ensures
        concat(chunks.push(chunk)) == concat(chunks) + chunk@,
    decreases chunks.len(),
{
    let longer = chunks.push(chunk);
    if chunks.len() == 0 {
        assert(longer.subrange(1, 1) =~= Seq::<Vec<u8>>::empty());
        assert(concat(longer.subrange(1, 1)) =~= Seq::<u8>::empty());
        assert(concat(longer) =~= chunk@);
        assert(concat(chunks) + chunk@ =~= chunk@);
    } else {
        let tail = chunks.subrange(1, chunks.len() as int);
        lemma_concat_push(tail, chunk);
        assert(longer.subrange(1, longer.len() as int) =~= tail.push(chunk));
        assert(concat(longer) =~= concat(chunks) + chunk@);
    }
}

/// An ordered store of bytes with a running count.
pub struct PendingBytes {
    chunks: VecDeque<Vec<u8>>,
    head: usize,
    total: usize,
}

impl View for PendingBytes {
    type V = Seq<u8>;

    /// The pending bytes, oldest first.
    closed spec fn view(&self) -> Seq<u8> {
        concat(self.chunks@).skip(self.head as int)
    }
}

impl PendingBytes {
    /// The store's invariant: the count is the number of pending bytes,
    /// no chunk is empty, and the oldest chunk still holds a pending byte.
    pub closed spec fn wf(&self) -> bool {
        &&& self.total as nat == self@.len()
        &&& forall|i: int| 0 <= i < self.chunks@.len() ==> (#[trigger] self.chunks@[i])@.len() > 0
        &&& self.chunks@.len() == 0 ==> self.head == 0
        &&& self.chunks@.len() > 0 ==> self.head < self.chunks@[0]@.len()
    }

    /// The pending bytes of a store can be counted in a `usize`.
    pub proof fn lemma_len_fits(&self)
        requires
            self.wf(),
        ensures
            self@.len() <= usize::MAX,
    {
    }

    /// An empty store.
    pub fn new() -> (store: PendingBytes)
        ensures
            store.wf(),
            store@ == Seq::<u8>::empty(),
    {
        let store = PendingBytes { chunks: VecDeque::new(), head: 0, total: 0 };
        assert(store@ =~= Seq::<u8>::empty());
        store
    }

    /// Number of pending bytes.
    pub fn len(&self) -> (n: usize)
        requires
            self.wf(),
        ensures
            n as nat == self@.len(),
    {
        self.total
    }

    /// Whether no byte is pending.
    pub fn is_empty(&self) -> (b: bool)
        requires
            self.wf(),
        ensures
            b <==> self@.len() == 0,
    {
        self.total == 0
    }

    /// Puts `chunk` behind the pending bytes.
    pub fn push(&mut self, chunk: Vec<u8>)
        requires
            old(self).wf(),
            old(self)@.len() + chunk.len() <= usize::MAX,
        ensures
            final(self).wf(),
            final(self)@ == old(self)@ + chunk@,
    {
        let n: usize = chunk.len();
        if n == 0 {
            assert(self@ + chunk@ =~= self@);
            return ;
        }
        proof {
            lemma_concat_push(self.chunks@, chunk);
            assert(concat(self.chunks@.push(chunk)).skip(self.head as int) =~= concat(
                self.chunks@,
            ).skip(self.head as int) + chunk@);
        }
        self.chunks.push_back(chunk);
        self.total = self.total + n;
    }

    /// The oldest pending byte, if there is one. It stays in the store.
    pub fn first(&self) -> (byte: Option<u8>)
        requires
            self.wf(),
        ensures
            self@.len() == 0 ==> byte is None,
            self@.len() > 0 ==> byte == Some(self@[0]),
    {
        if self.total == 0 {
            return None;
        }
        assert(self.chunks@.len() > 0);
        let front = &self.chunks[0];
        Some(front[self.head])
    }

    /// Takes the oldest pending byte out, if there is one.
    pub fn pop(&mut self) -> (byte: Option<u8>)
        requires
            old(self).wf(),
        ensures
            final(self).wf(),
            old(self)@.len() == 0 ==> byte is None && final(self)@ == old(self)@,
            old(self)@.len() > 0 ==> byte == Some(old(self)@[0]) && final(self)@ == old(
                self,
            )@.skip(1),
    {
        if self.total == 0 {
            return None;
        }
        assert(self.chunks@.len() > 0);
        let ghost chunks_before = self.chunks@;
        let byte: u8 = self.chunks[0][self.head];
        if self.chunks[0].len() - self.head == 1 {
            let _ = self.chunks.pop_front();
            self.head = 0;
            assert(self@ =~= old(self)@.skip(1));
        } else {
            self.head = self.head + 1;
            assert(self@ =~= old(self)@.skip(1));
        }
        self.total = self.total - 1;
        Some(byte)
    }

    /// Takes the oldest `n` bytes out, or nothing where fewer are pending.
    pub fn take(&mut self, n: usize) -> (out: Option<Vec<u8>>)
        requires
            old(self).wf(),
        ensures
            final(self).wf(),
            n <= old(self)@.len() ==> out is Some && out.unwrap()@ == old(self)@.take(n as int)
                && final(self)@ == old(self)@.skip(n as int),
            n > old(self)@.len() ==> out is None && final(self)@ == old(self)@,
    {
        if n > self.total {
            return None;
        }
        let mut out: Vec<u8> = Vec::with_capacity(n);
        let mut need: usize = n;
        while need > 0
            invariant
                self.wf(),
                need <= n,
                need <= self@.len(),
                out@.len() == n - need,
                out@ + self@ == old(self)@,
            decreases need,
        {
            let ghost before = self@;
            let ghost chunks_before = self.chunks@;
            assert(chunks_before.len() > 0);
            let avail: usize = self.chunks[0].len() - self.head;
            if avail <= need {
                let front = self.chunks.pop_front().unwrap();
                let piece = slice_subrange(front.as_slice(), self.head, front.len());
                out.extend_from_slice(piece);
                proof {
                    assert(before =~= piece@ + concat(self.chunks@));
                }
                self.head = 0;
                self.total = self.total - avail;
                need = need - avail;
                proof {
                    assert(self@ =~= concat(self.chunks@));
                    assert(out@ + self@ =~= old(self)@);
                }
            } else {
                let front = &self.chunks[0];
                let piece = slice_subrange(front.as_slice(), self.head, self.head + need);
                out.extend_from_slice(piece);
                proof {
                    assert(before =~= piece@ + concat(chunks_before).skip(self.head + need));
                }
                self.head = self.head + need;
                self.total = self.total - need;
                need = 0;
                proof {
                    assert(out@ + self@ =~= old(self)@);
                }
            }
        }
        proof {
            assert(out@ =~= old(self)@.take(n as int));
            assert(self@ =~= old(self)@.skip(n as int));
        }
        Some(out)
    }
}

} // verus!
