use vstd::prelude::*;

use crate::source::{Source, TryRead};

verus! {

/// Number of lines the history retains before overwriting the oldest.
pub const CAPACITY: usize = 1024;

/// The fixed-capacity wrapping deque of the arraydeque crate, holding the
/// retained lines. The deque is held whole inside an opaque struct: its
/// behavior-marker type parameter carries a trait bound the verifier
/// cannot take, so the type itself cannot be declared directly.
#[verifier::external_body]
pub struct Ring {
    inner: arraydeque::ArrayDeque<String, 1024, arraydeque::behavior::Wrapping>,
}

/// The lines the wrapping deque retains, front (oldest) first.
pub uninterp spec fn ring_model(d: Ring) -> Seq<Seq<char>>;

/// Overwrite-on-full append: past the capacity, the oldest line leaves.
pub open spec fn wrap_push(contents: Seq<Seq<char>>, line: Seq<char>) -> Seq<Seq<char>> {
    if contents.len() < CAPACITY {
        contents.push(line)
    } else {
        contents.drop_first().push(line)
    }
}

/// Relies on arraydeque::ArrayDeque::new: a freshly created deque holds
/// nothing.
#[verifier::external_body]
fn ring_new() -> (r: Ring)
    ensures
        ring_model(r) == Seq::<Seq<char>>::empty(),
{
    Ring { inner: arraydeque::ArrayDeque::new() }
}

/// Relies on arraydeque::ArrayDeque::push_back in its wrapping behavior:
/// the element goes to the back, and when the deque is full the frontmost
/// (oldest) element is removed and returned.
#[verifier::external_body]
fn ring_push(d: &mut Ring, line: String) -> (evicted: Option<String>)
    ensures
        ring_model(*final(d)) == wrap_push(ring_model(*old(d)), line@),
        match evicted {
            Some(e) => ring_model(*old(d)).len() == CAPACITY && e@ == ring_model(*old(d))[0],
            None => ring_model(*old(d)).len() < CAPACITY,
        },
{
    d.inner.push_back(line)
}

/// Relies on arraydeque::ArrayDeque::iter: a front-to-back traversal of
/// the retained elements, oldest first; cloned here into a snapshot.
#[verifier::external_body]
fn ring_snapshot(d: &Ring) -> (r: Vec<String>)
    ensures
        r@.map_values(|s: String| s@) == ring_model(*d),
{
    d.inner.iter().cloned().collect()
}

/// The bounded history: a fixed-capacity ring of the most recent lines,
/// fed from one line source.
pub struct SourceBuffer<T> {
    buffer: Ring,
    handle: Source<T>,
}

impl<T: TryRead<String>> SourceBuffer<T> {
    /// The retained lines, oldest first.
    pub closed spec fn contents(&self) -> Seq<Seq<char>> {
        ring_model(self.buffer)
    }

    pub open spec fn wf(&self) -> bool {
        self.contents().len() <= CAPACITY
    }

    pub fn new(handle: Source<T>) -> (r: Self)
        ensures
            r.contents() == Seq::<Seq<char>>::empty(),
            r.wf(),
    {
        SourceBuffer { buffer: ring_new(), handle }
    }

    /// Append one line, evicting the oldest when the ring is at capacity;
    /// the evicted line, if any, is returned.
    pub fn push(&mut self, line: String) -> (evicted: Option<String>)
        requires
            old(self).wf(),
        ensures
            final(self).wf(),
            final(self).contents() == wrap_push(old(self).contents(), line@),
            match evicted {
                Some(e) => old(self).contents().len() == CAPACITY && e@ == old(
                    self,
                ).contents()[0],
                None => old(self).contents().len() < CAPACITY,
            },
    {
        ring_push(&mut self.buffer, line)
    }

    /// Pull at most one line from the source and append it, returning
    /// what was read; returns nothing, and changes nothing, when the
    /// source has nothing ready.
    pub fn update(&mut self) -> (r: Option<String>)
        requires
            old(self).wf(),
        ensures
            final(self).wf(),
            match r {
                Some(line) => final(self).contents() == wrap_push(
                    old(self).contents(),
                    line@,
                ),
                None => final(self).contents() == old(self).contents(),
            },
    {
        match self.handle.try_read() {
            Some(c) => {
                let copy = c.clone();
                self.push(copy);
                Some(c)
            },
            None => None,
        }
    }

    /// A read-only snapshot of the current contents, oldest first.
    pub fn iter(&self) -> (r: Vec<String>)
        ensures
            r@.map_values(|s: String| s@) == self.contents(),
    {
        ring_snapshot(&self.buffer)
    }
}

/// The contents of a ring filled from empty with a whole stream of lines.
pub open spec fn fill(lines: Seq<Seq<char>>) -> Seq<Seq<char>>
    decreases lines.len(),
{
    if lines.len() == 0 {
        Seq::empty()
    } else {
        wrap_push(fill(lines.drop_last()), lines.last())
    }
}

/// A ring filled from empty retains exactly the last `CAPACITY` lines of
/// the stream, in order.
pub proof fn lemma_fill_window(lines: Seq<Seq<char>>)
    ensures
        fill(lines) == lines.skip(
            if lines.len() <= CAPACITY {
                0
            } else {
                lines.len() - CAPACITY
            },
        ),
    decreases lines.len(),
{
    if lines.len() == 0 {
        assert(fill(lines) =~= lines.skip(0));
    } else {
        let pre = lines.drop_last();
        lemma_fill_window(pre);
        assert(pre.push(lines.last()) =~= lines);
        if lines.len() <= CAPACITY {
            assert(fill(lines) =~= lines.skip(0));
        } else if lines.len() == CAPACITY + 1 {
            assert(fill(lines) =~= lines.skip(1));
        } else {
            assert(fill(lines) =~= lines.skip(lines.len() - CAPACITY));
        }
    }
}

/// Buffer wraparound: pushing exactly the capacity leaves every line, in
/// order and unevicted; pushing one more leaves exactly the capacity,
/// with only the oldest line evicted.
pub proof fn lemma_buffer_wraparound(lines: Seq<Seq<char>>)
    ensures
        lines.len() <= CAPACITY ==> fill(lines) == lines,
        lines.len() == CAPACITY + 1 ==> fill(lines) == lines.drop_first(),
{
    lemma_fill_window(lines);
    if lines.len() <= CAPACITY {
        assert(fill(lines) =~= lines);
    } else if lines.len() == CAPACITY + 1 {
        assert(fill(lines) =~= lines.drop_first());
    }
}

} // verus!
