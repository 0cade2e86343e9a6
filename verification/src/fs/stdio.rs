//! Standard input and output on the console.
use vstd::prelude::*;

verus! {

/// Total number of bytes in a list of buffers.
pub open spec fn total_len(bufs: Seq<Seq<u8>>) -> nat
    decreases bufs.len(),
{
    if bufs.len() == 0 {
        0
    } else {
        total_len(bufs.drop_last()) + bufs.last().len()
    }
}

/// The byte count of a list of buffers is the plain sum of its pieces'
/// lengths: nothing for no pieces, and adding a piece adds all of its bytes.
pub proof fn lemma_total_len_sums_pieces(bufs: Seq<Seq<u8>>, b: Seq<u8>)
    ensures
        total_len(Seq::<Seq<u8>>::empty()) == 0,
        total_len(bufs.push(b)) == total_len(bufs) + b.len(),
        total_len(seq![b]) == b.len(),
{
    assert(bufs.push(b).drop_last() =~= bufs);
    assert(seq![b].drop_last() =~= Seq::<Seq<u8>>::empty());
}

/// Splitting a list of buffers anywhere splits its byte count.
pub proof fn lemma_total_len_concat(a: Seq<Seq<u8>>, b: Seq<Seq<u8>>)
    ensures
        total_len(a + b) == total_len(a) + total_len(b),
    decreases b.len(),
{
    if b.len() == 0 {
        assert(a + b =~= a);
    } else {
        lemma_total_len_concat(a, b.drop_last());
        assert((a + b).drop_last() =~= a + b.drop_last());
        assert((a + b).last() == b.last());
    }
}

/// A prefix of a list of buffers holds no more bytes than the whole list.
pub proof fn lemma_total_len_prefix(bufs: Seq<Seq<u8>>, i: int)
    requires
        0 <= i <= bufs.len(),
    ensures
        total_len(bufs.subrange(0, i)) <= total_len(bufs),
    decreases bufs.len() - i,
{
    if i < bufs.len() {
        lemma_total_len_prefix(bufs, i + 1);
        assert(bufs.subrange(0, i + 1).drop_last() =~= bufs.subrange(0, i));
    } else {
        assert(bufs.subrange(0, i) =~= bufs);
    }
}

/// A user's memory range, as the list of pieces it spans.
#[derive(Debug)]
pub struct UserBuffer {
    pub buffers: Vec<Vec<u8>>,
}

impl View for UserBuffer {
    type V = Seq<Seq<u8>>;

    open spec fn view(&self) -> Seq<Seq<u8>> {
        self.buffers@.map_values(|b: Vec<u8>| b@)
    }
}

impl UserBuffer {
    /// The range made of `buffers`, in order.
    pub fn new(buffers: Vec<Vec<u8>>) -> (ret: Self)
        ensures
            ret.buffers@ == buffers@,
    {
        UserBuffer { buffers }
    }

    /// The number of bytes in the range.
    pub fn len(&self) -> (n: usize)
        requires
            total_len(self@) <= usize::MAX,
        ensures
            n == total_len(self@),
            self@.len() == 0 ==> n == 0,
            self@.len() == 1 ==> n == self.buffers@[0]@.len(),
    {
        let mut n: usize = 0;
        let mut i: usize = 0;
        while i < self.buffers.len()
            invariant
                i <= self.buffers.len(),
                self@.len() == self.buffers@.len(),
                total_len(self@) <= usize::MAX,
                n == total_len(self@.subrange(0, i as int)),
            decreases self.buffers.len() - i,
        {
            proof {
                lemma_total_len_prefix(self@, i + 1);
                assert(self@.subrange(0, i + 1).drop_last() =~= self@.subrange(0, i as int));
                assert(self@[i as int] == self.buffers@[i as int]@);
            }
            n = n + self.buffers[i].len();
            i = i + 1;
        }
        proof {
            assert(self@.subrange(0, i as int) =~= self@);
            lemma_total_len_sums_pieces(Seq::empty(), self@[0]);
        }
        n
    }
}

/// Standard input.
#[derive(Clone, Copy, Debug)]
pub struct Stdin;

/// Standard output.
#[derive(Clone, Copy, Debug)]
pub struct Stdout;

impl Stdin {
    /// Whether reads are allowed, as this kernel reports it.
    pub fn readable(&self) -> (b: bool)
        ensures
            b == false,
    {
        false
    }

    /// Whether writes are allowed, as this kernel reports it.
    pub fn writable(&self) -> (b: bool)
        ensures
            b == true,
    {
        true
    }

    /// One poll of the console for a one-byte read. A character `c` of `0`
    /// means nothing was typed yet: the read returns `None` and leaves `buf`
    /// alone, and the caller suspends the task and polls again. Any other
    /// character is stored in the byte and the read returns `Some(1)`.
    pub fn read(&self, buf: &mut UserBuffer, c: usize) -> (n: Option<usize>)
        requires
            total_len(old(buf)@) == 1,
            old(buf)@.len() > 0,
            old(buf)@[0].len() > 0,
        ensures
            c == 0 ==> n is None && final(buf)@ == old(buf)@,
            c != 0 ==> n == Some(1usize) && final(buf)@ == old(buf)@.update(
                0,
                old(buf)@[0].update(0, c as u8),
            ),
    {
        if c == 0 {
            return None;
        }
        let mut first: Vec<u8> = Vec::new();
        buf.buffers.set_and_swap(0, &mut first);
        first.set(0, c as u8);
        buf.buffers.set_and_swap(0, &mut first);
        proof {
            assert(buf@ =~= old(buf)@.update(0, old(buf)@[0].update(0, c as u8)));
        }
        Some(1)
    }
}

impl Stdout {
    /// Whether reads are allowed, as this kernel reports it.
    pub fn readable(&self) -> (b: bool)
        ensures
            b == true,
    {
        true
    }

    /// Whether writes are allowed, as this kernel reports it.
    pub fn writable(&self) -> (b: bool)
        ensures
            b == false,
    {
        false
    }

    /// The number of bytes that writing `buf` to the console reports: all of them.
    pub fn write(&self, buf: &UserBuffer) -> (n: usize)
        requires
            total_len(buf@) <= usize::MAX,
        ensures
            n == total_len(buf@),
            buf@.len() == 1 ==> n == buf.buffers@[0]@.len(),
    {
        buf.len()
    }
}

} // verus!
