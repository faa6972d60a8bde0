//! Fixed-capacity delay line.
//!
//! The line is a ring buffer of `L` slots with a write cursor and a read
//! cursor that trails it by the configured delay. The element type is left
//! open: the line only moves samples, it never computes with them.

use crate::util::AudioContext;
use vstd::prelude::*;

verus! {

#[derive(Debug)]
pub struct Delay<T, const L: usize> {
    buf: [T; L],
    insert_at: usize,
    extract_from: usize,
    silence: T,
}

/// The line in flight after one `step` per element of `input`, in order.
pub open spec fn stepped<T>(line: Seq<T>, input: Seq<T>) -> Seq<T>
    decreases input.len(),
{
    if input.len() == 0 {
        line
    } else {
        stepped(line, input.drop_last()).drop_first().push(input.last())
    }
}

/// The results of one `step` per element of `input`, in order.
pub open spec fn outputs<T>(line: Seq<T>, input: Seq<T>) -> Seq<T>
    decreases input.len(),
{
    if input.len() == 0 {
        Seq::empty()
    } else {
        outputs(line, input.drop_last()).push(stepped(line, input.drop_last())[0])
    }
}

/// The line is a queue: the samples that leave it are the head of
/// `line + input`.
pub open spec fn delayed<T>(line: Seq<T>, input: Seq<T>) -> Seq<T> {
    (line + input).subrange(0, input.len() as int)
}

/// What stays in flight is the tail of `line + input`, as long as `line`.
pub open spec fn in_flight<T>(line: Seq<T>, input: Seq<T>) -> Seq<T> {
    (line + input).subrange(input.len() as int, (input.len() + line.len()) as int)
}

/// Stepping through `input` sample by sample moves the line like a queue.
pub proof fn lemma_steps_are_a_queue<T>(line: Seq<T>, input: Seq<T>)
    requires
        line.len() >= 1,
    ensures
        stepped(line, input) == in_flight(line, input),
        outputs(line, input) == delayed(line, input),
    decreases input.len(),
{
    if input.len() == 0 {
        assert(in_flight(line, input) =~= line);
        assert(delayed(line, input) =~= Seq::<T>::empty());
    } else {
        let before = input.drop_last();
        lemma_steps_are_a_queue(line, before);
        assert(stepped(line, input) =~= in_flight(line, input));
        assert(outputs(line, input) =~= delayed(line, input));
    }
}

/// Delay round trip: a line of `n` samples returns, at step `i`, its own
/// `i`-th sample while `i < n`, and from then on the input of `n` steps
/// before.
pub proof fn lemma_round_trip<T>(line: Seq<T>, input: Seq<T>, i: int)
    requires
        line.len() >= 1,
        0 <= i < input.len(),
    ensures
        outputs(line, input).len() == input.len(),
        i < line.len() ==> outputs(line, input)[i] == line[i],
        i >= line.len() ==> outputs(line, input)[i] == input[i - line.len()],
{
    lemma_steps_are_a_queue(line, input);
}

/// A line that holds only `silence` and is fed only `silence` returns only
/// `silence`, and still holds nothing else.
pub proof fn lemma_silence_in_silence_out<T>(line: Seq<T>, input: Seq<T>, silence: T)
    requires
        line.len() >= 1,
        forall|k: int| 0 <= k < line.len() ==> line[k] == silence,
        forall|k: int| 0 <= k < input.len() ==> input[k] == silence,
    ensures
        outputs(line, input).len() == input.len(),
        forall|k: int| 0 <= k < input.len() ==> outputs(line, input)[k] == silence,
        stepped(line, input) == line,
{
    lemma_steps_are_a_queue(line, input);
    assert(stepped(line, input) =~= line);
}

impl<T: Copy, const L: usize> Delay<T, L> {
    /// The slot that holds the sample of age rank `k`, rank 0 being the
    /// oldest sample in the buffer.
    spec fn slot(&self, k: int) -> int {
        if self.insert_at + k < L {
            self.insert_at + k
        } else {
            self.insert_at + k - L
        }
    }

    /// The last `L` samples written, oldest first.
    pub closed spec fn history(&self) -> Seq<T> {
        Seq::new(L as nat, |k: int| self.buf@[self.slot(k)])
    }

    /// The configured delay, in samples.
    pub closed spec fn length(&self) -> nat {
        if self.extract_from < self.insert_at {
            (self.insert_at - self.extract_from) as nat
        } else {
            (self.insert_at + L - self.extract_from) as nat
        }
    }

    /// The value that fills the line on construction and after a flush.
    pub closed spec fn silence(&self) -> T {
        self.silence
    }

    pub closed spec fn wf(&self) -> bool {
        &&& L > 0
        &&& self.insert_at < L
        &&& self.extract_from < L
    }

    /// The samples in flight, oldest first: the next `length()` results of
    /// `step`.
    pub open spec fn line(&self) -> Seq<T> {
        self.history().subrange(L - self.length(), L as int)
    }

    pub proof fn lemma_length_bounds(&self)
        requires
            self.wf(),
        ensures
            1 <= self.length() <= L,
            self.history().len() == L,
            self.line().len() == self.length(),
    {
    }

    /// A line of full length `L`, filled with `silence`.
    pub fn new(silence: T) -> (d: Self)
        requires
            L > 0,
        ensures
            d.wf(),
            d.length() == L,
            d.silence() == silence,
            d.history() == Seq::new(L as nat, |k: int| silence),
            d.line() == Seq::new(L as nat, |k: int| silence),
    {
        let d = Delay { buf: [silence; L], insert_at: 0, extract_from: 0, silence };
        assert(d.history() =~= Seq::new(L as nat, |k: int| silence));
        assert(d.line() =~= Seq::new(L as nat, |k: int| silence));
        d
    }

    /// Set the delay to `n` samples. The buffer keeps what it holds.
    pub fn setup(&mut self, _ctx: &AudioContext, n: usize)
        requires
            old(self).wf(),
            0 < n <= L,
        ensures
            final(self).wf(),
            final(self).length() == n,
            final(self).history() == old(self).history(),
            final(self).silence() == old(self).silence(),
    {
        self.extract_from = if n > self.insert_at {
            self.insert_at + (L - n)
        } else {
            self.insert_at - n
        };
        assert(self.history() =~= old(self).history());
    }

    /// The sample that the next `step` returns.
    pub fn peek(&self) -> (r: T)
        requires
            self.wf(),
        ensures
            r == self.line()[0],
    {
        self.buf[self.extract_from]
    }

    /// The sample after the one that `peek` returns: the tap next to the
    /// read cursor. Where the delay is a single sample that tap is the slot
    /// about to be overwritten, which holds the oldest sample in the buffer.
    pub fn double_peek(&self) -> (r: T)
        requires
            self.wf(),
        ensures
            self.length() >= 2 ==> r == self.line()[1],
            self.length() == 1 ==> r == self.history()[0],
    {
        if self.extract_from + 1 >= L {
            self.buf[0]
        } else {
            self.buf[self.extract_from + 1]
        }
    }

    /// Push `spl` into the line and return the sample that falls out.
    pub fn step(&mut self, spl: T) -> (r: T)
        requires
            old(self).wf(),
        ensures
            final(self).wf(),
            r == old(self).line()[0],
            final(self).history() == old(self).history().drop_first().push(spl),
            final(self).line() == old(self).line().drop_first().push(spl),
            final(self).length() == old(self).length(),
            final(self).silence() == old(self).silence(),
    {
        let res = self.peek();
        self.buf[self.insert_at] = spl;

        self.insert_at += 1;
        if self.insert_at >= L {
            self.insert_at -= L;
        }

        self.extract_from += 1;
        if self.extract_from >= L {
            self.extract_from -= L;
        }

        assert(self.history() =~= old(self).history().drop_first().push(spl));
        assert(self.line() =~= old(self).line().drop_first().push(spl));
        res
    }

    /// Run a whole buffer through the line: one `step` per sample, in
    /// order.
    pub fn process(&mut self, inbuf: &[T], outbuf: &mut [T])
        requires
            old(self).wf(),
            inbuf@.len() == old(outbuf)@.len(),
        ensures
            final(self).wf(),
            final(outbuf)@ == outputs(old(self).line(), inbuf@),
            final(self).line() == stepped(old(self).line(), inbuf@),
            final(self).history() == stepped(old(self).history(), inbuf@),
            final(self).length() == old(self).length(),
            final(self).silence() == old(self).silence(),
    {
        let n = inbuf.len();
        let mut i: usize = 0;
        while i < n
            invariant
                self.wf(),
                i <= n,
                n == inbuf@.len(),
                outbuf@.len() == n,
                outbuf@.subrange(0, i as int) == outputs(
                    old(self).line(),
                    inbuf@.subrange(0, i as int),
                ),
                self.line() == stepped(old(self).line(), inbuf@.subrange(0, i as int)),
                self.history() == stepped(old(self).history(), inbuf@.subrange(0, i as int)),
                self.length() == old(self).length(),
                self.silence() == old(self).silence(),
            decreases n - i,
        {
            let ghost done = inbuf@.subrange(0, i as int);
            let ghost out_before = outbuf@;
            let y = self.step(inbuf[i]);
            outbuf[i] = y;
            proof {
                let next = inbuf@.subrange(0, i + 1);
                assert(next.drop_last() =~= done);
                assert(outbuf@.subrange(0, i + 1) =~= out_before.subrange(0, i as int).push(y));
            }
            i += 1;
        }
        assert(inbuf@.subrange(0, n as int) =~= inbuf@);
        assert(outbuf@.subrange(0, n as int) =~= outbuf@);
    }

    /// Fill the line with silence. The delay is kept.
    pub fn flush(&mut self)
        requires
            old(self).wf(),
        ensures
            final(self).wf(),
            final(self).length() == old(self).length(),
            final(self).silence() == old(self).silence(),
            final(self).history() == Seq::new(L as nat, |k: int| old(self).silence()),
            final(self).line() == Seq::new(old(self).length(), |k: int| old(self).silence()),
    {
        let mut i: usize = 0;
        while i < L
            invariant
                i <= L,
                self.insert_at == old(self).insert_at,
                self.extract_from == old(self).extract_from,
                self.silence == old(self).silence,
                forall|k: int| 0 <= k < i ==> self.buf@[k] == self.silence,
            decreases L - i,
        {
            self.buf[i] = self.silence;
            i += 1;
        }
        assert(self.history() =~= Seq::new(L as nat, |k: int| old(self).silence()));
        assert(self.line() =~= Seq::new(old(self).length(), |k: int| old(self).silence()));
    }
}

} // verus!
