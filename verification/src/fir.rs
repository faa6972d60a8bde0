//! Finite impulse response filter of fixed order.
//!
//! The filter keeps the last `O` samples in a history buffer of `P` slots
//! and hands them, with its `O` coefficients, to a multiply-accumulate
//! function. The element type and the arithmetic are the caller's: the
//! filter decides which samples the sum is taken over.

use crate::delay::in_flight;
use crate::delay::lemma_steps_are_a_queue;
use crate::delay::stepped;
use vstd::prelude::*;

verus! {

#[derive(Debug)]
pub struct FIR<T, const O: usize, const P: usize> {
    coeffs: [T; O],
    zbuf: [T; P],
    zi: usize,
    silence: T,
}

/// The multiply-accumulate `mac` takes any window of `order` samples with
/// as many coefficients.
pub open spec fn accumulates<T, F: Fn(&[T], &[T]) -> T>(mac: &F, order: nat) -> bool {
    forall|z: &[T], c: &[T]| z@.len() == order && c@.len() == order ==> call_requires(*mac, (z, c))
}

/// `r` is what `mac` makes of the samples `window` and the coefficients
/// `coeffs`.
pub open spec fn accumulated<T, F: Fn(&[T], &[T]) -> T>(
    mac: &F,
    window: Seq<T>,
    coeffs: Seq<T>,
    r: T,
) -> bool {
    exists|z: &[T], c: &[T]| z@ == window && c@ == coeffs && call_ensures(*mac, (z, c), r)
}

/// `mac` is a function of the samples and coefficients it is given: the
/// same values give the same result.
pub open spec fn deterministic<T, F: Fn(&[T], &[T]) -> T>(mac: &F) -> bool {
    forall|z1: &[T], c1: &[T], r1: T, z2: &[T], c2: &[T], r2: T|
        z1@ == z2@ && c1@ == c2@ && #[trigger] call_ensures(*mac, (z1, c1), r1)
            && #[trigger] call_ensures(*mac, (z2, c2), r2) ==> r1 == r2
}

/// With a deterministic `mac`, two results for the same window and the
/// same coefficients are equal: what `process` returns for a sample is
/// what `step` returns for it.
pub proof fn lemma_same_window_same_result<T, F: Fn(&[T], &[T]) -> T>(
    mac: &F,
    window: Seq<T>,
    coeffs: Seq<T>,
    r1: T,
    r2: T,
)
    requires
        deterministic(mac),
        accumulated(mac, window, coeffs, r1),
        accumulated(mac, window, coeffs, r2),
    ensures
        r1 == r2,
{
    let (z1, c1) = choose|z: &[T], c: &[T]|
        z@ == window && c@ == coeffs && call_ensures(*mac, (z, c), r1);
    let (z2, c2) = choose|z: &[T], c: &[T]|
        z@ == window && c@ == coeffs && call_ensures(*mac, (z, c), r2);
    assert(call_ensures(*mac, (z1, c1), r1) && call_ensures(*mac, (z2, c2), r2));
}

/// The place of the window in the history buffer after `steps` samples,
/// where `span` places follow the first: the window moves on by one place
/// with each sample, and from the last place back to the first.
pub open spec fn place_after(zi: int, span: int, steps: nat) -> int
    decreases steps,
{
    if steps == 0 {
        zi
    } else {
        let before = place_after(zi, span, (steps - 1) as nat);
        if before < span {
            before + 1
        } else {
            0
        }
    }
}

impl<T: Copy, const O: usize, const P: usize> FIR<T, O, P> {
    pub closed spec fn wf(&self) -> bool {
        &&& 1 <= O <= P
        &&& self.zi <= P - O
    }

    pub closed spec fn coeffs(&self) -> Seq<T> {
        self.coeffs@
    }

    /// The value that fills the history on construction and after a flush.
    pub closed spec fn silence(&self) -> T {
        self.silence
    }

    /// The place of the window in the history buffer.
    pub closed spec fn spec_zi(&self) -> usize {
        self.zi
    }

    /// The last `O` samples, oldest first.
    pub closed spec fn window(&self) -> Seq<T> {
        self.zbuf@.subrange(self.zi as int, self.zi + O)
    }

    pub proof fn lemma_lengths(&self)
        requires
            self.wf(),
        ensures
            1 <= O <= P,
            self.coeffs().len() == O,
            self.window().len() == O,
            self.spec_zi() <= P - O,
    {
    }

    /// A filter whose coefficients and history are all `silence`.
    pub fn new(silence: T) -> (fir: Self)
        requires
            1 <= O <= P,
        ensures
            fir.wf(),
            fir.silence() == silence,
            fir.spec_zi() == 0,
            fir.coeffs() == Seq::new(O as nat, |k: int| silence),
            fir.window() == Seq::new(O as nat, |k: int| silence),
    {
        let fir = Self { coeffs: [silence; O], zbuf: [silence; P], zi: 0, silence };
        assert(fir.coeffs() =~= Seq::new(O as nat, |k: int| silence));
        assert(fir.window() =~= Seq::new(O as nat, |k: int| silence));
        fir
    }

    /// Load the coefficients: as many as are given, and no more than `O`.
    pub fn setup(&mut self, coeffs: &[T])
        requires
            old(self).wf(),
        ensures
            final(self).wf(),
            final(self).window() == old(self).window(),
            final(self).spec_zi() == old(self).spec_zi(),
            final(self).silence() == old(self).silence(),
            final(self).coeffs().len() == O,
            forall|k: int|
                0 <= k < O ==> #[trigger] final(self).coeffs()[k] == if k < coeffs@.len() {
                    coeffs@[k]
                } else {
                    old(self).coeffs()[k]
                },
    {
        let n = if coeffs.len() < O {
            coeffs.len()
        } else {
            O
        };
        let mut k: usize = 0;
        while k < n
            invariant
                k <= n <= O,
                n <= coeffs@.len(),
                self.zbuf == old(self).zbuf,
                self.zi == old(self).zi,
                self.silence == old(self).silence,
                forall|j: int| 0 <= j < k ==> self.coeffs@[j] == coeffs@[j],
                forall|j: int| k <= j < O ==> self.coeffs@[j] == old(self).coeffs@[j],
            decreases n - k,
        {
            self.coeffs[k] = coeffs[k];
            k += 1;
        }
    }

    /// The place of the window in the history buffer.
    pub fn zi(&self) -> (zi: usize)
        ensures
            zi == self.spec_zi(),
    {
        self.zi
    }

    /// Take one sample in and return what `mac` makes of the last `O`
    /// samples.
    pub fn step<F: Fn(&[T], &[T]) -> T>(&mut self, spl: T, mac: &F) -> (r: T)
        requires
            old(self).wf(),
            accumulates(mac, O as nat),
        ensures
            final(self).wf(),
            final(self).coeffs() == old(self).coeffs(),
            final(self).silence() == old(self).silence(),
            final(self).window() == old(self).window().drop_first().push(spl),
            final(self).spec_zi() == if old(self).spec_zi() < P - O {
                old(self).spec_zi() + 1
            } else {
                0
            },
            accumulated(mac, final(self).window(), final(self).coeffs(), r),
    {
        if self.zi < P - O {
            // inject a new sample into the Z buffer
            self.zbuf[self.zi + O] = spl;
            self.zi += 1;
        } else {
            // reposition the history buffer and append the latest sample
            let mut k: usize = 0;
            while k + 1 < O
                invariant
                    1 <= O <= P,
                    k < O,
                    self.zi == P - O,
                    self.coeffs == old(self).coeffs,
                    self.silence == old(self).silence,
                    forall|j: int| 0 <= j < k ==> self.zbuf@[j] == old(self).zbuf@[P - O + 1 + j],
                    forall|j: int| k <= j < P ==> self.zbuf@[j] == old(self).zbuf@[j],
                decreases O - k,
            {
                self.zbuf[k] = self.zbuf[P - O + 1 + k];
                k += 1;
            }
            self.zbuf[O - 1] = spl;
            self.zi = 0;
        }
        assert(self.window() =~= old(self).window().drop_first().push(spl));
        let z = &self.zbuf[self.zi..(self.zi + O)];
        let c = &self.coeffs[0..O];
        assert(c@ =~= self.coeffs());
        mac(z, c)
    }

    /// Run a whole buffer through the filter.
    ///
    /// The first `O` samples go through `step`. From then on the input
    /// buffer itself holds the last `O` samples, and the sums are taken over
    /// it in place; at the end the history takes the last `O` samples in. A
    /// buffer of fewer than `O` samples goes through `step` as a whole.
    /// Every result is what `step` would have returned: `mac` over the
    /// window that one `step` per sample leads to.
    pub fn process<F: Fn(&[T], &[T]) -> T>(&mut self, inbuf: &[T], outbuf: &mut [T], mac: &F)
        requires
            old(self).wf(),
            accumulates(mac, O as nat),
            inbuf@.len() == old(outbuf)@.len(),
        ensures
            final(self).wf(),
            final(self).coeffs() == old(self).coeffs(),
            final(self).silence() == old(self).silence(),
            final(self).spec_zi() == if inbuf@.len() >= O {
                0
            } else {
                place_after(old(self).spec_zi() as int, P - O, inbuf@.len())
            },
            final(self).window() == stepped(old(self).window(), inbuf@),
            final(outbuf)@.len() == inbuf@.len(),
            forall|i: int|
                0 <= i < inbuf@.len() ==> accumulated(
                    mac,
                    stepped(old(self).window(), inbuf@.subrange(0, i + 1)),
                    old(self).coeffs(),
                    #[trigger] final(outbuf)@[i],
                ),
    {
        let len = inbuf.len();
        let ghost history = old(self).window();
        let primed = if len < O {
            len
        } else {
            O
        };

        // Initial priming until we can use inbuf directly as the z buffer
        let mut i: usize = 0;
        while i < primed
            invariant
                i <= primed <= len,
                primed <= O,
                len < O ==> primed == len,
                len == inbuf@.len(),
                len == outbuf@.len(),
                self.wf(),
                accumulates(mac, O as nat),
                history == old(self).window(),
                self.coeffs() == old(self).coeffs(),
                self.silence() == old(self).silence(),
                self.spec_zi() == place_after(old(self).spec_zi() as int, P - O, i as nat),
                self.window() == stepped(history, inbuf@.subrange(0, i as int)),
                forall|j: int|
                    0 <= j < i ==> accumulated(
                        mac,
                        stepped(history, inbuf@.subrange(0, j + 1)),
                        old(self).coeffs(),
                        #[trigger] outbuf@[j],
                    ),
            decreases primed - i,
        {
            let y = self.step(inbuf[i], mac);
            outbuf[i] = y;
            assert(inbuf@.subrange(0, i + 1).drop_last() =~= inbuf@.subrange(0, i as int));
            i += 1;
        }
        if len < O {
            assert(inbuf@.subrange(0, len as int) =~= inbuf@);
            return ;
        }
        // Rip though the rest of the samples
        while i < len
            invariant
                O <= i <= len,
                len == inbuf@.len(),
                len == outbuf@.len(),
                self.wf(),
                accumulates(mac, O as nat),
                history == old(self).window(),
                history.len() == O,
                self.coeffs() == old(self).coeffs(),
                self.silence() == old(self).silence(),
                forall|j: int|
                    0 <= j < i ==> accumulated(
                        mac,
                        stepped(history, inbuf@.subrange(0, j + 1)),
                        old(self).coeffs(),
                        #[trigger] outbuf@[j],
                    ),
            decreases len - i,
        {
            let j = i + 1;
            let z = &inbuf[(j - O)..j];
            let c = &self.coeffs[0..O];
            proof {
                let fed = inbuf@.subrange(0, j as int);
                lemma_steps_are_a_queue(history, fed);
                assert(z@ =~= in_flight(history, fed));
                assert(c@ =~= self.coeffs());
            }
            let y = mac(z, c);
            outbuf[i] = y;
            i += 1;
        }

        // Update the history buffer
        let mut k: usize = 0;
        while k < O
            invariant
                k <= O <= len,
                1 <= O <= P,
                len == inbuf@.len(),
                self.coeffs == old(self).coeffs,
                self.silence == old(self).silence,
                forall|j: int| 0 <= j < k ==> self.zbuf@[j] == inbuf@[len - O + j],
            decreases O - k,
        {
            self.zbuf[k] = inbuf[len - O + k];
            k += 1;
        }
        self.zi = 0;
        proof {
            lemma_steps_are_a_queue(history, inbuf@);
            assert(self.window() =~= in_flight(history, inbuf@));
        }
    }

    /// Fill the history with silence. The coefficients are kept.
    pub fn flush(&mut self)
        requires
            old(self).wf(),
        ensures
            final(self).wf(),
            final(self).coeffs() == old(self).coeffs(),
            final(self).silence() == old(self).silence(),
            final(self).spec_zi() == 0,
            final(self).window() == Seq::new(O as nat, |k: int| old(self).silence()),
    {
        let mut k: usize = 0;
        while k < P
            invariant
                k <= P,
                self.coeffs == old(self).coeffs,
                self.silence == old(self).silence,
                forall|j: int| 0 <= j < k ==> self.zbuf@[j] == self.silence,
            decreases P - k,
        {
            self.zbuf[k] = self.silence;
            k += 1;
        }
        self.zi = 0;
        assert(self.window() =~= Seq::new(O as nat, |k: int| old(self).silence()));
    }
}

} // verus!
