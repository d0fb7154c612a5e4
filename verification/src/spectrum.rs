//! Sample and bin bookkeeping of the spectral stages: the sliding frame
//! buffer of the FFT engine, the DC-centring shift of a spectrum, the
//! level structure of the three-level tropical (min-plus) wavelet
//! background, and the guard band around active targets when notching spurs.
use vstd::prelude::*;

verus! {

/// Samples waiting for the next FFT frame of `fft_size` samples.
pub struct FrameBuffer<T> {
    fft_size: usize,
    buffer: Vec<T>,
}

impl<T: Copy> FrameBuffer<T> {
    /// Frame length.
    pub closed spec fn frame_len(&self) -> nat {
        self.fft_size as nat
    }

    /// Buffered samples, oldest first.
    pub closed spec fn pending(&self) -> Seq<T> {
        self.buffer@
    }

    /// An empty buffer for frames of `fft_size` samples.
    pub fn new(fft_size: usize) -> (b: Self)
        ensures
            b.frame_len() == fft_size,
            b.pending() == Seq::<T>::empty(),
    {
        FrameBuffer { fft_size, buffer: Vec::new() }
    }

    /// Appends new samples.
    pub fn feed(&mut self, samples: &[T])
        ensures
            final(self).frame_len() == old(self).frame_len(),
            final(self).pending() == old(self).pending() + samples@,
    {
        let mut i: usize = 0;
        while i < samples.len()
            invariant
                i <= samples@.len(),
                self.fft_size == old(self).fft_size,
                self.buffer@ == old(self).buffer@ + samples@.subrange(0, i as int),
            decreases samples@.len() - i,
        {
            self.buffer.push(samples[i]);
            proof {
                assert(self.buffer@ =~= old(self).buffer@ + samples@.subrange(0, i + 1));
            }
            i = i + 1;
        }
        proof {
            assert(samples@.subrange(0, samples@.len() as int) =~= samples@);
        }
    }

    /// Whether a whole frame is buffered.
    pub fn has_frame(&self) -> (b: bool)
        ensures
            b == (self.pending().len() >= self.frame_len()),
    {
        self.buffer.len() >= self.fft_size
    }

    /// Number of buffered samples.
    pub fn len(&self) -> (n: usize)
        ensures
            n == self.pending().len(),
    {
        self.buffer.len()
    }

    /// The next frame (the oldest `fft_size` samples) when one is buffered,
    /// after which the buffer advances by `step` samples (overlapping frames
    /// for a step below the frame length).
    pub fn next_frame(&mut self, step: usize) -> (frame: Option<Vec<T>>)
        requires
            old(self).pending().len() >= old(self).frame_len() ==> step <= old(self).pending().len(),
        ensures
            final(self).frame_len() == old(self).frame_len(),
            old(self).pending().len() < old(self).frame_len() ==> frame.is_none() && final(self).pending()
                == old(self).pending(),
            old(self).pending().len() >= old(self).frame_len() ==> {
                &&& frame.is_some()
                &&& frame.unwrap()@ == old(self).pending().subrange(0, old(self).frame_len() as int)
                &&& final(self).pending() == old(self).pending().subrange(step as int, old(self).pending().len() as int)
            },
    {
        if self.buffer.len() < self.fft_size {
            return None;
        }
        let mut frame: Vec<T> = Vec::new();
        let mut i: usize = 0;
        while i < self.fft_size
            invariant
                i <= self.fft_size,
                self.fft_size <= self.buffer@.len(),
                frame@ == self.buffer@.subrange(0, i as int),
            decreases self.fft_size - i,
        {
            frame.push(self.buffer[i]);
            proof {
                assert(frame@ =~= self.buffer@.subrange(0, i + 1));
            }
            i = i + 1;
        }
        let mut rest: Vec<T> = Vec::new();
        let mut j: usize = step;
        while j < self.buffer.len()
            invariant
                step <= j <= self.buffer@.len(),
                rest@ == self.buffer@.subrange(step as int, j as int),
            decreases self.buffer@.len() - j,
        {
            rest.push(self.buffer[j]);
            proof {
                assert(rest@ =~= self.buffer@.subrange(step as int, j + 1));
            }
            j = j + 1;
        }
        self.buffer = rest;
        Some(frame)
    }

    /// Discards all buffered samples.
    pub fn clear(&mut self)
        ensures
            final(self).frame_len() == old(self).frame_len(),
            final(self).pending() == Seq::<T>::empty(),
    {
        self.buffer = Vec::new();
    }
}

/// Moves bin `i` of an `n`-bin spectrum to `(i + n / 2) % n`, so that 0 Hz
/// lands in the middle.
pub fn fft_shift<T: Copy>(v: &[T]) -> (out: Vec<T>)
    ensures
        out@.len() == v@.len(),
        forall|i: int|
            0 <= i < v@.len() ==> #[trigger] out@[(i + v@.len() / 2) % (v@.len() as int)] == v@[i],
{
    let n = v.len();
    let h = n / 2;
    let mut out: Vec<T> = Vec::new();
    let mut j: usize = n - h;
    while j < n
        invariant
            h == n / 2,
            n == v@.len(),
            n - h <= j <= n,
            out@ == v@.subrange(n - h, j as int),
        decreases n - j,
    {
        out.push(v[j]);
        proof {
            assert(out@ =~= v@.subrange(n - h, j + 1));
        }
        j = j + 1;
    }
    let mut k: usize = 0;
    while k < n - h
        invariant
            h == n / 2,
            n == v@.len(),
            k <= n - h,
            out@ == v@.subrange(n - h, n as int) + v@.subrange(0, k as int),
        decreases n - h - k,
    {
        out.push(v[k]);
        proof {
            assert(out@ =~= v@.subrange(n - h, n as int) + v@.subrange(0, k + 1));
        }
        k = k + 1;
    }
    proof {
        assert forall|i: int| 0 <= i < n implies #[trigger] out@[(i + n / 2) % (n as int)] == v@[i] by {
            if i < n - h {
                vstd::arithmetic::div_mod::lemma_small_mod((i + h) as nat, n as nat);
                assert(out@[i + h] == v@[i]);
            } else {
                vstd::arithmetic::div_mod::lemma_fundamental_div_mod_converse(i + h, n as int, 1, i + h - n);
                assert(out@[i + h - n] == v@[i]);
            }
        }
    }
    out
}

/// Number of min-plus Haar levels applied to `n` bins: up to three halvings,
/// stopping before the length would reach zero.
pub open spec fn haar_levels(n: nat) -> nat {
    if n / 2 == 0 {
        0
    } else if n / 4 == 0 {
        1
    } else if n / 8 == 0 {
        2
    } else {
        3
    }
}

/// `n` halved `l` times (integer division).
pub open spec fn halved(n: nat, l: nat) -> nat
    decreases l,
{
    if l == 0 {
        n
    } else {
        halved(n, (l - 1) as nat) / 2
    }
}

/// Levels of the background decomposition and the length of the coarsest
/// approximation for `n` bins.
pub fn wavelet_levels(n: usize) -> (r: (u32, usize))
    ensures
        r.0 == haar_levels(n as nat),
        r.1 == halved(n as nat, r.0 as nat),
{
    let mut current_len = n;
    let mut levels_done: u32 = 0;
    proof {
        lemma_halved_small(n as nat);
    }
    while levels_done < 3 && current_len / 2 != 0
        invariant
            halved(n as nat, 1) == n / 2,
            halved(n as nat, 2) == n / 4,
            halved(n as nat, 3) == n / 8,
            levels_done <= 3,
            current_len == halved(n as nat, levels_done as nat),
            levels_done >= 1 ==> n / 2 != 0,
            levels_done >= 2 ==> n / 4 != 0,
            levels_done >= 3 ==> n / 8 != 0,
        decreases 3 - levels_done,
    {
        current_len = current_len / 2;
        levels_done = levels_done + 1;
    }
    (levels_done, current_len)
}

proof fn lemma_halved_small(n: nat)
    ensures
        halved(n, 1) == n / 2,
        halved(n, 2) == n / 4,
        halved(n, 3) == n / 8,
{
    assert(halved(n, 1) == halved(n, 0) / 2);
    assert(halved(n, 2) == halved(n, 1) / 2);
    assert(halved(n, 3) == halved(n, 2) / 2);
    vstd::arithmetic::div_mod::lemma_div_denominator(n as int, 2, 2);
    vstd::arithmetic::div_mod::lemma_div_denominator(n as int, 4, 2);
}

/// Background reconstructed from the coarsest approximation: each value held
/// over the `2^levels` bins it summarises, then cut to `n` bins or extended
/// with the last value.
pub fn upsample_hold<T: Copy>(approx: &[T], levels: u32, n: usize) -> (bg: Vec<T>)
    requires
        approx@.len() >= 1,
        levels <= 3,
        approx@.len() * 8 <= usize::MAX,
    ensures
        bg@.len() == n,
        forall|k: int|
            0 <= k < n ==> #[trigger] bg@[k] == approx@[{
                let j = k / vstd::arithmetic::power2::pow2(levels as nat) as int;
                if j < approx@.len() { j } else { approx@.len() - 1 }
            }],
{
    let len = approx.len();
    let mut bg: Vec<T> = Vec::new();
    let mut k: usize = 0;
    proof {
        vstd::arithmetic::power2::lemma2_to64();
    }
    let block: usize = if levels == 0 {
        1
    } else if levels == 1 {
        2
    } else if levels == 2 {
        4
    } else {
        8
    };
    assert(block as int == vstd::arithmetic::power2::pow2(levels as nat));
    while k < n
        invariant
            len == approx@.len(),
            len >= 1,
            block >= 1,
            block as int == vstd::arithmetic::power2::pow2(levels as nat),
            k <= n,
            bg@.len() == k,
            forall|q: int|
                0 <= q < k ==> #[trigger] bg@[q] == approx@[{
                    let j = q / block as int;
                    if j < len { j } else { len - 1 }
                }],
        decreases n - k,
    {
        let j = k / block;
        let src = if j < len {
            j
        } else {
            len - 1
        };
        bg.push(approx[src]);
        k = k + 1;
    }
    bg
}

/// Whether bin `s` lies within `guard` bins of one of the target bins.
pub fn near_any(s: usize, targets: &[usize], guard: usize) -> (b: bool)
    ensures
        b == exists|t: int|
            0 <= t < targets@.len() && #[trigger] targets@[t] as int - guard <= s as int <= targets@[t] as int
                + guard,
{
    let mut i: usize = 0;
    while i < targets.len()
        invariant
            i <= targets@.len(),
            forall|t: int|
                0 <= t < i ==> !(#[trigger] targets@[t] as int - guard <= s as int <= targets@[t] as int + guard),
        decreases targets@.len() - i,
    {
        let tb = targets[i];
        let diff = if s >= tb {
            s - tb
        } else {
            tb - s
        };
        if diff <= guard {
            return true;
        }
        i = i + 1;
    }
    false
}

} // verus!
