//! Cascaded integrator-comb (CIC) decimation on 64-bit fixed-point samples
//! with wrapping (modulo 2^64) arithmetic, one cascade per I/Q channel.
use vstd::prelude::*;
use vstd::wrapping::i64_specs;

verus! {

/// Output of integrator stage `i` when the stage accumulators are `s` and the
/// cascade is fed `x`: each stage adds its input to its accumulator and
/// passes the new accumulator on.
pub open spec fn integ_at(s: Seq<i64>, x: i64, i: nat) -> i64
    decreases i,
{
    if i == 0 {
        i64_specs::wrapping_add(s[0], x)
    } else {
        i64_specs::wrapping_add(s[i as int], integ_at(s, x, (i - 1) as nat))
    }
}

/// Accumulators of an integrator cascade after absorbing `x`.
pub open spec fn integrate(s: Seq<i64>, x: i64) -> Seq<i64> {
    Seq::new(s.len(), |i: int| integ_at(s, x, i as nat))
}

/// Value leaving an integrator cascade (its input when it has no stages).
pub open spec fn integ_out(s: Seq<i64>, x: i64) -> i64 {
    if s.len() == 0 {
        x
    } else {
        integ_at(s, x, (s.len() - 1) as nat)
    }
}

/// Input of comb stage `i` when the stage delays are `s` and the cascade is
/// fed `x`: each stage emits its input minus its previous input.
pub open spec fn comb_in(s: Seq<i64>, x: i64, i: nat) -> i64
    decreases i,
{
    if i == 0 {
        x
    } else {
        i64_specs::wrapping_sub(comb_in(s, x, (i - 1) as nat), s[i - 1])
    }
}

/// Delay registers of a comb cascade after absorbing `x`.
pub open spec fn comb_regs(s: Seq<i64>, x: i64) -> Seq<i64> {
    Seq::new(s.len(), |i: int| comb_in(s, x, i as nat))
}

/// Value leaving a comb cascade.
pub open spec fn comb_out(s: Seq<i64>, x: i64) -> i64 {
    comb_in(s, x, s.len())
}

/// Abstract state of the decimator.
pub struct CicState {
    pub r: nat,
    pub n: nat,
    pub int_re: Seq<i64>,
    pub int_im: Seq<i64>,
    pub comb_re: Seq<i64>,
    pub comb_im: Seq<i64>,
    pub counter: nat,
}

/// One input sample: both integrator cascades run; every `r`-th sample the
/// integrator outputs go through the comb cascades and yield an output.
pub open spec fn cic_step(s: CicState, x: (i64, i64)) -> (CicState, Seq<(i64, i64)>) {
    let ir = integrate(s.int_re, x.0);
    let ii = integrate(s.int_im, x.1);
    let yr = integ_out(s.int_re, x.0);
    let yi = integ_out(s.int_im, x.1);
    if s.counter + 1 == s.r {
        (
            CicState {
                int_re: ir,
                int_im: ii,
                comb_re: comb_regs(s.comb_re, yr),
                comb_im: comb_regs(s.comb_im, yi),
                counter: 0,
                ..s
            },
            seq![(comb_out(s.comb_re, yr), comb_out(s.comb_im, yi))],
        )
    } else {
        (CicState { int_re: ir, int_im: ii, counter: s.counter + 1, ..s }, Seq::empty())
    }
}

/// State and outputs after feeding the samples `xs` in order.
pub open spec fn cic_run(s: CicState, xs: Seq<(i64, i64)>) -> (CicState, Seq<(i64, i64)>)
    decreases xs.len(),
{
    if xs.len() == 0 {
        (s, Seq::empty())
    } else {
        let prev = cic_run(s, xs.drop_last());
        let last = cic_step(prev.0, xs.last());
        (last.0, prev.1 + last.1)
    }
}

/// Streaming law: feeding `a` and then `b` leaves the same state and yields
/// the same outputs as feeding `a + b` at once.
pub proof fn lemma_cic_run_concat(s: CicState, a: Seq<(i64, i64)>, b: Seq<(i64, i64)>)
    ensures
        cic_run(s, a + b) == ({
            let first = cic_run(s, a);
            let second = cic_run(first.0, b);
            (second.0, first.1 + second.1)
        }),
    decreases b.len(),
{
    if b.len() == 0 {
        assert(a + b =~= a);
        assert(cic_run(s, a).1 + Seq::<(i64, i64)>::empty() =~= cic_run(s, a).1);
    } else {
        assert((a + b).drop_last() =~= a + b.drop_last());
        assert((a + b).last() == b.last());
        lemma_cic_run_concat(s, a, b.drop_last());
        let first = cic_run(s, a);
        let mid = cic_run(first.0, b.drop_last());
        let last = cic_step(mid.0, b.last());
        assert(first.1 + mid.1 + last.1 =~= first.1 + (mid.1 + last.1));
    }
}

/// Output count law: from a counter `c < r`, feeding `k` samples yields
/// `(c + k) / r` outputs and leaves the counter at `(c + k) % r`.
pub proof fn lemma_cic_run_count(s: CicState, xs: Seq<(i64, i64)>)
    requires
        s.r >= 1,
        s.counter < s.r,
    ensures
        cic_run(s, xs).1.len() == (s.counter + xs.len()) / s.r,
        cic_run(s, xs).0.counter == (s.counter + xs.len()) % s.r,
        cic_run(s, xs).0.r == s.r,
        cic_run(s, xs).0.n == s.n,
    decreases xs.len(),
{
    if xs.len() > 0 {
        lemma_cic_run_count(s, xs.drop_last());
        let prev = cic_run(s, xs.drop_last());
        let k: int = xs.len() - 1;
        let c: int = s.counter as int;
        let r: int = s.r as int;
        let q: int = (c + k) / r;
        let m: int = (c + k) % r;
        assert(prev.1.len() == q && prev.0.counter == m);
        vstd::arithmetic::div_mod::lemma_fundamental_div_mod(c + k, r);
        assert(0 <= m < r);
        let step = cic_step(prev.0, xs.last());
        if m + 1 == r {
            assert(step.1.len() == 1 && step.0.counter == 0);
            assert(c + k + 1 == (q + 1) * r) by (nonlinear_arith)
                requires c + k == r * q + m, m + 1 == r;
            vstd::arithmetic::div_mod::lemma_fundamental_div_mod_converse(c + k + 1, r, q + 1, 0);
        } else {
            assert(step.1.len() == 0 && step.0.counter == m + 1);
            assert(c + k + 1 == q * r + (m + 1)) by (nonlinear_arith)
                requires c + k == r * q + m;
            vstd::arithmetic::div_mod::lemma_fundamental_div_mod_converse(c + k + 1, r, q, m + 1);
        }
        assert(cic_run(s, xs).1.len() == prev.1.len() + step.1.len());
        assert(cic_run(s, xs).0 == step.0);
    } else {
        vstd::arithmetic::div_mod::lemma_basic_div_specific_divisor(s.r as int);
        vstd::arithmetic::div_mod::lemma_small_mod(s.counter, s.r);
    }
}

/// With factor zero a decimation period never completes: the counter only
/// grows and nothing is output.
pub proof fn lemma_cic_run_zero_factor(s: CicState, xs: Seq<(i64, i64)>)
    requires
        s.r == 0,
    ensures
        cic_run(s, xs).1.len() == 0,
        cic_run(s, xs).0.counter == s.counter + xs.len(),
        cic_run(s, xs).0.r == 0,
        cic_run(s, xs).0.n == s.n,
    decreases xs.len(),
{
    if xs.len() > 0 {
        lemma_cic_run_zero_factor(s, xs.drop_last());
    }
}

/// Programmable CIC decimator with decimation factor `r` and `n` stages,
/// exact in wrapping 64-bit fixed point.
#[derive(Debug, Clone)]
pub struct CicDecimator {
    r: usize,
    n: usize,
    integrators_re: Vec<i64>,
    integrators_im: Vec<i64>,
    combs_re: Vec<i64>,
    combs_im: Vec<i64>,
    decimation_counter: usize,
}

impl CicDecimator {
    /// Abstract state.
    pub closed spec fn view(&self) -> CicState {
        CicState {
            r: self.r as nat,
            n: self.n as nat,
            int_re: self.integrators_re@,
            int_im: self.integrators_im@,
            comb_re: self.combs_re@,
            comb_im: self.combs_im@,
            counter: self.decimation_counter as nat,
        }
    }

    /// One register per stage in every cascade, counter below the factor.
    pub closed spec fn wf(&self) -> bool {
        &&& self.integrators_re@.len() == self.n
        &&& self.integrators_im@.len() == self.n
        &&& self.combs_re@.len() == self.n
        &&& self.combs_im@.len() == self.n
        &&& (self.r >= 1 ==> self.decimation_counter < self.r)
    }

    /// Decimator with factor `r` and `n` stages, all registers zero.
    pub fn new(r: usize, n: usize) -> (d: Self)
        ensures
            d.wf(),
            d.view().r == r,
            d.view().n == n,
            d.view().counter == 0,
            d.view().int_re == Seq::new(n as nat, |i: int| 0i64),
            d.view().int_im == Seq::new(n as nat, |i: int| 0i64),
            d.view().comb_re == Seq::new(n as nat, |i: int| 0i64),
            d.view().comb_im == Seq::new(n as nat, |i: int| 0i64),
    {
        CicDecimator {
            r,
            n,
            integrators_re: zeros(n),
            integrators_im: zeros(n),
            combs_re: zeros(n),
            combs_im: zeros(n),
            decimation_counter: 0,
        }
    }

    /// Decimation factor.
    pub fn decimation_factor(&self) -> (r: usize)
        ensures
            r == self.view().r,
    {
        self.r
    }

    /// Number of integrator (and comb) stages.
    pub fn stages(&self) -> (n: usize)
        ensures
            n == self.view().n,
    {
        self.n
    }

    /// Samples fed since the last output (the decimation phase).
    pub fn phase(&self) -> (c: usize)
        ensures
            c == self.view().counter,
    {
        self.decimation_counter
    }

    /// Feeds fixed-point samples `(re, im)` through the filter and appends
    /// one decimated output per `r` inputs to `output`. With factor one the
    /// filter is bypassed: the samples are appended unchanged and the state
    /// is kept. With factor zero no output ever comes, and the phase counter
    /// must not overflow.
    pub fn process_fixed(&mut self, input: &[(i64, i64)], output: &mut Vec<(i64, i64)>)
        requires
            old(self).wf(),
            old(self).view().r == 0 ==> old(self).view().counter + input@.len() <= usize::MAX,
        ensures
            final(self).wf(),
            final(self).view().r == old(self).view().r,
            final(self).view().n == old(self).view().n,
            old(self).view().r == 1 ==> *final(self) == *old(self),
            old(self).view().r == 1 ==> final(output)@ == old(output)@ + input@,
            old(self).view().r != 1 ==> final(self).view() == cic_run(old(self).view(), input@).0,
            old(self).view().r != 1 ==> final(output)@ == old(output)@ + cic_run(old(self).view(), input@).1,
            old(self).view().r >= 1 ==> final(self).view().counter < final(self).view().r,
            old(self).view().r >= 2 ==> final(self).view().counter == (old(self).view().counter + input@.len())
                % old(self).view().r,
            old(self).view().r >= 2 ==> final(output)@.len() == old(output)@.len() + (old(self).view().counter
                + input@.len()) / old(self).view().r,
            old(self).view().r == 0 ==> final(self).view().counter == old(self).view().counter + input@.len(),
            old(self).view().r == 0 ==> final(output)@ == old(output)@,
    {
        if self.r == 1 {
            let mut t: usize = 0;
            while t < input.len()
                invariant
                    t <= input@.len(),
                    output@ == old(output)@ + input@.subrange(0, t as int),
                decreases input@.len() - t,
            {
                output.push(input[t]);
                proof {
                    assert(input@.subrange(0, t + 1) =~= input@.subrange(0, t as int).push(input@[t as int]));
                    assert(output@ =~= old(output)@ + input@.subrange(0, t + 1));
                }
                t = t + 1;
            }
            proof {
                assert(input@.subrange(0, input@.len() as int) =~= input@);
            }
            return;
        }
        let ghost s0 = self.view();
        proof {
            if s0.r >= 1 {
                lemma_cic_run_count(s0, input@);
            } else {
                lemma_cic_run_zero_factor(s0, input@);
                assert(cic_run(s0, input@).1 =~= Seq::<(i64, i64)>::empty());
            }
        }
        let mut t: usize = 0;
        while t < input.len()
            invariant
                self.wf(),
                self.r == s0.r,
                s0.r != 1,
                s0.r == 0 ==> s0.counter + input@.len() <= usize::MAX,
                t <= input@.len(),
                self.view() == cic_run(s0, input@.subrange(0, t as int)).0,
                output@ == old(output)@ + cic_run(s0, input@.subrange(0, t as int)).1,
            decreases input@.len() - t,
        {
            let ghost before = self.view();
            let ghost out_before = output@;
            proof {
                if s0.r == 0 {
                    lemma_cic_run_zero_factor(s0, input@.subrange(0, t as int));
                }
            }
            let sample = input[t];
            let mut curr_re = sample.0;
            let mut curr_im = sample.1;
            let mut i: usize = 0;
            while i < self.n
                invariant
                    self.wf(),
                    self.r == before.r,
                    self.n == before.n,
                    self.decimation_counter == before.counter,
                    self.combs_re@ == before.comb_re,
                    self.combs_im@ == before.comb_im,
                    i <= self.n,
                    forall|j: int| 0 <= j < i ==> #[trigger] self.integrators_re@[j] == integ_at(before.int_re, sample.0, j as nat),
                    forall|j: int| 0 <= j < i ==> #[trigger] self.integrators_im@[j] == integ_at(before.int_im, sample.1, j as nat),
                    forall|j: int| i <= j < self.n ==> #[trigger] self.integrators_re@[j] == before.int_re[j],
                    forall|j: int| i <= j < self.n ==> #[trigger] self.integrators_im@[j] == before.int_im[j],
                    curr_re == (if i == 0 { sample.0 } else { integ_at(before.int_re, sample.0, (i - 1) as nat) }),
                    curr_im == (if i == 0 { sample.1 } else { integ_at(before.int_im, sample.1, (i - 1) as nat) }),
                decreases self.n - i,
            {
                let nr = self.integrators_re[i].wrapping_add(curr_re);
                let ni = self.integrators_im[i].wrapping_add(curr_im);
                self.integrators_re.set(i, nr);
                self.integrators_im.set(i, ni);
                curr_re = nr;
                curr_im = ni;
                i = i + 1;
            }
            proof {
                assert(self.integrators_re@ =~= integrate(before.int_re, sample.0));
                assert(self.integrators_im@ =~= integrate(before.int_im, sample.1));
                assert(curr_re == integ_out(before.int_re, sample.0));
                assert(curr_im == integ_out(before.int_im, sample.1));
            }
            self.decimation_counter = self.decimation_counter + 1;
            if self.decimation_counter == self.r {
                self.decimation_counter = 0;
                let ghost yr = curr_re;
                let ghost yi = curr_im;
                let mut comb_in_re = curr_re;
                let mut comb_in_im = curr_im;
                let mut i: usize = 0;
                while i < self.n
                    invariant
                        self.wf(),
                        self.r == before.r,
                        self.n == before.n,
                        self.decimation_counter == 0,
                        self.integrators_re@ == integrate(before.int_re, sample.0),
                        self.integrators_im@ == integrate(before.int_im, sample.1),
                        i <= self.n,
                        forall|j: int| 0 <= j < i ==> #[trigger] self.combs_re@[j] == comb_in(before.comb_re, yr, j as nat),
                        forall|j: int| 0 <= j < i ==> #[trigger] self.combs_im@[j] == comb_in(before.comb_im, yi, j as nat),
                        forall|j: int| i <= j < self.n ==> #[trigger] self.combs_re@[j] == before.comb_re[j],
                        forall|j: int| i <= j < self.n ==> #[trigger] self.combs_im@[j] == before.comb_im[j],
                        comb_in_re == comb_in(before.comb_re, yr, i as nat),
                        comb_in_im == comb_in(before.comb_im, yi, i as nat),
                    decreases self.n - i,
                {
                    let diff_re = comb_in_re.wrapping_sub(self.combs_re[i]);
                    let diff_im = comb_in_im.wrapping_sub(self.combs_im[i]);
                    self.combs_re.set(i, comb_in_re);
                    self.combs_im.set(i, comb_in_im);
                    comb_in_re = diff_re;
                    comb_in_im = diff_im;
                    i = i + 1;
                }
                output.push((comb_in_re, comb_in_im));
                proof {
                    assert(self.combs_re@ =~= comb_regs(before.comb_re, yr));
                    assert(self.combs_im@ =~= comb_regs(before.comb_im, yi));
                }
            }
            proof {
                let xs = input@.subrange(0, t + 1);
                assert(xs.drop_last() =~= input@.subrange(0, t as int));
                assert(xs.last() == sample);
                let step = cic_step(before, sample);
                assert(self.view() == step.0);
                assert(output@ =~= out_before + step.1);
                assert(out_before + step.1 =~= old(output)@ + (cic_run(s0, input@.subrange(0, t as int)).1 + step.1));
            }
            t = t + 1;
        }
        proof {
            assert(input@.subrange(0, input@.len() as int) =~= input@);
        }
    }
}

/// `n` zeros.
fn zeros(n: usize) -> (v: Vec<i64>)
    ensures
        v@ == Seq::new(n as nat, |i: int| 0i64),
{
    let mut v: Vec<i64> = Vec::new();
    let mut k: usize = 0;
    while k < n
        invariant
            k <= n,
            v@ == Seq::new(k as nat, |i: int| 0i64),
        decreases n - k,
    {
        v.push(0);
        proof {
            assert(v@ =~= Seq::new((k + 1) as nat, |i: int| 0i64));
        }
        k = k + 1;
    }
    v
}

} // verus!
