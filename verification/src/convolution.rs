//! The frequency-domain convolution engine: a radix-2 fast Fourier
//! transform over complex fixed-point samples, zero-padded power-of-two
//! convolution, a real-valued wrapper, and an overlap-retain streaming
//! variant.
//!
//! Samples are fixed-point values at scale `2^48` (`DSCALE`), finer than
//! the coordinate scale because convolution accumulates rounding error
//! across every butterfly stage.

use vstd::prelude::*;

use crate::fixed::{clamp, fits, iabs, sat_add, sat_mul, sat_sub, tdiv};
use crate::trig::{cos_rad, dmul, dsub, sin_rad, spec_cos_rad, spec_sin_rad, DSCALE, TWO_PI_D};

verus! {

/// Raw sum of two values at the signal scale.
pub open spec fn dadd(a: int, b: int) -> int {
    clamp(a + b)
}

/// An audio sample: a fixed-point value at scale `2^48`.
#[derive(Clone, Copy, PartialEq, Eq, Structural, Debug)]
pub struct Sp {
    pub raw: i64,
}

impl View for Sp {
    type V = int;

    open spec fn view(&self) -> int {
        self.raw as int
    }
}

impl Sp {
    pub open spec fn wf(self) -> bool {
        fits(self@)
    }

    pub fn zero() -> (r: Sp)
        ensures
            r@ == 0,
    {
        Sp { raw: 0 }
    }

    /// The value `i`, for integers small enough to carry exactly.
    pub fn from_int(i: i64) -> (r: Sp)
        requires
            -16384 <= i <= 16384,  // 2^14
        ensures
            r@ == i * DSCALE,
            r.wf(),
    {
        Sp { raw: i * DSCALE }
    }

    /// The value `n / d`, rounded toward zero.
    pub fn from_ratio(n: i64, d: i64) -> (r: Sp)
        requires
            fits(n as int),
            fits(d as int),
            d != 0,
        ensures
            r@ == clamp(tdiv(n * DSCALE, d as int)),
            r.wf(),
    {
        Sp { raw: crate::fixed::sat_div(n, d, DSCALE) }
    }

    pub fn raw_value(self) -> (r: i64)
        ensures
            r == self@,
    {
        self.raw
    }

    pub fn add(self, o: Sp) -> (r: Sp)
        requires
            self.wf(),
            o.wf(),
        ensures
            r@ == dadd(self@, o@),
            r.wf(),
    {
        Sp { raw: sat_add(self.raw, o.raw) }
    }

    pub fn sub(self, o: Sp) -> (r: Sp)
        requires
            self.wf(),
            o.wf(),
        ensures
            r@ == dsub(self@, o@),
            r.wf(),
    {
        Sp { raw: sat_sub(self.raw, o.raw) }
    }

    pub fn mul(self, o: Sp) -> (r: Sp)
        requires
            self.wf(),
            o.wf(),
        ensures
            r@ == dmul(self@, o@),
            r.wf(),
    {
        Sp { raw: sat_mul(self.raw, o.raw, DSCALE) }
    }

    pub fn abs(self) -> (r: Sp)
        requires
            self.wf(),
        ensures
            r@ == iabs(self@),
            r.wf(),
    {
        if self.raw < 0 {
            Sp { raw: -self.raw }
        } else {
            self
        }
    }

    pub fn le(self, o: Sp) -> (r: bool)
        ensures
            r == (self@ <= o@),
    {
        self.raw <= o.raw
    }
}

/// A complex sample.
#[derive(Clone, Copy, PartialEq, Eq, Structural, Debug)]
pub struct Cpx {
    pub re: Sp,
    pub im: Sp,
}

/// The raw parts of a complex sample.
pub open spec fn c2(c: Cpx) -> (int, int) {
    (c.re@, c.im@)
}

impl Cpx {
    pub open spec fn wf(self) -> bool {
        self.re.wf() && self.im.wf()
    }

    pub fn zero() -> (r: Cpx)
        ensures
            c2(r) == (0int, 0int),
    {
        Cpx { re: Sp { raw: 0 }, im: Sp { raw: 0 } }
    }

    /// A real sample lifted to a zero-imaginary complex one.
    pub fn from_re(re: Sp) -> (r: Cpx)
        ensures
            c2(r) == (re@, 0int),
            re.wf() ==> r.wf(),
    {
        Cpx { re, im: Sp { raw: 0 } }
    }
}

pub open spec fn cadd(a: (int, int), b: (int, int)) -> (int, int) {
    (dadd(a.0, b.0), dadd(a.1, b.1))
}

pub open spec fn csub(a: (int, int), b: (int, int)) -> (int, int) {
    (dsub(a.0, b.0), dsub(a.1, b.1))
}

/// Complex product: `(ac - bd, ad + bc)`.
pub open spec fn cmul(a: (int, int), b: (int, int)) -> (int, int) {
    (dsub(dmul(a.0, b.0), dmul(a.1, b.1)), dadd(dmul(a.0, b.1), dmul(a.1, b.0)))
}

/// A complex value scaled by a real factor.
pub open spec fn cscale(a: (int, int), f: int) -> (int, int) {
    (dmul(a.0, f), dmul(a.1, f))
}

/// The raw parts of a complex buffer.
pub open spec fn cview(s: Seq<Cpx>) -> Seq<(int, int)> {
    Seq::new(s.len(), |i: int| c2(s[i]))
}

/// The raw values of a real buffer.
pub open spec fn sview(s: Seq<Sp>) -> Seq<int> {
    Seq::new(s.len(), |i: int| s[i]@)
}

/// Every complex entry of a buffer is well formed.
pub open spec fn cwf(s: Seq<Cpx>) -> bool {
    forall|i: int| 0 <= i < s.len() ==> (#[trigger] s[i]).wf()
}

/// Every real entry of a buffer is well formed.
pub open spec fn swf(s: Seq<Sp>) -> bool {
    forall|i: int| 0 <= i < s.len() ==> (#[trigger] s[i]).wf()
}

fn c_add(a: Cpx, b: Cpx) -> (r: Cpx)
    requires
        a.wf(),
        b.wf(),
    ensures
        c2(r) == cadd(c2(a), c2(b)),
        r.wf(),
{
    Cpx { re: a.re.add(b.re), im: a.im.add(b.im) }
}

fn c_sub(a: Cpx, b: Cpx) -> (r: Cpx)
    requires
        a.wf(),
        b.wf(),
    ensures
        c2(r) == csub(c2(a), c2(b)),
        r.wf(),
{
    Cpx { re: a.re.sub(b.re), im: a.im.sub(b.im) }
}

fn c_mul(a: Cpx, b: Cpx) -> (r: Cpx)
    requires
        a.wf(),
        b.wf(),
    ensures
        c2(r) == cmul(c2(a), c2(b)),
        r.wf(),
{
    Cpx {
        re: a.re.mul(b.re).sub(a.im.mul(b.im)),
        im: a.re.mul(b.im).add(a.im.mul(b.re)),
    }
}

fn c_scale(a: Cpx, f: Sp) -> (r: Cpx)
    requires
        a.wf(),
        f.wf(),
    ensures
        c2(r) == cscale(c2(a), f@),
        r.wf(),
{
    Cpx { re: a.re.mul(f), im: a.im.mul(f) }
}

/// The `k`-th root of unity for a transform of length `n`: the angle is
/// `2 pi k / n`; the forward transform takes the conjugate.
pub open spec fn spec_twiddle(k: int, n: int, invert: bool) -> (int, int) {
    let ang = tdiv(TWO_PI_D * k, n);
    if invert {
        (spec_cos_rad(ang), spec_sin_rad(ang))
    } else {
        (spec_cos_rad(ang), -spec_sin_rad(ang))
    }
}

/// The `k`-th transform twiddle factor of length `n`.
fn twiddle(k: usize, n: usize, invert: bool) -> (r: Cpx)
    requires
        k < n,
    ensures
        c2(r) == spec_twiddle(k as int, n as int, invert),
        r.wf(),
{
    proof {
        assert(TWO_PI_D * k < n * TWO_PI_D) by (nonlinear_arith)
            requires
                0 <= k < n,
                TWO_PI_D == 1768559438007110i64,
        ;
        vstd::arithmetic::div_mod::lemma_multiply_divide_lt(
            TWO_PI_D * k,
            n as int,
            TWO_PI_D as int,
        );
        vstd::arithmetic::div_mod::lemma_div_is_ordered(0, TWO_PI_D * k, n as int);
    }
    let ang_wide: u128 = (TWO_PI_D as u128) * (k as u128) / (n as u128);
    let ang: i64 = ang_wide as i64;
    let c = cos_rad(ang);
    let s = sin_rad(ang);
    if invert {
        Cpx { re: Sp { raw: c }, im: Sp { raw: s } }
    } else {
        Cpx { re: Sp { raw: c }, im: Sp { raw: -s } }
    }
}

/// The even-indexed entries of a buffer.
pub open spec fn evens(s: Seq<(int, int)>) -> Seq<(int, int)> {
    Seq::new(((s.len() + 1) / 2) as nat, |i: int| s[2 * i])
}

/// The odd-indexed entries of a buffer.
pub open spec fn odds(s: Seq<(int, int)>) -> Seq<(int, int)> {
    Seq::new((s.len() / 2) as nat, |i: int| s[2 * i + 1])
}

/// The radix-2 transform: split into even and odd halves, transform each,
/// and combine with twiddle factors; buffers of length at most one are
/// their own transform. The forward transform is unnormalized; the inverse
/// (`invert`) differs only in the twiddles' sign.
pub open spec fn spec_fft(s: Seq<(int, int)>, invert: bool) -> Seq<(int, int)>
    decreases s.len(),
{
    if s.len() <= 1 {
        s
    } else {
        let n = s.len() as int;
        let half = n / 2;
        let ev = spec_fft(evens(s), invert);
        let od = spec_fft(odds(s), invert);
        Seq::new(
            n as nat,
            |i: int|
                if i < half {
                    cadd(ev[i], cmul(spec_twiddle(i, n, invert), od[i]))
                } else {
                    csub(ev[i - half], cmul(spec_twiddle(i - half, n, invert), od[i - half]))
                },
        )
    }
}

/// A length that is a power of two, as the transform requires.
pub open spec fn is_pow2(n: nat) -> bool
    decreases n,
{
    if n == 0 {
        false
    } else if n == 1 {
        true
    } else {
        n % 2 == 0 && is_pow2((n / 2) as nat)
    }
}

/// Transform a power-of-two buffer; `invert` selects the inverse transform.
pub fn fft(input: &Vec<Cpx>, invert: bool) -> (r: Vec<Cpx>)
    requires
        cwf(input@),
        is_pow2(input@.len() as nat),
    ensures
        cview(r@) == spec_fft(cview(input@), invert),
        r@.len() == input@.len(),
        cwf(r@),
    decreases input@.len(),
{
    let n = input.len();
    if n <= 1 {
        let mut out: Vec<Cpx> = Vec::new();
        let mut i: usize = 0;
        while i < n
            invariant
                cwf(input@),
                i <= n,
                n == input@.len(),
                out@ =~= input@.subrange(0, i as int),
            decreases n - i,
        {
            out.push(input[i]);
            i = i + 1;
        }
        proof {
            assert(out@ =~= input@);
            assert(cview(out@) =~= cview(input@));
        }
        return out;
    }
    proof {
        assert(n % 2 == 0 && is_pow2((n / 2) as nat));
    }
    let half = n / 2;
    let mut ev_in: Vec<Cpx> = Vec::new();
    let mut od_in: Vec<Cpx> = Vec::new();
    let mut i: usize = 0;
    while i < half
        invariant
            cwf(input@),
            n == input@.len(),
            n % 2 == 0,
            half == n / 2,
            i <= half,
            ev_in@.len() == i,
            od_in@.len() == i,
            forall|j: int| 0 <= j < i ==> ev_in@[j] == input@[2 * j],
            forall|j: int| 0 <= j < i ==> od_in@[j] == input@[2 * j + 1],
        decreases half - i,
    {
        ev_in.push(input[2 * i]);
        od_in.push(input[2 * i + 1]);
        i = i + 1;
    }
    proof {
        assert(cview(ev_in@) =~= evens(cview(input@)));
        assert(cview(od_in@) =~= odds(cview(input@)));
        assert(cwf(ev_in@));
        assert(cwf(od_in@));
        assert(is_pow2((n / 2) as nat));
    }
    let ev = fft(&ev_in, invert);
    let od = fft(&od_in, invert);
    let mut front: Vec<Cpx> = Vec::new();
    let mut back: Vec<Cpx> = Vec::new();
    let mut k: usize = 0;
    while k < half
        invariant
            cwf(ev@),
            cwf(od@),
            ev@.len() == half,
            od@.len() == half,
            half == n / 2,
            n >= 2,
            k <= half,
            front@.len() == k,
            back@.len() == k,
            forall|j: int|
                0 <= j < k ==> c2(#[trigger] front@[j]) == cadd(
                    cview(ev@)[j],
                    cmul(spec_twiddle(j, n as int, invert), cview(od@)[j]),
                ),
            forall|j: int|
                0 <= j < k ==> c2(#[trigger] back@[j]) == csub(
                    cview(ev@)[j],
                    cmul(spec_twiddle(j, n as int, invert), cview(od@)[j]),
                ),
            cwf(front@),
            cwf(back@),
        decreases half - k,
    {
        let w = twiddle(k, n, invert);
        let term = c_mul(w, od[k]);
        front.push(c_add(ev[k], term));
        back.push(c_sub(ev[k], term));
        k = k + 1;
    }
    let ghost front0 = front@;
    let mut out = front;
    let mut b: usize = 0;
    while b < back.len()
        invariant
            b <= back@.len(),
            out@ =~= front0 + back@.subrange(0, b as int),
        decreases back@.len() - b,
    {
        out.push(back[b]);
        proof {
            assert(out@ =~= front0 + back@.subrange(0, b + 1));
        }
        b = b + 1;
    }
    proof {
        assert(out@ =~= front0 + back@);
        assert(cview(out@) =~= spec_fft(cview(input@), invert));
    }
    out
}


/// The power of two the convolution buffers round up to: one for lengths
/// up to one, else twice the value for half the (rounded-up) length.
pub open spec fn pow2ceil(n: nat) -> nat
    decreases n,
{
    if n <= 1 {
        1
    } else {
        2 * pow2ceil(((n + 1) / 2) as nat)
    }
}

/// `pow2ceil` is a power of two at least as large as its argument and less
/// than twice it.
pub proof fn lemma_pow2ceil(n: nat)
    ensures
        is_pow2(pow2ceil(n)),
        pow2ceil(n) >= n,
        pow2ceil(n) >= 1,
        n >= 2 ==> pow2ceil(n) <= 2 * (n - 1),
    decreases n,
{
    if n <= 1 {
    } else {
        let m = ((n + 1) / 2) as nat;
        lemma_pow2ceil(m);
        let p = pow2ceil(m);
        assert(pow2ceil(n) == 2 * p);
        assert((2 * p) % 2 == 0);
        assert((2 * p) / 2 == p);
        assert(is_pow2(2 * p));
    }
}

/// The next power of two at or above `len`.
pub fn next_power_of_two(len: usize) -> (p: usize)
    requires
        len <= 16777216,  // 2^24
    ensures
        p == pow2ceil(len as nat),
        is_pow2(p as nat),
        p >= len,
        1 <= p <= 33554432,
    decreases len,
{
    proof {
        lemma_pow2ceil(len as nat);
    }
    if len <= 1 {
        1
    } else {
        2 * next_power_of_two((len + 1) / 2)
    }
}

/// A buffer zero-padded (or truncated) to length `n`.
pub open spec fn pad(s: Seq<(int, int)>, n: int) -> Seq<(int, int)> {
    Seq::new(
        n as nat,
        |i: int|
            if i < s.len() {
                s[i]
            } else {
                (0int, 0int)
            },
    )
}

/// The frequency-domain convolution of two complex buffers: zero-pad both
/// to the next power of two above the linear-convolution length, transform
/// both, multiply pointwise with the signal spectrum scaled by one over the
/// buffer length (the inverse transform is unnormalized; scaling before the
/// product keeps it within the representable band), transform back, and
/// keep exactly the linear-convolution length, discarding the circular
/// wraparound tail.
pub open spec fn spec_fft_convolve(s: Seq<(int, int)>, k: Seq<(int, int)>) -> Seq<(int, int)> {
    let len = s.len() + k.len() - 1;
    let bl = pow2ceil(len as nat) as int;
    let fs = spec_fft(pad(s, bl), false);
    let fk = spec_fft(pad(k, bl), false);
    let nf = (DSCALE as int) / bl;
    let prod = Seq::new(bl as nat, |i: int| cmul(cscale(fs[i], nf), fk[i]));
    spec_fft(prod, true).subrange(0, len)
}

/// Zero-pad (or truncate) a buffer to the given length.
fn pad_to(input: &Vec<Cpx>, n: usize) -> (out: Vec<Cpx>)
    requires
        cwf(input@),
    ensures
        cview(out@) == pad(cview(input@), n as int),
        out@.len() == n,
        cwf(out@),
{
    let mut out: Vec<Cpx> = Vec::new();
    let mut i: usize = 0;
    while i < n
        invariant
            cwf(input@),
            i <= n,
            out@.len() == i,
            cwf(out@),
            forall|j: int|
                0 <= j < i ==> c2(#[trigger] out@[j]) == if j < input@.len() {
                    c2(input@[j])
                } else {
                    (0int, 0int)
                },
        decreases n - i,
    {
        if i < input.len() {
            out.push(input[i]);
        } else {
            out.push(Cpx { re: Sp { raw: 0 }, im: Sp { raw: 0 } });
        }
        i = i + 1;
    }
    proof {
        assert(cview(out@) =~= pad(cview(input@), n as int));
    }
    out
}

/// Convolve a complex signal with a complex kernel in the frequency
/// domain; the result has the linear-convolution length
/// `signal + kernel - 1`.
pub fn fft_convolve(signal: &Vec<Cpx>, kernel: &Vec<Cpx>) -> (out: Vec<Cpx>)
    requires
        cwf(signal@),
        cwf(kernel@),
        1 <= signal@.len() + kernel@.len() <= 16777216,
    ensures
        cview(out@) == spec_fft_convolve(cview(signal@), cview(kernel@)),
        out@.len() == signal@.len() + kernel@.len() - 1,
        cwf(out@),
{
    let len = signal.len() + kernel.len() - 1;
    let buf_len = next_power_of_two(len);
    let f_signal_in = pad_to(signal, buf_len);
    let f_kernel_in = pad_to(kernel, buf_len);
    let f_signal = fft(&f_signal_in, false);
    let f_kernel = fft(&f_kernel_in, false);
    let norm = Sp { raw: (DSCALE as u64 / buf_len as u64) as i64 };
    let mut prod: Vec<Cpx> = Vec::new();
    let mut i: usize = 0;
    while i < buf_len
        invariant
            cwf(f_signal@),
            cwf(f_kernel@),
            f_signal@.len() == buf_len,
            f_kernel@.len() == buf_len,
            norm.wf(),
            norm@ == (DSCALE as int) / (buf_len as int),
            i <= buf_len,
            prod@.len() == i,
            cwf(prod@),
            forall|j: int|
                0 <= j < i ==> c2(#[trigger] prod@[j]) == cmul(
                    cscale(c2(f_signal@[j]), norm@),
                    c2(f_kernel@[j]),
                ),
        decreases buf_len - i,
    {
        prod.push(c_mul(c_scale(f_signal[i], norm), f_kernel[i]));
        i = i + 1;
    }
    let res = fft(&prod, true);
    let mut out: Vec<Cpx> = Vec::new();
    let mut j: usize = 0;
    while j < len
        invariant
            cwf(res@),
            res@.len() == buf_len,
            len <= buf_len,
            j <= len,
            out@ =~= res@.subrange(0, j as int),
        decreases len - j,
    {
        out.push(res[j]);
        j = j + 1;
    }
    proof {
        let sv = cview(signal@);
        let kv = cview(kernel@);
        let bl = pow2ceil((sv.len() + kv.len() - 1) as nat) as int;
        assert(bl == buf_len);
        assert(cview(f_signal_in@) == pad(sv, bl));
        assert(cview(f_kernel_in@) == pad(kv, bl));
        assert(cview(prod@) =~= Seq::new(
            bl as nat,
            |i2: int|
                cmul(
                    cscale(spec_fft(pad(sv, bl), false)[i2], (DSCALE as int) / bl),
                    spec_fft(pad(kv, bl), false)[i2],
                ),
        ));
        assert(cview(out@) =~= spec_fft_convolve(sv, kv));
    }
    out
}

/// The real-valued convolution: real inputs lifted to zero-imaginary
/// complex samples, convolved, and projected back to their real parts.
pub open spec fn spec_rfft_convolve(s: Seq<int>, k: Seq<int>) -> Seq<int> {
    let cs = Seq::new(s.len(), |i: int| (s[i], 0int));
    let ck = Seq::new(k.len(), |i: int| (k[i], 0int));
    let r = spec_fft_convolve(cs, ck);
    Seq::new(r.len(), |i: int| r[i].0)
}

/// Convolve a real signal with a real kernel by lifting both to complex
/// samples and keeping the real part of the result.
pub fn rfft_convolve(signal: &Vec<Sp>, kernel: &Vec<Sp>) -> (out: Vec<Sp>)
    requires
        swf(signal@),
        swf(kernel@),
        1 <= signal@.len() + kernel@.len() <= 16777216,
    ensures
        sview(out@) == spec_rfft_convolve(sview(signal@), sview(kernel@)),
        out@.len() == signal@.len() + kernel@.len() - 1,
        swf(out@),
{
    let cs = lift_re(signal);
    let ck = lift_re(kernel);
    let cr = fft_convolve(&cs, &ck);
    let mut out: Vec<Sp> = Vec::new();
    let mut i: usize = 0;
    while i < cr.len()
        invariant
            cwf(cr@),
            i <= cr@.len(),
            out@.len() == i,
            swf(out@),
            forall|j: int| 0 <= j < i ==> (#[trigger] out@[j])@ == c2(cr@[j]).0,
        decreases cr@.len() - i,
    {
        out.push(cr[i].re);
        i = i + 1;
    }
    proof {
        assert(cview(cs@) =~= Seq::new(sview(signal@).len(), |i2: int| (sview(signal@)[i2], 0int)));
        assert(cview(ck@) =~= Seq::new(sview(kernel@).len(), |i2: int| (sview(kernel@)[i2], 0int)));
        assert(sview(out@) =~= spec_rfft_convolve(sview(signal@), sview(kernel@)));
    }
    out
}

/// Lift a real buffer to zero-imaginary complex samples.
fn lift_re(input: &Vec<Sp>) -> (out: Vec<Cpx>)
    requires
        swf(input@),
    ensures
        out@.len() == input@.len(),
        cwf(out@),
        forall|j: int|
            0 <= j < out@.len() ==> c2(#[trigger] out@[j]) == ((#[trigger] input@[j])@, 0int),
    decreases input@.len(),
{
    let mut out: Vec<Cpx> = Vec::new();
    let mut i: usize = 0;
    while i < input.len()
        invariant
            swf(input@),
            i <= input@.len(),
            out@.len() == i,
            cwf(out@),
            forall|j: int| 0 <= j < i ==> c2(#[trigger] out@[j]) == (input@[j]@, 0int),
        decreases input@.len() - i,
    {
        out.push(Cpx { re: input[i], im: Sp { raw: 0 } });
        i = i + 1;
    }
    out
}


/// A zero buffer of the kernel's length, the streaming variant's initial
/// history.
pub open spec fn zero_hist(n: int) -> Seq<int> {
    Seq::new(n as nat, |i: int| 0int)
}

/// The streaming (overlap-retain) convolution from input position `pos`
/// with history `buf`: take the next block, keep only the trailing
/// `kernel` samples of history before it, convolve, emit the block-sized
/// slice after the first `kernel` outputs, and carry the new buffer on.
pub open spec fn spec_stream(
    sig: Seq<int>,
    ker: Seq<int>,
    bs: int,
    pos: int,
    buf: Seq<int>,
) -> Seq<int>
    decreases sig.len() - pos,
{
    if pos < 0 || bs < 1 || pos >= sig.len() {
        Seq::empty()
    } else {
        let end = if pos + bs <= sig.len() {
            pos + bs
        } else {
            sig.len() as int
        };
        let chunk = sig.subrange(pos, end);
        let start = if buf.len() >= ker.len() {
            buf.len() - ker.len()
        } else {
            0int
        };
        let nbuf = buf.subrange(start, buf.len() as int) + chunk;
        let resp = spec_rfft_convolve(nbuf, ker);
        let block = Seq::new(
            chunk.len(),
            |i: int|
                if ker.len() + i < resp.len() {
                    resp[ker.len() + i]
                } else {
                    0int
                },
        );
        block + spec_stream(sig, ker, bs, end, nbuf)
    }
}

/// Convolve a signal in fixed-size blocks, retaining the trailing
/// kernel-length history between blocks and emitting one output sample per
/// input sample.
#[verifier::rlimit(60)]
pub fn rfft_convolve_real_time(
    signal: &Vec<Sp>,
    kernel: &Vec<Sp>,
    sample_size: usize,
) -> (out: Vec<Sp>)
    requires
        swf(signal@),
        swf(kernel@),
        1 <= sample_size <= 4194304,
        1 <= kernel@.len() <= 4194304,
        signal@.len() <= 4194304,
    ensures
        sview(out@) == spec_stream(
            sview(signal@),
            sview(kernel@),
            sample_size as int,
            0,
            zero_hist(kernel@.len() as int),
        ),
        out@.len() == signal@.len(),
        swf(out@),
{
    let mut buf: Vec<Sp> = Vec::new();
    let mut z: usize = 0;
    while z < kernel.len()
        invariant
            z <= kernel@.len(),
            buf@.len() == z,
            swf(buf@),
            forall|j: int| 0 <= j < z ==> (#[trigger] buf@[j])@ == 0,
        decreases kernel@.len() - z,
    {
        buf.push(Sp { raw: 0 });
        z = z + 1;
    }
    proof {
        assert(sview(buf@) =~= zero_hist(kernel@.len() as int));
    }
    let mut out: Vec<Sp> = Vec::new();
    let mut pos: usize = 0;
    proof {
        assert(sview(out@) + spec_stream(
            sview(signal@),
            sview(kernel@),
            sample_size as int,
            0,
            sview(buf@),
        ) =~= spec_stream(
            sview(signal@),
            sview(kernel@),
            sample_size as int,
            0,
            sview(buf@),
        ));
    }
    while pos < signal.len()
        invariant
            swf(signal@),
            swf(kernel@),
            1 <= sample_size <= 4194304,
            1 <= kernel@.len() <= 4194304,
            signal@.len() <= 4194304,
            pos <= signal@.len(),
            out@.len() == pos,
            swf(out@),
            swf(buf@),
            kernel@.len() <= buf@.len() <= kernel@.len() + sample_size,
            spec_stream(
                sview(signal@),
                sview(kernel@),
                sample_size as int,
                0,
                zero_hist(kernel@.len() as int),
            ) == sview(out@) + spec_stream(
                sview(signal@),
                sview(kernel@),
                sample_size as int,
                pos as int,
                sview(buf@),
            ),
        decreases signal@.len() - pos,
    {
        let ghost out0 = sview(out@);
        let ghost buf0 = sview(buf@);
        let end = if pos + sample_size <= signal.len() {
            pos + sample_size
        } else {
            signal.len()
        };
        let start = buf.len() - kernel.len();
        let mut nbuf: Vec<Sp> = Vec::new();
        let mut i: usize = start;
        while i < buf.len()
            invariant
                swf(buf@),
                start <= i <= buf@.len(),
                swf(nbuf@),
                nbuf@ =~= buf@.subrange(start as int, i as int),
            decreases buf@.len() - i,
        {
            nbuf.push(buf[i]);
            i = i + 1;
        }
        let mut j: usize = pos;
        while j < end
            invariant
                swf(signal@),
                swf(buf@),
                pos <= j <= end,
                end <= signal@.len(),
                swf(nbuf@),
                nbuf@ =~= buf@.subrange(start as int, buf@.len() as int) + signal@.subrange(
                    pos as int,
                    j as int,
                ),
            decreases end - j,
        {
            nbuf.push(signal[j]);
            j = j + 1;
        }
        proof {
            assert(swf(nbuf@));
            assert(sview(nbuf@) =~= buf0.subrange(start as int, buf0.len() as int)
                + sview(signal@).subrange(pos as int, end as int));
        }
        let resp = rfft_convolve(&nbuf, kernel);
        let mut b: usize = 0;
        let block_len = end - pos;
        while b < block_len
            invariant
                swf(resp@),
                b <= block_len,
                out@.len() == pos + b,
                out0.len() == pos,
                kernel@.len() <= 4194304,
                block_len <= 4194304,
                swf(out@),
                sview(out@) =~= out0 + Seq::new(
                    b as nat,
                    |i2: int|
                        if kernel@.len() + i2 < resp@.len() {
                            sview(resp@)[kernel@.len() + i2]
                        } else {
                            0int
                        },
                ),
            decreases block_len - b,
        {
            let ghost old_out_view = sview(out@);
            if kernel.len() + b < resp.len() {
                out.push(resp[kernel.len() + b]);
            } else {
                out.push(Sp { raw: 0 });
            }
            proof {
                let prev_out = old_out_view;
                let curr = Seq::new(
                    (b + 1) as nat,
                    |i2: int|
                        if kernel@.len() + i2 < resp@.len() {
                            sview(resp@)[kernel@.len() + i2]
                        } else {
                            0int
                        },
                );
                assert forall|j: int| 0 <= j < sview(out@).len() implies #[trigger] sview(out@)[j]
                    == (out0 + curr)[j] by {
                    if j < pos + b {
                        assert(sview(out@)[j] == prev_out[j]);
                    } else {
                        assert(sview(out@)[j] == out@[j]@);
                    }
                }
                assert(sview(out@) =~= out0 + curr);
            }
            b = b + 1;
        }
        proof {
            let sv = sview(signal@);
            let kv = sview(kernel@);
            let bs = sample_size as int;
            let chunk = sv.subrange(pos as int, end as int);
            let nbv = sview(nbuf@);
            let resv = spec_rfft_convolve(nbv, kv);
            assert(sview(resp@) == resv);
            let block = Seq::new(
                chunk.len(),
                |i2: int|
                    if kv.len() + i2 < resv.len() {
                        resv[kv.len() + i2]
                    } else {
                        0int
                    },
            );
            assert(spec_stream(sv, kv, bs, pos as int, buf0) == block + spec_stream(
                sv,
                kv,
                bs,
                end as int,
                nbv,
            ));
            assert(sview(out@) =~= out0 + block);
            assert(out0 + (block + spec_stream(sv, kv, bs, end as int, nbv)) =~= sview(out@)
                + spec_stream(sv, kv, bs, end as int, nbv));
        }
        buf = nbuf;
        pos = end;
    }
    proof {
        assert(sview(out@) + Seq::<int>::empty() =~= sview(out@));
    }
    out
}

} // verus!
