use vstd::prelude::*;

verus! {

/// Why a channel selection was refused.
#[derive(Debug, Clone, Copy, PartialEq, Eq, Structural)]
pub enum MixError {
    /// No channel was selected.
    NoChannels,
    /// A selected channel number is 0 or beyond the frame's channel count.
    ChannelOutOfRange,
}

/// Number of channels that `mask` selects among its first `n`.
pub open spec fn count_selected(mask: Seq<bool>, n: int) -> int
    decreases n,
{
    if n <= 0 {
        0
    } else {
        count_selected(mask, n - 1) + if mask[n - 1] { 1int } else { 0int }
    }
}

/// Sum of the samples of `frame` on the channels that `mask` selects among
/// its first `n`.
pub open spec fn sum_selected(mask: Seq<bool>, frame: Seq<i32>, n: int) -> int
    decreases n,
{
    if n <= 0 {
        0
    } else {
        sum_selected(mask, frame, n - 1) + if mask[n - 1] { frame[n - 1] as int } else { 0int }
    }
}

/// Integer division rounded toward zero, as machine division rounds.
pub open spec fn div_toward_zero(a: int, b: int) -> int {
    if a >= 0 {
        a / b
    } else {
        -((-a) / b)
    }
}

/// The mono sample for one frame: the mean of the selected channels' samples.
pub open spec fn mix_spec(mask: Seq<bool>, frame: Seq<i32>) -> int {
    div_toward_zero(sum_selected(mask, frame, mask.len() as int), count_selected(mask, mask.len() as int))
}

/// The selection mask that a list of 1-based channel numbers gives on a frame
/// of `channel_count` channels.
pub open spec fn mask_of(selected: Seq<usize>, channel_count: int) -> Seq<bool> {
    Seq::new(channel_count as nat, |c: int| selected.contains((c + 1) as usize))
}

/// Downmixes frames of a fixed channel count to mono by averaging a chosen
/// set of channels.
pub struct ChannelMixer {
    mask: Vec<bool>,
    count: usize,
}

impl View for ChannelMixer {
    type V = Seq<bool>;

    closed spec fn view(&self) -> Seq<bool> {
        self.mask@
    }
}

proof fn lemma_count_bounds(mask: Seq<bool>, n: int)
    requires
        0 <= n <= mask.len(),
    ensures
        0 <= count_selected(mask, n) <= n,
    decreases n,
{
    if n > 0 {
        lemma_count_bounds(mask, n - 1);
    }
}

proof fn lemma_sum_bounds(mask: Seq<bool>, frame: Seq<i32>, n: int)
    requires
        0 <= n <= mask.len(),
        n <= frame.len(),
    ensures
        count_selected(mask, n) * (i32::MIN as int) <= sum_selected(mask, frame, n)
            <= count_selected(mask, n) * (i32::MAX as int),
    decreases n,
{
    if n > 0 {
        lemma_sum_bounds(mask, frame, n - 1);
        let c = count_selected(mask, n - 1);
        assert((c + 1) * (i32::MIN as int) == c * (i32::MIN as int) + (i32::MIN as int))
            by (nonlinear_arith);
        assert((c + 1) * (i32::MAX as int) == c * (i32::MAX as int) + (i32::MAX as int))
            by (nonlinear_arith);
    }
}

proof fn lemma_mean_fits(sum: int, count: int)
    requires
        count > 0,
        count * (i32::MIN as int) <= sum <= count * (i32::MAX as int),
    ensures
        i32::MIN <= div_toward_zero(sum, count) <= i32::MAX,
{
    if sum >= 0 {
        assert(sum / count <= i32::MAX) by (nonlinear_arith)
            requires
                count > 0,
                0 <= sum <= count * (i32::MAX as int),
        {
            vstd::arithmetic::div_mod::lemma_div_is_ordered(sum, count * (i32::MAX as int), count);
            vstd::arithmetic::div_mod::lemma_div_multiples_vanish(i32::MAX as int, count);
        }
        vstd::arithmetic::div_mod::lemma_div_pos_is_pos(sum, count);
    } else {
        let m = -sum;
        assert(m / count <= -(i32::MIN as int)) by (nonlinear_arith)
            requires
                count > 0,
                0 < m <= count * (-(i32::MIN as int)),
        {
            vstd::arithmetic::div_mod::lemma_div_is_ordered(m, count * (-(i32::MIN as int)), count);
            vstd::arithmetic::div_mod::lemma_div_multiples_vanish(-(i32::MIN as int), count);
        }
        vstd::arithmetic::div_mod::lemma_div_pos_is_pos(m, count);
    }
}

impl ChannelMixer {
    /// Well formed: the stored count is the number of selected channels, at
    /// least one is selected, and the channel count keeps sums in 64 bits.
    pub closed spec fn wf(&self) -> bool {
        &&& self.count as int == count_selected(self.mask@, self.mask@.len() as int)
        &&& self.count > 0
        &&& self.mask@.len() <= u32::MAX
    }

    /// A mixer for frames of `channel_count` channels that averages the
    /// channels numbered (from 1) in `selected`; a number listed twice counts
    /// once.
    pub fn new(selected: &Vec<usize>, channel_count: usize) -> (r: Result<ChannelMixer, MixError>)
        requires
            channel_count <= u32::MAX,
        ensures
            selected@.len() == 0 ==> r == Err::<ChannelMixer, MixError>(MixError::NoChannels),
            selected@.len() > 0 && (exists|j: int|
                0 <= j < selected@.len() && (selected@[j] == 0 || selected@[j] > channel_count))
                ==> r == Err::<ChannelMixer, MixError>(MixError::ChannelOutOfRange),
            r is Ok ==> r->Ok_0.wf() && r->Ok_0@ == mask_of(selected@, channel_count as int),
            selected@.len() > 0 && (forall|j: int|
                0 <= j < selected@.len() ==> 1 <= #[trigger] selected@[j] <= channel_count)
                ==> r is Ok,
    {
        if selected.len() == 0 {
            return Err(MixError::NoChannels);
        }
        let mut mask: Vec<bool> = Vec::new();
        let mut c: usize = 0;
        while c < channel_count
            invariant
                c <= channel_count,
                mask@ == Seq::new(c as nat, |k: int| false),
            decreases channel_count - c,
        {
            mask.push(false);
            c = c + 1;
        }
        let mut i: usize = 0;
        while i < selected.len()
            invariant
                i <= selected@.len(),
                mask@.len() == channel_count,
                forall|j: int| 0 <= j < i ==> 1 <= #[trigger] selected@[j] <= channel_count,
                forall|k: int|
                    0 <= k < channel_count ==> #[trigger] mask@[k] == (exists|j: int|
                        0 <= j < i && selected@[j] == (k + 1) as usize),
            decreases selected@.len() - i,
        {
            let s = selected[i];
            if s == 0 || s > channel_count {
                return Err(MixError::ChannelOutOfRange);
            }
            mask.set(s - 1, true);
            assert forall|k: int| 0 <= k < channel_count implies #[trigger] mask@[k] == (exists|j: int|
                0 <= j < i + 1 && selected@[j] == (k + 1) as usize) by {
                if k == s - 1 {
                    assert(selected@[i as int] == (k + 1) as usize);
                }
            }
            i = i + 1;
        }
        assert(mask@ =~= mask_of(selected@, channel_count as int)) by {
            assert forall|k: int| 0 <= k < channel_count implies #[trigger] mask@[k] == selected@.contains(
                (k + 1) as usize,
            ) by {
                if mask@[k] {
                    let j = choose|j: int| 0 <= j < i && selected@[j] == (k + 1) as usize;
                    assert(selected@[j] == (k + 1) as usize);
                }
            }
        }
        let mut count: usize = 0;
        let mut k: usize = 0;
        while k < channel_count
            invariant
                k <= channel_count,
                mask@.len() == channel_count,
                count as int == count_selected(mask@, k as int),
            decreases channel_count - k,
        {
            proof {
                lemma_count_bounds(mask@, k as int);
            }
            if mask[k] {
                count = count + 1;
            }
            k = k + 1;
        }
        let first = selected[0];
        proof {
            lemma_count_positive(mask@, channel_count as int, (first - 1) as int);
        }
        Ok(ChannelMixer { mask, count })
    }

    /// Number of channels in the frames this mixer takes.
    pub fn channel_count(&self) -> (r: usize)
        ensures
            r == self@.len(),
    {
        self.mask.len()
    }

    /// The mono sample of the frame that starts at `start` in the interleaved
    /// buffer `buf`: the mean of its selected channels, summed in 64 bits and
    /// rounded toward zero.
    pub fn mix_frame(&self, buf: &[i32], start: usize) -> (r: i32)
        requires
            self.wf(),
            start + self@.len() <= buf@.len(),
        ensures
            r == mix_spec(self@, buf@.subrange(start as int, start + self@.len())),
    {
        let n = self.mask.len();
        let ghost frame = buf@.subrange(start as int, start + n);
        let blen = buf.len();
        let mut sum: i64 = 0;
        let mut c: usize = 0;
        while c < n
            invariant
                blen == buf@.len(),
                self.wf(),
                n == self@.len(),
                c <= n,
                start + n <= buf@.len(),
                frame == buf@.subrange(start as int, start + n),
                sum as int == sum_selected(self@, frame, c as int),
            decreases n - c,
        {
            proof {
                lemma_sum_bounds(self@, frame, c as int);
                lemma_count_bounds(self@, c as int);
                assert(c * (i32::MAX as int) <= (u32::MAX as int) * (i32::MAX as int))
                    by (nonlinear_arith)
                    requires
                        c <= u32::MAX,
                ;
                assert(c * (i32::MIN as int) >= (u32::MAX as int) * (i32::MIN as int))
                    by (nonlinear_arith)
                    requires
                        c <= u32::MAX,
                ;
                assert(count_selected(self@, c as int) * (i32::MAX as int) <= c * (i32::MAX as int))
                    by (nonlinear_arith)
                    requires
                        count_selected(self@, c as int) <= c,
                ;
                assert(count_selected(self@, c as int) * (i32::MIN as int) >= c * (i32::MIN as int))
                    by (nonlinear_arith)
                    requires
                        0 <= count_selected(self@, c as int) <= c,
                ;
            }
            assert(frame[c as int] == buf@[start + c]);
            if self.mask[c] {
                sum = sum + buf[start + c] as i64;
            }
            c = c + 1;
        }
        proof {
            lemma_sum_bounds(self@, frame, n as int);
            lemma_mean_fits(sum as int, self.count as int);
            lemma_count_bounds(self@, n as int);
            assert(sum as int >= (u32::MAX as int) * (i32::MIN as int)) by (nonlinear_arith)
                requires
                    self.count <= u32::MAX,
                    sum as int >= self.count * (i32::MIN as int),
            ;
        }
        let cnt = self.count as u64;
        if sum >= 0 {
            ((sum as u64) / cnt) as i32
        } else {
            let q = ((-sum) as u64) / cnt;
            -(q as i64) as i32
        }
    }

    /// Downmixes an interleaved buffer: one mono sample for each whole frame
    /// in `buf`, in order; a trailing partial frame is ignored.
    pub fn downmix(&self, buf: &[i32]) -> (r: Vec<i32>)
        requires
            self.wf(),
        ensures
            r@.len() * self@.len() <= buf@.len() < (r@.len() + 1) * self@.len(),
            forall|i: int|
                0 <= i < r@.len() ==> #[trigger] r@[i] == mix_spec(
                    self@,
                    buf@.subrange(i * self@.len(), i * self@.len() + self@.len()),
                ),
    {
        let n = self.mask.len();
        let blen = buf.len();
        proof {
            lemma_count_positive_any(self@);
        }
        let mut out: Vec<i32> = Vec::new();
        let mut start: usize = 0;
        while start <= blen && n <= blen - start
            invariant
                blen == buf@.len(),
                self.wf(),
                n == self@.len(),
                n > 0,
                start <= blen,
                start == out@.len() * n,
                forall|i: int|
                    0 <= i < out@.len() ==> #[trigger] out@[i] == mix_spec(
                        self@,
                        buf@.subrange(i * n, i * n + n),
                    ),
            decreases blen - start,
        {
            let m = self.mix_frame(buf, start);
            proof {
                assert((out@.len() + 1) * n == out@.len() * n + n) by (nonlinear_arith);
            }
            out.push(m);
            start = start + n;
        }
        proof {
            assert((out@.len() + 1) * n == out@.len() * n + n) by (nonlinear_arith);
        }
        out
    }
}

proof fn lemma_sum_uniform(mask: Seq<bool>, frame: Seq<i32>, v: i32, n: int)
    requires
        0 <= n <= mask.len(),
        n <= frame.len(),
        forall|c: int| 0 <= c < n ==> #[trigger] frame[c] == v,
    ensures
        sum_selected(mask, frame, n) == count_selected(mask, n) * (v as int),
    decreases n,
{
    if n > 0 {
        lemma_sum_uniform(mask, frame, v, n - 1);
        let k = count_selected(mask, n - 1);
        assert((k + 1) * (v as int) == k * (v as int) + (v as int)) by (nonlinear_arith);
    }
}

/// Mixing frames whose selected channels all hold the same sample gives that
/// sample back exactly: no gain drift, and silence stays silence.
pub proof fn lemma_mix_uniform(mask: Seq<bool>, frame: Seq<i32>, v: i32)
    requires
        count_selected(mask, mask.len() as int) > 0,
        frame.len() == mask.len(),
        forall|c: int| 0 <= c < frame.len() && mask[c] ==> #[trigger] frame[c] == v,
    ensures
        mix_spec(mask, frame) == v,
{
    let n = mask.len() as int;
    let k = count_selected(mask, n);
    let uniform = Seq::new(frame.len(), |c: int| v);
    lemma_sum_same_on_selected(mask, frame, uniform, n);
    lemma_sum_uniform(mask, uniform, v, n);
    if v >= 0 {
        vstd::arithmetic::div_mod::lemma_div_multiples_vanish(v as int, k);
    } else {
        assert(-(k * (v as int)) == k * (-(v as int))) by (nonlinear_arith);
        vstd::arithmetic::div_mod::lemma_div_multiples_vanish(-(v as int), k);
        assert(k * (v as int) < 0) by (nonlinear_arith)
            requires
                k > 0,
                v < 0,
        ;
    }
}

proof fn lemma_sum_same_on_selected(mask: Seq<bool>, f: Seq<i32>, g: Seq<i32>, n: int)
    requires
        0 <= n <= mask.len(),
        n <= f.len(),
        n <= g.len(),
        forall|c: int| 0 <= c < n && mask[c] ==> #[trigger] f[c] == g[c],
    ensures
        sum_selected(mask, f, n) == sum_selected(mask, g, n),
    decreases n,
{
    if n > 0 {
        lemma_sum_same_on_selected(mask, f, g, n - 1);
    }
}

/// The channel count a frame needs for every channel in `selected` to exist:
/// the largest number listed, or 0 for an empty list.
pub fn required_channels(selected: &Vec<usize>) -> (r: usize)
    ensures
        forall|j: int| 0 <= j < selected@.len() ==> #[trigger] selected@[j] <= r,
        selected@.len() == 0 ==> r == 0,
        selected@.len() > 0 ==> selected@.contains(r),
{
    let mut best: usize = 0;
    let mut i: usize = 0;
    while i < selected.len()
        invariant
            i <= selected@.len(),
            forall|j: int| 0 <= j < i ==> #[trigger] selected@[j] <= best,
            i == 0 ==> best == 0,
            i > 0 ==> selected@.contains(best),
        decreases selected@.len() - i,
    {
        if i == 0 || selected[i] > best {
            best = selected[i];
            assert(selected@[i as int] == best);
        }
        i = i + 1;
    }
    best
}

proof fn lemma_count_positive_any(mask: Seq<bool>)
    requires
        count_selected(mask, mask.len() as int) > 0,
    ensures
        mask.len() > 0,
{
}

proof fn lemma_count_positive(mask: Seq<bool>, n: int, k: int)
    requires
        0 <= k < n <= mask.len(),
        mask[k],
    ensures
        count_selected(mask, n) > 0,
    decreases n,
{
    lemma_count_bounds(mask, n - 1);
    if k < n - 1 {
        lemma_count_positive(mask, n - 1, k);
    }
}

} // verus!
