use vstd::prelude::*;

verus! {

/// Largest channel count the processing stage is built for.
pub const MAX_CHANNELS: usize = 8;

/// Why a fill of the output buffer stopped early.
#[derive(Debug, Clone, Copy, PartialEq, Eq, Structural)]
pub enum ProcessError {
    /// The decoded stream reached its end, or could not be read any further.
    Eof,
}

/// `a / b` rounded up.
pub open spec fn ceil_div(a: int, b: int) -> int {
    (a + b - 1) / b
}

/// Number of whole frames in an interleaved buffer of `len` samples.
pub fn output_frames(len: usize, channels: usize) -> (r: usize)
    requires
        channels > 0,
    ensures
        r == len / channels,
{
    len / channels
}

/// Input frames to read so that resampling from `in_rate` to `out_rate`
/// yields `out_frames` frames: `ceil(out_frames * in_rate / out_rate)`.
pub fn input_frames_for(out_frames: usize, in_rate: u32, out_rate: u32) -> (r: usize)
    requires
        out_rate > 0,
        ceil_div(out_frames * in_rate, out_rate as int) <= usize::MAX,
    ensures
        r == ceil_div(out_frames * in_rate, out_rate as int),
{
    let a: u128 = out_frames as u128;
    let b: u128 = in_rate as u128;
    assert(a * b <= 0xffff_ffff_ffff_ffffu128 * 0xffff_ffffu128) by (nonlinear_arith)
        requires
            a <= 0xffff_ffff_ffff_ffffu128,
            b <= 0xffff_ffffu128,
    ;
    let num: u128 = a * b;
    let q: u128 = (num + (out_rate as u128 - 1)) / (out_rate as u128);
    q as usize
}

/// Writes `silence` into every sample of `output` from index `from` on.
pub fn write_silence<T: Copy>(output: &mut [T], from: usize, silence: T)
    requires
        from <= old(output)@.len(),
    ensures
        final(output)@.len() == old(output)@.len(),
        forall|k: int| 0 <= k < from ==> final(output)@[k] == old(output)@[k],
        forall|k: int| from <= k < final(output)@.len() ==> final(output)@[k] == silence,
{
    let len = output.len();
    let mut i: usize = from;
    while i < len
        invariant
            from <= i <= len,
            len == old(output)@.len(),
            output@.len() == len,
            forall|k: int| 0 <= k < from ==> output@[k] == old(output)@[k],
            forall|k: int| from <= k < i ==> output@[k] == silence,
        decreases len - i,
    {
        output[i] = silence;
        i = i + 1;
    }
}

/// Relies on fast_interleave::interleave_variable: sample `start + i` of input
/// channel `c` lands at `output[out_start + i * channels + c]`, and no other
/// sample of `output` changes.
#[verifier::external_body]
fn interleave_raw<T: Copy>(
    input: &[&[T]],
    start: usize,
    end: usize,
    output: &mut [T],
    out_start: usize,
    channels: usize,
)
    requires
        0 < channels,
        start < end,
        input@.len() >= channels,
        forall|c: int| 0 <= c < input@.len() ==> end <= (#[trigger] input@[c])@.len(),
        out_start + (end - start) * channels <= old(output)@.len(),
    ensures
        final(output)@.len() == old(output)@.len(),
        forall|i: int, c: int|
            0 <= i < end - start && 0 <= c < channels ==> final(output)@[out_start + i * channels
                + c] == #[trigger] input@[c]@[start + i],
        forall|k: int|
            0 <= k < old(output)@.len() && !(out_start <= k < out_start + (end - start)
                * channels) ==> final(output)@[k] == old(output)@[k],
{
    fast_interleave::interleave_variable(
        input,
        start..end,
        &mut output[out_start..],
        std::num::NonZeroUsize::new(channels).unwrap(),
    );
}

/// Progress of one fill of an interleaved output buffer: how many whole
/// frames of decoded audio have been written from its start.
pub struct FillState {
    channels: usize,
    frames: usize,
    len: usize,
    written: usize,
}

impl FillState {
    /// Channels per frame.
    pub closed spec fn spec_channels(&self) -> nat {
        self.channels as nat
    }

    /// Whole frames the buffer holds.
    pub closed spec fn spec_frames(&self) -> nat {
        self.frames as nat
    }

    /// Samples in the buffer.
    pub closed spec fn spec_len(&self) -> nat {
        self.len as nat
    }

    /// Frames of audio written so far.
    pub closed spec fn spec_written(&self) -> nat {
        self.written as nat
    }

    pub closed spec fn wf(&self) -> bool {
        &&& 0 < self.channels <= MAX_CHANNELS
        &&& self.frames == self.len / self.channels
        &&& self.written <= self.frames
    }

    /// Starts a fill of a buffer of `len` interleaved samples.
    pub fn new(len: usize, channels: usize) -> (r: FillState)
        requires
            0 < channels <= MAX_CHANNELS,
        ensures
            r.wf(),
            r.spec_channels() == channels,
            r.spec_len() == len,
            r.spec_frames() == len / channels,
            r.spec_written() == 0,
    {
        FillState { channels, frames: len / channels, len, written: 0 }
    }

    pub fn channels(&self) -> (r: usize)
        ensures
            r == self.spec_channels(),
    {
        self.channels
    }

    pub fn frames(&self) -> (r: usize)
        ensures
            r == self.spec_frames(),
    {
        self.frames
    }

    pub fn written_frames(&self) -> (r: usize)
        ensures
            r == self.spec_written(),
    {
        self.written
    }

    /// Frames still to be written before the buffer is full.
    pub fn remaining(&self) -> (r: usize)
        requires
            self.wf(),
        ensures
            r == self.spec_frames() - self.spec_written(),
    {
        self.frames - self.written
    }

    /// Interleaves the first frames of a de-interleaved batch (one slice per
    /// channel, `n` frames each) into the buffer right after what is already
    /// written. Frames that do not fit are dropped; returns how many were taken.
    pub fn push_batch<T: Copy>(&mut self, output: &mut [T], input: &[&[T]], n: usize) -> (m:
        usize)
        requires
            old(self).wf(),
            old(output)@.len() == old(self).spec_len(),
            input@.len() >= old(self).spec_channels(),
            forall|c: int| 0 <= c < input@.len() ==> n <= (#[trigger] input@[c])@.len(),
        ensures
            final(self).wf(),
            final(self).spec_channels() == old(self).spec_channels(),
            final(self).spec_frames() == old(self).spec_frames(),
            final(self).spec_len() == old(self).spec_len(),
            m == if n <= old(self).spec_frames() - old(self).spec_written() {
                n as int
            } else {
                old(self).spec_frames() - old(self).spec_written()
            },
            final(self).spec_written() == old(self).spec_written() + m,
            final(output)@.len() == old(output)@.len(),
            forall|i: int, c: int|
                0 <= i < m && 0 <= c < old(self).spec_channels() ==> final(output)@[(old(
                    self,
                ).spec_written() + i) * old(self).spec_channels() + c] == input@[c]@[i],
            forall|k: int|
                0 <= k < old(output)@.len() && !(old(self).spec_written() * old(
                    self,
                ).spec_channels() <= k < final(self).spec_written() * old(self).spec_channels())
                    ==> final(output)@[k] == old(output)@[k],
    {
        let ch = self.channels;
        let room = self.frames - self.written;
        let m: usize = if n <= room {
            n
        } else {
            room
        };
        let w = self.written;
        proof {
            let f = self.frames as int;
            let l = self.len as int;
            let c = ch as int;
            assert(f * c <= l) by (nonlinear_arith)
                requires
                    f == l / c,
                    c > 0,
                    l >= 0,
            ;
            assert((w + m) * c <= f * c) by (nonlinear_arith)
                requires
                    w + m <= f,
                    c > 0,
            ;
            assert((w + m) * c == w * c + m * c) by (nonlinear_arith);
        }
        if m > 0 {
            interleave_raw(input, 0, m, output, w * ch, ch);
            assert forall|i: int, c: int| 0 <= i < m && 0 <= c < ch implies output@[(w + i) * ch
                + c] == input@[c]@[i] by {
                assert(output@[w * ch + i * ch + c] == input@[c]@[0 + i]);
                assert((w + i) * ch + c == w * ch + i * ch + c) by (nonlinear_arith);
            }
        }
        self.written = w + m;
        m
    }

    /// Ends the fill: every sample after the written frames, up to the end of
    /// the buffer, becomes `silence`. Reports `Eof` when the source ended.
    pub fn close<T: Copy>(self, output: &mut [T], silence: T, reached_end: bool) -> (r: Result<
        (),
        ProcessError,
    >)
        requires
            self.wf(),
            old(output)@.len() == self.spec_len(),
        ensures
            r == (if reached_end {
                Err::<(), ProcessError>(ProcessError::Eof)
            } else {
                Ok::<(), ProcessError>(())
            }),
            final(output)@.len() == old(output)@.len(),
            forall|k: int|
                0 <= k < self.spec_written() * self.spec_channels() ==> final(output)@[k] == old(
                    output,
                )@[k],
            forall|k: int|
                self.spec_written() * self.spec_channels() <= k < final(output)@.len()
                    ==> final(output)@[k] == silence,
    {
        proof {
            let f = self.frames as int;
            let l = self.len as int;
            let c = self.channels as int;
            let w = self.written as int;
            assert(w * c <= l) by (nonlinear_arith)
                requires
                    f == l / c,
                    c > 0,
                    l >= 0,
                    0 <= w <= f,
            ;
        }
        write_silence(output, self.written * self.channels, silence);
        if reached_end {
            Err(ProcessError::Eof)
        } else {
            Ok(())
        }
    }
}

/// The samples a fill has written and the samples `close` silences split the
/// buffer exactly: audio covers `[0, written * channels)`, which never runs
/// past the end, and silence covers the rest up to the buffer's length, so no
/// sample of the buffer is left as it was before the fill.
pub proof fn lemma_fill_frontier(s: FillState)
    requires
        s.wf(),
    ensures
        s.spec_written() * s.spec_channels() <= s.spec_frames() * s.spec_channels(),
        s.spec_frames() * s.spec_channels() <= s.spec_len(),
        s.spec_len() - s.spec_frames() * s.spec_channels() < s.spec_channels(),
{
    let c = s.channels as int;
    let l = s.len as int;
    let f = s.frames as int;
    let w = s.written as int;
    vstd::arithmetic::div_mod::lemma_fundamental_div_mod(l, c);
    vstd::arithmetic::div_mod::lemma_mod_bound(l, c);
    assert(w * c <= f * c) by (nonlinear_arith)
        requires
            0 <= w <= f,
            c > 0,
    ;
    assert(f * c == c * (l / c)) by (nonlinear_arith)
        requires
            f == l / c,
    ;
}

/// Within a region of `frames` interleaved frames of `channels` samples, the
/// slot `i * channels + j` of frame `i` and channel `j` is in the region, no
/// two (frame, channel) pairs share a slot, and every slot of the region
/// belongs to one pair: interleaving writes each sample of the region once.
pub proof fn lemma_interleave_layout(frames: nat, channels: nat)
    requires
        channels > 0,
    ensures
        forall|i: int, j: int|
            0 <= i < frames && 0 <= j < channels ==> 0 <= #[trigger] (i * channels + j) < frames
                * channels,
        forall|i1: int, j1: int, i2: int, j2: int|
            0 <= i1 < frames && 0 <= j1 < channels && 0 <= i2 < frames && 0 <= j2 < channels
                && #[trigger] (i1 * channels + j1) == #[trigger] (i2 * channels + j2) ==> i1 == i2
                && j1 == j2,
        forall|k: int|
            0 <= k < frames * channels ==> {
                let i = #[trigger] (k / (channels as int));
                let j = k % (channels as int);
                &&& 0 <= i < frames
                &&& 0 <= j < channels
                &&& i * channels + j == k
            },
{
    let n = channels as int;
    let f = frames as int;
    assert forall|i: int, j: int| 0 <= i < f && 0 <= j < n implies 0 <= #[trigger] (i * n + j) < f
        * n by {
        assert(0 <= i * n + j < f * n) by (nonlinear_arith)
            requires
                0 <= i < f,
                0 <= j < n,
        ;
    }
    assert forall|i1: int, j1: int, i2: int, j2: int|
        0 <= i1 < f && 0 <= j1 < n && 0 <= i2 < f && 0 <= j2 < n && #[trigger] (i1 * n + j1)
            == #[trigger] (i2 * n + j2) implies i1 == i2 && j1 == j2 by {
        assert(i1 == i2) by (nonlinear_arith)
            requires
                0 <= j1 < n,
                0 <= j2 < n,
                i1 * n + j1 == i2 * n + j2,
        ;
    }
    assert forall|k: int| 0 <= k < f * n implies 0 <= #[trigger] (k / n) < f && 0 <= k % n && k % n
        < n && (k / n) * n + k % n == k by {
        vstd::arithmetic::div_mod::lemma_fundamental_div_mod(k, n);
        vstd::arithmetic::div_mod::lemma_mod_bound(k, n);
        assert(0 <= k / n < f) by (nonlinear_arith)
            requires
                0 <= k < f * n,
                n > 0,
                k == n * (k / n) + k % n,
                0 <= k % n < n,
        ;
    }
}

} // verus!
