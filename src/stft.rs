use vstd::arithmetic::div_mod::lemma_fundamental_div_mod_converse;
use vstd::prelude::*;

verus! {

/// The distance between the starts of consecutive frames: half a frame.
pub open spec fn spec_hop(size: nat) -> nat {
    size / 2
}

/// How many whole frames of `size` samples, `spec_hop(size)` apart, fit in a
/// signal of `len` samples.
pub open spec fn spec_frame_count(len: nat, size: nat) -> nat {
    if len < size {
        0
    } else {
        ((len - size) / (spec_hop(size) as int) + 1) as nat
    }
}

/// The frames laid end to end, each value `(re, im)` written as two entries.
pub open spec fn flat_pairs<T>(s: Seq<(T, T)>) -> Seq<T>
    decreases s.len(),
{
    if s.len() == 0 {
        Seq::empty()
    } else {
        flat_pairs(s.drop_last()).push(s.last().0).push(s.last().1)
    }
}

pub open spec fn flat_frames<T>(frames: Seq<Vec<(T, T)>>) -> Seq<T>
    decreases frames.len(),
{
    if frames.len() == 0 {
        Seq::empty()
    } else {
        flat_frames(frames.drop_last()) + flat_pairs(frames.last()@)
    }
}

pub fn hop(size: usize) -> (h: usize)
    ensures
        h == spec_hop(size as nat),
{
    size / 2
}

/// The number of frames of a short-time transform of a signal of `len`
/// samples with frames of `size` samples.
pub fn frame_count(len: usize, size: usize) -> (n: usize)
    requires
        size >= 2,
    ensures
        n == spec_frame_count(len as nat, size as nat),
{
    if len < size {
        0
    } else {
        (len - size) / hop(size) + 1
    }
}

/// Cuts `signal` into frames of `size` samples that start `size / 2` apart;
/// a frame that would run past the end of the signal is not made.
pub fn split_frames<T: Copy>(signal: &Vec<T>, size: usize) -> (frames: Vec<Vec<T>>)
    requires
        size >= 2,
    ensures
        frames@.len() == spec_frame_count(signal@.len(), size as nat),
        forall|f: int|
            0 <= f < frames@.len() ==> #[trigger] frames@[f]@ == signal@.subrange(
                f * spec_hop(size as nat),
                f * spec_hop(size as nat) + size,
            ),
{
    let h = hop(size);
    let len = signal.len();
    let count = frame_count(len, size);
    if count > 0 {
        proof {
            let q = (len - size) as int / (h as int);
            assert(q * h <= len - size) by (nonlinear_arith)
                requires
                    q == (len - size) as int / (h as int),
                    h >= 1,
                    len >= size,
            ;
        }
    }
    let mut frames: Vec<Vec<T>> = Vec::new();
    let mut f: usize = 0;
    while f < count
        invariant
            h == spec_hop(size as nat),
            h >= 1,
            len == signal@.len(),
            count == spec_frame_count(len as nat, size as nat),
            count > 0 ==> (count - 1) * h + size <= len,
            f <= count,
            frames@.len() == f,
            forall|g: int|
                0 <= g < f ==> #[trigger] frames@[g]@ == signal@.subrange(g * h, g * h + size),
        decreases count - f,
    {
        assert(f * h <= (count - 1) * h) by (nonlinear_arith)
            requires
                f < count,
                h >= 1,
        ;
        let start = f * h;
        let mut frame: Vec<T> = Vec::new();
        let mut j: usize = 0;
        while j < size
            invariant
                j <= size,
                start + size <= len,
                len == signal@.len(),
                frame@ == signal@.subrange(start as int, start + j),
            decreases size - j,
        {
            frame.push(signal[start + j]);
            j = j + 1;
            assert(frame@ =~= signal@.subrange(start as int, start + j));
        }
        frames.push(frame);
        f = f + 1;
    }
    frames
}

proof fn lemma_flat_pairs_len<T>(s: Seq<(T, T)>)
    ensures
        flat_pairs(s).len() == 2 * s.len(),
    decreases s.len(),
{
    if s.len() > 0 {
        lemma_flat_pairs_len(s.drop_last());
    }
}

proof fn lemma_flat_frames_len<T>(frames: Seq<Vec<(T, T)>>, size: nat)
    requires
        forall|f: int| 0 <= f < frames.len() ==> (#[trigger] frames[f])@.len() == size,
    ensures
        flat_frames(frames).len() == frames.len() * size * 2,
    decreases frames.len(),
{
    if frames.len() > 0 {
        let rest = frames.drop_last();
        lemma_flat_frames_len(rest, size);
        lemma_flat_pairs_len(frames.last()@);
        assert(frames.len() * size * 2 == rest.len() * size * 2 + size * 2) by (nonlinear_arith)
            requires
                frames.len() == rest.len() + 1,
        ;
    }
}

/// Lays the transformed frames out end to end, each complex value `(re, im)`
/// as two adjacent entries.
pub fn interleave<T: Copy>(frames: &Vec<Vec<(T, T)>>, size: usize) -> (out: Vec<T>)
    requires
        forall|f: int| 0 <= f < frames@.len() ==> (#[trigger] frames@[f])@.len() == size,
        frames@.len() * size * 2 <= usize::MAX,
    ensures
        out@ == flat_frames(frames@),
        out@.len() == frames@.len() * size * 2,
{
    let mut out: Vec<T> = Vec::new();
    let mut f: usize = 0;
    while f < frames.len()
        invariant
            f <= frames@.len(),
            forall|g: int| 0 <= g < frames@.len() ==> (#[trigger] frames@[g])@.len() == size,
            out@ == flat_frames(frames@.take(f as int)),
        decreases frames@.len() - f,
    {
        let frame = &frames[f];
        let mut b: usize = 0;
        while b < frame.len()
            invariant
                b <= frame@.len(),
                f < frames@.len(),
                frame == frames@[f as int],
                out@ == flat_frames(frames@.take(f as int)) + flat_pairs(frame@.take(b as int)),
            decreases frame@.len() - b,
        {
            out.push(frame[b].0);
            out.push(frame[b].1);
            assert(frame@.take(b + 1).drop_last() =~= frame@.take(b as int));
            assert(out@ =~= flat_frames(frames@.take(f as int)) + flat_pairs(
                frame@.take(b + 1),
            ));
            b = b + 1;
        }
        assert(frame@.take(b as int) =~= frame@);
        assert(frames@.take(f + 1).drop_last() =~= frames@.take(f as int));
        f = f + 1;
    }
    assert(frames@.take(f as int) =~= frames@);
    proof {
        lemma_flat_frames_len(frames@, size as nat);
    }
    out
}

/// The flat output of a short-time transform holds `frame_count * size * 2`
/// entries, and none when the signal is shorter than a frame.
pub proof fn lemma_spectrogram_len<T>(len: nat, size: nat, frames: Seq<Vec<(T, T)>>)
    requires
        size >= 2,
        frames.len() == spec_frame_count(len, size),
        forall|f: int| 0 <= f < frames.len() ==> (#[trigger] frames[f])@.len() == size,
    ensures
        flat_frames(frames).len() == spec_frame_count(len, size) * size * 2,
        len < size ==> flat_frames(frames).len() == 0,
{
    lemma_flat_frames_len(frames, size);
}

} // verus!
