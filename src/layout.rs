use vstd::arithmetic::div_mod::lemma_fundamental_div_mod_converse;
use vstd::prelude::*;

verus! {

/// `s` extended on the right with `zero` up to `size` entries.
pub open spec fn zero_padded<T>(s: Seq<T>, size: nat, zero: T) -> Seq<T> {
    Seq::new(size, |j: int| if j < s.len() { s[j] } else { zero })
}

/// `s` rotated right by `r` positions: the entry at `j` moves to `j + r`,
/// wrapping around the end.
pub open spec fn rotated_right<T>(s: Seq<T>, r: nat) -> Seq<T> {
    Seq::new(s.len(), |j: int| s[(j - r) % (s.len() as int)])
}

pub open spec fn spec_centre_offset(size: nat, n: nat) -> nat {
    ((size - n) / 2) as nat
}

/// The number of samples of a signal of `signal_len` samples that a frame of
/// `size` samples takes in: all of them, or its first `size`.
pub fn windowed_len(size: usize, signal_len: usize) -> (n: usize)
    ensures
        n == if size <= signal_len { size } else { signal_len },
{
    if size <= signal_len {
        size
    } else {
        signal_len
    }
}

/// How far content of `n` samples moves right to stand in the middle of a
/// frame of `size` samples (rounded down).
pub fn centre_offset(size: usize, n: usize) -> (r: usize)
    requires
        n <= size,
    ensures
        r == spec_centre_offset(size as nat, n as nat),
        r + n <= size,
{
    (size - n) / 2
}

/// Places `windowed` in a frame of `size` entries, padded with `zero`, so that
/// it stands in the middle of the frame: the zero-padded content rotated right
/// by `(size - windowed.len()) / 2`. The rotation never wraps.
pub fn centre_in_frame<T: Copy>(windowed: &Vec<T>, size: usize, zero: T) -> (r: Vec<T>)
    requires
        windowed.len() <= size,
    ensures
        r@.len() == size,
        r@ == rotated_right(
            zero_padded(windowed@, size as nat, zero),
            spec_centre_offset(size as nat, windowed.len() as nat),
        ),
        forall|j: int|
            0 <= j < size ==> #[trigger] r@[j] == {
                let off = spec_centre_offset(size as nat, windowed.len() as nat);
                if off <= j < off + windowed.len() {
                    windowed@[j - off]
                } else {
                    zero
                }
            },
{
    let n = windowed.len();
    let off = centre_offset(size, n);
    let mut r: Vec<T> = Vec::new();
    let mut j: usize = 0;
    while j < size
        invariant
            j <= size,
            n == windowed.len(),
            off + n <= size,
            off == spec_centre_offset(size as nat, n as nat),
            r@.len() == j,
            forall|i: int|
                0 <= i < j ==> #[trigger] r@[i] == if off <= i < off + n {
                    windowed@[i - off]
                } else {
                    zero
                },
        decreases size - j,
    {
        if off <= j && j < off + n {
            r.push(windowed[j - off]);
        } else {
            r.push(zero);
        }
        j = j + 1;
    }
    let ghost padded = zero_padded(windowed@, size as nat, zero);
    assert forall|i: int| 0 <= i < size implies #[trigger] r@[i] == rotated_right(
        padded,
        off as nat,
    )[i] by {
        let x = i - off;
        if i >= off {
            lemma_fundamental_div_mod_converse(x, size as int, 0, x);
        } else {
            lemma_fundamental_div_mod_converse(x, size as int, -1, x + size);
        }
    }
    assert(r@ =~= rotated_right(padded, off as nat));
    r
}

} // verus!
