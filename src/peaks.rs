use vstd::prelude::*;

verus! {

/// Bin `a` ranks ahead of bin `b`: it has more power, or as much and a lower
/// index.
pub open spec fn ranks_before(power: Seq<u32>, a: int, b: int) -> bool {
    power[a] > power[b] || (power[a] == power[b] && a < b)
}

/// `r` is the list of the `k` strongest bins of the lower half of a spectrum
/// whose bins have the power keys `power`, strongest first: as many as the
/// half holds if it holds fewer than `k`.
pub open spec fn is_peak_ranking(power: Seq<u32>, k: nat, r: Seq<usize>) -> bool {
    let half = power.len() / 2;
    &&& r.len() == if k <= half { k } else { half }
    &&& forall|i: int| 0 <= i < r.len() ==> #[trigger] r[i] < half
    &&& forall|i: int, j: int|
        0 <= i < j < r.len() ==> ranks_before(power, #[trigger] r[i] as int, #[trigger] r[j] as int)
    &&& forall|i: int, b: int|
        #![trigger r[i], r.contains(b as usize)]
        0 <= i < r.len() && 0 <= b < half && !r.contains(b as usize) ==> ranks_before(
            power,
            r[i] as int,
            b,
        )
}

/// A list of fewer than `half` bins below `half` leaves some bin below `half`
/// out.
proof fn lemma_free_bin_exists(r: Seq<usize>, half: nat)
    requires
        r.len() < half,
        half <= usize::MAX,
        forall|i: int| 0 <= i < r.len() ==> #[trigger] r[i] < half,
    ensures
        exists|c: int| 0 <= c < half && !#[trigger] r.contains(c as usize),
{
    if forall|c: int| 0 <= c < half ==> #[trigger] r.contains(c as usize) {
        let ints = r.map_values(|x: usize| x as int);
        let range = vstd::set_lib::set_int_range(0, half as int);
        assert forall|c: int| range.contains(c) implies ints.to_set().contains(c) by {
            assert(r.contains(c as usize));
            let w = choose|w: int| 0 <= w < r.len() && r[w] == c as usize;
            assert(ints[w] == c);
        }
        vstd::set_lib::lemma_int_range(0, half as int);
        ints.lemma_cardinality_of_set();
        vstd::set_lib::lemma_len_subset(range, ints.to_set());
    }
}

/// The number of bins of a spectrum of `n` bins that carry information on a
/// real signal: the lower half.
pub fn half_len(n: usize) -> (h: usize)
    ensures
        h == n / 2,
{
    n / 2
}

/// Ranks the bins of the lower half of a spectrum by their power keys and
/// returns the first `k` of them, strongest first; among bins of equal power
/// the lower bin comes first.
pub fn peak_bins(power: &Vec<u32>, k: usize) -> (r: Vec<usize>)
    ensures
        is_peak_ranking(power@, k as nat, r@),
{
    let half = half_len(power.len());
    let count = if k <= half {
        k
    } else {
        half
    };
    let mut taken: Vec<bool> = Vec::new();
    let mut i: usize = 0;
    while i < half
        invariant
            i <= half,
            taken@.len() == i,
            forall|b: int| 0 <= b < i ==> !#[trigger] taken@[b],
        decreases half - i,
    {
        taken.push(false);
        i = i + 1;
    }
    let mut r: Vec<usize> = Vec::new();
    while r.len() < count
        invariant
            half == power@.len() / 2,
            count <= half,
            count == if k <= half { k } else { half },
            r@.len() <= count,
            taken@.len() == half,
            forall|b: int| 0 <= b < half ==> #[trigger] taken@[b] == r@.contains(b as usize),
            forall|x: int| 0 <= x < r@.len() ==> #[trigger] r@[x] < half,
            forall|x: int, y: int|
                0 <= x < y < r@.len() ==> ranks_before(
                    power@,
                    #[trigger] r@[x] as int,
                    #[trigger] r@[y] as int,
                ),
            forall|x: int, b: int|
                #![trigger r@[x], r@.contains(b as usize)]
                0 <= x < r@.len() && 0 <= b < half && !r@.contains(b as usize) ==> ranks_before(
                    power@,
                    r@[x] as int,
                    b,
                ),
        decreases count - r@.len(),
    {
        // some bin is still free, since fewer than `half` have been taken
        let mut best: usize = half;
        let mut b: usize = 0;
        while b < half
            invariant
                half == power@.len() / 2,
                b <= half,
                taken@.len() == half,
                best == half || (best < b && !taken@[best as int]),
                forall|c: int|
                    0 <= c < b && !#[trigger] taken@[c] ==> best < half && (c == best
                        || ranks_before(power@, best as int, c)),
            decreases half - b,
        {
            if !taken[b] {
                if best == half || power[b] > power[best] {
                    best = b;
                }
            }
            b = b + 1;
        }
        proof {
            if best == half {
                lemma_free_bin_exists(r@, half as nat);
                let c = choose|c: int| 0 <= c < half && !#[trigger] r@.contains(c as usize);
                assert(!taken@[c]);
            }
        }
        taken.set(best, true);
        let ghost old_r = r@;
        r.push(best);
        assert forall|c: int| 0 <= c < half implies #[trigger] taken@[c] == r@.contains(
            c as usize,
        ) by {
            if c == best {
                assert(r@[old_r.len() as int] == best);
            } else {
                if old_r.contains(c as usize) {
                    let w = choose|w: int| 0 <= w < old_r.len() && old_r[w] == c as usize;
                    assert(r@[w] == c as usize);
                }
                if r@.contains(c as usize) {
                    let w = choose|w: int| 0 <= w < r@.len() && r@[w] == c as usize;
                    assert(w < old_r.len());
                    assert(old_r[w] == c as usize);
                }
            }
        }
        assert forall|x: int, b2: int|
            #![trigger r@[x], r@.contains(b2 as usize)]
            0 <= x < r@.len() && 0 <= b2 < half && !r@.contains(b2 as usize) implies ranks_before(
            power@,
            r@[x] as int,
            b2,
        ) by {
            assert(r@[old_r.len() as int] == best);
            assert(b2 != best);
            assert(!taken@[b2]);
            if x < old_r.len() {
                assert(r@[x] == old_r[x]);
                assert(!old_r.contains(b2 as usize)) by {
                    if old_r.contains(b2 as usize) {
                        let w = choose|w: int| 0 <= w < old_r.len() && old_r[w] == b2 as usize;
                        assert(r@[w] == b2 as usize);
                    }
                }
            }
        }
        assert forall|x: int, y: int|
            0 <= x < y < r@.len() implies ranks_before(
            power@,
            #[trigger] r@[x] as int,
            #[trigger] r@[y] as int,
        ) by {
            if y == old_r.len() {
                assert(r@[x] == old_r[x]);
                assert(!old_r.contains(best));
            } else {
                assert(r@[x] == old_r[x] && r@[y] == old_r[y]);
            }
        }
    }
    r
}

} // verus!
