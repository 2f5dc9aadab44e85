//! What is made of a spectrum: how long the transform is, and which peaks of it
//! dominate.

use crate::double;
use crate::double::Double;
use crate::lists;
use vstd::prelude::*;

verus! {

/// The spectrum of a signal, with its dominant peaks as frequency and
/// magnitude.
#[derive(Debug, PartialEq)]
pub struct Spectrum {
    pub frequencies_hz: Vec<Double>,
    pub magnitudes: Vec<Double>,
    pub dominant_peaks: Vec<(Double, Double)>,
}

/// The length that a signal of `n` samples is padded to: the smallest power of
/// two that is no less.
pub fn padded_length(n: u64) -> (r: u64)
    requires
        n <= 0x8000_0000_0000_0000,
    ensures
        n <= r,
        exists|k: nat| r == #[trigger] vstd::arithmetic::power2::pow2(k),
        forall|k: nat| n <= #[trigger] vstd::arithmetic::power2::pow2(k) ==> r <= vstd::arithmetic::power2::pow2(k),
{
    proof {
        vstd::arithmetic::power2::lemma2_to64();
        vstd::arithmetic::power2::lemma2_to64_rest();
    }
    let mut r: u64 = 1;
    let ghost mut k: nat = 0;
    while r < n
        invariant
            r == vstd::arithmetic::power2::pow2(k),
            k <= 63,
            vstd::arithmetic::power2::pow2(63) == 0x8000_0000_0000_0000,
            n <= 0x8000_0000_0000_0000,
            forall|m: nat| n <= #[trigger] vstd::arithmetic::power2::pow2(m) ==> k <= m,
        decreases 63 - k,
    {
        proof {
            if k == 63 {
                assert(false);
            }
            vstd::arithmetic::power2::lemma_pow2_unfold(k + 1);
            if k < 62 {
                vstd::arithmetic::power2::lemma_pow2_strictly_increases(k + 1, 63);
            }
            assert forall|m: nat| n <= #[trigger] vstd::arithmetic::power2::pow2(m) implies k + 1 <= m by {
                if m <= k {
                    if m < k {
                        vstd::arithmetic::power2::lemma_pow2_strictly_increases(m, k);
                    }
                }
            }
        }
        r = r * 2;
        proof {
            k = k + 1;
        }
    }
    proof {
        assert forall|m: nat| n <= #[trigger] vstd::arithmetic::power2::pow2(m) implies r <= vstd::arithmetic::power2::pow2(m) by {
            if k < m {
                vstd::arithmetic::power2::lemma_pow2_strictly_increases(k, m);
            }
        }
    }
    r
}

/// Magnitude `i` is larger than both its neighbours.
pub open spec fn is_peak(magnitudes: Seq<Double>, i: int) -> bool {
    magnitudes[i - 1].lt(magnitudes[i]) && magnitudes[i + 1].lt(magnitudes[i])
}

/// The places of the peaks among the first `n` magnitudes that have two
/// neighbours.
pub open spec fn peak_places(magnitudes: Seq<Double>, n: nat) -> Seq<usize>
    decreases n,
{
    if n <= 1 {
        seq![]
    } else {
        let rest = peak_places(magnitudes, (n - 1) as nat);
        if is_peak(magnitudes, n - 1) {
            rest.push((n - 1) as usize)
        } else {
            rest
        }
    }
}

/// The keys by which peaks are ordered: the largest magnitude first.
pub open spec fn peak_keys(magnitudes: Seq<Double>, places: Seq<usize>) -> Seq<i64> {
    places.map_values(|p: usize| (-magnitudes[p as int].rank()) as i64)
}

/// The places of the peaks of a spectrum.
pub open spec fn spectrum_peaks(frequencies: Seq<Double>, magnitudes: Seq<Double>) -> Seq<usize> {
    if frequencies.len() < 3 {
        seq![]
    } else {
        peak_places(magnitudes, (frequencies.len() - 1) as nat)
    }
}

/// `r` holds the first `top_n` peaks, or all where there are fewer, in the order
/// `order` of their places `places`.
pub open spec fn holds_peaks(
    frequencies: Seq<Double>,
    magnitudes: Seq<Double>,
    places: Seq<usize>,
    order: Seq<usize>,
    top_n: usize,
    r: Seq<(Double, Double)>,
) -> bool {
    &&& double::is_stable_order(peak_keys(magnitudes, places), order)
    &&& r.len() == (if top_n < order.len() {
        top_n as nat
    } else {
        order.len()
    })
    &&& forall|k: int|
        0 <= k < r.len() ==> #[trigger] r[k] == (
            frequencies[places[order[k] as int] as int],
            magnitudes[places[order[k] as int] as int],
        )
}

/// `r` holds the `top_n` largest peaks, or all where there are fewer, the largest
/// first; equal ones as their frequencies stand.
pub open spec fn are_dominant_peaks(
    frequencies: Seq<Double>,
    magnitudes: Seq<Double>,
    top_n: usize,
    r: Seq<(Double, Double)>,
) -> bool {
    exists|order: Seq<usize>| #[trigger]
        holds_peaks(
            frequencies,
            magnitudes,
            spectrum_peaks(frequencies, magnitudes),
            order,
            top_n,
            r,
        )
}

/// Peaks have their places between the ends.
proof fn lemma_peak_places(magnitudes: Seq<Double>, n: nat)
    requires
        n <= usize::MAX,
    ensures
        forall|k: int|
            0 <= k < peak_places(magnitudes, n).len() ==> 1 <= #[trigger] peak_places(magnitudes, n)[k] < n
                && is_peak(magnitudes, peak_places(magnitudes, n)[k] as int),
    decreases n,
{
    if n > 1 {
        lemma_peak_places(magnitudes, (n - 1) as nat);
        let rest = peak_places(magnitudes, (n - 1) as nat);
        let all = peak_places(magnitudes, n);
        assert forall|k: int| 0 <= k < all.len() implies 1 <= #[trigger] all[k] < n && is_peak(
            magnitudes,
            all[k] as int,
        ) by {
            if k < rest.len() {
                assert(all[k] == rest[k]);
            }
        }
    }
}

/// The dominant peaks of a spectrum.
#[verifier::loop_isolation(false)]
pub fn find_peaks(frequencies: &Vec<Double>, magnitudes: &Vec<Double>, top_n: usize) -> (r: Vec<
    (Double, Double),
>)
    requires
        frequencies@.len() >= 3 ==> frequencies@.len() <= magnitudes@.len(),
    ensures
        are_dominant_peaks(frequencies@, magnitudes@, top_n, r@),
{
    let mut places: Vec<usize> = Vec::new();
    let mut keys: Vec<i64> = Vec::new();
    let ghost mags = magnitudes@;
    if frequencies.len() >= 3 {
        let end: usize = frequencies.len() - 1;
        for i in 1..end
            invariant
                places@ == peak_places(mags, i as nat),
                keys@ == peak_keys(mags, places@),
        {
            let own = magnitudes[i];
            if magnitudes[i - 1].less(own) && magnitudes[i + 1].less(own) {
                let ghost before = places@;
                places.push(i);
                keys.push(-own.place());
                assert(keys@ == peak_keys(mags, before).push((-own.rank()) as i64));
                assert(keys@ == peak_keys(mags, places@));
            }
        }
        proof {
            lemma_peak_places(mags, end as nat);
        }
    } else {
        assert(places@ == Seq::<usize>::empty());
        assert(keys@ == peak_keys(mags, places@));
    }
    let order = double::stable_order(&keys);
    let mut r: Vec<(Double, Double)> = Vec::new();
    let count: usize = if top_n < order.len() { top_n } else { order.len() };
    for k in 0..count
        invariant
            r@.len() == k,
            forall|m: int|
                0 <= m < k ==> #[trigger] r@[m] == (
                    frequencies@[places@[order@[m] as int] as int],
                    mags[places@[order@[m] as int] as int],
                ),
    {
        let place: usize = places[order[k]];
        r.push((frequencies[place], magnitudes[place]));
    }
    assert(places@ == spectrum_peaks(frequencies@, mags));
    assert(holds_peaks(frequencies@, mags, places@, order@, top_n, r@));
    r
}

/// The bits of a half: peaks that are less far apart meet.
pub const MEETING_BITS: u64 = 0x3fe0_0000_0000_0000;

/// One of the distances is less than a half.
pub open spec fn meets(distances: Seq<Double>) -> bool {
    exists|k: int|
        0 <= k < distances.len() && (#[trigger] distances[k]).lt(Double { bits: MEETING_BITS })
}

/// The peaks, of the first `n`, that meet one of the others.
pub open spec fn meeting(distances: Seq<Vec<Double>>, n: nat) -> Seq<usize>
    decreases n,
{
    if n == 0 {
        seq![]
    } else {
        let rest = meeting(distances, (n - 1) as nat);
        if meets(distances[n - 1]@) {
            rest.push((n - 1) as usize)
        } else {
            rest
        }
    }
}

/// Whether one of the distances is less than a half.
#[verifier::loop_isolation(false)]
pub fn is_meeting(distances: &Vec<Double>) -> (r: bool)
    ensures
        r == meets(distances@),
{
    let half = Double { bits: MEETING_BITS };
    for k in 0..distances.len()
        invariant
            forall|m: int| 0 <= m < k ==> !(#[trigger] distances@[m]).lt(half),
    {
        if distances[k].less(half) {
            return true;
        }
    }
    false
}

/// The peaks of one spectrum that meet a peak of another, given for each how far
/// it is from the peaks of the other.
#[verifier::loop_isolation(false)]
pub fn meeting_peaks(distances: &Vec<Vec<Double>>) -> (r: Vec<usize>)
    ensures
        r@ == meeting(distances@, distances@.len()),
{
    let mut r: Vec<usize> = Vec::new();
    for i in 0..distances.len()
        invariant
            r@ == meeting(distances@, i as nat),
    {
        if is_meeting(&distances[i]) {
            r.push(i);
        }
    }
    r
}

/// The peaks that meet are exactly those with one of the others less than a half
/// away.
pub proof fn law_meeting(distances: Seq<Vec<Double>>, n: nat, i: usize)
    requires
        n <= usize::MAX,
    ensures
        meeting(distances, n).contains(i) <==> i < n && meets(distances[i as int]@),
    decreases n,
{
    if n > 0 {
        law_meeting(distances, (n - 1) as nat, i);
        let rest = meeting(distances, (n - 1) as nat);
        let longer = rest.push((n - 1) as usize);
        assert(longer[rest.len() as int] == (n - 1) as usize);
        if rest.contains(i) {
            let k = choose|k: int| 0 <= k < rest.len() && rest[k] == i;
            assert(longer[k] == i);
        }
    }
}

/// The spectrum of a signal of `samples` samples, given the frequencies and the
/// magnitudes of its transform; empty where there are fewer than four samples.
pub fn compute_spectrum(
    samples: usize,
    frequencies: Vec<Double>,
    magnitudes: Vec<Double>,
    top_peaks: usize,
) -> (r: Spectrum)
    requires
        samples >= 4 && frequencies@.len() >= 3 ==> frequencies@.len() <= magnitudes@.len(),
    ensures
        samples < 4 ==> r.frequencies_hz@.len() == 0 && r.magnitudes@.len() == 0
            && r.dominant_peaks@.len() == 0,
        samples >= 4 ==> r.frequencies_hz == frequencies && r.magnitudes == magnitudes
            && are_dominant_peaks(frequencies@, magnitudes@, top_peaks, r.dominant_peaks@),
{
    if samples < 4 {
        return Spectrum {
            frequencies_hz: Vec::new(),
            magnitudes: Vec::new(),
            dominant_peaks: Vec::new(),
        };
    }
    let dominant_peaks = find_peaks(&frequencies, &magnitudes, top_peaks);
    Spectrum { frequencies_hz: frequencies, magnitudes, dominant_peaks }
}

/// `p` is the frequency and the magnitude of a peak.
pub open spec fn from_peak(
    frequencies: Seq<Double>,
    magnitudes: Seq<Double>,
    p: (Double, Double),
) -> bool {
    exists|i: int|
        1 <= i < frequencies.len() - 1 && #[trigger] is_peak(magnitudes, i) && p == (
            frequencies[i],
            magnitudes[i],
        )
}

/// Dominant peaks come with the largest magnitude first, each is the magnitude
/// of a peak, and there are no more than were asked for.
pub proof fn law_dominant_peaks(
    frequencies: Seq<Double>,
    magnitudes: Seq<Double>,
    top_n: usize,
    r: Seq<(Double, Double)>,
)
    requires
        frequencies.len() <= usize::MAX,
        are_dominant_peaks(frequencies, magnitudes, top_n, r),
    ensures
        r.len() <= top_n,
        forall|k: int, m: int| 0 <= k < m < r.len() ==> !(#[trigger] r[k]).1.lt((#[trigger] r[m]).1),
        forall|k: int| 0 <= k < r.len() ==> from_peak(frequencies, magnitudes, #[trigger] r[k]),
{
    let places = spectrum_peaks(frequencies, magnitudes);
    let keys = peak_keys(magnitudes, places);
    let order = choose|order: Seq<usize>| #[trigger]
        holds_peaks(frequencies, magnitudes, places, order, top_n, r);
    if frequencies.len() >= 3 {
        lemma_peak_places(magnitudes, (frequencies.len() - 1) as nat);
    }
    assert forall|k: int, m: int| 0 <= k < m < r.len() implies !(#[trigger] r[k]).1.lt(
        (#[trigger] r[m]).1,
    ) by {
        assert(double::goes_before(keys, order[k] as int, order[m] as int));
        assert(keys[order[k] as int] == (-r[k].1.rank()) as i64);
        assert(keys[order[m] as int] == (-r[m].1.rank()) as i64);
    }
    assert forall|k: int| 0 <= k < r.len() implies from_peak(
        frequencies,
        magnitudes,
        #[trigger] r[k],
    ) by {
        let i = places[order[k] as int] as int;
        assert(is_peak(magnitudes, i));
    }
}

/// Place `i`, where its magnitude is larger than those of both its neighbours.
pub open spec fn peak_at(magnitudes: Seq<Double>) -> spec_fn(int) -> Option<usize> {
    |i: int|
        if magnitudes[i - 1].lt(magnitudes[i]) && magnitudes[i + 1].lt(magnitudes[i]) {
            Some(i as usize)
        } else {
            None
        }
}

/// Every local maximum between the ends is a peak, however many there are, and
/// nothing else is one.
pub proof fn law_peaks_complete(magnitudes: Seq<Double>, n: nat)
    ensures
        lists::gathers(peak_at(magnitudes), 1, n as int, peak_places(magnitudes, n)),
    decreases n,
{
    if n <= 1 {
        lists::lemma_gathers_nothing(peak_at(magnitudes), 1, n as int);
    } else {
        law_peaks_complete(magnitudes, (n - 1) as nat);
        lists::lemma_gathers_next(
            peak_at(magnitudes),
            1,
            n - 1,
            peak_places(magnitudes, (n - 1) as nat),
        );
    }
}

/// Place `i` lies between the ends of the spectrum, and its magnitude is larger
/// than those of both its neighbours.
pub open spec fn is_local_maximum(
    frequencies: Seq<Double>,
    magnitudes: Seq<Double>,
    i: int,
) -> bool {
    1 <= i < frequencies.len() - 1 && magnitudes[i - 1].lt(magnitudes[i]) && magnitudes[i + 1].lt(
        magnitudes[i],
    )
}

/// `at` are the places of the items of `r`: different local maxima, the largest
/// first and of two as large the one with the smaller frequency first; every
/// other local maximum comes after all of them, and there is one only where as
/// many were taken as were asked for.
pub open spec fn dominate(
    frequencies: Seq<Double>,
    magnitudes: Seq<Double>,
    top_n: usize,
    r: Seq<(Double, Double)>,
    at: Seq<int>,
) -> bool {
    &&& at.len() == r.len()
    &&& r.len() <= top_n
    &&& forall|k: int|
        0 <= k < at.len() ==> is_local_maximum(frequencies, magnitudes, #[trigger] at[k]) && r[k] == (
            frequencies[at[k]],
            magnitudes[at[k]],
        )
    &&& forall|k: int, m: int|
        0 <= k < m < at.len() ==> magnitudes[#[trigger] at[m]].lt(magnitudes[#[trigger] at[k]]) || (
        !magnitudes[at[k]].lt(magnitudes[at[m]]) && at[k] < at[m])
    &&& forall|i: int|
        #[trigger] is_local_maximum(frequencies, magnitudes, i) && !at.contains(i) ==> r.len()
            == top_n && forall|k: int|
            0 <= k < at.len() ==> magnitudes[i].lt(magnitudes[#[trigger] at[k]]) || (
            !magnitudes[at[k]].lt(magnitudes[i]) && at[k] < i)
}

/// The dominant peaks of a spectrum are its largest local maxima, as many as were
/// asked for, or all of them where there are no more.
pub proof fn law_dominant_peaks_complete(
    frequencies: Seq<Double>,
    magnitudes: Seq<Double>,
    top_n: usize,
    r: Seq<(Double, Double)>,
)
    requires
        frequencies.len() <= usize::MAX,
        frequencies.len() >= 3 ==> frequencies.len() <= magnitudes.len(),
        are_dominant_peaks(frequencies, magnitudes, top_n, r),
    ensures
        exists|at: Seq<int>| dominate(frequencies, magnitudes, top_n, r, at),
{
    let places = spectrum_peaks(frequencies, magnitudes);
    let keys = peak_keys(magnitudes, places);
    let order = choose|order: Seq<usize>| #[trigger]
        holds_peaks(frequencies, magnitudes, places, order, top_n, r);
    let end = if frequencies.len() < 3 {
        1int
    } else {
        frequencies.len() - 1
    };
    law_peaks_complete(magnitudes, end as nat);
    let where_at = choose|w: Seq<int>| #[trigger]
        lists::gathered_at(peak_at(magnitudes), 1, end, peak_places(magnitudes, end as nat), w);
    assert(places == peak_places(magnitudes, end as nat));
    assert forall|p: int| 0 <= p < places.len() implies (#[trigger] places[p]) as int == where_at[p]
        && is_local_maximum(frequencies, magnitudes, places[p] as int) by {
        assert(1 <= where_at[p] < end);
        assert(peak_at(magnitudes)(where_at[p]) == Some(places[p]));
    }
    let at = Seq::new(r.len(), |k: int| places[order[k] as int] as int);
    double::law_stable_order(keys, order, 0);
    assert forall|k: int| 0 <= k < at.len() implies is_local_maximum(
        frequencies,
        magnitudes,
        #[trigger] at[k],
    ) && r[k] == (frequencies[at[k]], magnitudes[at[k]]) by {
        assert(places[order[k] as int] as int == where_at[order[k] as int]);
    }
    assert forall|k: int, m: int| 0 <= k < m < order.len() implies goes_first(
        magnitudes,
        places[#[trigger] order[k] as int] as int,
        places[#[trigger] order[m] as int] as int,
    ) by {
        let a = order[k] as int;
        let b = order[m] as int;
        assert(double::goes_before(keys, a, b));
        assert(places[a] as int == where_at[a] && places[b] as int == where_at[b]);
        assert(keys[a] == (-magnitudes[places[a] as int].rank()) as i64);
        assert(keys[b] == (-magnitudes[places[b] as int].rank()) as i64);
        assert(!magnitudes[places[a] as int].nan() && !magnitudes[places[b] as int].nan());
        if a < b {
            assert(where_at[a] < where_at[b]);
        }
    }
    assert forall|k: int, m: int| 0 <= k < m < at.len() implies magnitudes[#[trigger] at[m]].lt(
        magnitudes[#[trigger] at[k]],
    ) || (!magnitudes[at[k]].lt(magnitudes[at[m]]) && at[k] < at[m]) by {
        assert(goes_first(
            magnitudes,
            places[order[k] as int] as int,
            places[order[m] as int] as int,
        ));
    }
    assert forall|i: int| #[trigger]
        is_local_maximum(frequencies, magnitudes, i) && !at.contains(i) implies r.len() == top_n
        && forall|k: int|
        0 <= k < at.len() ==> magnitudes[i].lt(magnitudes[#[trigger] at[k]]) || (!magnitudes[at[k]].lt(
            magnitudes[i],
        ) && at[k] < i) by {
        assert(peak_at(magnitudes)(i) is Some);
        assert(where_at.contains(i));
        let p = choose|p: int| 0 <= p < where_at.len() && where_at[p] == i;
        assert(places[p] as int == i);
        lists::lemma_gathered_bound(peak_at(magnitudes), 1, end, places, where_at, p);
        double::law_stable_order(keys, order, p as usize);
        let m = choose|m: int| 0 <= m < order.len() && order[m] == p as usize;
        if m < r.len() {
            assert(at[m] == i);
        }
        assert forall|k: int| 0 <= k < at.len() implies magnitudes[i].lt(
            magnitudes[#[trigger] at[k]],
        ) || (!magnitudes[at[k]].lt(magnitudes[i]) && at[k] < i) by {
            assert(goes_first(
                magnitudes,
                places[order[k] as int] as int,
                places[order[m] as int] as int,
            ));
        }
    }
    assert(dominate(frequencies, magnitudes, top_n, r, at));
}

/// The magnitude at `a` is larger than that at `b`, or is no less and stands
/// first.
spec fn goes_first(magnitudes: Seq<Double>, a: int, b: int) -> bool {
    magnitudes[b].lt(magnitudes[a]) || (!magnitudes[a].lt(magnitudes[b]) && a < b)
}

/// Peak `i`, where one of the others is less than a half away.
pub open spec fn meeting_at(distances: Seq<Vec<Double>>) -> spec_fn(int) -> Option<usize> {
    |i: int|
        if exists|k: int|
            0 <= k < distances[i]@.len() && (#[trigger] distances[i]@[k]).lt(
                Double { bits: 0x3fe0_0000_0000_0000 },
            ) {
            Some(i as usize)
        } else {
            None
        }
}

/// The peaks that meet others are all of those with one less than a half away,
/// in their order, each once.
pub proof fn law_meeting_in_order(distances: Seq<Vec<Double>>, n: nat)
    ensures
        lists::gathers(meeting_at(distances), 0, n as int, meeting(distances, n)),
    decreases n,
{
    if n == 0 {
        lists::lemma_gathers_nothing(meeting_at(distances), 0, 0);
    } else {
        law_meeting_in_order(distances, (n - 1) as nat);
        lists::lemma_gathers_next(
            meeting_at(distances),
            0,
            n - 1,
            meeting(distances, (n - 1) as nat),
        );
        assert(meets(distances[n - 1]@) <==> meeting_at(distances)(n - 1) is Some);
    }
}

/// Peaks meet exactly where one is less than a half away.
pub proof fn law_meets(distances: Seq<Double>)
    ensures
        meets(distances) <==> exists|k: int|
            0 <= k < distances.len() && (#[trigger] distances[k]).lt(
                Double { bits: 0x3fe0_0000_0000_0000 },
            ),
{
}

}
