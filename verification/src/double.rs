//! Doubles as their bits: how they compare, how lists are ordered by them, and
//! the integers nearest to them.
//!
//! Nothing here computes with a double. The bits of an IEEE 754 double, read as
//! a sign and a magnitude, order it among the others; read as a significand and
//! an exponent, they give the integer it rounds to.

use vstd::arithmetic::power2::*;
use vstd::prelude::*;

verus! {

/// A double, by its 64 bits.
#[derive(Debug, PartialEq, Eq, Clone, Copy)]
pub struct Double {
    pub bits: u64,
}

/// The bits of an infinity without its sign. More is no number.
pub const INFINITE: u64 = 0x7ff0_0000_0000_0000;

/// The bit of the sign.
pub const SIGN: u64 = 0x8000_0000_0000_0000;

/// One more than the bits of a fraction hold.
pub const FRACTION: u64 = 0x10_0000_0000_0000;

impl Double {
    /// The bits without the sign.
    pub open spec fn size(self) -> int {
        if self.bits >= SIGN {
            self.bits - SIGN
        } else {
            self.bits as int
        }
    }

    /// The double is no number.
    pub open spec fn nan(self) -> bool {
        self.size() > INFINITE
    }

    /// The place of a number among the doubles: equal for equal numbers, so for
    /// the two zeros, and larger for larger ones.
    pub open spec fn rank(self) -> int {
        if self.bits >= SIGN {
            -self.size()
        } else {
            self.size()
        }
    }

    /// `self < other`, as doubles compare: false where one is no number.
    pub open spec fn lt(self, other: Double) -> bool {
        !self.nan() && !other.nan() && self.rank() < other.rank()
    }

    /// The significand: the fraction, behind a leading one unless the number is
    /// next to zero.
    pub open spec fn significand(self) -> int {
        if self.size() < FRACTION {
            self.size()
        } else {
            self.size() % (FRACTION as int) + FRACTION
        }
    }

    /// The power of two by which the significand is multiplied.
    pub open spec fn exponent(self) -> int {
        if self.size() < FRACTION {
            -1074
        } else {
            self.size() / (FRACTION as int) - 1075
        }
    }

    /// The integer nearest to the magnitude, the larger one where two are: the
    /// whole of what is a half more.
    pub open spec fn whole(self) -> int {
        if self.exponent() >= 0 {
            self.significand() * pow2(self.exponent() as nat)
        } else {
            (self.significand() + pow2((-self.exponent() - 1) as nat)) / (pow2(
                (-self.exponent()) as nat,
            ) as int)
        }
    }

    /// The number rounded to an integer, half away from zero, and the nearest
    /// `i64` where it is none. What is no number rounds to zero.
    pub open spec fn rounded(self) -> i64 {
        if self.nan() {
            0
        } else if self.bits >= SIGN {
            if self.whole() > -i64::MIN {
                i64::MIN
            } else {
                (-self.whole()) as i64
            }
        } else {
            if self.whole() > i64::MAX {
                i64::MAX
            } else {
                self.whole() as i64
            }
        }
    }

    /// Whether the double is no number.
    pub fn is_nan(self) -> (r: bool)
        ensures
            r == self.nan(),
    {
        if self.bits >= SIGN {
            self.bits - SIGN > INFINITE
        } else {
            self.bits > INFINITE
        }
    }

    /// The place of a number among the doubles.
    pub fn place(self) -> (r: i64)
        ensures
            r == self.rank(),
            r != i64::MIN,
    {
        if self.bits >= SIGN {
            -((self.bits - SIGN) as i64)
        } else {
            self.bits as i64
        }
    }

    /// The integer nearest to the magnitude, where it is less than two to the
    /// 63rd.
    fn whole_part(self) -> (r: Option<u64>)
        ensures
            match r {
                Some(w) => w == self.whole() && w < SIGN,
                None => self.whole() >= SIGN,
            },
    {
        let size: u64 = if self.bits >= SIGN {
            self.bits - SIGN
        } else {
            self.bits
        };
        let power: u64 = size / FRACTION;
        let rest: u64 = size % FRACTION;
        let digits: u64 = if power == 0 {
            rest
        } else {
            rest + FRACTION
        };
        assert(digits == self.significand());
        proof {
            lemma2_to64();
            lemma2_to64_rest();
        }
        if power >= 1086 {
            let ghost e = (power - 1075) as nat;
            proof {
                if e > 11 {
                    lemma_pow2_strictly_increases(11, e);
                }
                assert(digits * pow2(e) >= FRACTION * 2048) by (nonlinear_arith)
                    requires
                        digits >= FRACTION,
                        pow2(e) >= 2048,
                ;
            }
            None
        } else if power >= 1075 {
            let shift: u64 = power - 1075;
            let ghost factor = pow2(shift as nat);
            proof {
                if shift < 10 {
                    lemma_pow2_strictly_increases(shift as nat, 10);
                }
                assert(digits * factor < 2 * FRACTION * 1024) by (nonlinear_arith)
                    requires
                        0 <= digits < 2 * FRACTION,
                        0 <= factor <= 1024,
                ;
                vstd::bits::lemma_u64_shl_is_mul(digits, shift);
            }
            Some(digits << shift)
        } else {
            let places: u64 = if power == 0 {
                1074
            } else {
                1075 - power
            };
            let ghost unit = pow2(places as nat);
            let ghost half = pow2((places - 1) as nat);
            proof {
                lemma_pow2_unfold(places as nat);
            }
            if places >= 55 {
                proof {
                    if places > 55 {
                        lemma_pow2_strictly_increases(
                            54,
                            (places - 1) as nat,
                        );
                    }
                    assert((digits + half) / (unit as int) == 0) by (nonlinear_arith)
                        requires
                            0 <= digits + half < unit,
                    ;
                }
                Some(0)
            } else {
                proof {
                    if places < 54 {
                        lemma_pow2_strictly_increases(
                            (places - 1) as nat,
                            53,
                        );
                    }
                    vstd::bits::lemma_u64_shl_is_mul(1, (places - 1) as u64);
                }
                let added: u64 = digits + (1u64 << (places - 1));
                proof {
                    vstd::bits::lemma_u64_shr_is_div(added, places);
                    assert(added as nat / unit <= added) by (nonlinear_arith)
                        requires
                            unit >= 1,
                            added >= 0,
                    ;
                }
                Some(added >> places)
            }
        }
    }

    /// The number rounded to an integer.
    pub fn round(self) -> (r: i64)
        ensures
            r == self.rounded(),
    {
        if self.is_nan() {
            return 0;
        }
        match self.whole_part() {
            Some(w) => if self.bits >= SIGN {
                -(w as i64)
            } else {
                w as i64
            },
            None => if self.bits >= SIGN {
                i64::MIN
            } else {
                i64::MAX
            },
        }
    }

    /// Whether `self < other`.
    pub fn less(self, other: Double) -> (r: bool)
        ensures
            r == self.lt(other),
    {
        !self.is_nan() && !other.is_nan() && self.place() < other.place()
    }
}

/// Rounding goes to the nearest integer: a magnitude is less than a half above
/// the integer it rounds to, and at most a half below it.
pub proof fn law_nearest(d: Double)
    requires
        d.exponent() < 0,
    ensures
        ({
            let unit = pow2((-d.exponent()) as nat) as int;
            let over = d.significand() - d.whole() * unit;
            -unit <= 2 * over < unit
        }),
{
    let unit = pow2((-d.exponent()) as nat) as int;
    let half = pow2((-d.exponent() - 1) as nat) as int;
    let digits = d.significand();
    let whole = d.whole();
    lemma_pow2_unfold((-d.exponent()) as nat);
    lemma_pow2_pos((-d.exponent() - 1) as nat);
    assert(whole * unit <= digits + half < whole * unit + unit) by (nonlinear_arith)
        requires
            whole == (digits + half) / unit,
            unit > 0,
    ;
}

/// The larger of two doubles; the other one where one is no number.
pub open spec fn larger(a: Double, b: Double) -> Double {
    if a.nan() || a.lt(b) {
        b
    } else {
        a
    }
}

/// The larger of two doubles.
pub fn max_double(a: Double, b: Double) -> (r: Double)
    ensures
        r == larger(a, b),
{
    if a.is_nan() || a.less(b) {
        b
    } else {
        a
    }
}

/// Item `i` goes before item `j`: its key is smaller, or the keys are equal and
/// it stands before it.
pub open spec fn goes_before(keys: Seq<i64>, i: int, j: int) -> bool {
    keys[i] < keys[j] || (keys[i] == keys[j] && i < j)
}

/// `order` holds the numbers from `lo` up to `hi`, each once, the one before
/// the other as their keys say.
pub open spec fn orders_range(keys: Seq<i64>, order: Seq<usize>, lo: int, hi: int) -> bool {
    &&& order.len() == hi - lo
    &&& forall|k: int| 0 <= k < order.len() ==> lo <= #[trigger] order[k] < hi
    &&& forall|k: int, m: int|
        0 <= k < m < order.len() ==> goes_before(
            keys,
            #[trigger] order[k] as int,
            #[trigger] order[m] as int,
        )
}

/// `order` sorts the items with these keys, ascending; items with equal keys
/// keep their order.
pub open spec fn is_stable_order(keys: Seq<i64>, order: Seq<usize>) -> bool {
    orders_range(keys, order, 0, keys.len() as int)
}

/// Merges the order of a range with that of the range after it.
#[verifier::loop_isolation(false)]
fn merge_orders(
    keys: &Vec<i64>,
    left: &Vec<usize>,
    right: &Vec<usize>,
    Ghost(lo): Ghost<int>,
    Ghost(mid): Ghost<int>,
    Ghost(hi): Ghost<int>,
) -> (r: Vec<usize>)
    requires
        0 <= lo <= mid <= hi <= keys@.len(),
        orders_range(keys@, left@, lo, mid),
        orders_range(keys@, right@, mid, hi),
    ensures
        orders_range(keys@, r@, lo, hi),
{
    let mut r: Vec<usize> = Vec::new();
    let mut i: usize = 0;
    let mut j: usize = 0;
    while i < left.len() || j < right.len()
        invariant
            i <= left@.len(),
            j <= right@.len(),
            r@.len() == i + j,
            forall|k: int| 0 <= k < r@.len() ==> lo <= #[trigger] r@[k] < hi,
            forall|k: int, m: int|
                0 <= k < m < r@.len() ==> goes_before(
                    keys@,
                    #[trigger] r@[k] as int,
                    #[trigger] r@[m] as int,
                ),
            forall|k: int, m: int|
                0 <= k < r@.len() && i <= m < left@.len() ==> goes_before(
                    keys@,
                    #[trigger] r@[k] as int,
                    #[trigger] left@[m] as int,
                ),
            forall|k: int, m: int|
                0 <= k < r@.len() && j <= m < right@.len() ==> goes_before(
                    keys@,
                    #[trigger] r@[k] as int,
                    #[trigger] right@[m] as int,
                ),
        decreases left@.len() - i + right@.len() - j,
    {
        let from_left = j == right.len() || (i < left.len() && keys[left[i]] <= keys[right[j]]);
        if from_left {
            let next: usize = left[i];
            assert forall|m: int| j <= m < right@.len() implies goes_before(
                keys@,
                next as int,
                #[trigger] right@[m] as int,
            ) by {
                assert(m > j ==> goes_before(keys@, right@[j as int] as int, right@[m] as int));
            }
            r.push(next);
            i += 1;
        } else {
            let next: usize = right[j];
            assert forall|m: int| i <= m < left@.len() implies goes_before(
                keys@,
                next as int,
                #[trigger] left@[m] as int,
            ) by {
                assert(m > i ==> goes_before(keys@, left@[i as int] as int, left@[m] as int));
            }
            r.push(next);
            j += 1;
        }
    }
    r
}

/// Orders the items from `lo` up to `hi`.
fn order_range(keys: &Vec<i64>, lo: usize, hi: usize) -> (r: Vec<usize>)
    requires
        lo <= hi <= keys@.len(),
    ensures
        orders_range(keys@, r@, lo as int, hi as int),
    decreases hi - lo,
{
    if hi - lo == 0 {
        Vec::new()
    } else if hi - lo == 1 {
        vec![lo]
    } else {
        let mid: usize = lo + (hi - lo) / 2;
        let left = order_range(keys, lo, mid);
        let right = order_range(keys, mid, hi);
        merge_orders(keys, &left, &right, Ghost(lo as int), Ghost(mid as int), Ghost(hi as int))
    }
}

/// The order that sorts items by their keys, ascending; items with equal keys
/// keep their order.
pub fn stable_order(keys: &Vec<i64>) -> (r: Vec<usize>)
    ensures
        is_stable_order(keys@, r@),
{
    order_range(keys, 0, keys.len())
}

/// There is only one such order.
pub proof fn law_stable_order_unique(keys: Seq<i64>, a: Seq<usize>, b: Seq<usize>)
    requires
        is_stable_order(keys, a),
        is_stable_order(keys, b),
    ensures
        a == b,
{
    let n = keys.len() as int;
    lemma_covers(keys, a, 0, n);
    lemma_covers(keys, b, 0, n);
    assert forall|k: int| 0 <= k < n implies a[k] == b[k] by {
        lemma_same_prefix(keys, a, b, k);
    }
    assert(a =~= b);
}

/// An order of a range leaves no number out.
proof fn lemma_covers(keys: Seq<i64>, order: Seq<usize>, lo: int, hi: int)
    requires
        0 <= lo <= hi <= keys.len(),
        orders_range(keys, order, lo, hi),
    ensures
        forall|x: usize| lo <= x < hi ==> order.contains(x),
{
    let numbers = order.map_values(|x: usize| x as int);
    let whole = vstd::set_lib::set_int_range(lo, hi);
    assert(numbers.no_duplicates()) by {
        assert forall|i: int, j: int| 0 <= i < j < numbers.len() implies numbers[i] != numbers[j] by {
            assert(goes_before(keys, order[i] as int, order[j] as int));
        }
    }
    numbers.unique_seq_to_set();
    vstd::set_lib::lemma_int_range(lo, hi);
    assert(numbers.to_set().subset_of(whole));
    vstd::set_lib::lemma_subset_equality(numbers.to_set(), whole);
    assert forall|x: usize| lo <= x < hi implies order.contains(x) by {
        assert(whole.contains(x as int));
        assert(numbers.contains(x as int));
        let k = choose|k: int| 0 <= k < numbers.len() && numbers[k] == x as int;
        assert(order[k] == x);
    }
}

/// Two orders agree place by place.
proof fn lemma_same_prefix(keys: Seq<i64>, a: Seq<usize>, b: Seq<usize>, k: int)
    requires
        is_stable_order(keys, a),
        is_stable_order(keys, b),
        0 <= k < keys.len(),
        forall|x: usize| 0 <= x < keys.len() ==> a.contains(x),
        forall|x: usize| 0 <= x < keys.len() ==> b.contains(x),
    ensures
        a[k] == b[k],
    decreases k,
{
    assert forall|m: int| 0 <= m < k implies a[m] == b[m] by {
        lemma_same_prefix(keys, a, b, m);
    }
    assert(b.contains(a[k]));
    assert(a.contains(b[k]));
    let p = choose|p: int| 0 <= p < b.len() && b[p] == a[k];
    let q = choose|q: int| 0 <= q < a.len() && a[q] == b[k];
    if p < k {
        assert(a[p] == a[k]);
        assert(goes_before(keys, a[p] as int, a[k] as int));
    }
    if q < k {
        assert(b[q] == b[k]);
        assert(goes_before(keys, b[q] as int, b[k] as int));
    }
    if p > k {
        assert(goes_before(keys, b[k] as int, b[p] as int));
    }
    if q > k {
        assert(goes_before(keys, a[k] as int, a[q] as int));
    }
}

/// Doubles that are numbers compare in one way, and each is in its place.
pub proof fn law_doubles_compare(a: Double, b: Double, c: Double)
    requires
        !a.nan(),
        !b.nan(),
        !c.nan(),
    ensures
        a.lt(b) || b.lt(a) || a.rank() == b.rank(),
        !(a.lt(b) && b.lt(a)),
        a.lt(b) && b.lt(c) ==> a.lt(c),
{
}

/// Which bits are no number, and how the bits of two numbers say which is less:
/// of two without a sign the one with fewer, of two with a sign the one with
/// more, and one with a sign is less than one without, but for the two zeros.
pub proof fn law_bits_compare(a: Double, b: Double)
    ensures
        a.nan() <==> (0x7ff0_0000_0000_0000 < a.bits < 0x8000_0000_0000_0000 || a.bits
            > 0xfff0_0000_0000_0000),
        a.nan() || b.nan() ==> !a.lt(b),
        !a.nan() && !b.nan() ==> (a.lt(b) <==> if a.bits < 0x8000_0000_0000_0000 {
            b.bits < 0x8000_0000_0000_0000 && a.bits < b.bits
        } else if b.bits < 0x8000_0000_0000_0000 {
            !(a.bits == 0x8000_0000_0000_0000 && b.bits == 0)
        } else {
            b.bits < a.bits
        }),
        !a.nan() && !b.nan() ==> (a.rank() < b.rank() <==> a.lt(b)),
{
}

/// The larger of two doubles is one of them, is no less than either, and is no
/// number only where neither is one.
pub proof fn law_larger(a: Double, b: Double)
    ensures
        larger(a, b) == a || larger(a, b) == b,
        !larger(a, b).lt(a) && !larger(a, b).lt(b),
        larger(a, b).nan() ==> a.nan() && b.nan(),
{
}

/// What the bits of a double stand for: those of the exponent and those of the
/// fraction, with a leading one in front of the fraction unless the exponent has
/// no bit set.
pub proof fn law_parts_of_bits(power: u64, fraction: u64, sign: bool)
    requires
        power <= 2047,
        fraction < 0x10_0000_0000_0000,
    ensures
        ({
            let d = Double {
                bits: (power * 0x10_0000_0000_0000 + fraction + (if sign {
                    0x8000_0000_0000_0000int
                } else {
                    0
                })) as u64,
            };
            &&& d.significand() == (if power == 0 {
                fraction as int
            } else {
                fraction + 0x10_0000_0000_0000
            })
            &&& d.exponent() == (if power == 0 {
                -1074int
            } else {
                power - 1075
            })
        }),
{
    assert(FRACTION == 0x10_0000_0000_0000);
}

/// Rounding keeps the sign and stays within an `i64`; a number without places
/// behind its point is itself.
pub proof fn law_rounded(d: Double)
    ensures
        d.nan() ==> d.rounded() == 0,
        !d.nan() && d.bits < 0x8000_0000_0000_0000 ==> d.rounded() == (if d.whole() <= i64::MAX {
            d.whole()
        } else {
            i64::MAX as int
        }),
        !d.nan() && d.bits >= 0x8000_0000_0000_0000 ==> d.rounded() == (if -d.whole() >= i64::MIN {
            -d.whole()
        } else {
            i64::MIN as int
        }),
        d.exponent() >= 0 ==> d.whole() == d.significand() * pow2(d.exponent() as nat),
        d.whole() >= 0,
{
    lemma_pow2_pos(d.exponent() as nat);
    lemma_pow2_pos((-d.exponent()) as nat);
    lemma_pow2_pos((-d.exponent() - 1) as nat);
    if d.exponent() >= 0 {
        assert(d.significand() * pow2(d.exponent() as nat) >= 0) by (nonlinear_arith)
            requires
                d.significand() >= 0,
                pow2(d.exponent() as nat) > 0,
        ;
    } else {
        let top = d.significand() + pow2((-d.exponent() - 1) as nat);
        let unit = pow2((-d.exponent()) as nat) as int;
        assert(top / unit >= 0) by (nonlinear_arith)
            requires
                top >= 0,
                unit > 0,
        ;
    }
}

/// An order that sorts goes through every item once; of two items the one with
/// the smaller key comes first, and of two with the same key the one that stands
/// first.
pub proof fn law_stable_order(keys: Seq<i64>, order: Seq<usize>, i: usize)
    requires
        is_stable_order(keys, order),
    ensures
        order.len() == keys.len(),
        order.no_duplicates(),
        i < keys.len() ==> order.contains(i),
        forall|k: int, m: int|
            0 <= k < m < order.len() ==> #[trigger] keys[order[k] as int] < #[trigger] keys[order[m] as int]
                || (keys[order[k] as int] == keys[order[m] as int] && order[k] < order[m]),
{
    lemma_covers(keys, order, 0, keys.len() as int);
    assert forall|k: int, m: int| 0 <= k < m < order.len() implies #[trigger] keys[order[k] as int]
        < #[trigger] keys[order[m] as int] || (keys[order[k] as int] == keys[order[m] as int]
        && order[k] < order[m]) by {
        assert(goes_before(keys, order[k] as int, order[m] as int));
    }
    assert forall|k: int, m: int| 0 <= k < order.len() && 0 <= m < order.len() && k != m implies order[k]
        != order[m] by {
        if k < m {
            assert(goes_before(keys, order[k] as int, order[m] as int));
        } else {
            assert(goes_before(keys, order[m] as int, order[k] as int));
        }
    }
}

}
