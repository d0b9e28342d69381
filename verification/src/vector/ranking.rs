//! The best of a list of scores.

use vstd::arithmetic::power2::*;
use vstd::prelude::*;

verus! {

/// Where a score stands in the order of scores. The bits of an IEEE 754 single
/// are a sign and a magnitude, so they order as these integers do, with both
/// zeros at the same place. What is no number comes last.
pub open spec fn rank(bits: u32) -> int {
    let magnitude = if bits >= 0x8000_0000 {
        bits - 0x8000_0000
    } else {
        bits as int
    };
    if magnitude > 0x7f80_0000 {
        -0x8000_0000
    } else if bits >= 0x8000_0000 {
        -magnitude
    } else {
        magnitude
    }
}

/// Where a score stands in the order of scores.
pub fn score_rank(bits: u32) -> (r: i64)
    ensures
        r == rank(bits),
{
    let magnitude: i64 = if bits >= 0x8000_0000 {
        (bits - 0x8000_0000) as i64
    } else {
        bits as i64
    };
    if magnitude > 0x7f80_0000 {
        -0x8000_0000
    } else if bits >= 0x8000_0000 {
        -magnitude
    } else {
        magnitude
    }
}

/// A score brought into [0, 1]: one below is 0.0, one above is 1.0, and what is no
/// number is 0.0.
pub open spec fn unit_score(bits: u32) -> u32 {
    if rank(bits) <= 0 {
        0
    } else if rank(bits) >= 0x3f80_0000 {
        0x3f80_0000
    } else {
        bits
    }
}

/// A score brought into [0, 1].
pub fn to_unit_score(bits: u32) -> (r: u32)
    ensures
        r == unit_score(bits),
{
    let at: i64 = score_rank(bits);
    if at <= 0 {
        0
    } else if at >= 0x3f80_0000 {
        0x3f80_0000
    } else {
        bits
    }
}

/// Brought into [0, 1], scores lie between the bits of 0.0 and 1.0 and keep their
/// order; a score that lies there stays as it is.
pub proof fn law_unit_scores_keep_their_order(a: u32, b: u32)
    ensures
        rank(0) <= rank(unit_score(a)) <= rank(0x3f80_0000),
        rank(a) <= rank(b) ==> rank(unit_score(a)) <= rank(unit_score(b)),
        0 < rank(a) <= rank(0x3f80_0000) ==> unit_score(a) == a,
{
}

/// Whether entry `i` comes before entry `j` in the results: by higher score, and
/// by position where the scores are equal.
pub open spec fn ranks_before(scores: Seq<u32>, i: int, j: int) -> bool {
    rank(scores[i]) > rank(scores[j]) || (rank(scores[i]) == rank(scores[j]) && i < j)
}

/// Whether `top` lists the positions of the `k` best of the first `n` scores (of
/// all of them, if there are no more than `k`), best first.
pub open spec fn is_top(scores: Seq<u32>, n: int, k: int, top: Seq<usize>) -> bool {
    &&& top.len() == if n < k {
        n
    } else {
        k
    }
    &&& forall|a: int| 0 <= a < top.len() ==> 0 <= #[trigger] top[a] < n
    &&& forall|a: int, b: int|
        0 <= a < b < top.len() ==> ranks_before(
            scores,
            (#[trigger] top[a]) as int,
            (#[trigger] top[b]) as int,
        )
    &&& forall|i: int, a: int|
        0 <= i < n && !top.contains(i as usize) && 0 <= a < top.len() ==> #[trigger] ranks_before(
            scores,
            top[a] as int,
            i,
        )
}

/// The positions of the `k` best scores, best first.
pub fn top_positions(scores: &Vec<u32>, k: usize) -> (top: Vec<usize>)
    ensures
        is_top(scores@, scores@.len() as int, k as int, top@),
{
    let mut top: Vec<usize> = Vec::new();
    let mut n: usize = 0;
    while n < scores.len()
        invariant
            n <= scores.len(),
            is_top(scores@, n as int, k as int, top@),
        decreases scores.len() - n,
    {
        let key: i64 = score_rank(scores[n]);
        let mut pos: usize = top.len();
        while pos > 0 && score_rank(scores[top[pos - 1]]) < key
            invariant
                pos <= top.len(),
                n < scores.len(),
                key == rank(scores@[n as int]),
                is_top(scores@, n as int, k as int, top@),
                forall|a: int|
                    pos <= a < top.len() ==> rank(scores@[(#[trigger] top@[a]) as int]) < key,
            decreases pos,
        {
            pos = pos - 1;
        }
        let ghost before = top@;
        if pos < k {
            top.insert(pos, n);
            if top.len() > k {
                let _ = top.pop();
            }
        }
        proof {
            lemma_top_step(scores@, n as int, k as int, before, pos as int, top@);
        }
        n = n + 1;
    }
    top
}

/// One more score, put behind those that are at least as high, keeps the list of
/// the best.
#[verifier::spinoff_prover]
#[verifier::rlimit(40)]
proof fn lemma_top_step(
    scores: Seq<u32>,
    n: int,
    k: int,
    before: Seq<usize>,
    pos: int,
    after: Seq<usize>,
)
    requires
        0 <= n < scores.len() <= usize::MAX,
        0 <= k,
        is_top(scores, n, k, before),
        0 <= pos <= before.len(),
        forall|a: int| pos <= a < before.len() ==> rank(scores[(#[trigger] before[a]) as int])
            < rank(scores[n]),
        pos > 0 ==> rank(scores[before[pos - 1] as int]) >= rank(scores[n]),
        pos >= k ==> after == before,
        pos < k ==> after == (if before.len() < k {
            before.insert(pos, n as usize)
        } else {
            before.insert(pos, n as usize).drop_last()
        }),
    ensures
        is_top(scores, n + 1, k, after),
{
    assert forall|a: int| 0 <= a < pos implies ranks_before(
        scores,
        (#[trigger] before[a]) as int,
        n,
    ) by {
        if a < pos - 1 {
            assert(ranks_before(scores, before[a] as int, before[pos - 1] as int));
        }
    }
    assert(n as usize == n);
    if pos < k {
        let full = before.insert(pos, n as usize);
        assert forall|a: int, b: int| 0 <= a < b < full.len() implies ranks_before(
            scores,
            (#[trigger] full[a]) as int,
            (#[trigger] full[b]) as int,
        ) by {
            let x = if a < pos {
                a
            } else {
                a - 1
            };
            let y = if b < pos {
                b
            } else {
                b - 1
            };
            if a != pos && b != pos {
                assert(full[a] == before[x] && full[b] == before[y]);
            } else if b == pos {
                assert(full[a] == before[a]);
            } else {
                assert(full[b] == before[y]);
            }
        }
        assert forall|i: int, a: int|
            0 <= i < n + 1 && !after.contains(i as usize) && 0 <= a < after.len() implies
            #[trigger] ranks_before(scores, after[a] as int, i) by {
            assert(after[a] == full[a]);
            assert(after[pos] == n as usize);
            assert(i != n);
            if before.contains(i as usize) {
                // Only the entry that was pushed out can be missing now.
                let b = choose|b: int| 0 <= b < before.len() && before[b] == i as usize;
                let at = if b < pos {
                    b
                } else {
                    b + 1
                };
                assert(full[at] == i as usize);
                if at < after.len() {
                    assert(after[at] == i as usize);
                }
                assert(at == full.len() - 1);
                assert(ranks_before(scores, full[a] as int, full[at] as int));
            } else if a < pos {
                assert(full[a] == before[a]);
                assert(ranks_before(scores, before[a] as int, i));
            } else if a > pos {
                assert(full[a] == before[a - 1]);
                assert(ranks_before(scores, before[a - 1] as int, i));
            } else {
                // The new entry is better than one that the full list already beats.
                if before.len() == k {
                    assert(pos < before.len());
                    assert(ranks_before(scores, before[before.len() - 1] as int, i));
                    assert(rank(scores[before[before.len() - 1] as int]) < rank(scores[n]));
                } else {
                    lemma_all_listed(scores, n, k, before, i);
                }
            }
        }
        assert forall|a: int| 0 <= a < after.len() implies 0 <= #[trigger] after[a] < n + 1 by {
            assert(after[a] == full[a]);
            if a < pos {
                assert(full[a] == before[a]);
            } else if a > pos {
                assert(full[a] == before[a - 1]);
            }
        }
    } else {
        assert forall|i: int, a: int|
            0 <= i < n + 1 && !after.contains(i as usize) && 0 <= a < after.len() implies
            #[trigger] ranks_before(scores, after[a] as int, i) by {
            if i == n {
                assert(ranks_before(scores, before[a] as int, n));
            } else {
                assert(ranks_before(scores, before[a] as int, i));
            }
        }
    }
}

/// A list of the best that is not full lists every position.
proof fn lemma_all_listed(scores: Seq<u32>, n: int, k: int, top: Seq<usize>, i: int)
    requires
        0 <= n <= scores.len() <= usize::MAX,
        is_top(scores, n, k, top),
        n < k,
        0 <= i < n,
    ensures
        top.contains(i as usize),
{
    let listed = top.map_values(|x: usize| x as int);
    assert forall|a: int, b: int| 0 <= a < listed.len() && 0 <= b < listed.len() && a
        != b implies listed[a] != listed[b] by {
        if a < b {
            assert(ranks_before(scores, top[a] as int, top[b] as int));
        } else {
            assert(ranks_before(scores, top[b] as int, top[a] as int));
        }
    }
    listed.unique_seq_to_set();
    let all = vstd::set_lib::set_int_range(0, n);
    vstd::set_lib::lemma_int_range(0, n);
    assert forall|x: int| listed.to_set().contains(x) implies all.contains(x) by {
        let a = choose|a: int| 0 <= a < listed.len() && listed[a] == x;
        assert(0 <= top[a] < n);
    }
    vstd::set_lib::lemma_subset_equality(listed.to_set(), all);
    assert(listed.to_set().contains(i));
    let a = choose|a: int| 0 <= a < listed.len() && listed[a] == i;
    assert(top[a] == i as usize);
}

/// The list of the best scores is determined by the scores.
pub proof fn law_top_is_unique(scores: Seq<u32>, k: int, a: Seq<usize>, b: Seq<usize>)
    requires
        scores.len() <= usize::MAX,
        is_top(scores, scores.len() as int, k, a),
        is_top(scores, scores.len() as int, k, b),
    ensures
        a == b,
{
    lemma_top_prefix(scores, k, a, b, a.len() as int);
    assert(a =~= b);
}

proof fn lemma_top_prefix(scores: Seq<u32>, k: int, a: Seq<usize>, b: Seq<usize>, j: int)
    requires
        scores.len() <= usize::MAX,
        is_top(scores, scores.len() as int, k, a),
        is_top(scores, scores.len() as int, k, b),
        0 <= j <= a.len(),
    ensures
        forall|i: int| 0 <= i < j ==> #[trigger] a[i] == b[i],
    decreases j,
{
    if j > 0 {
        lemma_top_prefix(scores, k, a, b, j - 1);
        if a[j - 1] != b[j - 1] {
            lemma_top_first_difference(scores, k, a, b, j - 1);
            lemma_top_first_difference(scores, k, b, a, j - 1);
        }
    }
}

proof fn lemma_top_first_difference(scores: Seq<u32>, k: int, a: Seq<usize>, b: Seq<usize>, j: int)
    requires
        scores.len() <= usize::MAX,
        is_top(scores, scores.len() as int, k, a),
        is_top(scores, scores.len() as int, k, b),
        0 <= j < a.len(),
        forall|i: int| 0 <= i < j ==> a[i] == b[i],
        a[j] != b[j],
    ensures
        ranks_before(scores, a[j] as int, b[j] as int),
{
    let y = b[j] as int;
    assert(0 <= b[j] < scores.len());
    if a.contains(y as usize) {
        let p = choose|p: int| 0 <= p < a.len() && a[p] == b[j];
        if p < j {
            assert(ranks_before(scores, b[p] as int, b[j] as int));
        } else {
            assert(ranks_before(scores, a[j] as int, a[p] as int));
        }
    } else {
        assert(ranks_before(scores, a[j] as int, y));
    }
}

// ─── Laws ────────────────────────────────────────────────────────────────

/// Whether the bits of an IEEE 754 single encode a number or an infinity: the bits
/// below the sign are at most those of infinity.
pub open spec fn is_number(bits: u32) -> bool {
    bits as int % 0x8000_0000 <= 0x7f80_0000
}

/// What the bits below the sign encode, in units of the smallest number above zero,
/// two to the power of -149: the lower 23 bits are the fraction and the rest the
/// exponent; from exponent 1 on a leading one belongs to the fraction. Infinity
/// counts as what would follow the largest number.
pub open spec fn size_of_bits(magnitude: int) -> int {
    let exponent = magnitude / 0x80_0000;
    let fraction = magnitude % 0x80_0000;
    if exponent == 0 {
        fraction
    } else {
        (0x80_0000 + fraction) * pow2((exponent - 1) as nat)
    }
}

/// The number that the bits of an IEEE 754 single encode, in the same units.
pub open spec fn encoded(bits: u32) -> int {
    if bits >= 0x8000_0000 {
        -size_of_bits(bits - 0x8000_0000)
    } else {
        size_of_bits(bits as int)
    }
}

proof fn lemma_size_step(n: int)
    requires
        0 <= n,
    ensures
        0 <= size_of_bits(n) < size_of_bits(n + 1),
{
    let e = n / 0x80_0000;
    let f = n % 0x80_0000;
    assert(n == e * 0x80_0000 + f);
    lemma2_to64();
    if f + 1 < 0x80_0000 {
        assert((n + 1) / 0x80_0000 == e && (n + 1) % 0x80_0000 == f + 1);
        if e > 0 {
            lemma_pow2_pos((e - 1) as nat);
            let p = pow2((e - 1) as nat) as int;
            assert(0 <= (0x80_0000 + f) * p < (0x80_0000 + f + 1) * p) by (nonlinear_arith)
                requires
                    p > 0,
                    f >= 0,
            ;
        }
    } else {
        assert((n + 1) / 0x80_0000 == e + 1 && (n + 1) % 0x80_0000 == 0);
        lemma_pow2_pos(e as nat);
        if e > 0 {
            lemma_pow2_unfold(e as nat);
            lemma_pow2_pos((e - 1) as nat);
            let p = pow2((e - 1) as nat) as int;
            let q = pow2(e as nat) as int;
            assert(0 <= (0x80_0000 + f) * p < 0x80_0000 * q) by (nonlinear_arith)
                requires
                    p > 0,
                    q == 2 * p,
                    0 <= f < 0x80_0000,
            ;
        }
    }
}

proof fn lemma_size_grows(a: int, b: int)
    requires
        0 <= a < b,
    ensures
        0 <= size_of_bits(a) < size_of_bits(b),
    decreases b - a,
{
    lemma_size_step(b - 1);
    if a < b - 1 {
        lemma_size_grows(a, b - 1);
    }
}

/// Scores are ordered as the numbers that they encode: one stands before another
/// exactly where its number is smaller. What is no number stands below all of them.
pub proof fn law_scores_order_as_their_numbers(a: u32, b: u32)
    ensures
        is_number(a) && is_number(b) ==> (rank(a) < rank(b) <==> encoded(a) < encoded(b)),
        is_number(a) && is_number(b) ==> (rank(a) == rank(b) <==> encoded(a) == encoded(b)),
        !is_number(a) && is_number(b) ==> rank(a) < rank(b),
        !is_number(a) && !is_number(b) ==> rank(a) == rank(b),
        0 <= a < b <= 0x7f80_0000 ==> rank(a) < rank(b),
        0x8000_0000 <= a < b <= 0xff80_0000 ==> rank(b) < rank(a),
{
    let x = if a >= 0x8000_0000 {
        a - 0x8000_0000
    } else {
        a as int
    };
    let y = if b >= 0x8000_0000 {
        b - 0x8000_0000
    } else {
        b as int
    };
    assert(a as int % 0x8000_0000 == x);
    assert(b as int % 0x8000_0000 == y);
    lemma_size_step(x);
    lemma_size_step(y);
    assert(size_of_bits(0) == 0);
    if x < y {
        lemma_size_grows(x, y);
    }
    if y < x {
        lemma_size_grows(y, x);
    }
    if x > 0 {
        lemma_size_grows(0, x);
    }
    if y > 0 {
        lemma_size_grows(0, y);
    }
}

/// A score from 0.0 to 1.0 is reported as it is; a higher one as 1.0, a lower one or
/// what is no number as 0.0.
pub proof fn law_reported_scores(bits: u32)
    ensures
        bits <= 0x3f80_0000 ==> unit_score(bits) == bits,
        0x3f80_0000 < bits <= 0x7f80_0000 ==> unit_score(bits) == 0x3f80_0000,
        bits >= 0x8000_0000 || bits > 0x7f80_0000 ==> unit_score(bits) == 0,
        encoded(0x3f80_0000) == 0x80_0000 * pow2(126),
{
    assert(0x3f80_0000int / 0x80_0000 == 127);
}

/// As many scores are listed as asked for, or all if there are fewer; none is listed
/// twice.
pub proof fn law_as_many_as_asked_for(scores: Seq<u32>, k: int, top: Seq<usize>)
    requires
        k >= 0,
        is_top(scores, scores.len() as int, k, top),
    ensures
        scores.len() <= k ==> top.len() == scores.len(),
        scores.len() >= k ==> top.len() == k,
        forall|a: int| 0 <= a < top.len() ==> #[trigger] top[a] < scores.len(),
        forall|a: int, b: int| 0 <= a < b < top.len() ==> #[trigger] top[a] != #[trigger] top[b],
{
    assert forall|a: int, b: int| 0 <= a < b < top.len() implies #[trigger] top[a]
        != #[trigger] top[b] by {
        assert(ranks_before(scores, top[a] as int, top[b] as int));
    }
}

/// The best scores are those of the largest numbers, the larger before the smaller,
/// and of equal ones the earlier first: as many as asked for or as there are, no
/// position twice, and none left out that is larger than one that is listed.
pub proof fn law_best_scores_come_first(
    scores: Seq<u32>,
    k: int,
    top: Seq<usize>,
    a: int,
    b: int,
    i: int,
)
    requires
        scores.len() <= usize::MAX,
        is_top(scores, scores.len() as int, k, top),
        0 <= a < top.len(),
        0 <= i < scores.len(),
    ensures
        top.len() <= k,
        top.len() <= scores.len(),
        top.len() < k ==> top.len() == scores.len(),
        top[a] < scores.len(),
        a < b < top.len() ==> top[a] != top[b],
        a < b < top.len() && is_number(scores[top[a] as int]) && is_number(scores[top[b] as int])
            ==> encoded(scores[top[a] as int]) > encoded(scores[top[b] as int]) || (encoded(
            scores[top[a] as int],
        ) == encoded(scores[top[b] as int]) && top[a] < top[b]),
        a < b < top.len() && is_number(scores[top[b] as int]) ==> is_number(scores[top[a] as int]),
        is_number(scores[i]) && is_number(scores[top[a] as int]) && encoded(scores[i]) > encoded(
            scores[top[a] as int],
        ) ==> exists|c: int| 0 <= c < a && #[trigger] top[c] == i,
        is_number(scores[i]) && !is_number(scores[top[a] as int]) ==> exists|c: int|
            0 <= c < a && #[trigger] top[c] == i,
{
    let x = top[a] as int;
    law_scores_order_as_their_numbers(scores[x], scores[i]);
    law_scores_order_as_their_numbers(scores[i], scores[x]);
    if a < b < top.len() {
        let y = top[b] as int;
        assert(ranks_before(scores, x, y));
        law_scores_order_as_their_numbers(scores[x], scores[y]);
        law_scores_order_as_their_numbers(scores[y], scores[x]);
    }
    if rank(scores[i]) > rank(scores[x]) {
        assert(top.contains(i as usize)) by {
            if !top.contains(i as usize) {
                assert(ranks_before(scores, top[a] as int, i));
            }
        }
        let c = choose|c: int| 0 <= c < top.len() && top[c] == i as usize;
        assert(top[c] == i);
        if a < c {
            assert(ranks_before(scores, top[a] as int, top[c] as int));
        }
    }
}

} // verus!
