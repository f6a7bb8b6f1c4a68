//! Distinct random positions.

use vstd::prelude::*;

use crate::runtime::Core;

verus! {

/// The numbers below `n`, in order.
pub open spec fn in_order(n: nat) -> Seq<usize> {
    Seq::new(n, |i: int| i as usize)
}

pub open spec fn swapped(s: Seq<usize>, i: int, j: int) -> Seq<usize> {
    s.update(i, s[j]).update(j, s[i])
}

/// The numbers below `n` after the first `m` steps of a shuffle: step `i` swaps place `i`
/// with the place that `draws[i]` picks from `i` on.
pub open spec fn shuffled(n: nat, draws: Seq<u64>, m: nat) -> Seq<usize>
    decreases m,
{
    if m == 0 {
        in_order(n)
    } else {
        let i = m - 1;
        swapped(
            shuffled(n, draws, i as nat),
            i,
            i + (draws[i] as usize) as int % (n - i),
        )
    }
}

/// `s` holds distinct numbers below `n`.
pub open spec fn distinct_below(s: Seq<usize>, n: int) -> bool {
    &&& forall|i: int| 0 <= i < s.len() ==> (#[trigger] s[i]) < n
    &&& s.no_duplicates()
}

proof fn lemma_swap_keeps_distinct(s: Seq<usize>, i: int, j: int)
    requires
        distinct_below(s, s.len() as int),
        0 <= i < s.len(),
        0 <= j < s.len(),
    ensures
        distinct_below(swapped(s, i, j), s.len() as int),
        swapped(s, i, j).len() == s.len(),
{
}

/// A shuffle keeps all numbers, each once.
pub proof fn law_shuffle_is_a_permutation(n: nat, draws: Seq<u64>, m: nat)
    requires
        m <= n <= usize::MAX,
        m <= draws.len(),
    ensures
        shuffled(n, draws, m).len() == n,
        distinct_below(shuffled(n, draws, m), n as int),
    decreases m,
{
    if m > 0 {
        let i = m - 1;
        law_shuffle_is_a_permutation(n, draws, i as nat);
        let d = (draws[i] as usize) as int;
        assert(0 <= d % (n - i) < n - i) by (nonlinear_arith)
            requires
                n - i > 0,
        ;
        lemma_swap_keeps_distinct(shuffled(n, draws, i as nat), i, i + d % (n - i));
    }
}

/// Each draw picks one of the positions that are left: the position that comes out at `i` is
/// the one that lay as far behind `i` as the draw tells, counted round those that were left,
/// and no later draw changes it. In particular the first is the first draw, modulo the number
/// of candidates.
pub proof fn law_draws_pick_the_positions(n: nat, draws: Seq<u64>, m: nat, i: int)
    requires
        0 <= i < m <= n <= usize::MAX,
        m <= draws.len(),
    ensures
        shuffled(n, draws, m)[i] == shuffled(n, draws, i as nat)[i + (draws[i] as usize) as int % (n
            - i)],
        i == 0 ==> shuffled(n, draws, m)[0] == (draws[0] as usize) as int % n as int,
    decreases m,
{
    law_shuffle_is_a_permutation(n, draws, m);
    law_shuffle_is_a_permutation(n, draws, (m - 1) as nat);
    law_shuffle_is_a_permutation(n, draws, i as nat);
    let k = m - 1;
    let d = (draws[k] as usize) as int;
    assert(0 <= d % (n - k) < n - k) by (nonlinear_arith)
        requires
            n - k > 0,
    ;
    if i < k {
        law_draws_pick_the_positions(n, draws, k as nat, i);
    }
}

/// Every sample can come out: whatever distinct positions are asked for, and in whatever
/// order, there are draws that pick them.
pub proof fn law_every_sample_can_come_out(n: nat, wanted: Seq<usize>) -> (draws: Seq<u64>)
    requires
        n <= usize::MAX,
        n <= u64::MAX,
        wanted.len() <= n,
        distinct_below(wanted, n as int),
    ensures
        draws.len() == wanted.len(),
        shuffled(n, draws, wanted.len()).take(wanted.len() as int) == wanted,
    decreases wanted.len(),
{
    if wanted.len() == 0 {
        let draws = Seq::<u64>::empty();
        assert(shuffled(n, draws, 0).take(0) =~= wanted);
        draws
    } else {
        let i = wanted.len() - 1;
        let fewer = wanted.drop_last();
        let earlier = law_every_sample_can_come_out(n, fewer);
        let state = shuffled(n, earlier, i as nat);
        law_shuffle_is_a_permutation(n, earlier, i as nat);
        lemma_all_numbers_there(state, n, wanted[i]);
        let j = choose|j: int| 0 <= j < n && state[j] == wanted[i];
        if j < i {
            assert(state.take(i)[j] == fewer[j]);
            assert(wanted[j] == wanted[i]);
            assert(false);
        }
        let offset = j - i;
        let draws = earlier.push(offset as u64);
        lemma_shuffle_ignores_the_rest(n, earlier, draws, i as nat);
        assert((draws[i] as usize) as int == offset);
        assert(offset % (n - i) == offset) by (nonlinear_arith)
            requires
                0 <= offset < n - i,
        ;
        let after = shuffled(n, draws, wanted.len());
        assert(after == swapped(state, i, j));
        assert forall|k: int| 0 <= k < wanted.len() implies after.take(wanted.len() as int)[k]
            == wanted[k] by {
            if k < i {
                assert(state.take(i)[k] == fewer[k]);
            }
        }
        assert(after.take(wanted.len() as int) =~= wanted);
        draws
    }
}

/// Draws that are not used yet do not matter.
proof fn lemma_shuffle_ignores_the_rest(n: nat, a: Seq<u64>, b: Seq<u64>, m: nat)
    requires
        m <= a.len(),
        m <= b.len(),
        forall|i: int| 0 <= i < m ==> a[i] == b[i],
    ensures
        shuffled(n, a, m) == shuffled(n, b, m),
    decreases m,
{
    if m > 0 {
        lemma_shuffle_ignores_the_rest(n, a, b, (m - 1) as nat);
    }
}

/// So many distinct numbers below `n` as `n` are all of them.
proof fn lemma_all_numbers_there(s: Seq<usize>, n: nat, x: usize)
    requires
        s.len() == n,
        distinct_below(s, n as int),
        x < n,
    ensures
        exists|j: int| 0 <= j < n && s[j] == x,
{
    let numbers = s.map_values(|v: usize| v as int);
    assert(numbers.no_duplicates());
    numbers.unique_seq_to_set();
    let all = vstd::set_lib::set_int_range(0, n as int);
    vstd::set_lib::lemma_int_range(0, n as int);
    assert(numbers.to_set().subset_of(all)) by {
        assert forall|v: int| numbers.to_set().contains(v) implies all.contains(v) by {
            let k = choose|k: int| 0 <= k < numbers.len() && numbers[k] == v;
            assert(s[k] < n);
        }
    }
    vstd::set_lib::lemma_subset_equality(numbers.to_set(), all);
    assert(numbers.to_set().contains(x as int));
    let k = choose|k: int| 0 <= k < numbers.len() && numbers[k] == x as int;
    assert(s[k] == x);
}

/// As many distinct numbers below `n` as there are draws, picked by the draws.
pub fn pick_distinct(n: usize, draws: &Vec<u64>) -> (r: Vec<usize>)
    requires
        draws@.len() <= n,
    ensures
        r@ == shuffled(n as nat, draws@, draws@.len()).take(draws@.len() as int),
        r@.len() == draws@.len(),
        distinct_below(r@, n as int),
{
    let mut idx: Vec<usize> = Vec::new();
    let mut i: usize = 0;
    while i < n
        invariant
            i <= n,
            idx@ =~= in_order(i as nat),
        decreases n - i,
    {
        idx.push(i);
        i = i + 1;
    }
    let k: usize = draws.len();
    i = 0;
    while i < k
        invariant
            i <= k <= n,
            k == draws@.len(),
            idx@ == shuffled(n as nat, draws@, i as nat),
        decreases k - i,
    {
        proof {
            law_shuffle_is_a_permutation(n as nat, draws@, i as nat);
        }
        let offset: usize = (draws[i] as usize) % (n - i);
        let j: usize = i + offset;
        let a: usize = idx[i];
        let b: usize = idx[j];
        idx.set(i, b);
        idx.set(j, a);
        assert(idx@ =~= swapped(shuffled(n as nat, draws@, i as nat), i as int, j as int));
        i = i + 1;
    }
    proof {
        law_shuffle_is_a_permutation(n as nat, draws@, k as nat);
    }
    idx.truncate(k);
    idx
}

/// `k` distinct numbers below `n`, picked by as many random numbers from `core`.
pub fn sample_distinct<C: Core>(n: usize, k: usize, core: &mut C) -> (r: Vec<usize>)
    requires
        k <= n,
    ensures
        exists|draws: Seq<u64>|
            {
                &&& draws.len() == k
                &&& crate::runtime::drew_all(*old(core), *final(core), draws)
                &&& r@ == (#[trigger] shuffled(n as nat, draws, k as nat)).take(k as int)
            },
        r@.len() == k,
        distinct_below(r@, n as int),
{
    let mut draws: Vec<u64> = Vec::new();
    let mut i: usize = 0;
    while i < k
        invariant
            i <= k,
            draws@.len() == i,
            crate::runtime::drew_all(*old(core), *core, draws@),
        decreases k - i,
    {
        let ghost before = draws@;
        let ghost mid = *core;
        let draw: u64 = core.next_u64();
        draws.push(draw);
        assert(draws@.drop_last() =~= before);
        assert(mid.drew(*core, draws@.last()));
        i = i + 1;
    }
    pick_distinct(n, &draws)
}

} // verus!
