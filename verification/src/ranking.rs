//! Choosing the first `k` entries of a list under a two-part descending key,
//! ties kept in list order: what a stable descending sort followed by a
//! truncation to `k` returns.
use vstd::prelude::*;

verus! {

/// Entry `i` comes before entry `j`: a larger first key, then a larger
/// second key, then the earlier position.
pub open spec fn key_before(keys: Seq<(i64, i64)>, i: int, j: int) -> bool {
    keys[i].0 > keys[j].0 || (keys[i].0 == keys[j].0 && (keys[i].1 > keys[j].1 || (keys[i].1
        == keys[j].1 && i < j)))
}

/// `picked` lists, in order, the first `k` eligible entries under
/// `key_before` (all of them when there are fewer than `k`).
pub open spec fn is_top(keys: Seq<(i64, i64)>, eligible: Seq<bool>, k: int, picked: Seq<usize>) -> bool {
    &&& picked.len() <= k
    &&& forall|a: int|
        0 <= a < picked.len() ==> (#[trigger] picked[a]) < keys.len() && eligible[picked[a] as int]
    &&& forall|a: int, b: int|
        0 <= a < b < picked.len() ==> key_before(keys, #[trigger] picked[a] as int, #[trigger] picked[b] as int)
    &&& forall|x: int|
        0 <= x < keys.len() && #[trigger] eligible[x] && !picked.contains(x as usize) ==> {
            &&& picked.len() == k
            &&& forall|a: int| 0 <= a < picked.len() ==> key_before(keys, #[trigger] picked[a] as int, x)
        }
}

/// With room for every entry, every eligible entry is chosen.
pub proof fn lemma_top_takes_all_eligible(keys: Seq<(i64, i64)>, eligible: Seq<bool>, k: int, picked: Seq<usize>)
    requires
        is_top(keys, eligible, k, picked),
        k >= keys.len(),
    ensures
        forall|x: int| 0 <= x < keys.len() && eligible[x] ==> #[trigger] picked.contains(x as usize),
{
    assert forall|x: int| 0 <= x < keys.len() && eligible[x] implies #[trigger] picked.contains(x as usize) by {
        if !picked.contains(x as usize) {
            let n = keys.len() as int;
            let ps = picked.map_values(|v: usize| v as int);
            assert(ps.no_duplicates()) by {
                assert forall|a: int, b: int| 0 <= a < ps.len() && 0 <= b < ps.len() && a != b implies ps[a] != ps[b] by {
                    if a < b {
                        assert(key_before(keys, picked[a] as int, picked[b] as int));
                    } else {
                        assert(key_before(keys, picked[b] as int, picked[a] as int));
                    }
                }
            }
            ps.unique_seq_to_set();
            let range = vstd::set_lib::set_int_range(0, n).remove(x);
            vstd::set_lib::lemma_int_range(0, n);
            assert(ps.to_set().subset_of(range)) by {
                assert forall|v: int| ps.to_set().contains(v) implies range.contains(v) by {
                    let a = choose|a: int| 0 <= a < ps.len() && ps[a] == v;
                    assert(picked[a] < keys.len());
                    if v == x {
                        assert(picked[a] == x as usize);
                        assert(picked.contains(x as usize));
                    }
                }
            }
            vstd::set_lib::lemma_len_subset(ps.to_set(), range);
        }
    }
}

fn before_exec(keys: &Vec<(i64, i64)>, i: usize, j: usize) -> (r: bool)
    requires
        i < keys@.len(),
        j < keys@.len(),
    ensures
        r == key_before(keys@, i as int, j as int),
{
    let (a0, a1) = keys[i];
    let (b0, b1) = keys[j];
    a0 > b0 || (a0 == b0 && (a1 > b1 || (a1 == b1 && i < j)))
}

/// The positions of the first `k` eligible entries in key order.
pub fn select_top(keys: &Vec<(i64, i64)>, eligible: &Vec<bool>, k: usize) -> (picked: Vec<usize>)
    requires
        eligible@.len() == keys@.len(),
    ensures
        is_top(keys@, eligible@, k as int, picked@),
{
    let n = keys.len();
    let mut taken: Vec<bool> = Vec::new();
    let mut t: usize = 0;
    while t < n
        invariant
            t <= n,
            n == keys@.len(),
            taken@.len() == t,
            forall|x: int| 0 <= x < t ==> !(#[trigger] taken@[x]),
        decreases n - t,
    {
        taken.push(false);
        t += 1;
    }
    let mut picked: Vec<usize> = Vec::new();
    while picked.len() < k
        invariant
            n == keys@.len(),
            n == eligible@.len(),
            taken@.len() == n,
            picked@.len() <= k,
            forall|x: int| 0 <= x < n ==> (#[trigger] taken@[x] <==> picked@.contains(x as usize)),
            forall|a: int|
                0 <= a < picked@.len() ==> (#[trigger] picked@[a]) < n && eligible@[picked@[a] as int],
            forall|a: int, b: int|
                0 <= a < b < picked@.len() ==> key_before(
                    keys@,
                    #[trigger] picked@[a] as int,
                    #[trigger] picked@[b] as int,
                ),
            forall|x: int|
                0 <= x < n && eligible@[x] && !(#[trigger] taken@[x]) ==> forall|a: int|
                    0 <= a < picked@.len() ==> key_before(keys@, #[trigger] picked@[a] as int, x),
        decreases k - picked@.len(),
    {
        let mut best: usize = n;
        let mut i: usize = 0;
        while i < n
            invariant
                n == keys@.len(),
                n == eligible@.len(),
                taken@.len() == n,
                i <= n,
                best == n || (best < i && eligible@[best as int] && !taken@[best as int]),
                best == n ==> forall|x: int| 0 <= x < i ==> !(#[trigger] eligible@[x]) || taken@[x],
                best < n ==> forall|x: int|
                    0 <= x < i && #[trigger] eligible@[x] && !taken@[x] && x != best ==> key_before(
                        keys@,
                        best as int,
                        x,
                    ),
            decreases n - i,
        {
            if eligible[i] && !taken[i] {
                if best == n || before_exec(keys, i, best) {
                    best = i;
                }
            }
            i += 1;
        }
        if best == n {
            assert forall|x: int|
                0 <= x < n && #[trigger] eligible@[x] && !picked@.contains(x as usize) implies {
                &&& picked@.len() == k
                &&& forall|a: int| 0 <= a < picked@.len() ==> key_before(keys@, #[trigger] picked@[a] as int, x)
            } by {
                assert(taken@[x]);
            }
            return picked;
        }
        let ghost old_picked = picked@;
        taken.set(best, true);
        picked.push(best);
        assert forall|x: int| 0 <= x < n implies (#[trigger] taken@[x] <==> picked@.contains(x as usize)) by {
            if x == best {
                assert(picked@[old_picked.len() as int] == best);
            } else {
                if picked@.contains(x as usize) {
                    let a = choose|a: int| 0 <= a < picked@.len() && picked@[a] == x as usize;
                    assert(a < old_picked.len());
                    assert(old_picked.contains(x as usize));
                }
                if old_picked.contains(x as usize) {
                    let a = choose|a: int| 0 <= a < old_picked.len() && old_picked[a] == x as usize;
                    assert(picked@[a] == x as usize);
                }
            }
        }
        assert forall|a: int, b: int| 0 <= a < b < picked@.len() implies key_before(
            keys@,
            #[trigger] picked@[a] as int,
            #[trigger] picked@[b] as int,
        ) by {
            if b == old_picked.len() {
                assert(picked@[a] == old_picked[a]);
            } else {
                assert(picked@[a] == old_picked[a] && picked@[b] == old_picked[b]);
            }
        }
        assert forall|x: int|
            0 <= x < n && eligible@[x] && !(#[trigger] taken@[x]) implies forall|a: int|
                0 <= a < picked@.len() ==> key_before(keys@, #[trigger] picked@[a] as int, x) by {
            assert forall|a: int| 0 <= a < picked@.len() implies key_before(
                keys@,
                #[trigger] picked@[a] as int,
                x,
            ) by {
                if a < old_picked.len() {
                    assert(picked@[a] == old_picked[a]);
                } else {
                    assert(picked@[a] == best);
                }
            }
        }
    }
    assert forall|x: int|
        0 <= x < n && #[trigger] eligible@[x] && !picked@.contains(x as usize) implies {
        &&& picked@.len() == k
        &&& forall|a: int| 0 <= a < picked@.len() ==> key_before(keys@, #[trigger] picked@[a] as int, x)
    } by {
        assert(!taken@[x]);
    }
    picked
}

} // verus!
