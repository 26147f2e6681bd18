//! The order in which systems run: each system names the systems it has to
//! run after, and the scheduler finds an order that honours every such
//! dependency, or reports that there is none.

use vstd::prelude::*;

verus! {

/// Why a set of declarations yields no schedule.
#[derive(Clone, Copy, Debug, PartialEq, Eq)]
pub enum ConfigError {
    /// A system depends on a system that was not declared.
    UnknownDependency,
    /// The dependencies form a cycle.
    Cycle,
}

/// The declarations as sequences: entry `i` lists the systems that system
/// `i` runs after.
pub open spec fn declared(deps: &Vec<Vec<usize>>) -> Seq<Seq<usize>> {
    Seq::new(deps@.len(), |i: int| deps@[i]@)
}

/// Whether every dependency names a declared system.
pub open spec fn well_declared(deps: Seq<Seq<usize>>) -> bool {
    forall|i: int, j: int|
        0 <= i < deps.len() && 0 <= j < deps[i].len() ==> (#[trigger] deps[i][j]) < deps.len()
}

/// Whether `order` runs every declared system exactly once, each after all
/// the systems it depends on.
pub open spec fn respects(deps: Seq<Seq<usize>>, order: Seq<usize>) -> bool {
    &&& order.len() == deps.len()
    &&& order.no_duplicates()
    &&& forall|k: int| 0 <= k < order.len() ==> (#[trigger] order[k]) < deps.len()
    &&& forall|k: int, j: int|
        0 <= k < order.len() && 0 <= j < deps[order[k] as int].len() ==> runs_before(
            order,
            k,
            #[trigger] deps[order[k] as int][j],
        )
}

/// Whether `system` runs at some position before `k` in `order`.
pub open spec fn runs_before(order: Seq<usize>, k: int, system: usize) -> bool {
    exists|m: int| 0 <= m < k && m < order.len() && #[trigger] order[m] == system
}

/// Whether system `s` waits, at position `k` of `order`, for a system that
/// has not run by then.
pub open spec fn waits(deps: Seq<Seq<usize>>, order: Seq<usize>, k: int, s: int) -> bool {
    exists|j: int| 0 <= j < deps[s].len() && !runs_before(order, k, #[trigger] deps[s][j])
}

/// Whether `order` never lets a system wait that could run: at every
/// position runs the first declared system that has not run yet and waits
/// for nothing. Together with [`respects`] this fixes the order.
pub open spec fn eager(deps: Seq<Seq<usize>>, order: Seq<usize>) -> bool {
    forall|k: int, s: int|
        0 <= k < order.len() && 0 <= s < #[trigger] order[k] ==> #[trigger] runs_before(
            order,
            k,
            s as usize,
        ) || waits(deps, order, k, s)
}

/// Whether system `i` waits for a system that has not been placed.
pub open spec fn blocked(deps: Seq<Seq<usize>>, placed: Seq<bool>, i: int) -> bool {
    exists|j: int| 0 <= j < deps[i].len() && !placed[#[trigger] deps[i][j] as int]
}

proof fn lemma_stuck(deps: Seq<Seq<usize>>, placed: Seq<bool>, order: Seq<usize>, k: int)
    requires
        respects(deps, order),
        placed.len() == deps.len(),
        forall|i: int| 0 <= i < deps.len() ==> placed[i] || blocked(deps, placed, i),
        0 <= k <= order.len(),
    ensures
        forall|m: int| 0 <= m < k ==> placed[#[trigger] order[m] as int],
    decreases k,
{
    if k > 0 {
        lemma_stuck(deps, placed, order, k - 1);
        let u = order[k - 1];
        if !placed[u as int] {
            let j = choose|j: int|
                0 <= j < deps[u as int].len() && !placed[#[trigger] deps[u as int][j] as int];
            assert(runs_before(order, k - 1, deps[order[k - 1] as int][j]));
            let m = choose|m: int|
                0 <= m < k - 1 && m < order.len() && #[trigger] order[m] == deps[u as int][j];
            assert(placed[order[m] as int]);
        }
    }
}

proof fn lemma_no_order(
    deps: Seq<Seq<usize>>,
    placed: Seq<bool>,
    done: Seq<usize>,
    order: Seq<usize>,
)
    requires
        placed.len() == deps.len(),
        done.len() < deps.len(),
        done.no_duplicates(),
        forall|i: int| 0 <= i < deps.len() ==> (placed[i] <==> done.contains(i as usize)),
        forall|i: int| 0 <= i < deps.len() ==> placed[i] || blocked(deps, placed, i),
    ensures
        !respects(deps, order),
{
    if respects(deps, order) {
        lemma_stuck(deps, placed, order, order.len() as int);
        assert forall|x: usize| order.to_set().contains(x) implies done.to_set().contains(x) by {
            let m = choose|m: int| 0 <= m < order.len() && order[m] == x;
            assert(placed[order[m] as int]);
        }
        order.unique_seq_to_set();
        done.unique_seq_to_set();
        vstd::seq_lib::seq_to_set_is_finite(done);
        vstd::set_lib::lemma_len_subset(order.to_set(), done.to_set());
    }
}

/// Whether every system that system `i` waits for has been placed.
fn is_free(deps: &Vec<Vec<usize>>, placed: &Vec<bool>, i: usize) -> (r: bool)
    requires
        i < deps@.len(),
        placed@.len() == deps@.len(),
        well_declared(declared(deps)),
    ensures
        r == !blocked(declared(deps), placed@, i as int),
{
    let row = &deps[i];
    let mut j: usize = 0;
    while j < row.len()
        invariant
            j <= row@.len(),
            i < deps@.len(),
            row@ == declared(deps)[i as int],
            placed@.len() == deps@.len(),
            well_declared(declared(deps)),
            forall|k: int| 0 <= k < j ==> placed@[#[trigger] row@[k] as int],
        decreases row.len() - j,
    {
        assert(declared(deps)[i as int][j as int] < deps@.len());
        if !placed[row[j]] {
            return false;
        }
        j += 1;
    }
    true
}

/// Whether every dependency names a declared system.
fn check_declared(deps: &Vec<Vec<usize>>) -> (r: bool)
    ensures
        r == well_declared(declared(deps)),
{
    let n = deps.len();
    let mut i: usize = 0;
    while i < n
        invariant
            n == deps@.len(),
            i <= n,
            forall|a: int, b: int|
                0 <= a < i && 0 <= b < declared(deps)[a].len() ==> (#[trigger] declared(
                    deps,
                )[a][b]) < n,
        decreases n - i,
    {
        let row = &deps[i];
        let mut j: usize = 0;
        while j < row.len()
            invariant
                j <= row@.len(),
                i < n,
                n == deps@.len(),
                row@ == declared(deps)[i as int],
                forall|b: int| 0 <= b < j ==> (#[trigger] row@[b]) < n,
            decreases row.len() - j,
        {
            if row[j] >= n {
                assert(!(declared(deps)[i as int][j as int] < n));
                return false;
            }
            j += 1;
        }
        i += 1;
    }
    true
}

/// Orders the declared systems. Succeeds exactly when an order exists that
/// honours every dependency, and then returns the one in which every system
/// runs as early as its dependencies and its place in the declarations
/// allow.
pub fn plan(deps: &Vec<Vec<usize>>) -> (r: Result<Vec<usize>, ConfigError>)
    ensures
        match r {
            Ok(order) => respects(declared(deps), order@) && eager(declared(deps), order@),
            Err(ConfigError::UnknownDependency) => !well_declared(declared(deps)),
            Err(ConfigError::Cycle) => well_declared(declared(deps)) && forall|o: Seq<usize>|
                !respects(declared(deps), o),
        },
{
    if !check_declared(deps) {
        return Err(ConfigError::UnknownDependency);
    }
    let n = deps.len();
    let mut placed: Vec<bool> = Vec::new();
    let mut i: usize = 0;
    while i < n
        invariant
            i <= n,
            placed@.len() == i,
            forall|k: int| 0 <= k < i ==> !placed@[k],
        decreases n - i,
    {
        placed.push(false);
        i += 1;
    }
    let mut order: Vec<usize> = Vec::new();
    let mut round: usize = 0;
    while round < n
        invariant
            n == deps@.len(),
            round <= n,
            well_declared(declared(deps)),
            placed@.len() == n,
            order@.len() == round,
            order@.no_duplicates(),
            forall|k: int| 0 <= k < order@.len() ==> (#[trigger] order@[k]) < n,
            forall|s: int| 0 <= s < n ==> (placed@[s] <==> order@.contains(s as usize)),
            forall|k: int, j: int|
                0 <= k < order@.len() && 0 <= j < declared(deps)[order@[k] as int].len()
                    ==> runs_before(order@, k, #[trigger] declared(deps)[order@[k] as int][j]),
            eager(declared(deps), order@),
        decreases n - round,
    {
        let mut pick: Option<usize> = None;
        let mut c: usize = 0;
        while c < n && pick.is_none()
            invariant
                n == deps@.len(),
                c <= n,
                placed@.len() == n,
                well_declared(declared(deps)),
                forall|s: int| 0 <= s < c && pick is None ==> placed@[s] || blocked(
                    declared(deps),
                    placed@,
                    s,
                ),
                pick matches Some(p) ==> p == c && p < n && !placed@[p as int] && !blocked(
                    declared(deps),
                    placed@,
                    p as int,
                ),
                pick is Some ==> forall|s: int|
                    0 <= s < c ==> placed@[s] || blocked(declared(deps), placed@, s),
            decreases n - c + if pick is None { 1int } else { 0int },
        {
            if !placed[c] && is_free(deps, &placed, c) {
                pick = Some(c);
            } else {
                c += 1;
            }
        }
        match pick {
            None => {
                proof {
                    assert forall|o: Seq<usize>| !respects(declared(deps), o) by {
                        lemma_no_order(declared(deps), placed@, order@, o);
                    }
                }
                return Err(ConfigError::Cycle);
            },
            Some(p) => {
                let ghost before = order@;
                let ghost marks = placed@;
                placed.set(p, true);
                order.push(p);
                proof {
                    assert(!before.contains(p));
                    assert forall|s: int| 0 <= s < n implies (placed@[s] <==> order@.contains(
                        s as usize,
                    )) by {
                        if before.contains(s as usize) {
                            let m = choose|m: int| 0 <= m < before.len() && before[m] == s as usize;
                            assert(order@[m] == s as usize);
                        }
                        if order@.contains(s as usize) {
                            let m = choose|m: int| 0 <= m < order@.len() && order@[m] == s as usize;
                            if m < before.len() {
                                assert(before[m] == s as usize);
                            }
                        }
                        if s == p {
                            assert(order@[before.len() as int] == p);
                        }
                    }
                    assert forall|k: int, j: int|
                        0 <= k < order@.len() && 0 <= j < declared(
                            deps,
                        )[order@[k] as int].len() implies runs_before(
                        order@,
                        k,
                        #[trigger] declared(deps)[order@[k] as int][j],
                    ) by {
                        let d = declared(deps)[order@[k] as int][j];
                        if k < before.len() {
                            assert(order@[k] == before[k]);
                            assert(runs_before(before, k, d));
                            let m = choose|m: int|
                                0 <= m < k && m < before.len() && #[trigger] before[m] == d;
                            assert(order@[m] == d);
                        } else {
                            assert(!blocked(declared(deps), marks, p as int));
                            assert(marks[d as int]);
                            assert(before.contains(d));
                            let m = choose|m: int| 0 <= m < before.len() && before[m] == d;
                            assert(order@[m] == d);
                        }
                    }
                    assert forall|k: int, s: int|
                        0 <= k < order@.len() && 0 <= s < #[trigger] order@[k] implies #[trigger] runs_before(
                        order@,
                        k,
                        s as usize,
                    ) || waits(declared(deps), order@, k, s) by {
                        if k < before.len() {
                            assert(order@[k] == before[k]);
                            if runs_before(before, k, s as usize) {
                                let m = choose|m: int|
                                    0 <= m < k && m < before.len() && #[trigger] before[m]
                                        == s as usize;
                                assert(order@[m] == s as usize);
                            } else {
                                assert(waits(declared(deps), before, k, s));
                                let j = choose|j: int|
                                    0 <= j < declared(deps)[s].len() && !runs_before(
                                        before,
                                        k,
                                        #[trigger] declared(deps)[s][j],
                                    );
                                let d = declared(deps)[s][j];
                                if runs_before(order@, k, d) {
                                    let m = choose|m: int|
                                        0 <= m < k && m < order@.len() && #[trigger] order@[m] == d;
                                    assert(before[m] == d);
                                }
                            }
                        } else {
                            if marks[s] {
                                assert(before.contains(s as usize));
                                let m = choose|m: int|
                                    0 <= m < before.len() && before[m] == s as usize;
                                assert(order@[m] == s as usize);
                            } else {
                                assert(blocked(declared(deps), marks, s));
                                let j = choose|j: int|
                                    0 <= j < declared(deps)[s].len() && !marks[#[trigger] declared(
                                        deps,
                                    )[s][j] as int];
                                let d = declared(deps)[s][j];
                                if runs_before(order@, k, d) {
                                    let m = choose|m: int|
                                        0 <= m < k && m < order@.len() && #[trigger] order@[m] == d;
                                    assert(before[m] == d);
                                    assert(before.contains(d));
                                }
                            }
                        }
                    }
                }
            },
        }
        round += 1;
    }
    Ok(order)
}

} // verus!
