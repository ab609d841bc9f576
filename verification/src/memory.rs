use vstd::prelude::*;

verus! {

/// Budget for the rendered pages of all open tabs together: 60 MiB.
pub const TOTAL_APP_RAM_BUDGET_BYTES: usize = 62914560;

/// How long a background tab keeps its current page before it may be
/// dropped entirely: three minutes.
pub const INACTIVE_COOLDOWN_SECS: u64 = 180;

/// What a memory purge does to one tab.
#[derive(Clone, Copy, PartialEq, Eq, Structural, Debug)]
pub enum TabPurge {
    /// The tab keeps what it holds.
    Keep,
    /// The tab keeps only the texture of the page it shows.
    RetainCurrentPage,
    /// The tab drops all its textures and thumbnails.
    Offload,
}

/// What a memory purge needs to know of a tab.
#[derive(Clone, Copy, Debug)]
pub struct TabMemory {
    /// The tab is the one on screen.
    pub is_active: bool,
    /// Bytes held by the tab's page textures.
    pub texture_bytes: usize,
    /// Bytes held by the texture of the page the tab shows.
    pub current_page_bytes: usize,
    /// When the tab was last used, on a clock that only goes forward.
    pub last_accessed: u64,
    /// Whole seconds since the tab was last used.
    pub idle_secs: u64,
}

/// The bytes held by all the tabs.
pub open spec fn total_bytes(tabs: Seq<TabMemory>) -> nat
    decreases tabs.len(),
{
    if tabs.len() == 0 {
        0
    } else {
        total_bytes(tabs.drop_last()) + tabs.last().texture_bytes as nat
    }
}

/// Tab `i` was used before tab `j`; of two used at the same moment, the
/// one further left counts as earlier.
pub open spec fn used_before(tabs: Seq<TabMemory>, i: int, j: int) -> bool {
    tabs[i].last_accessed < tabs[j].last_accessed || (tabs[i].last_accessed == tabs[j].last_accessed && i < j)
}

/// `order` holds the position `i`.
pub open spec fn lists(order: Seq<usize>, i: int) -> bool {
    exists|k: int| 0 <= k < order.len() && order[k] as int == i
}

/// `order` lists the background tabs, least recently used first.
pub open spec fn is_purge_order(tabs: Seq<TabMemory>, order: Seq<usize>) -> bool {
    &&& forall|k: int| 0 <= k < order.len() ==> #[trigger] order[k] < tabs.len() && !tabs[order[k] as int].is_active
    &&& forall|i: int| 0 <= i < tabs.len() && !tabs[i].is_active ==> #[trigger] lists(order, i)
    &&& forall|a: int, b: int| 0 <= a < b < order.len() ==> used_before(tabs, order[a] as int, order[b] as int)
}

/// The plan and the bytes left after walking the first `k` tabs of
/// `order` while the total stays over budget: a tab idle for less than the
/// cooldown keeps its current page, any other drops everything.
pub open spec fn purge_walk(tabs: Seq<TabMemory>, order: Seq<usize>, k: int) -> (Seq<TabPurge>, int)
    decreases k,
{
    if k <= 0 {
        (Seq::new(tabs.len(), |i: int| TabPurge::Keep), total_bytes(tabs) as int)
    } else {
        let (plan, total) = purge_walk(tabs, order, k - 1);
        if total <= TOTAL_APP_RAM_BUDGET_BYTES {
            (plan, total)
        } else {
            let i = order[k - 1] as int;
            if tabs[i].idle_secs < INACTIVE_COOLDOWN_SECS {
                (plan.update(i, TabPurge::RetainCurrentPage), total - tabs[i].texture_bytes + tabs[i].current_page_bytes)
            } else {
                (plan.update(i, TabPurge::Offload), total - tabs[i].texture_bytes)
            }
        }
    }
}

/// What a memory purge does to each tab. Over budget, the background tabs
/// are walked least recently used first until the total is back within
/// budget; within budget, only background tabs idle for the cooldown or
/// longer are dropped.
pub open spec fn purge_plan_spec(tabs: Seq<TabMemory>, order: Seq<usize>) -> Seq<TabPurge> {
    if total_bytes(tabs) > TOTAL_APP_RAM_BUDGET_BYTES {
        purge_walk(tabs, order, order.len() as int).0
    } else {
        Seq::new(
            tabs.len(),
            |i: int|
                if !tabs[i].is_active && tabs[i].idle_secs >= INACTIVE_COOLDOWN_SECS {
                    TabPurge::Offload
                } else {
                    TabPurge::Keep
                },
        )
    }
}

/// Two lists of the background tabs, least recently used first, are the
/// same list.
pub proof fn lemma_purge_order_unique(tabs: Seq<TabMemory>, o1: Seq<usize>, o2: Seq<usize>)
    requires
        is_purge_order(tabs, o1),
        is_purge_order(tabs, o2),
    ensures
        o1 == o2,
{
    assert forall|x: usize| o1.contains(x) <==> o2.contains(x) by {
        if o1.contains(x) {
            let k = choose|k: int| 0 <= k < o1.len() && o1[k] == x;
            assert(o1[k] < tabs.len() && !tabs[o1[k] as int].is_active);
            assert(lists(o2, x as int));
            let k2 = choose|k2: int| 0 <= k2 < o2.len() && o2[k2] as int == x as int;
            assert(o2[k2] == x);
        }
        if o2.contains(x) {
            let k = choose|k: int| 0 <= k < o2.len() && o2[k] == x;
            assert(o2[k] < tabs.len() && !tabs[o2[k] as int].is_active);
            assert(lists(o1, x as int));
            let k2 = choose|k2: int| 0 <= k2 < o1.len() && o1[k2] as int == x as int;
            assert(o1[k2] == x);
        }
    }
    lemma_sorted_unique(tabs, o1, o2);
}

proof fn lemma_sorted_unique(tabs: Seq<TabMemory>, o1: Seq<usize>, o2: Seq<usize>)
    requires
        forall|k: int| 0 <= k < o1.len() ==> #[trigger] o1[k] < tabs.len(),
        forall|k: int| 0 <= k < o2.len() ==> #[trigger] o2[k] < tabs.len(),
        forall|a: int, b: int| 0 <= a < b < o1.len() ==> used_before(tabs, o1[a] as int, o1[b] as int),
        forall|a: int, b: int| 0 <= a < b < o2.len() ==> used_before(tabs, o2[a] as int, o2[b] as int),
        forall|x: usize| o1.contains(x) <==> o2.contains(x),
    ensures
        o1 == o2,
    decreases o1.len(),
{
    if o1.len() == 0 {
        if o2.len() > 0 {
            assert(o2.contains(o2[0]));
        }
        assert(o1 =~= o2);
    } else {
        assert(o1.contains(o1[0]));
        assert(o2.len() > 0);
        assert(o2.contains(o2[0]));
        let a = o1[0];
        let b = o2[0];
        let ja = choose|j: int| 0 <= j < o2.len() && o2[j] == a;
        let jb = choose|j: int| 0 <= j < o1.len() && o1[j] == b;
        if a != b {
            assert(ja > 0 && jb > 0);
            assert(used_before(tabs, b as int, a as int));
            assert(used_before(tabs, a as int, b as int));
        }
        let r1 = o1.drop_first();
        let r2 = o2.drop_first();
        assert forall|x: usize| r1.contains(x) <==> r2.contains(x) by {
            if r1.contains(x) {
                let k = choose|k: int| 0 <= k < r1.len() && r1[k] == x;
                assert(o1[k + 1] == x);
                assert(used_before(tabs, o1[0] as int, o1[k + 1] as int));
                assert(o1.contains(x));
                let j = choose|j: int| 0 <= j < o2.len() && o2[j] == x;
                assert(j != 0);
                assert(r2[j - 1] == x);
            }
            if r2.contains(x) {
                let k = choose|k: int| 0 <= k < r2.len() && r2[k] == x;
                assert(o2[k + 1] == x);
                assert(used_before(tabs, o2[0] as int, o2[k + 1] as int));
                assert(o2.contains(x));
                let j = choose|j: int| 0 <= j < o1.len() && o1[j] == x;
                assert(j != 0);
                assert(r1[j - 1] == x);
            }
        }
        assert forall|a2: int, b2: int| 0 <= a2 < b2 < r1.len() implies used_before(tabs, r1[a2] as int, r1[b2] as int) by {
            assert(r1[a2] == o1[a2 + 1] && r1[b2] == o1[b2 + 1]);
        }
        assert forall|a2: int, b2: int| 0 <= a2 < b2 < r2.len() implies used_before(tabs, r2[a2] as int, r2[b2] as int) by {
            assert(r2[a2] == o2[a2 + 1] && r2[b2] == o2[b2 + 1]);
        }
        assert forall|k: int| 0 <= k < r1.len() implies #[trigger] r1[k] < tabs.len() by {
            assert(r1[k] == o1[k + 1]);
        }
        assert forall|k: int| 0 <= k < r2.len() implies #[trigger] r2[k] < tabs.len() by {
            assert(r2[k] == o2[k + 1]);
        }
        lemma_sorted_unique(tabs, r1, r2);
        assert(o1 =~= seq![a] + r1);
        assert(o2 =~= seq![b] + r2);
    }
}

/// The bytes a tab still holds once `p` is applied to it.
pub open spec fn held(t: TabMemory, p: TabPurge) -> nat {
    match p {
        TabPurge::Keep => t.texture_bytes as nat,
        TabPurge::RetainCurrentPage => t.current_page_bytes as nat,
        TabPurge::Offload => 0,
    }
}

/// The bytes the first `n` tabs hold under `plan`.
pub open spec fn held_total(tabs: Seq<TabMemory>, plan: Seq<TabPurge>, n: int) -> nat
    decreases n,
{
    if n <= 0 {
        0
    } else {
        held_total(tabs, plan, n - 1) + held(tabs[n - 1], plan[n - 1])
    }
}

proof fn lemma_held_keep(tabs: Seq<TabMemory>, n: int)
    requires
        0 <= n <= tabs.len(),
    ensures
        held_total(tabs, Seq::new(tabs.len(), |i: int| TabPurge::Keep), n) == total_bytes(tabs.take(n)),
    decreases n,
{
    if n > 0 {
        lemma_held_keep(tabs, n - 1);
        assert(tabs.take(n).drop_last() =~= tabs.take(n - 1));
    } else {
        assert(tabs.take(n) =~= Seq::<TabMemory>::empty());
    }
}

proof fn lemma_held_update(tabs: Seq<TabMemory>, plan: Seq<TabPurge>, i: int, p: TabPurge, n: int)
    requires
        0 <= i < n <= plan.len(),
    ensures
        held_total(tabs, plan.update(i, p), n) + held(tabs[i], plan[i]) == held_total(tabs, plan, n) + held(tabs[i], p),
    decreases n,
{
    if n - 1 > i {
        lemma_held_update(tabs, plan, i, p, n - 1);
    } else {
        assert forall|j: int| 0 <= j < i implies plan[j] == plan.update(i, p)[j] by {}
        lemma_held_prefix_same(tabs, plan, plan.update(i, p), i);
        assert(plan.update(i, p)[i] == p);
    }
}

proof fn lemma_held_prefix_same(tabs: Seq<TabMemory>, p1: Seq<TabPurge>, p2: Seq<TabPurge>, m: int)
    requires
        forall|j: int| 0 <= j < m ==> p1[j] == p2[j],
    ensures
        held_total(tabs, p1, m) == held_total(tabs, p2, m),
    decreases m,
{
    if m > 0 {
        lemma_held_prefix_same(tabs, p1, p2, m - 1);
    }
}

proof fn lemma_held_bounds(tabs: Seq<TabMemory>, plan: Seq<TabPurge>, i: int, n: int)
    requires
        0 <= i < n,
    ensures
        held(tabs[i], plan[i]) <= held_total(tabs, plan, n),
    decreases n,
{
    if n - 1 > i {
        lemma_held_bounds(tabs, plan, i, n - 1);
    }
}

/// Lists the background tabs, least recently used first.
pub fn purge_order(tabs: &Vec<TabMemory>) -> (r: Vec<usize>)
    ensures
        is_purge_order(tabs@, r@),
{
    let mut order: Vec<usize> = Vec::new();
    let mut i: usize = 0;
    while i < tabs.len()
        invariant
            i <= tabs@.len(),
            forall|k: int| 0 <= k < order@.len() ==> #[trigger] order@[k] < i && !tabs@[order@[k] as int].is_active,
            forall|j: int| 0 <= j < i && !tabs@[j].is_active ==> #[trigger] lists(order@, j),
            forall|a: int, b: int| 0 <= a < b < order@.len() ==> used_before(tabs@, order@[a] as int, order@[b] as int),
        decreases tabs@.len() - i,
    {
        if !tabs[i].is_active {
            let stamp = tabs[i].last_accessed;
            let mut p: usize = 0;
            while p < order.len() && tabs[order[p]].last_accessed <= stamp
                invariant
                    i < tabs@.len(),
                    stamp == tabs@[i as int].last_accessed,
                    p <= order@.len(),
                    forall|k: int| 0 <= k < order@.len() ==> #[trigger] order@[k] < i && !tabs@[order@[k] as int].is_active,
                    forall|q: int| 0 <= q < p ==> tabs@[order@[q] as int].last_accessed <= stamp,
                decreases order@.len() - p,
            {
                p = p + 1;
            }
            let ghost old_order = order@;
            order.insert(p, i);
            proof {
                assert(order@ == old_order.insert(p as int, i));
                assert forall|k: int| 0 <= k < order@.len() implies #[trigger] order@[k] < i + 1 && !tabs@[order@[k] as int].is_active by {
                    if k < p {
                        assert(order@[k] == old_order[k]);
                    } else if k > p {
                        assert(order@[k] == old_order[k - 1]);
                    }
                }
                assert forall|j: int| 0 <= j < i + 1 && !tabs@[j].is_active implies #[trigger] lists(order@, j) by {
                    if j == i {
                        assert(order@[p as int] == i);
                    } else {
                        assert(lists(old_order, j));
                        let k = choose|k: int| 0 <= k < old_order.len() && old_order[k] as int == j;
                        if k < p {
                            assert(order@[k] == old_order[k]);
                        } else {
                            assert(order@[k + 1] == old_order[k]);
                        }
                    }
                }
                assert forall|a: int, b: int| 0 <= a < b < order@.len() implies used_before(tabs@, order@[a] as int, order@[b] as int) by {
                    if b < p {
                        assert(order@[a] == old_order[a] && order@[b] == old_order[b]);
                    } else if b == p {
                        assert(order@[a] == old_order[a]);
                        assert(tabs@[old_order[a] as int].last_accessed <= stamp);
                        assert(old_order[a] < i);
                    } else if a < p {
                        assert(order@[a] == old_order[a] && order@[b] == old_order[b - 1]);
                    } else if a == p {
                        assert(order@[b] == old_order[b - 1]);
                        assert(tabs@[old_order[p as int] as int].last_accessed > stamp);
                        if b - 1 > p {
                            assert(used_before(tabs@, old_order[p as int] as int, old_order[b - 1] as int));
                        }
                    } else {
                        assert(order@[a] == old_order[a - 1] && order@[b] == old_order[b - 1]);
                    }
                }
            }
        }
        i = i + 1;
    }
    order
}

/// Decides what a memory purge does to each open tab: over the 60 MiB
/// budget, background tabs are walked least recently used first, each
/// idle for less than three minutes keeping only its current page and
/// any other dropping everything, until the total is back within budget;
/// within budget, only background tabs idle for three minutes or more are
/// dropped.
pub fn plan_memory_purge(tabs: &Vec<TabMemory>) -> (r: Vec<TabPurge>)
    requires
        total_bytes(tabs@) <= usize::MAX,
        forall|i: int| 0 <= i < tabs@.len() ==> #[trigger] tabs@[i].current_page_bytes <= tabs@[i].texture_bytes,
    ensures
        forall|o: Seq<usize>| is_purge_order(tabs@, o) ==> r@ == purge_plan_spec(tabs@, o),
{
    let mut total: usize = 0;
    let mut i: usize = 0;
    assert(tabs@.take(0) =~= Seq::<TabMemory>::empty());
    while i < tabs.len()
        invariant
            i <= tabs@.len(),
            total_bytes(tabs@) <= usize::MAX,
            total == total_bytes(tabs@.take(i as int)),
        decreases tabs@.len() - i,
    {
        proof {
            assert(tabs@.take(i + 1).drop_last() =~= tabs@.take(i as int));
            lemma_total_prefix(tabs@, i + 1);
        }
        total = total + tabs[i].texture_bytes;
        i = i + 1;
    }
    assert(tabs@.take(i as int) =~= tabs@);
    if total > TOTAL_APP_RAM_BUDGET_BYTES {
        let order = purge_order(tabs);
        let mut plan: Vec<TabPurge> = Vec::new();
        let mut j: usize = 0;
        while j < tabs.len()
            invariant
                j <= tabs@.len(),
                plan@ == Seq::new(j as nat, |q: int| TabPurge::Keep),
            decreases tabs@.len() - j,
        {
            plan.push(TabPurge::Keep);
            j = j + 1;
            assert(plan@ =~= Seq::new(j as nat, |q: int| TabPurge::Keep));
        }
        let ghost keep = plan@;
        proof {
            lemma_held_keep(tabs@, tabs@.len() as int);
            assert(tabs@.take(tabs@.len() as int) =~= tabs@);
            assert(keep =~= Seq::new(tabs@.len(), |q: int| TabPurge::Keep));
        }
        let mut current: usize = total;
        let mut k: usize = 0;
        while k < order.len()
            invariant
                is_purge_order(tabs@, order@),
                forall|q: int| 0 <= q < tabs@.len() ==> #[trigger] tabs@[q].current_page_bytes <= tabs@[q].texture_bytes,
                k <= order@.len(),
                plan@.len() == tabs@.len(),
                purge_walk(tabs@, order@, k as int) == (plan@, current as int),
                current == held_total(tabs@, plan@, tabs@.len() as int),
                forall|q: int| k <= q < order@.len() ==> plan@[#[trigger] order@[q] as int] == TabPurge::Keep,
            decreases order@.len() - k,
        {
            let t = order[k];
            assert(t < tabs@.len());
            if current > TOTAL_APP_RAM_BUDGET_BYTES {
                let ghost before = plan@;
                proof {
                    lemma_held_bounds(tabs@, plan@, t as int, tabs@.len() as int);
                }
                let tab = tabs[t];
                if tab.idle_secs < INACTIVE_COOLDOWN_SECS {
                    plan.set(t, TabPurge::RetainCurrentPage);
                    proof {
                        lemma_held_update(tabs@, before, t as int, TabPurge::RetainCurrentPage, tabs@.len() as int);
                    }
                    current = current - tab.texture_bytes + tab.current_page_bytes;
                } else {
                    plan.set(t, TabPurge::Offload);
                    proof {
                        lemma_held_update(tabs@, before, t as int, TabPurge::Offload, tabs@.len() as int);
                    }
                    current = current - tab.texture_bytes;
                }
                proof {
                    assert forall|q: int| k + 1 <= q < order@.len() implies plan@[#[trigger] order@[q] as int] == TabPurge::Keep by {
                        assert(used_before(tabs@, order@[k as int] as int, order@[q] as int));
                        assert(order@[q] != t);
                    }
                }
            }
            k = k + 1;
        }
        proof {
            assert forall|o: Seq<usize>| is_purge_order(tabs@, o) implies plan@ == purge_plan_spec(tabs@, o) by {
                lemma_purge_order_unique(tabs@, o, order@);
            }
        }
        plan
    } else {
        let mut plan: Vec<TabPurge> = Vec::new();
        let mut j: usize = 0;
        while j < tabs.len()
            invariant
                j <= tabs@.len(),
                plan@.len() == j,
                forall|q: int| 0 <= q < j ==> #[trigger] plan@[q] == (if !tabs@[q].is_active && tabs@[q].idle_secs >= INACTIVE_COOLDOWN_SECS {
                    TabPurge::Offload
                } else {
                    TabPurge::Keep
                }),
            decreases tabs@.len() - j,
        {
            if !tabs[j].is_active && tabs[j].idle_secs >= INACTIVE_COOLDOWN_SECS {
                plan.push(TabPurge::Offload);
            } else {
                plan.push(TabPurge::Keep);
            }
            j = j + 1;
        }
        proof {
            assert forall|o: Seq<usize>| is_purge_order(tabs@, o) implies plan@ == purge_plan_spec(tabs@, o) by {
                assert(plan@ =~= purge_plan_spec(tabs@, o));
            }
        }
        plan
    }
}

proof fn lemma_total_prefix(tabs: Seq<TabMemory>, k: int)
    requires
        0 <= k <= tabs.len(),
    ensures
        total_bytes(tabs.take(k)) <= total_bytes(tabs),
    decreases tabs.len() - k,
{
    if k < tabs.len() {
        lemma_total_prefix(tabs, k + 1);
        assert(tabs.take(k + 1).drop_last() =~= tabs.take(k));
    } else {
        assert(tabs.take(k) =~= tabs);
    }
}

proof fn lemma_walk(tabs: Seq<TabMemory>, order: Seq<usize>, k: int)
    requires
        is_purge_order(tabs, order),
        0 <= k <= order.len(),
    ensures
        purge_walk(tabs, order, k).0.len() == tabs.len(),
        forall|i: int| 0 <= i < tabs.len() && tabs[i].is_active ==> purge_walk(tabs, order, k).0[i] == TabPurge::Keep,
        purge_walk(tabs, order, k).1 > TOTAL_APP_RAM_BUDGET_BYTES ==> forall|j: int|
            0 <= j < k ==> purge_walk(tabs, order, k).0[#[trigger] order[j] as int] != TabPurge::Keep,
    decreases k,
{
    if k > 0 {
        lemma_walk(tabs, order, k - 1);
        assert(order[k - 1] < tabs.len());
    }
}

/// A memory purge never touches the tab on screen.
pub proof fn purge_spares_active_tab(tabs: Seq<TabMemory>, order: Seq<usize>, i: int)
    requires
        is_purge_order(tabs, order),
        0 <= i < tabs.len(),
        tabs[i].is_active,
    ensures
        purge_plan_spec(tabs, order).len() == tabs.len(),
        purge_plan_spec(tabs, order)[i] == TabPurge::Keep,
{
    lemma_walk(tabs, order, order.len() as int);
}

/// Over budget, a memory purge either brings the total back within budget
/// or has trimmed every background tab.
pub proof fn purge_reaches_budget_or_trims_all(tabs: Seq<TabMemory>, order: Seq<usize>, i: int)
    requires
        is_purge_order(tabs, order),
        total_bytes(tabs) > TOTAL_APP_RAM_BUDGET_BYTES,
        0 <= i < tabs.len(),
        !tabs[i].is_active,
    ensures
        purge_walk(tabs, order, order.len() as int).1 <= TOTAL_APP_RAM_BUDGET_BYTES
            || purge_plan_spec(tabs, order)[i] != TabPurge::Keep,
{
    lemma_walk(tabs, order, order.len() as int);
    assert(lists(order, i));
    let j = choose|j: int| 0 <= j < order.len() && order[j] as int == i;
    assert(order[j] as int == i);
}

} // verus!
