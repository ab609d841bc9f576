use vstd::prelude::*;

verus! {

/// The open tabs in strip order, each with its id, and which tab is active,
/// shown beside the active one, or being dragged.
#[derive(Debug)]
pub struct TabStrip<T> {
    tabs: Vec<(usize, T)>,
    next_tab_id: usize,
    active_tab_id: Option<usize>,
    split_secondary_tab_id: Option<usize>,
    dragged_tab_id: Option<usize>,
}

/// The ids of `tabs`, in order.
pub open spec fn ids_of<T>(tabs: Seq<(usize, T)>) -> Seq<usize> {
    tabs.map_values(|e: (usize, T)| e.0)
}

/// The tab after position `pos`, wrapping round at the end.
pub open spec fn next_index(pos: int, len: int) -> int {
    (pos + 1) % len
}

/// The tab before position `pos`, wrapping round at the start.
pub open spec fn prev_index(pos: int, len: int) -> int {
    (pos + len - 1) % len
}

/// Where the selection goes when the active tab at `pos` closes: the tab
/// that took its place, or the new last tab.
pub open spec fn reselect_index(pos: int, remaining: int) -> int {
    if pos < remaining { pos } else { remaining - 1 }
}

impl<T> TabStrip<T> {
    /// Tab ids are distinct and all below the next id to hand out.
    pub closed spec fn wf(&self) -> bool {
        &&& ids_of(self.tabs@).no_duplicates()
        &&& forall|i: int| 0 <= i < self.tabs@.len() ==> #[trigger] self.tabs@[i].0 < self.next_tab_id
    }

    /// The tabs with their ids, in strip order.
    pub closed spec fn tabs(&self) -> Seq<(usize, T)> {
        self.tabs@
    }

    /// The id the next opened tab gets.
    pub closed spec fn next_id(&self) -> usize {
        self.next_tab_id
    }

    pub closed spec fn active(&self) -> Option<usize> {
        self.active_tab_id
    }

    pub closed spec fn split(&self) -> Option<usize> {
        self.split_secondary_tab_id
    }

    pub closed spec fn dragged(&self) -> Option<usize> {
        self.dragged_tab_id
    }

    pub open spec fn ids(&self) -> Seq<usize> {
        ids_of(self.tabs())
    }

    /// In a well-formed strip no two tabs share an id, and every id is
    /// below the next one to be handed out.
    pub proof fn lemma_ids_distinct(&self)
        requires
            self.wf(),
        ensures
            self.ids().no_duplicates(),
            forall|i: int| 0 <= i < self.ids().len() ==> #[trigger] self.ids()[i] < self.next_id(),
    {
        assert forall|i: int| 0 <= i < self.ids().len() implies #[trigger] self.ids()[i] < self.next_id() by {
            assert(self.ids()[i] == self.tabs@[i].0);
        }
    }

    /// An empty strip; ids are handed out from 1.
    pub fn new() -> (r: Self)
        ensures
            r.wf(),
            r.tabs() == Seq::<(usize, T)>::empty(),
            r.next_id() == 1,
            r.active() == None::<usize>,
            r.split() == None::<usize>,
            r.dragged() == None::<usize>,
    {
        let r = TabStrip {
            tabs: Vec::new(),
            next_tab_id: 1,
            active_tab_id: None,
            split_secondary_tab_id: None,
            dragged_tab_id: None,
        };
        assert(ids_of(r.tabs@) =~= Seq::<usize>::empty());
        r
    }

    pub fn active_tab_id(&self) -> (r: Option<usize>)
        ensures
            r == self.active(),
    {
        self.active_tab_id
    }

    pub fn split_secondary_tab_id(&self) -> (r: Option<usize>)
        ensures
            r == self.split(),
    {
        self.split_secondary_tab_id
    }

    /// The id the next added tab will get.
    pub fn next_tab_id(&self) -> (r: usize)
        ensures
            r == self.next_id(),
    {
        self.next_tab_id
    }

    pub fn dragged_tab_id(&self) -> (r: Option<usize>)
        ensures
            r == self.dragged(),
    {
        self.dragged_tab_id
    }

    pub fn len(&self) -> (r: usize)
        ensures
            r == self.tabs().len(),
    {
        self.tabs.len()
    }

    pub fn is_empty(&self) -> (r: bool)
        ensures
            r == (self.tabs().len() == 0),
    {
        self.tabs.len() == 0
    }

    /// The tabs with their ids, in strip order.
    pub fn entries(&self) -> (r: &Vec<(usize, T)>)
        ensures
            r@ == self.tabs(),
    {
        &self.tabs
    }

    /// The tab at a position of the strip, to change in place.
    pub fn entry_mut(&mut self, pos: usize) -> (r: &mut T)
        requires
            pos < old(self).tabs().len(),
        ensures
            *r == old(self).tabs()[pos as int].1,
            final(self).tabs() == old(self).tabs().update(pos as int, (old(self).tabs()[pos as int].0, *final(r))),
            final(self).next_id() == old(self).next_id(),
            final(self).active() == old(self).active(),
            final(self).split() == old(self).split(),
            final(self).dragged() == old(self).dragged(),
            old(self).wf() ==> final(self).wf(),
    {
        proof {
            let t = self.tabs@;
            assert forall|x: T| #[trigger] ids_of(t.update(pos as int, (t[pos as int].0, x))) =~= ids_of(t) by {
            }
        }
        &mut self.tabs[pos].1
    }

    /// The position of the tab with id `id`, if it is open.
    pub fn position(&self, id: usize) -> (r: Option<usize>)
        requires
            self.wf(),
        ensures
            match r {
                Some(p) => p < self.tabs().len() && self.tabs()[p as int].0 == id,
                None => !self.ids().contains(id),
            },
    {
        let mut i: usize = 0;
        while i < self.tabs.len()
            invariant
                i <= self.tabs@.len(),
                forall|j: int| 0 <= j < i ==> self.tabs@[j].0 != id,
            decreases self.tabs@.len() - i,
        {
            if self.tabs[i].0 == id {
                return Some(i);
            }
            i = i + 1;
        }
        proof {
            if self.ids().contains(id) {
                let j = choose|j: int| 0 <= j < self.ids().len() && self.ids()[j] == id;
                assert(self.tabs@[j].0 == id);
            }
        }
        None
    }

    /// The tab with id `id`, if it is open.
    pub fn get(&self, id: usize) -> (r: Option<&T>)
        requires
            self.wf(),
        ensures
            match r {
                Some(t) => exists|p: int| 0 <= p < self.tabs().len() && self.tabs()[p] == (id, *t),
                None => !self.ids().contains(id),
            },
    {
        match self.position(id) {
            Some(p) => Some(&self.tabs[p].1),
            None => None,
        }
    }

    /// Adds a tab at the end of the strip under a fresh id, which it returns.
    pub fn add_tab(&mut self, tab: T) -> (id: usize)
        requires
            old(self).wf(),
            old(self).next_id() < usize::MAX,
        ensures
            final(self).wf(),
            id == old(self).next_id(),
            !old(self).ids().contains(id),
            final(self).tabs() == old(self).tabs().push((id, tab)),
            final(self).next_id() == id + 1,
            final(self).active() == old(self).active(),
            final(self).split() == old(self).split(),
            final(self).dragged() == old(self).dragged(),
    {
        let id = self.next_tab_id;
        self.next_tab_id = self.next_tab_id + 1;
        let ghost before = self.tabs@;
        self.tabs.push((id, tab));
        proof {
            assert(ids_of(self.tabs@) =~= ids_of(before).push(id));
            assert(!ids_of(before).contains(id)) by {
                if ids_of(before).contains(id) {
                    let j = choose|j: int| 0 <= j < ids_of(before).len() && ids_of(before)[j] == id;
                    assert(before[j].0 < id);
                }
            }
        }
        id
    }

    /// Adds a tab under a fresh id and makes it the active one.
    pub fn open_tab(&mut self, tab: T) -> (id: usize)
        requires
            old(self).wf(),
            old(self).next_id() < usize::MAX,
        ensures
            final(self).wf(),
            id == old(self).next_id(),
            !old(self).ids().contains(id),
            final(self).tabs() == old(self).tabs().push((id, tab)),
            final(self).next_id() == id + 1,
            final(self).active() == Some(id),
            final(self).split() == old(self).split(),
            final(self).dragged() == old(self).dragged(),
    {
        let id = self.add_tab(tab);
        self.active_tab_id = Some(id);
        id
    }

    /// Makes `id` the active tab (whether or not such a tab is open).
    pub fn select_tab(&mut self, id: usize)
        ensures
            old(self).wf() ==> final(self).wf(),
            final(self).tabs() == old(self).tabs(),
            final(self).next_id() == old(self).next_id(),
            final(self).active() == Some(id),
            final(self).split() == old(self).split(),
            final(self).dragged() == old(self).dragged(),
    {
        self.active_tab_id = Some(id);
    }

    /// Clears the active tab.
    pub fn clear_active(&mut self)
        ensures
            old(self).wf() ==> final(self).wf(),
            final(self).tabs() == old(self).tabs(),
            final(self).next_id() == old(self).next_id(),
            final(self).active() == None::<usize>,
            final(self).split() == old(self).split(),
            final(self).dragged() == old(self).dragged(),
    {
        self.active_tab_id = None;
    }

    /// After restoring a session: the tab whose id was saved as active, or
    /// else the first tab, or none when no tab is open.
    pub fn restore_active(&mut self, saved: usize)
        requires
            old(self).wf(),
        ensures
            final(self).wf(),
            final(self).tabs() == old(self).tabs(),
            final(self).next_id() == old(self).next_id(),
            final(self).split() == old(self).split(),
            final(self).dragged() == old(self).dragged(),
            final(self).active() == (if old(self).ids().contains(saved) {
                Some(saved)
            } else if old(self).tabs().len() > 0 {
                Some(old(self).tabs()[0].0)
            } else {
                None
            }),
    {
        match self.position(saved) {
            Some(_) => {
                self.active_tab_id = Some(saved);
                proof {
                    let p = choose|p: int| 0 <= p < self.tabs@.len() && self.tabs@[p].0 == saved;
                    assert(self.ids()[p] == saved);
                }
            },
            None => {
                if self.tabs.len() > 0 {
                    self.active_tab_id = Some(self.tabs[0].0);
                } else {
                    self.active_tab_id = None;
                }
            },
        }
    }

    /// Closes the tab with id `id`. Gives back the closed tab and, when the
    /// active tab was closed and others remain, the id to select next: the
    /// tab that took its place, or the last one. When the active tab was the
    /// last tab, no tab is active afterwards. A split view showing the
    /// closed tab is dropped.
    pub fn close_tab(&mut self, id: usize) -> (r: (Option<T>, Option<usize>))
        requires
            old(self).wf(),
        ensures
            final(self).wf(),
            final(self).next_id() == old(self).next_id(),
            final(self).dragged() == old(self).dragged(),
            !old(self).ids().contains(id) ==> {
                &&& r.0 == None::<T>
                &&& r.1 == None::<usize>
                &&& final(self).tabs() == old(self).tabs()
                &&& final(self).active() == old(self).active()
            },
            old(self).ids().contains(id) ==> {
                let pos = old(self).ids().index_of(id);
                let rest = old(self).tabs().remove(pos);
                &&& r.0 == Some(old(self).tabs()[pos].1)
                &&& final(self).tabs() == rest
                &&& r.1 == (if old(self).active() == Some(id) && rest.len() > 0 {
                    Some(rest[reselect_index(pos, rest.len() as int)].0)
                } else {
                    None
                })
                &&& final(self).active() == (if old(self).active() == Some(id) {
                    if rest.len() > 0 { old(self).active() } else { None }
                } else {
                    old(self).active()
                })
            },
            final(self).split() == (if old(self).split() == Some(id) && old(self).ids().contains(id) {
                None
            } else {
                old(self).split()
            }),
    {
        let ghost ids0 = self.ids();
        let mut removed: Option<T> = None;
        let mut reselect: Option<usize> = None;
        match self.position(id) {
            Some(pos) => {
                proof {
                    assert(ids0[pos as int] == id);
                    ids0.index_of_first_ensures(id);
                    assert(ids0.index_of(id) == pos as int) by {
                        let k = ids0.index_of(id);
                        assert(ids0[k] == id);
                    }
                }
                let was_active = match self.active_tab_id {
                    Some(a) => a == id,
                    None => false,
                };
                let ghost before = self.tabs@;
                let (_, t) = self.tabs.remove(pos);
                removed = Some(t);
                proof {
                    assert(ids_of(self.tabs@) =~= ids_of(before).remove(pos as int));
                    assert forall|i: int| 0 <= i < self.tabs@.len() implies #[trigger] self.tabs@[i].0 < self.next_tab_id by {
                        if i < pos {
                            assert(self.tabs@[i] == before[i]);
                        } else {
                            assert(self.tabs@[i] == before[i + 1]);
                        }
                    }
                    assert(ids_of(self.tabs@).no_duplicates()) by {
                        let b = ids_of(before);
                        assert forall|x: int, y: int| 0 <= x < y < ids_of(self.tabs@).len() implies ids_of(self.tabs@)[x] != ids_of(self.tabs@)[y] by {
                            let xx = if x < pos { x } else { x + 1 };
                            let yy = if y < pos { y } else { y + 1 };
                            assert(ids_of(self.tabs@)[x] == b[xx]);
                            assert(ids_of(self.tabs@)[y] == b[yy]);
                        }
                    }
                }
                if was_active {
                    if self.tabs.len() > 0 {
                        let new_idx = if pos < self.tabs.len() { pos } else { self.tabs.len() - 1 };
                        reselect = Some(self.tabs[new_idx].0);
                    } else {
                        self.active_tab_id = None;
                    }
                }
                match self.split_secondary_tab_id {
                    Some(s) => {
                        if s == id {
                            self.split_secondary_tab_id = None;
                        }
                    },
                    None => {},
                }
            },
            None => {},
        }
        (removed, reselect)
    }

    /// The tab after the active one, wrapping round; none if no open tab is
    /// active.
    pub open spec fn spec_next_tab(&self) -> Option<usize> {
        match self.active() {
            Some(a) => if self.ids().contains(a) {
                Some(self.ids()[next_index(self.ids().index_of(a), self.ids().len() as int)])
            } else {
                None
            },
            None => None,
        }
    }

    /// The tab before the active one, wrapping round; none if no open tab
    /// is active.
    pub open spec fn spec_prev_tab(&self) -> Option<usize> {
        match self.active() {
            Some(a) => if self.ids().contains(a) {
                Some(self.ids()[prev_index(self.ids().index_of(a), self.ids().len() as int)])
            } else {
                None
            },
            None => None,
        }
    }

    pub fn next_tab(&self) -> (r: Option<usize>)
        requires
            self.wf(),
        ensures
            r == self.spec_next_tab(),
    {
        self.cycle(true)
    }

    pub fn prev_tab(&self) -> (r: Option<usize>)
        requires
            self.wf(),
        ensures
            r == self.spec_prev_tab(),
    {
        self.cycle(false)
    }

    fn cycle(&self, forward: bool) -> (r: Option<usize>)
        requires
            self.wf(),
        ensures
            r == (match self.active() {
                Some(a) => if self.ids().contains(a) {
                    Some(self.ids()[if forward {
                        next_index(self.ids().index_of(a), self.ids().len() as int)
                    } else {
                        prev_index(self.ids().index_of(a), self.ids().len() as int)
                    }])
                } else {
                    None
                },
                None => None,
            }),
    {
        if self.tabs.len() == 0 {
            return None;
        }
        match self.active_tab_id {
            Some(a) => match self.position(a) {
                Some(pos) => {
                    proof {
                        let ids = self.ids();
                        assert(ids[pos as int] == a);
                        assert(ids.index_of(a) == pos as int) by {
                            ids.index_of_first_ensures(a);
                            let k = ids.index_of(a);
                            assert(ids[k] == a);
                        }
                    }
                    let len = self.tabs.len();
                    proof {
                        let l = len as int;
                        let p = pos as int;
                        assert(prev_index(p, l) == if p == 0 { l - 1 } else { p - 1 }) by (nonlinear_arith)
                            requires
                                0 <= p < l,
                        {
                            if p == 0 {
                                assert((p + l - 1) % l == l - 1);
                            } else {
                                assert((p + l - 1) % l == p - 1);
                            }
                        }
                    }
                    let idx = if forward { (pos + 1) % len } else if pos == 0 { len - 1 } else { pos - 1 };
                    Some(self.tabs[idx].0)
                },
                None => None,
            },
            None => None,
        }
    }

    /// A tab is asked to show beside the active one.
    pub fn request_split(&mut self, id: usize)
        ensures
            old(self).wf() ==> final(self).wf(),
            final(self).tabs() == old(self).tabs(),
            final(self).next_id() == old(self).next_id(),
            final(self).active() == old(self).active(),
            final(self).split() == Some(id),
            final(self).dragged() == old(self).dragged(),
    {
        self.split_secondary_tab_id = Some(id);
    }

    /// A tab starts being dragged; returns whether it must also be selected
    /// (it was not the active one).
    pub fn start_drag(&mut self, id: usize) -> (must_select: bool)
        ensures
            old(self).wf() ==> final(self).wf(),
            final(self).tabs() == old(self).tabs(),
            final(self).next_id() == old(self).next_id(),
            final(self).active() == old(self).active(),
            final(self).split() == old(self).split(),
            final(self).dragged() == Some(id),
            must_select == (old(self).active() != Some(id)),
    {
        self.dragged_tab_id = Some(id);
        match self.active_tab_id {
            Some(a) => a != id,
            None => true,
        }
    }

    /// The dragged tab passes over tab `target`: the two swap places.
    /// Returns whether they did.
    pub fn drag_over(&mut self, target: usize) -> (swapped: bool)
        requires
            old(self).wf(),
        ensures
            final(self).wf(),
            final(self).next_id() == old(self).next_id(),
            final(self).active() == old(self).active(),
            final(self).split() == old(self).split(),
            final(self).dragged() == old(self).dragged(),
            swapped == (old(self).dragged() is Some && old(self).dragged() != Some(target)
                && old(self).ids().contains(old(self).dragged().unwrap()) && old(self).ids().contains(target)),
            swapped ==> {
                let i = old(self).ids().index_of(old(self).dragged().unwrap());
                let j = old(self).ids().index_of(target);
                final(self).tabs() == old(self).tabs().update(i, old(self).tabs()[j]).update(j, old(self).tabs()[i])
            },
            !swapped ==> final(self).tabs() == old(self).tabs(),
    {
        match self.dragged_tab_id {
            Some(d) => {
                if d == target {
                    return false;
                }
                let from = self.position(d);
                let to = self.position(target);
                match (from, to) {
                    (Some(i), Some(j)) => {
                        proof {
                            let ids = self.ids();
                            assert(ids[i as int] == d);
                            assert(ids[j as int] == target);
                            ids.index_of_first_ensures(d);
                            ids.index_of_first_ensures(target);
                            assert(ids.index_of(d) == i as int) by {
                                let k = ids.index_of(d);
                                assert(ids[k] == d);
                            }
                            assert(ids.index_of(target) == j as int) by {
                                let k = ids.index_of(target);
                                assert(ids[k] == target);
                            }
                        }
                        let ghost before = self.tabs@;
                        let (lo, hi) = if i < j { (i, j) } else { (j, i) };
                        let upper = self.tabs.remove(hi);
                        let lower = self.tabs.remove(lo);
                        self.tabs.insert(lo, upper);
                        self.tabs.insert(hi, lower);
                        proof {
                            assert(self.tabs@ =~= before.update(i as int, before[j as int]).update(j as int, before[i as int]));
                            let b = ids_of(before);
                            let a = ids_of(self.tabs@);
                            assert forall|x: int| 0 <= x < self.tabs@.len() implies #[trigger] self.tabs@[x].0 < self.next_tab_id by {
                                if x == i as int {
                                    assert(self.tabs@[x] == before[j as int]);
                                } else if x == j as int {
                                    assert(self.tabs@[x] == before[i as int]);
                                } else {
                                    assert(self.tabs@[x] == before[x]);
                                }
                            }
                            assert(a.no_duplicates()) by {
                                assert forall|x: int, y: int| 0 <= x < y < a.len() implies a[x] != a[y] by {
                                    let xx = if x == i as int { j as int } else if x == j as int { i as int } else { x };
                                    let yy = if y == i as int { j as int } else if y == j as int { i as int } else { y };
                                    assert(a[x] == b[xx]);
                                    assert(a[y] == b[yy]);
                                }
                            }
                        }
                        true
                    },
                    _ => false,
                }
            },
            None => false,
        }
    }

    /// Dragging stops.
    pub fn end_drag(&mut self)
        ensures
            old(self).wf() ==> final(self).wf(),
            final(self).tabs() == old(self).tabs(),
            final(self).next_id() == old(self).next_id(),
            final(self).active() == old(self).active(),
            final(self).split() == old(self).split(),
            final(self).dragged() == None::<usize>,
    {
        self.dragged_tab_id = None;
    }
}

/// Going to the next tab and then to the previous one lands on the tab one
/// started from.
pub proof fn next_then_prev_tab(pos: int, len: int)
    requires
        0 <= pos < len,
    ensures
        prev_index(next_index(pos, len), len) == pos,
        next_index(prev_index(pos, len), len) == pos,
        0 <= next_index(pos, len) < len,
        0 <= prev_index(pos, len) < len,
{
    assert(prev_index(next_index(pos, len), len) == pos) by (nonlinear_arith)
        requires
            0 <= pos < len,
    {
        if pos + 1 < len {
            assert((pos + 1) % len == pos + 1);
        } else {
            assert((pos + 1) % len == 0);
        }
    }
    assert(next_index(prev_index(pos, len), len) == pos) by (nonlinear_arith)
        requires
            0 <= pos < len,
    {
        if pos > 0 {
            assert((pos + len - 1) % len == pos - 1);
        } else {
            assert((pos + len - 1) % len == len - 1);
        }
    }
}

/// Going to the next tab and then to the previous one makes the tab that
/// was active before active again: `moved` is the strip with the same tabs
/// after the next tab was selected.
pub proof fn next_then_prev_returns<T>(strip: &TabStrip<T>, moved: &TabStrip<T>)
    requires
        strip.wf(),
        strip.spec_next_tab() is Some,
        moved.tabs() == strip.tabs(),
        moved.active() == strip.spec_next_tab(),
    ensures
        moved.spec_prev_tab() == strip.active(),
{
    strip.lemma_ids_distinct();
    let ids = strip.ids();
    let a = strip.active()->0;
    let pos = ids.index_of(a);
    let len = ids.len() as int;
    assert(0 <= pos < len && ids[pos] == a);
    next_then_prev_tab(pos, len);
    let k = next_index(pos, len);
    let b = ids[k];
    assert(moved.ids() == ids);
    assert(ids.contains(b));
    let j = ids.index_of(b);
    assert(0 <= j < len && ids[j] == b);
    assert(j == k);
}

/// Closing the active tab while others stay open selects one of them: the
/// tab that moved into its place, or the last tab when it was the last.
pub proof fn close_reselects_neighbour(pos: int, remaining: int)
    requires
        0 <= pos <= remaining,
        remaining > 0,
    ensures
        0 <= reselect_index(pos, remaining) < remaining,
        reselect_index(pos, remaining) == pos || reselect_index(pos, remaining) == pos - 1,
{
}

/// Dragging one tab over another swaps the two and keeps every tab:
/// dragging back over the same tab restores the order, and no tab appears
/// twice or goes missing.
pub proof fn drag_swap_is_undone_by_dragging_back<T>(tabs: Seq<(usize, T)>, i: int, j: int)
    requires
        0 <= i < tabs.len(),
        0 <= j < tabs.len(),
    ensures
        ({
            let swapped = tabs.update(i, tabs[j]).update(j, tabs[i]);
            &&& swapped.len() == tabs.len()
            &&& swapped[i] == tabs[j]
            &&& swapped[j] == tabs[i]
            &&& forall|k: int| 0 <= k < tabs.len() && k != i && k != j ==> swapped[k] == tabs[k]
            &&& swapped.update(i, swapped[j]).update(j, swapped[i]) == tabs
        }),
{
    let swapped = tabs.update(i, tabs[j]).update(j, tabs[i]);
    assert(swapped.update(i, swapped[j]).update(j, swapped[i]) =~= tabs);
}

} // verus!
