use vstd::prelude::*;
use crate::navigation::{PageNav, lookahead, abs_diff};
use crate::render::RenderQuality;
use std::collections::HashMap;
use std::collections::HashSet;
use std::collections::VecDeque;
use vstd::set::fold::is_fun_commutative;
use vstd::std_specs::hash::spec_keys_iter;
use vstd::std_specs::iter::IteratorSpec;

verus! {

broadcast use vstd::std_specs::hash::group_hash_axioms;

/// The total of `f` over the values of `m`.
pub open spec fn map_sum<V>(m: Map<usize, V>, f: spec_fn(V) -> nat) -> nat {
    m.dom().fold(0nat, sum_step(m, f))
}

/// One step of `map_sum`: adds the `f` of the value at key `k`.
pub open spec fn sum_step<V>(m: Map<usize, V>, f: spec_fn(V) -> nat) -> spec_fn(nat, usize) -> nat {
    |acc: nat, k: usize| acc + f(m[k])
}

proof fn lemma_sum_step_commutes<V>(m: Map<usize, V>, f: spec_fn(V) -> nat)
    ensures
        is_fun_commutative(sum_step(m, f)),
{
    assert forall|a1: usize, a2: usize, b: nat| #[trigger] sum_step(m, f)(sum_step(m, f)(b, a2), a1)
        == sum_step(m, f)(sum_step(m, f)(b, a1), a2) by {}
}

proof fn lemma_fold_agree<V>(s: Set<usize>, m1: Map<usize, V>, m2: Map<usize, V>, f: spec_fn(V) -> nat)
    requires
        s.finite(),
        forall|k: usize| #[trigger] s.contains(k) ==> f(m1[k]) == f(m2[k]),
    ensures
        s.fold(0nat, sum_step(m1, f)) == s.fold(0nat, sum_step(m2, f)),
    decreases s.len(),
{
    lemma_sum_step_commutes(m1, f);
    lemma_sum_step_commutes(m2, f);
    if s.len() == 0 {
        assert(s =~= Set::<usize>::empty());
        vstd::set::fold::lemma_fold_empty(0nat, sum_step(m1, f));
        vstd::set::fold::lemma_fold_empty(0nat, sum_step(m2, f));
    } else {
        let a = s.choose();
        let r = s.remove(a);
        assert(r.insert(a) =~= s);
        lemma_fold_agree(r, m1, m2, f);
        vstd::set::fold::lemma_fold_insert(r, 0nat, sum_step(m1, f), a);
        vstd::set::fold::lemma_fold_insert(r, 0nat, sum_step(m2, f), a);
    }
}

/// Adding a new key adds its value's `f` to the total.
proof fn lemma_map_sum_insert<V>(m: Map<usize, V>, k: usize, v: V, f: spec_fn(V) -> nat)
    requires
        m.dom().finite(),
        !m.contains_key(k),
    ensures
        map_sum(m.insert(k, v), f) == map_sum(m, f) + f(v),
{
    let m2 = m.insert(k, v);
    lemma_sum_step_commutes(m2, f);
    assert(m2.dom() =~= m.dom().insert(k));
    vstd::set::fold::lemma_fold_insert(m.dom(), 0nat, sum_step(m2, f), k);
    assert forall|a: usize| #[trigger] m.dom().contains(a) implies f(m2[a]) == f(m[a]) by {}
    lemma_fold_agree(m.dom(), m2, m, f);
}

/// Removing a held key takes its value's `f` off the total.
proof fn lemma_map_sum_remove<V>(m: Map<usize, V>, k: usize, f: spec_fn(V) -> nat)
    requires
        m.dom().finite(),
        m.contains_key(k),
    ensures
        map_sum(m.remove(k), f) + f(m[k]) == map_sum(m, f),
{
    lemma_map_sum_insert(m.remove(k), k, m[k], f);
    assert(m.remove(k).insert(k, m[k]) =~= m);
}

proof fn lemma_map_sum_empty<V>(f: spec_fn(V) -> nat)
    ensures
        map_sum(Map::<usize, V>::empty(), f) == 0,
{
    assert(Map::<usize, V>::empty().dom() =~= Set::<usize>::empty());
    vstd::set::fold::lemma_fold_empty(0nat, sum_step(Map::<usize, V>::empty(), f));
}

/// The keys of `m`, each once, in the order the map hands them out.
fn keys_of<V>(m: &HashMap<usize, V>) -> (r: Vec<usize>)
    ensures
        r@.no_duplicates(),
        r@.to_set() == m@.dom(),
        r@.len() == m@.len(),
{
    let ghost ks = spec_keys_iter(m).remaining();
    let mut r: Vec<usize> = Vec::new();
    for k in it: m.keys()
        invariant
            it.seq() == ks,
            r@.len() == it.index(),
            forall|i: int| 0 <= i < it.index() ==> r@[i] == *ks[i],
    {
        r.push(*k);
    }
    proof {
        assert(r@ =~= ks.unref());
        r@.unique_seq_to_set();
    }
    r
}

/// A rendered page kept in memory: the image, how finely it was rendered,
/// and its size in pixels.
#[derive(Clone, Debug)]
pub struct CachedTexture<T> {
    pub handle: T,
    pub quality: RenderQuality,
    pub width: u32,
    pub height: u32,
}

/// The RGBA bytes a texture of this size takes.
pub open spec fn texture_bytes<T>(c: CachedTexture<T>) -> nat {
    (c.width * c.height * 4) as nat
}

/// `texture_bytes` as a function value.
pub open spec fn bytes_of<T>() -> spec_fn(CachedTexture<T>) -> nat {
    |c: CachedTexture<T>| texture_bytes(c)
}

/// The byte count of the texture fits a `u32`.
pub open spec fn texture_fits<T>(c: CachedTexture<T>) -> bool {
    c.width * c.height * 4 <= u32::MAX
}

impl<T> CachedTexture<T> {
    pub fn memory_size_bytes(&self) -> (r: usize)
        requires
            texture_fits(*self),
        ensures
            r == texture_bytes(*self),
    {
        assert(self.width * self.height <= u32::MAX) by (nonlinear_arith)
            requires
                self.width * self.height * 4 <= u32::MAX,
        ;
        (self.width * self.height * 4) as usize
    }
}

/// The rendered pages of one tab, keyed by page index, with the bytes they
/// take together.
#[derive(Debug)]
pub struct TextureCache<T> {
    pages: HashMap<usize, CachedTexture<T>>,
    total: usize,
}

impl<T> View for TextureCache<T> {
    type V = Map<usize, CachedTexture<T>>;

    closed spec fn view(&self) -> Map<usize, CachedTexture<T>> {
        self.pages@
    }
}

/// `page` may be evicted: it is neither the current page nor requested.
pub open spec fn evictable(page: usize, current: usize, required: Seq<usize>) -> bool {
    page != current && !required.contains(page)
}

impl<T> TextureCache<T> {
    /// Every texture's size fits a `u32`, and the running total is the
    /// bytes all textures take together.
    pub closed spec fn wf(&self) -> bool {
        &&& self.pages@.dom().finite()
        &&& forall|k: usize| #[trigger] self.pages@.contains_key(k) ==> texture_fits(self.pages@[k])
        &&& self.total == map_sum(self.pages@, bytes_of::<T>())
    }

    /// The bytes all held textures take together.
    pub closed spec fn total_bytes(&self) -> nat {
        map_sum(self.pages@, bytes_of::<T>())
    }

    pub fn new() -> (r: Self)
        ensures
            r.wf(),
            r@ == Map::<usize, CachedTexture<T>>::empty(),
            r.total_bytes() == 0,
    {
        let r = TextureCache { pages: HashMap::new(), total: 0 };
        proof {
            lemma_map_sum_empty(bytes_of::<T>());
        }
        r
    }

    /// The total is at least the bytes of any one texture.
    pub proof fn lemma_total_bounds_each(&self, k: usize)
        requires
            self.wf(),
            self@.contains_key(k),
        ensures
            texture_bytes(self@[k]) <= self.total_bytes(),
    {
        lemma_map_sum_remove(self.pages@, k, bytes_of::<T>());
    }

    /// Stores `c` for `page`, keeping the running total.
    fn put(&mut self, page: usize, c: CachedTexture<T>)
        requires
            old(self).wf(),
            texture_fits(c),
            old(self).total_bytes() + texture_bytes(c) <= usize::MAX,
        ensures
            final(self).wf(),
            final(self)@ == old(self)@.insert(page, c),
            final(self).total_bytes() + (if old(self)@.contains_key(page) { texture_bytes(old(self)@[page]) } else { 0 })
                == old(self).total_bytes() + texture_bytes(c),
    {
        let ghost f = bytes_of::<T>();
        let ghost gc = c;
        let added = c.memory_size_bytes();
        let previous = self.pages.insert(page, c);
        match previous {
            Some(p) => {
                proof {
                    lemma_map_sum_remove(old(self).pages@, page, f);
                    lemma_map_sum_insert(old(self).pages@.remove(page), page, gc, f);
                    assert(old(self).pages@.remove(page).insert(page, gc) =~= self.pages@);
                }
                self.total = self.total - p.memory_size_bytes() + added;
            },
            None => {
                proof {
                    lemma_map_sum_insert(old(self).pages@, page, gc, f);
                }
                self.total = self.total + added;
            },
        }
    }

    /// Drops the texture of `page`, keeping the running total.
    fn take(&mut self, page: usize) -> (r: Option<CachedTexture<T>>)
        requires
            old(self).wf(),
        ensures
            final(self).wf(),
            final(self)@ == old(self)@.remove(page),
            match r {
                Some(c) => old(self)@.contains_key(page) && old(self)@[page] == c,
                None => !old(self)@.contains_key(page),
            },
            final(self).total_bytes() + (if old(self)@.contains_key(page) { texture_bytes(old(self)@[page]) } else { 0 })
                == old(self).total_bytes(),
    {
        let removed = self.pages.remove(&page);
        match removed {
            Some(c) => {
                proof {
                    lemma_map_sum_remove(old(self).pages@, page, bytes_of::<T>());
                }
                self.total = self.total - c.memory_size_bytes();
                Some(c)
            },
            None => {
                assert(self.pages@ =~= old(self).pages@);
                None
            },
        }
    }

    pub fn len(&self) -> (r: usize)
        requires
            self.wf(),
        ensures
            r == self@.len(),
            self@.dom().finite(),
    {
        self.pages.len()
    }

    pub fn contains(&self, page: usize) -> (r: bool)
        requires
            self.wf(),
        ensures
            r == self@.contains_key(page),
    {
        self.pages.contains_key(&page)
    }

    pub fn get(&self, page: usize) -> (r: Option<&CachedTexture<T>>)
        requires
            self.wf(),
        ensures
            match r {
                Some(c) => self@.contains_key(page) && self@[page] == *c,
                None => !self@.contains_key(page),
            },
    {
        self.pages.get(&page)
    }

    /// The image of a page, if it is held.
    pub fn get_texture(&self, page: usize) -> (r: Option<&T>)
        requires
            self.wf(),
        ensures
            match r {
                Some(h) => self@.contains_key(page) && self@[page].handle == *h,
                None => !self@.contains_key(page),
            },
    {
        match self.get(page) {
            Some(c) => Some(&c.handle),
            None => None,
        }
    }

    /// The pages held, each once.
    pub fn pages(&self) -> (r: Vec<usize>)
        requires
            self.wf(),
        ensures
            r@.no_duplicates(),
            forall|k: usize| #[trigger] r@.contains(k) == self@.contains_key(k),
            r@.len() == self@.len(),
    {
        let r = keys_of(&self.pages);
        assert forall|k: usize| #[trigger] r@.contains(k) == self@.contains_key(k) by {
            assert(r@.to_set().contains(k) == r@.contains(k));
        }
        r
    }

    /// The bytes all held textures take together.
    pub fn total_texture_ram_bytes(&self) -> (r: usize)
        requires
            self.wf(),
        ensures
            r == self.total_bytes(),
    {
        self.total
    }

    /// Drops every texture but the one of `page`.
    pub fn retain_only(&mut self, page: usize)
        requires
            old(self).wf(),
        ensures
            final(self).wf(),
            final(self)@ == old(self)@.restrict(set![page]),
    {
        let kept = self.take(page);
        self.clear();
        match kept {
            Some(c) => {
                proof {
                    lemma_map_sum_remove(old(self).pages@, page, bytes_of::<T>());
                }
                self.put(page, c);
            },
            None => {},
        }
        assert(self@ =~= old(self)@.restrict(set![page]));
    }

    /// Drops every texture.
    pub fn clear(&mut self)
        ensures
            final(self).wf(),
            final(self)@ == Map::<usize, CachedTexture<T>>::empty(),
            final(self).total_bytes() == 0,
    {
        self.pages.clear();
        self.total = 0;
        proof {
            lemma_map_sum_empty(bytes_of::<T>());
        }
    }

    /// Whether a page still has to be rendered to reach `target`: it is not
    /// held, or held at another zoom, or held at a coarser quality.
    pub fn needs_render(&self, page: usize, target: RenderQuality, zoom_matches: bool) -> (r: bool)
        requires
            self.wf(),
        ensures
            r == (!self@.contains_key(page) || !zoom_matches
                || self@[page].quality.spec_rank() < target.spec_rank()),
    {
        match self.get(page) {
            Some(c) => !zoom_matches || !c.quality.at_least(target),
            None => true,
        }
    }
}


/// The pages a tab's prefetch list asks for.
pub open spec fn required_page_seq(nav: PageNav) -> Seq<usize> {
    nav.spec_required_pages_with_quality().map_values(|e: (usize, RenderQuality)| e.0)
}

/// How far `page` is from `current`.
pub open spec fn page_distance(page: usize, current: usize) -> int {
    abs_diff(page as int, current as int)
}

fn contains_page(v: &Vec<usize>, page: usize) -> (r: bool)
    ensures
        r == v@.contains(page),
{
    let mut i: usize = 0;
    while i < v.len()
        invariant
            i <= v@.len(),
            forall|j: int| 0 <= j < i ==> v@[j] != page,
        decreases v@.len() - i,
    {
        if v[i] == page {
            return true;
        }
        i = i + 1;
    }
    false
}

impl<T> TextureCache<T> {
    /// The held page that may be evicted and lies farthest from the current
    /// page, if any held page may be evicted.
    fn farthest_evictable(&self, current: usize, required: &Vec<usize>) -> (r: Option<usize>)
        requires
            self.wf(),
        ensures
            match r {
                Some(k) => {
                    &&& self@.contains_key(k)
                    &&& evictable(k, current, required@)
                    &&& forall|k2: usize| #[trigger] self@.contains_key(k2) && evictable(k2, current, required@)
                        ==> page_distance(k2, current) <= page_distance(k, current)
                },
                None => forall|k2: usize| #[trigger] self@.contains_key(k2) ==> !evictable(k2, current, required@),
            },
    {
        let keys = keys_of(&self.pages);
        let mut best: Option<usize> = None;
        let mut best_dist: usize = 0;
        let mut i: usize = 0;
        while i < keys.len()
            invariant
                self.wf(),
                keys@.to_set() == self@.dom(),
                i <= keys@.len(),
                match best {
                    Some(k) => {
                        &&& self@.contains_key(k)
                        &&& evictable(k, current, required@)
                        &&& best_dist == page_distance(k, current)
                        &&& forall|j: int| 0 <= j < i && evictable(#[trigger] keys@[j], current, required@)
                            ==> page_distance(keys@[j], current) <= best_dist
                    },
                    None => forall|j: int| 0 <= j < i ==> !evictable(#[trigger] keys@[j], current, required@),
                },
            decreases keys@.len() - i,
        {
            let k = keys[i];
            proof {
                assert(keys@.to_set().contains(k));
            }
            if k != current && !contains_page(required, k) {
                let d = if k >= current { k - current } else { current - k };
                match best {
                    Some(_) => {
                        if d >= best_dist {
                            best = Some(k);
                            best_dist = d;
                        }
                    },
                    None => {
                        best = Some(k);
                        best_dist = d;
                    },
                }
            }
            i = i + 1;
        }
        proof {
            assert forall|k2: usize| #[trigger] self@.contains_key(k2) implies
                (evictable(k2, current, required@) ==> (best is Some && page_distance(k2, current) <= best_dist)) by {
                assert(keys@.to_set().contains(k2));
                let j = choose|j: int| 0 <= j < keys@.len() && keys@[j] == k2;
            }
        }
        best
    }

    /// Evicts textures that are neither on the current page nor requested,
    /// farthest from the current page first, until the total fits `budget`
    /// or nothing more may be evicted.
    pub fn enforce_memory_budget(&mut self, nav: &PageNav, budget: usize)
        requires
            old(self).wf(),
            nav.current_page + lookahead(nav.layout, nav.is_continuous) <= usize::MAX,
        ensures
            final(self).wf(),
            final(self)@.submap_of(old(self)@),
            forall|k: usize| #[trigger] old(self)@.contains_key(k) && !final(self)@.contains_key(k)
                ==> evictable(k, nav.current_page, required_page_seq(*nav)),
            forall|k: usize, k2: usize| #[trigger] old(self)@.contains_key(k) && !final(self)@.contains_key(k)
                && #[trigger] final(self)@.contains_key(k2) && evictable(k2, nav.current_page, required_page_seq(*nav))
                ==> page_distance(k2, nav.current_page) <= page_distance(k, nav.current_page),
            final(self).total_bytes() <= budget || forall|k: usize| #[trigger] final(self)@.contains_key(k)
                ==> !evictable(k, nav.current_page, required_page_seq(*nav)),
            final(self)@.dom() != old(self)@.dom() ==> exists|k: usize| #[trigger] old(self)@.contains_key(k)
                && !final(self)@.contains_key(k) && final(self).total_bytes() + texture_bytes(old(self)@[k]) > budget
                && forall|k1: usize| #[trigger] old(self)@.contains_key(k1) && !final(self)@.contains_key(k1)
                    ==> page_distance(k, nav.current_page) <= page_distance(k1, nav.current_page),
    {
        let required = nav.required_pages();
        let cur = nav.current_page;
        let ghost req = required_page_seq(*nav);
        let ghost mut last: usize = 0;
        let mut done = false;
        while !done
            invariant
                self.wf(),
                required@ == req,
                cur == nav.current_page,
                self@.submap_of(old(self)@),
                forall|k: usize| #[trigger] old(self)@.contains_key(k) && !self@.contains_key(k) ==> evictable(k, cur, req),
                forall|k: usize, k2: usize| #[trigger] old(self)@.contains_key(k) && !self@.contains_key(k)
                    && #[trigger] self@.contains_key(k2) && evictable(k2, cur, req)
                    ==> page_distance(k2, cur) <= page_distance(k, cur),
                done ==> (self.total_bytes() <= budget || forall|k: usize| #[trigger] self@.contains_key(k) ==> !evictable(k, cur, req)),
                self@.dom() != old(self)@.dom() ==> (old(self)@.contains_key(last) && !self@.contains_key(last)
                    && self.total_bytes() + texture_bytes(old(self)@[last]) > budget
                    && forall|k1: usize| #[trigger] old(self)@.contains_key(k1) && !self@.contains_key(k1)
                        ==> page_distance(last, cur) <= page_distance(k1, cur)),
            decreases self@.len() * 2 + (if done { 0int } else { 1int }),
        {
            let total = self.total_texture_ram_bytes();
            if total <= budget {
                done = true;
            } else {
                match self.farthest_evictable(cur, &required) {
                    Some(k) => {
                        let ghost before = *self;
                        self.take(k);
                        proof {
                            last = k;
                            assert(self.total_bytes() + texture_bytes(before@[k]) == before.total_bytes());
                            assert forall|k1: usize| #[trigger] old(self)@.contains_key(k1) && !self@.contains_key(k1)
                                implies page_distance(k, cur) <= page_distance(k1, cur) by {
                                if before@.contains_key(k1) {
                                    assert(k1 == k);
                                } else {
                                    assert(before@.contains_key(k) && evictable(k, cur, req));
                                }
                            }
                            assert forall|k1: usize, k2: usize| #[trigger] old(self)@.contains_key(k1) && !self@.contains_key(k1)
                                && #[trigger] self@.contains_key(k2) && evictable(k2, cur, req)
                                implies page_distance(k2, cur) <= page_distance(k1, cur) by {
                                if before@.contains_key(k1) {
                                    assert(k1 == k);
                                }
                            }
                            assert(self@.len() < before@.len()) by {
                                assert(before@.dom().contains(k));
                                assert(self@.dom() =~= before@.dom().remove(k));
                            }
                        }
                    },
                    None => {
                        done = true;
                    },
                }
            }
        }
    }

    /// Stores a freshly rendered page, unless the page is already held at
    /// the same zoom and at least the same quality; after storing, the
    /// memory budget is enforced.
    pub fn insert_texture_with_size(
        &mut self,
        page: usize,
        handle: T,
        quality: RenderQuality,
        width: u32,
        height: u32,
        zoom_matches: bool,
        nav: &PageNav,
        budget: usize,
    ) -> (stored: bool)
        requires
            old(self).wf(),
            nav.current_page + lookahead(nav.layout, nav.is_continuous) <= usize::MAX,
            width * height * 4 <= u32::MAX,
            old(self).total_bytes() + width * height * 4 <= usize::MAX,
        ensures
            final(self).wf(),
            stored == !(old(self)@.contains_key(page) && zoom_matches
                && old(self)@[page].quality.spec_rank() >= quality.spec_rank()),
            !stored ==> final(self)@ == old(self)@,
            stored ==> {
                let inserted = old(self)@.insert(page, CachedTexture { handle, quality, width, height });
                &&& final(self)@.submap_of(inserted)
                &&& forall|k: usize| #[trigger] inserted.contains_key(k) && !final(self)@.contains_key(k)
                    ==> evictable(k, nav.current_page, required_page_seq(*nav))
                &&& forall|k: usize, k2: usize| #[trigger] inserted.contains_key(k) && !final(self)@.contains_key(k)
                    && #[trigger] final(self)@.contains_key(k2) && evictable(k2, nav.current_page, required_page_seq(*nav))
                    ==> page_distance(k2, nav.current_page) <= page_distance(k, nav.current_page)
                &&& (final(self).total_bytes() <= budget || forall|k: usize| #[trigger] final(self)@.contains_key(k)
                    ==> !evictable(k, nav.current_page, required_page_seq(*nav)))
                &&& (final(self)@.dom() != inserted.dom() ==> exists|k: usize| #[trigger] inserted.contains_key(k)
                    && !final(self)@.contains_key(k) && final(self).total_bytes() + texture_bytes(inserted[k]) > budget
                    && forall|k1: usize| #[trigger] inserted.contains_key(k1) && !final(self)@.contains_key(k1)
                        ==> page_distance(k, nav.current_page) <= page_distance(k1, nav.current_page))
            },
    {
        match self.get(page) {
            Some(existing) => {
                if zoom_matches && existing.quality.at_least(quality) {
                    return false;
                }
            },
            None => {},
        }
        let c = CachedTexture { handle, quality, width, height };
        self.put(page, c);
        self.enforce_memory_budget(nav, budget);
        true
    }
}

/// The pages of a list of render requests.
pub open spec fn request_pages(requests: Seq<(usize, RenderQuality)>) -> Seq<usize> {
    requests.map_values(|e: (usize, RenderQuality)| e.0)
}

/// Whether the request `e` asks for more than `cache` holds: the page is
/// not held, or not at the current zoom, or at a coarser quality.
pub open spec fn request_needs_render<T>(
    e: (usize, RenderQuality),
    cache: Map<usize, CachedTexture<T>>,
    fresh: Seq<usize>,
) -> bool {
    !cache.contains_key(e.0) || !fresh.contains(e.0) || cache[e.0].quality.spec_rank() < e.1.spec_rank()
}

/// The pages a render pass should start, in request order: each request
/// whose page is neither loading nor already started earlier in the pass,
/// and that still needs rendering.
pub open spec fn pages_to_render<T>(
    requests: Seq<(usize, RenderQuality)>,
    loading: Set<usize>,
    cache: Map<usize, CachedTexture<T>>,
    fresh: Seq<usize>,
) -> Seq<(usize, RenderQuality)>
    decreases requests.len(),
{
    if requests.len() == 0 {
        Seq::empty()
    } else {
        let earlier = pages_to_render(requests.drop_last(), loading, cache, fresh);
        let e = requests.last();
        if !loading.contains(e.0) && !request_pages(earlier).contains(e.0) && request_needs_render(e, cache, fresh) {
            earlier.push(e)
        } else {
            earlier
        }
    }
}

proof fn lemma_plan_from_requests<T>(
    requests: Seq<(usize, RenderQuality)>,
    loading: Set<usize>,
    cache: Map<usize, CachedTexture<T>>,
    fresh: Seq<usize>,
)
    ensures
        forall|k: int| 0 <= k < pages_to_render(requests, loading, cache, fresh).len() ==> exists|j: int|
            0 <= j < requests.len() && requests[j] == #[trigger] pages_to_render(requests, loading, cache, fresh)[k],
    decreases requests.len(),
{
    if requests.len() > 0 {
        let d = requests.drop_last();
        lemma_plan_from_requests(d, loading, cache, fresh);
        let plan = pages_to_render(requests, loading, cache, fresh);
        let earlier = pages_to_render(d, loading, cache, fresh);
        assert forall|k: int| 0 <= k < plan.len() implies exists|j: int|
            0 <= j < requests.len() && requests[j] == #[trigger] plan[k] by {
            if k < earlier.len() {
                assert(plan[k] == earlier[k]);
                let j = choose|j: int| 0 <= j < d.len() && d[j] == earlier[k];
                assert(requests[j] == d[j]);
            } else {
                assert(plan[k] == requests[requests.len() - 1]);
            }
        }
    }
}

/// What a render pass plans, over every list of requests: each planned
/// entry is one of the requests, for a page that is not loading and that
/// the cache does not hold at the current zoom (`fresh`) at the requested
/// quality or finer; no page is planned twice; and every request that
/// needs rendering, for a page not loading and not requested earlier in
/// the list, is planned.
pub proof fn render_plan_is_exact<T>(
    requests: Seq<(usize, RenderQuality)>,
    loading: Set<usize>,
    cache: Map<usize, CachedTexture<T>>,
    fresh: Seq<usize>,
)
    ensures
        forall|k: int| 0 <= k < pages_to_render(requests, loading, cache, fresh).len() ==> {
            let e = #[trigger] pages_to_render(requests, loading, cache, fresh)[k];
            &&& requests.contains(e)
            &&& !loading.contains(e.0)
            &&& (!cache.contains_key(e.0) || !fresh.contains(e.0) || cache[e.0].quality.spec_rank() < e.1.spec_rank())
        },
        forall|k: int, m: int| 0 <= k < m < pages_to_render(requests, loading, cache, fresh).len()
            ==> (#[trigger] pages_to_render(requests, loading, cache, fresh)[k]).0
                != (#[trigger] pages_to_render(requests, loading, cache, fresh)[m]).0,
        forall|i: int| 0 <= i < requests.len()
            && !loading.contains(#[trigger] requests[i].0)
            && (forall|j: int| 0 <= j < i ==> requests[j].0 != requests[i].0)
            && (!cache.contains_key(requests[i].0) || !fresh.contains(requests[i].0)
                || cache[requests[i].0].quality.spec_rank() < requests[i].1.spec_rank())
            ==> pages_to_render(requests, loading, cache, fresh).contains(requests[i]),
    decreases requests.len(),
{
    lemma_plan_from_requests(requests, loading, cache, fresh);
    if requests.len() > 0 {
        let n = requests.len();
        let d = requests.drop_last();
        render_plan_is_exact(d, loading, cache, fresh);
        lemma_plan_from_requests(d, loading, cache, fresh);
        let plan = pages_to_render(requests, loading, cache, fresh);
        let earlier = pages_to_render(d, loading, cache, fresh);
        let e = requests.last();
        let pushed = !loading.contains(e.0) && !request_pages(earlier).contains(e.0) && request_needs_render(e, cache, fresh);
        assert forall|k: int| 0 <= k < plan.len() implies {
            let x = #[trigger] plan[k];
            &&& requests.contains(x)
            &&& !loading.contains(x.0)
            &&& (!cache.contains_key(x.0) || !fresh.contains(x.0) || cache[x.0].quality.spec_rank() < x.1.spec_rank())
        } by {
            let j = choose|j: int| 0 <= j < requests.len() && requests[j] == plan[k];
            if k < earlier.len() {
                assert(plan[k] == earlier[k]);
                let x = earlier[k];
                assert(!loading.contains(x.0));
            }
        }
        assert forall|k: int, m: int| 0 <= k < m < plan.len() implies (#[trigger] plan[k]).0 != (#[trigger] plan[m]).0 by {
            if m < earlier.len() {
                assert(plan[k] == earlier[k] && plan[m] == earlier[m]);
            } else {
                assert(pushed);
                assert(plan[k] == earlier[k]);
                assert(request_pages(earlier)[k] == earlier[k].0);
            }
        }
        assert forall|i: int| 0 <= i < n
            && !loading.contains(#[trigger] requests[i].0)
            && (forall|j: int| 0 <= j < i ==> requests[j].0 != requests[i].0)
            && (!cache.contains_key(requests[i].0) || !fresh.contains(requests[i].0)
                || cache[requests[i].0].quality.spec_rank() < requests[i].1.spec_rank())
            implies plan.contains(requests[i]) by {
            if i < n - 1 {
                assert(d[i] == requests[i]);
                assert(forall|j: int| 0 <= j < i ==> d[j].0 != d[i].0);
                assert(earlier.contains(d[i]));
                let k = choose|k: int| 0 <= k < earlier.len() && earlier[k] == d[i];
                assert(plan[k] == earlier[k]);
            } else {
                assert(e == requests[i]);
                if request_pages(earlier).contains(e.0) {
                    let k = choose|k: int| 0 <= k < request_pages(earlier).len() && request_pages(earlier)[k] == e.0;
                    assert(earlier[k].0 == e.0);
                    let j = choose|j: int| 0 <= j < d.len() && d[j] == earlier[k];
                    assert(requests[j].0 == e.0);
                    assert(false);
                }
                assert(pushed);
                assert(plan[n - 1 - (n - 1 - earlier.len())] == e);
                assert(plan[earlier.len() as int] == e);
            }
        }
    }
}

/// The quality a request keeps in a render pass of quality `pass`: its own,
/// unless that is finer than the pass allows.
pub open spec fn capped_quality(q: RenderQuality, pass: RenderQuality) -> RenderQuality {
    if q.spec_rank() <= pass.spec_rank() { q } else { pass }
}

/// The requests of a render pass of quality `pass`: the same pages in the
/// same order, none asking for more than the pass allows, so that a draft
/// pass during scrolling or zooming stays a draft.
pub fn cap_request_quality(requests: &Vec<(usize, RenderQuality)>, pass: RenderQuality) -> (r: Vec<(usize, RenderQuality)>)
    ensures
        r@.len() == requests@.len(),
        forall|i: int| 0 <= i < r@.len() ==> (#[trigger] r@[i]).0 == requests@[i].0
            && r@[i].1 == capped_quality(requests@[i].1, pass),
{
    let mut r: Vec<(usize, RenderQuality)> = Vec::new();
    let mut i: usize = 0;
    while i < requests.len()
        invariant
            i <= requests@.len(),
            r@.len() == i,
            forall|j: int| 0 <= j < i ==> (#[trigger] r@[j]).0 == requests@[j].0
                && r@[j].1 == capped_quality(requests@[j].1, pass),
        decreases requests@.len() - i,
    {
        let (page, q) = requests[i];
        let kept = if pass.at_least(q) { q } else { pass };
        r.push((page, kept));
        i = i + 1;
    }
    r
}

/// Picks the requested pages that must be rendered and marks them as
/// loading. `fresh` lists the held pages rendered at the current zoom.
pub fn plan_page_renders<T>(
    requests: &Vec<(usize, RenderQuality)>,
    loading: &mut HashSet<usize>,
    cache: &TextureCache<T>,
    fresh: &Vec<usize>,
) -> (r: Vec<(usize, RenderQuality)>)
    requires
        cache.wf(),
    ensures
        r@ == pages_to_render(requests@, old(loading)@, cache@, fresh@),
        final(loading)@ == old(loading)@ + request_pages(r@).to_set(),
        forall|i: int| 0 <= i < requests@.len()
            && !old(loading)@.contains(#[trigger] requests@[i].0)
            && (forall|j: int| 0 <= j < i ==> requests@[j].0 != requests@[i].0)
            && (!cache@.contains_key(requests@[i].0) || !fresh@.contains(requests@[i].0)
                || cache@[requests@[i].0].quality.spec_rank() < requests@[i].1.spec_rank())
            ==> r@.contains(requests@[i]),
        forall|k: int| 0 <= k < r@.len() ==> requests@.contains(#[trigger] r@[k]) && !old(loading)@.contains(r@[k].0)
            && (!cache@.contains_key(r@[k].0) || !fresh@.contains(r@[k].0)
                || cache@[r@[k].0].quality.spec_rank() < r@[k].1.spec_rank()),
{
    proof {
        render_plan_is_exact(requests@, old(loading)@, cache@, fresh@);
    }
    let mut r: Vec<(usize, RenderQuality)> = Vec::new();
    let mut i: usize = 0;
    while i < requests.len()
        invariant
            cache.wf(),
            i <= requests@.len(),
            r@ == pages_to_render(requests@.take(i as int), old(loading)@, cache@, fresh@),
            loading@ == old(loading)@ + request_pages(r@).to_set(),
        decreases requests@.len() - i,
    {
        let (page, q) = requests[i];
        let ghost before_r = r@;
        proof {
            assert(requests@.take(i + 1).drop_last() =~= requests@.take(i as int));
            assert(requests@.take(i + 1).last() == requests@[i as int]);
            assert(loading@.contains(page) == (old(loading)@.contains(page) || request_pages(r@).contains(page)));
        }
        if !loading.contains(&page) {
            let fresh_here = contains_page(fresh, page);
            if cache.needs_render(page, q, fresh_here) {
                loading.insert(page);
                r.push((page, q));
            }
        }
        proof {
            assert(r@ == pages_to_render(requests@.take(i + 1), old(loading)@, cache@, fresh@));
            let m = request_pages(r@);
            let bm = request_pages(before_r);
            if r@.len() > before_r.len() {
                assert(m =~= bm.push(page));
                assert forall|x: usize| #[trigger] m.to_set().contains(x) == (bm.to_set().contains(x) || x == page) by {
                    if m.to_set().contains(x) {
                        let j = choose|j: int| 0 <= j < m.len() && m[j] == x;
                        if j < bm.len() {
                            assert(bm[j] == x);
                        }
                    }
                    if bm.to_set().contains(x) {
                        let j = choose|j: int| 0 <= j < bm.len() && bm[j] == x;
                        assert(m[j] == x);
                    }
                    if x == page {
                        assert(m[m.len() - 1] == x);
                    }
                }
                assert(loading@ =~= old(loading)@ + m.to_set());
            } else {
                assert(m =~= bm);
                assert(loading@ =~= old(loading)@ + m.to_set());
            }
        }
        i = i + 1;
    }
    assert(requests@.take(i as int) =~= requests@);
    r
}


/// Keeps every element but `page`.
pub open spec fn not_page(page: usize) -> spec_fn(usize) -> bool {
    |x: usize| x != page
}

proof fn lemma_filter_out(o: Seq<usize>, page: usize)
    requires
        o.no_duplicates(),
    ensures
        o.filter(not_page(page)).no_duplicates(),
        forall|x: usize| #[trigger] o.filter(not_page(page)).contains(x) == (o.contains(x) && x != page),
        o.filter(not_page(page)).to_set() == o.to_set().remove(page),
    decreases o.len(),
{
    reveal_with_fuel(Seq::<usize>::filter, 1);
    let f = o.filter(not_page(page));
    if o.len() > 0 {
        let d = o.drop_last();
        lemma_filter_out(d, page);
        let fd = d.filter(not_page(page));
        assert forall|x: usize| #[trigger] f.contains(x) == (o.contains(x) && x != page) by {
            if o.contains(x) && x != page {
                let j = choose|j: int| 0 <= j < o.len() && o[j] == x;
                if j < d.len() {
                    assert(d[j] == x);
                    assert(fd.contains(x));
                    let t = choose|t: int| 0 <= t < fd.len() && fd[t] == x;
                    assert(f[t] == x);
                } else {
                    assert(f[f.len() - 1] == x);
                }
            }
            if f.contains(x) {
                let t = choose|t: int| 0 <= t < f.len() && f[t] == x;
                if t < fd.len() {
                    assert(fd[t] == x);
                    assert(fd.contains(x));
                    assert(d.contains(x));
                    let j = choose|j: int| 0 <= j < d.len() && d[j] == x;
                    assert(d[j] == o[j]);
                    assert(o[j] == x);
                } else {
                    assert(o[o.len() - 1] == x);
                }
            }
        }
        assert(f.no_duplicates()) by {
            if not_page(page)(o.last()) {
                assert(!d.contains(o.last()));
                assert(!fd.contains(o.last()));
                assert forall|p: int, q: int| 0 <= p < q < f.len() implies f[p] != f[q] by {
                    if q == f.len() - 1 {
                        assert(fd[p] == f[p]);
                    } else {
                        assert(fd[p] == f[p] && fd[q] == f[q]);
                    }
                }
            }
        }
    }
    assert(f.to_set() =~= o.to_set().remove(page));
}

/// How many page thumbnails a tab keeps at most.
pub const MAX_THUMBNAIL_CACHE_SIZE: usize = 30;

/// Page thumbnails with their least-recently-inserted order.
#[derive(Debug)]
pub struct ThumbnailCache<H> {
    images: HashMap<usize, H>,
    lru_order: VecDeque<usize>,
}

impl<H> ThumbnailCache<H> {
    pub closed spec fn wf(&self) -> bool {
        self.images@.dom().finite()
    }

    /// The thumbnails held, by page.
    pub closed spec fn images(&self) -> Map<usize, H> {
        self.images@
    }

    /// Pages in the order they were last inserted, oldest first.
    pub closed spec fn order(&self) -> Seq<usize> {
        self.lru_order@
    }

    /// The order lists exactly the held pages, each once.
    pub open spec fn synced(&self) -> bool {
        &&& self.images().dom() == self.order().to_set()
        &&& self.order().no_duplicates()
    }

    pub fn new() -> (r: Self)
        ensures
            r.wf(),
            r.images() == Map::<usize, H>::empty(),
            r.order() == Seq::<usize>::empty(),
    {
        ThumbnailCache { images: HashMap::new(), lru_order: VecDeque::new() }
    }

    pub fn len(&self) -> (r: usize)
        requires
            self.wf(),
        ensures
            r == self.images().len(),
            self.images().dom().finite(),
    {
        self.images.len()
    }

    pub fn contains(&self, page: usize) -> (r: bool)
        requires
            self.wf(),
        ensures
            r == self.images().contains_key(page),
    {
        self.images.contains_key(&page)
    }

    pub fn get(&self, page: usize) -> (r: Option<&H>)
        requires
            self.wf(),
        ensures
            match r {
                Some(h) => self.images().contains_key(page) && self.images()[page] == *h,
                None => !self.images().contains_key(page),
            },
    {
        self.images.get(&page)
    }

    /// Drops the thumbnails; the insertion order is left as it was.
    pub fn clear_images(&mut self)
        requires
            old(self).wf(),
        ensures
            final(self).wf(),
            final(self).images() == Map::<usize, H>::empty(),
            final(self).order() == old(self).order(),
    {
        self.images.clear();
    }

    /// Stores a thumbnail as the most recent one. A page already held moves
    /// to the back of the order; otherwise, with the cache full, the oldest
    /// page in the order is dropped first.
    pub fn insert_thumbnail(&mut self, page: usize, handle: H)
        requires
            old(self).wf(),
        ensures
            final(self).wf(),
            final(self).images() == (if old(self).images().contains_key(page) {
                old(self).images()
            } else if old(self).images().len() >= MAX_THUMBNAIL_CACHE_SIZE && old(self).order().len() > 0 {
                old(self).images().remove(old(self).order()[0])
            } else {
                old(self).images()
            }).insert(page, handle),
            final(self).order() == (if old(self).images().contains_key(page) {
                old(self).order().filter(not_page(page))
            } else if old(self).images().len() >= MAX_THUMBNAIL_CACHE_SIZE && old(self).order().len() > 0 {
                old(self).order().drop_first()
            } else {
                old(self).order()
            }).push(page),
            old(self).synced() && old(self).images().len() <= MAX_THUMBNAIL_CACHE_SIZE ==> {
                &&& final(self).synced()
                &&& final(self).images().len() <= MAX_THUMBNAIL_CACHE_SIZE
            },
    {
        if self.images.contains_key(&page) {
            let mut kept: VecDeque<usize> = VecDeque::new();
            let mut i: usize = 0;
            while i < self.lru_order.len()
                invariant
                    i <= self.lru_order@.len(),
                    kept@ == self.lru_order@.take(i as int).filter(not_page(page)),
                decreases self.lru_order@.len() - i,
            {
                proof {
                    assert(self.lru_order@.take(i + 1).drop_last() =~= self.lru_order@.take(i as int));
                    reveal_with_fuel(Seq::<usize>::filter, 1);
                }
                let p = self.lru_order[i];
                if p != page {
                    kept.push_back(p);
                }
                i = i + 1;
            }
            proof {
                assert(self.lru_order@.take(i as int) =~= self.lru_order@);
            }
            self.lru_order = kept;
        } else if self.images.len() >= MAX_THUMBNAIL_CACHE_SIZE {
            if let Some(oldest) = self.lru_order.pop_front() {
                self.images.remove(&oldest);
                proof {
                    assert(self.lru_order@ =~= old(self).lru_order@.drop_first());
                }
            }
        }
        let ghost mid_images = self.images@;
        let ghost mid_order = self.lru_order@;
        self.images.insert(page, handle);
        self.lru_order.push_back(page);
        proof {
            let o = old(self).lru_order@;
            if old(self).synced() && old(self).images@.len() <= MAX_THUMBNAIL_CACHE_SIZE {
                if old(self).images@.contains_key(page) {
                    let f = o.filter(not_page(page));
                    lemma_filter_out(o, page);
                    assert(mid_images.dom() =~= f.to_set().insert(page));
                    assert(self.lru_order@.to_set() =~= f.to_set().insert(page)) by {
                        assert(self.lru_order@ == f.push(page));
                        f.lemma_push_to_set_commute(page);
                    }
                    assert(self.lru_order@.no_duplicates()) by {
                        assert(!f.contains(page));
                    }
                } else if old(self).images@.len() >= MAX_THUMBNAIL_CACHE_SIZE && o.len() > 0 {
                    let d = o.drop_first();
                    assert(o.to_set().contains(o[0]));
                    assert(mid_images.dom() =~= d.to_set()) by {
                        assert forall|x: usize| #[trigger] d.to_set().contains(x) == (o.to_set().contains(x) && x != o[0]) by {
                            if o.to_set().contains(x) && x != o[0] {
                                let j = choose|j: int| 0 <= j < o.len() && o[j] == x;
                                assert(j > 0);
                                assert(d[j - 1] == x);
                            }
                            if d.to_set().contains(x) {
                                let j = choose|j: int| 0 <= j < d.len() && d[j] == x;
                                assert(o[j + 1] == x);
                            }
                        }
                    }
                    assert(!d.contains(page));
                    d.lemma_push_to_set_commute(page);
                    assert(self.lru_order@.to_set() =~= mid_images.dom().insert(page));
                    assert(mid_images.len() + 1 == old(self).images@.len()) by {
                        assert(mid_images.dom() =~= old(self).images@.dom().remove(o[0]));
                    }
                    assert(self.lru_order@.no_duplicates()) by {
                        assert forall|p: int, q: int| 0 <= p < q < self.lru_order@.len() implies self.lru_order@[p] != self.lru_order@[q] by {
                            if q < d.len() {
                                assert(o[p + 1] != o[q + 1]);
                            }
                        }
                    }
                } else {
                    assert(!o.contains(page));
                    o.lemma_push_to_set_commute(page);
                    assert(self.lru_order@.to_set() =~= mid_images.dom().insert(page));
                    assert(self.lru_order@.no_duplicates());
                }
                assert(self.images@.dom() =~= self.lru_order@.to_set());
                if old(self).images@.contains_key(page) {
                    assert(self.images@.dom() =~= old(self).images@.dom());
                } else {
                    assert(self.images@.dom() =~= mid_images.dom().insert(page));
                    assert(!mid_images.dom().contains(page));
                    if old(self).images@.len() >= MAX_THUMBNAIL_CACHE_SIZE {
                        assert(old(self).images@.dom().len() > 0);
                        if o.len() == 0 {
                            assert(o.to_set() =~= Set::<usize>::empty());
                        }
                        assert(mid_images.dom() =~= old(self).images@.dom().remove(o[0]));
                    }
                }
            }
        }
    }
}


/// How many thumbnails may be rendering at once.
pub const MAX_CONCURRENT_THUMBNAILS: usize = 8;

/// The order in which thumbnails around `center` are wanted: nearer pages
/// first, and of two pages equally far the lower one first.
pub open spec fn thumb_rank(p: usize, center: usize) -> int {
    if p == center {
        0
    } else if p < center {
        2 * (center - p) - 1
    } else {
        2 * (p - center)
    }
}

/// A page whose thumbnail may be requested: within six pages before and
/// seven after `center`, in the document, neither held nor loading.
pub open spec fn is_thumb_candidate(p: usize, center: usize, total: usize, held: Set<usize>, loading: Set<usize>) -> bool {
    &&& (if center >= 6 { center - 6 } else { 0 }) <= p
    &&& p < center + 8
    &&& p < total
    &&& !held.contains(p)
    &&& !loading.contains(p)
}

/// A thumbnail is only ever requested for a page of the document, no more
/// than six pages before `center` and seven after it, neither held nor
/// already loading.
pub proof fn thumbnail_candidates_lie_in_document(p: usize, center: usize, total: usize, held: Set<usize>, loading: Set<usize>)
    ensures
        is_thumb_candidate(p, center, total, held, loading) ==> {
            &&& p < total
            &&& p + 6 >= center
            &&& p <= center + 7
            &&& !held.contains(p)
            &&& !loading.contains(p)
        },
        p < total && p + 6 >= center && p <= center + 7 && !held.contains(p) && !loading.contains(p)
            ==> is_thumb_candidate(p, center, total, held, loading),
{
}

/// Picks the thumbnails to render next around page `center` and marks them
/// as loading: no more than the free rendering slots, taken in
/// `thumb_rank` order.
pub fn thumbnail_requests<H>(
    center: usize,
    total: usize,
    cache: &ThumbnailCache<H>,
    loading: &mut HashSet<usize>,
) -> (r: Vec<usize>)
    requires
        cache.wf(),
        center + 8 <= usize::MAX,
    ensures
        old(loading)@.len() >= MAX_CONCURRENT_THUMBNAILS || total == 0 ==> r@.len() == 0,
        final(loading)@ == old(loading)@ + r@.to_set(),
        old(loading)@.len() < MAX_CONCURRENT_THUMBNAILS ==> r@.len() <= MAX_CONCURRENT_THUMBNAILS - old(loading)@.len(),
        forall|i: int| 0 <= i < r@.len() ==> is_thumb_candidate(#[trigger] r@[i], center, total, cache.images().dom(), old(loading)@),
        forall|i: int| 0 <= i < r@.len() ==> #[trigger] r@[i] < total && r@[i] < center + 8 && r@[i] + 6 >= center,
        forall|i: int, j: int| 0 <= i < j < r@.len() ==> thumb_rank(#[trigger] r@[i], center) < thumb_rank(#[trigger] r@[j], center),
        forall|p: usize| #[trigger] is_thumb_candidate(p, center, total, cache.images().dom(), old(loading)@) && !r@.contains(p)
            && old(loading)@.len() < MAX_CONCURRENT_THUMBNAILS
            ==> r@.len() == MAX_CONCURRENT_THUMBNAILS - old(loading)@.len()
            && forall|i: int| 0 <= i < r@.len() ==> thumb_rank(#[trigger] r@[i], center) < thumb_rank(p, center),
{
    let mut r: Vec<usize> = Vec::new();
    if loading.len() >= MAX_CONCURRENT_THUMBNAILS || total == 0 {
        assert(r@.to_set() =~= Set::<usize>::empty());
        assert(loading@ =~= old(loading)@ + r@.to_set());
        return r;
    }
    let avail = MAX_CONCURRENT_THUMBNAILS - loading.len();
    let lo = if center >= 6 { center - 6 } else { 0 };
    let hi = if center + 8 <= total { center + 8 } else { total };
    let ghost held = cache.images().dom();
    let mut t: usize = 0;
    while t <= 16 && r.len() < avail
        invariant
            cache.wf(),
            held == cache.images().dom(),
            avail == MAX_CONCURRENT_THUMBNAILS - old(loading)@.len(),
            lo == (if center >= 6 { center - 6 } else { 0 }),
            hi == (if center + 8 <= total { center + 8 } else { total as int }),
            center + 8 <= usize::MAX,
            t <= 17,
            r@.len() <= avail,
            loading@ == old(loading)@ + r@.to_set(),
            forall|i: int| 0 <= i < r@.len() ==> is_thumb_candidate(#[trigger] r@[i], center, total, held, old(loading)@),
            forall|i: int| 0 <= i < r@.len() ==> thumb_rank(#[trigger] r@[i], center) < t,
            forall|i: int, j: int| 0 <= i < j < r@.len() ==> thumb_rank(#[trigger] r@[i], center) < thumb_rank(#[trigger] r@[j], center),
            forall|p: usize| #[trigger] is_thumb_candidate(p, center, total, held, old(loading)@) && thumb_rank(p, center) < t
                ==> r@.contains(p),
        decreases 17 - t,
    {
        let d = (t + 1) / 2;
        let below = t % 2 == 1;
        let valid = t == 0 || !below || center >= d;
        if valid {
            let p = if t == 0 { center } else if below { center - d } else { center + d };
            proof {
                assert(thumb_rank(p, center) == t);
                assert(!r@.contains(p)) by {
                    if r@.contains(p) {
                        let i = choose|i: int| 0 <= i < r@.len() && r@[i] == p;
                        assert(thumb_rank(r@[i], center) < t);
                    }
                }
                assert(loading@.contains(p) == old(loading)@.contains(p));
            }
            if lo <= p && p < hi && !cache.contains(p) && !loading.contains(&p) {
                let ghost before = r@;
                loading.insert(p);
                r.push(p);
                proof {
                    before.lemma_push_to_set_commute(p);
                    assert(loading@ =~= old(loading)@ + r@.to_set());
                    assert forall|q: usize| #[trigger] is_thumb_candidate(q, center, total, held, old(loading)@) && thumb_rank(q, center) < t + 1
                        implies r@.contains(q) by {
                        if thumb_rank(q, center) < t {
                            assert(before.contains(q));
                            let i = choose|i: int| 0 <= i < before.len() && before[i] == q;
                            assert(r@[i] == q);
                        } else {
                            assert(q == p);
                            assert(r@[r@.len() - 1] == q);
                        }
                    }
                }
            } else {
                proof {
                    assert forall|q: usize| #[trigger] is_thumb_candidate(q, center, total, held, old(loading)@) && thumb_rank(q, center) < t + 1
                        implies r@.contains(q) by {
                        if thumb_rank(q, center) == t {
                            assert(q == p);
                        }
                    }
                }
            }
        } else {
            proof {
                assert forall|q: usize| #[trigger] is_thumb_candidate(q, center, total, held, old(loading)@) && thumb_rank(q, center) < t + 1
                    implies r@.contains(q) by {
                    if thumb_rank(q, center) == t {
                        assert(q < center);
                    }
                }
            }
        }
        t = t + 1;
    }
    proof {
        assert forall|p: usize| #[trigger] is_thumb_candidate(p, center, total, held, old(loading)@) && !r@.contains(p)
            implies r@.len() == avail && forall|i: int| 0 <= i < r@.len() ==> thumb_rank(#[trigger] r@[i], center) < thumb_rank(p, center) by {
            assert(thumb_rank(p, center) <= 14);
        }
    }
    r
}

} // verus!
