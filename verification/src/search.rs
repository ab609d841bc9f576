use vstd::prelude::*;
use crate::text::{contains_spec, contains_str, to_lower, trim, trimmed, unicode_lower};

verus! {

/// A place where the query was found: the page and the word box there.
#[derive(Clone, Debug)]
pub struct SearchMatch<Q> {
    pub page_index: usize,
    pub quad: Q,
}

/// The search bar of a tab and the matches of its last finished search.
#[derive(Debug)]
pub struct SearchState<Q> {
    pub is_open: bool,
    pub query: String,
    pub match_case: bool,
    pub matches: Vec<SearchMatch<Q>>,
    pub current_idx: usize,
}

/// What a text is compared with: the trimmed query, lower-cased unless case
/// must match; nothing when the trimmed query is empty.
pub open spec fn search_key_spec(query: Seq<char>, match_case: bool) -> Option<Seq<char>> {
    let t = trimmed(query);
    if t.len() == 0 {
        None
    } else if match_case {
        Some(t)
    } else {
        Some(unicode_lower(t))
    }
}

/// A word's text matches when it contains the key, compared lower-cased
/// unless case must match.
pub open spec fn text_matches_spec(text: Seq<char>, key: Seq<char>, match_case: bool) -> bool {
    contains_spec(if match_case { text } else { unicode_lower(text) }, key)
}

/// The positions of the matching words of a page, in order.
pub open spec fn page_matches_spec(texts: Seq<Seq<char>>, key: Seq<char>, match_case: bool) -> Seq<usize> {
    Seq::new(texts.len(), |i: int| i as usize).filter(|i: usize| text_matches_spec(texts[i as int], key, match_case))
}

/// The match index counted as current: the stored one, clamped to the last.
pub open spec fn clamped_index(idx: usize, len: nat) -> int {
    if idx < len { idx as int } else { len - 1 }
}

/// What the words of a document are compared with for `query`.
pub fn search_key(query: &str, match_case: bool) -> (r: Option<String>)
    ensures
        match search_key_spec(query@, match_case) {
            Some(k) => r is Some && r.unwrap()@ == k,
            None => r is None,
        },
{
    let t = trim(query);
    if t.as_str().is_empty() {
        None
    } else if match_case {
        Some(t)
    } else {
        Some(to_lower(t.as_str()))
    }
}

/// Whether a word matches the search key.
pub fn text_matches(text: &str, key: &str, match_case: bool) -> (r: bool)
    ensures
        r == text_matches_spec(text@, key@, match_case),
{
    if match_case {
        contains_str(text, key)
    } else {
        let low = to_lower(text);
        contains_str(low.as_str(), key)
    }
}

/// The positions of the words of a page that match the key, in order.
pub fn page_matches(texts: &Vec<String>, key: &str, match_case: bool) -> (r: Vec<usize>)
    ensures
        r@ == page_matches_spec(texts@.map_values(|t: String| t@), key@, match_case),
{
    let ghost tv = texts@.map_values(|t: String| t@);
    let ghost idx = Seq::new(tv.len(), |i: int| i as usize);
    let ghost pred = |i: usize| text_matches_spec(tv[i as int], key@, match_case);
    let mut r: Vec<usize> = Vec::new();
    let mut i: usize = 0;
    while i < texts.len()
        invariant
            tv == texts@.map_values(|t: String| t@),
            idx == Seq::new(tv.len(), |i: int| i as usize),
            pred == (|i: usize| text_matches_spec(tv[i as int], key@, match_case)),
            i <= texts@.len(),
            r@ == idx.take(i as int).filter(pred),
        decreases texts@.len() - i,
    {
        proof {
            assert(idx.take(i + 1).drop_last() =~= idx.take(i as int));
            assert(idx.take(i + 1).last() == i);
            reveal_with_fuel(Seq::<usize>::filter, 1);
        }
        if text_matches(texts[i].as_str(), key, match_case) {
            r.push(i);
        }
        i = i + 1;
    }
    assert(idx.take(i as int) =~= idx);
    r
}

impl<Q> SearchState<Q> {
    pub fn new() -> (r: SearchState<Q>)
        ensures
            !r.is_open,
            r.query@.len() == 0,
            !r.match_case,
            r.matches@.len() == 0,
            r.current_idx == 0,
    {
        SearchState { is_open: false, query: String::new(), match_case: false, matches: Vec::new(), current_idx: 0 }
    }

    /// A finished search arrives; it is kept only if it was run for the query
    /// now in the box (trimmed), and then its first match becomes current.
    pub fn complete(&mut self, query: &str, matches: Vec<SearchMatch<Q>>) -> (accepted: bool)
        ensures
            accepted == (trimmed(old(self).query@) == query@),
            accepted ==> final(self).matches@ == matches@ && final(self).current_idx == 0,
            !accepted ==> final(self).matches@ == old(self).matches@
                && final(self).current_idx == old(self).current_idx,
            final(self).query == old(self).query,
            final(self).is_open == old(self).is_open,
            final(self).match_case == old(self).match_case,
    {
        let t = trim(self.query.as_str());
        if crate::text::str_eq(t.as_str(), query) {
            self.matches = matches;
            self.current_idx = 0;
            true
        } else {
            false
        }
    }

    /// Steps to the next match, wrapping round; nothing happens without
    /// matches.
    pub fn next_match(&mut self)
        requires
            old(self).current_idx < usize::MAX,
        ensures
            final(self).current_idx == (if old(self).matches@.len() > 0 {
                ((old(self).current_idx + 1) % (old(self).matches@.len() as int)) as usize
            } else {
                old(self).current_idx
            }),
            final(self).matches@ == old(self).matches@,
            final(self).query == old(self).query,
            final(self).is_open == old(self).is_open,
            final(self).match_case == old(self).match_case,
    {
        let len = self.matches.len();
        if len > 0 {
            self.current_idx = (self.current_idx + 1) % len;
        }
    }

    /// Steps to the previous match, wrapping round; nothing happens without
    /// matches.
    pub fn prev_match(&mut self)
        ensures
            final(self).current_idx == (if old(self).matches@.len() > 0 {
                if old(self).current_idx == 0 { (old(self).matches@.len() - 1) as usize } else { (old(self).current_idx - 1) as usize }
            } else {
                old(self).current_idx
            }),
            final(self).matches@ == old(self).matches@,
            final(self).query == old(self).query,
            final(self).is_open == old(self).is_open,
            final(self).match_case == old(self).match_case,
    {
        let len = self.matches.len();
        if len > 0 {
            self.current_idx = if self.current_idx == 0 { len - 1 } else { self.current_idx - 1 };
        }
    }

    /// The match to show: the current one, clamped to the last; none
    /// without matches.
    pub fn current_match(&self) -> (r: Option<&SearchMatch<Q>>)
        ensures
            self.matches@.len() == 0 ==> r is None,
            self.matches@.len() > 0 ==> r == Some(&self.matches@[clamped_index(self.current_idx, self.matches@.len())]),
    {
        let len = self.matches.len();
        if len == 0 {
            None
        } else {
            let i = if self.current_idx < len { self.current_idx } else { len - 1 };
            Some(&self.matches[i])
        }
    }

    /// The positions, among the matches, of those on `page`, in order.
    pub fn matches_on_page(&self, page: usize) -> (r: Vec<usize>)
        ensures
            r@ == Seq::new(self.matches@.len(), |i: int| i as usize).filter(|i: usize| self.matches@[i as int].page_index == page),
    {
        let ghost idx = Seq::new(self.matches@.len(), |i: int| i as usize);
        let ghost pred = |i: usize| self.matches@[i as int].page_index == page;
        let mut r: Vec<usize> = Vec::new();
        let mut i: usize = 0;
        while i < self.matches.len()
            invariant
                idx == Seq::new(self.matches@.len(), |i: int| i as usize),
                pred == (|i: usize| self.matches@[i as int].page_index == page),
                i <= self.matches@.len(),
                r@ == idx.take(i as int).filter(pred),
            decreases self.matches@.len() - i,
        {
            proof {
                assert(idx.take(i + 1).drop_last() =~= idx.take(i as int));
                assert(idx.take(i + 1).last() == i);
                reveal_with_fuel(Seq::<usize>::filter, 1);
            }
            if self.matches[i].page_index == page {
                r.push(i);
            }
            i = i + 1;
        }
        assert(idx.take(i as int) =~= idx);
        r
    }

    /// The position of the match to highlight as current, if it lies on
    /// `page`.
    pub fn active_match_on_page(&self, page: usize) -> (r: Option<usize>)
        ensures
            r == (if self.matches@.len() > 0
                && self.matches@[clamped_index(self.current_idx, self.matches@.len())].page_index == page {
                Some(clamped_index(self.current_idx, self.matches@.len()) as usize)
            } else {
                None
            }),
    {
        let len = self.matches.len();
        if len == 0 {
            return None;
        }
        let i = if self.current_idx < len { self.current_idx } else { len - 1 };
        if self.matches[i].page_index == page {
            Some(i)
        } else {
            None
        }
    }
}

/// Stepping to the next match and back to the previous one returns to the
/// match one started from, and both steps stay within the matches.
pub proof fn next_then_prev_match(idx: int, len: int)
    requires
        0 <= idx < len,
    ensures
        0 <= (idx + 1) % len < len,
        (if (idx + 1) % len == 0 { len - 1 } else { (idx + 1) % len - 1 }) == idx,
{
    if idx + 1 < len {
        assert((idx + 1) % len == idx + 1) by (nonlinear_arith)
            requires 0 <= idx + 1 < len;
    } else {
        assert((idx + 1) % len == 0) by (nonlinear_arith)
            requires idx + 1 == len, len > 0;
    }
}

} // verus!
