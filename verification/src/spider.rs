//! Spidering: the variant of discovery that follows relative links and
//! keeps every distinct URL, not only distinct hosts.
//!
//! A fetched document is split on `<`; each fragment can contribute one
//! candidate: the text between `"/` (without the quote) and the next
//! quote, resolved against the page's own URL by standard URL-join
//! semantics. The spider engine expands level by level like the active
//! engine, but deduplicates by full URL and applies no scope filter.

use vstd::prelude::*;

use crate::common::dedupe_by_url;
use crate::strings::contains_sub;
use crate::strings::find_char;
use crate::strings::find_char_at;
use crate::strings::find_sub;
use crate::strings::find_sub_at;
use crate::strings::lemma_find_sub_at;
use crate::strings::split_at_char;
use crate::strings::split_on;
use crate::urls::join_of;
use crate::urls::Url;
use crate::urls::UrlV;

verus! {

/// Why no link came out of a line.
#[derive(Clone, Copy, Debug, PartialEq, Eq, Structural)]
pub enum ExtractError {
    /// The line holds no quoted `/`-path candidate.
    NoCandidate,
    /// The candidate does not resolve against the base URL.
    InvalidJoin,
}

/// The candidate token of one `<`-delimited fragment: the text after the
/// first `"/` (keeping the `/`), up to and not including the next `"`.
pub open spec fn rel_token_of(f: Seq<char>) -> Option<Seq<char>> {
    match find_sub_at(f, "\"/"@) {
        None => None,
        Some(i) => match find_char_at(f.skip(i + 1), '"') {
            None => None,
            Some(j) => Some(f.subrange(i + 1, i + 1 + j)),
        },
    }
}

/// The URLs that the fragments' candidate tokens resolve to against
/// `base`, in order.
pub open spec fn rel_candidates_of_frags(base: UrlV, frags: Seq<Seq<char>>) -> Seq<UrlV>
    decreases frags.len(),
{
    if frags.len() == 0 {
        Seq::empty()
    } else {
        let rest = rel_candidates_of_frags(base, frags.drop_last());
        match rel_token_of(frags.last()) {
            Some(t) => match join_of(base.text, t) {
                Some(u) => rest.push(u),
                None => rest,
            },
            None => rest,
        }
    }
}

/// The resolved link candidates of a document body fetched from `base`.
pub open spec fn rel_candidates_of(base: UrlV, body: Seq<char>) -> Seq<UrlV> {
    rel_candidates_of_frags(base, split_at_char(body, '<'))
}

/// Extracts the one link candidate of a line and resolves it against
/// `domain`; says why when there is none.
pub fn extract_link(line: &str, domain: &Url) -> (r: Result<Url, ExtractError>)
    ensures
        match rel_token_of(line@) {
            Some(t) => match join_of(domain@.text, t) {
                Some(v) => r matches Ok(u) && u@ == v,
                None => r == Err::<Url, ExtractError>(ExtractError::InvalidJoin),
            },
            None => r == Err::<Url, ExtractError>(ExtractError::NoCandidate),
        },
{
    match find_sub(line, "\"/") {
        Some(idx) => {
            proof {
                reveal_strlit("\"/");
                lemma_find_sub_at(line@, "\"/"@);
            }
            let n: usize = line.unicode_len();
            let restline: &str = line.substring_char(idx + 1, n);
            proof {
                assert(restline@ =~= line@.skip(idx + 1));
            }
            match find_char(restline, '"') {
                Some(end) => {
                    proof {
                        crate::strings::lemma_find_char_at(restline@, '"');
                    }
                    let token: &str = line.substring_char(idx + 1, idx + 1 + end);
                    match domain.join(token) {
                        Some(u) => Ok(u),
                        None => Err(ExtractError::InvalidJoin),
                    }
                },
                None => Err(ExtractError::NoCandidate),
            }
        },
        None => Err(ExtractError::NoCandidate),
    }
}

/// Collects the distinct resolved links of a body fetched from `domain`,
/// in first-seen order.
pub fn check_for_links(domain: &Url, body: &str) -> (r: Vec<Url>)
    ensures
        r.deep_view() == dedupe_by_url(rel_candidates_of(domain@, body@)),
{
    let frags: Vec<String> = split_on(body, '<');
    let ghost fv: Seq<Seq<char>> = frags.deep_view();
    let mut ret: Vec<Url> = Vec::new();
    let mut i: usize = 0;
    while i < frags.len()
        invariant
            0 <= i <= frags.len(),
            fv == frags.deep_view(),
            ret.deep_view() == rel_candidates_of_frags(domain@, fv.take(i as int)),
        decreases frags.len() - i,
    {
        let ghost prev: Seq<UrlV> = ret.deep_view();
        proof {
            assert(fv.take(i + 1).drop_last() =~~= fv.take(i as int));
            assert(fv.take(i + 1).last() == fv[i as int]);
            assert(fv[i as int] == frags@[i as int]@);
        }
        let line: &str = frags[i].as_str();
        if contains_sub(line, "\"/") {
            match extract_link(line, domain) {
                Ok(u) => {
                    ret.push(u);
                    proof {
                        assert(ret.deep_view() =~~= prev.push(
                            join_of(domain@.text, rel_token_of(fv[i as int])->0)->0,
                        ));
                    }
                },
                Err(_) => {},
            }
        } else {
            proof {
                lemma_find_sub_at(line@, "\"/"@);
            }
        }
        i += 1;
    }
    proof {
        assert(fv.take(frags.len() as int) =~~= fv);
    }
    crate::common::clear_dup_url(ret)
}

/// What one spider level's bodies contribute before the level-wide
/// deduplication: each page's distinct resolved links, in frontier order;
/// a member whose fetch failed contributes nothing.
pub open spec fn spider_level_urls(
    frontier: Seq<UrlV>,
    bodies: Seq<Option<Seq<char>>>,
) -> Seq<UrlV>
    decreases bodies.len(),
{
    if bodies.len() == 0 {
        Seq::empty()
    } else {
        let rest = spider_level_urls(frontier.drop_last(), bodies.drop_last());
        match bodies.last() {
            Some(b) => rest + dedupe_by_url(rel_candidates_of(frontier.last(), b)),
            None => rest,
        }
    }
}

/// The next frontier a spider level's bodies produce: the level's
/// resolved links, deduplicated by full URL.
pub open spec fn spider_level_frontier(
    frontier: Seq<UrlV>,
    bodies: Seq<Option<Seq<char>>>,
) -> Seq<UrlV> {
    dedupe_by_url(spider_level_urls(frontier, bodies))
}

/// Mathematical view of a [`Spider`].
#[verifier::ext_equal]
pub struct SpiderV {
    pub frontier: Seq<UrlV>,
    pub results: Seq<UrlV>,
    pub level: int,
    pub max_depth: int,
    pub done: bool,
}

/// The spidering engine: expands level by level like the active engine,
/// but follows every resolved link and deduplicates by full URL.
pub struct Spider {
    frontier: Vec<Url>,
    results: Vec<Url>,
    level: u16,
    max_depth: u16,
    done: bool,
}

impl View for Spider {
    type V = SpiderV;

    closed spec fn view(&self) -> SpiderV {
        SpiderV {
            frontier: self.frontier.deep_view(),
            results: self.results.deep_view(),
            level: self.level as int,
            max_depth: self.max_depth as int,
            done: self.done,
        }
    }
}

impl Spider {
    /// The spider never stands past its depth ceiling, and at the
    /// ceiling it is done.
    pub open spec fn wf(self) -> bool {
        &&& 0 <= self@.level <= self@.max_depth
        &&& self@.level == self@.max_depth ==> self@.done
    }

    /// Seeds a crawl at `start`.
    pub fn new(start: &Url, max_depth: u16) -> (s: Spider)
        ensures
            s.wf(),
            s@.frontier == seq![start@],
            s@.results == Seq::<UrlV>::empty(),
            s@.level == 0,
            s@.max_depth == max_depth as int,
            s@.done == (max_depth == 0),
    {
        let s = Spider {
            frontier: vec![start.clone()],
            results: Vec::new(),
            level: 0,
            max_depth,
            done: max_depth == 0,
        };
        proof {
            assert(s@.frontier =~~= seq![start@]);
            assert(s@.results =~~= Seq::<UrlV>::empty());
        }
        s
    }

    /// The URLs the caller must fetch for the current level.
    pub fn frontier(&self) -> (r: &Vec<Url>)
        ensures
            r.deep_view() == self@.frontier,
    {
        &self.frontier
    }

    /// Whether the crawl has reached its terminal state.
    pub fn is_done(&self) -> (r: bool)
        ensures
            r == self@.done,
    {
        self.done
    }

    /// How many levels have been expanded.
    pub fn level(&self) -> (r: u16)
        ensures
            r as int == self@.level,
    {
        self.level
    }

    /// Every URL gathered so far, in the order the levels found them;
    /// distinct within a level, though two levels may repeat a URL.
    pub fn results(&self) -> (r: &Vec<Url>)
        ensures
            r.deep_view() == self@.results,
    {
        &self.results
    }

    /// Law: a crawl performs at most `max_depth` expansions. While a
    /// well-formed spider is not done its level is strictly below the
    /// ceiling, and `process_level` both requires a crawl that is not
    /// done and raises the level by exactly one.
    pub proof fn lemma_depth_bound(s: Spider)
        requires
            s.wf(),
            !s@.done,
        ensures
            s@.level < s@.max_depth,
    {
    }

    /// Expands one level. `bodies` pairs with the current frontier: the
    /// fetched body of each member, or `None` where the fetch failed,
    /// which skips that member and nothing else.
    ///
    /// The new frontier is the level's resolved links deduplicated by
    /// full URL; it is appended to the results. The crawl is done when
    /// the depth ceiling is reached or the new frontier is empty.
    pub fn process_level(&mut self, bodies: &Vec<Option<String>>)
        requires
            old(self).wf(),
            !old(self)@.done,
            bodies@.len() == old(self)@.frontier.len(),
        ensures
            final(self).wf(),
            final(self)@.max_depth == old(self)@.max_depth,
            final(self)@.level == old(self)@.level + 1,
            final(self)@.frontier == spider_level_frontier(
                old(self)@.frontier,
                bodies.deep_view(),
            ),
            final(self)@.results == old(self)@.results + final(self)@.frontier,
            final(self)@.done == (final(self)@.level == final(self)@.max_depth
                || final(self)@.frontier.len() == 0),
    {
        let ghost bv: Seq<Option<Seq<char>>> = bodies.deep_view();
        let ghost fr: Seq<UrlV> = self.frontier.deep_view();
        let mut next: Vec<Url> = Vec::new();
        let mut i: usize = 0;
        while i < bodies.len()
            invariant
                0 <= i <= bodies.len(),
                bv == bodies.deep_view(),
                fr == self.frontier.deep_view(),
                bodies@.len() == self.frontier.deep_view().len(),
                self.frontier == old(self).frontier,
                self.results == old(self).results,
                self.level == old(self).level,
                self.max_depth == old(self).max_depth,
                self.done == old(self).done,
                next.deep_view() == spider_level_urls(fr.take(i as int), bv.take(i as int)),
            decreases bodies.len() - i,
        {
            let ghost prev: Seq<UrlV> = next.deep_view();
            proof {
                assert(bv.take(i + 1).drop_last() =~~= bv.take(i as int));
                assert(bv.take(i + 1).last() == bv[i as int]);
                assert(fr.take(i + 1).drop_last() =~~= fr.take(i as int));
                assert(fr.take(i + 1).last() == fr[i as int]);
                assert(bv[i as int] == bodies@[i as int].deep_view());
                assert(fr[i as int] == self.frontier@[i as int]@);
            }
            match &bodies[i] {
                Some(body) => {
                    let mut found: Vec<Url> = check_for_links(&self.frontier[i], body.as_str());
                    next.append(&mut found);
                    proof {
                        assert(next.deep_view() =~~= prev + dedupe_by_url(
                            rel_candidates_of(fr[i as int], bv[i as int]->0),
                        ));
                    }
                },
                None => {},
            }
            i += 1;
        }
        proof {
            assert(bv.take(bodies.len() as int) =~~= bv);
            assert(fr.take(bodies.len() as int) =~~= fr);
        }
        let deduped: Vec<Url> = crate::common::clear_dup_url(next);
        let mut k: usize = 0;
        let ghost base: Seq<UrlV> = self.results.deep_view();
        while k < deduped.len()
            invariant
                0 <= k <= deduped.len(),
                base == old(self).results.deep_view(),
                self.frontier == old(self).frontier,
                self.level == old(self).level,
                self.max_depth == old(self).max_depth,
                self.done == old(self).done,
                deduped.deep_view() == spider_level_frontier(fr, bv),
                fr == old(self).frontier.deep_view(),
                self.results.deep_view() == base + deduped.deep_view().take(k as int),
            decreases deduped.len() - k,
        {
            let ghost prevr: Seq<UrlV> = self.results.deep_view();
            self.results.push(deduped[k].clone());
            proof {
                assert(self.results.deep_view() =~~= prevr.push(deduped.deep_view()[k as int]));
                assert(base + deduped.deep_view().take(k + 1) =~~= prevr.push(
                    deduped.deep_view()[k as int],
                ));
            }
            k += 1;
        }
        proof {
            assert(deduped.deep_view().take(deduped.len() as int) =~~= deduped.deep_view());
        }
        self.frontier = deduped;
        self.level = self.level + 1;
        self.done = self.level == self.max_depth || self.frontier.len() == 0;
    }
}

} // verus!
