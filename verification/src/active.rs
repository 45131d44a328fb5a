//! Active discovery: link extraction, scope filtering, and the
//! bounded-depth engine.
//!
//! A fetched document is scanned for absolute-URL candidates, the
//! candidates are filtered to the subdomains of the run's root host, and
//! the engine expands the surviving hosts level by level up to a fixed
//! depth ceiling. Fetching itself happens outside the library: the engine
//! is handed the body (or the failure) of each frontier member and decides
//! everything else.

use vstd::prelude::*;

use crate::common::canon_all;
use crate::common::canonize_hosts;
use crate::common::dedupe_by_host;
use crate::common::hosts_of;
use crate::common::vec_contains_string;
use crate::strings::contains_sub;
use crate::strings::find_char;
use crate::strings::find_char_at;
use crate::strings::find_sub;
use crate::strings::find_sub_at;
use crate::strings::has_substring;
use crate::strings::lemma_find_sub_at;
use crate::strings::split_at_char;
use crate::strings::split_on;
use crate::urls::canon_v;
use crate::urls::parse_of;
use crate::urls::Url;
use crate::urls::UrlV;

verus! {

/// Aggregate statistics of one discovery run: how many parsed candidate
/// URLs the run has observed, before filtering.
#[derive(Clone, Copy, Debug, PartialEq, Eq, Structural)]
pub struct Stats {
    pub urls: u64,
}

/// `a + n`, stopped at the counter's ceiling.
pub open spec fn sat_add(a: u64, n: nat) -> u64 {
    if a + n <= u64::MAX {
        (a + n) as u64
    } else {
        u64::MAX
    }
}

proof fn lemma_sat_add_chain(a: u64, x: nat, y: nat)
    ensures
        sat_add(sat_add(a, x), y) == sat_add(a, x + y),
{
}

/// The candidate token of one `>`-delimited fragment: the text from the
/// first `http` up to, and not including, the next `"`.
pub open spec fn token_of(f: Seq<char>) -> Option<Seq<char>> {
    match find_sub_at(f, "http"@) {
        None => None,
        Some(i) => match find_char_at(f.skip(i), '"') {
            None => None,
            Some(j) => Some(f.subrange(i, i + j)),
        },
    }
}

/// The URLs that the fragments' candidate tokens parse into, in order.
pub open spec fn candidates_of_frags(frags: Seq<Seq<char>>) -> Seq<UrlV>
    decreases frags.len(),
{
    if frags.len() == 0 {
        Seq::empty()
    } else {
        let rest = candidates_of_frags(frags.drop_last());
        match token_of(frags.last()) {
            Some(t) => match parse_of(t) {
                Some(u) => rest.push(u),
                None => rest,
            },
            None => rest,
        }
    }
}

/// The parsed candidate URLs of a document body.
pub open spec fn candidates_of(body: Seq<char>) -> Seq<UrlV> {
    candidates_of_frags(split_at_char(body, '>'))
}

/// A candidate is in scope when it has a host and the reference host
/// occurs in it as a substring.
pub open spec fn in_scope_v(reference_host: Seq<char>, candidate: UrlV) -> bool {
    match candidate.host {
        Some(h) => has_substring(h, reference_host),
        None => false,
    }
}

/// The distinct in-scope hosts of a candidate list, each at its first
/// occurrence, in order.
pub open spec fn scope_hosts(reference_host: Seq<char>, ds: Seq<UrlV>) -> Seq<Seq<char>>
    decreases ds.len(),
{
    if ds.len() == 0 {
        Seq::empty()
    } else {
        let rest = scope_hosts(reference_host, ds.drop_last());
        match ds.last().host {
            Some(h) => if has_substring(h, reference_host) && !rest.contains(h) {
                rest.push(h)
            } else {
                rest
            },
            None => rest,
        }
    }
}

/// Extracts every parsed candidate URL from a document body: the body is
/// split on `>`, and each fragment contributes the text from its first
/// `http` up to the next `"`, when that text parses as a URL.
pub fn search_body(body: &str) -> (r: Vec<Url>)
    ensures
        r.deep_view() == candidates_of(body@),
{
    let frags: Vec<String> = split_on(body, '>');
    let ghost fv: Seq<Seq<char>> = frags.deep_view();
    let mut ret: Vec<Url> = Vec::new();
    let mut i: usize = 0;
    while i < frags.len()
        invariant
            0 <= i <= frags.len(),
            fv == frags.deep_view(),
            ret.deep_view() == candidates_of_frags(fv.take(i as int)),
        decreases frags.len() - i,
    {
        let ghost prev: Seq<UrlV> = ret.deep_view();
        proof {
            assert(fv.take(i + 1).drop_last() =~~= fv.take(i as int));
            assert(fv.take(i + 1).last() == fv[i as int]);
            assert(fv[i as int] == frags@[i as int]@);
        }
        let line: &str = frags[i].as_str();
        match find_sub(line, "http") {
            Some(idx) => {
                proof {
                    lemma_find_sub_at(line@, "http"@);
                }
                let n: usize = line.unicode_len();
                let restline: &str = line.substring_char(idx, n);
                proof {
                    assert(restline@ =~= line@.skip(idx as int));
                }
                match find_char(restline, '"') {
                    Some(end) => {
                        proof {
                            crate::strings::lemma_find_char_at(restline@, '"');
                        }
                        let token: &str = line.substring_char(idx, idx + end);
                        match Url::parse(token) {
                            Some(u) => {
                                ret.push(u);
                                proof {
                                    assert(ret.deep_view() =~~= prev.push(
                                        parse_of(token_of(fv[i as int])->0)->0,
                                    ));
                                }
                            },
                            None => {},
                        }
                    },
                    None => {},
                }
            },
            None => {},
        }
        i += 1;
    }
    proof {
        assert(fv.take(frags.len() as int) =~~= fv);
    }
    ret
}

/// Filters candidates to those in scope of the reference host and keeps
/// each surviving host once, as its canonical URL, in first-seen order.
pub fn scope_filter(reference_host: &String, domains: &Vec<Url>) -> (r: Vec<Url>)
    ensures
        r.deep_view() == canon_all(scope_hosts(reference_host@, domains.deep_view())),
{
    let ghost rh: Seq<char> = reference_host@;
    let ghost dsv: Seq<UrlV> = domains.deep_view();
    let mut kept: Vec<String> = Vec::new();
    let mut i: usize = 0;
    while i < domains.len()
        invariant
            0 <= i <= domains.len(),
            rh == reference_host@,
            dsv == domains.deep_view(),
            kept.deep_view() == scope_hosts(rh, dsv.take(i as int)),
        decreases domains.len() - i,
    {
        let ghost prev: Seq<Seq<char>> = kept.deep_view();
        proof {
            assert(dsv.take(i + 1).drop_last() =~~= dsv.take(i as int));
            assert(dsv.take(i + 1).last() == dsv[i as int]);
            assert(dsv[i as int] == domains@[i as int]@);
        }
        match domains[i].host_str() {
            Some(h) => {
                let hc = h.clone();
                if contains_sub(hc.as_str(), reference_host.as_str()) {
                    if !vec_contains_string(&kept, &hc) {
                        kept.push(hc);
                        proof {
                            assert(kept.deep_view() =~~= prev.push(dsv[i as int].host->0));
                        }
                    }
                }
            },
            None => {},
        }
        i += 1;
    }
    proof {
        assert(dsv.take(domains.len() as int) =~~= dsv);
    }
    canonize_hosts(&kept)
}

/// Finds the unique in-scope subdomains of `host` among `domains`, as
/// canonical URLs in first-seen order; a reference URL without a host
/// matches nothing.
pub fn find_subdomains(host: &Url, domains: &Vec<Url>) -> (r: Vec<Url>)
    ensures
        match host@.host {
            Some(rh) => r.deep_view() == canon_all(scope_hosts(rh, domains.deep_view())),
            None => r.deep_view() == Seq::<UrlV>::empty(),
        },
{
    match host.host_str() {
        Some(h) => {
            let hc = h.clone();
            scope_filter(&hc, domains)
        },
        None => {
            let r: Vec<Url> = Vec::new();
            proof {
                assert(r.deep_view() =~~= Seq::<UrlV>::empty());
            }
            r
        },
    }
}

/// What one fetched body contributes to a run rooted at `u`: its
/// candidates, filtered to the subdomains of `u`'s host and deduplicated
/// by host; nothing when `u` has no host.
pub open spec fn subdomains_of_body(u: UrlV, body: Seq<char>) -> Seq<UrlV> {
    match u.host {
        Some(rh) => dedupe_by_host(canon_all(scope_hosts(rh, candidates_of(body)))),
        None => Seq::empty(),
    }
}

/// Processes the body fetched for `url`: counts every parsed candidate
/// into `stats`, and returns the unique in-scope subdomain hosts as
/// canonical URLs, in first-seen order.
pub fn subdomains_from_request(url: &Url, body: &str, stats: &mut Stats) -> (r: Vec<Url>)
    ensures
        r.deep_view() == subdomains_of_body(url@, body@),
        final(stats).urls == sat_add(old(stats).urls, candidates_of(body@).len()),
{
    let t: Vec<Url> = search_body(body);
    let cnt: u64 = t.len() as u64;
    if stats.urls <= u64::MAX - cnt {
        stats.urls = stats.urls + cnt;
    } else {
        stats.urls = u64::MAX;
    }
    let found: Vec<Url> = find_subdomains(url, &t);
    let r = crate::common::clear_dupes(found);
    proof {
        if url@.host is None {
            assert(r.deep_view() =~~= Seq::<UrlV>::empty());
        }
    }
    r
}

/// Whether a candidate URL string is in scope of a reference host: it
/// parses as a URL whose host contains the reference host as a substring.
pub fn in_scope(reference_host: &str, candidate: &str) -> (r: bool)
    ensures
        r == match parse_of(candidate@) {
            Some(v) => in_scope_v(reference_host@, v),
            None => false,
        },
{
    match Url::parse(candidate) {
        Some(u) => match u.host_str() {
            Some(h) => contains_sub(h.as_str(), reference_host),
            None => false,
        },
        None => false,
    }
}

/// What one level's bodies contribute before deduplication: the
/// in-scope canonical URLs of each fetched body, concatenated in frontier
/// order; a member whose fetch failed contributes nothing.
pub open spec fn level_urls(root: Seq<char>, bodies: Seq<Option<Seq<char>>>) -> Seq<UrlV>
    decreases bodies.len(),
{
    if bodies.len() == 0 {
        Seq::empty()
    } else {
        let rest = level_urls(root, bodies.drop_last());
        match bodies.last() {
            Some(b) => rest + canon_all(scope_hosts(root, candidates_of(b))),
            None => rest,
        }
    }
}

/// The next frontier a level's bodies produce: the level's in-scope
/// URLs, deduplicated by host.
pub open spec fn level_frontier(root: Seq<char>, bodies: Seq<Option<Seq<char>>>) -> Seq<UrlV> {
    dedupe_by_host(level_urls(root, bodies))
}

/// How many parsed candidates a level's bodies hold, over all successful
/// fetches.
pub open spec fn level_count(bodies: Seq<Option<Seq<char>>>) -> nat
    decreases bodies.len(),
{
    if bodies.len() == 0 {
        0
    } else {
        level_count(bodies.drop_last()) + match bodies.last() {
            Some(b) => candidates_of(b).len(),
            None => 0,
        }
    }
}

/// Every host the scope filter keeps contains the reference host.
proof fn lemma_scope_hosts_in_scope(reference_host: Seq<char>, ds: Seq<UrlV>)
    ensures
        forall|e: Seq<char>| #[trigger] scope_hosts(reference_host, ds).contains(e)
            ==> has_substring(e, reference_host),
    decreases ds.len(),
{
    if ds.len() > 0 {
        let pre = ds.drop_last();
        let rest = scope_hosts(reference_host, pre);
        lemma_scope_hosts_in_scope(reference_host, pre);
        let out = scope_hosts(reference_host, ds);
        assert forall|e: Seq<char>| #[trigger] out.contains(e) implies has_substring(
            e,
            reference_host,
        ) by {
            let k = choose|k: int| 0 <= k < out.len() && out[k] == e;
            if k < rest.len() {
                assert(rest.contains(e));
            }
        }
    }
}

/// Every host `hosts_of` lists is the host of one of the URLs.
proof fn lemma_hosts_of_members(ds: Seq<UrlV>)
    ensures
        forall|e: Seq<char>| #[trigger] hosts_of(ds).contains(e) ==> exists|k: int|
            0 <= k < ds.len() && ds[k].host == Some(e),
    decreases ds.len(),
{
    if ds.len() > 0 {
        let pre = ds.drop_last();
        lemma_hosts_of_members(pre);
        let out = hosts_of(ds);
        assert forall|e: Seq<char>| #[trigger] out.contains(e) implies exists|k: int|
            0 <= k < ds.len() && ds[k].host == Some(e) by {
            let rest = hosts_of(pre);
            let j = choose|j: int| 0 <= j < out.len() && out[j] == e;
            if j < rest.len() {
                assert(rest.contains(e));
                let k = choose|k: int| 0 <= k < pre.len() && pre[k].host == Some(e);
                assert(ds[k].host == Some(e));
            } else {
                assert(ds[ds.len() - 1].host == Some(e));
            }
        }
    }
}

/// Every URL a level gathers is the canonical URL of an in-scope host.
proof fn lemma_level_urls_members(root: Seq<char>, bodies: Seq<Option<Seq<char>>>)
    ensures
        forall|e: UrlV| #[trigger] level_urls(root, bodies).contains(e) ==> exists|h: Seq<char>|
            e == canon_v(h) && has_substring(h, root),
    decreases bodies.len(),
{
    if bodies.len() > 0 {
        let pre = bodies.drop_last();
        lemma_level_urls_members(root, pre);
        let rest = level_urls(root, pre);
        let out = level_urls(root, bodies);
        assert forall|e: UrlV| #[trigger] out.contains(e) implies exists|h: Seq<char>|
            e == canon_v(h) && has_substring(h, root) by {
            let j = choose|j: int| 0 <= j < out.len() && out[j] == e;
            if j < rest.len() {
                assert(rest.contains(e));
            } else {
                let b = bodies.last()->0;
                let sh = scope_hosts(root, candidates_of(b));
                lemma_scope_hosts_in_scope(root, candidates_of(b));
                crate::common::lemma_canon_all(sh);
                let i = j - rest.len();
                assert(e == canon_v(sh[i]));
                assert(sh.contains(sh[i]));
            }
        }
    }
}

/// The invariant of the result set: every URL a level admits into the
/// frontier, and so into the results, is the canonical URL of a host
/// that contains the run's root host — with a non-empty root, a
/// non-empty host.
pub proof fn lemma_level_frontier_hosts(root: Seq<char>, bodies: Seq<Option<Seq<char>>>)
    ensures
        forall|k: int| 0 <= k < level_frontier(root, bodies).len() ==> (#[trigger] level_frontier(
            root,
            bodies,
        )[k].host is Some && level_frontier(root, bodies)[k].host->0.len() >= root.len()),
{
    let us = level_urls(root, bodies);
    let hs = hosts_of(us);
    let dd = crate::common::dedup_firsts(hs);
    lemma_level_urls_members(root, bodies);
    lemma_hosts_of_members(us);
    crate::common::lemma_dedup_firsts_distinct(hs);
    crate::common::lemma_canon_all(dd);
    assert forall|k: int| 0 <= k < level_frontier(root, bodies).len() implies (
    #[trigger] level_frontier(root, bodies)[k].host is Some && level_frontier(
        root,
        bodies,
    )[k].host->0.len() >= root.len()) by {
        assert(level_frontier(root, bodies)[k] == canon_v(dd[k]));
        assert(dd.contains(dd[k]));
        assert(hs.contains(dd[k]));
        let j = choose|j: int| 0 <= j < us.len() && us[j].host == Some(dd[k]);
        assert(us.contains(us[j]));
        let h = choose|h: Seq<char>| us[j] == canon_v(h) && has_substring(h, root);
        assert(us[j].host == Some(h));
        let p = choose|p: int| crate::strings::contains_at(h, p, root);
    }
}

/// Mathematical view of an [`Engine`].
#[verifier::ext_equal]
pub struct EngineV {
    pub root_host: Seq<char>,
    pub frontier: Seq<UrlV>,
    pub results: Seq<UrlV>,
    pub level: int,
    pub max_depth: int,
    pub done: bool,
    pub urls_seen: u64,
}

/// The bounded-depth discovery engine.
///
/// One value of this type drives one run: it starts `Seeded` with the
/// seed URL as its frontier, expands level by level as the caller hands
/// it the fetched bodies of the current frontier, and is `Done` when the
/// depth ceiling is reached or a level produces an empty frontier.
pub struct Engine {
    root_host: String,
    frontier: Vec<Url>,
    results: Vec<Url>,
    level: u16,
    max_depth: u16,
    done: bool,
    stats: Stats,
}

impl View for Engine {
    type V = EngineV;

    closed spec fn view(&self) -> EngineV {
        EngineV {
            root_host: self.root_host@,
            frontier: self.frontier.deep_view(),
            results: self.results.deep_view(),
            level: self.level as int,
            max_depth: self.max_depth as int,
            done: self.done,
            urls_seen: self.stats.urls,
        }
    }
}

impl Engine {
    /// The engine never stands past its depth ceiling, at the ceiling it
    /// is done, and every URL in its frontier or its result set has a
    /// host that is at least as long as the run's root host — so, for a
    /// run rooted at a real host, a non-empty one.
    pub open spec fn wf(self) -> bool {
        &&& 0 <= self@.level <= self@.max_depth
        &&& self@.level == self@.max_depth ==> self@.done
        &&& forall|k: int|
            0 <= k < self@.frontier.len() ==> ((#[trigger] self@.frontier[k].host) is Some
                && self@.frontier[k].host->0.len() >= self@.root_host.len())
        &&& forall|k: int|
            0 <= k < self@.results.len() ==> ((#[trigger] self@.results[k].host) is Some
                && self@.results[k].host->0.len() >= self@.root_host.len())
    }

    /// Seeds a run: the frontier is the seed alone, no level has been
    /// expanded, nothing has been observed, and the run is done at once
    /// only under a ceiling of zero.
    pub fn new(seed: &Url, max_depth: u16) -> (e: Engine)
        requires
            seed@.host is Some,
        ensures
            e.wf(),
            e@.root_host == seed@.host->0,
            e@.frontier == seq![seed@],
            e@.results == Seq::<UrlV>::empty(),
            e@.level == 0,
            e@.max_depth == max_depth as int,
            e@.done == (max_depth == 0),
            e@.urls_seen == 0,
    {
        let root_host: String = match seed.host_str() {
            Some(h) => h.clone(),
            None => String::new(),
        };
        let frontier: Vec<Url> = vec![seed.clone()];
        let e = Engine {
            root_host,
            frontier,
            results: Vec::new(),
            level: 0,
            max_depth,
            done: max_depth == 0,
            stats: Stats { urls: 0 },
        };
        proof {
            assert(e@.frontier =~~= seq![seed@]);
            assert(e@.results =~~= Seq::<UrlV>::empty());
        }
        e
    }

    /// The URLs the caller must fetch for the current level.
    pub fn frontier(&self) -> (r: &Vec<Url>)
        ensures
            r.deep_view() == self@.frontier,
    {
        &self.frontier
    }

    /// Whether the run has reached its terminal state.
    pub fn is_done(&self) -> (r: bool)
        ensures
            r == self@.done,
    {
        self.done
    }

    /// How many levels have been expanded.
    pub fn level(&self) -> (r: u16)
        ensures
            r as int == self@.level,
    {
        self.level
    }

    /// The statistics gathered so far.
    pub fn stats(&self) -> (r: Stats)
        ensures
            r.urls == self@.urls_seen,
    {
        self.stats
    }

    /// Expands one level. `bodies` pairs with the current frontier: the
    /// fetched body of each member, or `None` where the fetch failed,
    /// which skips that member and nothing else.
    ///
    /// The new frontier is what the level's bodies yield in scope of the
    /// run's root, deduplicated by host; it is appended to the results;
    /// every parsed candidate is counted. The run is done when the depth
    /// ceiling is reached or the new frontier is empty.
    pub fn process_level(&mut self, bodies: &Vec<Option<String>>)
        requires
            old(self).wf(),
            !old(self)@.done,
            bodies@.len() == old(self)@.frontier.len(),
        ensures
            final(self).wf(),
            final(self)@.root_host == old(self)@.root_host,
            final(self)@.max_depth == old(self)@.max_depth,
            final(self)@.level == old(self)@.level + 1,
            final(self)@.frontier == level_frontier(old(self)@.root_host, bodies.deep_view()),
            final(self)@.results == old(self)@.results + final(self)@.frontier,
            final(self)@.done == (final(self)@.level == final(self)@.max_depth
                || final(self)@.frontier.len() == 0),
            final(self)@.urls_seen == sat_add(old(self)@.urls_seen, level_count(bodies.deep_view())),
    {
        let ghost bv: Seq<Option<Seq<char>>> = bodies.deep_view();
        let ghost rootv: Seq<char> = self.root_host@;
        let mut next: Vec<Url> = Vec::new();
        let mut i: usize = 0;
        while i < bodies.len()
            invariant
                0 <= i <= bodies.len(),
                bv == bodies.deep_view(),
                rootv == self.root_host@,
                self.root_host == old(self).root_host,
                self.frontier == old(self).frontier,
                self.results == old(self).results,
                self.level == old(self).level,
                self.max_depth == old(self).max_depth,
                self.done == old(self).done,
                next.deep_view() == level_urls(rootv, bv.take(i as int)),
                self.stats.urls == sat_add(old(self).stats.urls, level_count(bv.take(i as int))),
            decreases bodies.len() - i,
        {
            let ghost prev: Seq<UrlV> = next.deep_view();
            let ghost prev_urls: u64 = self.stats.urls;
            proof {
                assert(bv.take(i + 1).drop_last() =~~= bv.take(i as int));
                assert(bv.take(i + 1).last() == bv[i as int]);
                assert(bv[i as int] == bodies@[i as int].deep_view());
            }
            match &bodies[i] {
                Some(body) => {
                    let cands: Vec<Url> = search_body(body.as_str());
                    let cnt: u64 = cands.len() as u64;
                    if self.stats.urls <= u64::MAX - cnt {
                        self.stats.urls = self.stats.urls + cnt;
                    } else {
                        self.stats.urls = u64::MAX;
                    }
                    proof {
                        lemma_sat_add_chain(
                            old(self).stats.urls,
                            level_count(bv.take(i as int)),
                            candidates_of(body@).len(),
                        );
                    }
                    let mut found: Vec<Url> = scope_filter(&self.root_host, &cands);
                    next.append(&mut found);
                    proof {
                        assert(next.deep_view() =~~= prev + canon_all(
                            scope_hosts(rootv, candidates_of(bv[i as int]->0)),
                        ));
                    }
                },
                None => {},
            }
            i += 1;
        }
        proof {
            assert(bv.take(bodies.len() as int) =~~= bv);
        }
        let deduped: Vec<Url> = crate::common::clear_dupes(next);
        let mut k: usize = 0;
        let ghost base: Seq<UrlV> = self.results.deep_view();
        while k < deduped.len()
            invariant
                0 <= k <= deduped.len(),
                base == old(self).results.deep_view(),
                self.root_host == old(self).root_host,
                self.frontier == old(self).frontier,
                self.level == old(self).level,
                self.max_depth == old(self).max_depth,
                self.done == old(self).done,
                self.stats.urls == sat_add(old(self).stats.urls, level_count(bv)),
                deduped.deep_view() == level_frontier(rootv, bv),
                self.results.deep_view() == base + deduped.deep_view().take(k as int),
            decreases deduped.len() - k,
        {
            let ghost prevr: Seq<UrlV> = self.results.deep_view();
            self.results.push(deduped[k].clone());
            proof {
                assert(self.results.deep_view() =~~= prevr.push(deduped.deep_view()[k as int]));
                assert(base + deduped.deep_view().take(k + 1) =~~= prevr.push(
                    deduped.deep_view()[k as int],
                ));
            }
            k += 1;
        }
        proof {
            assert(deduped.deep_view().take(deduped.len() as int) =~~= deduped.deep_view());
        }
        self.frontier = deduped;
        self.level = self.level + 1;
        self.done = self.level == self.max_depth || self.frontier.len() == 0;
        proof {
            lemma_level_frontier_hosts(rootv, bv);
            assert forall|k: int| 0 <= k < self@.results.len() implies ((
            #[trigger] self@.results[k].host) is Some && self@.results[k].host->0.len()
                >= self@.root_host.len()) by {
                if k < base.len() {
                    assert(self@.results[k] == base[k]);
                    assert(old(self)@.results[k].host is Some);
                } else {
                    assert(self@.results[k] == level_frontier(rootv, bv)[k - base.len()]);
                }
            }
        }
    }

    /// Law: a run performs at most `max_depth` expansions. While a
    /// well-formed engine is not done its level is strictly below the
    /// ceiling, and `process_level` both requires a run that is not done
    /// and raises the level by exactly one; so no run from [`Engine::new`]
    /// expands more than `max_depth` levels, however many new hosts every
    /// level yields.
    pub proof fn lemma_depth_bound(e: Engine)
        requires
            e.wf(),
            !e@.done,
        ensures
            e@.level < e@.max_depth,
    {
    }

    /// The accumulated result set, host-deduplicated once more, as the
    /// terminal state returns it. A run cancelled early may read it too:
    /// it holds everything gathered so far.
    pub fn results(&self) -> (r: Vec<Url>)
        ensures
            r.deep_view() == dedupe_by_host(self@.results),
    {
        let mut copy: Vec<Url> = Vec::new();
        let mut k: usize = 0;
        while k < self.results.len()
            invariant
                0 <= k <= self.results.len(),
                copy.deep_view() == self@.results.take(k as int),
            decreases self.results.len() - k,
        {
            let ghost prevc: Seq<UrlV> = copy.deep_view();
            copy.push(self.results[k].clone());
            proof {
                assert(copy.deep_view() =~~= prevc.push(self@.results[k as int]));
                assert(self@.results.take(k + 1) =~~= prevc.push(self@.results[k as int]));
            }
            k += 1;
        }
        proof {
            assert(self@.results.take(self.results.len() as int) =~~= self@.results);
        }
        crate::common::clear_dupes(copy)
    }
}

} // verus!
