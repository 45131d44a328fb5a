//! Deduplication of discovered URLs.
//!
//! A discovery run collapses the URLs it has gathered in two ways: by host
//! (two URLs with the same host stand for the same domain, and only a
//! canonical `https://host` URL survives) and by full URL (the spidering
//! variant cares about distinct paths). Both keep the first occurrence of
//! each key and preserve the input's order.

use vstd::prelude::*;

use crate::urls::canon_v;
use crate::urls::Url;
use crate::urls::UrlV;

verus! {

/// Depth ceiling of a discovery run: how many expansion levels the engine
/// performs before it stops.
pub const MAX_DEPTH: u16 = 2;

/// The hosts of the URLs that have one, in order.
pub open spec fn hosts_of(ds: Seq<UrlV>) -> Seq<Seq<char>>
    decreases ds.len(),
{
    if ds.len() == 0 {
        Seq::empty()
    } else {
        match ds.last().host {
            Some(h) => hosts_of(ds.drop_last()).push(h),
            None => hosts_of(ds.drop_last()),
        }
    }
}

/// Keeps the first occurrence of each element, in order.
pub open spec fn dedup_firsts(hs: Seq<Seq<char>>) -> Seq<Seq<char>>
    decreases hs.len(),
{
    if hs.len() == 0 {
        Seq::empty()
    } else {
        let rest = dedup_firsts(hs.drop_last());
        if rest.contains(hs.last()) {
            rest
        } else {
            rest.push(hs.last())
        }
    }
}

/// The canonical `https://host` URL of each host, in order.
pub open spec fn canon_all(hs: Seq<Seq<char>>) -> Seq<UrlV>
    decreases hs.len(),
{
    if hs.len() == 0 {
        Seq::empty()
    } else {
        canon_all(hs.drop_last()).push(canon_v(hs.last()))
    }
}

/// Host-deduplication: of the URLs that have a host, the first occurrence
/// of each host survives, as the canonical `https://host` URL.
pub open spec fn dedupe_by_host(ds: Seq<UrlV>) -> Seq<UrlV> {
    canon_all(dedup_firsts(hosts_of(ds)))
}

/// Some URL in `ds` is serialized as `t`.
pub open spec fn contains_text(ds: Seq<UrlV>, t: Seq<char>) -> bool {
    exists|k: int| 0 <= k < ds.len() && ds[k].text == t
}

/// URL-deduplication: the first occurrence of each serialization
/// survives, unchanged.
pub open spec fn dedupe_by_url(ds: Seq<UrlV>) -> Seq<UrlV>
    decreases ds.len(),
{
    if ds.len() == 0 {
        Seq::empty()
    } else {
        let rest = dedupe_by_url(ds.drop_last());
        if contains_text(rest, ds.last().text) {
            rest
        } else {
            rest.push(ds.last())
        }
    }
}

/// Position of the first occurrence of `h` in `hs`.
pub open spec fn first_at(hs: Seq<Seq<char>>, h: Seq<char>) -> int
    decreases hs.len(),
{
    if hs.len() == 0 {
        0
    } else if hs[0] == h {
        0
    } else {
        1 + first_at(hs.drop_first(), h)
    }
}

/// `canon_all` maps each host to its canonical URL, position by position.
pub proof fn lemma_canon_all(hs: Seq<Seq<char>>)
    ensures
        canon_all(hs).len() == hs.len(),
        forall|i: int| 0 <= i < hs.len() ==> canon_all(hs)[i] == canon_v(hs[i]),
    decreases hs.len(),
{
    if hs.len() > 0 {
        lemma_canon_all(hs.drop_last());
    }
}

/// `dedup_firsts` keeps no element twice and exactly the elements of its
/// input.
pub proof fn lemma_dedup_firsts_distinct(hs: Seq<Seq<char>>)
    ensures
        forall|i: int, j: int|
            0 <= i < j < dedup_firsts(hs).len() ==> dedup_firsts(hs)[i] != dedup_firsts(hs)[j],
        forall|x: Seq<char>| #[trigger] dedup_firsts(hs).contains(x) <==> hs.contains(x),
    decreases hs.len(),
{
    if hs.len() == 0 {
    } else {
        let pre = hs.drop_last();
        let x = hs.last();
        let dd = dedup_firsts(pre);
        lemma_dedup_firsts_distinct(pre);
        assert forall|y: Seq<char>| #[trigger] hs.contains(y) implies pre.contains(y) || y
            == x by {
            let k = choose|k: int| 0 <= k < hs.len() && hs[k] == y;
            if k < hs.len() - 1 {
                assert(pre[k] == y);
            }
        }
        assert forall|y: Seq<char>| pre.contains(y) || y == x implies #[trigger] hs.contains(
            y,
        ) by {
            if pre.contains(y) {
                let k = choose|k: int| 0 <= k < pre.len() && pre[k] == y;
                assert(hs[k] == y);
            } else {
                assert(hs[hs.len() - 1] == y);
            }
        }
        if !dd.contains(x) {
            let out = dd.push(x);
            assert forall|i: int, j: int| 0 <= i < j < out.len() implies out[i] != out[j] by {
                if j == out.len() - 1 {
                    assert(dd.contains(dd[i]));
                }
            }
        }
        let out = dedup_firsts(hs);
        assert forall|y: Seq<char>| #[trigger] out.contains(y) implies hs.contains(y) by {
            let k = choose|k: int| 0 <= k < out.len() && out[k] == y;
            if k < dd.len() {
                assert(dd.contains(dd[k]));
            }
        }
        assert forall|y: Seq<char>| hs.contains(y) implies #[trigger] out.contains(y) by {
            if pre.contains(y) {
                assert(dd.contains(y));
                let k = choose|k: int| 0 <= k < dd.len() && dd[k] == y;
                assert(out[k] == y);
            } else {
                if dd.contains(x) {
                    let k = choose|k: int| 0 <= k < dd.len() && dd[k] == x;
                    assert(out[k] == y);
                } else {
                    assert(out[out.len() - 1] == y);
                }
            }
        }
    }
}

/// On an input without duplicates, `dedup_firsts` changes nothing.
proof fn lemma_dedup_firsts_identity(hs: Seq<Seq<char>>)
    requires
        forall|i: int, j: int| 0 <= i < j < hs.len() ==> hs[i] != hs[j],
    ensures
        dedup_firsts(hs) == hs,
    decreases hs.len(),
{
    if hs.len() > 0 {
        let pre = hs.drop_last();
        lemma_dedup_firsts_identity(pre);
        if pre.contains(hs.last()) {
            let k = choose|k: int| 0 <= k < pre.len() && pre[k] == hs.last();
            assert(hs[k] == hs[hs.len() - 1]);
        }
        assert(dedup_firsts(hs) =~~= hs);
    }
}

/// The hosts of the canonical URLs of `hs` are `hs` itself.
proof fn lemma_hosts_of_canon_all(hs: Seq<Seq<char>>)
    ensures
        hosts_of(canon_all(hs)) == hs,
    decreases hs.len(),
{
    if hs.len() > 0 {
        lemma_hosts_of_canon_all(hs.drop_last());
        assert(canon_all(hs).drop_last() =~~= canon_all(hs.drop_last()));
        assert(hosts_of(canon_all(hs)) =~~= hs);
    }
}

/// Law: deduplicating by host twice is the same as deduplicating once.
pub proof fn lemma_dedupe_by_host_idempotent(ds: Seq<UrlV>)
    ensures
        dedupe_by_host(dedupe_by_host(ds)) == dedupe_by_host(ds),
{
    let dd = dedup_firsts(hosts_of(ds));
    lemma_dedup_firsts_distinct(hosts_of(ds));
    lemma_hosts_of_canon_all(dd);
    lemma_dedup_firsts_identity(dd);
}

/// Law: no two URLs that host-deduplication returns share a host.
pub proof fn lemma_dedupe_by_host_unique(ds: Seq<UrlV>)
    ensures
        forall|i: int, j: int|
            0 <= i < j < dedupe_by_host(ds).len() ==> dedupe_by_host(ds)[i].host != dedupe_by_host(
                ds,
            )[j].host,
{
    let hs = hosts_of(ds);
    let dd = dedup_firsts(hs);
    lemma_dedup_firsts_distinct(hs);
    lemma_canon_all(dd);
    assert forall|i: int, j: int| 0 <= i < j < dedupe_by_host(ds).len() implies dedupe_by_host(
        ds,
    )[i].host != dedupe_by_host(ds)[j].host by {
        assert(canon_all(dd)[i] == canon_v(dd[i]));
        assert(canon_all(dd)[j] == canon_v(dd[j]));
    }
}

proof fn lemma_dedup_firsts_len(hs: Seq<Seq<char>>)
    ensures
        dedup_firsts(hs).len() <= hs.len(),
    decreases hs.len(),
{
    if hs.len() > 0 {
        lemma_dedup_firsts_len(hs.drop_last());
    }
}

proof fn lemma_hosts_of_len(ds: Seq<UrlV>)
    ensures
        hosts_of(ds).len() <= ds.len(),
    decreases ds.len(),
{
    if ds.len() > 0 {
        lemma_hosts_of_len(ds.drop_last());
    }
}

/// Law: deduplication never grows a sequence, whichever key it uses.
pub proof fn lemma_dedupe_shrinks(ds: Seq<UrlV>)
    ensures
        dedupe_by_host(ds).len() <= ds.len(),
        dedupe_by_url(ds).len() <= ds.len(),
    decreases ds.len(),
{
    lemma_canon_all(dedup_firsts(hosts_of(ds)));
    lemma_dedup_firsts_len(hosts_of(ds));
    lemma_hosts_of_len(ds);
    if ds.len() > 0 {
        lemma_dedupe_shrinks(ds.drop_last());
    }
}

/// Pushing an element at the end moves no earlier first occurrence.
proof fn lemma_first_at_extend(hs: Seq<Seq<char>>, x: Seq<char>, h: Seq<char>)
    requires
        hs.contains(h),
    ensures
        first_at(hs.push(x), h) == first_at(hs, h),
        0 <= first_at(hs, h) < hs.len(),
    decreases hs.len(),
{
    assert(hs.push(x)[0] == hs[0]);
    if hs[0] == h {
    } else {
        let k = choose|k: int| 0 <= k < hs.len() && hs[k] == h;
        assert(hs.drop_first()[k - 1] == h);
        lemma_first_at_extend(hs.drop_first(), x, h);
        assert(hs.push(x).drop_first() =~~= hs.drop_first().push(x));
    }
}

/// A new element pushed at the end first occurs at the end.
proof fn lemma_first_at_new(hs: Seq<Seq<char>>, x: Seq<char>)
    requires
        !hs.contains(x),
    ensures
        first_at(hs.push(x), x) == hs.len(),
    decreases hs.len(),
{
    if hs.len() == 0 {
        assert(hs.push(x)[0] == x);
    } else {
        assert(hs.push(x)[0] == hs[0]);
        if hs[0] == x {
            assert(hs.contains(x));
        }
        if hs.drop_first().contains(x) {
            let k = choose|k: int| 0 <= k < hs.drop_first().len() && hs.drop_first()[k] == x;
            assert(hs[k + 1] == x);
        }
        lemma_first_at_new(hs.drop_first(), x);
        assert(hs.push(x).drop_first() =~~= hs.drop_first().push(x));
    }
}

/// First occurrences keep their relative order through `dedup_firsts`.
proof fn lemma_dedup_firsts_order(hs: Seq<Seq<char>>)
    ensures
        forall|i: int, j: int|
            0 <= i < j < dedup_firsts(hs).len() ==> first_at(hs, dedup_firsts(hs)[i]) < first_at(
                hs,
                dedup_firsts(hs)[j],
            ),
    decreases hs.len(),
{
    if hs.len() == 0 {
    } else {
        let pre = hs.drop_last();
        let x = hs.last();
        let dd = dedup_firsts(pre);
        lemma_dedup_firsts_order(pre);
        lemma_dedup_firsts_distinct(pre);
        assert(hs =~~= pre.push(x));
        assert forall|k: int| 0 <= k < dd.len() implies pre.contains(dd[k]) && first_at(
            pre.push(x),
            dd[k],
        ) == first_at(pre, dd[k]) && first_at(pre, dd[k]) < pre.len() by {
            assert(dd.contains(dd[k]));
            lemma_first_at_extend(pre, x, dd[k]);
        }
        let out = dedup_firsts(hs);
        if dd.contains(x) {
            assert forall|i: int, j: int| 0 <= i < j < out.len() implies first_at(hs, out[i])
                < first_at(hs, out[j]) by {}
        } else {
            lemma_first_at_new(pre, x);
            assert forall|i: int, j: int| 0 <= i < j < out.len() implies first_at(hs, out[i])
                < first_at(hs, out[j]) by {
                if j < out.len() - 1 {
                    assert(out[i] == dd[i] && out[j] == dd[j]);
                } else {
                    assert(out[i] == dd[i] && out[j] == x);
                }
            }
        }
    }
}

/// Law: the hosts that host-deduplication returns stand in the order of
/// their first occurrences in the input.
pub proof fn lemma_dedupe_by_host_order(ds: Seq<UrlV>)
    ensures
        forall|i: int, j: int|
            0 <= i < j < dedupe_by_host(ds).len() ==> first_at(
                hosts_of(ds),
                dedupe_by_host(ds)[i].host->0,
            ) < first_at(hosts_of(ds), dedupe_by_host(ds)[j].host->0),
{
    let hs = hosts_of(ds);
    let dd = dedup_firsts(hs);
    lemma_dedup_firsts_order(hs);
    lemma_canon_all(dd);
    assert forall|i: int, j: int| 0 <= i < j < dedupe_by_host(ds).len() implies first_at(
        hs,
        dedupe_by_host(ds)[i].host->0,
    ) < first_at(hs, dedupe_by_host(ds)[j].host->0) by {
        assert(canon_all(dd)[i] == canon_v(dd[i]));
        assert(canon_all(dd)[j] == canon_v(dd[j]));
    }
}

/// Whether one of the strings in `v` is `s`.
pub(crate) fn vec_contains_string(v: &Vec<String>, s: &String) -> (r: bool)
    ensures
        r == v.deep_view().contains(s@),
{
    let mut i: usize = 0;
    while i < v.len()
        invariant
            0 <= i <= v.len(),
            forall|j: int| 0 <= j < i ==> v.deep_view()[j] != s@,
        decreases v.len() - i,
    {
        if s.eq(&v[i]) {
            assert(v.deep_view()[i as int] == s@);
            return true;
        }
        i += 1;
    }
    false
}

/// Removes duplicate domains from a vector: of the URLs that have a host,
/// the first occurrence of each host survives, as the canonical
/// `https://host` URL.
pub fn clear_dupes(out: Vec<Url>) -> (r: Vec<Url>)
    ensures
        r.deep_view() == dedupe_by_host(out.deep_view()),
{
    let ghost dsv: Seq<UrlV> = out.deep_view();
    let mut hosts: Vec<String> = Vec::new();
    let mut i: usize = 0;
    while i < out.len()
        invariant
            0 <= i <= out.len(),
            dsv == out.deep_view(),
            hosts.deep_view() == dedup_firsts(hosts_of(dsv.take(i as int))),
        decreases out.len() - i,
    {
        let ghost prev: Seq<Seq<char>> = hosts.deep_view();
        proof {
            assert(dsv.take(i + 1).drop_last() =~~= dsv.take(i as int));
            assert(dsv.take(i + 1).last() == dsv[i as int]);
            assert(dsv[i as int] == out@[i as int]@);
        }
        let ghost p: Seq<Seq<char>> = hosts_of(dsv.take(i as int));
        match out[i].host_str() {
            Some(h) => {
                let ghost hv: Seq<char> = dsv[i as int].host->0;
                proof {
                    assert(hosts_of(dsv.take(i + 1)) == p.push(hv));
                    assert(p.push(hv).drop_last() =~~= p);
                    assert(p.push(hv).last() == hv);
                }
                let hc = h.clone();
                if !vec_contains_string(&hosts, &hc) {
                    hosts.push(hc);
                    proof {
                        assert(hosts.deep_view() =~~= prev.push(hv));
                    }
                }
            },
            None => {
                proof {
                    assert(hosts_of(dsv.take(i + 1)) == p);
                }
            },
        }
        i += 1;
    }
    proof {
        assert(dsv.take(out.len() as int) =~~= dsv);
    }
    canonize_hosts(&hosts)
}

/// The canonical `https://host` URL of each host, in order.
pub(crate) fn canonize_hosts(hosts: &Vec<String>) -> (r: Vec<Url>)
    ensures
        r.deep_view() == canon_all(hosts.deep_view()),
{
    let ghost dd: Seq<Seq<char>> = hosts.deep_view();
    let mut uniq: Vec<Url> = Vec::new();
    let mut j: usize = 0;
    while j < hosts.len()
        invariant
            0 <= j <= hosts.len(),
            dd == hosts.deep_view(),
            uniq.deep_view() == canon_all(dd.take(j as int)),
        decreases hosts.len() - j,
    {
        let ghost prevu: Seq<UrlV> = uniq.deep_view();
        proof {
            assert(dd.take(j + 1).drop_last() =~~= dd.take(j as int));
            assert(dd.take(j + 1).last() == dd[j as int]);
            assert(dd[j as int] == hosts@[j as int]@);
        }
        uniq.push(Url::from_host(hosts[j].as_str()));
        proof {
            assert(uniq.deep_view() =~~= prevu.push(canon_v(dd[j as int])));
        }
        j += 1;
    }
    proof {
        assert(dd.take(hosts.len() as int) =~~= dd);
    }
    uniq
}

/// Removes duplicate URLs from a vector: the first occurrence of each
/// serialization survives, unchanged.
pub fn clear_dup_url(out: Vec<Url>) -> (r: Vec<Url>)
    ensures
        r.deep_view() == dedupe_by_url(out.deep_view()),
{
    let ghost dsv: Seq<UrlV> = out.deep_view();
    let mut ret: Vec<Url> = Vec::new();
    let mut i: usize = 0;
    while i < out.len()
        invariant
            0 <= i <= out.len(),
            dsv == out.deep_view(),
            ret.deep_view() == dedupe_by_url(dsv.take(i as int)),
        decreases out.len() - i,
    {
        let ghost prev: Seq<UrlV> = ret.deep_view();
        proof {
            assert(dsv.take(i + 1).drop_last() =~~= dsv.take(i as int));
            assert(dsv.take(i + 1).last() == dsv[i as int]);
        }
        if !vec_contains_text(&ret, &out[i]) {
            ret.push(out[i].clone());
            proof {
                assert(ret.deep_view() =~~= prev.push(dsv[i as int]));
            }
        }
        i += 1;
    }
    proof {
        assert(dsv.take(out.len() as int) =~~= dsv);
    }
    ret
}

/// Whether one of the URLs in `v` has the same serialization as `u`.
fn vec_contains_text(v: &Vec<Url>, u: &Url) -> (r: bool)
    ensures
        r == contains_text(v.deep_view(), u@.text),
{
    let mut i: usize = 0;
    while i < v.len()
        invariant
            0 <= i <= v.len(),
            forall|j: int| 0 <= j < i ==> v.deep_view()[j].text != u@.text,
        decreases v.len() - i,
    {
        if u.same_text(&v[i]) {
            assert(v.deep_view()[i as int].text == u@.text);
            return true;
        }
        i += 1;
    }
    false
}

} // verus!
