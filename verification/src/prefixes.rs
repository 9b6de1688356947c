//! The trusted-prefix heuristic.
//!
//! From a raw package listing it tallies two-segment package-name prefixes,
//! drops system-reserved prefixes and prefixes seen only once, orders the
//! rest by descending occurrence count, and places two curated
//! recommendations ahead of everything the scan found.

use vstd::prelude::*;
use crate::text::{
    lines, lines_of, split_on, split_str, starts_with, starts_with_seq, strip_prefix_str,
    views_match,
};

verus! {

/// A candidate namespace prefix, with how often it was seen and where it came
/// from.
pub struct TrustedPrefix {
    pub prefix: String,
    pub count: i32,
    pub source: String,
}

/// The mathematical content of a `TrustedPrefix`.
pub struct TrustedPrefixView {
    pub prefix: Seq<char>,
    pub count: int,
    pub source: Seq<char>,
}

impl View for TrustedPrefix {
    type V = TrustedPrefixView;

    open spec fn view(&self) -> TrustedPrefixView {
        TrustedPrefixView { prefix: self.prefix@, count: self.count as int, source: self.source@ }
    }
}

/// The marker that opens every package line.
pub open spec fn package_marker() -> Seq<char> {
    "package:"@
}

/// The two-segment prefix of a package name: its first two dot-delimited
/// segments joined by one dot, when it has at least two segments.
pub open spec fn prefix2_of(pkg: Seq<char>) -> Option<Seq<char>> {
    let parts = split_on(pkg, '.');
    if parts.len() >= 2 {
        Some(parts[0] + "."@ + parts[1])
    } else {
        None
    }
}

/// The prefix a listing line contributes, if any: the line must open with the
/// package marker and name a package of at least two segments.
pub open spec fn line_prefix(l: Seq<char>) -> Option<Seq<char>> {
    if starts_with_seq(l, package_marker()) {
        prefix2_of(l.skip(package_marker().len() as int))
    } else {
        None
    }
}

/// The prefixes the listing lines contribute, in order, one per qualifying
/// line.
pub open spec fn scanned_prefixes(ls: Seq<Seq<char>>) -> Seq<Seq<char>>
    decreases ls.len(),
{
    if ls.len() == 0 {
        Seq::<Seq<char>>::empty()
    } else {
        let rest = scanned_prefixes(ls.drop_last());
        match line_prefix(ls.last()) {
            Some(p) => rest.push(p),
            None => rest,
        }
    }
}

/// How often `x` occurs in `s`.
pub open spec fn occ(s: Seq<Seq<char>>, x: Seq<char>) -> nat
    decreases s.len(),
{
    if s.len() == 0 {
        0
    } else {
        occ(s.drop_last(), x) + (if s.last() == x {
            1nat
        } else {
            0nat
        })
    }
}

/// How often prefix `p` occurs among the packages of listing `out`.
pub open spec fn tally_of(out: Seq<char>, p: Seq<char>) -> nat {
    occ(scanned_prefixes(lines_of(out)), p)
}

/// System-reserved prefixes that are never suggested.
pub open spec fn denylisted(p: Seq<char>) -> bool {
    starts_with_seq(p, "com.android"@) || starts_with_seq(p, "com.google"@) || starts_with_seq(
        p,
        "android.hardware"@,
    ) || starts_with_seq(p, "vendor.mediatek"@)
}

/// The first curated recommendation.
pub open spec fn recommended_first() -> TrustedPrefixView {
    TrustedPrefixView { prefix: "cn.chinapost"@, count: 999, source: "recommended"@ }
}

/// The second curated recommendation.
pub open spec fn recommended_second() -> TrustedPrefixView {
    TrustedPrefixView { prefix: "com.nlscan"@, count: 100, source: "recommended"@ }
}

/// A scan-derived entry is sound for listing `out`: tagged as coming from the
/// scan, counted exactly, seen at least twice, and not system-reserved.
pub open spec fn scan_entry_ok(out: Seq<char>, e: TrustedPrefixView) -> bool {
    e.source == "device_scan"@ && e.count == tally_of(out, e.prefix) && e.count >= 2
        && !denylisted(e.prefix)
}

/// Prefix `p` appears among the scan-derived entries of `r`.
pub open spec fn scan_includes(r: Seq<TrustedPrefix>, p: Seq<char>) -> bool {
    exists|k: int| 2 <= k < r.len() && #[trigger] r[k]@.prefix == p
}

/// Scan-derived entries are ordered by descending count.
pub open spec fn sorted_desc(s: Seq<TrustedPrefix>) -> bool {
    forall|i: int, j: int| 0 <= i <= j < s.len() ==> #[trigger] s[i]@.count >= #[trigger] s[j]@.count
}

pub proof fn lemma_scanned_le_len(ls: Seq<Seq<char>>)
    ensures
        scanned_prefixes(ls).len() <= ls.len(),
    decreases ls.len(),
{
    if ls.len() > 0 {
        lemma_scanned_le_len(ls.drop_last());
    }
}

/// The two-segment prefix of a package name, as `prefix2_of` describes it:
/// exactly segments zero and one joined by one dot, whenever the name has at
/// least two dot-delimited segments.
pub fn package_prefix(pkg: &str) -> (r: Option<String>)
    ensures
        match r {
            Some(t) => prefix2_of(pkg@) == Some(t@),
            None => prefix2_of(pkg@) is None,
        },
{
    let parts = split_str(pkg, '.');
    if parts.len() >= 2 {
        let t = crate::text::concat3(parts[0].as_str(), ".", parts[1].as_str());
        Some(t)
    } else {
        None
    }
}

/// The prefix one listing line contributes, as `line_prefix` describes it.
fn line_prefix_str(l: &str) -> (r: Option<String>)
    ensures
        match r {
            Some(t) => line_prefix(l@) == Some(t@),
            None => line_prefix(l@) is None,
        },
{
    match strip_prefix_str(l, "package:") {
        Some(rest) => package_prefix(rest),
        None => None,
    }
}

/// `p` opens with one of the system-reserved prefixes.
fn is_denylisted(p: &str) -> (r: bool)
    ensures
        r == denylisted(p@),
{
    starts_with(p, "com.android") || starts_with(p, "com.google") || starts_with(
        p,
        "android.hardware",
    ) || starts_with(p, "vendor.mediatek")
}

/// What holds after placing `x` at position `p` of a descending sequence,
/// when everything before `p` counts at least `x` and the element at `p`, if
/// any, counts less.
proof fn lemma_insert_sorted(prev: Seq<TrustedPrefix>, x: TrustedPrefix, p: int)
    requires
        0 <= p <= prev.len(),
        sorted_desc(prev),
        forall|i: int| 0 <= i < p ==> #[trigger] prev[i]@.count >= x@.count,
        p < prev.len() ==> prev[p]@.count < x@.count,
    ensures
        sorted_desc(prev.insert(p, x)),
        prev.insert(p, x).len() == prev.len() + 1,
        forall|j: int|
            0 <= j < prev.insert(p, x).len() ==> (#[trigger] prev.insert(p, x)[j]@ == x@
                || exists|i: int| 0 <= i < prev.len() && prev.insert(p, x)[j]@
                == #[trigger] prev[i]@),
        exists|j: int| 0 <= j < prev.insert(p, x).len() && #[trigger] prev.insert(p, x)[j]@ == x@,
        forall|i: int|
            0 <= i < prev.len() ==> exists|j: int|
                0 <= j < prev.insert(p, x).len() && prev.insert(p, x)[j]@
                    == #[trigger] prev[i]@,
{
    prev.insert_ensures(p, x);
    let cur = prev.insert(p, x);
    assert forall|i: int, j: int| 0 <= i <= j < cur.len() implies #[trigger] cur[i]@.count
        >= #[trigger] cur[j]@.count by {
        if j < p {
            assert(cur[i] == prev[i] && cur[j] == prev[j]);
        } else if j == p {
            if i < p {
                assert(cur[i] == prev[i] && prev[i]@.count >= x@.count);
            }
        } else {
            assert(cur[j] == prev[j - 1]);
            if i < p {
                assert(cur[i] == prev[i] && prev[i]@.count >= prev[j - 1]@.count);
            } else if i == p {
                assert(prev[p]@.count >= prev[j - 1]@.count);
            } else {
                assert(cur[i] == prev[i - 1] && prev[i - 1]@.count >= prev[j - 1]@.count);
            }
        }
    }
    assert(cur[p]@ == x@);
    assert forall|j: int| 0 <= j < cur.len() implies (#[trigger] cur[j]@ == x@ || exists|i: int|
        0 <= i < prev.len() && cur[j]@ == #[trigger] prev[i]@) by {
        if j < p {
            assert(cur[j]@ == prev[j]@);
        } else if j > p {
            assert(cur[j]@ == prev[j - 1]@);
        }
    }
    assert forall|i: int| 0 <= i < prev.len() implies exists|j: int|
        0 <= j < cur.len() && cur[j]@ == #[trigger] prev[i]@ by {
        if i < p {
            assert(cur[i]@ == prev[i]@);
        } else {
            assert(cur[i + 1]@ == prev[i]@);
        }
    }
}

/// Keeps `v` ordered by descending count while adding `x`, losing nothing and
/// inventing nothing.
fn insert_sorted_desc(v: &mut Vec<TrustedPrefix>, x: TrustedPrefix)
    requires
        sorted_desc(old(v)@),
    ensures
        sorted_desc(final(v)@),
        final(v)@.len() == old(v)@.len() + 1,
        forall|j: int|
            0 <= j < final(v)@.len() ==> (#[trigger] final(v)@[j]@ == x@ || exists|i: int|
                0 <= i < old(v)@.len() && final(v)@[j]@ == #[trigger] old(v)@[i]@),
        exists|j: int| 0 <= j < final(v)@.len() && #[trigger] final(v)@[j]@ == x@,
        forall|i: int|
            0 <= i < old(v)@.len() ==> exists|j: int|
                0 <= j < final(v)@.len() && final(v)@[j]@ == #[trigger] old(v)@[i]@,
{
    let pos = find_desc_pos(v, x.count);
    let ghost prev = v@;
    let ghost p = pos as int;
    proof {
        lemma_insert_sorted(prev, x, p);
    }
    v.insert(pos, x);
    proof {
        assert(v@ == prev.insert(p, x));
    }
}

/// Some key of `keys` reads `p`.
pub open spec fn has_key(keys: Seq<String>, p: Seq<char>) -> bool {
    exists|i: int| 0 <= i < keys.len() && #[trigger] keys[i]@ == p
}

/// Some scan-derived candidate of `c` carries prefix `p`.
pub open spec fn cand_has(c: Seq<TrustedPrefix>, p: Seq<char>) -> bool {
    exists|j: int| 0 <= j < c.len() && #[trigger] c[j]@.prefix == p
}

/// The prefixes of a raw package listing, one per qualifying line, as
/// `scanned_prefixes` describes them.
fn collect_prefixes(output: &str) -> (r: Vec<String>)
    ensures
        views_match(r@, scanned_prefixes(lines_of(output@))),
{
    let ls = lines(output);
    let ghost lsv = lines_of(output@);
    let mut prefs: Vec<String> = Vec::new();
    let mut j: usize = 0;
    proof {
        assert(lsv.take(0) =~= Seq::<Seq<char>>::empty());
    }
    while j < ls.len()
        invariant
            views_match(ls@, lsv),
            j <= ls@.len(),
            views_match(prefs@, scanned_prefixes(lsv.take(j as int))),
        decreases ls@.len() - j,
    {
        proof {
            assert(lsv.take(j + 1).drop_last() =~= lsv.take(j as int));
            assert(lsv.take(j + 1).last() == lsv[j as int]);
        }
        match line_prefix_str(ls[j].as_str()) {
            Some(p) => prefs.push(p),
            None => {},
        }
        j += 1;
    }
    proof {
        assert(lsv.take(lsv.len() as int) =~= lsv);
    }
    prefs
}

/// The views of a vector of strings.
pub open spec fn views_of(v: Seq<String>) -> Seq<Seq<char>> {
    v.map_values(|q: String| q@)
}

/// Position of the key reading `p`, if one exists.
fn find_key(keys: &Vec<String>, p: &String) -> (r: Option<usize>)
    ensures
        match r {
            Some(k) => k < keys@.len() && keys@[k as int]@ == p@,
            None => forall|i: int| 0 <= i < keys@.len() ==> #[trigger] keys@[i]@ != p@,
        },
{
    let mut k: usize = 0;
    while k < keys.len()
        invariant
            k <= keys@.len(),
            forall|i: int| 0 <= i < k ==> #[trigger] keys@[i]@ != p@,
        decreases keys@.len() - k,
    {
        if keys[k].eq(p) {
            return Some(k);
        }
        k += 1;
    }
    None
}

/// Occurrence counts of the distinct prefixes of `pv`: parallel vectors of
/// keys and counts, with every prefix keyed and every count exact.
fn tally_prefixes(prefs: &Vec<String>) -> (r: (Vec<String>, Vec<usize>))
    ensures
        r.0@.len() == r.1@.len(),
        forall|i: int|
            0 <= i < r.0@.len() ==> #[trigger] r.1@[i] as nat == occ(views_of(prefs@), r.0@[i]@)
                && 1 <= r.1@[i] <= prefs@.len(),
        forall|p: Seq<char>|
            #![trigger occ(views_of(prefs@), p)]
            occ(views_of(prefs@), p) > 0 ==> has_key(r.0@, p),
{
    let ghost pv = views_of(prefs@);
    let mut keys: Vec<String> = Vec::new();
    let mut counts: Vec<usize> = Vec::new();
    let mut t: usize = 0;
    proof {
        assert(pv.take(0) =~= Seq::<Seq<char>>::empty());
    }
    while t < prefs.len()
        invariant
            pv == views_of(prefs@),
            t <= prefs@.len(),
            keys@.len() == counts@.len(),
            forall|i: int|
                0 <= i < keys@.len() ==> #[trigger] counts@[i] as nat == occ(
                    pv.take(t as int),
                    keys@[i]@,
                ) && 1 <= counts@[i] <= t,
            forall|i: int, j: int|
                0 <= i < j < keys@.len() ==> #[trigger] keys@[i]@ != #[trigger] keys@[j]@,
            forall|p: Seq<char>|
                #![trigger occ(pv.take(t as int), p)]
                occ(pv.take(t as int), p) > 0 ==> has_key(keys@, p),
        decreases prefs@.len() - t,
    {
        let ghost pvt = pv.take(t as int);
        let ghost pvt1 = pv.take(t + 1);
        proof {
            assert(pvt1.drop_last() =~= pvt);
            assert(pvt1.last() == pv[t as int]);
            assert(pv[t as int] == prefs@[t as int]@);
            assert forall|p: Seq<char>| #[trigger] occ(pvt1, p) == occ(pvt, p) + (if pv[t as int]
                == p {
                1nat
            } else {
                0nat
            }) by {}
        }
        let hit = find_key(&keys, &prefs[t]);
        if let Some(k) = hit {
            let ghost oldks = keys@;
            let ghost oldcs = counts@;
            let c = counts[k];
            proof {
                assert(c <= t < prefs@.len());
            }
            let newc = c + 1;
            let _ = counts.remove(k);
            counts.insert(k, newc);
            proof {
                oldcs.remove_ensures(k as int);
                oldcs.remove(k as int).insert_ensures(k as int, newc);
                assert forall|i: int| 0 <= i < keys@.len() implies #[trigger] counts@[i] as nat
                    == occ(pvt1, keys@[i]@) && 1 <= counts@[i] <= t + 1 by {
                    if i == k {
                        assert(counts@[i] == newc);
                        assert(occ(pvt1, keys@[i]@) == occ(pvt, keys@[i]@) + 1);
                    } else {
                        assert(counts@[i] == oldcs[i]);
                        assert(keys@[i]@ != keys@[k as int]@);
                        assert(occ(pvt1, keys@[i]@) == occ(pvt, keys@[i]@));
                    }
                }
                assert forall|p: Seq<char>| occ(pvt1, p) > 0 implies has_key(keys@, p) by {
                    assert(occ(pvt1, p) == occ(pvt, p) + (if pv[t as int] == p {
                        1nat
                    } else {
                        0nat
                    }));
                    if occ(pv.take(t as int), p) > 0 {
                        assert(has_key(keys@, p));
                    } else {
                        assert(p == pv[t as int]);
                        assert(keys@[k as int]@ == p);
                    }
                }
            }
        } else {
            let ghost oldks = keys@;
            keys.push(prefs[t].clone());
            counts.push(1);
            proof {
                if occ(pv.take(t as int), pv[t as int]) > 0 {
                    assert(has_key(oldks, pv[t as int]));
                    let i = choose|i: int|
                        0 <= i < oldks.len() && #[trigger] oldks[i]@ == pv[t as int];
                    assert(false);
                }
                assert forall|i: int| 0 <= i < keys@.len() implies #[trigger] counts@[i] as nat
                    == occ(pvt1, keys@[i]@) && 1 <= counts@[i] <= t + 1 by {
                    if i < oldks.len() {
                        assert(keys@[i]@ == oldks[i]@);
                        assert(oldks[i]@ != pv[t as int]);
                        assert(occ(pvt1, keys@[i]@) == occ(pvt, keys@[i]@));
                    } else {
                        assert(keys@[i]@ == pv[t as int]);
                        assert(occ(pvt, pv[t as int]) == 0);
                        assert(occ(pvt1, keys@[i]@) == 1);
                    }
                }
                assert forall|i: int, j: int|
                    0 <= i < j < keys@.len() implies #[trigger] keys@[i]@
                    != #[trigger] keys@[j]@ by {
                    if j < oldks.len() {
                    } else {
                        assert(keys@[j]@ == pv[t as int]);
                        assert(oldks[i]@ != pv[t as int]);
                    }
                }
                assert forall|p: Seq<char>| occ(pvt1, p) > 0 implies has_key(keys@, p) by {
                    assert(occ(pvt1, p) == occ(pvt, p) + (if pv[t as int] == p {
                        1nat
                    } else {
                        0nat
                    }));
                    if occ(pv.take(t as int), p) > 0 {
                        assert(has_key(oldks, p));
                        let i = choose|i: int|
                            0 <= i < oldks.len() && #[trigger] oldks[i]@ == p;
                        assert(keys@[i]@ == p);
                    } else {
                        assert(p == pv[t as int]);
                        assert(keys@[oldks.len() as int]@ == p);
                    }
                }
            }
        }
        t += 1;
    }
    proof {
        assert(pv.take(pv.len() as int) =~= pv);
    }
    (keys, counts)
}

/// First position whose entry counts less than `c`, in a descending vector.
fn find_desc_pos(v: &Vec<TrustedPrefix>, c: i32) -> (pos: usize)
    ensures
        pos <= v@.len(),
        forall|i: int| 0 <= i < pos ==> #[trigger] v@[i]@.count >= c as int,
        pos < v@.len() ==> v@[pos as int]@.count < c as int,
{
    let mut pos: usize = 0;
    while pos < v.len() && v[pos].count >= c
        invariant
            pos <= v@.len(),
            forall|i: int| 0 <= i < pos ==> #[trigger] v@[i]@.count >= c as int,
        decreases v@.len() - pos,
    {
        pos += 1;
    }
    pos
}


/// The scan-derived candidates: one sound entry per tallied prefix that was
/// seen at least twice and is not system-reserved, ordered by descending
/// count.
#[verifier::rlimit(100)]
fn build_candidates(output: &str, keys: &Vec<String>, counts: &Vec<usize>) -> (cand: Vec<
    TrustedPrefix,
>)
    requires
        keys@.len() == counts@.len(),
        output@.len() < 0x7fff_ffff,
        forall|i: int|
            0 <= i < keys@.len() ==> #[trigger] counts@[i] as nat == tally_of(output@, keys@[i]@)
                && 1 <= counts@[i] <= output@.len() + 1,
    ensures
        sorted_desc(cand@),
        forall|j: int| 0 <= j < cand@.len() ==> scan_entry_ok(output@, #[trigger] cand@[j]@),
        forall|i: int|
            0 <= i < keys@.len() && counts@[i] >= 2 && !denylisted(#[trigger] keys@[i]@)
                ==> cand_has(cand@, keys@[i]@),
{
    let mut cand: Vec<TrustedPrefix> = Vec::new();
    let mut k: usize = 0;
    while k < keys.len()
        invariant
            keys@.len() == counts@.len(),
            k <= keys@.len(),
            output@.len() < 0x7fff_ffff,
            forall|i: int|
                0 <= i < keys@.len() ==> #[trigger] counts@[i] as nat == tally_of(
                    output@,
                    keys@[i]@,
                ) && 1 <= counts@[i] <= output@.len() + 1,
            sorted_desc(cand@),
            forall|j: int| 0 <= j < cand@.len() ==> scan_entry_ok(output@, #[trigger] cand@[j]@),
            forall|i: int|
                0 <= i < k && counts@[i] >= 2 && !denylisted(#[trigger] keys@[i]@) ==> cand_has(
                    cand@,
                    keys@[i]@,
                ),
        decreases keys@.len() - k,
    {
        let keep = counts[k] >= 2 && !is_denylisted(keys[k].as_str());
        if keep {
            let e = TrustedPrefix {
                prefix: keys[k].clone(),
                count: counts[k] as i32,
                source: String::from_str("device_scan"),
            };
            let ghost oldc = cand@;
            proof {
                assert(scan_entry_ok(output@, e@));
            }
            insert_sorted_desc(&mut cand, e);
            proof {
                assert forall|j: int|
                    0 <= j < cand@.len() implies scan_entry_ok(
                    output@,
                    #[trigger] cand@[j]@,
                ) by {
                    if cand@[j]@ == e@ {
                    } else {
                        let i = choose|i: int|
                            0 <= i < oldc.len() && cand@[j]@ == #[trigger] oldc[i]@;
                        assert(scan_entry_ok(output@, oldc[i]@));
                    }
                }
                assert forall|i: int|
                    0 <= i < k + 1 && counts@[i] >= 2 && !denylisted(
                    #[trigger] keys@[i]@,
                ) implies cand_has(cand@, keys@[i]@) by {
                    if i == k {
                        let j = choose|j: int| 0 <= j < cand@.len() && #[trigger] cand@[j]@ == e@;
                        assert(cand@[j]@.prefix == keys@[i]@);
                    } else {
                        assert(cand_has(oldc, keys@[i]@));
                        let j0 = choose|j0: int|
                            0 <= j0 < oldc.len() && #[trigger] oldc[j0]@.prefix == keys@[i]@;
                        let j = choose|j: int|
                            0 <= j < cand@.len() && cand@[j]@ == #[trigger] oldc[j0]@;
                        assert(cand@[j]@.prefix == keys@[i]@);
                    }
                }
            }
        }
        k += 1;
    }
    cand
}

/// The ranked trusted prefixes of one raw package listing: the two curated
/// recommendations first, then every prefix that at least two scanned
/// packages share and that is not system-reserved, ordered by descending
/// occurrence count, each carrying its exact tally. Prefixes seen only once,
/// and system-reserved prefixes, never appear.
pub fn scan_trusted_prefixes(output: &str) -> (r: Vec<TrustedPrefix>)
    requires
        output@.len() < 0x7fff_ffff,
    ensures
        r@.len() >= 2,
        r@[0]@ == recommended_first(),
        r@[1]@ == recommended_second(),
        forall|k: int| 2 <= k < r@.len() ==> scan_entry_ok(output@, #[trigger] r@[k]@),
        forall|k: int, k2: int|
            2 <= k <= k2 < r@.len() ==> #[trigger] r@[k]@.count >= #[trigger] r@[k2]@.count,
        forall|p: Seq<char>|
            #![trigger tally_of(output@, p)]
            tally_of(output@, p) >= 2 && !denylisted(p) ==> scan_includes(r@, p),
{
    let prefs = collect_prefixes(output);
    let ghost pv = scanned_prefixes(lines_of(output@));
    proof {
        assert(views_of(prefs@) =~= pv);
        crate::text::lemma_lines_of_len(output@);
        lemma_scanned_le_len(lines_of(output@));
        assert(prefs@.len() == pv.len());
    }
    let (keys, counts) = tally_prefixes(&prefs);
    proof {
        assert forall|i: int| 0 <= i < keys@.len() implies #[trigger] counts@[i] as nat
            == tally_of(output@, keys@[i]@) && 1 <= counts@[i] <= output@.len() + 1 by {
            assert(counts@[i] as nat == occ(views_of(prefs@), keys@[i]@));
        }
    }
    let mut cand = build_candidates(output, &keys, &counts);
    let ghost candv = cand@;
    let mut r: Vec<TrustedPrefix> = Vec::new();
    r.push(
        TrustedPrefix {
            prefix: String::from_str("cn.chinapost"),
            count: 999,
            source: String::from_str("recommended"),
        },
    );
    r.push(
        TrustedPrefix {
            prefix: String::from_str("com.nlscan"),
            count: 100,
            source: String::from_str("recommended"),
        },
    );
    while cand.len() > 0
        invariant
            r@.len() == 2 + candv.len() - cand@.len(),
            cand@.len() <= candv.len(),
            r@[0]@ == recommended_first(),
            r@[1]@ == recommended_second(),
            cand@ == candv.skip(candv.len() - cand@.len()),
            forall|j: int| 2 <= j < r@.len() ==> #[trigger] r@[j] == candv[j - 2],
        decreases cand@.len(),
    {
        let ghost done = candv.len() - cand@.len();
        let e = cand.remove(0);
        proof {
            candv.skip(done).remove_ensures(0);
            assert(e == candv.skip(done)[0]);
            assert(e == candv[done]);
            assert(candv.skip(done).remove(0) =~= candv.skip(done + 1));
        }
        r.push(e);
    }
    proof {
        assert(candv.skip(0) =~= candv);
        assert forall|k2: int| 2 <= k2 < r@.len() implies scan_entry_ok(
            output@,
            #[trigger] r@[k2]@,
        ) by {
            assert(r@[k2] == candv[k2 - 2]);
        }
        assert forall|ka: int, kb: int|
            2 <= ka <= kb < r@.len() implies #[trigger] r@[ka]@.count
            >= #[trigger] r@[kb]@.count by {
            assert(r@[ka] == candv[ka - 2] && r@[kb] == candv[kb - 2]);
            assert(candv[ka - 2]@.count >= candv[kb - 2]@.count);
        }
        assert forall|p: Seq<char>|
            #![trigger tally_of(output@, p)]
            tally_of(output@, p) >= 2 && !denylisted(p) implies scan_includes(r@, p) by {
            assert(occ(views_of(prefs@), p) == tally_of(output@, p));
            assert(has_key(keys@, p));
            let i = choose|i: int| 0 <= i < keys@.len() && #[trigger] keys@[i]@ == p;
            assert(counts@[i] as nat == tally_of(output@, p));
            assert(cand_has(candv, p));
            let j = choose|j: int| 0 <= j < candv.len() && #[trigger] candv[j]@.prefix == p;
            assert(r@[j + 2]@.prefix == p);
            assert(2 <= j + 2 < r@.len());
        }
    }
    r
}

} // verus!
