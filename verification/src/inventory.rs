//! The installed-application inventory.
//!
//! Two package listings — the full one with APK paths, the system-only one —
//! are parsed into application records: the package name is everything after
//! the last equals sign of a `package:` line, the display name is derived
//! from the last name segment, and the records are ordered case-insensitively
//! by display name.

use vstd::prelude::*;
use crate::text::{
    contains_seq, contains_str, is_upper, is_upper_char, lex_le, lemma_lex_le_total,
    lemma_lex_le_trans, lines, lines_of, lower_of, lowercase, rfind_char, rfind_in, split_on,
    split_str, starts_with_seq, str_lex_le, strip_prefix_str, trim_of, trim_str, views_match,
};
use crate::prefixes::package_marker;
use vstd::string::StrSliceExecFns;
use vstd::string::StringExecFns;

verus! {

/// One installed application.
pub struct AppInfo {
    pub package_name: String,
    pub app_name: String,
    pub version: String,
    pub is_system: bool,
}

/// The mathematical content of an `AppInfo`.
pub struct AppInfoView {
    pub package_name: Seq<char>,
    pub app_name: Seq<char>,
    pub version: Seq<char>,
    pub is_system: bool,
}

impl View for AppInfo {
    type V = AppInfoView;

    open spec fn view(&self) -> AppInfoView {
        AppInfoView {
            package_name: self.package_name@,
            app_name: self.app_name@,
            version: self.version@,
            is_system: self.is_system,
        }
    }
}

// ---------------------------------------------------------------------------
// Display names
// ---------------------------------------------------------------------------

/// The readable form of a name segment: a space goes in before every
/// uppercase letter that is not the first character, and every underscore
/// becomes a space.
pub open spec fn display_of(s: Seq<char>) -> Seq<char>
    decreases s.len(),
{
    if s.len() == 0 {
        Seq::<char>::empty()
    } else {
        let c = s.last();
        let mapped = if c == '_' {
            ' '
        } else {
            c
        };
        display_of(s.drop_last()) + (if s.len() > 1 && is_upper_char(c) {
            seq![' ', mapped]
        } else {
            seq![mapped]
        })
    }
}

/// The last dot-delimited segment of a package name.
pub open spec fn last_segment(pkg: Seq<char>) -> Seq<char> {
    split_on(pkg, '.').last()
}

/// The display name of a package: the readable form of its last segment.
pub open spec fn display_name_of(pkg: Seq<char>) -> Seq<char> {
    display_of(last_segment(pkg))
}

/// The display name of a package, as `display_name_of` describes it.
pub fn derive_display_name(package_name: &str) -> (r: String)
    ensures
        r@ == display_name_of(package_name@),
{
    let parts = split_str(package_name, '.');
    let seg = &parts[parts.len() - 1];
    let n = seg.as_str().unicode_len();
    let mut out = String::new();
    let mut i: usize = 0;
    proof {
        reveal_strlit(" ");
        assert(seg@ == last_segment(package_name@));
        assert(seg@.take(0) =~= Seq::<char>::empty());
        assert(out@ =~= display_of(seg@.take(0)));
    }
    while i < n
        invariant
            n == seg@.len(),
            i <= n,
            " "@ == seq![' '],
            out@ == display_of(seg@.take(i as int)),
        decreases n - i,
    {
        proof {
            assert(seg@.take(i + 1).drop_last() =~= seg@.take(i as int));
            assert(seg@.take(i + 1).last() == seg@[i as int]);
        }
        let c = seg.as_str().get_char(i);
        if i > 0 && is_upper(c) {
            out.append(" ");
        }
        if c == '_' {
            out.append(" ");
        } else {
            out.append(seg.as_str().substring_char(i, i + 1));
        }
        proof {
            assert(out@ =~= display_of(seg@.take(i + 1)));
        }
        i += 1;
    }
    proof {
        assert(seg@.take(n as int) =~= seg@);
    }
    out
}

// ---------------------------------------------------------------------------
// Parsing the two listings
// ---------------------------------------------------------------------------

/// The trimmed package names of the system-only listing's lines.
pub open spec fn system_packages_of(ls: Seq<Seq<char>>) -> Seq<Seq<char>>
    decreases ls.len(),
{
    if ls.len() == 0 {
        Seq::<Seq<char>>::empty()
    } else {
        let rest = system_packages_of(ls.drop_last());
        if starts_with_seq(ls.last(), package_marker()) {
            rest.push(trim_of(ls.last().skip(package_marker().len() as int)))
        } else {
            rest
        }
    }
}

/// Package `p` occurs in the system listing.
pub open spec fn in_system(sys: Seq<Seq<char>>, p: Seq<char>) -> bool {
    exists|i: int| 0 <= i < sys.len() && #[trigger] sys[i] == p
}

/// The record one full-listing line denotes, if any: the line must open with
/// the package marker and carry an equals sign; the package name is the
/// trimmed text after the last equals sign.
pub open spec fn app_of(l: Seq<char>, sys: Seq<Seq<char>>) -> Option<AppInfoView> {
    if starts_with_seq(l, package_marker()) {
        let content = l.skip(package_marker().len() as int);
        match rfind_in(content, '=') {
            Some(e) => {
                let pkg = trim_of(content.skip(e + 1));
                Some(
                    AppInfoView {
                        package_name: pkg,
                        app_name: display_name_of(pkg),
                        version: Seq::<char>::empty(),
                        is_system: in_system(sys, pkg),
                    },
                )
            },
            None => None,
        }
    } else {
        None
    }
}

/// The records of all qualifying lines, in listing order.
pub open spec fn apps_of(ls: Seq<Seq<char>>, sys: Seq<Seq<char>>) -> Seq<AppInfoView>
    decreases ls.len(),
{
    if ls.len() == 0 {
        Seq::<AppInfoView>::empty()
    } else {
        let rest = apps_of(ls.drop_last(), sys);
        match app_of(ls.last(), sys) {
            Some(v) => rest.push(v),
            None => rest,
        }
    }
}

/// What the two listings denote before ordering.
pub open spec fn inventory_of(all_out: Seq<char>, sys_out: Seq<char>) -> Seq<AppInfoView> {
    apps_of(lines_of(all_out), system_packages_of(lines_of(sys_out)))
}

/// Record `x` occurs in `b`.
pub open spec fn view_in(x: AppInfoView, b: Seq<AppInfoView>) -> bool {
    exists|i: int| 0 <= i < b.len() && #[trigger] b[i] == x
}

/// Record `x` occurs among the views of `a`.
pub open spec fn rev_in(x: AppInfoView, a: Seq<AppInfo>) -> bool {
    exists|k: int| 0 <= k < a.len() && #[trigger] a[k]@ == x
}

/// Every record of `a` comes from `b`: nothing invented.
pub open spec fn all_in(a: Seq<AppInfo>, b: Seq<AppInfoView>) -> bool {
    forall|k: int| 0 <= k < a.len() ==> view_in(#[trigger] a[k]@, b)
}

/// Every record of `b` stands in `a`: nothing lost.
pub open spec fn all_covered(b: Seq<AppInfoView>, a: Seq<AppInfo>) -> bool {
    forall|i: int| 0 <= i < b.len() ==> rev_in(#[trigger] b[i], a)
}

/// Records ordered case-insensitively by display name.
pub open spec fn sorted_by_name(s: Seq<AppInfo>) -> bool {
    forall|i: int, j: int|
        0 <= i <= j < s.len() ==> lex_le(
            lower_of(#[trigger] s[i]@.app_name),
            lower_of(#[trigger] s[j]@.app_name),
        )
}

/// The trimmed system package names, as `system_packages_of` describes them.
fn collect_system_packages(system_output: &str) -> (r: Vec<String>)
    ensures
        views_match(r@, system_packages_of(lines_of(system_output@))),
{
    let ls = lines(system_output);
    let ghost lsv = lines_of(system_output@);
    let mut out: Vec<String> = Vec::new();
    let mut j: usize = 0;
    proof {
        assert(lsv.take(0) =~= Seq::<Seq<char>>::empty());
    }
    while j < ls.len()
        invariant
            views_match(ls@, lsv),
            j <= ls@.len(),
            views_match(out@, system_packages_of(lsv.take(j as int))),
        decreases ls@.len() - j,
    {
        proof {
            assert(lsv.take(j + 1).drop_last() =~= lsv.take(j as int));
            assert(lsv.take(j + 1).last() == lsv[j as int]);
        }
        match strip_prefix_str(ls[j].as_str(), "package:") {
            Some(rest) => {
                out.push(trim_str(rest));
            },
            None => {},
        }
        j += 1;
    }
    proof {
        assert(lsv.take(lsv.len() as int) =~= lsv);
    }
    out
}

/// `p` occurs among the collected system packages.
fn is_system_package(sys: &Vec<String>, p: &str) -> (r: bool)
    ensures
        r == in_system(sys@.map_values(|q: String| q@), p@),
{
    let ghost sv = sys@.map_values(|q: String| q@);
    let mut i: usize = 0;
    while i < sys.len()
        invariant
            sv == sys@.map_values(|q: String| q@),
            i <= sys@.len(),
            forall|k: int| 0 <= k < i ==> #[trigger] sv[k] != p@,
        decreases sys@.len() - i,
    {
        if crate::text::str_eq(sys[i].as_str(), p) {
            proof {
                assert(sv[i as int] == p@);
            }
            return true;
        }
        i += 1;
    }
    false
}

/// The record one line denotes, as `app_of` describes it.
fn app_of_line(l: &str, sys: &Vec<String>) -> (r: Option<AppInfo>)
    ensures
        match r {
            Some(a) => app_of(l@, sys@.map_values(|q: String| q@)) == Some(a@),
            None => app_of(l@, sys@.map_values(|q: String| q@)) is None,
        },
{
    let content = match strip_prefix_str(l, "package:") {
        Some(c) => c,
        None => {
            return None;
        },
    };
    let clen = content.unicode_len();
    let e = match rfind_char(content, '=') {
        Some(e) => e,
        None => {
            return None;
        },
    };
    let pkg = trim_str(content.substring_char(e + 1, clen));
    let app_name = derive_display_name(pkg.as_str());
    let is_system = is_system_package(sys, pkg.as_str());
    Some(AppInfo { package_name: pkg, app_name, version: String::new(), is_system })
}

/// What holds after placing `x` at position `p` of a name-ordered sequence,
/// when everything before `p` orders at or before `x` and `x` orders at or
/// before the element at `p`, if any.
proof fn lemma_insert_named(prev: Seq<AppInfo>, x: AppInfo, p: int)
    requires
        0 <= p <= prev.len(),
        sorted_by_name(prev),
        forall|i: int|
            0 <= i < p ==> lex_le(lower_of(#[trigger] prev[i]@.app_name), lower_of(x@.app_name)),
        p < prev.len() ==> lex_le(lower_of(x@.app_name), lower_of(prev[p]@.app_name)),
    ensures
        sorted_by_name(prev.insert(p, x)),
        prev.insert(p, x).len() == prev.len() + 1,
        forall|j: int|
            0 <= j < prev.insert(p, x).len() ==> (#[trigger] prev.insert(p, x)[j]@ == x@
                || exists|i: int| 0 <= i < prev.len() && prev.insert(p, x)[j]@
                == #[trigger] prev[i]@),
        exists|j: int| 0 <= j < prev.insert(p, x).len() && #[trigger] prev.insert(p, x)[j]@ == x@,
        forall|i: int|
            0 <= i < prev.len() ==> exists|j: int|
                0 <= j < prev.insert(p, x).len() && prev.insert(p, x)[j]@
                    == #[trigger] prev[i]@,
{
    prev.insert_ensures(p, x);
    let cur = prev.insert(p, x);
    assert forall|i: int, j: int| 0 <= i <= j < cur.len() implies lex_le(
        lower_of(#[trigger] cur[i]@.app_name),
        lower_of(#[trigger] cur[j]@.app_name),
    ) by {
        if j < p {
            assert(cur[i] == prev[i] && cur[j] == prev[j]);
        } else if j == p {
            if i < p {
                assert(cur[i] == prev[i]);
            } else {
                lemma_lex_le_total(lower_of(x@.app_name), lower_of(x@.app_name));
            }
        } else {
            assert(cur[j] == prev[j - 1]);
            if i < p {
                assert(cur[i] == prev[i]);
                assert(lex_le(lower_of(prev[i]@.app_name), lower_of(x@.app_name)));
                assert(lex_le(lower_of(x@.app_name), lower_of(prev[p]@.app_name)));
                assert(lex_le(lower_of(prev[p]@.app_name), lower_of(prev[j - 1]@.app_name)));
                lemma_lex_le_trans(
                    lower_of(prev[i]@.app_name),
                    lower_of(x@.app_name),
                    lower_of(prev[p]@.app_name),
                );
                lemma_lex_le_trans(
                    lower_of(prev[i]@.app_name),
                    lower_of(prev[p]@.app_name),
                    lower_of(prev[j - 1]@.app_name),
                );
            } else if i == p {
                assert(lex_le(lower_of(x@.app_name), lower_of(prev[p]@.app_name)));
                assert(lex_le(lower_of(prev[p]@.app_name), lower_of(prev[j - 1]@.app_name)));
                lemma_lex_le_trans(
                    lower_of(x@.app_name),
                    lower_of(prev[p]@.app_name),
                    lower_of(prev[j - 1]@.app_name),
                );
            } else {
                assert(cur[i] == prev[i - 1]);
            }
        }
    }
    assert(cur[p]@ == x@);
    assert forall|j: int| 0 <= j < cur.len() implies (#[trigger] cur[j]@ == x@ || exists|i: int|
        0 <= i < prev.len() && cur[j]@ == #[trigger] prev[i]@) by {
        if j < p {
            assert(cur[j]@ == prev[j]@);
        } else if j > p {
            assert(cur[j]@ == prev[j - 1]@);
        }
    }
    assert forall|i: int| 0 <= i < prev.len() implies exists|j: int|
        0 <= j < cur.len() && cur[j]@ == #[trigger] prev[i]@ by {
        if i < p {
            assert(cur[i]@ == prev[i]@);
        } else {
            assert(cur[i + 1]@ == prev[i]@);
        }
    }
}

/// Adding `x` to a vector keeps both membership directions with respect to
/// the record sequence extended by `x`.
proof fn lemma_membership_step(
    oldr: Seq<AppInfo>,
    newr: Seq<AppInfo>,
    before: Seq<AppInfoView>,
    xv: AppInfoView,
)
    requires
        all_in(oldr, before),
        all_covered(before, oldr),
        forall|j: int|
            0 <= j < newr.len() ==> (#[trigger] newr[j]@ == xv || exists|i: int|
                0 <= i < oldr.len() && newr[j]@ == #[trigger] oldr[i]@),
        exists|j: int| 0 <= j < newr.len() && #[trigger] newr[j]@ == xv,
        forall|i: int|
            0 <= i < oldr.len() ==> exists|j: int|
                0 <= j < newr.len() && newr[j]@ == #[trigger] oldr[i]@,
    ensures
        all_in(newr, before.push(xv)),
        all_covered(before.push(xv), newr),
{
    let after = before.push(xv);
    assert forall|k: int| 0 <= k < newr.len() implies view_in(#[trigger] newr[k]@, after) by {
        if newr[k]@ == xv {
            assert(after[after.len() - 1] == newr[k]@);
        } else {
            let i0 = choose|i0: int| 0 <= i0 < oldr.len() && newr[k]@ == #[trigger] oldr[i0]@;
            assert(view_in(oldr[i0]@, before));
            let i1 = choose|i1: int| 0 <= i1 < before.len() && #[trigger] before[i1] == oldr[i0]@;
            assert(after[i1] == newr[k]@);
        }
    }
    assert forall|i: int| 0 <= i < after.len() implies rev_in(#[trigger] after[i], newr) by {
        if i == before.len() {
            let j = choose|j: int| 0 <= j < newr.len() && #[trigger] newr[j]@ == xv;
            assert(newr[j]@ == after[i]);
        } else {
            assert(rev_in(before[i], oldr));
            let k0 = choose|k0: int| 0 <= k0 < oldr.len() && #[trigger] oldr[k0]@ == before[i];
            let j = choose|j: int| 0 <= j < newr.len() && newr[j]@ == #[trigger] oldr[k0]@;
            assert(newr[j]@ == after[i]);
        }
    }
}

/// First position whose entry orders strictly after `x` by lowercased display
/// name.
fn find_name_pos(v: &Vec<AppInfo>, x: &AppInfo) -> (pos: usize)
    requires
        sorted_by_name(v@),
    ensures
        pos <= v@.len(),
        forall|i: int|
            0 <= i < pos ==> lex_le(lower_of(#[trigger] v@[i]@.app_name), lower_of(x@.app_name)),
        pos < v@.len() ==> lex_le(lower_of(x@.app_name), lower_of(v@[pos as int]@.app_name)),
{
    let xl = lowercase(x.app_name.as_str());
    let mut pos: usize = 0;
    while pos < v.len()
        invariant
            xl@ == lower_of(x@.app_name),
            pos <= v@.len(),
            forall|i: int|
                0 <= i < pos ==> lex_le(
                    lower_of(#[trigger] v@[i]@.app_name),
                    lower_of(x@.app_name),
                ),
        decreases v@.len() - pos,
    {
        let el = lowercase(v[pos].app_name.as_str());
        if !str_lex_le(el.as_str(), xl.as_str()) {
            proof {
                lemma_lex_le_total(lower_of(v@[pos as int]@.app_name), lower_of(x@.app_name));
            }
            return pos;
        }
        pos += 1;
    }
    pos
}

/// Keeps `v` ordered by lowercased display name while adding `x`, losing
/// nothing and inventing nothing.
fn insert_by_name(v: &mut Vec<AppInfo>, x: AppInfo)
    requires
        sorted_by_name(old(v)@),
    ensures
        sorted_by_name(final(v)@),
        final(v)@.len() == old(v)@.len() + 1,
        forall|j: int|
            0 <= j < final(v)@.len() ==> (#[trigger] final(v)@[j]@ == x@ || exists|i: int|
                0 <= i < old(v)@.len() && final(v)@[j]@ == #[trigger] old(v)@[i]@),
        exists|j: int| 0 <= j < final(v)@.len() && #[trigger] final(v)@[j]@ == x@,
        forall|i: int|
            0 <= i < old(v)@.len() ==> exists|j: int|
                0 <= j < final(v)@.len() && final(v)@[j]@ == #[trigger] old(v)@[i]@,
{
    let pos = find_name_pos(v, &x);
    let ghost prev = v@;
    let ghost p = pos as int;
    proof {
        lemma_insert_named(prev, x, p);
    }
    v.insert(pos, x);
    proof {
        assert(v@ == prev.insert(p, x));
    }
}

/// Reports whether the uninstall command's output carries the success marker;
/// any other output means failure.
pub fn uninstall_app(stdout: &str) -> (r: bool)
    ensures
        r == contains_seq(stdout@, "Success"@),
{
    contains_str(stdout, "Success")
}

/// The installed applications the two listings describe: one record per
/// qualifying line of the full listing, classified against the system-only
/// listing, named as `display_name_of` describes, and ordered
/// case-insensitively ascending by display name — with nothing lost and
/// nothing invented.
pub fn get_installed_apps(all_output: &str, system_output: &str) -> (r: Vec<AppInfo>)
    ensures
        r@.len() == inventory_of(all_output@, system_output@).len(),
        sorted_by_name(r@),
        all_in(r@, inventory_of(all_output@, system_output@)),
        all_covered(inventory_of(all_output@, system_output@), r@),
{
    let sys = collect_system_packages(system_output);
    let ghost sysv = system_packages_of(lines_of(system_output@));
    proof {
        assert(sys@.map_values(|q: String| q@) =~= sysv);
    }
    let ls = lines(all_output);
    let ghost lsv = lines_of(all_output@);
    let mut r: Vec<AppInfo> = Vec::new();
    let mut j: usize = 0;
    proof {
        assert(lsv.take(0) =~= Seq::<Seq<char>>::empty());
    }
    while j < ls.len()
        invariant
            views_match(ls@, lsv),
            j <= ls@.len(),
            sys@.map_values(|q: String| q@) == sysv,
            sorted_by_name(r@),
            r@.len() == apps_of(lsv.take(j as int), sysv).len(),
            all_in(r@, apps_of(lsv.take(j as int), sysv)),
            all_covered(apps_of(lsv.take(j as int), sysv), r@),
        decreases ls@.len() - j,
    {
        let ghost before = apps_of(lsv.take(j as int), sysv);
        let ghost after = apps_of(lsv.take(j + 1), sysv);
        proof {
            assert(lsv.take(j + 1).drop_last() =~= lsv.take(j as int));
            assert(lsv.take(j + 1).last() == lsv[j as int]);
        }
        let ghost oldr = r@;
        match app_of_line(ls[j].as_str(), &sys) {
            Some(a) => {
                let ghost av = a@;
                proof {
                    assert(after == before.push(av));
                }
                insert_by_name(&mut r, a);
                proof {
                    lemma_membership_step(oldr, r@, before, av);
                }
            },
            None => {
                proof {
                    assert(after == before);
                }
            },
        }
        j += 1;
    }
    proof {
        assert(lsv.take(lsv.len() as int) =~= lsv);
    }
    r
}

} // verus!
