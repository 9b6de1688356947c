//! Parsing of the device bridge tool's output.
//!
//! The callers run `adb version` and `adb devices -l` and hand the captured
//! text here; everything below is pure and verified.

use vstd::prelude::*;
use crate::text::{
    contains_seq, contains_str, first_token, first_token_str, is_blank, lines, lines_of,
    views_match,
};

verus! {

/// The status marker that identifies a usable device line.
pub open spec fn device_marker() -> Seq<char> {
    "device"@
}

/// A listing line is kept when it is not blank and carries the device marker.
pub open spec fn device_line_kept(l: Seq<char>) -> bool {
    !is_blank(l) && contains_seq(l, device_marker())
}

/// The identifier a kept line reports: its first whitespace-delimited token.
pub open spec fn device_id_of(l: Seq<char>) -> Seq<char> {
    first_token(l)
}

/// The identifiers of the kept lines, in order.
pub open spec fn kept_ids(ls: Seq<Seq<char>>) -> Seq<Seq<char>>
    decreases ls.len(),
{
    if ls.len() == 0 {
        Seq::<Seq<char>>::empty()
    } else {
        let rest = kept_ids(ls.drop_last());
        if device_line_kept(ls.last()) {
            rest.push(device_id_of(ls.last()))
        } else {
            rest
        }
    }
}

/// What a device listing denotes: the identifiers of the kept lines after the
/// header line.
pub open spec fn devices_of(out: Seq<char>) -> Seq<Seq<char>> {
    let ls = lines_of(out);
    if ls.len() == 0 {
        Seq::<Seq<char>>::empty()
    } else {
        kept_ids(ls.skip(1))
    }
}

/// The capability probe reports the tool available exactly when its process
/// could be launched and exited successfully.
pub fn check_adb(version_probe: Option<bool>) -> (r: bool)
    ensures
        r == (version_probe == Some(true)),
{
    match version_probe {
        Some(ok) => ok,
        None => false,
    }
}

/// The connected device identifiers in a `devices -l` listing: the header
/// line is dropped, blank lines and lines without the device marker are
/// dropped, and each remaining line contributes its first token.
pub fn get_devices(output: &str) -> (r: Vec<String>)
    ensures
        views_match(r@, devices_of(output@)),
{
    let all_lines = lines(output);
    let mut r: Vec<String> = Vec::new();
    if all_lines.len() == 0 {
        return r;
    }
    let ghost tail = lines_of(output@).skip(1);
    let mut j: usize = 0;
    while j < all_lines.len() - 1
        invariant
            views_match(all_lines@, lines_of(output@)),
            all_lines@.len() >= 1,
            tail == lines_of(output@).skip(1),
            j <= tail.len(),
            tail.len() == all_lines@.len() - 1,
            views_match(r@, kept_ids(tail.take(j as int))),
        decreases all_lines@.len() - j,
    {
        let line = &all_lines[j + 1];
        proof {
            assert(tail.take(j + 1).drop_last() =~= tail.take(j as int));
            assert(tail.take(j + 1).last() == lines_of(output@)[j + 1]);
        }
        let token = first_token_str(line.as_str());
        match token {
            Some(t) => {
                if contains_str(line.as_str(), "device") {
                    r.push(t);
                } else {
                }
            },
            None => {},
        }
        j += 1;
    }
    proof {
        assert(tail.take(tail.len() as int) =~= tail);
    }
    r
}

/// Identifier `ids[k]` is the identifier of some kept line of `ls` at or
/// after position `lo`.
pub open spec fn drawn_from(ids: Seq<Seq<char>>, ls: Seq<Seq<char>>, lo: int, k: int) -> bool {
    exists|i: int|
        lo <= i < ls.len() && device_line_kept(#[trigger] ls[i]) && ids[k] == device_id_of(ls[i])
}

/// Every reported identifier is the first token of a line that is not blank
/// and carries the device marker; unrecognized lines contribute nothing.
pub proof fn lemma_kept_ids_sound(ls: Seq<Seq<char>>)
    ensures
        forall|k: int|
            0 <= k < kept_ids(ls).len() ==> #[trigger] drawn_from(kept_ids(ls), ls, 0, k),
    decreases ls.len(),
{
    if ls.len() > 0 {
        lemma_kept_ids_sound(ls.drop_last());
        assert forall|k: int| 0 <= k < kept_ids(ls).len() implies #[trigger] drawn_from(
            kept_ids(ls),
            ls,
            0,
            k,
        ) by {
            let rest = kept_ids(ls.drop_last());
            if k < rest.len() {
                assert(drawn_from(rest, ls.drop_last(), 0, k));
                let i = choose|i: int|
                    0 <= i < ls.drop_last().len() && device_line_kept(#[trigger] ls.drop_last()[i])
                        && rest[k] == device_id_of(ls.drop_last()[i]);
                assert(ls.drop_last()[i] == ls[i]);
                assert(device_line_kept(ls[i]) && kept_ids(ls)[k] == device_id_of(ls[i]));
            } else {
                let i = ls.len() - 1;
                assert(device_line_kept(ls[i]) && kept_ids(ls)[k] == device_id_of(ls[i]));
            }
        }
    }
}

/// The header line is always excluded, and so is every line that is blank or
/// lacks the device marker: each listed identifier comes from a kept line
/// strictly after the first.
pub proof fn lemma_devices_sound(out: Seq<char>)
    ensures
        forall|k: int|
            0 <= k < devices_of(out).len() ==> #[trigger] drawn_from(
                devices_of(out),
                lines_of(out),
                1,
                k,
            ),
{
    let ls = lines_of(out);
    if ls.len() > 0 {
        let tail = ls.skip(1);
        lemma_kept_ids_sound(tail);
        assert forall|k: int| 0 <= k < devices_of(out).len() implies #[trigger] drawn_from(
            devices_of(out),
            ls,
            1,
            k,
        ) by {
            assert(drawn_from(kept_ids(tail), tail, 0, k));
            let j = choose|j: int|
                0 <= j < tail.len() && device_line_kept(#[trigger] tail[j]) && kept_ids(tail)[k]
                    == device_id_of(tail[j]);
            assert(tail[j] == ls[j + 1]);
            assert(device_line_kept(ls[j + 1]) && devices_of(out)[k] == device_id_of(ls[j + 1]));
        }
    }
}

} // verus!
