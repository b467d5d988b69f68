//! Schema migrations: which of the known migrations still have to run on a
//! database, and in what order. Running their statements is the caller's
//! part.

use vstd::prelude::*;
use crate::text::{decimal_int, push_decimal_i64, push_str};

verus! {

/// Migration `a` (at index `ia`) runs before migration `b` (at `ib`): lower
/// id first; equal ids keep their listed order.
pub open spec fn runs_before(ids: Seq<i64>, ia: usize, ib: usize) -> bool {
    ids[ia as int] < ids[ib as int] || (ids[ia as int] == ids[ib as int] && ia < ib)
}

/// The migrations (given by their ids, in listed order) above the recorded
/// schema version `current`, as indices in the order they run: by id, not
/// by position, so one listed in the wrong slot still runs in order.
pub fn pending_migrations(ids: &[i64], current: i64) -> (r: Vec<usize>)
    ensures
        forall|q: int| 0 <= q < r@.len() ==> (#[trigger] r@[q]) < ids@.len() && ids@[r@[q] as int] > current,
        forall|i: int| 0 <= i < ids@.len() && #[trigger] ids@[i] > current ==> r@.contains(i as usize),
        forall|a: int, b: int| 0 <= a < b < r@.len() ==> runs_before(ids@, #[trigger] r@[a], #[trigger] r@[b]),
{
    let mut out: Vec<usize> = Vec::new();
    let mut i: usize = 0;
    while i < ids.len()
        invariant
            i <= ids@.len(),
            forall|q: int| 0 <= q < out@.len() ==> (#[trigger] out@[q]) < i && ids@[out@[q] as int] > current,
            forall|k: int| 0 <= k < i && #[trigger] ids@[k] > current ==> out@.contains(k as usize),
            forall|a: int, b: int| 0 <= a < b < out@.len() ==> runs_before(ids@, #[trigger] out@[a], #[trigger] out@[b]),
        decreases ids.len() - i,
    {
        if ids[i] > current {
            let key = ids[i];
            let mut pos: usize = 0;
            while pos < out.len() && ids[out[pos]] <= key
                invariant
                    pos <= out@.len(),
                    forall|q: int| 0 <= q < out@.len() ==> (#[trigger] out@[q]) < i,
                    i < ids@.len(),
                    key == ids@[i as int],
                    forall|q: int| 0 <= q < pos ==> ids@[(#[trigger] out@[q]) as int] <= key,
                decreases out.len() - pos,
            {
                pos += 1;
            }
            let ghost before = out@;
            proof {
                assert forall|q: int| pos <= q < before.len() implies ids@[(#[trigger] before[q]) as int] > key by {
                    if q > pos {
                        assert(runs_before(ids@, before[pos as int], before[q]));
                    }
                }
            }
            out.insert(pos, i);
            proof {
                assert forall|a: int, b: int| 0 <= a < b < out@.len() implies runs_before(
                    ids@,
                    #[trigger] out@[a],
                    #[trigger] out@[b],
                ) by {
                    if a < pos && b == pos {
                        assert(out@[a] == before[a]);
                    } else if a < pos && b > pos {
                        assert(out@[a] == before[a] && out@[b] == before[b - 1]);
                        assert(runs_before(ids@, before[a], before[b - 1]));
                    } else if a == pos {
                        assert(out@[b] == before[b - 1]);
                    } else if b < pos {
                        assert(out@[a] == before[a] && out@[b] == before[b]);
                    } else {
                        assert(out@[a] == before[a - 1] && out@[b] == before[b - 1]);
                    }
                }
                assert forall|k: int| 0 <= k < i + 1 && #[trigger] ids@[k] > current implies out@.contains(k as usize) by {
                    if k < i {
                        assert(before.contains(k as usize));
                        let q = choose|q: int| 0 <= q < before.len() && before[q] == k as usize;
                        if q < pos {
                            assert(out@[q] == k as usize);
                        } else {
                            assert(out@[q + 1] == k as usize);
                        }
                    } else {
                        assert(out@[pos as int] == k as usize);
                    }
                }
                assert forall|q: int| 0 <= q < out@.len() implies (#[trigger] out@[q]) < i + 1 && ids@[out@[q] as int]
                    > current by {
                    if q < pos {
                        assert(out@[q] == before[q]);
                    } else if q > pos {
                        assert(out@[q] == before[q - 1]);
                    }
                }
            }
        }
        i += 1;
    }
    out
}

/// Extension the database copy made before migrating from version `from`
/// to `to` gets: `v<from>-to-v<to>.bak`.
pub open spec fn backup_extension_spec(from: i64, to: i64) -> Seq<char> {
    "v"@ + decimal_int(from as int) + "-to-v"@ + decimal_int(to as int) + ".bak"@
}

pub fn backup_extension(from: i64, to: i64) -> (r: String)
    ensures
        r@ == backup_extension_spec(from, to),
{
    let mut s = String::new();
    push_str(&mut s, "v");
    push_decimal_i64(&mut s, from);
    push_str(&mut s, "-to-v");
    push_decimal_i64(&mut s, to);
    push_str(&mut s, ".bak");
    s
}

} // verus!
