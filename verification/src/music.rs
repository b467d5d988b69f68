//! Rescanning a music library: reconciling the artist folders, album
//! folders and track files found on disk with the artist, album and track
//! rows the catalog holds. Rows whose folder or file is gone are deleted;
//! every folder or file without a row is added, once, under its parent
//! (an existing row, or one this rescan adds). Walking the folders and
//! writing rows is the caller's part.

use vstd::prelude::*;
use crate::engine::strs;
use crate::scan::{fresh_files, missing_episodes, plan_episodes};
use crate::text::str_eq;

verus! {

/// Where the parent of a new album (its artist) or of a new track (its
/// album) is.
#[derive(PartialEq, Eq, Structural, Clone, Copy, Debug)]
pub enum ParentRef {
    /// A row the catalog already holds, by id.
    Known(i64),
    /// The entry at this index among those the rescan adds.
    Added(usize),
    /// Neither: the entry is added without a parent.
    Unknown,
}

/// What a music rescan does.
pub struct MusicRescan {
    /// Track rows to delete (their file is gone).
    pub delete_tracks: Vec<i64>,
    /// Album rows to delete (their folder is gone).
    pub delete_albums: Vec<i64>,
    /// Artist rows to delete (their folder is gone).
    pub delete_artists: Vec<i64>,
    /// Artist folders to add, in the order first found.
    pub add_artists: Vec<String>,
    /// Album folders to add with their artist, in the order first found.
    pub add_albums: Vec<(String, ParentRef)>,
    /// Track files to add with their album, in the order first found.
    pub add_tracks: Vec<(String, ParentRef)>,
}

/// The paths of `(path, parent path)` pairs.
pub open spec fn paths_of(d: Seq<(String, String)>) -> Seq<String> {
    d.map_values(|x: (String, String)| x.0)
}

/// The parent path recorded with path `p` (its last listing); empty when
/// `p` is not listed.
pub open spec fn parent_in(d: Seq<(String, String)>, p: Seq<char>) -> Seq<char>
    decreases d.len(),
{
    if d.len() == 0 {
        Seq::empty()
    } else if d.last().0@ == p {
        d.last().1@
    } else {
        parent_in(d.drop_last(), p)
    }
}

/// The id of the last row for path `p`, as a map from path to id built
/// from the rows in order holds it.
pub open spec fn last_row_id(db: Seq<(i64, String)>, p: Seq<char>) -> Option<i64>
    decreases db.len(),
{
    if db.len() == 0 {
        None
    } else if db.last().1@ == p {
        Some(db.last().0)
    } else {
        last_row_id(db.drop_last(), p)
    }
}

/// Index of the first of `list` that is `p`.
pub open spec fn index_in(list: Seq<Seq<char>>, p: Seq<char>) -> Option<int>
    decreases list.len(),
{
    if list.len() == 0 {
        None
    } else {
        match index_in(list.drop_last(), p) {
            Some(k) => Some(k),
            None => if list.last() == p {
                Some(list.len() - 1)
            } else {
                None
            },
        }
    }
}

/// The parent at path `p`: a catalog row (the last for that path), else
/// one of the paths this rescan adds, else none.
pub open spec fn parent_ref(db: Seq<(i64, String)>, added: Seq<Seq<char>>, p: Seq<char>) -> ParentRef {
    match last_row_id(db, p) {
        Some(id) => ParentRef::Known(id),
        None => match index_in(added, p) {
            Some(k) => ParentRef::Added(k as usize),
            None => ParentRef::Unknown,
        },
    }
}

/// The paths of `(path, parent)` pairs, as text.
pub open spec fn firsts(v: Seq<(String, ParentRef)>) -> Seq<Seq<char>> {
    v.map_values(|x: (String, ParentRef)| x.0@)
}

fn paths_vec(d: &[(String, String)]) -> (r: Vec<String>)
    ensures
        r@ == paths_of(d@),
{
    let mut out: Vec<String> = Vec::new();
    let mut k: usize = 0;
    while k < d.len()
        invariant
            k <= d@.len(),
            out@ == paths_of(d@).take(k as int),
        decreases d.len() - k,
    {
        out.push(d[k].0.clone());
        proof {
            assert(out@ =~= paths_of(d@).take(k as int + 1));
        }
        k += 1;
    }
    proof {
        assert(paths_of(d@).take(d@.len() as int) =~= paths_of(d@));
    }
    out
}

fn parent_of(d: &[(String, String)], p: &str) -> (r: String)
    ensures
        r@ == parent_in(d@, p@),
{
    let mut found: Option<usize> = None;
    let mut k: usize = 0;
    while k < d.len()
        invariant
            k <= d@.len(),
            match found {
                Some(i) => i < k && parent_in(d@.take(k as int), p@) == d@[i as int].1@,
                None => parent_in(d@.take(k as int), p@) == Seq::<char>::empty(),
            },
        decreases d.len() - k,
    {
        proof {
            assert(d@.take(k as int + 1).drop_last() =~= d@.take(k as int));
            assert(d@.take(k as int + 1).last() == d@[k as int]);
        }
        if str_eq(d[k].0.as_str(), p) {
            found = Some(k);
        }
        k += 1;
    }
    proof {
        assert(d@.take(d@.len() as int) =~= d@);
    }
    match found {
        Some(i) => d[i].1.clone(),
        None => String::new(),
    }
}

fn last_id(db: &[(i64, String)], p: &str) -> (r: Option<i64>)
    ensures
        r == last_row_id(db@, p@),
{
    let mut found: Option<i64> = None;
    let mut k: usize = 0;
    while k < db.len()
        invariant
            k <= db@.len(),
            found == last_row_id(db@.take(k as int), p@),
        decreases db.len() - k,
    {
        proof {
            assert(db@.take(k as int + 1).drop_last() =~= db@.take(k as int));
            assert(db@.take(k as int + 1).last() == db@[k as int]);
        }
        if str_eq(db[k].1.as_str(), p) {
            found = Some(db[k].0);
        }
        k += 1;
    }
    proof {
        assert(db@.take(db@.len() as int) =~= db@);
    }
    found
}

fn first_index(list: &[String], p: &str) -> (r: Option<usize>)
    ensures
        match r {
            Some(k) => index_in(strs(list@), p@) == Some(k as int),
            None => index_in(strs(list@), p@) is None,
        },
{
    let mut found: Option<usize> = None;
    let mut k: usize = 0;
    while k < list.len()
        invariant
            k <= list@.len(),
            match found {
                Some(i) => index_in(strs(list@).take(k as int), p@) == Some(i as int),
                None => index_in(strs(list@).take(k as int), p@) is None,
            },
        decreases list.len() - k,
    {
        proof {
            assert(strs(list@).take(k as int + 1).drop_last() =~= strs(list@).take(k as int));
            assert(strs(list@).take(k as int + 1).last() == list@[k as int]@);
        }
        if found.is_none() && str_eq(list[k].as_str(), p) {
            found = Some(k);
        }
        k += 1;
    }
    proof {
        assert(strs(list@).take(list@.len() as int) =~= strs(list@));
    }
    found
}

fn resolve_parent(db: &[(i64, String)], added: &[String], p: &str) -> (r: ParentRef)
    ensures
        r == parent_ref(db@, strs(added@), p@),
{
    match last_id(db, p) {
        Some(id) => ParentRef::Known(id),
        None => match first_index(added, p) {
            Some(k) => ParentRef::Added(k),
            None => ParentRef::Unknown,
        },
    }
}

/// Pair each new path with the parent `parent_ref` gives it.
fn with_parents(new: Vec<String>, listing: &[(String, String)], db: &[(i64, String)], added: &[String]) -> (r: Vec<(String, ParentRef)>)
    ensures
        firsts(r@) == strs(new@),
        forall|q: int| 0 <= q < r@.len() ==> (#[trigger] r@[q]).1 == parent_ref(db@, strs(added@), parent_in(listing@, r@[q].0@)),
{
    let mut out: Vec<(String, ParentRef)> = Vec::new();
    let mut k: usize = 0;
    while k < new.len()
        invariant
            k <= new@.len(),
            out@.len() == k,
            firsts(out@) == strs(new@).take(k as int),
            forall|q: int| 0 <= q < out@.len() ==> (#[trigger] out@[q]).1 == parent_ref(db@, strs(added@), parent_in(listing@, out@[q].0@)),
        decreases new.len() - k,
    {
        let parent = parent_of(listing, new[k].as_str());
        let pr = resolve_parent(db, added, parent.as_str());
        let ghost prev = out@;
        let name = new[k].clone();
        out.push((name, pr));
        proof {
            assert(out@ == prev.push((name, pr)));
            assert forall|q: int| 0 <= q < k + 1 implies #[trigger] firsts(out@)[q] == strs(new@).take(k as int + 1)[q] by {
                if q < k {
                    assert(out@[q] == prev[q]);
                    assert(firsts(prev)[q] == strs(new@).take(k as int)[q]);
                }
            }
            assert(firsts(out@) =~= strs(new@).take(k as int + 1));
            assert forall|q: int| 0 <= q < out@.len() implies (#[trigger] out@[q]).1 == parent_ref(db@, strs(added@), parent_in(listing@, out@[q].0@)) by {
                if q < k {
                    assert(out@[q] == prev[q]);
                }
            }
        }
        k += 1;
    }
    proof {
        assert(strs(new@).take(new@.len() as int) =~= strs(new@));
    }
    out
}

/// Reconcile a music library. `disk_artists` are the artist folders (rel
/// paths), `disk_albums` the album folders with their artist folder,
/// `disk_tracks` the track files with their album folder; `db_artists`,
/// `db_albums`, `db_tracks` the catalog rows `(id, path)`. Tracks, albums
/// and artists whose path is gone are deleted; each path without a row is
/// added once, an album under its artist's row (an existing one, else the
/// one this rescan adds), a track under its album's.
pub fn plan_music_rescan(
    disk_artists: &[String],
    disk_albums: &[(String, String)],
    disk_tracks: &[(String, String)],
    db_artists: &[(i64, String)],
    db_albums: &[(i64, String)],
    db_tracks: &[(i64, String)],
) -> (r: MusicRescan)
    ensures
        r.delete_tracks@ == missing_episodes(paths_of(disk_tracks@), db_tracks@),
        r.delete_albums@ == missing_episodes(paths_of(disk_albums@), db_albums@),
        r.delete_artists@ == missing_episodes(disk_artists@, db_artists@),
        strs(r.add_artists@) == fresh_files(disk_artists@, db_artists@, disk_artists@.len() as int),
        firsts(r.add_albums@) == fresh_files(paths_of(disk_albums@), db_albums@, disk_albums@.len() as int),
        firsts(r.add_tracks@) == fresh_files(paths_of(disk_tracks@), db_tracks@, disk_tracks@.len() as int),
        forall|q: int| 0 <= q < r.add_albums@.len() ==> (#[trigger] r.add_albums@[q]).1 == parent_ref(
            db_artists@,
            strs(r.add_artists@),
            parent_in(disk_albums@, r.add_albums@[q].0@),
        ),
        forall|q: int| 0 <= q < r.add_tracks@.len() ==> (#[trigger] r.add_tracks@[q]).1 == parent_ref(
            db_albums@,
            firsts(r.add_albums@),
            parent_in(disk_tracks@, r.add_tracks@[q].0@),
        ),
{
    let track_paths = paths_vec(disk_tracks);
    let album_paths = paths_vec(disk_albums);
    let (delete_tracks, new_tracks) = plan_episodes(track_paths.as_slice(), db_tracks);
    let (delete_albums, new_albums) = plan_episodes(album_paths.as_slice(), db_albums);
    let (delete_artists, add_artists) = plan_episodes(disk_artists, db_artists);
    proof {
        assert(new_tracks@.map_values(|x: String| x@) == strs(new_tracks@));
        assert(new_albums@.map_values(|x: String| x@) == strs(new_albums@));
        assert(add_artists@.map_values(|x: String| x@) == strs(add_artists@));
    }
    let album_list = copy_all(&new_albums);
    let add_albums = with_parents(new_albums, disk_albums, db_artists, add_artists.as_slice());
    let add_tracks = with_parents(new_tracks, disk_tracks, db_albums, album_list.as_slice());
    MusicRescan { delete_tracks, delete_albums, delete_artists, add_artists, add_albums, add_tracks }
}

fn copy_all(v: &Vec<String>) -> (r: Vec<String>)
    ensures
        r@ == v@,
{
    let mut out: Vec<String> = Vec::new();
    let mut k: usize = 0;
    while k < v.len()
        invariant
            k <= v@.len(),
            out@ == v@.take(k as int),
        decreases v.len() - k,
    {
        out.push(v[k].clone());
        proof {
            assert(out@ =~= v@.take(k as int + 1));
        }
        k += 1;
    }
    proof {
        assert(v@.take(v@.len() as int) =~= v@);
    }
    out
}

} // verus!
