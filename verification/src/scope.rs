//! Sort scopes. Every sortable listing keeps its own sort mode and selected
//! preset; presets are filed under a scope key `<kind>:<value>`, where the
//! library-wide scopes carry the library's id and the collection and
//! playlist scopes an integer id.

use vstd::prelude::*;
use crate::text::{
    chars_of, decimal_int, lemma_parse_decimal_int, parse_i64, parse_i64_spec, push_decimal_i64, push_str,
    str_eq, string_of_range,
};

verus! {

/// A sortable listing.
pub enum Scope {
    /// A library's top level.
    LibRoot(String),
    /// Every movie of a library.
    MoviesOnly(String),
    /// Every show of a library.
    ShowsOnly(String),
    /// A collection inside a library.
    LibColl(i64),
    /// A playlist's top level.
    PlRoot(i64),
    /// A collection inside a playlist.
    PlColl(i64),
    /// The list of a library's playlists.
    Playlists(String),
}

pub enum ScopeView {
    LibRoot(Seq<char>),
    MoviesOnly(Seq<char>),
    ShowsOnly(Seq<char>),
    LibColl(i64),
    PlRoot(i64),
    PlColl(i64),
    Playlists(Seq<char>),
}

impl View for Scope {
    type V = ScopeView;

    open spec fn view(&self) -> ScopeView {
        match self {
            Scope::LibRoot(v) => ScopeView::LibRoot(v@),
            Scope::MoviesOnly(v) => ScopeView::MoviesOnly(v@),
            Scope::ShowsOnly(v) => ScopeView::ShowsOnly(v@),
            Scope::LibColl(n) => ScopeView::LibColl(*n),
            Scope::PlRoot(n) => ScopeView::PlRoot(*n),
            Scope::PlColl(n) => ScopeView::PlColl(*n),
            Scope::Playlists(v) => ScopeView::Playlists(v@),
        }
    }
}

/// Index of the first `c` in `s`.
pub open spec fn first_index_of(s: Seq<char>, c: char) -> Option<int>
    decreases s.len(),
{
    if s.len() == 0 {
        None
    } else if s[0] == c {
        Some(0)
    } else {
        match first_index_of(s.drop_first(), c) {
            Some(i) => Some(i + 1),
            None => None,
        }
    }
}

pub proof fn lemma_first_index_of(s: Seq<char>, c: char, i: int)
    requires
        0 <= i <= s.len(),
        forall|k: int| 0 <= k < i ==> s[k] != c,
    ensures
        i < s.len() && s[i] == c ==> first_index_of(s, c) == Some(i),
        i == s.len() ==> first_index_of(s, c) is None,
    decreases i,
{
    if i > 0 {
        assert forall|k: int| 0 <= k < i - 1 implies s.drop_first()[k] != c by {
            assert(s.drop_first()[k] == s[k + 1]);
        }
        lemma_first_index_of(s.drop_first(), c, i - 1);
        if i < s.len() {
            assert(s.drop_first()[i - 1] == s[i]);
        }
    }
}

/// The scope a key names, or why it names none.
pub open spec fn parse_scope_spec(key: Seq<char>) -> Result<ScopeView, Seq<char>> {
    match first_index_of(key, ':') {
        None => Err("Invalid scope_key"@),
        Some(i) => {
            let prefix = key.take(i);
            let value = key.skip(i + 1);
            if prefix == "lib-root"@ {
                Ok(ScopeView::LibRoot(value))
            } else if prefix == "movies-only"@ {
                Ok(ScopeView::MoviesOnly(value))
            } else if prefix == "shows-only"@ {
                Ok(ScopeView::ShowsOnly(value))
            } else if prefix == "lib-coll"@ {
                match parse_i64_spec(value) {
                    Some(n) => Ok(ScopeView::LibColl(n)),
                    None => Err("Invalid collection id in scope_key"@),
                }
            } else if prefix == "pl-root"@ {
                match parse_i64_spec(value) {
                    Some(n) => Ok(ScopeView::PlRoot(n)),
                    None => Err("Invalid playlist id in scope_key"@),
                }
            } else if prefix == "pl-coll"@ {
                match parse_i64_spec(value) {
                    Some(n) => Ok(ScopeView::PlColl(n)),
                    None => Err("Invalid playlist-collection id in scope_key"@),
                }
            } else if prefix == "playlists"@ {
                Ok(ScopeView::Playlists(value))
            } else {
                Err("Unknown scope_key prefix: "@ + prefix)
            }
        },
    }
}

/// The key of a scope.
pub open spec fn scope_key_spec(s: ScopeView) -> Seq<char> {
    match s {
        ScopeView::LibRoot(v) => "lib-root:"@ + v,
        ScopeView::MoviesOnly(v) => "movies-only:"@ + v,
        ScopeView::ShowsOnly(v) => "shows-only:"@ + v,
        ScopeView::LibColl(n) => "lib-coll:"@ + decimal_int(n as int),
        ScopeView::PlRoot(n) => "pl-root:"@ + decimal_int(n as int),
        ScopeView::PlColl(n) => "pl-coll:"@ + decimal_int(n as int),
        ScopeView::Playlists(v) => "playlists:"@ + v,
    }
}

/// Read a scope key: the part before the first `:` names the kind, the rest
/// is the value.
pub fn parse_scope_key(key: &str) -> (r: Result<Scope, String>)
    ensures
        match r {
            Ok(s) => parse_scope_spec(key@) == Ok::<ScopeView, Seq<char>>(s@),
            Err(e) => parse_scope_spec(key@) == Err::<ScopeView, Seq<char>>(e@),
        },
{
    let c = chars_of(key);
    let mut i: usize = 0;
    while i < c.len() && c[i] != ':'
        invariant
            i <= c@.len(),
            c@ == key@,
            forall|k: int| 0 <= k < i ==> c@[k] != ':',
        decreases c.len() - i,
    {
        i += 1;
    }
    proof {
        lemma_first_index_of(key@, ':', i as int);
    }
    if i == c.len() {
        return Err(String::from_str("Invalid scope_key"));
    }
    let prefix = string_of_range(&c, 0, i);
    let value = string_of_range(&c, i + 1, c.len());
    proof {
        assert(prefix@ =~= key@.take(i as int));
        assert(value@ =~= key@.skip(i as int + 1));
    }
    let p = prefix.as_str();
    if str_eq(p, "lib-root") {
        Ok(Scope::LibRoot(value))
    } else if str_eq(p, "movies-only") {
        Ok(Scope::MoviesOnly(value))
    } else if str_eq(p, "shows-only") {
        Ok(Scope::ShowsOnly(value))
    } else if str_eq(p, "lib-coll") {
        match parse_i64(value.as_str()) {
            Some(n) => Ok(Scope::LibColl(n)),
            None => Err(String::from_str("Invalid collection id in scope_key")),
        }
    } else if str_eq(p, "pl-root") {
        match parse_i64(value.as_str()) {
            Some(n) => Ok(Scope::PlRoot(n)),
            None => Err(String::from_str("Invalid playlist id in scope_key")),
        }
    } else if str_eq(p, "pl-coll") {
        match parse_i64(value.as_str()) {
            Some(n) => Ok(Scope::PlColl(n)),
            None => Err(String::from_str("Invalid playlist-collection id in scope_key")),
        }
    } else if str_eq(p, "playlists") {
        Ok(Scope::Playlists(value))
    } else {
        let mut e = String::from_str("Unknown scope_key prefix: ");
        push_str(&mut e, p);
        Err(e)
    }
}

/// Write a scope's key.
pub fn scope_key(s: &Scope) -> (r: String)
    ensures
        r@ == scope_key_spec(s@),
{
    let mut out = String::new();
    match s {
        Scope::LibRoot(v) => {
            push_str(&mut out, "lib-root:");
            push_str(&mut out, v.as_str());
        },
        Scope::MoviesOnly(v) => {
            push_str(&mut out, "movies-only:");
            push_str(&mut out, v.as_str());
        },
        Scope::ShowsOnly(v) => {
            push_str(&mut out, "shows-only:");
            push_str(&mut out, v.as_str());
        },
        Scope::LibColl(n) => {
            push_str(&mut out, "lib-coll:");
            push_decimal_i64(&mut out, *n);
        },
        Scope::PlRoot(n) => {
            push_str(&mut out, "pl-root:");
            push_decimal_i64(&mut out, *n);
        },
        Scope::PlColl(n) => {
            push_str(&mut out, "pl-coll:");
            push_decimal_i64(&mut out, *n);
        },
        Scope::Playlists(v) => {
            push_str(&mut out, "playlists:");
            push_str(&mut out, v.as_str());
        },
    }
    out
}

proof fn lemma_split_key(prefix: Seq<char>, value: Seq<char>)
    requires
        forall|k: int| 0 <= k < prefix.len() ==> prefix[k] != ':',
    ensures
        ({
            let key = prefix + seq![':'] + value;
            &&& first_index_of(key, ':') == Some(prefix.len() as int)
            &&& key.take(prefix.len() as int) == prefix
            &&& key.skip(prefix.len() as int + 1) == value
        }),
{
    let key = prefix + seq![':'] + value;
    assert forall|k: int| 0 <= k < prefix.len() implies key[k] != ':' by {
        assert(key[k] == prefix[k]);
    }
    assert(key[prefix.len() as int] == ':');
    lemma_first_index_of(key, ':', prefix.len() as int);
    assert(key.take(prefix.len() as int) =~= prefix);
    assert(key.skip(prefix.len() as int + 1) =~= value);
}

/// The kind names differ from one another.
proof fn lemma_kind_names()
    ensures
        "lib-root"@ != "movies-only"@,
        "lib-root"@ != "shows-only"@,
        "lib-root"@ != "lib-coll"@,
        "lib-root"@ != "pl-root"@,
        "lib-root"@ != "pl-coll"@,
        "lib-root"@ != "playlists"@,
        "movies-only"@ != "shows-only"@,
        "movies-only"@ != "lib-coll"@,
        "movies-only"@ != "pl-root"@,
        "movies-only"@ != "pl-coll"@,
        "movies-only"@ != "playlists"@,
        "shows-only"@ != "lib-coll"@,
        "shows-only"@ != "pl-root"@,
        "shows-only"@ != "pl-coll"@,
        "shows-only"@ != "playlists"@,
        "lib-coll"@ != "pl-root"@,
        "lib-coll"@ != "pl-coll"@,
        "lib-coll"@ != "playlists"@,
        "pl-root"@ != "pl-coll"@,
        "pl-root"@ != "playlists"@,
        "pl-coll"@ != "playlists"@,
        forall|k: int| 0 <= k < "lib-root"@.len() ==> "lib-root"@[k] != ':',
        forall|k: int| 0 <= k < "movies-only"@.len() ==> "movies-only"@[k] != ':',
        forall|k: int| 0 <= k < "shows-only"@.len() ==> "shows-only"@[k] != ':',
        forall|k: int| 0 <= k < "lib-coll"@.len() ==> "lib-coll"@[k] != ':',
        forall|k: int| 0 <= k < "pl-root"@.len() ==> "pl-root"@[k] != ':',
        forall|k: int| 0 <= k < "pl-coll"@.len() ==> "pl-coll"@[k] != ':',
        forall|k: int| 0 <= k < "playlists"@.len() ==> "playlists"@[k] != ':',
{
    reveal_strlit("lib-root");
    reveal_strlit("movies-only");
    reveal_strlit("shows-only");
    reveal_strlit("lib-coll");
    reveal_strlit("pl-root");
    reveal_strlit("pl-coll");
    reveal_strlit("playlists");
    // Lengths 8, 11, 10, 8, 7, 7, 9: only same-length names need a letter.
    assert("lib-root"@[4] != "lib-coll"@[4]);
    assert("movies-only"@[0] != "shows-only"@[0]);
    assert("pl-root"@[3] != "pl-coll"@[3]);
}

/// A scope's key reads back as that scope.
pub proof fn law_scope_key_round_trip(s: ScopeView)
    ensures
        parse_scope_spec(scope_key_spec(s)) == Ok::<ScopeView, Seq<char>>(s),
{
    reveal_strlit("lib-root:");
    reveal_strlit("movies-only:");
    reveal_strlit("shows-only:");
    reveal_strlit("lib-coll:");
    reveal_strlit("pl-root:");
    reveal_strlit("pl-coll:");
    reveal_strlit("playlists:");
    reveal_strlit("lib-root");
    reveal_strlit("movies-only");
    reveal_strlit("shows-only");
    reveal_strlit("lib-coll");
    reveal_strlit("pl-root");
    reveal_strlit("pl-coll");
    reveal_strlit("playlists");
    lemma_kind_names();
    let (prefix, value): (Seq<char>, Seq<char>) = match s {
        ScopeView::LibRoot(v) => ("lib-root"@, v),
        ScopeView::MoviesOnly(v) => ("movies-only"@, v),
        ScopeView::ShowsOnly(v) => ("shows-only"@, v),
        ScopeView::LibColl(n) => ("lib-coll"@, decimal_int(n as int)),
        ScopeView::PlRoot(n) => ("pl-root"@, decimal_int(n as int)),
        ScopeView::PlColl(n) => ("pl-coll"@, decimal_int(n as int)),
        ScopeView::Playlists(v) => ("playlists"@, v),
    };
    assert(scope_key_spec(s) =~= prefix + seq![':'] + value);
    lemma_split_key(prefix, value);
    match s {
        ScopeView::LibColl(n) => lemma_parse_decimal_int(n),
        ScopeView::PlRoot(n) => lemma_parse_decimal_int(n),
        ScopeView::PlColl(n) => lemma_parse_decimal_int(n),
        _ => {},
    }
}

/// The kinds a library listing can be narrowed to.
#[derive(PartialEq, Eq, Structural, Clone, Copy, Debug)]
pub enum EntryType {
    Movie,
    Show,
    Collection,
}

/// Read a listing's type filter: "movie", "show" or "collection", anything
/// else refused.
pub fn entry_type_filter(filter: Option<&str>) -> (r: Result<Option<EntryType>, String>)
    ensures
        match filter {
            None => r == Ok::<Option<EntryType>, String>(None),
            Some(t) => if t@ == "movie"@ {
                r == Ok::<Option<EntryType>, String>(Some(EntryType::Movie))
            } else if t@ == "show"@ {
                r == Ok::<Option<EntryType>, String>(Some(EntryType::Show))
            } else if t@ == "collection"@ {
                r == Ok::<Option<EntryType>, String>(Some(EntryType::Collection))
            } else {
                r matches Err(e) && e@ == "Invalid entry_type_filter: "@ + t@
            },
        },
{
    match filter {
        None => Ok(None),
        Some(t) => if str_eq(t, "movie") {
            Ok(Some(EntryType::Movie))
        } else if str_eq(t, "show") {
            Ok(Some(EntryType::Show))
        } else if str_eq(t, "collection") {
            Ok(Some(EntryType::Collection))
        } else {
            let mut e = String::from_str("Invalid entry_type_filter: ");
            push_str(&mut e, t);
            Err(e)
        },
    }
}

/// The scope a library listing sorts in: every movie or every show of the
/// library, else the collection it is inside, else the library's top level.
pub open spec fn listing_scope_spec(library_id: Seq<char>, filter: Option<EntryType>, parent_id: Option<i64>) -> ScopeView {
    match filter {
        Some(EntryType::Movie) => ScopeView::MoviesOnly(library_id),
        Some(EntryType::Show) => ScopeView::ShowsOnly(library_id),
        _ => match parent_id {
            Some(pid) => ScopeView::LibColl(pid),
            None => ScopeView::LibRoot(library_id),
        },
    }
}

pub fn listing_scope(library_id: &str, filter: Option<EntryType>, parent_id: Option<i64>) -> (r: Scope)
    ensures
        r@ == listing_scope_spec(library_id@, filter, parent_id),
{
    match filter {
        Some(EntryType::Movie) => Scope::MoviesOnly(library_id.to_string()),
        Some(EntryType::Show) => Scope::ShowsOnly(library_id.to_string()),
        _ => match parent_id {
            Some(pid) => Scope::LibColl(pid),
            None => Scope::LibRoot(library_id.to_string()),
        },
    }
}

/// The scope a playlist listing sorts in: the playlist collection it is
/// inside, else the playlist's top level.
pub fn playlist_scope(playlist_id: i64, parent_collection_id: Option<i64>) -> (r: Scope)
    ensures
        r@ == match parent_collection_id {
            Some(c) => ScopeView::PlColl(c),
            None => ScopeView::PlRoot(playlist_id),
        },
{
    match parent_collection_id {
        Some(c) => Scope::PlColl(c),
        None => Scope::PlRoot(playlist_id),
    }
}

/// How a listing is ordered.
#[derive(PartialEq, Eq, Structural, Clone, Copy, Debug)]
pub enum ListOrder {
    /// By release date (earliest first), then title.
    ByDate,
    /// By the stored custom order, then title.
    Custom,
    /// By sort title.
    ByTitle,
}

/// The order a sort mode asks for: "year" and "date" by date, "custom" by
/// the stored order, anything else by title.
pub fn list_order(sort_mode: &str) -> (r: ListOrder)
    ensures
        r == if sort_mode@ == "year"@ || sort_mode@ == "date"@ {
            ListOrder::ByDate
        } else if sort_mode@ == "custom"@ {
            ListOrder::Custom
        } else {
            ListOrder::ByTitle
        },
{
    if str_eq(sort_mode, "year") || str_eq(sort_mode, "date") {
        ListOrder::ByDate
    } else if str_eq(sort_mode, "custom") {
        ListOrder::Custom
    } else {
        ListOrder::ByTitle
    }
}

/// The saved order to lay over a listing: the selected preset, and only in
/// custom mode.
pub fn preset_to_apply(sort_mode: &str, selected: Option<i64>) -> (r: Option<i64>)
    ensures
        r == if sort_mode@ == "custom"@ {
            selected
        } else {
            None
        },
{
    if str_eq(sort_mode, "custom") {
        selected
    } else {
        None
    }
}

/// Where a sort mode is stored.
#[derive(PartialEq, Eq, Structural, Clone, Copy, Debug)]
pub enum SortTarget {
    /// A collection of a video library.
    Collection(i64),
    /// A video library's top level.
    LibraryRoot,
    /// A video library's every-movie listing.
    MoviesOnly,
    /// A video library's every-show listing.
    ShowsOnly,
    /// A music library's single sort mode.
    MusicDefault,
}

/// Where setting sort mode `mode` on a library of format `format` lands: a
/// collection of a video library when `entry_id` names one, else the video
/// listing that `scope_kind` names (the top level when absent), else the
/// music library's own mode. Unknown modes, formats and scope kinds are
/// refused.
pub open spec fn sort_target_spec(format: Seq<char>, entry_id: Option<i64>, scope_kind: Option<Seq<char>>, mode: Seq<char>) -> Result<
    SortTarget,
    Seq<char>,
> {
    if !(mode == "alpha"@ || mode == "date"@ || mode == "custom"@) {
        Err("Invalid sort mode"@)
    } else {
        match entry_id {
            Some(eid) if format == "video"@ => Ok(SortTarget::Collection(eid)),
            Some(_) if format != "video"@ && format != "music"@ => Err("Unsupported library format: "@ + format),
            _ => if format == "video"@ {
                let kind = match scope_kind {
                    Some(k) => k,
                    None => "library-root"@,
                };
                if kind == "movies-only"@ {
                    Ok(SortTarget::MoviesOnly)
                } else if kind == "shows-only"@ {
                    Ok(SortTarget::ShowsOnly)
                } else if kind == "library-root"@ {
                    Ok(SortTarget::LibraryRoot)
                } else {
                    Err("Invalid scope_kind: "@ + kind)
                }
            } else {
                Ok(SortTarget::MusicDefault)
            },
        }
    }
}

pub fn sort_target(format: &str, entry_id: Option<i64>, scope_kind: Option<&str>, mode: &str) -> (r: Result<SortTarget, String>)
    ensures
        match sort_target_spec(
            format@,
            entry_id,
            match scope_kind {
                Some(k) => Some(k@),
                None => None,
            },
            mode@,
        ) {
            Ok(t) => r == Ok::<SortTarget, String>(t),
            Err(e) => r matches Err(x) && x@ == e,
        },
{
    if !(str_eq(mode, "alpha") || str_eq(mode, "date") || str_eq(mode, "custom")) {
        return Err(String::from_str("Invalid sort mode"));
    }
    let video = str_eq(format, "video");
    let music = str_eq(format, "music");
    match entry_id {
        Some(eid) if video => Ok(SortTarget::Collection(eid)),
        Some(_) if !video && !music => {
            let mut e = String::from_str("Unsupported library format: ");
            push_str(&mut e, format);
            Err(e)
        },
        _ => if video {
            let kind = match scope_kind {
                Some(k) => k,
                None => "library-root",
            };
            proof {
                reveal_strlit("library-root");
            }
            if str_eq(kind, "movies-only") {
                Ok(SortTarget::MoviesOnly)
            } else if str_eq(kind, "shows-only") {
                Ok(SortTarget::ShowsOnly)
            } else if str_eq(kind, "library-root") {
                Ok(SortTarget::LibraryRoot)
            } else {
                let mut e = String::from_str("Invalid scope_kind: ");
                push_str(&mut e, kind);
                Err(e)
            }
        } else {
            Ok(SortTarget::MusicDefault)
        },
    }
}

/// A typed-in rater id: trimmed, and blank means none.
pub fn clean_rater_id(id: Option<String>) -> (r: Option<String>)
    ensures
        match id {
            Some(s) => if crate::text::trim_spec(s@).len() > 0 {
                r matches Some(t) && t@ == crate::text::trim_spec(s@)
            } else {
                r is None
            },
            None => r is None,
        },
{
    match id {
        Some(s) => {
            let c = chars_of(s.as_str());
            let t = crate::text::trim_chars(&c);
            if t.len() > 0 {
                Some(crate::text::string_of(&t))
            } else {
                None
            }
        },
        None => None,
    }
}

/// Whose selected preset a manual reorder of a video listing clears: the
/// collection's when inside one, else the listing `scope_kind` names (the
/// top level for anything else).
pub fn reorder_preset_target(entry_id: Option<i64>, scope_kind: Option<&str>) -> (r: SortTarget)
    ensures
        r == match entry_id {
            Some(eid) => SortTarget::Collection(eid),
            None => match scope_kind {
                Some(k) => if k@ == "movies-only"@ {
                    SortTarget::MoviesOnly
                } else if k@ == "shows-only"@ {
                    SortTarget::ShowsOnly
                } else {
                    SortTarget::LibraryRoot
                },
                None => SortTarget::LibraryRoot,
            },
        },
{
    match entry_id {
        Some(eid) => SortTarget::Collection(eid),
        None => match scope_kind {
            Some(k) => if str_eq(k, "movies-only") {
                SortTarget::MoviesOnly
            } else if str_eq(k, "shows-only") {
                SortTarget::ShowsOnly
            } else {
                SortTarget::LibraryRoot
            },
            None => SortTarget::LibraryRoot,
        },
    }
}

} // verus!
