use vstd::prelude::*;
use crate::catalog::{calculate_watched, date_added, full_title, full_title_of, last_watched, time_of, watched_of};
use crate::ids::{CollectionId, MediaId};
use crate::library::Library;
use crate::media::Watched;
use crate::text::chars_of;

verus! {

/// A view of the catalog that the user can navigate to.
#[derive(Debug, Clone, Copy, PartialEq, Eq, Structural, PartialOrd, Ord, Hash)]
pub enum Tab {
    Home,
    Movies,
    TvShows,
    TvShow(MediaId),
    Season(MediaId),
    Collection(CollectionId),
}

impl Tab {
    /// A top-level tab (home, movies, shows or a collection).
    pub open spec fn is_top(self) -> bool {
        self is Home || self is Movies || self is TvShows || self is Collection
    }

    /// Whether opening `other` on top of this tab replaces it rather than
    /// stacking on it: both are top-level tabs.
    pub fn overwrites(&self, other: &Tab) -> (r: bool)
        ensures
            r == (self.is_top() && other.is_top()),
    {
        let a = match self {
            Tab::Home | Tab::Movies | Tab::TvShows | Tab::Collection(_) => true,
            _ => false,
        };
        let b = match other {
            Tab::Home | Tab::Movies | Tab::TvShows | Tab::Collection(_) => true,
            _ => false,
        };
        a && b
    }
}

/// Whether a scan of the directories is running.
#[derive(Debug, Clone, Copy, PartialEq, Eq, Structural, PartialOrd, Ord, Hash)]
pub enum LibraryStatus {
    Idle,
    Scanning,
}

/// Which watched states are shown.
#[derive(Debug, Clone, Copy, PartialEq, Eq, Structural)]
pub struct Filter {
    pub watched: bool,
    pub partially_watched: bool,
    pub not_watched: bool,
}

impl Filter {
    /// Whether the entity under `id` passes: by its watched state, and
    /// always where there is no such entity.
    pub fn filter(&self, id: MediaId, library: &Library) -> (r: bool)
        requires
            library.wf(),
        ensures
            r == match watched_of(library.entries(), id) {
                Some(Watched::No) => self.not_watched,
                Some(Watched::Partial { .. }) => self.partially_watched,
                Some(Watched::Yes) => self.watched,
                None => true,
            },
    {
        match calculate_watched(id, library) {
            Some(Watched::No) => self.not_watched,
            Some(Watched::Partial { .. }) => self.partially_watched,
            Some(Watched::Yes) => self.watched,
            None => true,
        }
    }
}

/// What the entities are sorted by.
#[derive(Debug, Clone, Copy, PartialEq, Eq, Structural)]
pub enum Sort {
    Name,
    Watched,
    DateAdded,
    LastWatched,
}

impl Sort {
    /// The label of this order.
    pub fn label(&self) -> (r: &'static str)
        ensures
            r@ == match self {
                Sort::Name => "Name"@,
                Sort::Watched => "Watched"@,
                Sort::DateAdded => "Date Added"@,
                Sort::LastWatched => "Last Watched"@,
            },
    {
        match self {
            Sort::Name => "Name",
            Sort::Watched => "Watched",
            Sort::DateAdded => "Date Added",
            Sort::LastWatched => "Last Watched",
        }
    }
}

#[derive(Debug, Clone, Copy, PartialEq, Eq, Structural)]
pub enum SortDirection {
    Ascending,
    Descending,
}

/// The tasks that the home screen can start on the catalog.
#[derive(Debug, Clone, Copy, PartialEq, Eq, Structural, PartialOrd, Ord, Hash)]
pub enum HomeAction {
    ScanDirectories,
    Purge,
    ForceScan,
}

/// A change to a collection that waits for the user's confirmation.
#[derive(Debug, Clone, PartialEq, Eq)]
pub enum Action {
    Idle,
    RenameCollection { id: CollectionId, name: String },
    DeleteCollection(CollectionId),
}

/// What the user did on the home screen.
#[derive(Debug, Clone)]
pub enum HomeMessage {
    Play(MediaId),
    OpenSettings,
    Search(String),
    Action(HomeAction),
    Goto(Tab),
    Back,
    MarkWatched(MediaId),
    MarkUnwatched(MediaId),
    OpenDirectory(String),
    ToggleFilterWatched(bool),
    ToggleFilterPartiallyWatched(bool),
    ToggleFilterNotWatched(bool),
    SetSort(Sort),
    ToggleSortDirection(SortDirection),
    ToggleMediaCollection(MediaId, CollectionId),
    NewCollection,
    BeginRenameCollection(CollectionId),
    BeginDeleteCollection(CollectionId),
    RenameCollection(CollectionId),
    DeleteCollection(CollectionId),
    RenameCollectionInput(String),
    CancelSidebarAction,
    CheckCollectionInputFocus,
    Nothing,
}

/// The order of two integers.
pub open spec fn cmp_int(a: int, b: int) -> std::cmp::Ordering {
    if a < b {
        std::cmp::Ordering::Less
    } else if a == b {
        std::cmp::Ordering::Equal
    } else {
        std::cmp::Ordering::Greater
    }
}

/// Lexicographic order of two texts, character by character.
pub open spec fn cmp_text(a: Seq<char>, b: Seq<char>) -> std::cmp::Ordering
    decreases a.len(),
{
    if a.len() == 0 {
        if b.len() == 0 {
            std::cmp::Ordering::Equal
        } else {
            std::cmp::Ordering::Less
        }
    } else if b.len() == 0 {
        std::cmp::Ordering::Greater
    } else if a[0] != b[0] {
        cmp_int((a[0] as u32) as int, (b[0] as u32) as int)
    } else {
        cmp_text(a.drop_first(), b.drop_first())
    }
}

/// Order of optional times: no time before any.
pub open spec fn cmp_time(a: Option<i64>, b: Option<i64>) -> std::cmp::Ordering {
    match (a, b) {
        (None, None) => std::cmp::Ordering::Equal,
        (None, Some(_)) => std::cmp::Ordering::Less,
        (Some(_), None) => std::cmp::Ordering::Greater,
        (Some(x), Some(y)) => cmp_int(x as int, y as int),
    }
}

pub open spec fn reversed(o: std::cmp::Ordering) -> std::cmp::Ordering {
    match o {
        std::cmp::Ordering::Less => std::cmp::Ordering::Greater,
        std::cmp::Ordering::Equal => std::cmp::Ordering::Equal,
        std::cmp::Ordering::Greater => std::cmp::Ordering::Less,
    }
}

fn compare_int(a: i128, b: i128) -> (r: std::cmp::Ordering)
    ensures
        r == cmp_int(a as int, b as int),
{
    if a < b {
        std::cmp::Ordering::Less
    } else if a == b {
        std::cmp::Ordering::Equal
    } else {
        std::cmp::Ordering::Greater
    }
}

/// Orders two texts character by character.
pub fn compare_text(a: &str, b: &str) -> (r: std::cmp::Ordering)
    ensures
        r == cmp_text(a@, b@),
{
    let x = chars_of(a);
    let y = chars_of(b);
    let mut i: usize = 0;
    assert(x@.subrange(0, x@.len() as int) =~= x@);
    assert(y@.subrange(0, y@.len() as int) =~= y@);
    while i < x.len() && i < y.len() && x[i] == y[i]
        invariant
            i <= x@.len(),
            i <= y@.len(),
            cmp_text(a@, b@) == cmp_text(x@.subrange(i as int, x@.len() as int), y@.subrange(i as int, y@.len() as int)),
            x@ == a@,
            y@ == b@,
        decreases x.len() - i,
    {
        let ghost xs = x@.subrange(i as int, x@.len() as int);
        let ghost ys = y@.subrange(i as int, y@.len() as int);
        assert(xs.drop_first() =~= x@.subrange(i + 1, x@.len() as int));
        assert(ys.drop_first() =~= y@.subrange(i + 1, y@.len() as int));
        i = i + 1;
    }
    let ghost xs = x@.subrange(i as int, x@.len() as int);
    let ghost ys = y@.subrange(i as int, y@.len() as int);
    assert(xs.len() == x@.len() - i && ys.len() == y@.len() - i);
    if i == x.len() {
        if i == y.len() {
            std::cmp::Ordering::Equal
        } else {
            std::cmp::Ordering::Less
        }
    } else if i == y.len() {
        std::cmp::Ordering::Greater
    } else {
        assert(xs[0] == x@[i as int] && ys[0] == y@[i as int]);
        let p = x[i] as u32;
        let q = y[i] as u32;
        compare_int(p as i128, q as i128)
    }
}

fn compare_time(a: Option<i64>, b: Option<i64>) -> (r: std::cmp::Ordering)
    ensures
        r == cmp_time(a, b),
{
    match (a, b) {
        (None, None) => std::cmp::Ordering::Equal,
        (None, Some(_)) => std::cmp::Ordering::Less,
        (Some(_), None) => std::cmp::Ordering::Greater,
        (Some(x), Some(y)) => compare_int(x as i128, y as i128),
    }
}

/// The progress by which entities are sorted: that of the watched state,
/// none for a missing entity.
pub open spec fn sort_progress(e: Seq<(crate::ids::MediaId, crate::media::Media)>, id: MediaId) -> nat {
    match watched_of(e, id) {
        Some(w) => w.progress(),
        None => 0,
    }
}

/// Orders the entities `a` and `b` for display: by full title, by watched
/// progress, by the time added or by the time last watched (no time first);
/// reversed for a descending order.
pub fn sort_by(a: MediaId, b: MediaId, library: &Library, sort: Sort, direction: SortDirection) -> (r: std::cmp::Ordering)
    requires
        library.wf(),
    ensures
        ({
            let e = library.entries();
            let o = match sort {
                Sort::Name => cmp_text(full_title_of(e, a), full_title_of(e, b)),
                Sort::Watched => cmp_int(sort_progress(e, a) as int, sort_progress(e, b) as int),
                Sort::DateAdded => cmp_time(time_of(e, a, true), time_of(e, b, true)),
                Sort::LastWatched => cmp_time(time_of(e, a, false), time_of(e, b, false)),
            };
            r == match direction {
                SortDirection::Ascending => o,
                SortDirection::Descending => reversed(o),
            }
        }),
{
    let ord = match sort {
        Sort::Name => compare_text(full_title(a, library).as_str(), full_title(b, library).as_str()),
        Sort::Watched => {
            let x = match calculate_watched(a, library) {
                Some(w) => w.percent(),
                None => 0,
            };
            let y = match calculate_watched(b, library) {
                Some(w) => w.percent(),
                None => 0,
            };
            compare_int(x as i128, y as i128)
        },
        Sort::DateAdded => compare_time(date_added(a, library), date_added(b, library)),
        Sort::LastWatched => compare_time(last_watched(a, library), last_watched(b, library)),
    };
    match direction {
        SortDirection::Ascending => ord,
        SortDirection::Descending => match ord {
            std::cmp::Ordering::Less => std::cmp::Ordering::Greater,
            std::cmp::Ordering::Equal => std::cmp::Ordering::Equal,
            std::cmp::Ordering::Greater => std::cmp::Ordering::Less,
        },
    }
}

} // verus!
