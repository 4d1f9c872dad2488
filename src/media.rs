use vstd::prelude::*;
use crate::ids::MediaId;
use crate::text::{decimal, decimal_string, string_from_chars};

verus! {

/// Watch progress is counted in ten-thousandths of the whole: `FULL` is all
/// of it.
pub const FULL: u32 = 10000;

/// A calendar date.
#[derive(Debug, Clone, Copy, PartialEq, Eq, Structural, PartialOrd, Ord, Hash)]
pub struct Date {
    pub year: i32,
    pub month: u8,
    pub day: u8,
}

/// How much of an item has been watched.
#[derive(Debug, Clone, Copy, PartialEq, Eq, Structural)]
pub enum Watched {
    No,
    /// Part of it: `seconds` into the video, `percent` of `FULL`.
    Partial { seconds: u32, percent: u32 },
    Yes,
}

impl Watched {
    /// Progress as a fraction of `FULL`.
    pub open spec fn progress(self) -> nat {
        match self {
            Watched::No => 0,
            Watched::Partial { percent, .. } => percent as nat,
            Watched::Yes => FULL as nat,
        }
    }

    /// A partial state lies strictly between nothing and everything.
    pub open spec fn wf(self) -> bool {
        match self {
            Watched::Partial { percent, .. } => 0 < percent < FULL,
            _ => true,
        }
    }

    /// Progress as a fraction of `FULL`.
    pub fn percent(&self) -> (r: u32)
        ensures
            r == self.progress(),
    {
        match self {
            Watched::No => 0,
            Watched::Partial { percent, .. } => *percent,
            Watched::Yes => FULL,
        }
    }
}

/// A video file on disk and how it has been watched. Times are milliseconds
/// since the Unix epoch.
#[derive(Debug, Clone)]
pub struct Video {
    /// Normalized absolute path: the identity of the file.
    pub path: String,
    pub watched: Watched,
    pub added: i64,
    pub last_watched: Option<i64>,
}

impl Video {
    /// A copy of this video.
    pub fn duplicate(&self) -> (r: Video)
        ensures
            r == *self,
    {
        Video {
            path: self.path.clone(),
            watched: self.watched,
            added: self.added,
            last_watched: self.last_watched,
        }
    }
}

#[derive(Debug, Clone)]
pub struct Uncategorised {
    pub video: Video,
    pub dont_scrape: bool,
}

#[derive(Debug, Clone)]
pub struct Movie {
    pub video: Video,
    pub metadata: MovieMetadata,
}

#[derive(Debug, Clone)]
pub struct Series {
    pub metadata: SeriesMetadata,
}

#[derive(Debug, Clone)]
pub struct Season {
    pub metadata: SeasonMetadata,
    pub series: MediaId,
}

#[derive(Debug, Clone)]
pub struct Episode {
    pub video: Video,
    pub series: MediaId,
    pub season: MediaId,
    pub metadata: EpisodeMetadata,
}

#[derive(Debug, Clone)]
pub struct MovieMetadata {
    pub tmdb_id: u64,
    pub title: String,
    pub year: u16,
    pub poster: Option<String>,
    pub released: Option<Date>,
}

#[derive(Debug, Clone)]
pub struct SeriesMetadata {
    pub tmdb_id: u64,
    pub title: String,
    pub poster: Option<String>,
    pub aired: Option<Date>,
}

#[derive(Debug, Clone)]
pub struct SeasonMetadata {
    pub series_tmdb_id: u64,
    pub title: String,
    pub season: u16,
    pub poster: Option<String>,
    pub aired: Option<Date>,
    pub overview: Option<String>,
}

#[derive(Debug, Clone)]
pub struct EpisodeMetadata {
    pub series_tmdb_id: u64,
    pub title: String,
    pub season: u16,
    pub episode: u16,
    pub aired: Date,
}

#[derive(Debug, Clone)]
pub enum Metadata {
    Movie(MovieMetadata),
    Series(SeriesMetadata),
    Season(SeasonMetadata),
    Episode(EpisodeMetadata),
}

/// An entity of the catalog.
#[derive(Debug, Clone)]
pub enum Media {
    Uncategorised(Uncategorised),
    Movie(Movie),
    Series(Series),
    Season(Season),
    Episode(Episode),
}

/// Whether `c` separates the components of a path.
pub open spec fn is_separator(c: char) -> bool {
    c == '/' || c == '\\'
}

/// The last component of a path: what follows its last separator.
pub open spec fn file_name_of(p: Seq<char>) -> Seq<char>
    decreases p.len(),
{
    if p.len() == 0 {
        p
    } else if is_separator(p.last()) {
        Seq::empty()
    } else {
        file_name_of(p.drop_last()).push(p.last())
    }
}

/// The last component of `path`.
pub fn file_name(path: &str) -> (r: String)
    ensures
        r@ == file_name_of(path@),
{
    let chars = crate::text::chars_of(path);
    let mut start: usize = 0;
    let mut i: usize = 0;
    while i < chars.len()
        invariant
            chars@ == path@,
            start <= i <= chars.len(),
            file_name_of(chars@.subrange(0, i as int)) == chars@.subrange(start as int, i as int),
        decreases chars.len() - i,
    {
        assert(chars@.subrange(0, i + 1).drop_last() =~= chars@.subrange(0, i as int));
        if chars[i] == '/' || chars[i] == '\\' {
            start = i + 1;
            assert(chars@.subrange(start as int, i + 1) =~= Seq::<char>::empty());
        } else {
            assert(chars@.subrange(start as int, i + 1) =~= chars@.subrange(start as int, i as int).push(chars@[i as int]));
        }
        i = i + 1;
    }
    assert(chars@.subrange(0, chars.len() as int) =~= chars@);
    string_from_chars(chars.as_slice(), start, chars.len())
}

impl Media {
    /// The video of a leaf entity.
    pub open spec fn video_spec(self) -> Option<Video> {
        match self {
            Media::Uncategorised(u) => Some(u.video),
            Media::Movie(m) => Some(m.video),
            Media::Episode(e) => Some(e.video),
            _ => None,
        }
    }

    /// The date of an entity, from its metadata.
    pub open spec fn date_spec(self) -> Option<Date> {
        match self {
            Media::Uncategorised(_) => None,
            Media::Movie(m) => m.metadata.released,
            Media::Series(s) => s.metadata.aired,
            Media::Season(s) => s.metadata.aired,
            Media::Episode(e) => Some(e.metadata.aired),
        }
    }

    /// The title shown for an entity.
    pub open spec fn title_spec(self) -> Seq<char> {
        match self {
            Media::Uncategorised(u) => file_name_of(u.video.path@),
            Media::Movie(m) => m.metadata.title@,
            Media::Series(s) => s.metadata.title@,
            Media::Season(s) => "Season "@ + decimal(s.metadata.season as nat),
            Media::Episode(e) => e.metadata.title@,
        }
    }

    /// The title shown for this entity: the file name of an uncategorised
    /// video, "Season N" for a season, else the title in its metadata.
    pub fn title(&self) -> (r: String)
        ensures
            r@ == self.title_spec(),
    {
        match self {
            Media::Uncategorised(u) => file_name(u.video.path.as_str()),
            Media::Movie(m) => m.metadata.title.clone(),
            Media::Series(s) => s.metadata.title.clone(),
            Media::Season(s) => {
                let prefix = String::from_str("Season ");
                let n = decimal_string(s.metadata.season as u64);
                prefix.concat(n.as_str())
            },
            Media::Episode(e) => e.metadata.title.clone(),
        }
    }

    /// The release or air date of this entity, where its metadata has one.
    pub fn date(&self) -> (r: Option<Date>)
        ensures
            r == self.date_spec(),
    {
        match self {
            Media::Uncategorised(_) => None,
            Media::Movie(m) => m.metadata.released,
            Media::Series(s) => s.metadata.aired,
            Media::Season(s) => s.metadata.aired,
            Media::Episode(e) => Some(e.metadata.aired),
        }
    }

    /// The year of this entity: a movie's own, else that of its date,
    /// truncated to 16 bits.
    pub fn year(&self) -> (r: Option<u16>)
        ensures
            r == (match self {
                Media::Movie(m) => Some(m.metadata.year),
                _ => match self.date_spec() {
                    Some(d) => Some(d.year as u16),
                    None => None,
                },
            }),
    {
        match self {
            Media::Movie(m) => Some(m.metadata.year),
            _ => match self.date() {
                Some(d) => Some(d.year as u16),
                None => None,
            },
        }
    }

    /// The video of a leaf entity (uncategorised, movie or episode).
    pub fn video(&self) -> (r: Option<&Video>)
        ensures
            r == match self.video_spec() {
                Some(v) => Some(&v),
                None => None::<&Video>,
            },
    {
        match self {
            Media::Uncategorised(u) => Some(&u.video),
            Media::Movie(m) => Some(&m.video),
            Media::Episode(e) => Some(&e.video),
            _ => None,
        }
    }

    /// This entity with its video replaced; a series or season is left as it
    /// is.
    pub open spec fn with_video(self, v: Video) -> Media {
        match self {
            Media::Uncategorised(u) => Media::Uncategorised(Uncategorised { video: v, ..u }),
            Media::Movie(m) => Media::Movie(Movie { video: v, ..m }),
            Media::Episode(e) => Media::Episode(Episode { video: v, ..e }),
            _ => self,
        }
    }

    /// The video of a leaf entity, to change in place.
    pub fn video_mut(&mut self) -> (r: Option<&mut Video>)
        ensures
            old(self).video_spec() is None <==> r is None,
            r is None ==> *final(self) == *old(self),
            r matches Some(v) ==> old(self).video_spec() == Some(*v) && *final(self) == old(self).with_video(*final(v)),
    {
        match self {
            Media::Uncategorised(u) => Some(&mut u.video),
            Media::Movie(m) => Some(&mut m.video),
            Media::Episode(e) => Some(&mut e.video),
            _ => None,
        }
    }

    /// The poster of a movie, series or season, where it has one.
    pub fn poster(&self) -> (r: Option<&String>)
        ensures
            r == match self {
                Media::Movie(m) => match m.metadata.poster {
                    Some(p) => Some(&p),
                    None => None::<&String>,
                },
                Media::Series(s) => match s.metadata.poster {
                    Some(p) => Some(&p),
                    None => None::<&String>,
                },
                Media::Season(s) => match s.metadata.poster {
                    Some(p) => Some(&p),
                    None => None::<&String>,
                },
                _ => None::<&String>,
            },
    {
        match self {
            Media::Movie(m) => m.metadata.poster.as_ref(),
            Media::Series(s) => s.metadata.poster.as_ref(),
            Media::Season(s) => s.metadata.poster.as_ref(),
            _ => None,
        }
    }

    /// Sets the watched state of a leaf entity; a series or season is left
    /// as it is.
    pub fn set_video_watched(&mut self, w: Watched)
        ensures
            *final(self) == old(self).with_watched(w),
    {
        match self {
            Media::Uncategorised(u) => {
                u.video.watched = w;
            },
            Media::Movie(m) => {
                m.video.watched = w;
            },
            Media::Episode(e) => {
                e.video.watched = w;
            },
            _ => {},
        }
    }

    /// This entity with the watched state of its video replaced.
    pub open spec fn with_watched(self, w: Watched) -> Media {
        match self {
            Media::Uncategorised(u) => Media::Uncategorised(
                Uncategorised { video: Video { watched: w, ..u.video }, ..u },
            ),
            Media::Movie(m) => Media::Movie(Movie { video: Video { watched: w, ..m.video }, ..m }),
            Media::Episode(e) => Media::Episode(
                Episode { video: Video { watched: w, ..e.video }, ..e },
            ),
            _ => self,
        }
    }
}

} // verus!
