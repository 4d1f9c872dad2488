use vstd::prelude::*;
use crate::classify::{MediaType, MediaTypeView};
use crate::ids::MediaId;
use crate::media::{EpisodeMetadata, MovieMetadata, SeasonMetadata, SeriesMetadata};
use crate::scrape::{ScrapeResult, SeasonScrapeResult, SeriesScrapeResult};

verus! {

/// A lookup that the scraper is asked to make.
#[derive(Debug, Clone, PartialEq, Eq)]
pub enum Lookup {
    Movie { title: String, year: u16 },
    Series { title: String },
    Season { series_tmdb_id: u64, season: u16 },
}

pub enum LookupView {
    Movie { title: Seq<char>, year: u16 },
    Series { title: Seq<char> },
    Season { series_tmdb_id: u64, season: u16 },
}

impl View for Lookup {
    type V = LookupView;

    open spec fn view(&self) -> LookupView {
        match self {
            Lookup::Movie { title, year } => LookupView::Movie { title: title@, year: *year },
            Lookup::Series { title } => LookupView::Series { title: title@ },
            Lookup::Season { series_tmdb_id, season } => LookupView::Season {
                series_tmdb_id: *series_tmdb_id,
                season: *season,
            },
        }
    }
}

/// What the scraper answered to the last lookup; `Start` where nothing was
/// asked yet. `None` stands for "not found" and for a failed lookup alike.
#[derive(Debug, Clone)]
pub enum Reply {
    Start,
    Movie(Option<MovieMetadata>),
    Series(Option<SeriesMetadata>),
    Season(Option<(SeasonMetadata, Vec<EpisodeMetadata>)>),
}

pub enum ReplyView {
    Start,
    Movie(Option<MovieMetadata>),
    Series(Option<SeriesMetadata>),
    Season(Option<(SeasonMetadata, Seq<EpisodeMetadata>)>),
}

impl View for Reply {
    type V = ReplyView;

    open spec fn view(&self) -> ReplyView {
        match self {
            Reply::Start => ReplyView::Start,
            Reply::Movie(m) => ReplyView::Movie(*m),
            Reply::Series(m) => ReplyView::Series(*m),
            Reply::Season(None) => ReplyView::Season(None),
            Reply::Season(Some((m, e))) => ReplyView::Season(Some((*m, e@))),
        }
    }
}

pub struct SeasonView {
    pub metadata: SeasonMetadata,
    pub episodes: Seq<(MediaId, EpisodeMetadata)>,
    pub unmatched: Seq<EpisodeMetadata>,
}

pub struct SeriesView {
    pub query: Seq<char>,
    pub metadata: SeriesMetadata,
    pub seasons: Seq<SeasonView>,
}

pub struct ScrapeView {
    pub movies: Seq<(MediaId, MovieMetadata)>,
    pub series: Seq<SeriesView>,
}

pub open spec fn season_views(s: Seq<SeasonScrapeResult>) -> Seq<SeasonView> {
    s.map_values(|x: SeasonScrapeResult| x@)
}

pub open spec fn series_views(s: Seq<SeriesScrapeResult>) -> Seq<SeriesView> {
    s.map_values(|x: SeriesScrapeResult| x@)
}

impl View for SeasonScrapeResult {
    type V = SeasonView;

    open spec fn view(&self) -> SeasonView {
        SeasonView { metadata: self.metadata, episodes: self.episodes@, unmatched: self.unmatched@ }
    }
}

impl View for SeriesScrapeResult {
    type V = SeriesView;

    open spec fn view(&self) -> SeriesView {
        SeriesView {
            query: self.query@,
            metadata: self.metadata,
            seasons: season_views(self.seasons@),
        }
    }
}

impl View for ScrapeResult {
    type V = ScrapeView;

    open spec fn view(&self) -> ScrapeView {
        ScrapeView { movies: self.movies@, series: series_views(self.series@) }
    }
}

/// The index of the first element of `s` that satisfies `p`.
pub open spec fn first_index<A>(s: Seq<A>, p: spec_fn(A) -> bool) -> Option<int>
    decreases s.len(),
{
    if s.len() == 0 {
        None
    } else {
        match first_index(s.drop_last(), p) {
            Some(i) => Some(i),
            None => if p(s.last()) {
                Some(s.len() - 1)
            } else {
                None
            },
        }
    }
}

pub proof fn lemma_first_index_prefix<A>(s: Seq<A>, j: int, p: spec_fn(A) -> bool)
    requires
        0 <= j <= s.len(),
        first_index(s.subrange(0, j), p) is Some,
    ensures
        first_index(s, p) == first_index(s.subrange(0, j), p),
    decreases s.len() - j,
{
    if j < s.len() {
        assert(s.drop_last().subrange(0, j) =~= s.subrange(0, j));
        lemma_first_index_prefix(s.drop_last(), j, p);
    } else {
        assert(s.subrange(0, j) =~= s);
    }
}

pub proof fn lemma_first_index_bounds<A>(s: Seq<A>, p: spec_fn(A) -> bool)
    ensures
        first_index(s, p) matches Some(i) ==> 0 <= i < s.len() && p(s[i]),
    decreases s.len(),
{
    if s.len() > 0 {
        lemma_first_index_bounds(s.drop_last(), p);
        if let Some(i) = first_index(s.drop_last(), p) {
            assert(s.drop_last()[i] == s[i]);
        }
    }
}

pub open spec fn query_is(t: Seq<char>) -> spec_fn(SeriesView) -> bool {
    |s: SeriesView| s.query == t
}

pub open spec fn season_is(n: u16) -> spec_fn(SeasonView) -> bool {
    |s: SeasonView| s.metadata.season == n
}

pub open spec fn episode_is(n: u16) -> spec_fn(EpisodeMetadata) -> bool {
    |e: EpisodeMetadata| e.episode == n
}

/// The season after matching episode `episode` to the entity `id`: the first
/// unmatched episode with that number moves to the matched ones.
pub open spec fn claimed(s: SeasonView, id: MediaId, episode: u16) -> SeasonView {
    match first_index(s.unmatched, episode_is(episode)) {
        Some(k) => SeasonView {
            episodes: s.episodes.push((id, s.unmatched[k])),
            unmatched: s.unmatched.remove(k),
            ..s
        },
        None => s,
    }
}

/// One step of scraping the entity `id`, classified as `ty`, given the reply
/// to the previous step: the new state of the result and the lookup to make
/// next (none once the entity is done with).
///
/// A movie is looked up by title and year. An episode needs its series,
/// found in this batch by the title it was looked up by, else looked up
/// once; then its season, found in the series by number, else looked up
/// once with all its episodes; then the episode is matched by number among
/// those not matched yet. A lookup that finds nothing ends the entity, and
/// that entity alone.
pub open spec fn step(v: ScrapeView, id: MediaId, ty: MediaTypeView, reply: ReplyView) -> (ScrapeView, Option<LookupView>) {
    match ty {
        MediaTypeView::Unknown => (v, None),
        MediaTypeView::Movie { title, year } => match reply {
            ReplyView::Movie(Some(m)) => (ScrapeView { movies: v.movies.push((id, m)), ..v }, None),
            ReplyView::Movie(None) => (v, None),
            _ => (v, Some(LookupView::Movie { title, year })),
        },
        MediaTypeView::Episode { series_title, season, episode } => match first_index(
            v.series,
            query_is(series_title),
        ) {
            None => new_series_step(v, series_title, season, reply),
            Some(i) => series_step(v, i, id, season, episode, reply),
        },
    }
}

/// An episode step where no series was found yet under `title`.
pub open spec fn new_series_step(v: ScrapeView, title: Seq<char>, season: u16, reply: ReplyView) -> (ScrapeView, Option<LookupView>) {
    match reply {
        ReplyView::Series(Some(m)) => (
            ScrapeView {
                series: v.series.push(SeriesView { query: title, metadata: m, seasons: seq![] }),
                ..v
            },
            Some(LookupView::Season { series_tmdb_id: m.tmdb_id, season }),
        ),
        ReplyView::Series(None) => (v, None),
        _ => (v, Some(LookupView::Series { title })),
    }
}

/// An episode step within the series at index `i`.
pub open spec fn series_step(v: ScrapeView, i: int, id: MediaId, season: u16, episode: u16, reply: ReplyView) -> (ScrapeView, Option<LookupView>) {
    let sr = v.series[i];
    match first_index(sr.seasons, season_is(season)) {
        None => match reply {
            ReplyView::Season(Some((m, eps))) => {
                let fresh = SeasonView { metadata: m, episodes: seq![], unmatched: eps };
                (
                    ScrapeView {
                        series: v.series.update(
                            i,
                            SeriesView { seasons: sr.seasons.push(claimed(fresh, id, episode)), ..sr },
                        ),
                        ..v
                    },
                    None,
                )
            },
            ReplyView::Season(None) => (v, None),
            _ => (v, Some(LookupView::Season { series_tmdb_id: sr.metadata.tmdb_id, season })),
        },
        Some(j) => (
            ScrapeView {
                series: v.series.update(
                    i,
                    SeriesView { seasons: sr.seasons.update(j, claimed(sr.seasons[j], id, episode)), ..sr },
                ),
                ..v
            },
            None,
        ),
    }
}

impl SeasonScrapeResult {
    /// Matches episode `episode` to the entity `id`, where an unmatched
    /// episode has that number.
    pub fn claim(&mut self, id: MediaId, episode: u16)
        ensures
            final(self)@ == claimed(old(self)@, id, episode),
    {
        let ghost p = episode_is(episode);
        let mut k: usize = 0;
        while k < self.unmatched.len()
            invariant
                k <= self.unmatched@.len(),
                self.unmatched == old(self).unmatched,
                self.episodes == old(self).episodes,
                self.metadata == old(self).metadata,
                p == episode_is(episode),
                first_index(self.unmatched@.subrange(0, k as int), p) is None,
            decreases self.unmatched.len() - k,
        {
            assert(self.unmatched@.subrange(0, k + 1).drop_last() =~= self.unmatched@.subrange(0, k as int));
            assert(self.unmatched@.subrange(0, k + 1).last() == self.unmatched@[k as int]);
            let hit = self.unmatched[k].episode == episode;
            assert(hit == p(self.unmatched@[k as int]));
            if hit {
                proof {
                    lemma_first_index_prefix(self.unmatched@, k + 1, p);
                }
                let m = self.unmatched.remove(k);
                self.episodes.push((id, m));
                return;
            }
            k = k + 1;
        }
        assert(self.unmatched@.subrange(0, self.unmatched@.len() as int) =~= self.unmatched@);
    }
}

/// The view of an optional lookup.
pub open spec fn lookup_view(r: Option<Lookup>) -> Option<LookupView> {
    match r {
        Some(l) => Some(l@),
        None => None,
    }
}

impl ScrapeResult {
    /// One step of scraping the entity `id`, classified as `media_type`:
    /// takes in `reply`, the answer to the lookup that the previous step
    /// asked for (or `Reply::Start`), and returns the lookup to make next, or
    /// `None` once the entity is done with. Each lookup of a series or season
    /// is made at most once per batch, and only a found one is kept.
    pub fn advance(&mut self, id: MediaId, media_type: &MediaType, reply: Reply) -> (r: Option<Lookup>)
        ensures
            final(self)@ == step(old(self)@, id, media_type@, reply@).0,
            lookup_view(r) == step(old(self)@, id, media_type@, reply@).1,
    {
        match media_type {
            MediaType::Unknown => None,
            MediaType::Movie { title, year } => match reply {
                Reply::Movie(Some(m)) => {
                    self.movies.push((id, m));
                    None
                },
                Reply::Movie(None) => None,
                _ => Some(Lookup::Movie { title: title.clone(), year: *year }),
            },
            MediaType::Episode { series_title, season, episode } => {
                proof {
                    lemma_first_index_bounds(self@.series, query_is(series_title@));
                }
                let ghost v = self@;
                match series_position(&self.series, series_title) {
                    None => {
                        assert(first_index(v.series, query_is(series_title@)) is None);
                        self.new_series(series_title, *season, reply)
                    },
                    Some(i) => {
                        assert(first_index(v.series, query_is(series_title@)) == Some(i as int));
                        self.in_series(i, id, *season, *episode, reply)
                    },
                }
            },
        }
    }

    /// An episode step where no series was found yet under `title`.
    fn new_series(&mut self, title: &String, season: u16, reply: Reply) -> (r: Option<Lookup>)
        ensures
            final(self)@ == new_series_step(old(self)@, title@, season, reply@).0,
            lookup_view(r) == new_series_step(old(self)@, title@, season, reply@).1,
    {
        match reply {
            Reply::Series(Some(m)) => {
                let tmdb = m.tmdb_id;
                let fresh = SeriesScrapeResult { query: title.clone(), metadata: m, seasons: Vec::new() };
                let ghost v = self@;
                self.series.push(fresh);
                proof {
                    assert(fresh@.seasons =~= Seq::<SeasonView>::empty());
                    assert(series_views(self.series@) =~= v.series.push(fresh@));
                }
                Some(Lookup::Season { series_tmdb_id: tmdb, season })
            },
            Reply::Series(None) => None,
            _ => Some(Lookup::Series { title: title.clone() }),
        }
    }

    /// An episode step within the series at index `i`.
    fn in_series(&mut self, i: usize, id: MediaId, season: u16, episode: u16, reply: Reply) -> (r: Option<Lookup>)
        requires
            i < old(self).series@.len(),
        ensures
            final(self)@ == series_step(old(self)@, i as int, id, season, episode, reply@).0,
            lookup_view(r) == series_step(old(self)@, i as int, id, season, episode, reply@).1,
    {
        let ghost v = self@;
        let ghost sr = v.series[i as int];
        assert(sr == self.series@[i as int]@);
        proof {
            lemma_first_index_bounds(sr.seasons, season_is(season));
        }
        match season_position(&self.series[i].seasons, season) {
            None => match reply {
                Reply::Season(Some((m, eps))) => {
                    let mut fresh = SeasonScrapeResult { metadata: m, episodes: Vec::new(), unmatched: eps };
                    assert(fresh@.episodes =~= Seq::<(MediaId, EpisodeMetadata)>::empty());
                    fresh.claim(id, episode);
                    let mut one = self.series.remove(i);
                    one.seasons.push(fresh);
                    proof {
                        assert(season_views(one.seasons@) =~= sr.seasons.push(fresh@));
                    }
                    self.series.insert(i, one);
                    proof {
                        assert(series_views(self.series@) =~= v.series.update(i as int, one@));
                        assert(first_index(sr.seasons, season_is(season)) is None);
                        assert(fresh@ == claimed(SeasonView { metadata: m, episodes: seq![], unmatched: eps@ }, id, episode));
                        assert(one@ == SeriesView { seasons: sr.seasons.push(fresh@), ..sr });
                    }
                    None
                },
                Reply::Season(None) => None,
                _ => Some(Lookup::Season { series_tmdb_id: self.series[i].metadata.tmdb_id, season }),
            },
            Some(j) => {
                let mut one = self.series.remove(i);
                let mut se = one.seasons.remove(j);
                assert(se@ == sr.seasons[j as int]);
                se.claim(id, episode);
                one.seasons.insert(j, se);
                proof {
                    assert(season_views(one.seasons@) =~= sr.seasons.update(j as int, se@));
                    assert(first_index(sr.seasons, season_is(season)) == Some(j as int));
                    assert(one@ == SeriesView { seasons: sr.seasons.update(j as int, claimed(sr.seasons[j as int], id, episode)), ..sr });
                }
                self.series.insert(i, one);
                proof {
                    assert(series_views(self.series@) =~= v.series.update(i as int, one@));
                }
                None
            },
        }
    }
}

/// The index of the first series looked up by `title`.
fn series_position(v: &Vec<SeriesScrapeResult>, title: &String) -> (r: Option<usize>)
    ensures
        r matches Some(i) ==> first_index(series_views(v@), query_is(title@)) == Some(i as int),
        r is None ==> first_index(series_views(v@), query_is(title@)) is None,
{
    let ghost vs = series_views(v@);
    let ghost p = query_is(title@);
    let mut i: usize = 0;
    while i < v.len()
        invariant
            i <= v@.len(),
            vs == series_views(v@),
            p == query_is(title@),
            first_index(vs.subrange(0, i as int), p) is None,
        decreases v.len() - i,
    {
        assert(vs.subrange(0, i + 1).drop_last() =~= vs.subrange(0, i as int));
        assert(vs[i as int] == v@[i as int]@);
        if v[i].query == *title {
            proof {
                lemma_first_index_prefix(vs, i + 1, p);
            }
            return Some(i);
        }
        i = i + 1;
    }
    assert(vs.subrange(0, vs.len() as int) =~= vs);
    None
}

/// The index of the first season numbered `number`.
fn season_position(v: &Vec<SeasonScrapeResult>, number: u16) -> (r: Option<usize>)
    ensures
        r matches Some(i) ==> first_index(season_views(v@), season_is(number)) == Some(i as int),
        r is None ==> first_index(season_views(v@), season_is(number)) is None,
{
    let ghost vs = season_views(v@);
    let ghost p = season_is(number);
    let mut i: usize = 0;
    while i < v.len()
        invariant
            i <= v@.len(),
            vs == season_views(v@),
            p == season_is(number),
            first_index(vs.subrange(0, i as int), p) is None,
        decreases v.len() - i,
    {
        assert(vs.subrange(0, i + 1).drop_last() =~= vs.subrange(0, i as int));
        assert(vs[i as int] == v@[i as int]@);
        if v[i].metadata.season == number {
            proof {
                lemma_first_index_prefix(vs, i + 1, p);
            }
            return Some(i);
        }
        i = i + 1;
    }
    assert(vs.subrange(0, vs.len() as int) =~= vs);
    None
}

} // verus!
