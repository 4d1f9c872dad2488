use vstd::prelude::*;
use crate::ids::MediaId;
use crate::library::{has_key, lemma_increasing_unique, unique_keys, Library};
use crate::media::{file_name, file_name_of, Uncategorised};
use crate::media::{
    Episode, EpisodeMetadata, Media, Movie, MovieMetadata, Season, SeasonMetadata, Series,
    SeriesMetadata, Video,
};

verus! {

/// Metadata found for one season, the episodes matched to catalog entries,
/// and the episodes of the season not matched yet.
#[derive(Debug, Clone)]
pub struct SeasonScrapeResult {
    pub metadata: SeasonMetadata,
    pub episodes: Vec<(MediaId, EpisodeMetadata)>,
    pub unmatched: Vec<EpisodeMetadata>,
}

/// Metadata found for one series under the title it was looked up by, and
/// its seasons.
#[derive(Debug, Clone)]
pub struct SeriesScrapeResult {
    pub query: String,
    pub metadata: SeriesMetadata,
    pub seasons: Vec<SeasonScrapeResult>,
}

/// Metadata found for a batch of catalog entries, not yet merged into the
/// catalog.
#[derive(Debug, Clone)]
pub struct ScrapeResult {
    pub movies: Vec<(MediaId, MovieMetadata)>,
    pub series: Vec<SeriesScrapeResult>,
}

/// The id of the first entry whose entity satisfies `p`.
pub open spec fn first_match(e: Seq<(MediaId, Media)>, p: spec_fn(Media) -> bool) -> Option<MediaId>
    decreases e.len(),
{
    if e.len() == 0 {
        None
    } else {
        match first_match(e.drop_last(), p) {
            Some(x) => Some(x),
            None => if p(e.last().1) {
                Some(e.last().0)
            } else {
                None
            },
        }
    }
}

/// A series with the external id `tmdb`.
pub open spec fn series_with(tmdb: u64) -> spec_fn(Media) -> bool {
    |m: Media| m is Series && m->Series_0.metadata.tmdb_id == tmdb
}

/// A season of the series `series` with the number `number`.
pub open spec fn season_with(series: MediaId, number: u16) -> spec_fn(Media) -> bool {
    |m: Media| m is Season && m->Season_0.series == series && m->Season_0.metadata.season == number
}

/// Entries where the uncategorised entity under `id`, if it is one, has
/// become what `to` makes of its video; the id stays.
pub open spec fn promote(e: Seq<(MediaId, Media)>, id: MediaId, to: spec_fn(Video) -> Media) -> Seq<(MediaId, Media)> {
    e.map_values(
        |p: (MediaId, Media)|
            if p.0 == id && p.1 is Uncategorised {
                (p.0, to(p.1->Uncategorised_0.video))
            } else {
                p
            },
    )
}

pub open spec fn as_movie(metadata: MovieMetadata) -> spec_fn(Video) -> Media {
    |video: Video| Media::Movie(Movie { video, metadata })
}

pub open spec fn as_episode(series: MediaId, season: MediaId, metadata: EpisodeMetadata) -> spec_fn(Video) -> Media {
    |video: Video| Media::Episode(Episode { video, series, season, metadata })
}

/// Entries after promoting each resolved movie, in order.
pub open spec fn merge_movies(e: Seq<(MediaId, Media)>, movies: Seq<(MediaId, MovieMetadata)>) -> Seq<(MediaId, Media)>
    decreases movies.len(),
{
    if movies.len() == 0 {
        e
    } else {
        let (id, metadata) = movies.last();
        promote(merge_movies(e, movies.drop_last()), id, as_movie(metadata))
    }
}

/// Entries after promoting each resolved episode of one season, in order.
pub open spec fn merge_episodes(
    e: Seq<(MediaId, Media)>,
    series: MediaId,
    season: MediaId,
    episodes: Seq<(MediaId, EpisodeMetadata)>,
) -> Seq<(MediaId, Media)>
    decreases episodes.len(),
{
    if episodes.len() == 0 {
        e
    } else {
        let (id, metadata) = episodes.last();
        promote(merge_episodes(e, series, season, episodes.drop_last()), id, as_episode(series, season, metadata))
    }
}

/// Entries and next id after merging one season of the series `series`:
/// the season found, or added, then its episodes.
pub open spec fn merge_season(e: Seq<(MediaId, Media)>, next: nat, series: MediaId, s: SeasonScrapeResult) -> (Seq<(MediaId, Media)>, nat) {
    match first_match(e, season_with(series, s.metadata.season)) {
        Some(id) => (merge_episodes(e, series, id, s.episodes@), next),
        None => {
            let id = MediaId(next as usize);
            let e1 = e.push((id, Media::Season(Season { metadata: s.metadata, series })));
            (merge_episodes(e1, series, id, s.episodes@), next + 1)
        },
    }
}

pub open spec fn merge_seasons(e: Seq<(MediaId, Media)>, next: nat, series: MediaId, seasons: Seq<SeasonScrapeResult>) -> (Seq<(MediaId, Media)>, nat)
    decreases seasons.len(),
{
    if seasons.len() == 0 {
        (e, next)
    } else {
        let (e1, n1) = merge_seasons(e, next, series, seasons.drop_last());
        merge_season(e1, n1, series, seasons.last())
    }
}

/// Entries and next id after merging one series: the series found by its
/// external id, or added, then its seasons.
pub open spec fn merge_one_series(e: Seq<(MediaId, Media)>, next: nat, s: SeriesScrapeResult) -> (Seq<(MediaId, Media)>, nat) {
    match first_match(e, series_with(s.metadata.tmdb_id)) {
        Some(id) => merge_seasons(e, next, id, s.seasons@),
        None => {
            let id = MediaId(next as usize);
            let e1 = e.push((id, Media::Series(Series { metadata: s.metadata })));
            merge_seasons(e1, next + 1, id, s.seasons@)
        },
    }
}

pub open spec fn merge_series(e: Seq<(MediaId, Media)>, next: nat, series: Seq<SeriesScrapeResult>) -> (Seq<(MediaId, Media)>, nat)
    decreases series.len(),
{
    if series.len() == 0 {
        (e, next)
    } else {
        let (e1, n1) = merge_series(e, next, series.drop_last());
        merge_one_series(e1, n1, series.last())
    }
}

/// Entries and next id after merging a whole result: movies first, then
/// series.
pub open spec fn merged(e: Seq<(MediaId, Media)>, next: nat, r: ScrapeResult) -> (Seq<(MediaId, Media)>, nat) {
    merge_series(merge_movies(e, r.movies@), next, r.series@)
}

/// How many entities merging the series may add: each series and each of
/// its seasons.
pub open spec fn entity_count(series: Seq<SeriesScrapeResult>) -> nat
    decreases series.len(),
{
    if series.len() == 0 {
        0
    } else {
        1 + series[0].seasons@.len() + entity_count(series.drop_first())
    }
}

pub proof fn lemma_first_match_prefix(e: Seq<(MediaId, Media)>, j: int, p: spec_fn(Media) -> bool)
    requires
        0 <= j <= e.len(),
        first_match(e.subrange(0, j), p) is Some,
    ensures
        first_match(e, p) == first_match(e.subrange(0, j), p),
    decreases e.len() - j,
{
    if j < e.len() {
        assert(e.drop_last().subrange(0, j) =~= e.subrange(0, j));
        lemma_first_match_prefix(e.drop_last(), j, p);
    } else {
        assert(e.subrange(0, j) =~= e);
    }
}

/// Where the first entry satisfying `p` stands; `p` is decided by `test`.
fn find_first(e: &Vec<(MediaId, Media)>, tmdb: u64, series: MediaId, number: u16, season: bool) -> (r: Option<MediaId>)
    ensures
        r == first_match(e@, if season { season_with(series, number) } else { series_with(tmdb) }),
{
    let ghost p = if season { season_with(series, number) } else { series_with(tmdb) };
    let mut i: usize = 0;
    while i < e.len()
        invariant
            i <= e@.len(),
            p == (if season { season_with(series, number) } else { series_with(tmdb) }),
            first_match(e@.subrange(0, i as int), p) is None,
        decreases e.len() - i,
    {
        let hit = match &e[i].1 {
            Media::Series(s) => !season && s.metadata.tmdb_id == tmdb,
            Media::Season(s) => season && s.series == series && s.metadata.season == number,
            _ => false,
        };
        assert(e@.subrange(0, i + 1).drop_last() =~= e@.subrange(0, i as int));
        assert(hit == p(e@[i as int].1));
        if hit {
            proof {
                lemma_first_match_prefix(e@, i + 1, p);
            }
            return Some(e[i].0);
        }
        i = i + 1;
    }
    assert(e@.subrange(0, e@.len() as int) =~= e@);
    None
}

/// Promoting changes the entry under `id` alone, where it is uncategorised.
proof fn lemma_promote_at(e: Seq<(MediaId, Media)>, i: int, to: spec_fn(Video) -> Media)
    requires
        unique_keys(e),
        0 <= i < e.len(),
    ensures
        promote(e, e[i].0, to) == if e[i].1 is Uncategorised {
            e.update(i, (e[i].0, to(e[i].1->Uncategorised_0.video)))
        } else {
            e
        },
{
    let id = e[i].0;
    if e[i].1 is Uncategorised {
        assert(promote(e, id, to) =~= e.update(i, (id, to(e[i].1->Uncategorised_0.video)))) by {
            assert forall|j: int| 0 <= j < e.len() && j != i implies e[j].0 != id by {}
        }
    } else {
        assert(promote(e, id, to) =~= e) by {
            assert forall|j: int| 0 <= j < e.len() && j != i implies e[j].0 != id by {}
        }
    }
}

proof fn lemma_promote_absent(e: Seq<(MediaId, Media)>, id: MediaId, to: spec_fn(Video) -> Media)
    requires
        !has_key(e, id),
    ensures
        promote(e, id, to) == e,
{
    assert(promote(e, id, to) =~= e) by {
        assert forall|j: int| 0 <= j < e.len() implies e[j].0 != id by {}
    }
}

impl ScrapeResult {
    /// How many entities merging this result may add to a catalog, where
    /// that number fits in `usize`.
    pub fn new_entity_bound(&self) -> (r: Option<usize>)
        ensures
            r matches Some(n) ==> n == self.new_entities(),
    {
        let ghost all = self.series@;
        let mut total: usize = 0;
        let mut i: usize = self.series.len();
        while i > 0
            invariant
                i <= all.len(),
                all == self.series@,
                total == entity_count(all.subrange(i as int, all.len() as int)),
            decreases i,
        {
            let seasons = self.series[i - 1].seasons.len();
            assert(all.subrange(i - 1, all.len() as int).drop_first() =~= all.subrange(i as int, all.len() as int));
            if total > usize::MAX - 1 || total + 1 > usize::MAX - seasons {
                return None;
            }
            total = total + 1 + seasons;
            i = i - 1;
        }
        assert(all.subrange(0, all.len() as int) =~= all);
        Some(total)
    }

    /// An empty result.
    pub fn new() -> (r: ScrapeResult)
        ensures
            r.movies@.len() == 0,
            r.series@.len() == 0,
    {
        ScrapeResult { movies: Vec::new(), series: Vec::new() }
    }

    /// How many entities merging this result may add to a catalog.
    pub open spec fn new_entities(self) -> nat {
        entity_count(self.series@)
    }

    /// Merges this result into `library`. Each resolved movie or episode
    /// whose entity is still uncategorised becomes a movie or an episode
    /// under the same id, with the same video. A series is found by its
    /// external id, a season by its series and number; each is added where
    /// none is found.
    pub fn insert(self, library: &mut Library)
        requires
            old(library).wf(),
            old(library).next_id_spec() + self.new_entities() <= usize::MAX,
        ensures
            final(library).wf(),
            (final(library).entries(), final(library).next_id_spec()) == merged(
                old(library).entries(),
                old(library).next_id_spec(),
                self,
            ),
            final(library).collection_entries() == old(library).collection_entries(),
            final(library).next_collection_spec() == old(library).next_collection_spec(),
    {
        let ghost e0 = library.entries();
        let ghost n0 = library.next_id_spec();
        let ScrapeResult { movies, series } = self;
        let ghost all_movies = movies@;
        let mut movies = movies;
        while movies.len() > 0
            invariant
                library.wf(),
                movies@.len() <= all_movies.len(),
                movies@ == all_movies.subrange(all_movies.len() - movies@.len(), all_movies.len() as int),
                library.entries() == merge_movies(e0, all_movies.subrange(0, all_movies.len() - movies@.len())),
                library.next_id_spec() == n0,
                library.collection_entries() == old(library).collection_entries(),
                library.next_collection_spec() == old(library).next_collection_spec(),
            decreases movies.len(),
        {
            let ghost before = movies@;
            let (id, metadata) = movies.remove(0);
            proof {
                let done = all_movies.subrange(0, all_movies.len() - movies@.len());
                assert(done.drop_last() =~= all_movies.subrange(0, all_movies.len() - before.len()));
                assert(done.last() == before[0]);
                assert(movies@ =~= all_movies.subrange(all_movies.len() - movies@.len(), all_movies.len() as int));
            }
            library.promote_movie(id, metadata);
        }
        assert(all_movies.subrange(0, all_movies.len() as int) =~= all_movies);
        let ghost e1 = library.entries();
        let ghost all_series = series@;
        let mut series = series;
        while series.len() > 0
            invariant
                library.wf(),
                series@.len() <= all_series.len(),
                series@ == all_series.subrange(all_series.len() - series@.len(), all_series.len() as int),
                (library.entries(), library.next_id_spec()) == merge_series(
                    e1,
                    n0,
                    all_series.subrange(0, all_series.len() - series@.len()),
                ),
                library.next_id_spec() + entity_count(series@) <= usize::MAX,
                library.collection_entries() == old(library).collection_entries(),
                library.next_collection_spec() == old(library).next_collection_spec(),
            decreases series.len(),
        {
            let ghost before = series@;
            let one = series.remove(0);
            proof {
                let done = all_series.subrange(0, all_series.len() - series@.len());
                assert(done.drop_last() =~= all_series.subrange(0, all_series.len() - before.len()));
                assert(done.last() == before[0]);
                assert(series@ =~= all_series.subrange(all_series.len() - series@.len(), all_series.len() as int));
                assert(series@ =~= before.drop_first());
            }
            library.merge_series_entry(one);
        }
        assert(all_series.subrange(0, all_series.len() as int) =~= all_series);
    }
}

impl Library {
    /// Merges one series of a scrape result.
    fn merge_series_entry(&mut self, s: SeriesScrapeResult)
        requires
            old(self).wf(),
            old(self).next_id_spec() + 1 + s.seasons@.len() <= usize::MAX,
        ensures
            final(self).wf(),
            (final(self).entries(), final(self).next_id_spec()) == merge_one_series(
                old(self).entries(),
                old(self).next_id_spec(),
                s,
            ),
            final(self).next_id_spec() <= old(self).next_id_spec() + 1 + s.seasons@.len(),
            final(self).collection_entries() == old(self).collection_entries(),
            final(self).next_collection_spec() == old(self).next_collection_spec(),
    {
        let ghost e = self.entries();
        let ghost n = self.next_id_spec();
        let ghost whole = s;
        let SeriesScrapeResult { query, metadata, seasons } = s;
        let series_id = match find_first(self.iter(), metadata.tmdb_id, MediaId(0), 0, false) {
            Some(id) => id,
            None => self.insert(Media::Series(Series { metadata })),
        };
        let ghost e1 = self.entries();
        let ghost n1 = self.next_id_spec();
        let ghost all = seasons@;
        let mut seasons = seasons;
        while seasons.len() > 0
            invariant
                self.wf(),
                seasons@.len() <= all.len(),
                seasons@ == all.subrange(all.len() - seasons@.len(), all.len() as int),
                (self.entries(), self.next_id_spec()) == merge_seasons(
                    e1,
                    n1,
                    series_id,
                    all.subrange(0, all.len() - seasons@.len()),
                ),
                self.next_id_spec() + seasons@.len() <= n + 1 + all.len(),
                n + 1 + all.len() <= usize::MAX,
                self.collection_entries() == old(self).collection_entries(),
                self.next_collection_spec() == old(self).next_collection_spec(),
            decreases seasons.len(),
        {
            let ghost before = seasons@;
            let one = seasons.remove(0);
            proof {
                let done = all.subrange(0, all.len() - seasons@.len());
                assert(done.drop_last() =~= all.subrange(0, all.len() - before.len()));
                assert(done.last() == before[0]);
                assert(seasons@ =~= all.subrange(all.len() - seasons@.len(), all.len() as int));
            }
            self.merge_season_entry(series_id, one);
        }
        assert(all.subrange(0, all.len() as int) =~= all);
    }

    /// Merges one season of the series `series_id`.
    fn merge_season_entry(&mut self, series_id: MediaId, s: SeasonScrapeResult)
        requires
            old(self).wf(),
            old(self).next_id_spec() < usize::MAX,
        ensures
            final(self).wf(),
            (final(self).entries(), final(self).next_id_spec()) == merge_season(
                old(self).entries(),
                old(self).next_id_spec(),
                series_id,
                s,
            ),
            final(self).next_id_spec() <= old(self).next_id_spec() + 1,
            final(self).collection_entries() == old(self).collection_entries(),
            final(self).next_collection_spec() == old(self).next_collection_spec(),
    {
        let SeasonScrapeResult { metadata, episodes, unmatched } = s;
        let season_id = match find_first(self.iter(), 0, series_id, metadata.season, true) {
            Some(id) => id,
            None => self.insert(Media::Season(Season { metadata, series: series_id })),
        };
        let ghost e1 = self.entries();
        let ghost all = episodes@;
        let mut episodes = episodes;
        while episodes.len() > 0
            invariant
                self.wf(),
                episodes@.len() <= all.len(),
                episodes@ == all.subrange(all.len() - episodes@.len(), all.len() as int),
                self.entries() == merge_episodes(e1, series_id, season_id, all.subrange(0, all.len() - episodes@.len())),
                self.next_id_spec() <= old(self).next_id_spec() + 1,
                self.next_id_spec() == (if first_match(old(self).entries(), season_with(series_id, s.metadata.season)) is Some {
                    old(self).next_id_spec()
                } else {
                    old(self).next_id_spec() + 1
                }),
                self.collection_entries() == old(self).collection_entries(),
                self.next_collection_spec() == old(self).next_collection_spec(),
            decreases episodes.len(),
        {
            let ghost before = episodes@;
            let (id, metadata) = episodes.remove(0);
            proof {
                let done = all.subrange(0, all.len() - episodes@.len());
                assert(done.drop_last() =~= all.subrange(0, all.len() - before.len()));
                assert(done.last() == before[0]);
                assert(episodes@ =~= all.subrange(all.len() - episodes@.len(), all.len() as int));
            }
            self.promote_episode(id, series_id, season_id, metadata);
        }
        assert(all.subrange(0, all.len() as int) =~= all);
    }

    /// Turns the uncategorised entity under `id`, if it is one, into a movie
    /// with `metadata` and the same video.
    fn promote_movie(&mut self, id: MediaId, metadata: MovieMetadata)
        requires
            old(self).wf(),
        ensures
            final(self).wf(),
            final(self).entries() == promote(old(self).entries(), id, as_movie(metadata)),
            final(self).next_id_spec() == old(self).next_id_spec(),
            final(self).collection_entries() == old(self).collection_entries(),
            final(self).next_collection_spec() == old(self).next_collection_spec(),
    {
        proof {
            lemma_increasing_unique(self.entries());
        }
        match self.position(id) {
            None => {
                proof {
                    lemma_promote_absent(self.entries(), id, as_movie(metadata));
                }
            },
            Some(i) => {
                proof {
                    lemma_promote_at(self.entries(), i as int, as_movie(metadata));
                }
                let video = match &self.iter()[i].1 {
                    Media::Uncategorised(u) => Some(u.video.duplicate()),
                    _ => None,
                };
                if let Some(video) = video {
                    self.replace_at(i, Media::Movie(Movie { video, metadata }));
                }
            },
        }
    }

    /// Turns the uncategorised entity under `id`, if it is one, into an
    /// episode of `series` and `season` with `metadata` and the same video.
    fn promote_episode(&mut self, id: MediaId, series: MediaId, season: MediaId, metadata: EpisodeMetadata)
        requires
            old(self).wf(),
        ensures
            final(self).wf(),
            final(self).entries() == promote(old(self).entries(), id, as_episode(series, season, metadata)),
            final(self).next_id_spec() == old(self).next_id_spec(),
            final(self).collection_entries() == old(self).collection_entries(),
            final(self).next_collection_spec() == old(self).next_collection_spec(),
    {
        proof {
            lemma_increasing_unique(self.entries());
        }
        match self.position(id) {
            None => {
                proof {
                    lemma_promote_absent(self.entries(), id, as_episode(series, season, metadata));
                }
            },
            Some(i) => {
                proof {
                    lemma_promote_at(self.entries(), i as int, as_episode(series, season, metadata));
                }
                let video = match &self.iter()[i].1 {
                    Media::Uncategorised(u) => Some(u.video.duplicate()),
                    _ => None,
                };
                if let Some(video) = video {
                    self.replace_at(i, Media::Episode(Episode { video, series, season, metadata }));
                }
            },
        }
    }
}

/// An uncategorised entity that a scrape takes: any, where `force`, else
/// one not attempted before.
pub open spec fn scrape_candidate(m: Media, force: bool) -> bool {
    m is Uncategorised && (force || !m->Uncategorised_0.dont_scrape)
}

/// The entity marked as attempted.
pub open spec fn attempted(m: Media) -> Media {
    Media::Uncategorised(Uncategorised { dont_scrape: true, ..m->Uncategorised_0 })
}

/// The entries after marking each candidate as attempted.
pub open spec fn marked(e: Seq<(MediaId, Media)>, force: bool) -> Seq<(MediaId, Media)> {
    e.map_values(
        |x: (MediaId, Media)|
            if scrape_candidate(x.1, force) {
                (x.0, attempted(x.1))
            } else {
                x
            },
    )
}

/// The candidates' ids with their file names, in catalog order.
pub open spec fn batch(e: Seq<(MediaId, Media)>, force: bool) -> Seq<(MediaId, Seq<char>)>
    decreases e.len(),
{
    if e.len() == 0 {
        seq![]
    } else {
        let rest = batch(e.drop_last(), force);
        let (id, m) = e.last();
        if scrape_candidate(m, force) {
            rest.push((id, file_name_of(m->Uncategorised_0.video.path@)))
        } else {
            rest
        }
    }
}

pub open spec fn named(v: Seq<(MediaId, String)>) -> Seq<(MediaId, Seq<char>)> {
    v.map_values(|x: (MediaId, String)| (x.0, x.1@))
}

impl Library {
    /// The uncategorised entities to scrape, with their file names, each
    /// marked as attempted so that an ordinary scrape does not take it again
    /// (also where nothing is found for it); `force` takes those marked
    /// before too.
    pub fn take_scrape_batch(&mut self, force: bool) -> (r: Vec<(MediaId, String)>)
        requires
            old(self).wf(),
        ensures
            final(self).wf(),
            final(self).entries() == marked(old(self).entries(), force),
            named(r@) == batch(old(self).entries(), force),
            final(self).next_id_spec() == old(self).next_id_spec(),
            final(self).collection_entries() == old(self).collection_entries(),
            final(self).next_collection_spec() == old(self).next_collection_spec(),
    {
        let ghost e0 = self.entries();
        let mut out: Vec<(MediaId, String)> = Vec::new();
        let n = self.iter().len();
        let mut i: usize = 0;
        while i < n
            invariant
                self.wf(),
                n == e0.len(),
                i <= n,
                self.entries().len() == n,
                forall|j: int| 0 <= j < i ==> #[trigger] self.entries()[j] == marked(e0, force)[j],
                forall|j: int| i <= j < n ==> #[trigger] self.entries()[j] == e0[j],
                named(out@) == batch(e0.subrange(0, i as int), force),
                self.next_id_spec() == old(self).next_id_spec(),
                self.collection_entries() == old(self).collection_entries(),
                self.next_collection_spec() == old(self).next_collection_spec(),
            decreases n - i,
        {
            assert(e0.subrange(0, i + 1).drop_last() =~= e0.subrange(0, i as int));
            assert(self.entries()[i as int] == e0[i as int]);
            let (id, taken) = match &self.iter()[i].1 {
                Media::Uncategorised(u) => {
                    if force || !u.dont_scrape {
                        let name = file_name(u.video.path.as_str());
                        (self.iter()[i].0, Some((name, u.video.duplicate())))
                    } else {
                        (self.iter()[i].0, None)
                    }
                },
                _ => (self.iter()[i].0, None),
            };
            if let Some((name, video)) = taken {
                let ghost before = out@;
                out.push((id, name));
                assert(named(out@) =~= named(before).push((id, name@)));
                self.replace_at(i, Media::Uncategorised(Uncategorised { video, dont_scrape: true }));
            }
            i = i + 1;
        }
        assert(e0.subrange(0, n as int) =~= e0);
        assert(self.entries() =~= marked(e0, force));
        out
    }

    /// Removes the entities under `removed` (those whose files are gone)
    /// and then drops them from every collection.
    pub fn remove_purged(&mut self, removed: &Vec<MediaId>)
        requires
            old(self).wf(),
        ensures
            final(self).wf(),
            final(self).collections_live(),
            forall|k: MediaId| #[trigger] has_key(final(self).entries(), k) <==> has_key(old(self).entries(), k) && !removed@.contains(k),
            forall|k: MediaId| !removed@.contains(k) ==> #[trigger] final(self).get_spec(k) == old(self).get_spec(k),
            final(self).next_id_spec() == old(self).next_id_spec(),
            final(self).next_collection_spec() == old(self).next_collection_spec(),
    {
        let mut i: usize = 0;
        while i < removed.len()
            invariant
                self.wf(),
                i <= removed@.len(),
                forall|k: MediaId| #[trigger] has_key(self.entries(), k) <==> has_key(old(self).entries(), k) && !removed@.subrange(0, i as int).contains(k),
                forall|k: MediaId| !removed@.subrange(0, i as int).contains(k) ==> #[trigger] self.get_spec(k) == old(self).get_spec(k),
                self.next_id_spec() == old(self).next_id_spec(),
                self.next_collection_spec() == old(self).next_collection_spec(),
            decreases removed.len() - i,
        {
            let ghost pre = removed@.subrange(0, i as int);
            let ghost now = removed@.subrange(0, i + 1);
            assert(now =~= pre.push(removed@[i as int]));
            assert forall|k: MediaId| #[trigger] now.contains(k) <==> pre.contains(k) || k == removed@[i as int] by {
                if k == removed@[i as int] {
                    assert(now[i as int] == k);
                }
                if pre.contains(k) {
                    let a = choose|a: int| 0 <= a < pre.len() && pre[a] == k;
                    assert(now[a] == k);
                }
                if now.contains(k) {
                    let a = choose|a: int| 0 <= a < now.len() && now[a] == k;
                    if a < i {
                        assert(pre[a] == k);
                    }
                }
            }
            let ghost before = self.entries();
            let ghost lib_before = *self;
            self.remove(removed[i]);
            assert forall|k: MediaId| #[trigger] has_key(self.entries(), k) <==> has_key(old(self).entries(), k) && !now.contains(k) by {
                assert(has_key(self.entries(), k) <==> has_key(before, k) && k != removed@[i as int]);
                assert(has_key(before, k) <==> has_key(old(self).entries(), k) && !pre.contains(k));
            }
            assert forall|k: MediaId| !now.contains(k) implies #[trigger] self.get_spec(k) == old(self).get_spec(k) by {
                assert(self.get_spec(k) == lib_before.get_spec(k));
                assert(lib_before.get_spec(k) == old(self).get_spec(k));
            }
            i = i + 1;
        }
        assert(removed@.subrange(0, removed@.len() as int) =~= removed@);
        let ghost kept = *self;
        self.purge_collections();
        assert forall|k: MediaId| !removed@.contains(k) implies #[trigger] self.get_spec(k) == old(self).get_spec(k) by {
            assert(kept.get_spec(k) == old(self).get_spec(k));
        }
        assert forall|k: MediaId| #[trigger] has_key(self.entries(), k) <==> has_key(old(self).entries(), k) && !removed@.contains(k) by {
            assert(has_key(kept.entries(), k) <==> has_key(old(self).entries(), k) && !removed@.contains(k));
        }
    }
}

} // verus!
