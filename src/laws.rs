use vstd::prelude::*;
use crate::catalog::{episode_progress, episodes_in, in_series, season_watched, watch_target, watched_set};
use crate::ids::MediaId;
use crate::library::{extended, lookup, path_taken, video_path};
use crate::media::{Episode, EpisodeMetadata, Media, MovieMetadata, Season, Series, Video, Watched, FULL};
use crate::scrape::{
    as_episode, as_movie, first_match, lemma_first_match_prefix, merge_episodes, merge_movies, merge_one_series, merge_season, merge_seasons,
    merge_series, merged, promote, season_with, series_with, ScrapeResult, SeasonScrapeResult,
    SeriesScrapeResult,
};

verus! {

proof fn lemma_taken_grows(s: Seq<(MediaId, Media)>, t: Seq<(MediaId, Media)>, p: Option<Seq<char>>)
    requires
        s.len() <= t.len(),
        forall|i: int| 0 <= i < s.len() ==> t[i] == s[i],
        path_taken(s, p),
    ensures
        path_taken(t, p),
{
    let i = choose|i: int| 0 <= i < s.len() && video_path(#[trigger] s[i].1) == p;
    assert(video_path(t[i].1) == p);
}

proof fn lemma_extended_prefix(e: Seq<(MediaId, Media)>, next: nat, items: Seq<Media>)
    ensures
        e.len() <= extended(e, next, items).0.len(),
        forall|i: int| 0 <= i < e.len() ==> #[trigger] extended(e, next, items).0[i] == e[i],
    decreases items.len(),
{
    if items.len() > 0 {
        lemma_extended_prefix(e, next, items.drop_last());
    }
}

proof fn lemma_extended_takes_all(e: Seq<(MediaId, Media)>, next: nat, items: Seq<Media>)
    ensures
        forall|k: int| 0 <= k < items.len() ==> path_taken(extended(e, next, items).0, video_path(#[trigger] items[k])),
    decreases items.len(),
{
    if items.len() > 0 {
        let d = items.drop_last();
        lemma_extended_takes_all(e, next, d);
        let (s0, n0) = extended(e, next, d);
        let s = extended(e, next, items).0;
        assert forall|k: int| 0 <= k < items.len() implies path_taken(s, video_path(#[trigger] items[k])) by {
            if k < d.len() {
                assert(items[k] == d[k]);
                lemma_taken_grows(s0, s, video_path(d[k]));
            } else if !path_taken(s0, video_path(items.last())) {
                assert(s[s0.len() as int].1 == items.last());
            }
        }
    }
}

proof fn lemma_extended_noop(s: Seq<(MediaId, Media)>, n: nat, items: Seq<Media>)
    requires
        forall|k: int| 0 <= k < items.len() ==> path_taken(s, video_path(#[trigger] items[k])),
    ensures
        extended(s, n, items) == (s, n),
    decreases items.len(),
{
    if items.len() > 0 {
        let d = items.drop_last();
        assert forall|k: int| 0 <= k < d.len() implies path_taken(s, video_path(#[trigger] d[k])) by {
            assert(d[k] == items[k]);
        }
        lemma_extended_noop(s, n, d);
        assert(path_taken(s, video_path(items[items.len() - 1])));
    }
}

/// Extending a catalog a second time with the same media changes nothing:
/// every path that came was added or dropped the first time.
pub proof fn extend_is_idempotent(e: Seq<(MediaId, Media)>, next: nat, items: Seq<Media>)
    ensures
        extended(extended(e, next, items).0, extended(e, next, items).1, items) == extended(e, next, items),
{
    lemma_extended_takes_all(e, next, items);
    lemma_extended_noop(extended(e, next, items).0, extended(e, next, items).1, items);
}

/// At most one series per external id.
pub open spec fn series_unique(e: Seq<(MediaId, Media)>) -> bool {
    forall|i: int, j: int|
        0 <= i < e.len() && 0 <= j < e.len() && i != j && #[trigger] e[i].1 is Series && #[trigger] e[j].1 is Series
            ==> e[i].1->Series_0.metadata.tmdb_id != e[j].1->Series_0.metadata.tmdb_id
}

/// At most one season per series and season number.
pub open spec fn seasons_unique(e: Seq<(MediaId, Media)>) -> bool {
    forall|i: int, j: int|
        0 <= i < e.len() && 0 <= j < e.len() && i != j && #[trigger] e[i].1 is Season && #[trigger] e[j].1 is Season
            ==> e[i].1->Season_0.series != e[j].1->Season_0.series || e[i].1->Season_0.metadata.season
            != e[j].1->Season_0.metadata.season
}

/// Both uniqueness rules, and the ids of the entries kept from `e0` in
/// their places.
pub open spec fn dedup_kept(e0: Seq<(MediaId, Media)>, e: Seq<(MediaId, Media)>) -> bool {
    &&& series_unique(e)
    &&& seasons_unique(e)
    &&& e0.len() <= e.len()
    &&& forall|i: int| 0 <= i < e0.len() ==> #[trigger] e[i].0 == e0[i].0
}

proof fn lemma_promote_kept(e0: Seq<(MediaId, Media)>, e: Seq<(MediaId, Media)>, id: MediaId, to: spec_fn(Video) -> Media)
    requires
        dedup_kept(e0, e),
        forall|v: Video| !(#[trigger] to(v) is Series) && !(to(v) is Season),
    ensures
        dedup_kept(e0, promote(e, id, to)),
{
    let t = promote(e, id, to);
    assert forall|i: int| 0 <= i < e.len() implies (#[trigger] t[i]).0 == e[i].0 && (t[i].1 is Series ==> t[i] == e[i]) && (t[i].1 is Season ==> t[i] == e[i]) by {
        if e[i].0 == id && e[i].1 is Uncategorised {
            let v = e[i].1->Uncategorised_0.video;
            assert(!(to(v) is Series) && !(to(v) is Season));
        }
    }
}


proof fn lemma_merge_movies_kept(e0: Seq<(MediaId, Media)>, e: Seq<(MediaId, Media)>, movies: Seq<(MediaId, MovieMetadata)>)
    requires
        dedup_kept(e0, e),
    ensures
        dedup_kept(e0, merge_movies(e, movies)),
    decreases movies.len(),
{
    if movies.len() > 0 {
        lemma_merge_movies_kept(e0, e, movies.drop_last());
        let (id, metadata) = movies.last();
        lemma_promote_kept(e0, merge_movies(e, movies.drop_last()), id, as_movie(metadata));
    }
}

proof fn lemma_merge_episodes_kept(e0: Seq<(MediaId, Media)>, e: Seq<(MediaId, Media)>, series: MediaId, season: MediaId, eps: Seq<(MediaId, EpisodeMetadata)>)
    requires
        dedup_kept(e0, e),
    ensures
        dedup_kept(e0, merge_episodes(e, series, season, eps)),
    decreases eps.len(),
{
    if eps.len() > 0 {
        lemma_merge_episodes_kept(e0, e, series, season, eps.drop_last());
        let (id, metadata) = eps.last();
        lemma_promote_kept(e0, merge_episodes(e, series, season, eps.drop_last()), id, as_episode(series, season, metadata));
    }
}

proof fn lemma_first_match_none(e: Seq<(MediaId, Media)>, p: spec_fn(Media) -> bool, i: int)
    requires
        first_match(e, p) is None,
        0 <= i < e.len(),
    ensures
        !p(e[i].1),
    decreases e.len(),
{
    if i < e.len() - 1 {
        assert(first_match(e.drop_last(), p) is None);
        assert(e.drop_last()[i] == e[i]);
        lemma_first_match_none(e.drop_last(), p, i);
    }
}

proof fn lemma_push_kept(e0: Seq<(MediaId, Media)>, e: Seq<(MediaId, Media)>, x: (MediaId, Media))
    requires
        dedup_kept(e0, e),
        x.1 is Series ==> first_match(e, series_with(x.1->Series_0.metadata.tmdb_id)) is None,
        x.1 is Season ==> first_match(e, season_with(x.1->Season_0.series, x.1->Season_0.metadata.season)) is None,
    ensures
        dedup_kept(e0, e.push(x)),
{
    let t = e.push(x);
    assert forall|i: int| 0 <= i < e.len() implies #[trigger] t[i] == e[i] by {}
    if x.1 is Series {
        assert forall|i: int| 0 <= i < e.len() && e[i].1 is Series implies e[i].1->Series_0.metadata.tmdb_id != x.1->Series_0.metadata.tmdb_id by {
            lemma_first_match_none(e, series_with(x.1->Series_0.metadata.tmdb_id), i);
        }
    }
    if x.1 is Season {
        assert forall|i: int| 0 <= i < e.len() && e[i].1 is Season implies e[i].1->Season_0.series != x.1->Season_0.series
            || e[i].1->Season_0.metadata.season != x.1->Season_0.metadata.season by {
            lemma_first_match_none(e, season_with(x.1->Season_0.series, x.1->Season_0.metadata.season), i);
        }
    }
    assert(t[e.len() as int] == x);
}

proof fn lemma_merge_season_kept(e0: Seq<(MediaId, Media)>, e: Seq<(MediaId, Media)>, next: nat, series: MediaId, s: SeasonScrapeResult)
    requires
        dedup_kept(e0, e),
    ensures
        dedup_kept(e0, merge_season(e, next, series, s).0),
{
    match first_match(e, season_with(series, s.metadata.season)) {
        Some(id) => {
            lemma_merge_episodes_kept(e0, e, series, id, s.episodes@);
        },
        None => {
            let id = MediaId(next as usize);
            let x = (id, Media::Season(Season { metadata: s.metadata, series }));
            lemma_push_kept(e0, e, x);
            lemma_merge_episodes_kept(e0, e.push(x), series, id, s.episodes@);
        },
    }
}

proof fn lemma_merge_seasons_kept(e0: Seq<(MediaId, Media)>, e: Seq<(MediaId, Media)>, next: nat, series: MediaId, seasons: Seq<SeasonScrapeResult>)
    requires
        dedup_kept(e0, e),
    ensures
        dedup_kept(e0, merge_seasons(e, next, series, seasons).0),
    decreases seasons.len(),
{
    if seasons.len() > 0 {
        lemma_merge_seasons_kept(e0, e, next, series, seasons.drop_last());
        let (e1, n1) = merge_seasons(e, next, series, seasons.drop_last());
        lemma_merge_season_kept(e0, e1, n1, series, seasons.last());
    }
}

proof fn lemma_merge_series_kept(e0: Seq<(MediaId, Media)>, e: Seq<(MediaId, Media)>, next: nat, series: Seq<SeriesScrapeResult>)
    requires
        dedup_kept(e0, e),
    ensures
        dedup_kept(e0, merge_series(e, next, series).0),
    decreases series.len(),
{
    if series.len() > 0 {
        lemma_merge_series_kept(e0, e, next, series.drop_last());
        let (e1, n1) = merge_series(e, next, series.drop_last());
        let s = series.last();
        match first_match(e1, series_with(s.metadata.tmdb_id)) {
            Some(id) => {
                lemma_merge_seasons_kept(e0, e1, n1, id, s.seasons@);
            },
            None => {
                let id = MediaId(n1 as usize);
                let x = (id, Media::Series(Series { metadata: s.metadata }));
                lemma_push_kept(e0, e1, x);
                lemma_merge_seasons_kept(e0, e1.push(x), n1 + 1, id, s.seasons@);
            },
        }
    }
}

/// Merging a scrape result never duplicates a series or a season: where
/// series are unique by external id and seasons by series and number
/// before, they are after, however often the same result is merged. Every
/// entity keeps its id and its place, so a promoted entry is still found
/// under the id it had, and collections naming it stay valid.
pub proof fn merge_keeps_dedup_and_ids(e: Seq<(MediaId, Media)>, next: nat, r: ScrapeResult)
    requires
        series_unique(e),
        seasons_unique(e),
    ensures
        series_unique(merged(e, next, r).0),
        seasons_unique(merged(e, next, r).0),
        e.len() <= merged(e, next, r).0.len(),
        forall|i: int| 0 <= i < e.len() ==> #[trigger] merged(e, next, r).0[i].0 == e[i].0,
{
    lemma_merge_movies_kept(e, e, r.movies@);
    lemma_merge_series_kept(e, merge_movies(e, r.movies@), next, r.series@);
}

proof fn lemma_progress_bounds(s: Seq<(MediaId, Episode)>)
    requires
        forall|k: int| 0 <= k < s.len() ==> (#[trigger] s[k]).1.video.watched.wf(),
    ensures
        episode_progress(s) <= s.len() * (FULL as nat),
        episode_progress(s) == s.len() * (FULL as nat) <==> forall|k: int| 0 <= k < s.len() ==> (#[trigger] s[k]).1.video.watched == Watched::Yes,
        episode_progress(s) == 0 <==> forall|k: int| 0 <= k < s.len() ==> (#[trigger] s[k]).1.video.watched == Watched::No,
    decreases s.len(),
{
    if s.len() > 0 {
        let d = s.drop_last();
        assert forall|k: int| 0 <= k < d.len() implies (#[trigger] d[k]).1.video.watched.wf() by {
            assert(d[k] == s[k]);
        }
        lemma_progress_bounds(d);
        let w = s.last().1.video.watched;
        assert(s[s.len() - 1] == s.last());
        assert(w.progress() <= FULL);
        assert(w.progress() == FULL <==> w == Watched::Yes);
        assert(w.progress() == 0 <==> w == Watched::No);
        assert((s.len() - 1) * (FULL as nat) + (FULL as nat) == s.len() * (FULL as nat)) by (nonlinear_arith);
        if forall|k: int| 0 <= k < s.len() ==> (#[trigger] s[k]).1.video.watched == Watched::Yes {
            assert forall|k: int| 0 <= k < d.len() implies (#[trigger] d[k]).1.video.watched == Watched::Yes by {
                assert(d[k] == s[k]);
            }
        }
        if forall|k: int| 0 <= k < s.len() ==> (#[trigger] s[k]).1.video.watched == Watched::No {
            assert forall|k: int| 0 <= k < d.len() implies (#[trigger] d[k]).1.video.watched == Watched::No by {
                assert(d[k] == s[k]);
            }
        }
        if episode_progress(s) == s.len() * (FULL as nat) {
            assert forall|k: int| 0 <= k < s.len() implies (#[trigger] s[k]).1.video.watched == Watched::Yes by {
                if k < d.len() {
                    assert(d[k] == s[k]);
                }
            }
        }
        if episode_progress(s) == 0 {
            assert forall|k: int| 0 <= k < s.len() implies (#[trigger] s[k]).1.video.watched == Watched::No by {
                if k < d.len() {
                    assert(d[k] == s[k]);
                }
            }
        }
    }
}

/// A season is watched when each of its episodes is (and it has one), not
/// watched when none of its episodes is started, and otherwise partly
/// watched at the mean progress of its episodes (within one ten-thousandth),
/// where every partial state of an episode lies strictly between nothing
/// and all.
pub proof fn season_watched_follows_episodes(e: Seq<(MediaId, Media)>, season: MediaId)
    requires
        forall|k: int| 0 <= k < episodes_in(e, season).len() ==> (#[trigger] episodes_in(e, season)[k]).1.video.watched.wf(),
    ensures
        ({
            let eps = episodes_in(e, season);
            let n = eps.len();
            let sum = episode_progress(eps);
            &&& season_watched(e, season) == Watched::Yes <==> n > 0 && forall|k: int| 0 <= k < n ==> (#[trigger] eps[k]).1.video.watched == Watched::Yes
            &&& season_watched(e, season) == Watched::No <==> forall|k: int| 0 <= k < n ==> (#[trigger] eps[k]).1.video.watched == Watched::No
            &&& season_watched(e, season) matches Watched::Partial { seconds, percent } ==> seconds == 0
                && 0 < percent < FULL && (percent as nat) * n <= sum + n && sum < (percent as nat + 1) * n
        }),
{
    let eps = episodes_in(e, season);
    let n = eps.len();
    let sum = episode_progress(eps);
    lemma_progress_bounds(eps);
    if n > 0 && sum != 0 && sum != n * (FULL as nat) {
        let mean = sum / n;
        assert(mean * n <= sum && sum < (mean + 1) * n) by (nonlinear_arith)
            requires
                mean == sum / n,
                n > 0,
        ;
        assert(mean < FULL) by (nonlinear_arith)
            requires
                mean * n <= sum,
                sum < n * (FULL as nat),
                n > 0,
        ;
        let percent: u32 = if mean == 0 { 1 } else { mean as u32 };
        assert(season_watched(e, season) == Watched::Partial { seconds: 0, percent });
        assert((percent as nat) * n <= sum + n) by (nonlinear_arith)
            requires
                percent == mean || (mean == 0 && percent == 1),
                mean * n <= sum,
        ;
        assert(sum < (percent as nat + 1) * n) by (nonlinear_arith)
            requires
                percent >= mean,
                sum < (mean + 1) * n,
                n > 0,
        ;
    }
}

/// Setting the watched state of a series reaches every episode of each of
/// its seasons.
pub proof fn set_watched_reaches_every_episode(e: Seq<(MediaId, Media)>, series: MediaId, w: Watched)
    requires
        lookup(e, series) matches Some(m) && m is Series,
    ensures
        forall|k: int| 0 <= k < e.len() && in_series(e, #[trigger] e[k].1, series)
            ==> watched_set(e, series, w)[k].1 is Episode && watched_set(e, series, w)[k].1->Episode_0.video.watched == w,
{
    assert forall|k: int| 0 <= k < e.len() && in_series(e, #[trigger] e[k].1, series)
        implies watched_set(e, series, w)[k].1 is Episode && watched_set(e, series, w)[k].1->Episode_0.video.watched == w by {
        assert(watch_target(e, series, e[k]));
    }
}

/// `b` is `a` after merge steps: the same entries in the same places, but
/// that an uncategorised one may have become a movie or an episode, and
/// series or seasons added after them.
pub open spec fn grows(a: Seq<(MediaId, Media)>, b: Seq<(MediaId, Media)>) -> bool {
    &&& a.len() <= b.len()
    &&& forall|i: int|
        0 <= i < a.len() ==> #[trigger] b[i] == a[i] || (a[i].1 is Uncategorised && b[i].0 == a[i].0 && !(
        b[i].1 is Uncategorised) && !(b[i].1 is Series) && !(b[i].1 is Season))
    &&& forall|i: int| a.len() <= i < b.len() ==> !((#[trigger] b[i]).1 is Uncategorised)
}

/// No entry under `id` is uncategorised.
pub open spec fn settled(e: Seq<(MediaId, Media)>, id: MediaId) -> bool {
    forall|i: int| 0 <= i < e.len() && (#[trigger] e[i]).0 == id ==> !(e[i].1 is Uncategorised)
}

/// `p` holds of series or seasons alone.
pub open spec fn structural(p: spec_fn(Media) -> bool) -> bool {
    forall|m: Media| #[trigger] p(m) ==> m is Series || m is Season
}

proof fn lemma_grows_trans(a: Seq<(MediaId, Media)>, b: Seq<(MediaId, Media)>, c: Seq<(MediaId, Media)>)
    requires
        grows(a, b),
        grows(b, c),
    ensures
        grows(a, c),
{
    assert forall|i: int| 0 <= i < a.len() implies #[trigger] c[i] == a[i] || (a[i].1 is Uncategorised && c[i].0
        == a[i].0 && !(c[i].1 is Uncategorised) && !(c[i].1 is Series) && !(c[i].1 is Season)) by {
        assert(b[i] == a[i] || b[i].0 == a[i].0);
        assert(c[i] == b[i] || b[i].1 is Uncategorised);
    }
    assert forall|i: int| a.len() <= i < c.len() implies !((#[trigger] c[i]).1 is Uncategorised) by {
        if i < b.len() {
            assert(!(b[i].1 is Uncategorised));
        }
    }
}

proof fn lemma_settled_grows(a: Seq<(MediaId, Media)>, b: Seq<(MediaId, Media)>, id: MediaId)
    requires
        grows(a, b),
        settled(a, id),
    ensures
        settled(b, id),
{
    assert forall|i: int| 0 <= i < b.len() && (#[trigger] b[i]).0 == id implies !(b[i].1 is Uncategorised) by {
        if i < a.len() {
            assert(b[i] == a[i] || a[i].1 is Uncategorised);
            if b[i] != a[i] {
                assert(a[i].0 == id);
            }
        }
    }
}

proof fn lemma_first_match_same(a: Seq<(MediaId, Media)>, b: Seq<(MediaId, Media)>, p: spec_fn(Media) -> bool)
    requires
        a.len() == b.len(),
        forall|i: int| 0 <= i < a.len() ==> (#[trigger] a[i]).0 == b[i].0 && p(a[i].1) == p(b[i].1),
    ensures
        first_match(a, p) == first_match(b, p),
    decreases a.len(),
{
    if a.len() > 0 {
        assert forall|i: int| 0 <= i < a.drop_last().len() implies (#[trigger] a.drop_last()[i]).0 == b.drop_last()[i].0
            && p(a.drop_last()[i].1) == p(b.drop_last()[i].1) by {
            assert(a.drop_last()[i] == a[i] && b.drop_last()[i] == b[i]);
        }
        lemma_first_match_same(a.drop_last(), b.drop_last(), p);
        assert(a.last() == a[a.len() - 1] && b.last() == b[b.len() - 1]);
    }
}

/// A series or season found stays the first found as the entries grow.
proof fn lemma_first_match_stable(a: Seq<(MediaId, Media)>, b: Seq<(MediaId, Media)>, p: spec_fn(Media) -> bool)
    requires
        grows(a, b),
        structural(p),
        first_match(a, p) is Some,
    ensures
        first_match(b, p) == first_match(a, p),
{
    let c = b.subrange(0, a.len() as int);
    assert forall|i: int| 0 <= i < a.len() implies (#[trigger] a[i]).0 == c[i].0 && p(a[i].1) == p(c[i].1) by {
        assert(c[i] == b[i]);
        if b[i] != a[i] {
            assert(!p(a[i].1));
            assert(!p(b[i].1));
        }
    }
    lemma_first_match_same(a, c, p);
    lemma_first_match_prefix(b, a.len() as int, p);
}

proof fn lemma_structural(tmdb: u64, series: MediaId, number: u16)
    ensures
        structural(series_with(tmdb)),
        structural(season_with(series, number)),
{
}

proof fn lemma_promote_grows(e: Seq<(MediaId, Media)>, id: MediaId, to: spec_fn(Video) -> Media)
    requires
        forall|v: Video| (#[trigger] to(v)) is Movie || to(v) is Episode,
    ensures
        grows(e, promote(e, id, to)),
        settled(promote(e, id, to), id),
{
    let t = promote(e, id, to);
    assert forall|i: int| 0 <= i < e.len() implies #[trigger] t[i] == e[i] || (e[i].1 is Uncategorised && t[i].0 == e[i].0
        && !(t[i].1 is Uncategorised) && !(t[i].1 is Series) && !(t[i].1 is Season)) by {
        if e[i].0 == id && e[i].1 is Uncategorised {
            let v = e[i].1->Uncategorised_0.video;
            assert(to(v) is Movie || to(v) is Episode);
        }
    }
    assert forall|i: int| 0 <= i < t.len() && (#[trigger] t[i]).0 == id implies !(t[i].1 is Uncategorised) by {
        if e[i].1 is Uncategorised {
            let v = e[i].1->Uncategorised_0.video;
            assert(to(v) is Movie || to(v) is Episode);
        }
    }
}

proof fn lemma_promote_settled(e: Seq<(MediaId, Media)>, id: MediaId, to: spec_fn(Video) -> Media)
    requires
        settled(e, id),
    ensures
        promote(e, id, to) == e,
{
    assert(promote(e, id, to) =~= e) by {
        assert forall|i: int| 0 <= i < e.len() implies #[trigger] promote(e, id, to)[i] == e[i] by {
            if e[i].0 == id {
                assert(!(e[i].1 is Uncategorised));
            }
        }
    }
}

proof fn lemma_grows_refl(e: Seq<(MediaId, Media)>)
    ensures
        grows(e, e),
{
}

proof fn lemma_push_grows(e: Seq<(MediaId, Media)>, x: (MediaId, Media))
    requires
        !(x.1 is Uncategorised),
    ensures
        grows(e, e.push(x)),
{
    assert forall|i: int| 0 <= i < e.len() implies #[trigger] e.push(x)[i] == e[i] by {}
}

pub open spec fn movies_settled(e: Seq<(MediaId, Media)>, movies: Seq<(MediaId, MovieMetadata)>) -> bool {
    forall|k: int| 0 <= k < movies.len() ==> settled(e, (#[trigger] movies[k]).0)
}

pub open spec fn episodes_settled(e: Seq<(MediaId, Media)>, eps: Seq<(MediaId, EpisodeMetadata)>) -> bool {
    forall|k: int| 0 <= k < eps.len() ==> settled(e, (#[trigger] eps[k]).0)
}

/// A season of the series `sid` with the number of `t` is present, and the
/// episodes of `t` are settled.
pub open spec fn season_absorbed(e: Seq<(MediaId, Media)>, sid: MediaId, t: SeasonScrapeResult) -> bool {
    first_match(e, season_with(sid, t.metadata.season)) is Some && episodes_settled(e, t.episodes@)
}

/// A series with the external id of `s` is present, and each season of `s`
/// is absorbed under it.
pub open spec fn series_absorbed(e: Seq<(MediaId, Media)>, s: SeriesScrapeResult) -> bool {
    match first_match(e, series_with(s.metadata.tmdb_id)) {
        Some(sid) => forall|k: int| 0 <= k < s.seasons@.len() ==> season_absorbed(e, sid, #[trigger] s.seasons@[k]),
        None => false,
    }
}

proof fn lemma_season_absorbed_grows(a: Seq<(MediaId, Media)>, b: Seq<(MediaId, Media)>, sid: MediaId, t: SeasonScrapeResult)
    requires
        grows(a, b),
        season_absorbed(a, sid, t),
    ensures
        season_absorbed(b, sid, t),
{
    lemma_structural(0, sid, t.metadata.season);
    lemma_first_match_stable(a, b, season_with(sid, t.metadata.season));
    assert forall|k: int| 0 <= k < t.episodes@.len() implies settled(b, (#[trigger] t.episodes@[k]).0) by {
        lemma_settled_grows(a, b, t.episodes@[k].0);
    }
}

proof fn lemma_series_absorbed_grows(a: Seq<(MediaId, Media)>, b: Seq<(MediaId, Media)>, s: SeriesScrapeResult)
    requires
        grows(a, b),
        series_absorbed(a, s),
    ensures
        series_absorbed(b, s),
{
    lemma_structural(s.metadata.tmdb_id, MediaId(0), 0);
    lemma_first_match_stable(a, b, series_with(s.metadata.tmdb_id));
    let sid = first_match(a, series_with(s.metadata.tmdb_id)).unwrap();
    assert forall|k: int| 0 <= k < s.seasons@.len() implies season_absorbed(b, sid, #[trigger] s.seasons@[k]) by {
        lemma_season_absorbed_grows(a, b, sid, s.seasons@[k]);
    }
}

proof fn lemma_movies_pass(e: Seq<(MediaId, Media)>, movies: Seq<(MediaId, MovieMetadata)>)
    ensures
        grows(e, merge_movies(e, movies)),
        movies_settled(merge_movies(e, movies), movies),
    decreases movies.len(),
{
    if movies.len() == 0 {
        lemma_grows_refl(e);
    } else {
        let d = movies.drop_last();
        lemma_movies_pass(e, d);
        let prev = merge_movies(e, d);
        let (id, metadata) = movies.last();
        lemma_promote_grows(prev, id, as_movie(metadata));
        let cur = merge_movies(e, movies);
        lemma_grows_trans(e, prev, cur);
        assert forall|k: int| 0 <= k < movies.len() implies settled(cur, (#[trigger] movies[k]).0) by {
            if k < d.len() {
                assert(d[k] == movies[k]);
                lemma_settled_grows(prev, cur, d[k].0);
            }
        }
    }
}

proof fn lemma_episodes_pass(e: Seq<(MediaId, Media)>, series: MediaId, season: MediaId, eps: Seq<(MediaId, EpisodeMetadata)>)
    ensures
        grows(e, merge_episodes(e, series, season, eps)),
        episodes_settled(merge_episodes(e, series, season, eps), eps),
    decreases eps.len(),
{
    if eps.len() == 0 {
        lemma_grows_refl(e);
    } else {
        let d = eps.drop_last();
        lemma_episodes_pass(e, series, season, d);
        let prev = merge_episodes(e, series, season, d);
        let (id, metadata) = eps.last();
        lemma_promote_grows(prev, id, as_episode(series, season, metadata));
        let cur = merge_episodes(e, series, season, eps);
        lemma_grows_trans(e, prev, cur);
        assert forall|k: int| 0 <= k < eps.len() implies settled(cur, (#[trigger] eps[k]).0) by {
            if k < d.len() {
                assert(d[k] == eps[k]);
                lemma_settled_grows(prev, cur, d[k].0);
            }
        }
    }
}

proof fn lemma_first_match_push(e: Seq<(MediaId, Media)>, x: (MediaId, Media), p: spec_fn(Media) -> bool)
    requires
        first_match(e, p) is None,
        p(x.1),
    ensures
        first_match(e.push(x), p) == Some(x.0),
{
    assert(e.push(x).drop_last() =~= e);
}

proof fn lemma_season_pass(e: Seq<(MediaId, Media)>, next: nat, sid: MediaId, t: SeasonScrapeResult)
    ensures
        grows(e, merge_season(e, next, sid, t).0),
        season_absorbed(merge_season(e, next, sid, t).0, sid, t),
{
    let p = season_with(sid, t.metadata.season);
    lemma_structural(0, sid, t.metadata.season);
    let cur = merge_season(e, next, sid, t).0;
    match first_match(e, p) {
        Some(x) => {
            lemma_episodes_pass(e, sid, x, t.episodes@);
            lemma_first_match_stable(e, cur, p);
        },
        None => {
            let x = MediaId(next as usize);
            let e1 = e.push((x, Media::Season(Season { metadata: t.metadata, series: sid })));
            lemma_push_grows(e, (x, Media::Season(Season { metadata: t.metadata, series: sid })));
            lemma_first_match_push(e, (x, Media::Season(Season { metadata: t.metadata, series: sid })), p);
            lemma_episodes_pass(e1, sid, x, t.episodes@);
            lemma_grows_trans(e, e1, cur);
            lemma_first_match_stable(e1, cur, p);
        },
    }
}

proof fn lemma_seasons_pass(e: Seq<(MediaId, Media)>, next: nat, sid: MediaId, ts: Seq<SeasonScrapeResult>)
    ensures
        grows(e, merge_seasons(e, next, sid, ts).0),
        forall|k: int| 0 <= k < ts.len() ==> season_absorbed(merge_seasons(e, next, sid, ts).0, sid, #[trigger] ts[k]),
    decreases ts.len(),
{
    if ts.len() == 0 {
        lemma_grows_refl(e);
    } else {
        let d = ts.drop_last();
        lemma_seasons_pass(e, next, sid, d);
        let (e1, n1) = merge_seasons(e, next, sid, d);
        lemma_season_pass(e1, n1, sid, ts.last());
        let cur = merge_seasons(e, next, sid, ts).0;
        lemma_grows_trans(e, e1, cur);
        assert forall|k: int| 0 <= k < ts.len() implies season_absorbed(cur, sid, #[trigger] ts[k]) by {
            if k < d.len() {
                assert(d[k] == ts[k]);
                lemma_season_absorbed_grows(e1, cur, sid, d[k]);
            }
        }
    }
}

proof fn lemma_one_series_pass(e: Seq<(MediaId, Media)>, next: nat, s: SeriesScrapeResult)
    ensures
        grows(e, merge_one_series(e, next, s).0),
        series_absorbed(merge_one_series(e, next, s).0, s),
{
    let p = series_with(s.metadata.tmdb_id);
    lemma_structural(s.metadata.tmdb_id, MediaId(0), 0);
    let cur = merge_one_series(e, next, s).0;
    match first_match(e, p) {
        Some(sid) => {
            lemma_seasons_pass(e, next, sid, s.seasons@);
            lemma_first_match_stable(e, cur, p);
        },
        None => {
            let sid = MediaId(next as usize);
            let x = (sid, Media::Series(Series { metadata: s.metadata }));
            let e1 = e.push(x);
            lemma_push_grows(e, x);
            lemma_first_match_push(e, x, p);
            lemma_seasons_pass(e1, next + 1, sid, s.seasons@);
            lemma_grows_trans(e, e1, cur);
            lemma_first_match_stable(e1, cur, p);
        },
    }
}

proof fn lemma_series_pass(e: Seq<(MediaId, Media)>, next: nat, ss: Seq<SeriesScrapeResult>)
    ensures
        grows(e, merge_series(e, next, ss).0),
        forall|k: int| 0 <= k < ss.len() ==> series_absorbed(merge_series(e, next, ss).0, #[trigger] ss[k]),
    decreases ss.len(),
{
    if ss.len() == 0 {
        lemma_grows_refl(e);
    } else {
        let d = ss.drop_last();
        lemma_series_pass(e, next, d);
        let (e1, n1) = merge_series(e, next, d);
        lemma_one_series_pass(e1, n1, ss.last());
        let cur = merge_series(e, next, ss).0;
        lemma_grows_trans(e, e1, cur);
        assert forall|k: int| 0 <= k < ss.len() implies series_absorbed(cur, #[trigger] ss[k]) by {
            if k < d.len() {
                assert(d[k] == ss[k]);
                lemma_series_absorbed_grows(e1, cur, d[k]);
            }
        }
    }
}

proof fn lemma_movies_again(e: Seq<(MediaId, Media)>, movies: Seq<(MediaId, MovieMetadata)>)
    requires
        movies_settled(e, movies),
    ensures
        merge_movies(e, movies) == e,
    decreases movies.len(),
{
    if movies.len() > 0 {
        let d = movies.drop_last();
        assert forall|k: int| 0 <= k < d.len() implies settled(e, (#[trigger] d[k]).0) by {
            assert(d[k] == movies[k]);
        }
        lemma_movies_again(e, d);
        let (id, metadata) = movies.last();
        assert(settled(e, movies[movies.len() - 1].0));
        lemma_promote_settled(e, id, as_movie(metadata));
    }
}

proof fn lemma_episodes_again(e: Seq<(MediaId, Media)>, series: MediaId, season: MediaId, eps: Seq<(MediaId, EpisodeMetadata)>)
    requires
        episodes_settled(e, eps),
    ensures
        merge_episodes(e, series, season, eps) == e,
    decreases eps.len(),
{
    if eps.len() > 0 {
        let d = eps.drop_last();
        assert forall|k: int| 0 <= k < d.len() implies settled(e, (#[trigger] d[k]).0) by {
            assert(d[k] == eps[k]);
        }
        lemma_episodes_again(e, series, season, d);
        let (id, metadata) = eps.last();
        assert(settled(e, eps[eps.len() - 1].0));
        lemma_promote_settled(e, id, as_episode(series, season, metadata));
    }
}

proof fn lemma_seasons_again(e: Seq<(MediaId, Media)>, next: nat, sid: MediaId, ts: Seq<SeasonScrapeResult>)
    requires
        forall|k: int| 0 <= k < ts.len() ==> season_absorbed(e, sid, #[trigger] ts[k]),
    ensures
        merge_seasons(e, next, sid, ts) == (e, next),
    decreases ts.len(),
{
    if ts.len() > 0 {
        let d = ts.drop_last();
        assert forall|k: int| 0 <= k < d.len() implies season_absorbed(e, sid, #[trigger] d[k]) by {
            assert(d[k] == ts[k]);
        }
        lemma_seasons_again(e, next, sid, d);
        let t = ts.last();
        assert(season_absorbed(e, sid, ts[ts.len() - 1]));
        let x = first_match(e, season_with(sid, t.metadata.season)).unwrap();
        lemma_episodes_again(e, sid, x, t.episodes@);
    }
}

proof fn lemma_series_again(e: Seq<(MediaId, Media)>, next: nat, ss: Seq<SeriesScrapeResult>)
    requires
        forall|k: int| 0 <= k < ss.len() ==> series_absorbed(e, #[trigger] ss[k]),
    ensures
        merge_series(e, next, ss) == (e, next),
    decreases ss.len(),
{
    if ss.len() > 0 {
        let d = ss.drop_last();
        assert forall|k: int| 0 <= k < d.len() implies series_absorbed(e, #[trigger] d[k]) by {
            assert(d[k] == ss[k]);
        }
        lemma_series_again(e, next, d);
        let s = ss.last();
        assert(series_absorbed(e, ss[ss.len() - 1]));
        let sid = first_match(e, series_with(s.metadata.tmdb_id)).unwrap();
        lemma_seasons_again(e, next, sid, s.seasons@);
    }
}

/// Merging the same scrape result a second time changes nothing: every
/// movie and episode it resolves was promoted (or was no longer
/// uncategorised) the first time, and every series and season it names is
/// found where the first merge found or added it.
pub proof fn merge_twice_changes_nothing(e: Seq<(MediaId, Media)>, next: nat, r: ScrapeResult)
    ensures
        merged(merged(e, next, r).0, merged(e, next, r).1, r) == merged(e, next, r),
{
    let e0 = merge_movies(e, r.movies@);
    lemma_movies_pass(e, r.movies@);
    lemma_series_pass(e0, next, r.series@);
    let (e1, n1) = merged(e, next, r);
    assert forall|k: int| 0 <= k < r.movies@.len() implies settled(e1, (#[trigger] r.movies@[k]).0) by {
        lemma_settled_grows(e0, e1, r.movies@[k].0);
    }
    lemma_movies_again(e1, r.movies@);
    lemma_series_again(e1, n1, r.series@);
}

} // verus!
