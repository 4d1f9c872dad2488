use vstd::prelude::*;
use crate::ids::MediaId;
use crate::library::{lemma_increasing_unique, lemma_lookup_unique, lookup, Library};
use crate::media::{Episode, Media, Season, Watched, FULL};
use crate::text::{decimal, decimal2, decimal2_string, decimal_string};

verus! {

/// The episodes of the season `season`, in catalog order.
pub open spec fn episodes_in(e: Seq<(MediaId, Media)>, season: MediaId) -> Seq<(MediaId, Episode)>
    decreases e.len(),
{
    if e.len() == 0 {
        seq![]
    } else {
        let rest = episodes_in(e.drop_last(), season);
        let (id, m) = e.last();
        if m is Episode && m->Episode_0.season == season {
            rest.push((id, m->Episode_0))
        } else {
            rest
        }
    }
}

/// The seasons of the series `series`, in catalog order.
pub open spec fn seasons_in(e: Seq<(MediaId, Media)>, series: MediaId) -> Seq<(MediaId, Season)>
    decreases e.len(),
{
    if e.len() == 0 {
        seq![]
    } else {
        let rest = seasons_in(e.drop_last(), series);
        let (id, m) = e.last();
        if m is Season && m->Season_0.series == series {
            rest.push((id, m->Season_0))
        } else {
            rest
        }
    }
}

/// The episodes of each season in `seasons`, season after season.
pub open spec fn episodes_of_seasons(e: Seq<(MediaId, Media)>, seasons: Seq<(MediaId, Season)>) -> Seq<(MediaId, Episode)>
    decreases seasons.len(),
{
    if seasons.len() == 0 {
        seq![]
    } else {
        episodes_of_seasons(e, seasons.drop_last()) + episodes_in(e, seasons.last().0)
    }
}

/// The episodes of the series `series`: those of each of its seasons.
pub open spec fn episodes_of_series(e: Seq<(MediaId, Media)>, series: MediaId) -> Seq<(MediaId, Episode)> {
    episodes_of_seasons(e, seasons_in(e, series))
}

/// The ids of a list of entries.
pub open spec fn ids<T>(s: Seq<(MediaId, T)>) -> Seq<MediaId>
    decreases s.len(),
{
    if s.len() == 0 {
        seq![]
    } else {
        ids(s.drop_last()).push(s.last().0)
    }
}

/// The sum of the progress of the episodes.
pub open spec fn episode_progress(s: Seq<(MediaId, Episode)>) -> nat
    decreases s.len(),
{
    if s.len() == 0 {
        0
    } else {
        episode_progress(s.drop_last()) + s.last().1.video.watched.progress()
    }
}

/// The composite state of `n` parts whose progress adds up to `sum`: none
/// where there are no parts or no progress, all where each part is done, else
/// partial at the mean, kept strictly between nothing and all.
pub open spec fn aggregate(n: nat, sum: nat) -> Watched {
    if n == 0 || sum == 0 {
        Watched::No
    } else if sum == n * (FULL as nat) {
        Watched::Yes
    } else {
        let mean = sum / n;
        Watched::Partial { seconds: 0, percent: if mean == 0 { 1 } else { mean as u32 } }
    }
}

/// The watched state of a season: the aggregate of its episodes.
pub open spec fn season_watched(e: Seq<(MediaId, Media)>, season: MediaId) -> Watched {
    let eps = episodes_in(e, season);
    aggregate(eps.len(), episode_progress(eps))
}

/// The sum of the computed progress of the seasons.
pub open spec fn season_progress(e: Seq<(MediaId, Media)>, seasons: Seq<(MediaId, Season)>) -> nat
    decreases seasons.len(),
{
    if seasons.len() == 0 {
        0
    } else {
        season_progress(e, seasons.drop_last()) + season_watched(e, seasons.last().0).progress()
    }
}

/// The watched state of a series: the aggregate of the computed states of
/// its seasons, each season counting once.
pub open spec fn series_watched(e: Seq<(MediaId, Media)>, series: MediaId) -> Watched {
    let ss = seasons_in(e, series);
    aggregate(ss.len(), season_progress(e, ss))
}

/// The watched state of the entity under `id`: a leaf's own, a season's or
/// series' computed.
pub open spec fn watched_of(e: Seq<(MediaId, Media)>, id: MediaId) -> Option<Watched> {
    match lookup(e, id) {
        None => None,
        Some(m) => match m.video_spec() {
            Some(v) => Some(v.watched),
            None => if m is Series {
                Some(series_watched(e, id))
            } else {
                Some(season_watched(e, id))
            },
        },
    }
}

/// The ids of the episodes of the season `season`, in catalog order.
pub fn find_episodes(season: MediaId, library: &Library) -> (r: Vec<MediaId>)
    ensures
        r@ == ids(episodes_in(library.entries(), season)),
{
    let e = library.iter();
    let mut out: Vec<MediaId> = Vec::new();
    let mut i: usize = 0;
    while i < e.len()
        invariant
            e@ == library.entries(),
            i <= e@.len(),
            out@ == ids(episodes_in(e@.subrange(0, i as int), season)),
        decreases e.len() - i,
    {
        assert(e@.subrange(0, i + 1).drop_last() =~= e@.subrange(0, i as int));
        let ghost prev = episodes_in(e@.subrange(0, i as int), season);
        if let Media::Episode(ep) = &e[i].1 {
            if ep.season == season {
                out.push(e[i].0);
                assert(prev.push((e@[i as int].0, *ep)).drop_last() =~= prev);
            }
        }
        i = i + 1;
    }
    assert(e@.subrange(0, e@.len() as int) =~= e@);
    out
}

/// The ids of the seasons of the series `series`, in catalog order.
pub fn find_seasons(series: MediaId, library: &Library) -> (r: Vec<MediaId>)
    ensures
        r@ == ids(seasons_in(library.entries(), series)),
{
    let e = library.iter();
    let mut out: Vec<MediaId> = Vec::new();
    let mut i: usize = 0;
    while i < e.len()
        invariant
            e@ == library.entries(),
            i <= e@.len(),
            out@ == ids(seasons_in(e@.subrange(0, i as int), series)),
        decreases e.len() - i,
    {
        assert(e@.subrange(0, i + 1).drop_last() =~= e@.subrange(0, i as int));
        let ghost prev = seasons_in(e@.subrange(0, i as int), series);
        if let Media::Season(s) = &e[i].1 {
            if s.series == series {
                out.push(e[i].0);
                assert(prev.push((e@[i as int].0, *s)).drop_last() =~= prev);
            }
        }
        i = i + 1;
    }
    assert(e@.subrange(0, e@.len() as int) =~= e@);
    out
}

proof fn lemma_ids_append<T>(a: Seq<(MediaId, T)>, b: Seq<(MediaId, T)>)
    ensures
        ids(a + b) == ids(a) + ids(b),
    decreases b.len(),
{
    if b.len() == 0 {
        assert(a + b =~= a);
        assert(ids(a) + ids(b) =~= ids(a));
    } else {
        assert((a + b).drop_last() =~= a + b.drop_last());
        lemma_ids_append(a, b.drop_last());
        assert(ids(a) + ids(b.drop_last()).push(b.last().0) =~= (ids(a) + ids(b.drop_last())).push(b.last().0));
    }
}

proof fn lemma_ids_len<T>(s: Seq<(MediaId, T)>)
    ensures
        ids(s).len() == s.len(),
        forall|k: int| 0 <= k < s.len() ==> #[trigger] ids(s)[k] == s[k].0,
    decreases s.len(),
{
    if s.len() > 0 {
        lemma_ids_len(s.drop_last());
        assert forall|k: int| 0 <= k < s.len() implies #[trigger] ids(s)[k] == s[k].0 by {
            if k < s.len() - 1 {
                assert(ids(s)[k] == ids(s.drop_last())[k]);
            }
        }
    }
}

/// The ids of the episodes of the series `series`: those of each of its
/// seasons, season after season.
pub fn find_all_episodes(series: MediaId, library: &Library) -> (r: Vec<MediaId>)
    ensures
        r@ == ids(episodes_of_series(library.entries(), series)),
{
    let seasons = find_seasons(series, library);
    let ghost ss = seasons_in(library.entries(), series);
    proof {
        lemma_ids_len(ss);
    }
    let mut out: Vec<MediaId> = Vec::new();
    let mut k: usize = 0;
    while k < seasons.len()
        invariant
            seasons@ == ids(ss),
            seasons@.len() == ss.len(),
            forall|j: int| 0 <= j < ss.len() ==> #[trigger] ids(ss)[j] == ss[j].0,
            k <= seasons@.len(),
            out@ == ids(episodes_of_seasons(library.entries(), ss.subrange(0, k as int))),
        decreases seasons.len() - k,
    {
        let eps = find_episodes(seasons[k], library);
        proof {
            let pre = ss.subrange(0, k as int);
            assert(ss.subrange(0, k + 1).drop_last() =~= pre);
            assert(ss.subrange(0, k + 1).last().0 == seasons@[k as int]);
            lemma_ids_append(episodes_of_seasons(library.entries(), pre), episodes_in(library.entries(), seasons@[k as int]));
        }
        let mut j: usize = 0;
        let ghost before = out@;
        while j < eps.len()
            invariant
                j <= eps@.len(),
                out@ == before + eps@.subrange(0, j as int),
            decreases eps.len() - j,
        {
            out.push(eps[j]);
            assert(eps@.subrange(0, j + 1) =~= eps@.subrange(0, j as int).push(eps@[j as int]));
            assert(before + eps@.subrange(0, j + 1) =~= (before + eps@.subrange(0, j as int)).push(eps@[j as int]));
            j = j + 1;
        }
        assert(eps@.subrange(0, eps@.len() as int) =~= eps@);
        k = k + 1;
    }
    assert(ss.subrange(0, ss.len() as int) =~= ss);
    out
}

/// The composite state of `n` parts whose progress adds up to `sum`.
fn aggregate_exec(n: u128, sum: u128) -> (r: Watched)
    requires
        sum <= n * (u32::MAX as nat),
        n <= usize::MAX,
    ensures
        r == aggregate(n as nat, sum as nat),
{
    if n == 0 || sum == 0 {
        Watched::No
    } else if sum == n * (FULL as u128) {
        Watched::Yes
    } else {
        let mean = sum / n;
        assert(mean <= u32::MAX) by (nonlinear_arith)
            requires
                mean == sum / n,
                sum <= n * (u32::MAX as nat),
                n > 0,
        ;
        Watched::Partial { seconds: 0, percent: if mean == 0 { 1 } else { mean as u32 } }
    }
}

/// The watched state of the season `season`: none where it has no episode
/// or no progress, all where every episode is watched, else partial at the
/// mean progress of its episodes.
pub fn calculate_season_watched(season: MediaId, library: &Library) -> (r: Watched)
    ensures
        r == season_watched(library.entries(), season),
{
    let e = library.iter();
    let mut count: u128 = 0;
    let mut sum: u128 = 0;
    let mut i: usize = 0;
    while i < e.len()
        invariant
            e@ == library.entries(),
            i <= e@.len(),
            count == episodes_in(e@.subrange(0, i as int), season).len(),
            sum == episode_progress(episodes_in(e@.subrange(0, i as int), season)),
            count <= i,
            sum <= count * (u32::MAX as nat),
        decreases e.len() - i,
    {
        assert(e@.subrange(0, i + 1).drop_last() =~= e@.subrange(0, i as int));
        let ghost prev = episodes_in(e@.subrange(0, i as int), season);
        if let Media::Episode(ep) = &e[i].1 {
            if ep.season == season {
                assert(prev.push((e@[i as int].0, *ep)).drop_last() =~= prev);
                let p = ep.video.watched.percent();
                assert(sum + p <= (count + 1) * (u32::MAX as nat)) by (nonlinear_arith)
                    requires
                        sum <= count * (u32::MAX as nat),
                        p <= u32::MAX,
                ;
                count = count + 1;
                sum = sum + p as u128;
            }
        }
        i = i + 1;
    }
    assert(e@.subrange(0, e@.len() as int) =~= e@);
    aggregate_exec(count, sum)
}

/// The watched state of the series `series`: that of its seasons, each
/// season counted once with its computed progress.
pub fn calculate_series_watched(series: MediaId, library: &Library) -> (r: Watched)
    ensures
        r == series_watched(library.entries(), series),
{
    let e = library.iter();
    let mut count: u128 = 0;
    let mut sum: u128 = 0;
    let mut i: usize = 0;
    while i < e.len()
        invariant
            e@ == library.entries(),
            i <= e@.len(),
            count == seasons_in(e@.subrange(0, i as int), series).len(),
            sum == season_progress(e@, seasons_in(e@.subrange(0, i as int), series)),
            count <= i,
            sum <= count * (u32::MAX as nat),
        decreases e.len() - i,
    {
        assert(e@.subrange(0, i + 1).drop_last() =~= e@.subrange(0, i as int));
        let ghost prev = seasons_in(e@.subrange(0, i as int), series);
        if let Media::Season(s) = &e[i].1 {
            if s.series == series {
                assert(prev.push((e@[i as int].0, *s)).drop_last() =~= prev);
                let p = calculate_season_watched(e[i].0, library).percent();
                assert(sum + p <= (count + 1) * (u32::MAX as nat)) by (nonlinear_arith)
                    requires
                        sum <= count * (u32::MAX as nat),
                        p <= u32::MAX,
                ;
                count = count + 1;
                sum = sum + p as u128;
            }
        }
        i = i + 1;
    }
    assert(e@.subrange(0, e@.len() as int) =~= e@);
    aggregate_exec(count, sum)
}

/// The watched state of the entity under `id`: a movie's, episode's or
/// uncategorised video's own, a season's or series' computed; `None` where
/// there is no such entity.
pub fn calculate_watched(id: MediaId, library: &Library) -> (r: Option<Watched>)
    requires
        library.wf(),
    ensures
        r == watched_of(library.entries(), id),
{
    match library.get(id) {
        None => None,
        Some(m) => match m.video() {
            Some(v) => Some(v.watched),
            None => match m {
                Media::Series(_) => Some(calculate_series_watched(id, library)),
                _ => Some(calculate_season_watched(id, library)),
            },
        },
    }
}

/// The entity `sid` is a season of the series `series`.
pub open spec fn season_of_series(e: Seq<(MediaId, Media)>, sid: MediaId, series: MediaId) -> bool {
    exists|j: int| 0 <= j < e.len() && e[j].0 == sid && e[j].1 is Season && e[j].1->Season_0.series == series
}

/// The entity is an episode of the season `season`.
pub open spec fn in_season(m: Media, season: MediaId) -> bool {
    m is Episode && m->Episode_0.season == season
}

/// The entity is an episode of one of the seasons of the series `series`.
pub open spec fn in_series(e: Seq<(MediaId, Media)>, m: Media, series: MediaId) -> bool {
    m is Episode && season_of_series(e, m->Episode_0.season, series)
}

/// The entry is changed by setting the watched state of `id`: the episodes
/// of a series or season, or the leaf itself.
pub open spec fn watch_target(e: Seq<(MediaId, Media)>, id: MediaId, x: (MediaId, Media)) -> bool {
    match lookup(e, id) {
        None => false,
        Some(m) => if m is Series {
            in_series(e, x.1, id)
        } else if m is Season {
            in_season(x.1, id)
        } else {
            x.0 == id
        },
    }
}

/// The entries after setting the watched state of `id` to `w`.
pub open spec fn watched_set(e: Seq<(MediaId, Media)>, id: MediaId, w: Watched) -> Seq<(MediaId, Media)> {
    e.map_values(
        |x: (MediaId, Media)|
            if watch_target(e, id, x) {
                (x.0, x.1.with_watched(w))
            } else {
                x
            },
    )
}

proof fn lemma_seasons_in_contains(e: Seq<(MediaId, Media)>, series: MediaId, sid: MediaId)
    ensures
        ids(seasons_in(e, series)).contains(sid) <==> season_of_series(e, sid, series),
    decreases e.len(),
{
    if e.len() > 0 {
        let d = e.drop_last();
        lemma_seasons_in_contains(d, series, sid);
        let rest = seasons_in(d, series);
        let (id, m) = e.last();
        if season_of_series(d, sid, series) {
            let j = choose|j: int| 0 <= j < d.len() && d[j].0 == sid && d[j].1 is Season && d[j].1->Season_0.series == series;
            assert(e[j] == d[j]);
        }
        if season_of_series(e, sid, series) {
            let j = choose|j: int| 0 <= j < e.len() && e[j].0 == sid && e[j].1 is Season && e[j].1->Season_0.series == series;
            if j < d.len() {
                assert(e[j] == d[j]);
            }
        }
        if m is Season && m->Season_0.series == series {
            let r = rest.push((id, m->Season_0));
            assert(r.drop_last() =~= rest);
            assert(ids(r) == ids(rest).push(id));
            if ids(rest).contains(sid) {
                let k = choose|k: int| 0 <= k < ids(rest).len() && ids(rest)[k] == sid;
                assert(ids(r)[k] == sid);
            }
            if ids(r).contains(sid) && sid != id {
                let k = choose|k: int| 0 <= k < ids(r).len() && ids(r)[k] == sid;
                assert(ids(rest)[k] == sid);
            }
            if sid == id {
                assert(ids(r)[ids(rest).len() as int] == sid);
                assert(e[e.len() - 1] == e.last());
            }
        }
    }
}

/// Whether `sid` is among `seasons`.
fn contains_id(seasons: &Vec<MediaId>, sid: MediaId) -> (r: bool)
    ensures
        r == seasons@.contains(sid),
{
    let mut i: usize = 0;
    while i < seasons.len()
        invariant
            i <= seasons@.len(),
            forall|j: int| 0 <= j < i ==> seasons@[j] != sid,
        decreases seasons.len() - i,
    {
        if seasons[i] == sid {
            return true;
        }
        i = i + 1;
    }
    false
}

/// Sets the watched state of the entity under `id`: a leaf directly, a
/// season on each of its episodes, a series on each episode of each of its
/// seasons. Nothing changes where there is no such entity.
pub fn set_watched(id: MediaId, value: Watched, library: &mut Library)
    requires
        old(library).wf(),
    ensures
        final(library).wf(),
        final(library).entries() == watched_set(old(library).entries(), id, value),
        final(library).next_id_spec() == old(library).next_id_spec(),
        final(library).collection_entries() == old(library).collection_entries(),
        final(library).next_collection_spec() == old(library).next_collection_spec(),
{
    let ghost e0 = library.entries();
    proof {
        lemma_increasing_unique(e0);
        lemma_lookup_unique(e0, id);
    }
    let kind: u8 = match library.get(id) {
        None => {
            assert(watched_set(e0, id, value) =~= e0);
            return;
        },
        Some(Media::Series(_)) => 2,
        Some(Media::Season(_)) => 1,
        Some(_) => 0,
    };
    let seasons = if kind == 2 {
        find_seasons(id, library)
    } else {
        Vec::new()
    };
    let n = library.iter().len();
    let mut i: usize = 0;
    while i < n
        invariant
            library.wf(),
            n == e0.len(),
            i <= n,
            library.entries().len() == n,
            kind == 2 ==> seasons@ == ids(seasons_in(e0, id)),
            lookup(e0, id) matches Some(m) && (if m is Series { kind == 2 } else if m is Season { kind == 1 } else { kind == 0 }),
            forall|j: int| 0 <= j < i ==> #[trigger] library.entries()[j] == watched_set(e0, id, value)[j],
            forall|j: int| i <= j < n ==> #[trigger] library.entries()[j] == e0[j],
            library.next_id_spec() == old(library).next_id_spec(),
            library.collection_entries() == old(library).collection_entries(),
            library.next_collection_spec() == old(library).next_collection_spec(),
        decreases n - i,
    {
        let target = {
            let x = &library.iter()[i];
            let hit_episode = match &x.1 {
                Media::Episode(ep) => (kind == 1 && ep.season == id) || (kind == 2 && contains_id(&seasons, ep.season)),
                _ => false,
            };
            hit_episode || (kind == 0 && x.0 == id)
        };
        proof {
            let x = e0[i as int];
            assert(library.entries()[i as int] == x);
            if x.1 is Episode && kind == 2 {
                lemma_seasons_in_contains(e0, id, x.1->Episode_0.season);
            }
            assert(target == watch_target(e0, id, x));
        }
        if target {
            library.set_watched_at(i, value);
        }
        i = i + 1;
    }
    assert(library.entries() =~= watched_set(e0, id, value));
}

/// `a` comes before `b` by (season, episode).
pub open spec fn key_lt(a: Episode, b: Episode) -> bool {
    a.metadata.season < b.metadata.season || (a.metadata.season == b.metadata.season
        && a.metadata.episode < b.metadata.episode)
}

/// The entry is an episode of the series of `ep` that comes before it
/// (`later` false) or after it (`later` true).
pub open spec fn beside(e: Seq<(MediaId, Media)>, x: (MediaId, Media), ep: Episode, later: bool) -> bool {
    &&& in_series(e, x.1, ep.series)
    &&& if later {
        key_lt(ep, x.1->Episode_0)
    } else {
        key_lt(x.1->Episode_0, ep)
    }
}

/// The contract of the neighbour of `id` in its series: `None` where `id`
/// is no episode or has no such neighbour; else the id of one that comes
/// nearest.
pub open spec fn is_neighbour(e: Seq<(MediaId, Media)>, id: MediaId, later: bool, r: Option<MediaId>) -> bool {
    match lookup(e, id) {
        Some(Media::Episode(ep)) => match r {
            None => forall|k: int| 0 <= k < e.len() ==> !beside(e, #[trigger] e[k], ep, later),
            Some(p) => exists|j: int|
                0 <= j < e.len() && e[j].0 == p && beside(e, #[trigger] e[j], ep, later) && forall|k: int|
                    0 <= k < e.len() && beside(e, #[trigger] e[k], ep, later) ==> !(if later {
                        key_lt(e[k].1->Episode_0, e[j].1->Episode_0)
                    } else {
                        key_lt(e[j].1->Episode_0, e[k].1->Episode_0)
                    }),
        },
        _ => r is None,
    }
}

/// Compares the (season, episode) keys of two episodes.
fn key_less(a: &Episode, b: &Episode) -> (r: bool)
    ensures
        r == key_lt(*a, *b),
{
    a.metadata.season < b.metadata.season || (a.metadata.season == b.metadata.season
        && a.metadata.episode < b.metadata.episode)
}

/// The episode next to `id` in its series, before it or after it.
fn neighbour(id: MediaId, library: &Library, later: bool) -> (r: Option<MediaId>)
    requires
        library.wf(),
    ensures
        is_neighbour(library.entries(), id, later, r),
{
    let ghost e = library.entries();
    proof {
        lemma_increasing_unique(e);
        lemma_lookup_unique(e, id);
    }
    let ep = match library.get(id) {
        Some(Media::Episode(ep)) => ep,
        _ => {
            return None;
        },
    };
    let seasons = find_seasons(ep.series, library);
    let v = library.iter();
    let mut best: Option<usize> = None;
    let mut i: usize = 0;
    while i < v.len()
        invariant
            v@ == e,
            i <= e.len(),
            lookup(e, id) == Some(Media::Episode(*ep)),
            seasons@ == ids(seasons_in(e, ep.series)),
            best matches Some(b) ==> b < i && e[b as int].1 is Episode && beside(e, e[b as int], *ep, later),
            best matches Some(b) ==> forall|k: int| 0 <= k < i && beside(e, #[trigger] e[k], *ep, later) ==> !(if later {
                key_lt(e[k].1->Episode_0, e[b as int].1->Episode_0)
            } else {
                key_lt(e[b as int].1->Episode_0, e[k].1->Episode_0)
            }),
            best is None ==> forall|k: int| 0 <= k < i ==> !beside(e, #[trigger] e[k], *ep, later),
        decreases v.len() - i,
    {
        if let Media::Episode(x) = &v[i].1 {
            proof {
                lemma_seasons_in_contains(e, ep.series, x.season);
            }
            let near = if later {
                key_less(ep, x)
            } else {
                key_less(x, ep)
            };
            if near && contains_id(&seasons, x.season) {
                let better = match best {
                    None => true,
                    Some(b) => match &v[b].1 {
                        Media::Episode(y) => if later {
                            key_less(x, y)
                        } else {
                            key_less(y, x)
                        },
                        _ => false,
                    },
                };
                if better {
                    best = Some(i);
                }
            }
        }
        i = i + 1;
    }
    match best {
        None => None,
        Some(b) => Some(v[b].0),
    }
}

/// The episode before `id` in its series by (season, episode); `None` where
/// `id` is no episode or the first one.
pub fn previous_in_list(id: MediaId, library: &Library) -> (r: Option<MediaId>)
    requires
        library.wf(),
    ensures
        is_neighbour(library.entries(), id, false, r),
{
    neighbour(id, library, false)
}

/// The episode after `id` in its series by (season, episode); `None` where
/// `id` is no episode or the last one.
pub fn next_in_list(id: MediaId, library: &Library) -> (r: Option<MediaId>)
    requires
        library.wf(),
    ensures
        is_neighbour(library.entries(), id, true, r),
{
    neighbour(id, library, true)
}

/// The entry is an episode under `id`: of the season `id`, or of a season
/// of the series `id` (`series` true).
pub open spec fn under(e: Seq<(MediaId, Media)>, x: (MediaId, Media), id: MediaId, series: bool) -> bool {
    if series {
        in_series(e, x.1, id)
    } else {
        in_season(x.1, id)
    }
}

/// When an episode was added (`added` true) or last watched.
pub open spec fn stamp(m: Media, added: bool) -> Option<i64> {
    if added {
        Some(m->Episode_0.video.added)
    } else {
        m->Episode_0.video.last_watched
    }
}

/// `a` is earlier than `b`; no time is earlier than any.
pub open spec fn stamp_lt(a: Option<i64>, b: Option<i64>) -> bool {
    match (a, b) {
        (None, Some(_)) => true,
        (Some(x), Some(y)) => x < y,
        _ => false,
    }
}

/// `r` names an episode under `id` with the latest time, or is `None` where
/// there is no episode under `id`.
pub open spec fn is_latest(e: Seq<(MediaId, Media)>, id: MediaId, series: bool, added: bool, r: Option<MediaId>) -> bool {
    match r {
        None => forall|k: int| 0 <= k < e.len() ==> !under(e, #[trigger] e[k], id, series),
        Some(p) => exists|j: int|
            0 <= j < e.len() && e[j].0 == p && under(e, #[trigger] e[j], id, series) && forall|k: int|
                0 <= k < e.len() && under(e, #[trigger] e[k], id, series) ==> !stamp_lt(
                    stamp(e[j].1, added),
                    stamp(e[k].1, added),
                ),
    }
}

/// `r` is the latest time among the episodes under `id`; `None` where there
/// is none.
pub open spec fn is_latest_time(e: Seq<(MediaId, Media)>, id: MediaId, series: bool, added: bool, r: Option<i64>) -> bool {
    match r {
        None => forall|k: int| 0 <= k < e.len() && under(e, #[trigger] e[k], id, series) ==> stamp(e[k].1, added) is None,
        Some(t) => (exists|j: int| 0 <= j < e.len() && under(e, #[trigger] e[j], id, series) && stamp(e[j].1, added) == Some(t))
            && forall|k: int| 0 <= k < e.len() && under(e, #[trigger] e[k], id, series) ==> !stamp_lt(
            Some(t),
            stamp(e[k].1, added),
        ),
    }
}

fn stamp_of(ep: &Episode, added: bool) -> (r: Option<i64>)
    ensures
        r == stamp(Media::Episode(*ep), added),
{
    if added {
        Some(ep.video.added)
    } else {
        ep.video.last_watched
    }
}

fn stamp_less(a: Option<i64>, b: Option<i64>) -> (r: bool)
    ensures
        r == stamp_lt(a, b),
{
    match (a, b) {
        (None, Some(_)) => true,
        (Some(x), Some(y)) => x < y,
        _ => false,
    }
}

/// The position of an episode under `id` with the latest time.
fn latest(id: MediaId, library: &Library, series: bool, added: bool) -> (r: Option<usize>)
    ensures
        r matches Some(j) ==> j < library.entries().len() && under(library.entries(), library.entries()[j as int], id, series)
            && forall|k: int| 0 <= k < library.entries().len() && under(library.entries(), #[trigger] library.entries()[k], id, series)
                ==> !stamp_lt(stamp(library.entries()[j as int].1, added), stamp(library.entries()[k].1, added)),
        r is None ==> forall|k: int| 0 <= k < library.entries().len() ==> !under(library.entries(), #[trigger] library.entries()[k], id, series),
{
    let ghost e = library.entries();
    let seasons = if series {
        find_seasons(id, library)
    } else {
        Vec::new()
    };
    let v = library.iter();
    let mut best: Option<usize> = None;
    let mut i: usize = 0;
    while i < v.len()
        invariant
            v@ == e,
            i <= e.len(),
            series ==> seasons@ == ids(seasons_in(e, id)),
            best matches Some(b) ==> b < i && under(e, e[b as int], id, series),
            best matches Some(b) ==> forall|k: int| 0 <= k < i && under(e, #[trigger] e[k], id, series) ==> !stamp_lt(
                stamp(e[b as int].1, added),
                stamp(e[k].1, added),
            ),
            best is None ==> forall|k: int| 0 <= k < i ==> !under(e, #[trigger] e[k], id, series),
        decreases v.len() - i,
    {
        if let Media::Episode(x) = &v[i].1 {
            proof {
                lemma_seasons_in_contains(e, id, x.season);
            }
            let hit = if series {
                contains_id(&seasons, x.season)
            } else {
                x.season == id
            };
            if hit {
                let t = stamp_of(x, added);
                let better = match best {
                    None => true,
                    Some(b) => match &v[b].1 {
                        Media::Episode(y) => !stamp_less(t, stamp_of(y, added)),
                        _ => false,
                    },
                };
                if better {
                    best = Some(i);
                }
            }
        }
        i = i + 1;
    }
    best
}

fn latest_id(id: MediaId, library: &Library, series: bool, added: bool) -> (r: Option<MediaId>)
    ensures
        is_latest(library.entries(), id, series, added, r),
{
    match latest(id, library, series, added) {
        None => None,
        Some(j) => Some(library.iter()[j].0),
    }
}

fn latest_time(id: MediaId, library: &Library, series: bool, added: bool) -> (r: Option<i64>)
    ensures
        is_latest_time(library.entries(), id, series, added, r),
{
    match latest(id, library, series, added) {
        None => None,
        Some(j) => match &library.iter()[j].1 {
            Media::Episode(ep) => stamp_of(ep, added),
            _ => None,
        },
    }
}

/// The episode of the season `season` watched last.
pub fn season_last_watched(season: MediaId, library: &Library) -> (r: Option<MediaId>)
    ensures
        is_latest(library.entries(), season, false, false, r),
{
    latest_id(season, library, false, false)
}

/// The episode of the series `series` watched last.
pub fn series_last_watched(series: MediaId, library: &Library) -> (r: Option<MediaId>)
    ensures
        is_latest(library.entries(), series, true, false, r),
{
    latest_id(series, library, true, false)
}

/// The episode of the season `season` added last.
pub fn season_date_added(season: MediaId, library: &Library) -> (r: Option<MediaId>)
    ensures
        is_latest(library.entries(), season, false, true, r),
{
    latest_id(season, library, false, true)
}

/// The episode of the series `series` added last.
pub fn series_date_added(series: MediaId, library: &Library) -> (r: Option<MediaId>)
    ensures
        is_latest(library.entries(), series, true, true, r),
{
    latest_id(series, library, true, true)
}

/// The last-watched time (`added` false) or the time added of the entity
/// under `id`: a leaf's own, the latest of the episodes under a season or
/// series.
pub open spec fn time_of(e: Seq<(MediaId, Media)>, id: MediaId, added: bool) -> Option<i64> {
    match lookup(e, id) {
        None => None,
        Some(m) => match m.video_spec() {
            Some(v) => if added {
                Some(v.added)
            } else {
                v.last_watched
            },
            None => choose|r: Option<i64>| #[trigger] is_latest_time(e, id, m is Series, added, r),
        },
    }
}

proof fn lemma_latest_time_unique(e: Seq<(MediaId, Media)>, id: MediaId, series: bool, added: bool, a: Option<i64>, b: Option<i64>)
    requires
        is_latest_time(e, id, series, added, a),
        is_latest_time(e, id, series, added, b),
    ensures
        a == b,
{
    if let Some(t) = a {
        let j = choose|j: int| 0 <= j < e.len() && under(e, #[trigger] e[j], id, series) && stamp(e[j].1, added) == Some(t);
        if let Some(u) = b {
            let k = choose|k: int| 0 <= k < e.len() && under(e, #[trigger] e[k], id, series) && stamp(e[k].1, added) == Some(u);
            assert(!stamp_lt(Some(t), stamp(e[k].1, added)));
            assert(!stamp_lt(Some(u), stamp(e[j].1, added)));
        }
    } else if let Some(u) = b {
        let k = choose|k: int| 0 <= k < e.len() && under(e, #[trigger] e[k], id, series) && stamp(e[k].1, added) == Some(u);
    }
}

/// When the entity under `id` was last watched: a leaf's own time, the
/// latest of the episodes under a season or series.
pub fn last_watched(id: MediaId, library: &Library) -> (r: Option<i64>)
    requires
        library.wf(),
    ensures
        match lookup(library.entries(), id) {
            None => r is None,
            Some(m) => match m.video_spec() {
                Some(v) => r == v.last_watched,
                None => is_latest_time(library.entries(), id, m is Series, false, r),
            },
        },
        r == time_of(library.entries(), id, false),
{
    proof {
        lemma_increasing_unique(library.entries());
        lemma_lookup_unique(library.entries(), id);
    }
    match library.get(id) {
        None => None,
        Some(m) => match m.video() {
            Some(v) => v.last_watched,
            None => {
                let series = match m {
                    Media::Series(_) => true,
                    _ => false,
                };
                let r = latest_time(id, library, series, false);
                proof {
                    let c = choose|c: Option<i64>| is_latest_time(library.entries(), id, series, false, c);
                    lemma_latest_time_unique(library.entries(), id, series, false, r, c);
                }
                r
            },
        },
    }
}

/// When the entity under `id` was added: a leaf's own time, the latest of
/// the episodes under a season or series.
pub fn date_added(id: MediaId, library: &Library) -> (r: Option<i64>)
    requires
        library.wf(),
    ensures
        match lookup(library.entries(), id) {
            None => r is None,
            Some(m) => match m.video_spec() {
                Some(v) => r == Some(v.added),
                None => is_latest_time(library.entries(), id, m is Series, true, r),
            },
        },
        r == time_of(library.entries(), id, true),
{
    proof {
        lemma_increasing_unique(library.entries());
        lemma_lookup_unique(library.entries(), id);
    }
    match library.get(id) {
        None => None,
        Some(m) => match m.video() {
            Some(v) => Some(v.added),
            None => {
                let series = match m {
                    Media::Series(_) => true,
                    _ => false,
                };
                let r = latest_time(id, library, series, true);
                proof {
                    let c = choose|c: Option<i64>| is_latest_time(library.entries(), id, series, true, c);
                    lemma_latest_time_unique(library.entries(), id, series, true, r, c);
                }
                r
            },
        },
    }
}

/// The title of the series `id`, or "Unknown Media" where it is missing.
pub open spec fn parent_title(e: Seq<(MediaId, Media)>, id: MediaId) -> Seq<char> {
    match lookup(e, id) {
        Some(m) => m.title_spec(),
        None => "Unknown Media"@,
    }
}

/// The full title of the entity under `id`: "Title (Year)" for a movie,
/// "Series S01E02 - Title" for an episode, "Series S01 - Title" for a season,
/// else its title; "Unknown Media" where there is no such entity.
pub open spec fn full_title_of(e: Seq<(MediaId, Media)>, id: MediaId) -> Seq<char> {
    match lookup(e, id) {
        None => "Unknown Media"@,
        Some(Media::Movie(m)) => m.metadata.title@ + " ("@ + decimal(m.metadata.year as nat) + ")"@,
        Some(Media::Episode(ep)) => parent_title(e, ep.series) + " S"@ + decimal2(ep.metadata.season as nat)
            + "E"@ + decimal2(ep.metadata.episode as nat) + " - "@ + ep.metadata.title@,
        Some(Media::Season(s)) => parent_title(e, s.series) + " S"@ + decimal2(s.metadata.season as nat)
            + " - "@ + s.metadata.title@,
        Some(m) => m.title_spec(),
    }
}

fn title_of_parent(id: MediaId, library: &Library) -> (r: String)
    requires
        library.wf(),
    ensures
        r@ == parent_title(library.entries(), id),
{
    match library.get(id) {
        Some(m) => m.title(),
        None => String::from_str("Unknown Media"),
    }
}

/// The title under which the entity `id` is listed and sorted.
pub fn full_title(id: MediaId, library: &Library) -> (r: String)
    requires
        library.wf(),
    ensures
        r@ == full_title_of(library.entries(), id),
{
    match library.get(id) {
        None => String::from_str("Unknown Media"),
        Some(Media::Movie(m)) => {
            let r = m.metadata.title.clone().concat(" (");
            let r = r.concat(decimal_string(m.metadata.year as u64).as_str());
            r.concat(")")
        },
        Some(Media::Episode(ep)) => {
            let r = title_of_parent(ep.series, library).concat(" S");
            let r = r.concat(decimal2_string(ep.metadata.season as u64).as_str());
            let r = r.concat("E");
            let r = r.concat(decimal2_string(ep.metadata.episode as u64).as_str());
            let r = r.concat(" - ");
            r.concat(ep.metadata.title.as_str())
        },
        Some(Media::Season(s)) => {
            let r = title_of_parent(s.series, library).concat(" S");
            let r = r.concat(decimal2_string(s.metadata.season as u64).as_str());
            let r = r.concat(" - ");
            r.concat(s.metadata.title.as_str())
        },
        Some(m) => m.title(),
    }
}

} // verus!
