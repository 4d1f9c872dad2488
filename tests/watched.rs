use jangal::{
    calculate_season_watched, calculate_series_watched, calculate_watched, date_added,
    find_all_episodes, find_episodes, find_seasons, full_title, last_watched, next_in_list,
    previous_in_list, season_date_added, season_last_watched, series_last_watched, set_watched,
    Date, Episode, EpisodeMetadata, Library, Media, MediaId, Season, SeasonMetadata, Series,
    SeriesMetadata, Video, Watched, FULL,
};

fn series(library: &mut Library) -> MediaId {
    library.insert(Media::Series(Series {
        metadata: SeriesMetadata { tmdb_id: 1, title: "Show".to_string(), poster: None, aired: None },
    }))
}

fn season(library: &mut Library, series: MediaId, number: u16) -> MediaId {
    library.insert(Media::Season(Season {
        metadata: SeasonMetadata {
            series_tmdb_id: 1,
            title: format!("Season {}", number),
            season: number,
            poster: None,
            aired: None,
            overview: None,
        },
        series,
    }))
}

fn episode(
    library: &mut Library,
    series: MediaId,
    season: MediaId,
    key: (u16, u16),
    watched: Watched,
    added: i64,
    last: Option<i64>,
) -> MediaId {
    library.insert(Media::Episode(Episode {
        video: Video { path: format!("/tv/{}x{}.mkv", key.0, key.1), watched, added, last_watched: last },
        series,
        season,
        metadata: EpisodeMetadata {
            series_tmdb_id: 1,
            title: format!("Part {}", key.1),
            season: key.0,
            episode: key.1,
            aired: Date { year: 2001, month: 2, day: 3 },
        },
    }))
}

fn partial(percent: u32) -> Watched {
    Watched::Partial { seconds: 30, percent }
}

#[test]
fn season_yes_only_when_every_episode_is() {
    let mut l = Library::new();
    let s = series(&mut l);
    let a = season(&mut l, s, 1);
    episode(&mut l, s, a, (1, 1), Watched::Yes, 0, None);
    episode(&mut l, s, a, (1, 2), Watched::Yes, 0, None);
    assert_eq!(calculate_season_watched(a, &l), Watched::Yes);
    episode(&mut l, s, a, (1, 3), Watched::No, 0, None);
    assert_eq!(calculate_season_watched(a, &l), Watched::Partial { seconds: 0, percent: 6666 });
}

#[test]
fn season_no_only_when_every_episode_is() {
    let mut l = Library::new();
    let s = series(&mut l);
    let a = season(&mut l, s, 1);
    assert_eq!(calculate_season_watched(a, &l), Watched::No);
    episode(&mut l, s, a, (1, 1), Watched::No, 0, None);
    episode(&mut l, s, a, (1, 2), Watched::No, 0, None);
    assert_eq!(calculate_season_watched(a, &l), Watched::No);
    episode(&mut l, s, a, (1, 3), partial(1500), 0, None);
    assert_eq!(calculate_season_watched(a, &l), Watched::Partial { seconds: 0, percent: 500 });
}

#[test]
fn tiny_progress_stays_partial() {
    let mut l = Library::new();
    let s = series(&mut l);
    let a = season(&mut l, s, 1);
    episode(&mut l, s, a, (1, 1), partial(1), 0, None);
    episode(&mut l, s, a, (1, 2), Watched::No, 0, None);
    assert_eq!(calculate_season_watched(a, &l), Watched::Partial { seconds: 0, percent: 1 });
}

#[test]
fn series_counts_each_season_once() {
    let mut l = Library::new();
    let s = series(&mut l);
    let a = season(&mut l, s, 1);
    let b = season(&mut l, s, 2);
    episode(&mut l, s, a, (1, 1), Watched::Yes, 0, None);
    for n in 1..=3 {
        episode(&mut l, s, b, (2, n), Watched::No, 0, None);
    }
    // by episodes this would be a quarter; by seasons it is a half
    assert_eq!(calculate_series_watched(s, &l), Watched::Partial { seconds: 0, percent: FULL / 2 });
    assert_eq!(calculate_watched(s, &l), Some(Watched::Partial { seconds: 0, percent: FULL / 2 }));
}

#[test]
fn leaf_watched_is_its_own() {
    let mut l = Library::new();
    let s = series(&mut l);
    let a = season(&mut l, s, 1);
    let e = episode(&mut l, s, a, (1, 1), partial(4000), 0, None);
    assert_eq!(calculate_watched(e, &l), Some(partial(4000)));
    assert_eq!(calculate_watched(MediaId(77), &l), None);
    assert_eq!(partial(4000).percent(), 4000);
    assert_eq!(Watched::Yes.percent(), FULL);
}

#[test]
fn set_watched_on_series_reaches_every_episode() {
    let mut l = Library::new();
    let s = series(&mut l);
    let a = season(&mut l, s, 1);
    let b = season(&mut l, s, 2);
    let e1 = episode(&mut l, s, a, (1, 1), Watched::No, 0, None);
    let e2 = episode(&mut l, s, b, (2, 1), partial(10), 0, None);
    let other_series = series(&mut l);
    let c = season(&mut l, other_series, 1);
    let e3 = episode(&mut l, other_series, c, (1, 1), Watched::No, 0, None);
    set_watched(s, Watched::Yes, &mut l);
    assert_eq!(calculate_watched(e1, &l), Some(Watched::Yes));
    assert_eq!(calculate_watched(e2, &l), Some(Watched::Yes));
    assert_eq!(calculate_watched(e3, &l), Some(Watched::No));
    assert_eq!(calculate_watched(s, &l), Some(Watched::Yes));
    set_watched(b, Watched::No, &mut l);
    assert_eq!(calculate_watched(e1, &l), Some(Watched::Yes));
    assert_eq!(calculate_watched(e2, &l), Some(Watched::No));
    set_watched(e3, partial(20), &mut l);
    assert_eq!(calculate_watched(e3, &l), Some(partial(20)));
}

#[test]
fn neighbours_follow_season_and_episode() {
    let mut l = Library::new();
    let s = series(&mut l);
    let b = season(&mut l, s, 2);
    let a = season(&mut l, s, 1);
    let s2e1 = episode(&mut l, s, b, (2, 1), Watched::No, 0, None);
    let s1e2 = episode(&mut l, s, a, (1, 2), Watched::No, 0, None);
    let s1e1 = episode(&mut l, s, a, (1, 1), Watched::No, 0, None);
    assert_eq!(previous_in_list(s1e1, &l), None);
    assert_eq!(next_in_list(s1e1, &l), Some(s1e2));
    assert_eq!(next_in_list(s1e2, &l), Some(s2e1));
    assert_eq!(previous_in_list(s2e1, &l), Some(s1e2));
    assert_eq!(previous_in_list(s1e2, &l), Some(s1e1));
    assert_eq!(next_in_list(s2e1, &l), None);
    assert_eq!(next_in_list(s, &l), None);
    assert_eq!(find_seasons(s, &l), vec![b, a]);
    assert_eq!(find_episodes(a, &l), vec![s1e2, s1e1]);
    assert_eq!(find_all_episodes(s, &l), vec![s2e1, s1e2, s1e1]);
}

#[test]
fn composite_times_are_the_latest_of_the_episodes() {
    let mut l = Library::new();
    let s = series(&mut l);
    let a = season(&mut l, s, 1);
    let b = season(&mut l, s, 2);
    let e1 = episode(&mut l, s, a, (1, 1), Watched::No, 50, Some(700));
    let e2 = episode(&mut l, s, a, (1, 2), Watched::No, 80, None);
    let e3 = episode(&mut l, s, b, (2, 1), Watched::No, 60, Some(900));
    assert_eq!(last_watched(a, &l), Some(700));
    assert_eq!(last_watched(s, &l), Some(900));
    assert_eq!(date_added(a, &l), Some(80));
    assert_eq!(date_added(s, &l), Some(80));
    assert_eq!(date_added(e3, &l), Some(60));
    assert_eq!(last_watched(e2, &l), None);
    assert_eq!(season_last_watched(a, &l), Some(e1));
    assert_eq!(series_last_watched(s, &l), Some(e3));
    assert_eq!(season_date_added(b, &l), Some(e3));
    let empty = season(&mut l, s, 3);
    assert_eq!(date_added(empty, &l), None);
    assert_eq!(season_date_added(empty, &l), None);
}

#[test]
fn full_titles() {
    let mut l = Library::new();
    let s = series(&mut l);
    let a = season(&mut l, s, 1);
    let e = episode(&mut l, s, a, (1, 2), Watched::No, 0, None);
    assert_eq!(full_title(e, &l), "Show S01E02 - Part 2");
    assert_eq!(full_title(a, &l), "Show S01 - Season 1");
    assert_eq!(full_title(s, &l), "Show");
    assert_eq!(full_title(MediaId(99), &l), "Unknown Media");
    let m = l.insert(Media::Movie(jangal::Movie {
        video: Video { path: "/m.mkv".to_string(), watched: Watched::No, added: 0, last_watched: None },
        metadata: jangal::MovieMetadata {
            tmdb_id: 3,
            title: "Alien".to_string(),
            year: 1979,
            poster: None,
            released: None,
        },
    }));
    assert_eq!(full_title(m, &l), "Alien (1979)");
    assert_eq!(l.get(a).unwrap().title(), "Season 1");
}
