use jangal::{
    detect_media_type, Collection, Date, EpisodeMetadata, Library, Lookup, Media, MediaId,
    MovieMetadata, Reply, ScrapeResult, SeasonMetadata, SeriesMetadata, Uncategorised, Video,
    Watched,
};

fn uncategorised(path: &str, added: i64) -> Media {
    Media::Uncategorised(Uncategorised {
        video: Video { path: path.to_string(), watched: Watched::No, added, last_watched: None },
        dont_scrape: false,
    })
}

fn date() -> Date {
    Date { year: 2020, month: 1, day: 2 }
}

fn series_metadata() -> SeriesMetadata {
    SeriesMetadata { tmdb_id: 7, title: "Show".to_string(), poster: None, aired: None }
}

fn season_metadata() -> SeasonMetadata {
    SeasonMetadata {
        series_tmdb_id: 7,
        title: "Season 1".to_string(),
        season: 1,
        poster: None,
        aired: None,
        overview: None,
    }
}

fn episode_metadata(episode: u16) -> EpisodeMetadata {
    EpisodeMetadata {
        series_tmdb_id: 7,
        title: format!("Episode {}", episode),
        season: 1,
        episode,
        aired: date(),
    }
}

/// Scrapes the two episode files against a scraper that knows the show, and
/// counts the lookups made.
fn scrape_show(files: &[(MediaId, &str)]) -> (ScrapeResult, usize) {
    let mut result = ScrapeResult::new();
    let mut lookups = 0;
    for (id, name) in files {
        let ty = detect_media_type(name);
        let mut reply = Reply::Start;
        while let Some(lookup) = result.advance(*id, &ty, reply) {
            lookups += 1;
            reply = match lookup {
                Lookup::Series { title } => {
                    assert_eq!(title, "show");
                    Reply::Series(Some(series_metadata()))
                }
                Lookup::Season { series_tmdb_id, season } => {
                    assert_eq!((series_tmdb_id, season), (7, 1));
                    Reply::Season(Some((
                        season_metadata(),
                        vec![episode_metadata(1), episode_metadata(2), episode_metadata(3)],
                    )))
                }
                Lookup::Movie { .. } => panic!("no movie here"),
            };
        }
    }
    (result, lookups)
}

fn count(library: &Library, f: impl Fn(&Media) -> bool) -> usize {
    library.iter().iter().filter(|(_, m)| f(m)).count()
}

#[test]
fn movie_is_promoted_in_place() {
    let mut library = Library::new();
    let id = library.insert(uncategorised("Foo.2020.mkv", 1234));
    assert_eq!(id, MediaId(1));
    let ty = detect_media_type("Foo.2020.mkv");
    let mut result = ScrapeResult::new();
    let lookup = result.advance(id, &ty, Reply::Start);
    assert_eq!(lookup, Some(Lookup::Movie { title: "foo".to_string(), year: 2020 }));
    let metadata = MovieMetadata {
        tmdb_id: 42,
        title: "Foo".to_string(),
        year: 2020,
        poster: None,
        released: Some(date()),
    };
    assert_eq!(result.advance(id, &ty, Reply::Movie(Some(metadata))), None);
    result.insert(&mut library);
    match library.get(MediaId(1)) {
        Some(Media::Movie(movie)) => {
            assert_eq!(movie.metadata.tmdb_id, 42);
            assert_eq!(movie.metadata.title, "Foo");
            assert_eq!(movie.metadata.year, 2020);
            assert_eq!(movie.video.added, 1234);
            assert_eq!(movie.video.path, "Foo.2020.mkv");
        }
        other => panic!("not a movie: {:?}", other),
    }
    assert_eq!(library.iter().len(), 1);
}

#[test]
fn movie_not_found_stays_uncategorised() {
    let mut library = Library::new();
    let id = library.insert(uncategorised("Foo.2020.mkv", 1));
    let ty = detect_media_type("Foo.2020.mkv");
    let mut result = ScrapeResult::new();
    assert!(result.advance(id, &ty, Reply::Start).is_some());
    assert_eq!(result.advance(id, &ty, Reply::Movie(None)), None);
    result.insert(&mut library);
    assert!(matches!(library.get(id), Some(Media::Uncategorised(_))));
}

#[test]
fn two_episodes_share_one_series_and_season() {
    let mut library = Library::new();
    let a = library.insert(uncategorised("Show.S01E01.mkv", 1));
    let b = library.insert(uncategorised("Show.S01E02.mkv", 2));
    let (result, lookups) = scrape_show(&[(a, "Show.S01E01.mkv"), (b, "Show.S01E02.mkv")]);
    assert_eq!(lookups, 2);
    result.insert(&mut library);
    assert_eq!(count(&library, |m| matches!(m, Media::Series(_))), 1);
    assert_eq!(count(&library, |m| matches!(m, Media::Season(_))), 1);
    let series_id = library.iter().iter().find(|(_, m)| matches!(m, Media::Series(_))).unwrap().0;
    let season_id = library.iter().iter().find(|(_, m)| matches!(m, Media::Season(_))).unwrap().0;
    match library.get(season_id) {
        Some(Media::Season(season)) => assert_eq!(season.series, series_id),
        _ => panic!(),
    }
    for (id, number) in [(a, 1), (b, 2)] {
        match library.get(id) {
            Some(Media::Episode(e)) => {
                assert_eq!(e.series, series_id);
                assert_eq!(e.season, season_id);
                assert_eq!(e.metadata.episode, number);
            }
            other => panic!("not an episode: {:?}", other),
        }
    }
}

#[test]
fn merging_twice_adds_nothing() {
    let mut library = Library::new();
    let a = library.insert(uncategorised("Show.S01E01.mkv", 1));
    let b = library.insert(uncategorised("Show.S01E02.mkv", 2));
    let files = [(a, "Show.S01E01.mkv"), (b, "Show.S01E02.mkv")];
    let (first, _) = scrape_show(&files);
    let (second, _) = scrape_show(&files);
    first.insert(&mut library);
    let len = library.iter().len();
    second.insert(&mut library);
    assert_eq!(library.iter().len(), len);
    assert_eq!(count(&library, |m| matches!(m, Media::Series(_))), 1);
    assert_eq!(count(&library, |m| matches!(m, Media::Season(_))), 1);
}

#[test]
fn episode_without_match_stays_uncategorised() {
    let mut library = Library::new();
    let a = library.insert(uncategorised("Show.S01E09.mkv", 1));
    let (result, _) = scrape_show(&[(a, "Show.S01E09.mkv")]);
    result.insert(&mut library);
    assert!(matches!(library.get(a), Some(Media::Uncategorised(_))));
    assert_eq!(count(&library, |m| matches!(m, Media::Season(_))), 1);
}

#[test]
fn same_episode_is_matched_once() {
    let mut library = Library::new();
    let a = library.insert(uncategorised("/x/Show.S01E01.mkv", 1));
    let b = library.insert(uncategorised("/y/Show.S01E01.mkv", 2));
    let (result, _) = scrape_show(&[(a, "Show.S01E01.mkv"), (b, "Show.S01E01.mkv")]);
    result.insert(&mut library);
    assert!(matches!(library.get(a), Some(Media::Episode(_))));
    assert!(matches!(library.get(b), Some(Media::Uncategorised(_))));
}

#[test]
fn failed_series_lookup_ends_only_that_entity() {
    let mut result = ScrapeResult::new();
    let ty = detect_media_type("Show.S01E01.mkv");
    assert_eq!(result.advance(MediaId(1), &ty, Reply::Start), Some(Lookup::Series { title: "show".to_string() }));
    assert_eq!(result.advance(MediaId(1), &ty, Reply::Series(None)), None);
    // the next entity of the same series asks again
    assert_eq!(result.advance(MediaId(2), &ty, Reply::Start), Some(Lookup::Series { title: "show".to_string() }));
    let unknown = detect_media_type("notes.txt");
    assert_eq!(result.advance(MediaId(3), &unknown, Reply::Start), None);
}

#[test]
fn promotion_keeps_collections_valid() {
    let mut library = Library::new();
    let id = library.insert(uncategorised("Foo.2020.mkv", 9));
    let c = library.insert_collection();
    library.toggle_collection_member(c, id);
    let ty = detect_media_type("Foo.2020.mkv");
    let mut result = ScrapeResult::new();
    result.advance(id, &ty, Reply::Start);
    result.advance(
        id,
        &ty,
        Reply::Movie(Some(MovieMetadata { tmdb_id: 1, title: "Foo".to_string(), year: 2020, poster: None, released: None })),
    );
    result.insert(&mut library);
    library.purge_collections();
    let members: &Collection = library.collection(c).unwrap();
    assert!(members.contains(id));
    assert!(matches!(library.get(id), Some(Media::Movie(_))));
}

#[test]
fn entity_bound_counts_series_and_seasons() {
    let (result, _) = scrape_show(&[(MediaId(1), "Show.S01E01.mkv")]);
    assert_eq!(result.new_entity_bound(), Some(2));
    assert_eq!(ScrapeResult::new().new_entity_bound(), Some(0));
}
