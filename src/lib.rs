//! A media catalog: a store of movies, series, seasons and episodes with
//! stable ids, a filename classifier, the scrape of metadata and its merge
//! into the catalog, and watched-state aggregation.

pub mod aggregate;
pub mod browse;
pub mod catalog;
pub mod classify;
pub mod collection;
pub mod ids;
pub mod laws;
pub mod library;
pub mod media;
pub mod scan;
pub mod scrape;
pub mod text;

pub use aggregate::{Lookup, Reply};
pub use browse::{
    compare_text, sort_by, Action, Filter, HomeAction, HomeMessage, LibraryStatus, Sort,
    SortDirection, Tab,
};
pub use catalog::{
    calculate_season_watched, calculate_series_watched, calculate_watched, date_added,
    find_all_episodes, find_episodes, find_seasons, full_title, last_watched, next_in_list,
    previous_in_list, season_date_added, season_last_watched, series_date_added,
    series_last_watched, set_watched,
};
pub use classify::{detect_media_type, MediaType};
pub use collection::Collection;
pub use ids::{CollectionId, MediaId};
pub use library::Library;
pub use media::{
    Date, Episode, EpisodeMetadata, Media, Metadata, Movie, MovieMetadata, Season,
    SeasonMetadata, Series, SeriesMetadata, Uncategorised, Video, Watched, FULL,
};
pub use scan::{is_video_file, purge_media, scan_file, scan_paths};
pub use scrape::{ScrapeResult, SeasonScrapeResult, SeriesScrapeResult};
