use jangal::{
    compare_text, set_watched, sort_by, CollectionId, Filter, Library, Media, MediaId, Movie,
    MovieMetadata, Sort, SortDirection, Tab, Video, Watched,
};
use std::cmp::Ordering;

fn movie(library: &mut Library, title: &str, added: i64) -> MediaId {
    library.insert(Media::Movie(Movie {
        video: Video { path: format!("/m/{}.mkv", title), watched: Watched::No, added, last_watched: None },
        metadata: MovieMetadata { tmdb_id: 1, title: title.to_string(), year: 2000, poster: None, released: None },
    }))
}

#[test]
fn top_tabs_overwrite_each_other() {
    assert!(Tab::Home.overwrites(&Tab::Movies));
    assert!(Tab::Collection(CollectionId(1)).overwrites(&Tab::TvShows));
    assert!(!Tab::Home.overwrites(&Tab::TvShow(MediaId(1))));
    assert!(!Tab::Season(MediaId(2)).overwrites(&Tab::Home));
}

#[test]
fn filter_by_watched_state() {
    let mut l = Library::new();
    let a = movie(&mut l, "A", 0);
    let b = movie(&mut l, "B", 0);
    set_watched(b, Watched::Yes, &mut l);
    let f = Filter { watched: false, partially_watched: true, not_watched: true };
    assert!(f.filter(a, &l));
    assert!(!f.filter(b, &l));
    assert!(f.filter(MediaId(50), &l));
}

#[test]
fn sort_orders() {
    let mut l = Library::new();
    let a = movie(&mut l, "Alpha", 20);
    let b = movie(&mut l, "Beta", 10);
    assert_eq!(sort_by(a, b, &l, Sort::Name, SortDirection::Ascending), Ordering::Less);
    assert_eq!(sort_by(a, b, &l, Sort::Name, SortDirection::Descending), Ordering::Greater);
    assert_eq!(sort_by(a, b, &l, Sort::DateAdded, SortDirection::Ascending), Ordering::Greater);
    assert_eq!(sort_by(a, b, &l, Sort::LastWatched, SortDirection::Ascending), Ordering::Equal);
    set_watched(a, Watched::Partial { seconds: 5, percent: 10 }, &mut l);
    assert_eq!(sort_by(a, b, &l, Sort::Watched, SortDirection::Ascending), Ordering::Greater);
    assert_eq!(Sort::DateAdded.label(), "Date Added");
}

#[test]
fn text_order_is_by_character() {
    assert_eq!(compare_text("abc", "abd"), Ordering::Less);
    assert_eq!(compare_text("ab", "abc"), Ordering::Less);
    assert_eq!(compare_text("b", "abc"), Ordering::Greater);
    assert_eq!(compare_text("", ""), Ordering::Equal);
    assert_eq!(compare_text("Zed", "alpha"), "Zed".cmp("alpha"));
}
