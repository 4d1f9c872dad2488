use jangal::{
    CollectionId, Library, Media, MediaId, Movie, MovieMetadata, Series, SeriesMetadata,
    Uncategorised, Video, Watched,
};

fn video(path: &str, added: i64) -> Video {
    Video { path: path.to_string(), watched: Watched::No, added, last_watched: None }
}

fn uncategorised(path: &str) -> Media {
    Media::Uncategorised(Uncategorised { video: video(path, 100), dont_scrape: false })
}

fn series(tmdb_id: u64, title: &str) -> Media {
    Media::Series(Series {
        metadata: SeriesMetadata { tmdb_id, title: title.to_string(), poster: None, aired: None },
    })
}

fn paths(library: &Library) -> Vec<String> {
    library
        .iter()
        .iter()
        .filter_map(|(_, m)| m.video().map(|v| v.path.clone()))
        .collect()
}

#[test]
fn insert_issues_increasing_ids() {
    let mut library = Library::new();
    let a = library.insert(uncategorised("/m/a.mkv"));
    let b = library.insert(uncategorised("/m/b.mkv"));
    assert_eq!(a, MediaId(1));
    assert_eq!(b, MediaId(2));
    assert!(library.get(a).is_some());
    assert!(library.get(MediaId(3)).is_none());
}

#[test]
fn extend_twice_keeps_one_entry_per_path() {
    let mut library = Library::new();
    library.extend(vec![uncategorised("/m/a.mkv"), uncategorised("/m/a.mkv")]);
    library.extend(vec![uncategorised("/m/a.mkv"), uncategorised("/m/b.mkv")]);
    library.extend(vec![uncategorised("/m/a.mkv"), uncategorised("/m/b.mkv")]);
    assert_eq!(paths(&library), vec!["/m/a.mkv".to_string(), "/m/b.mkv".to_string()]);
    assert_eq!(library.iter().len(), 2);
}

#[test]
fn extend_drops_entity_without_video_where_one_exists() {
    let mut library = Library::new();
    library.insert(series(1, "A"));
    library.extend(vec![series(2, "B")]);
    assert_eq!(library.iter().len(), 1);
}

#[test]
fn removed_ids_are_not_reused() {
    let mut library = Library::new();
    let a = library.insert(uncategorised("/m/a.mkv"));
    let removed = library.remove(a);
    assert!(matches!(removed, Some(Media::Uncategorised(_))));
    assert!(library.remove(a).is_none());
    let b = library.insert(uncategorised("/m/b.mkv"));
    assert_eq!(b, MediaId(2));
}

#[test]
fn media_accessors() {
    let m = Media::Movie(Movie {
        video: video("/films/Heat.mkv", 5),
        metadata: MovieMetadata {
            tmdb_id: 949,
            title: "Heat".to_string(),
            year: 1995,
            poster: Some("/cache/heat.jpg".to_string()),
            released: None,
        },
    });
    assert_eq!(m.title(), "Heat");
    assert_eq!(m.year(), Some(1995));
    assert_eq!(m.poster().map(|p| p.as_str()), Some("/cache/heat.jpg"));
    assert_eq!(m.video().map(|v| v.added), Some(5));
    assert_eq!(uncategorised("/media/dir/file.name.mkv").title(), "file.name.mkv");
    assert!(series(1, "A").video().is_none());
}

#[test]
fn collections_create_rename_toggle_delete() {
    let mut library = Library::new();
    let a = library.insert(uncategorised("/m/a.mkv"));
    let c = library.insert_collection();
    assert_eq!(c, CollectionId(1));
    assert_eq!(library.collection(c).unwrap().name(), "Untitled Collection");
    assert!(library.rename_collection(c, "Favourites".to_string()));
    assert_eq!(library.collection(c).unwrap().name(), "Favourites");
    assert!(library.toggle_collection_member(c, a));
    assert!(library.collection(c).unwrap().contains(a));
    assert!(!library.toggle_collection_member(c, a));
    assert!(!library.collection(c).unwrap().contains(a));
    assert!(!library.toggle_collection_member(c, MediaId(99)));
    assert!(library.remove_collection(c));
    assert!(!library.remove_collection(c));
    assert!(library.collection(c).is_none());
}

#[test]
fn purge_drops_members_of_removed_media() {
    let mut library = Library::new();
    let a = library.insert(uncategorised("/m/a.mkv"));
    let b = library.insert(uncategorised("/m/b.mkv"));
    let c = library.insert_collection();
    library.toggle_collection_member(c, a);
    library.toggle_collection_member(c, b);
    library.remove(a);
    assert_eq!(library.collection_iter(c).unwrap(), vec![b]);
    library.purge_collections();
    assert!(!library.collection(c).unwrap().contains(a));
    assert!(library.collection(c).unwrap().contains(b));
    assert_eq!(library.collection(c).unwrap().iter().len(), 1);
}

#[test]
fn collection_set_operations() {
    let mut c = jangal::Collection::new();
    assert!(c.insert(MediaId(3)));
    assert!(!c.insert(MediaId(3)));
    assert!(c.insert(MediaId(4)));
    c.purge_by(|id| id.0 % 2 == 0);
    assert!(!c.contains(MediaId(3)));
    assert!(c.contains(MediaId(4)));
    assert!(c.remove(MediaId(4)));
    assert!(!c.remove(MediaId(4)));
    c.set_name("Kids".to_string());
    assert_eq!(c.name(), "Kids");
}

#[test]
fn scrape_batch_marks_attempted() {
    let mut library = Library::new();
    let a = library.insert(uncategorised("/m/Foo.2020.mkv"));
    let b = library.insert(series(1, "A"));
    let batch = library.take_scrape_batch(false);
    assert_eq!(batch, vec![(a, "Foo.2020.mkv".to_string())]);
    match library.get(a) {
        Some(Media::Uncategorised(u)) => assert!(u.dont_scrape),
        _ => panic!(),
    }
    assert!(matches!(library.get(b), Some(Media::Series(_))));
    assert!(library.take_scrape_batch(false).is_empty());
    assert_eq!(library.take_scrape_batch(true), vec![(a, "Foo.2020.mkv".to_string())]);
}

#[test]
fn removing_purged_media_repairs_collections() {
    let mut library = Library::new();
    let a = library.insert(uncategorised("/m/a.mkv"));
    let b = library.insert(uncategorised("/m/b.mkv"));
    let c = library.insert_collection();
    library.toggle_collection_member(c, a);
    library.toggle_collection_member(c, b);
    library.remove_purged(&vec![a, MediaId(40)]);
    assert!(library.get(a).is_none());
    assert!(library.get(b).is_some());
    assert!(!library.collection(c).unwrap().contains(a));
    assert!(library.collection(c).unwrap().contains(b));
}

#[test]
fn rebuild_from_parts() {
    let mut library = Library::new();
    let a = library.insert(uncategorised("/m/a.mkv"));
    let entries: Vec<(MediaId, Media)> = library.iter().clone();
    let members = jangal::Collection::from_parts("Mine".to_string(), vec![a, a]);
    assert_eq!(members.iter().len(), 1);
    let rebuilt = Library::from_parts(entries.clone(), MediaId(2), vec![(CollectionId(1), members)], CollectionId(2)).unwrap();
    assert_eq!(rebuilt.next_id(), MediaId(2));
    assert_eq!(rebuilt.next_collection_id(), CollectionId(2));
    assert!(rebuilt.collection(CollectionId(1)).unwrap().contains(a));
    assert!(Library::from_parts(entries.clone(), MediaId(1), vec![], CollectionId(1)).is_none());
    let twice = vec![entries[0].clone(), entries[0].clone()];
    assert!(Library::from_parts(twice, MediaId(5), vec![], CollectionId(1)).is_none());
}

#[test]
fn change_in_place() {
    let mut library = Library::new();
    let a = library.insert(uncategorised("/m/a.mkv"));
    if let Some(media) = library.get_mut(a) {
        if let Some(video) = media.video_mut() {
            video.last_watched = Some(77);
            video.watched = Watched::Partial { seconds: 12, percent: 300 };
        }
    }
    assert_eq!(library.get(a).unwrap().video().unwrap().last_watched, Some(77));
    assert!(library.get_mut(MediaId(9)).is_none());
    assert!(series(1, "A").video_mut().is_none());
    let c = library.insert_collection();
    library.collection_mut(c).unwrap().set_name("Later".to_string());
    library.collection_mut(c).unwrap().insert(a);
    assert_eq!(library.collection(c).unwrap().name(), "Later");
    assert!(library.collection(c).unwrap().contains(a));
    assert!(library.collection_mut(CollectionId(5)).is_none());
}
