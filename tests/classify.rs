use jangal::{detect_media_type, MediaType};

fn movie(title: &str, year: u16) -> MediaType {
    MediaType::Movie { title: title.to_string(), year }
}

fn episode(title: &str, season: u16, episode: u16) -> MediaType {
    MediaType::Episode { series_title: title.to_string(), season, episode }
}

#[test]
fn movie_with_year_and_resolution() {
    assert_eq!(detect_media_type("The.Matrix.1999.1080p.mkv"), movie("the matrix", 1999));
}

#[test]
fn episode_without_year() {
    assert_eq!(detect_media_type("Show.Name.S02E05.mkv"), episode("show name", 2, 5));
}

#[test]
fn unmatched_name_is_unknown() {
    assert_eq!(detect_media_type("holiday video.mp4"), MediaType::Unknown);
    assert_eq!(detect_media_type(""), MediaType::Unknown);
    assert_eq!(detect_media_type("2020.mkv"), MediaType::Unknown);
}

#[test]
fn episode_with_year_is_not_a_movie() {
    assert_eq!(detect_media_type("Doctor.Who.2005.S03E10.720p.mkv"), episode("doctor who", 3, 10));
}

#[test]
fn separators_collapse_and_case_folds() {
    assert_eq!(detect_media_type("Some -- Movie__(2010)[x].mp4"), movie("some movie", 2010));
}

#[test]
fn longest_title_wins() {
    assert_eq!(detect_media_type("Blade.Runner.2049.2017.mkv"), movie("blade runner 2049", 2017));
}

#[test]
fn episode_numbers_keep_their_value() {
    assert_eq!(detect_media_type("show s001e0012 x.mkv"), episode("show", 1, 12));
}

#[test]
fn numbers_too_large_do_not_fit() {
    assert_eq!(detect_media_type("show s70000e01.mkv"), MediaType::Unknown);
}

#[test]
fn year_needs_four_digits_followed_by_a_separator() {
    assert_eq!(detect_media_type("Film.20201.mkv"), MediaType::Unknown);
    assert_eq!(detect_media_type("Film.202.mkv"), MediaType::Unknown);
}

#[test]
fn leading_separator_stays_in_title() {
    assert_eq!(detect_media_type("[Group] Show - S01E02 [1080p].mkv"), episode(" group show", 1, 2));
}
