use vstd::prelude::*;
use crate::text::{chars_of, string_from_chars};

verus! {

/// What a filename says about the media it holds.
#[derive(Debug, Clone, PartialEq, Eq, PartialOrd, Ord, Hash)]
pub enum MediaType {
    Unknown,
    Movie { title: String, year: u16 },
    Episode { series_title: String, season: u16, episode: u16 },
}

/// The mathematical value of a `MediaType`.
pub enum MediaTypeView {
    Unknown,
    Movie { title: Seq<char>, year: u16 },
    Episode { series_title: Seq<char>, season: u16, episode: u16 },
}

impl View for MediaType {
    type V = MediaTypeView;

    open spec fn view(&self) -> MediaTypeView {
        match self {
            MediaType::Unknown => MediaTypeView::Unknown,
            MediaType::Movie { title, year } => MediaTypeView::Movie { title: title@, year: *year },
            MediaType::Episode { series_title, season, episode } => MediaTypeView::Episode {
                series_title: series_title@,
                season: *season,
                episode: *episode,
            },
        }
    }
}

pub open spec fn is_digit(c: char) -> bool {
    '0' <= c && c <= '9'
}

/// ASCII letters and digits.
pub open spec fn is_alnum(c: char) -> bool {
    ('a' <= c && c <= 'z') || ('A' <= c && c <= 'Z') || is_digit(c)
}

/// ASCII lower case.
pub open spec fn lower(c: char) -> char {
    if 'A' <= c && c <= 'Z' {
        ((c as u32) + 32) as char
    } else {
        c
    }
}

/// `s` with each run of characters other than letters and digits replaced
/// by one space, and letters in lower case.
pub open spec fn normalize(s: Seq<char>) -> Seq<char>
    decreases s.len(),
{
    if s.len() == 0 {
        s
    } else {
        let p = normalize(s.drop_last());
        let c = s.last();
        if is_alnum(c) {
            p.push(lower(c))
        } else if p.len() > 0 && p.last() == ' ' {
            p
        } else {
            p.push(' ')
        }
    }
}

/// The value of a string of decimal digits.
pub open spec fn digits_value(s: Seq<char>) -> nat
    decreases s.len(),
{
    if s.len() == 0 {
        0
    } else {
        digits_value(s.drop_last()) * 10 + ((s.last() as u32) - ('0' as u32)) as nat
    }
}

/// The end of the run of digits in `t` that starts at `a`.
pub open spec fn run_end(t: Seq<char>, a: int) -> int
    decreases t.len() - a,
{
    if 0 <= a < t.len() && is_digit(t[a]) {
        run_end(t, a + 1)
    } else {
        a
    }
}

/// `t[a..b]` is a non-empty number that fits in 16 bits.
pub open spec fn number_ok(t: Seq<char>, a: int, b: int) -> bool {
    a < b && digits_value(t.subrange(a, b)) <= 65535
}

pub open spec fn number(t: Seq<char>, a: int, b: int) -> u16 {
    digits_value(t.subrange(a, b)) as u16
}

/// Where the season number of a "sNNeNN " that starts at `p` ends.
pub open spec fn season_end(t: Seq<char>, p: int) -> int {
    run_end(t, p + 1)
}

/// Where the episode number of a "sNNeNN " that starts at `p` ends.
pub open spec fn episode_end(t: Seq<char>, p: int) -> int {
    run_end(t, season_end(t, p) + 1)
}

/// `t` holds "s<season>e<episode> " at `p`.
pub open spec fn code_at(t: Seq<char>, p: int) -> bool {
    let j = season_end(t, p);
    let m = episode_end(t, p);
    &&& 0 <= p < t.len()
    &&& t[p] == 's'
    &&& number_ok(t, p + 1, j)
    &&& j < t.len()
    &&& t[j] == 'e'
    &&& number_ok(t, j + 1, m)
    &&& m < t.len()
    &&& t[m] == ' '
}

/// `t` holds four digits and a space at `p`.
pub open spec fn year_at(t: Seq<char>, p: int) -> bool {
    &&& 0 <= p
    &&& p + 4 < t.len()
    &&& forall|i: int| p <= i < p + 4 ==> is_digit(#[trigger] t[i])
    &&& t[p + 4] == ' '
}

/// The three shapes of name, in the order in which they are tried.
pub enum Shape {
    EpisodeWithYear,
    Episode,
    Movie,
}

/// `t` has the shape with a title of `k` characters: "<title> <year> sNNeNN ",
/// "<title> sNNeNN " or "<title> <year> ".
pub open spec fn shape_at(t: Seq<char>, shape: Shape, k: int) -> bool {
    &&& 1 <= k < t.len()
    &&& t[k] == ' '
    &&& match shape {
        Shape::EpisodeWithYear => year_at(t, k + 1) && code_at(t, k + 6),
        Shape::Episode => code_at(t, k + 1),
        Shape::Movie => year_at(t, k + 1),
    }
}

/// The longest title, of at most `k` characters, with which `t` has the shape.
pub open spec fn longest_title(t: Seq<char>, shape: Shape, k: int) -> Option<int>
    decreases k,
{
    if k < 1 {
        None
    } else if shape_at(t, shape, k) {
        Some(k)
    } else {
        longest_title(t, shape, k - 1)
    }
}

/// The reading of a normalized name: episode shapes before the movie shape,
/// each with the longest title that fits.
pub open spec fn classify(t: Seq<char>) -> MediaTypeView {
    if let Some(k) = longest_title(t, Shape::EpisodeWithYear, t.len() as int) {
        MediaTypeView::Episode {
            series_title: t.subrange(0, k),
            season: number(t, k + 7, season_end(t, k + 6)),
            episode: number(t, season_end(t, k + 6) + 1, episode_end(t, k + 6)),
        }
    } else if let Some(k) = longest_title(t, Shape::Episode, t.len() as int) {
        MediaTypeView::Episode {
            series_title: t.subrange(0, k),
            season: number(t, k + 2, season_end(t, k + 1)),
            episode: number(t, season_end(t, k + 1) + 1, episode_end(t, k + 1)),
        }
    } else if let Some(k) = longest_title(t, Shape::Movie, t.len() as int) {
        MediaTypeView::Movie { title: t.subrange(0, k), year: number(t, k + 1, k + 5) }
    } else {
        MediaTypeView::Unknown
    }
}

proof fn lemma_value_prefix(s: Seq<char>, i: int)
    requires
        0 <= i <= s.len(),
        forall|j: int| 0 <= j < s.len() ==> is_digit(#[trigger] s[j]),
    ensures
        digits_value(s.subrange(0, i)) <= digits_value(s),
    decreases s.len(),
{
    if i < s.len() {
        assert(s.drop_last().subrange(0, i) =~= s.subrange(0, i));
        lemma_value_prefix(s.drop_last(), i);
    } else {
        assert(s.subrange(0, i) =~= s);
    }
}

pub open spec fn pow10(n: nat) -> nat
    decreases n,
{
    if n == 0 {
        1
    } else {
        10 * pow10((n - 1) as nat)
    }
}

proof fn lemma_value_bound(s: Seq<char>)
    requires
        forall|j: int| 0 <= j < s.len() ==> is_digit(#[trigger] s[j]),
    ensures
        digits_value(s) < pow10(s.len()),
    decreases s.len(),
{
    if s.len() > 0 {
        assert(is_digit(s[s.len() - 1]));
        lemma_value_bound(s.drop_last());
    }
}

proof fn lemma_run_digits(t: Seq<char>, a: int, i: int)
    requires
        0 <= a <= i < run_end(t, a),
    ensures
        is_digit(t[i]),
        run_end(t, a) <= t.len(),
    decreases t.len() - a,
{
    if a < i {
        lemma_run_digits(t, a + 1, i);
    } else if a + 1 < run_end(t, a) {
        lemma_run_digits(t, a + 1, a + 1);
    }
}

proof fn lemma_run_end_ge(t: Seq<char>, a: int)
    requires
        0 <= a,
    ensures
        a <= run_end(t, a),
        run_end(t, a) < t.len() ==> !is_digit(t[run_end(t, a)]),
    decreases t.len() - a,
{
    if 0 <= a < t.len() && is_digit(t[a]) {
        lemma_run_end_ge(t, a + 1);
    }
}

/// The end of the run of digits that starts at `a`.
fn digit_run_end(t: &Vec<char>, a: usize) -> (r: usize)
    ensures
        r as int == run_end(t@, a as int),
{
    let mut i = a;
    while i < t.len() && '0' <= t[i] && t[i] <= '9'
        invariant
            a <= i,
            run_end(t@, i as int) == run_end(t@, a as int),
        decreases t.len() - i,
    {
        i = i + 1;
    }
    i
}

/// The number held in `t[a..b]`, where it is non-empty and fits in 16 bits.
fn read_number(t: &Vec<char>, a: usize, b: usize) -> (r: Option<u16>)
    requires
        a <= b <= t@.len(),
        forall|i: int| a <= i < b ==> is_digit(#[trigger] t@[i]),
    ensures
        r == (if number_ok(t@, a as int, b as int) {
            Some(number(t@, a as int, b as int))
        } else {
            None::<u16>
        }),
{
    if a == b {
        return None;
    }
    let ghost s = t@.subrange(a as int, b as int);
    let mut value: u32 = 0;
    let mut i = a;
    while i < b
        invariant
            a <= i <= b <= t@.len(),
            s == t@.subrange(a as int, b as int),
            forall|j: int| a <= j < b ==> is_digit(#[trigger] t@[j]),
            value as nat == digits_value(s.subrange(0, i - a)),
            value <= 65535,
        decreases b - i,
    {
        let d = (t[i] as u32) - ('0' as u32);
        assert(s.subrange(0, i - a + 1).drop_last() =~= s.subrange(0, i - a));
        assert(s[i - a] == t@[i as int]);
        let next = value * 10 + d;
        if next > 65535 {
            proof {
                assert forall|j: int| 0 <= j < s.len() implies is_digit(#[trigger] s[j]) by {
                    assert(s[j] == t@[a + j]);
                }
                lemma_value_prefix(s, i - a + 1);
            }
            return None;
        }
        value = next;
        i = i + 1;
    }
    assert(s.subrange(0, b - a) =~= s);
    Some(value as u16)
}

/// Whether `t` holds "s<season>e<episode> " at `p`, and the two numbers.
fn read_code(t: &Vec<char>, p: usize) -> (r: Option<(u16, u16)>)
    ensures
        r is Some <==> code_at(t@, p as int),
        r matches Some((s, e)) ==> s == number(t@, p + 1, season_end(t@, p as int)) && e == number(
            t@,
            season_end(t@, p as int) + 1,
            episode_end(t@, p as int),
        ),
{
    if p >= t.len() || t[p] != 's' || p + 1 > t.len() {
        return None;
    }
    let j = digit_run_end(t, p + 1);
    proof {
        lemma_run_end_ge(t@, p + 1);
        if p + 1 < j {
            lemma_run_digits(t@, p + 1, p + 1);
        }
        assert forall|i: int| p + 1 <= i < j implies is_digit(#[trigger] t@[i]) by {
            lemma_run_digits(t@, p + 1, i);
        }
    }
    let season = read_number(t, p + 1, j);
    if season.is_none() || j >= t.len() || t[j] != 'e' {
        return None;
    }
    let m = digit_run_end(t, j + 1);
    proof {
        lemma_run_end_ge(t@, j + 1);
        if j + 1 < m {
            lemma_run_digits(t@, j + 1, j + 1);
        }
        assert forall|i: int| j + 1 <= i < m implies is_digit(#[trigger] t@[i]) by {
            lemma_run_digits(t@, j + 1, i);
        }
    }
    let episode = read_number(t, j + 1, m);
    if episode.is_none() || m >= t.len() || t[m] != ' ' {
        return None;
    }
    Some((season.unwrap(), episode.unwrap()))
}

/// Whether `t` holds four digits and a space at `p`.
fn read_year(t: &Vec<char>, p: usize) -> (r: bool)
    ensures
        r == year_at(t@, p as int),
{
    if p >= t.len() || t.len() - p <= 4 {
        return false;
    }
    let end = p + 4;
    let mut i = p;
    while i < end
        invariant
            end == p + 4,
            p <= i <= p + 4 < t@.len(),
            forall|j: int| p <= j < i ==> is_digit(#[trigger] t@[j]),
        decreases end - i,
    {
        if !('0' <= t[i] && t[i] <= '9') {
            return false;
        }
        i = i + 1;
    }
    t[end] == ' '
}

/// Whether `t` has the shape with a title of `k` characters.
fn has_shape(t: &Vec<char>, shape: &Shape, k: usize) -> (r: bool)
    ensures
        r == shape_at(t@, *shape, k as int),
{
    if k < 1 || k >= t.len() || t[k] != ' ' {
        return false;
    }
    match shape {
        Shape::EpisodeWithYear => read_year(t, k + 1) && read_code(t, k + 6).is_some(),
        Shape::Episode => read_code(t, k + 1).is_some(),
        Shape::Movie => read_year(t, k + 1),
    }
}

/// The longest title with which `t` has the shape.
fn find_title(t: &Vec<char>, shape: &Shape) -> (r: Option<usize>)
    ensures
        r matches Some(k) ==> longest_title(t@, *shape, t@.len() as int) == Some(k as int),
        r is None ==> longest_title(t@, *shape, t@.len() as int) is None,
        r matches Some(k) ==> shape_at(t@, *shape, k as int),
{
    let mut k = t.len();
    while k >= 1
        invariant
            k <= t@.len(),
            longest_title(t@, *shape, t@.len() as int) == longest_title(t@, *shape, k as int),
        decreases k,
    {
        if has_shape(t, shape, k) {
            return Some(k);
        }
        k = k - 1;
    }
    None
}

/// Guesses from a filename whether it holds an episode or a movie.
///
/// The name is normalized first (each run of characters other than ASCII
/// letters and digits becomes one space, letters go to lower case). Then
/// "<title> <year> sNNeNN " and "<title> sNNeNN " are tried, and after them
/// "<title> <year> "; the first shape that fits gives the answer, with the
/// longest title that fits it. Numbers that do not fit in 16 bits do not fit
/// a shape.
pub fn detect_media_type(filename: &str) -> (r: MediaType)
    ensures
        r@ == classify(normalize(filename@)),
{
    let chars = chars_of(filename);
    let mut clean: Vec<char> = Vec::new();
    let mut i: usize = 0;
    while i < chars.len()
        invariant
            chars@ == filename@,
            i <= chars.len(),
            clean@ == normalize(chars@.subrange(0, i as int)),
        decreases chars.len() - i,
    {
        let c = chars[i];
        assert(chars@.subrange(0, i + 1).drop_last() =~= chars@.subrange(0, i as int));
        if ('a' <= c && c <= 'z') || ('0' <= c && c <= '9') {
            clean.push(c);
        } else if 'A' <= c && c <= 'Z' {
            clean.push(((c as u8) + 32) as char);
        } else if clean.len() == 0 || clean[clean.len() - 1] != ' ' {
            clean.push(' ');
        }
        i = i + 1;
    }
    assert(chars@.subrange(0, chars.len() as int) =~= chars@);
    let ghost t = clean@;
    if let Some(k) = find_title(&clean, &Shape::EpisodeWithYear) {
        let (season, episode) = read_code(&clean, k + 6).unwrap();
        return MediaType::Episode {
            series_title: string_from_chars(clean.as_slice(), 0, k),
            season,
            episode,
        };
    }
    if let Some(k) = find_title(&clean, &Shape::Episode) {
        let (season, episode) = read_code(&clean, k + 1).unwrap();
        return MediaType::Episode {
            series_title: string_from_chars(clean.as_slice(), 0, k),
            season,
            episode,
        };
    }
    if let Some(k) = find_title(&clean, &Shape::Movie) {
        proof {
            assert forall|j: int| k + 1 <= j < k + 5 implies is_digit(#[trigger] t[j]) by {}
            let y = t.subrange(k + 1, k + 5);
            assert forall|j: int| 0 <= j < y.len() implies is_digit(#[trigger] y[j]) by {
                assert(y[j] == t[k + 1 + j]);
            }
            lemma_value_bound(y);
            assert(pow10(0) == 1);
            assert(pow10(1) == 10);
            assert(pow10(2) == 100);
            assert(pow10(3) == 1000);
            assert(pow10(4) == 10000);
        }
        let year = read_number(&clean, k + 1, k + 5).unwrap();
        return MediaType::Movie { title: string_from_chars(clean.as_slice(), 0, k), year };
    }
    MediaType::Unknown
}

} // verus!
