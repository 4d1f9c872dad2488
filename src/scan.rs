use vstd::prelude::*;
use crate::classify::lower;
use crate::ids::MediaId;
use crate::media::{file_name_of, Media, Uncategorised, Video, Watched};
use crate::text::chars_of;

verus! {

/// The index of the last '.' in `s`, or -1.
pub open spec fn last_dot(s: Seq<char>) -> int
    decreases s.len(),
{
    if s.len() == 0 {
        -1
    } else if s.last() == '.' {
        s.len() - 1
    } else {
        last_dot(s.drop_last())
    }
}

/// The extension of a path: what follows the last '.' of its file name,
/// where that '.' is not the first character.
pub open spec fn extension_of(p: Seq<char>) -> Option<Seq<char>> {
    let name = file_name_of(p);
    let k = last_dot(name);
    if k > 0 {
        Some(name.subrange(k + 1, name.len() as int))
    } else {
        None
    }
}

/// `s` in ASCII lower case.
pub open spec fn lower_all(s: Seq<char>) -> Seq<char> {
    s.map_values(|c: char| lower(c))
}

/// Video files are those with the extension "mp4" or "mkv", in any case.
pub open spec fn supported(p: Seq<char>) -> bool {
    match extension_of(p) {
        Some(x) => lower_all(x) == "mp4"@ || lower_all(x) == "mkv"@,
        None => false,
    }
}

/// A freshly discovered video, not yet classified.
pub open spec fn discovered(path: String, added: i64) -> Media {
    Media::Uncategorised(
        Uncategorised {
            video: Video { path, watched: Watched::No, added, last_watched: None },
            dont_scrape: false,
        },
    )
}

/// Whether a file with this path is a video that the catalog takes.
pub fn is_video_file(path: &str) -> (r: bool)
    ensures
        r == supported(path@),
{
    let chars = chars_of(path);
    let mut start: usize = 0;
    let mut dot: usize = 0;
    let mut has_dot = false;
    let mut i: usize = 0;
    while i < chars.len()
        invariant
            chars@ == path@,
            start <= i <= chars.len(),
            file_name_of(chars@.subrange(0, i as int)) == chars@.subrange(start as int, i as int),
            has_dot ==> start <= dot < i,
            last_dot(chars@.subrange(start as int, i as int)) == if has_dot {
                dot - start
            } else {
                -1
            },
        decreases chars.len() - i,
    {
        let c = chars[i];
        assert(chars@.subrange(0, i + 1).drop_last() =~= chars@.subrange(0, i as int));
        if c == '/' || c == '\\' {
            start = i + 1;
            has_dot = false;
            assert(chars@.subrange(start as int, i + 1) =~= Seq::<char>::empty());
        } else {
            assert(chars@.subrange(start as int, i + 1).drop_last() =~= chars@.subrange(start as int, i as int));
            if c == '.' {
                dot = i;
                has_dot = true;
            }
        }
        i = i + 1;
    }
    assert(chars@.subrange(0, chars.len() as int) =~= chars@);
    let ghost name = chars@.subrange(start as int, chars.len() as int);
    assert(file_name_of(path@) == name);
    if !has_dot || dot == start {
        return false;
    }
    assert(last_dot(name) == dot - start);
    assert(extension_of(path@) == Some(name.subrange(dot - start + 1, name.len() as int)));
    proof {
        reveal_strlit("mp4");
        reveal_strlit("mkv");
        assert("mp4"@ =~= seq!['m', 'p', '4']);
        assert("mkv"@ =~= seq!['m', 'k', 'v']);
    }
    let n = chars.len() - dot - 1;
    if n != 3 {
        assert(name.subrange(dot - start + 1, name.len() as int).len() == n);
        assert(lower_all(name.subrange(dot - start + 1, name.len() as int)).len() == n);
        return false;
    }
    let a = chars[dot + 1];
    let b = chars[dot + 2];
    let c = chars[dot + 3];
    let lower_a = if 'A' <= a && a <= 'Z' { ((a as u8) + 32) as char } else { a };
    let lower_b = if 'A' <= b && b <= 'Z' { ((b as u8) + 32) as char } else { b };
    let lower_c = if 'A' <= c && c <= 'Z' { ((c as u8) + 32) as char } else { c };
    let r = lower_a == 'm' && ((lower_b == 'p' && lower_c == '4') || (lower_b == 'k' && lower_c == 'v'));
    proof {
        let x = name.subrange(dot - start + 1, name.len() as int);
        assert(x =~= seq![a, b, c]);
        let l = lower_all(x);
        assert(l =~= seq![lower_a, lower_b, lower_c]);
        if l == "mp4"@ {
            assert(l[0] == 'm' && l[1] == 'p' && l[2] == '4');
        }
        if l == "mkv"@ {
            assert(l[0] == 'm' && l[1] == 'k' && l[2] == 'v');
        }
        if r {
            if lower_b == 'p' {
                assert(l =~= "mp4"@);
            } else {
                assert(l =~= "mkv"@);
            }
        }
    }
    r
}

/// The entity for a file found by a scan: a new uncategorised video, not
/// watched, added at `added`; `None` where the file is no video.
pub fn scan_file(path: String, added: i64) -> (r: Option<Media>)
    ensures
        r == if supported(path@) {
            Some(discovered(path, added))
        } else {
            None::<Media>
        },
{
    if is_video_file(path.as_str()) {
        Some(
            Media::Uncategorised(
                Uncategorised {
                    video: Video { path, watched: Watched::No, added, last_watched: None },
                    dont_scrape: false,
                },
            ),
        )
    } else {
        None
    }
}

/// Whether the entity has a video at `path`.
pub open spec fn has_path(m: Media, path: Seq<char>) -> bool {
    match m.video_spec() {
        Some(v) => v.path@ == path,
        None => false,
    }
}

/// Whether some entity in `found` has a video at `path`.
pub open spec fn found_path(found: Seq<Media>, path: Seq<char>) -> bool {
    exists|i: int| 0 <= i < found.len() && has_path(#[trigger] found[i], path)
}

/// The entities for the files of one scan, in order: each video file once,
/// the first time its path comes.
pub open spec fn scanned(paths: Seq<String>, added: i64) -> Seq<Media>
    decreases paths.len(),
{
    if paths.len() == 0 {
        seq![]
    } else {
        let found = scanned(paths.drop_last(), added);
        let p = paths.last();
        if !found_path(found, p@) && supported(p@) {
            found.push(discovered(p, added))
        } else {
            found
        }
    }
}

/// The new entities for the files of one scan, given their normalized
/// paths in the order in which they were found: the video files, each path
/// once.
pub fn scan_paths(paths: Vec<String>, added: i64) -> (r: Vec<Media>)
    ensures
        r@ == scanned(paths@, added),
{
    let ghost all = paths@;
    let mut rest = paths;
    let mut out: Vec<Media> = Vec::new();
    while rest.len() > 0
        invariant
            rest@.len() <= all.len(),
            rest@ == all.subrange(all.len() - rest@.len(), all.len() as int),
            out@ == scanned(all.subrange(0, all.len() - rest@.len()), added),
        decreases rest.len(),
    {
        let ghost before = rest@;
        let p = rest.remove(0);
        proof {
            let done = all.subrange(0, all.len() - rest@.len());
            assert(done.drop_last() =~= all.subrange(0, all.len() - before.len()));
            assert(done.last() == before[0]);
            assert(rest@ =~= all.subrange(all.len() - rest@.len(), all.len() as int));
        }
        let mut seen = false;
        let mut i: usize = 0;
        let ghost done_before = out@;
        while i < out.len()
            invariant
                i <= out@.len(),
                seen == exists|j: int| 0 <= j < i && has_path(#[trigger] out@[j], p@),
            decreases out.len() - i,
        {
            let same = match out[i].video() {
                Some(v) => v.path == p,
                None => false,
            };
            if same {
                seen = true;
            }
            i = i + 1;
        }
        if !seen {
            if let Some(m) = scan_file(p, added) {
                out.push(m);
            }
        }
    }
    assert(all.subrange(0, all.len() as int) =~= all);
    out
}

/// The ids whose file is missing, in order.
pub open spec fn missing(probed: Seq<(MediaId, bool)>) -> Seq<MediaId>
    decreases probed.len(),
{
    if probed.len() == 0 {
        seq![]
    } else {
        let rest = missing(probed.drop_last());
        if probed.last().1 {
            rest
        } else {
            rest.push(probed.last().0)
        }
    }
}

proof fn lemma_missing_contains(probed: Seq<(MediaId, bool)>, id: MediaId)
    ensures
        missing(probed).contains(id) <==> probed.contains((id, false)),
    decreases probed.len(),
{
    if probed.len() > 0 {
        let d = probed.drop_last();
        lemma_missing_contains(d, id);
        let rest = missing(d);
        if d.contains((id, false)) {
            let k = choose|k: int| 0 <= k < d.len() && d[k] == (id, false);
            assert(probed[k] == d[k]);
        }
        if probed.contains((id, false)) {
            let k = choose|k: int| 0 <= k < probed.len() && probed[k] == (id, false);
            if k < d.len() {
                assert(d[k] == probed[k]);
            }
        }
        if !probed.last().1 {
            let r = rest.push(probed.last().0);
            if rest.contains(id) {
                let k = choose|k: int| 0 <= k < rest.len() && rest[k] == id;
                assert(r[k] == id);
            }
            if r.contains(id) {
                let k = choose|k: int| 0 <= k < r.len() && r[k] == id;
                if k < rest.len() {
                    assert(rest[k] == id);
                } else {
                    assert(probed[probed.len() - 1] == (id, false));
                }
            }
            if probed.last() == (id, false) {
                assert(r[rest.len() as int] == id);
            }
        }
    }
}

/// The ids of tracked media whose backing file was found missing, given
/// each id with whether its file exists: exactly those whose file does not.
pub fn purge_media(probed: &Vec<(MediaId, bool)>) -> (r: Vec<MediaId>)
    ensures
        r@ == missing(probed@),
        forall|id: MediaId| #[trigger] r@.contains(id) <==> probed@.contains((id, false)),
{
    let mut out: Vec<MediaId> = Vec::new();
    let mut i: usize = 0;
    while i < probed.len()
        invariant
            i <= probed@.len(),
            out@ == missing(probed@.subrange(0, i as int)),
        decreases probed.len() - i,
    {
        assert(probed@.subrange(0, i + 1).drop_last() =~= probed@.subrange(0, i as int));
        let (id, exists) = probed[i];
        if !exists {
            out.push(id);
        }
        i = i + 1;
    }
    assert(probed@.subrange(0, probed@.len() as int) =~= probed@);
    assert forall|id: MediaId| #[trigger] out@.contains(id) <==> probed@.contains((id, false)) by {
        lemma_missing_contains(probed@, id);
    }
    out
}

/// Which ids a purge reports depends on the set of answers alone, not on
/// the order in which they come.
pub proof fn purge_ignores_order(a: Seq<(MediaId, bool)>, b: Seq<(MediaId, bool)>)
    requires
        a.to_set() == b.to_set(),
    ensures
        missing(a).to_set() == missing(b).to_set(),
{
    assert forall|id: MediaId| #[trigger] missing(a).to_set().contains(id) == missing(b).to_set().contains(id) by {
        lemma_missing_contains(a, id);
        lemma_missing_contains(b, id);
        assert(a.to_set().contains((id, false)) == a.contains((id, false)));
        assert(b.to_set().contains((id, false)) == b.contains((id, false)));
        assert(missing(a).to_set().contains(id) == missing(a).contains(id));
        assert(missing(b).to_set().contains(id) == missing(b).contains(id));
    }
    assert(missing(a).to_set() =~= missing(b).to_set());
}

} // verus!
