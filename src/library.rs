use vstd::prelude::*;
use crate::collection::Collection;
use crate::ids::{CollectionId, MediaId};
use crate::media::{Media, Watched};

verus! {

/// The value stored under `k` in a list of keyed entries (the last such entry).
pub open spec fn lookup<K, V>(s: Seq<(K, V)>, k: K) -> Option<V>
    decreases s.len(),
{
    if s.len() == 0 {
        None
    } else if s.last().0 == k {
        Some(s.last().1)
    } else {
        lookup(s.drop_last(), k)
    }
}

/// No key occurs twice.
pub open spec fn unique_keys<K, V>(s: Seq<(K, V)>) -> bool {
    forall|i: int, j: int| 0 <= i < s.len() && 0 <= j < s.len() && i != j ==> s[i].0 != s[j].0
}

/// Whether some entry has the key `k`.
pub open spec fn has_key<K, V>(s: Seq<(K, V)>, k: K) -> bool {
    exists|i: int| 0 <= i < s.len() && s[i].0 == k
}

pub proof fn lemma_lookup_at<K, V>(s: Seq<(K, V)>, i: int)
    requires
        unique_keys(s),
        0 <= i < s.len(),
    ensures
        lookup(s, s[i].0) == Some(s[i].1),
    decreases s.len(),
{
    if i < s.len() - 1 {
        assert(s.drop_last()[i] == s[i]);
        lemma_lookup_at(s.drop_last(), i);
    }
}

pub proof fn lemma_lookup_absent<K, V>(s: Seq<(K, V)>, k: K)
    requires
        !has_key(s, k),
    ensures
        lookup(s, k) is None,
    decreases s.len(),
{
    if s.len() > 0 {
        assert(!has_key(s.drop_last(), k)) by {
            if has_key(s.drop_last(), k) {
                let i = choose|i: int| 0 <= i < s.drop_last().len() && s.drop_last()[i].0 == k;
                assert(s[i].0 == k);
            }
        }
        assert(s[s.len() - 1].0 != k);
        lemma_lookup_absent(s.drop_last(), k);
    }
}

/// The value of an entry under the key `k` in a list with unique keys.
pub proof fn lemma_lookup_unique<K, V>(s: Seq<(K, V)>, k: K)
    requires
        unique_keys(s),
    ensures
        lookup(s, k) is Some <==> has_key(s, k),
        forall|i: int| 0 <= i < s.len() && s[i].0 == k ==> lookup(s, k) == Some(s[i].1),
{
    if has_key(s, k) {
        let i = choose|i: int| 0 <= i < s.len() && s[i].0 == k;
        lemma_lookup_at(s, i);
    } else {
        lemma_lookup_absent(s, k);
    }
    assert forall|i: int| 0 <= i < s.len() && s[i].0 == k implies lookup(s, k) == Some(s[i].1) by {
        lemma_lookup_at(s, i);
    }
}

/// Ids strictly increasing, each below `next`.
pub open spec fn ids_below(s: Seq<(MediaId, Media)>, next: nat) -> bool {
    &&& forall|i: int, j: int| 0 <= i < j < s.len() ==> s[i].0.0 < s[j].0.0
    &&& forall|i: int| 0 <= i < s.len() ==> #[trigger] s[i].0.0 < next
}

/// Collection ids strictly increasing, each below `next`; each collection
/// well formed.
pub open spec fn collection_ids_below(s: Seq<(CollectionId, Collection)>, next: nat) -> bool {
    &&& forall|i: int, j: int| 0 <= i < j < s.len() ==> s[i].0.0 < s[j].0.0
    &&& forall|i: int| 0 <= i < s.len() ==> (#[trigger] s[i]).0.0 < next && s[i].1.wf()
}

pub proof fn lemma_increasing_unique<V>(s: Seq<(MediaId, V)>)
    requires
        forall|i: int, j: int| 0 <= i < j < s.len() ==> s[i].0.0 < s[j].0.0,
    ensures
        unique_keys(s),
{
    assert forall|i: int, j: int| 0 <= i < s.len() && 0 <= j < s.len() && i != j implies s[i].0 != s[j].0 by {
        if i < j {
            assert(s[i].0.0 < s[j].0.0);
        } else {
            assert(s[j].0.0 < s[i].0.0);
        }
    }
}

pub proof fn lemma_collection_ids_unique(s: Seq<(CollectionId, Collection)>)
    requires
        forall|i: int, j: int| 0 <= i < j < s.len() ==> s[i].0.0 < s[j].0.0,
    ensures
        unique_keys(s),
{
    assert forall|i: int, j: int| 0 <= i < s.len() && 0 <= j < s.len() && i != j implies s[i].0 != s[j].0 by {
        if i < j {
            assert(s[i].0.0 < s[j].0.0);
        } else {
            assert(s[j].0.0 < s[i].0.0);
        }
    }
}

/// The path of an entity's video, where it has one.
pub open spec fn video_path(m: Media) -> Option<Seq<char>> {
    match m.video_spec() {
        Some(v) => Some(v.path@),
        None => None,
    }
}

/// Whether some entry's video path (or absence of one) equals `p`.
pub open spec fn path_taken(s: Seq<(MediaId, Media)>, p: Option<Seq<char>>) -> bool {
    exists|i: int| 0 <= i < s.len() && video_path(#[trigger] s[i].1) == p
}

/// Entries after adding `items` in order, each under the next id, skipping
/// an item whose video path (or absence of one) is already present.
pub open spec fn extended(s: Seq<(MediaId, Media)>, next: nat, items: Seq<Media>) -> (Seq<(MediaId, Media)>, nat)
    decreases items.len(),
{
    if items.len() == 0 {
        (s, next)
    } else {
        let (s0, n0) = extended(s, next, items.drop_last());
        let m = items.last();
        if path_taken(s0, video_path(m)) {
            (s0, n0)
        } else {
            (s0.push((MediaId(n0 as usize), m)), n0 + 1)
        }
    }
}

/// Where the entry under `id` stands in `media`.
fn position_of(media: &Vec<(MediaId, Media)>, id: MediaId) -> (r: Option<usize>)
    ensures
        r matches Some(i) ==> i < media@.len() && media@[i as int].0 == id,
        r is None ==> !has_key(media@, id),
{
    let mut i: usize = 0;
    while i < media.len()
        invariant
            i <= media@.len(),
            forall|j: int| 0 <= j < i ==> media@[j].0 != id,
        decreases media.len() - i,
    {
        if media[i].0 == id {
            return Some(i);
        }
        i = i + 1;
    }
    None
}

/// The catalog: media entities and collections, each under an id that is
/// issued once.
#[derive(Debug, Clone)]
pub struct Library {
    media: Vec<(MediaId, Media)>,
    next_id: MediaId,
    collections: Vec<(CollectionId, Collection)>,
    next_collection_id: CollectionId,
}

impl Library {
    /// The entities with their ids, in increasing order of id.
    pub closed spec fn entries(self) -> Seq<(MediaId, Media)> {
        self.media@
    }

    /// The id that the next inserted entity gets.
    pub closed spec fn next_id_spec(self) -> nat {
        self.next_id.0 as nat
    }

    /// The collections with their ids, in increasing order of id.
    pub closed spec fn collection_entries(self) -> Seq<(CollectionId, Collection)> {
        self.collections@
    }

    /// The id that the next collection gets.
    pub closed spec fn next_collection_spec(self) -> nat {
        self.next_collection_id.0 as nat
    }

    pub open spec fn wf(self) -> bool {
        &&& ids_below(self.entries(), self.next_id_spec())
        &&& collection_ids_below(self.collection_entries(), self.next_collection_spec())
    }

    /// The entity under `id`.
    pub open spec fn get_spec(self, id: MediaId) -> Option<Media> {
        lookup(self.entries(), id)
    }

    /// The collection under `id`.
    pub open spec fn collection_spec(self, id: CollectionId) -> Option<Collection> {
        lookup(self.collection_entries(), id)
    }

    /// Every member of every collection names a present entity.
    pub open spec fn collections_live(self) -> bool {
        forall|i: int, id: MediaId|
            0 <= i < self.collection_entries().len() && #[trigger] self.collection_entries()[i].1.members().contains(id)
                ==> has_key(self.entries(), id)
    }

    pub proof fn lemma_wf_unique(self)
        requires
            self.wf(),
        ensures
            unique_keys(self.entries()),
            unique_keys(self.collection_entries()),
    {
        lemma_increasing_unique(self.entries());
        lemma_collection_ids_unique(self.collection_entries());
    }

    /// An empty catalog.
    pub fn new() -> (r: Library)
        ensures
            r.wf(),
            r.entries() == Seq::<(MediaId, Media)>::empty(),
            r.collection_entries() == Seq::<(CollectionId, Collection)>::empty(),
            r.next_id_spec() == 1,
            r.next_collection_spec() == 1,
    {
        Library {
            media: Vec::new(),
            next_id: MediaId(1),
            collections: Vec::new(),
            next_collection_id: CollectionId(1),
        }
    }

    /// A catalog made of stored parts: the entities and collections with
    /// their ids, in increasing order of id, and the next ids to issue.
    /// `None` where the ids are out of order or not below the next ones.
    pub fn from_parts(
        media: Vec<(MediaId, Media)>,
        next_id: MediaId,
        collections: Vec<(CollectionId, Collection)>,
        next_collection_id: CollectionId,
    ) -> (r: Option<Library>)
        requires
            forall|i: int| 0 <= i < collections@.len() ==> (#[trigger] collections@[i]).1.wf(),
        ensures
            r matches Some(l) ==> l.wf() && l.entries() == media@ && l.collection_entries() == collections@
                && l.next_id_spec() == next_id.0 && l.next_collection_spec() == next_collection_id.0,
            r is None <==> !(ids_below(media@, next_id.0 as nat) && collection_ids_below(collections@, next_collection_id.0 as nat)),
    {
        let mut i: usize = 0;
        while i < media.len()
            invariant
                i <= media@.len(),
                forall|a: int, b: int| 0 <= a < b < i ==> media@[a].0.0 < media@[b].0.0,
                forall|a: int| 0 <= a < i ==> #[trigger] media@[a].0.0 < next_id.0,
            decreases media.len() - i,
        {
            if media[i].0.0 >= next_id.0 || (i > 0 && media[i - 1].0.0 >= media[i].0.0) {
                return None;
            }
            i = i + 1;
        }
        let mut j: usize = 0;
        while j < collections.len()
            invariant
                j <= collections@.len(),
                forall|i: int| 0 <= i < collections@.len() ==> (#[trigger] collections@[i]).1.wf(),
                forall|a: int, b: int| 0 <= a < b < j ==> collections@[a].0.0 < collections@[b].0.0,
                forall|a: int| 0 <= a < j ==> (#[trigger] collections@[a]).0.0 < next_collection_id.0,
            decreases collections.len() - j,
        {
            if collections[j].0.0 >= next_collection_id.0 || (j > 0 && collections[j - 1].0.0 >= collections[j].0.0) {
                return None;
            }
            j = j + 1;
        }
        Some(Library { media, next_id, collections, next_collection_id })
    }

    /// The id that the next inserted entity gets.
    pub fn next_id(&self) -> (r: MediaId)
        ensures
            r.0 == self.next_id_spec(),
    {
        self.next_id
    }

    /// The id that the next collection gets.
    pub fn next_collection_id(&self) -> (r: CollectionId)
        ensures
            r.0 == self.next_collection_spec(),
    {
        self.next_collection_id
    }

    /// Whether another id can be issued.
    pub fn has_room(&self) -> (r: bool)
        ensures
            r == (self.next_id_spec() < usize::MAX),
    {
        self.next_id.0 < usize::MAX
    }

    fn generate_id(&mut self) -> (r: MediaId)
        requires
            old(self).next_id_spec() < usize::MAX,
        ensures
            r.0 == old(self).next_id_spec(),
            final(self).next_id_spec() == old(self).next_id_spec() + 1,
            final(self).entries() == old(self).entries(),
            final(self).collection_entries() == old(self).collection_entries(),
            final(self).next_collection_spec() == old(self).next_collection_spec(),
    {
        let id = self.next_id;
        self.next_id = MediaId(self.next_id.0 + 1);
        id
    }

    /// Adds `media` under a fresh id, which it returns.
    pub fn insert(&mut self, media: Media) -> (r: MediaId)
        requires
            old(self).wf(),
            old(self).next_id_spec() < usize::MAX,
        ensures
            final(self).wf(),
            r.0 == old(self).next_id_spec(),
            !has_key(old(self).entries(), r),
            final(self).entries() == old(self).entries().push((r, media)),
            final(self).next_id_spec() == old(self).next_id_spec() + 1,
            final(self).collection_entries() == old(self).collection_entries(),
            final(self).next_collection_spec() == old(self).next_collection_spec(),
    {
        let id = self.generate_id();
        self.media.push((id, media));
        assert(!has_key(old(self).entries(), id)) by {
            if has_key(old(self).entries(), id) {
                let i = choose|i: int| 0 <= i < old(self).entries().len() && old(self).entries()[i].0 == id;
                assert(old(self).entries()[i].0.0 < old(self).next_id_spec());
            }
        }
        id
    }

    /// Whether an entity with the same video path, or like `media` without a
    /// video, is present.
    fn path_present(&self, media: &Media) -> (r: bool)
        ensures
            r == path_taken(self.entries(), video_path(*media)),
    {
        let path = match media.video() {
            Some(v) => Some(&v.path),
            None => None,
        };
        let mut i: usize = 0;
        while i < self.media.len()
            invariant
                i <= self.media@.len(),
                path == match media.video_spec() {
                    Some(v) => Some(&v.path),
                    None => None::<&String>,
                },
                forall|j: int| 0 <= j < i ==> video_path(#[trigger] self.media@[j].1) != video_path(*media),
            decreases self.media.len() - i,
        {
            let other = match self.media[i].1.video() {
                Some(v) => Some(&v.path),
                None => None,
            };
            let same = match (other, path) {
                (Some(a), Some(b)) => *a == *b,
                (None, None) => true,
                _ => false,
            };
            if same {
                assert(video_path(self.media@[i as int].1) == video_path(*media));
                return true;
            }
            i = i + 1;
        }
        false
    }

    /// Adds each of `media` under a fresh id, in order, and drops one whose
    /// video path is already present (a series or season where any entity
    /// without a video is).
    pub fn extend(&mut self, media: Vec<Media>)
        requires
            old(self).wf(),
            old(self).next_id_spec() + media@.len() <= usize::MAX,
        ensures
            final(self).wf(),
            (final(self).entries(), final(self).next_id_spec()) == extended(
                old(self).entries(),
                old(self).next_id_spec(),
                media@,
            ),
            final(self).collection_entries() == old(self).collection_entries(),
            final(self).next_collection_spec() == old(self).next_collection_spec(),
    {
        let mut items = media;
        let ghost all = items@;
        let ghost total = all.len();
        while items.len() > 0
            invariant
                self.wf(),
                total == all.len(),
                items@.len() <= total,
                items@ == all.subrange(total - items@.len(), total as int),
                self.next_id_spec() + items@.len() <= usize::MAX,
                (self.entries(), self.next_id_spec()) == extended(
                    old(self).entries(),
                    old(self).next_id_spec(),
                    all.subrange(0, total - items@.len()),
                ),
                self.collection_entries() == old(self).collection_entries(),
                self.next_collection_spec() == old(self).next_collection_spec(),
            decreases items.len(),
        {
            let ghost before = items@;
            let m = items.remove(0);
            proof {
                let done = all.subrange(0, total - items@.len());
                assert(done.drop_last() =~= all.subrange(0, total - before.len()));
                assert(done.last() == all[total - before.len()]);
                assert(before[0] == all[total - before.len()]);
                assert(items@ =~= all.subrange(total - items@.len(), total as int));
            }
            if !self.path_present(&m) {
                self.insert(m);
            }
        }
        assert(all.subrange(0, total as int) =~= all);
    }

    /// Takes out the entity under `id` and returns it.
    pub fn remove(&mut self, id: MediaId) -> (r: Option<Media>)
        requires
            old(self).wf(),
        ensures
            final(self).wf(),
            r == old(self).get_spec(id),
            final(self).get_spec(id) is None,
            forall|k: MediaId| k != id ==> #[trigger] final(self).get_spec(k) == old(self).get_spec(k),
            forall|k: MediaId| has_key(final(self).entries(), k) <==> #[trigger] has_key(old(self).entries(), k) && k != id,
            final(self).entries().len() <= old(self).entries().len(),
            final(self).next_id_spec() == old(self).next_id_spec(),
            final(self).collection_entries() == old(self).collection_entries(),
            final(self).next_collection_spec() == old(self).next_collection_spec(),
    {
        proof {
            self.lemma_wf_unique();
            lemma_lookup_unique(self.media@, id);
        }
        match self.index_of(id) {
            None => {
                assert forall|k: MediaId| k != id implies has_key(final(self).entries(), k) == #[trigger] has_key(old(self).entries(), k) by {}
                None
            },
            Some(i) => {
                let ghost s = self.media@;
                let (_, m) = self.media.remove(i);
                let ghost t = self.media@;
                proof {
                    assert(t =~= s.remove(i as int));
                    assert forall|a: int, b: int| 0 <= a < b < t.len() implies t[a].0.0 < t[b].0.0 by {
                        let a1 = if a < i { a } else { a + 1 };
                        let b1 = if b < i { b } else { b + 1 };
                        assert(t[a] == s[a1] && t[b] == s[b1]);
                    }
                    assert forall|a: int| 0 <= a < t.len() implies #[trigger] t[a].0.0 < self.next_id.0 by {
                        let a1 = if a < i { a } else { a + 1 };
                        assert(t[a] == s[a1]);
                    }
                    lemma_increasing_unique(t);
                    assert forall|k: MediaId| #[trigger] has_key(t, k) <==> has_key(s, k) && k != id by {
                        if has_key(t, k) {
                            let a = choose|a: int| 0 <= a < t.len() && t[a].0 == k;
                            let a1 = if a < i { a } else { a + 1 };
                            assert(t[a] == s[a1]);
                            assert(a1 != i);
                        }
                        if has_key(s, k) && k != id {
                            let a = choose|a: int| 0 <= a < s.len() && s[a].0 == k;
                            if a < i {
                                assert(t[a] == s[a]);
                            } else {
                                assert(a != i);
                                assert(t[a - 1] == s[a]);
                            }
                        }
                    }
                    assert forall|k: MediaId| k != id implies #[trigger] lookup(t, k) == lookup(s, k) by {
                        lemma_lookup_unique(s, k);
                        lemma_lookup_unique(t, k);
                        if has_key(s, k) {
                            let a = choose|a: int| 0 <= a < s.len() && s[a].0 == k;
                            let a1 = if a < i { a } else { a - 1 };
                            assert(t[a1] == s[a]);
                        }
                    }
                    lemma_lookup_unique(t, id);
                }
                Some(m)
            },
        }
    }

    /// Where the entity under `id` stands.
    pub(crate) fn position(&self, id: MediaId) -> (r: Option<usize>)
        ensures
            r matches Some(i) ==> i < self.entries().len() && self.entries()[i as int].0 == id,
            r is None ==> !has_key(self.entries(), id),
    {
        position_of(&self.media, id)
    }

    /// Where the entity under `id` stands.
    fn index_of(&self, id: MediaId) -> (r: Option<usize>)
        ensures
            r matches Some(i) ==> i < self.entries().len() && self.entries()[i as int].0 == id,
            r is None ==> !has_key(self.entries(), id),
    {
        position_of(&self.media, id)
    }

    /// Where the collection under `id` stands.
    fn collection_index(&self, id: CollectionId) -> (r: Option<usize>)
        ensures
            r matches Some(i) ==> i < self.collection_entries().len()
                && self.collection_entries()[i as int].0 == id,
            r is None ==> !has_key(self.collection_entries(), id),
    {
        let mut i: usize = 0;
        while i < self.collections.len()
            invariant
                i <= self.collections@.len(),
                forall|j: int| 0 <= j < i ==> self.collections@[j].0 != id,
            decreases self.collections.len() - i,
        {
            if self.collections[i].0 == id {
                return Some(i);
            }
            i = i + 1;
        }
        None
    }

    /// Adds an empty collection under a fresh id, which it returns.
    pub fn insert_collection(&mut self) -> (r: CollectionId)
        requires
            old(self).wf(),
            old(self).next_collection_spec() < usize::MAX,
        ensures
            final(self).wf(),
            r.0 == old(self).next_collection_spec(),
            !has_key(old(self).collection_entries(), r),
            final(self).collection_entries().len() == old(self).collection_entries().len() + 1,
            final(self).collection_entries().drop_last() == old(self).collection_entries(),
            final(self).collection_entries().last().0 == r,
            final(self).collection_entries().last().1.members() == Set::<MediaId>::empty(),
            final(self).collection_entries().last().1.name_spec() == "Untitled Collection"@,
            final(self).next_collection_spec() == old(self).next_collection_spec() + 1,
            final(self).entries() == old(self).entries(),
            final(self).next_id_spec() == old(self).next_id_spec(),
    {
        let id = self.next_collection_id;
        self.next_collection_id = CollectionId(id.0 + 1);
        self.collections.push((id, Collection::new()));
        assert(self.collections@.drop_last() =~= old(self).collections@);
        assert(!has_key(old(self).collection_entries(), id)) by {
            if has_key(old(self).collection_entries(), id) {
                let i = choose|i: int| 0 <= i < old(self).collections@.len() && old(self).collections@[i].0 == id;
                assert(old(self).collections@[i].0.0 < old(self).next_collection_spec());
            }
        }
        id
    }

    /// Deletes the collection under `id`; true where there was one.
    pub fn remove_collection(&mut self, id: CollectionId) -> (r: bool)
        requires
            old(self).wf(),
        ensures
            final(self).wf(),
            r == has_key(old(self).collection_entries(), id),
            !has_key(final(self).collection_entries(), id),
            forall|k: CollectionId| k != id ==> #[trigger] final(self).collection_spec(k) == old(self).collection_spec(k),
            final(self).entries() == old(self).entries(),
            final(self).next_id_spec() == old(self).next_id_spec(),
            final(self).next_collection_spec() == old(self).next_collection_spec(),
    {
        proof {
            self.lemma_wf_unique();
        }
        match self.collection_index(id) {
            None => {
                false
            },
            Some(i) => {
                let ghost s = self.collections@;
                self.collections.remove(i);
                let ghost t = self.collections@;
                proof {
                    assert(t =~= s.remove(i as int));
                    assert forall|a: int, b: int| 0 <= a < b < t.len() implies t[a].0.0 < t[b].0.0 by {
                        let a1 = if a < i { a } else { a + 1 };
                        let b1 = if b < i { b } else { b + 1 };
                        assert(t[a] == s[a1] && t[b] == s[b1]);
                    }
                    assert forall|a: int| 0 <= a < t.len() implies #[trigger] t[a].0.0 < self.next_collection_id.0 && t[a].1.wf() by {
                        let a1 = if a < i { a } else { a + 1 };
                        assert(t[a] == s[a1]);
                    }
                    lemma_collection_ids_unique(t);
                    assert(!has_key(t, id)) by {
                        if has_key(t, id) {
                            let a = choose|a: int| 0 <= a < t.len() && t[a].0 == id;
                            let a1 = if a < i { a } else { a + 1 };
                            assert(t[a] == s[a1]);
                        }
                    }
                    assert forall|k: CollectionId| k != id implies #[trigger] lookup(t, k) == lookup(s, k) by {
                        lemma_lookup_unique(s, k);
                        lemma_lookup_unique(t, k);
                        if has_key(s, k) {
                            let a = choose|a: int| 0 <= a < s.len() && s[a].0 == k;
                            let a1 = if a < i { a } else { a - 1 };
                            assert(t[a1] == s[a]);
                        }
                        if has_key(t, k) {
                            let a = choose|a: int| 0 <= a < t.len() && t[a].0 == k;
                            let a1 = if a < i { a } else { a + 1 };
                            assert(t[a] == s[a1]);
                        }
                    }
                }
                true
            },
        }
    }

    /// The collections with their ids, in increasing order of id.
    pub fn iter_collections(&self) -> (r: &Vec<(CollectionId, Collection)>)
        ensures
            r@ == self.collection_entries(),
    {
        &self.collections
    }

    /// The collection under `id`.
    pub fn collection(&self, id: CollectionId) -> (r: Option<&Collection>)
        requires
            self.wf(),
        ensures
            r matches Some(c) ==> self.collection_spec(id) == Some(*c),
            r is None ==> self.collection_spec(id) is None,
    {
        proof {
            self.lemma_wf_unique();
            lemma_lookup_unique(self.collections@, id);
        }
        match self.collection_index(id) {
            Some(i) => Some(&self.collections[i].1),
            None => None,
        }
    }

    /// The collection under `id`, to change in place; its id stays. The
    /// catalog stays well formed where the collection does.
    pub fn collection_mut(&mut self, id: CollectionId) -> (r: Option<&mut Collection>)
        requires
            old(self).wf(),
        ensures
            r is None <==> old(self).collection_spec(id) is None,
            r is None ==> *final(self) == *old(self),
            r matches Some(c) ==> old(self).collection_spec(id) == Some(*c) && c.wf() && exists|i: int|
                0 <= i < old(self).collection_entries().len() && old(self).collection_entries()[i].0 == id
                    && final(self).collection_entries() == old(self).collection_entries().update(i, (id, *final(c))),
            r matches Some(c) ==> (final(c).wf() ==> final(self).wf()),
            final(self).entries() == old(self).entries(),
            final(self).next_id_spec() == old(self).next_id_spec(),
            final(self).next_collection_spec() == old(self).next_collection_spec(),
    {
        proof {
            self.lemma_wf_unique();
            lemma_lookup_unique(self.collections@, id);
        }
        match self.collection_index(id) {
            None => None,
            Some(i) => {
                assert(self.collections@[i as int].1.wf());
                Some(&mut self.collections[i].1)
            },
        }
    }

    /// The members of the collection under `id` that name a present entity.
    pub fn collection_iter(&self, id: CollectionId) -> (r: Option<Vec<MediaId>>)
        requires
            self.wf(),
        ensures
            r is None <==> self.collection_spec(id) is None,
            r matches Some(v) ==> v@.no_duplicates() && forall|m: MediaId| #[trigger] v@.contains(m) <==> (
                self.collection_spec(id).unwrap().members().contains(m) && has_key(self.entries(), m)),
    {
        match self.collection(id) {
            None => None,
            Some(c) => {
                proof {
                    lemma_collection_ids_unique(self.collections@);
                    lemma_lookup_unique(self.collections@, id);
                    let k = choose|k: int| 0 <= k < self.collections@.len() && self.collections@[k].0 == id;
                    assert(self.collections@[k].1.wf());
                }
                let members = c.iter();
                let mut out: Vec<MediaId> = Vec::new();
                let mut i: usize = 0;
                while i < members.len()
                    invariant
                        i <= members@.len(),
                        members@.no_duplicates(),
                        out@.no_duplicates(),
                        forall|m: MediaId| #[trigger] out@.contains(m) <==> (members@.subrange(0, i as int).contains(m)
                            && has_key(self.entries(), m)),
                    decreases members.len() - i,
                {
                    let m = members[i];
                    let ghost pre = members@.subrange(0, i as int);
                    let ghost before = out@;
                    assert(members@.subrange(0, i + 1) =~= pre.push(m));
                    assert(!pre.contains(m)) by {
                        if pre.contains(m) {
                            let k = choose|k: int| 0 <= k < pre.len() && pre[k] == m;
                            assert(members@[k] == members@[i as int]);
                        }
                    }
                    assert(!before.contains(m));
                    if self.index_of(m).is_some() {
                        out.push(m);
                        proof {
                            assert forall|a: int, b: int| 0 <= a < out@.len() && 0 <= b < out@.len() && a != b implies out@[a] != out@[b] by {
                                if a == before.len() {
                                    assert(before[b] == out@[b]);
                                } else if b == before.len() {
                                    assert(before[a] == out@[a]);
                                } else {
                                    assert(before[a] == out@[a] && before[b] == out@[b]);
                                }
                            }
                        }
                    }
                    proof {
                        assert forall|x: MediaId| #[trigger] pre.push(m).contains(x) <==> pre.contains(x) || x == m by {
                            if x == m {
                                assert(pre.push(m)[pre.len() as int] == m);
                            }
                            if pre.contains(x) {
                                let k = choose|k: int| 0 <= k < pre.len() && pre[k] == x;
                                assert(pre.push(m)[k] == x);
                            }
                        }
                        assert forall|x: MediaId| #[trigger] out@.contains(x) <==> before.contains(x) || (out@.len() > before.len() && x == m) by {
                            if out@.len() > before.len() {
                                if x == m {
                                    assert(out@[before.len() as int] == m);
                                }
                                if before.contains(x) {
                                    let k = choose|k: int| 0 <= k < before.len() && before[k] == x;
                                    assert(out@[k] == x);
                                }
                                if out@.contains(x) {
                                    let k = choose|k: int| 0 <= k < out@.len() && out@[k] == x;
                                    if k < before.len() {
                                        assert(before[k] == x);
                                    }
                                }
                            }
                        }
                    }
                    i = i + 1;
                }
                assert(members@.subrange(0, members@.len() as int) =~= members@);
                Some(out)
            },
        }
    }

    /// Drops from every collection the members that name no present entity.
    pub fn purge_collections(&mut self)
        requires
            old(self).wf(),
        ensures
            final(self).wf(),
            final(self).collections_live(),
            final(self).collection_entries().len() == old(self).collection_entries().len(),
            forall|i: int| 0 <= i < final(self).collection_entries().len() ==> {
                let (k, c) = #[trigger] final(self).collection_entries()[i];
                let (k0, c0) = old(self).collection_entries()[i];
                &&& k == k0
                &&& c.name_spec() == c0.name_spec()
                &&& forall|m: MediaId| #[trigger] c.members().contains(m) <==> c0.members().contains(m) && has_key(old(self).entries(), m)
            },
            final(self).entries() == old(self).entries(),
            final(self).next_id_spec() == old(self).next_id_spec(),
            final(self).next_collection_spec() == old(self).next_collection_spec(),
    {
        let mut i: usize = 0;
        while i < self.collections.len()
            invariant
                self.wf(),
                i <= self.collections@.len(),
                self.collections@.len() == old(self).collections@.len(),
                self.media == old(self).media,
                self.next_id == old(self).next_id,
                self.next_collection_id == old(self).next_collection_id,
                forall|j: int| i <= j < self.collections@.len() ==> #[trigger] self.collections@[j] == old(self).collections@[j],
                forall|j: int| 0 <= j < i ==> {
                    let (k, c) = #[trigger] self.collections@[j];
                    let (k0, c0) = old(self).collections@[j];
                    &&& k == k0
                    &&& c.name_spec() == c0.name_spec()
                    &&& forall|m: MediaId| #[trigger] c.members().contains(m) <==> c0.members().contains(m) && has_key(self.media@, m)
                },
            decreases self.collections.len() - i,
        {
            let ghost s = self.collections@;
            let (id, mut c) = self.collections.remove(i);
            assert(s[i as int].1.wf());
            let media = &self.media;
            c.purge_by(|m: MediaId| -> (r: bool)
                ensures
                    r == has_key(media@, m),
                { position_of(media, m).is_some() });
            self.collections.insert(i, (id, c));
            proof {
                let t = self.collections@;
                assert(t =~= s.update(i as int, (id, c)));
                assert forall|a: int, b: int| 0 <= a < b < t.len() implies t[a].0.0 < t[b].0.0 by {
                    assert(t[a].0 == s[a].0 && t[b].0 == s[b].0);
                }
                assert forall|a: int| 0 <= a < t.len() implies #[trigger] t[a].0.0 < self.next_collection_id.0 && t[a].1.wf() by {
                    assert(t[a].0 == s[a].0);
                }
                assert forall|m: MediaId| #[trigger] c.members().contains(m) <==> s[i as int].1.members().contains(m) && has_key(self.media@, m) by {
                    if s[i as int].1.members().contains(m) && !c.members().contains(m) {
                        assert(!has_key(self.media@, m));
                    }
                }
            }
            i = i + 1;
        }
        assert forall|j: int, m: MediaId|
            0 <= j < self.collection_entries().len() && #[trigger] self.collection_entries()[j].1.members().contains(m)
                implies has_key(self.entries(), m) by {
            let (k, c) = self.collections@[j];
            assert(c.members().contains(m));
        }
    }

    /// Renames the collection under `id`; true where there is one.
    pub fn rename_collection(&mut self, id: CollectionId, name: String) -> (r: bool)
        requires
            old(self).wf(),
        ensures
            final(self).wf(),
            r == has_key(old(self).collection_entries(), id),
            final(self).collection_entries().len() == old(self).collection_entries().len(),
            forall|i: int| 0 <= i < final(self).collection_entries().len() ==> {
                let (k, c) = #[trigger] final(self).collection_entries()[i];
                let (k0, c0) = old(self).collection_entries()[i];
                &&& k == k0
                &&& c.members() == c0.members()
                &&& c.name_spec() == if k == id { name@ } else { c0.name_spec() }
            },
            final(self).entries() == old(self).entries(),
            final(self).next_id_spec() == old(self).next_id_spec(),
            final(self).next_collection_spec() == old(self).next_collection_spec(),
    {
        proof {
            self.lemma_wf_unique();
        }
        match self.collection_index(id) {
            None => false,
            Some(i) => {
                let ghost s = self.collections@;
                let (k, mut c) = self.collections.remove(i);
                c.set_name(name);
                self.collections.insert(i, (k, c));
                proof {
                    let t = self.collections@;
                    assert(t =~= s.update(i as int, (k, c)));
                    assert forall|a: int, b: int| 0 <= a < b < t.len() implies t[a].0.0 < t[b].0.0 by {
                        assert(t[a].0 == s[a].0 && t[b].0 == s[b].0);
                    }
                    assert forall|a: int| 0 <= a < t.len() implies #[trigger] t[a].0.0 < self.next_collection_id.0 && t[a].1.wf() by {
                        assert(t[a].0 == s[a].0);
                    }
                }
                true
            },
        }
    }

    /// Adds `media` to the collection under `id`, or takes it out where it is
    /// a member. Nothing changes where either is absent. Returns whether
    /// `media` is a member afterwards.
    pub fn toggle_collection_member(&mut self, id: CollectionId, media: MediaId) -> (r: bool)
        requires
            old(self).wf(),
        ensures
            final(self).wf(),
            final(self).collection_entries().len() == old(self).collection_entries().len(),
            forall|i: int| 0 <= i < final(self).collection_entries().len() ==> {
                let (k, c) = #[trigger] final(self).collection_entries()[i];
                let (k0, c0) = old(self).collection_entries()[i];
                &&& k == k0
                &&& c.name_spec() == c0.name_spec()
                &&& c.members() == if k != id || !has_key(old(self).entries(), media) {
                    c0.members()
                } else if c0.members().contains(media) {
                    c0.members().remove(media)
                } else {
                    c0.members().insert(media)
                }
            },
            r == match old(self).collection_spec(id) {
                Some(c0) => has_key(old(self).entries(), media) != c0.members().contains(media),
                None => false,
            },
            final(self).entries() == old(self).entries(),
            final(self).next_id_spec() == old(self).next_id_spec(),
            final(self).next_collection_spec() == old(self).next_collection_spec(),
    {
        proof {
            self.lemma_wf_unique();
            lemma_lookup_unique(self.collections@, id);
        }
        let present = self.index_of(media).is_some();
        match self.collection_index(id) {
            None => false,
            Some(i) => {
                let ghost s = self.collections@;
                let (k, mut c) = self.collections.remove(i);
                assert(s[i as int].1.wf());
                let member = if present {
                    if c.contains(media) {
                        c.remove(media);
                        false
                    } else {
                        c.insert(media);
                        true
                    }
                } else {
                    c.contains(media)
                };
                self.collections.insert(i, (k, c));
                proof {
                    let t = self.collections@;
                    assert(t =~= s.update(i as int, (k, c)));
                    assert forall|a: int, b: int| 0 <= a < b < t.len() implies t[a].0.0 < t[b].0.0 by {
                        assert(t[a].0 == s[a].0 && t[b].0 == s[b].0);
                    }
                    assert forall|a: int| 0 <= a < t.len() implies #[trigger] t[a].0.0 < self.next_collection_id.0 && t[a].1.wf() by {
                        assert(t[a].0 == s[a].0);
                    }
                    assert forall|a: int| 0 <= a < t.len() && a != i implies t[a].0 != id by {}
                }
                member
            },
        }
    }

    /// The entities with their ids, in increasing order of id.
    pub fn iter(&self) -> (r: &Vec<(MediaId, Media)>)
        ensures
            r@ == self.entries(),
    {
        &self.media
    }

    /// The entity under `id`.
    pub fn get(&self, id: MediaId) -> (r: Option<&Media>)
        requires
            self.wf(),
        ensures
            r matches Some(m) ==> self.get_spec(id) == Some(*m),
            r is None ==> self.get_spec(id) is None,
    {
        proof {
            self.lemma_wf_unique();
            lemma_lookup_unique(self.media@, id);
        }
        match self.index_of(id) {
            Some(i) => Some(&self.media[i].1),
            None => None,
        }
    }

    /// The entity under `id`, to change in place; its id stays.
    pub fn get_mut(&mut self, id: MediaId) -> (r: Option<&mut Media>)
        requires
            old(self).wf(),
        ensures
            r is None <==> old(self).get_spec(id) is None,
            r is None ==> *final(self) == *old(self),
            r matches Some(m) ==> old(self).get_spec(id) == Some(*m) && exists|i: int|
                0 <= i < old(self).entries().len() && old(self).entries()[i].0 == id && final(self).entries()
                    == old(self).entries().update(i, (id, *final(m))),
            final(self).wf(),
            final(self).next_id_spec() == old(self).next_id_spec(),
            final(self).collection_entries() == old(self).collection_entries(),
            final(self).next_collection_spec() == old(self).next_collection_spec(),
    {
        proof {
            self.lemma_wf_unique();
            lemma_lookup_unique(self.media@, id);
        }
        match self.index_of(id) {
            None => None,
            Some(i) => Some(&mut self.media[i].1),
        }
    }

    /// Replaces the entity at position `i`, keeping its id.
    pub(crate) fn replace_at(&mut self, i: usize, media: Media)
        requires
            old(self).wf(),
            i < old(self).entries().len(),
        ensures
            final(self).wf(),
            final(self).entries() == old(self).entries().update(i as int, (old(self).entries()[i as int].0, media)),
            final(self).next_id_spec() == old(self).next_id_spec(),
            final(self).collection_entries() == old(self).collection_entries(),
            final(self).next_collection_spec() == old(self).next_collection_spec(),
    {
        let id = self.media[i].0;
        self.media.set(i, (id, media));
        proof {
            let s = old(self).media@;
            let t = self.media@;
            assert forall|a: int, b: int| 0 <= a < b < t.len() implies t[a].0.0 < t[b].0.0 by {
                assert(t[a].0 == s[a].0 && t[b].0 == s[b].0);
            }
            assert forall|a: int| 0 <= a < t.len() implies #[trigger] t[a].0.0 < self.next_id.0 by {
                assert(t[a].0 == s[a].0);
            }
        }
    }

    /// Sets the watched state of the leaf entity at position `i`.
    pub(crate) fn set_watched_at(&mut self, i: usize, w: Watched)
        requires
            old(self).wf(),
            i < old(self).entries().len(),
        ensures
            final(self).wf(),
            final(self).entries() == old(self).entries().update(
                i as int,
                (old(self).entries()[i as int].0, old(self).entries()[i as int].1.with_watched(w)),
            ),
            final(self).next_id_spec() == old(self).next_id_spec(),
            final(self).collection_entries() == old(self).collection_entries(),
            final(self).next_collection_spec() == old(self).next_collection_spec(),
    {
        let ghost s = self.media@;
        let (id, mut m) = self.media.remove(i);
        m.set_video_watched(w);
        self.media.insert(i, (id, m));
        proof {
            let t = self.media@;
            assert(t =~= s.update(i as int, (s[i as int].0, s[i as int].1.with_watched(w))));
            assert forall|a: int, b: int| 0 <= a < b < t.len() implies t[a].0.0 < t[b].0.0 by {
                assert(t[a].0 == s[a].0 && t[b].0 == s[b].0);
            }
            assert forall|a: int| 0 <= a < t.len() implies #[trigger] t[a].0.0 < self.next_id.0 by {
                assert(t[a].0 == s[a].0);
            }
        }
    }
}

} // verus!
