use vstd::prelude::*;
use crate::ids::MediaId;

verus! {

/// A named, user-defined set of media ids.
#[derive(Debug, Clone)]
pub struct Collection {
    name: String,
    media: Vec<MediaId>,
}

impl Collection {
    /// The ids held, without repetition.
    pub closed spec fn members(self) -> Set<MediaId> {
        self.media@.to_set()
    }

    pub closed spec fn name_spec(self) -> Seq<char> {
        self.name@
    }

    pub closed spec fn wf(self) -> bool {
        self.media@.no_duplicates()
    }

    /// An empty collection named "Untitled Collection".
    pub fn new() -> (r: Collection)
        ensures
            r.wf(),
            r.members() == Set::<MediaId>::empty(),
            r.name_spec() == "Untitled Collection"@,
    {
        let r = Collection { name: String::from_str("Untitled Collection"), media: Vec::new() };
        assert(r.media@.to_set() =~= Set::<MediaId>::empty());
        r
    }

    /// A collection named `name` holding `members`, each once.
    pub fn from_parts(name: String, members: Vec<MediaId>) -> (r: Collection)
        ensures
            r.wf(),
            r.name_spec() == name@,
            r.members() == members@.to_set(),
    {
        let mut c = Collection { name, media: Vec::new() };
        assert(c.media@.to_set() =~= Set::<MediaId>::empty());
        let mut i: usize = 0;
        while i < members.len()
            invariant
                i <= members@.len(),
                c.wf(),
                c.name_spec() == name@,
                c.members() == members@.subrange(0, i as int).to_set(),
            decreases members.len() - i,
        {
            c.insert(members[i]);
            assert(members@.subrange(0, i + 1).to_set() =~= members@.subrange(0, i as int).to_set().insert(members@[i as int])) by {
                assert forall|x: MediaId| #[trigger] members@.subrange(0, i + 1).contains(x) <==> members@.subrange(0, i as int).contains(x) || x == members@[i as int] by {
                    let a = members@.subrange(0, i + 1);
                    let b = members@.subrange(0, i as int);
                    if x == members@[i as int] {
                        assert(a[i as int] == x);
                    }
                    if b.contains(x) {
                        let k = choose|k: int| 0 <= k < b.len() && b[k] == x;
                        assert(a[k] == x);
                    }
                    if a.contains(x) {
                        let k = choose|k: int| 0 <= k < a.len() && a[k] == x;
                        if k < i {
                            assert(b[k] == x);
                        }
                    }
                }
            }
            i = i + 1;
        }
        assert(members@.subrange(0, members@.len() as int) =~= members@);
        c
    }

    pub fn name(&self) -> (r: &str)
        ensures
            r@ == self.name_spec(),
    {
        self.name.as_str()
    }

    pub fn set_name(&mut self, name: String)
        ensures
            final(self).name_spec() == name@,
            final(self).members() == old(self).members(),
            final(self).wf() == old(self).wf(),
    {
        self.name = name;
    }

    /// Keeps the members for which `f` holds.
    pub fn purge_by<F: Fn(MediaId) -> bool>(&mut self, f: F)
        requires
            old(self).wf(),
            forall|id: MediaId| f.requires((id,)),
        ensures
            final(self).wf(),
            final(self).name_spec() == old(self).name_spec(),
            forall|id: MediaId| #[trigger]
                final(self).members().contains(id) ==> old(self).members().contains(id)
                    && f.ensures((id,), true),
            forall|id: MediaId| #[trigger]
                old(self).members().contains(id) && !final(self).members().contains(id) ==> f.ensures(
                    (id,),
                    false,
                ),
    {
        let mut kept: Vec<MediaId> = Vec::new();
        let mut i: usize = 0;
        while i < self.media.len()
            invariant
                i <= self.media@.len(),
                self.media@.no_duplicates(),
                forall|id: MediaId| f.requires((id,)),
                kept@.no_duplicates(),
                forall|id: MediaId| #[trigger]
                    kept@.contains(id) ==> self.media@.subrange(0, i as int).contains(id) && f.ensures(
                        (id,),
                        true,
                    ),
                forall|id: MediaId| #[trigger]
                    self.media@.subrange(0, i as int).contains(id) && !kept@.contains(id)
                        ==> f.ensures((id,), false),
            decreases self.media.len() - i,
        {
            let id = self.media[i];
            let keep = f(id);
            let ghost before = kept@;
            let ghost pre = self.media@.subrange(0, i as int);
            assert(self.media@.subrange(0, i + 1) =~= pre.push(id));
            proof {
                assert(!pre.contains(id)) by {
                    if pre.contains(id) {
                        let k = choose|k: int| 0 <= k < pre.len() && pre[k] == id;
                        assert(self.media@[k] == self.media@[i as int]);
                    }
                }
            }
            if keep {
                kept.push(id);
                proof {
                    assert(!before.contains(id));
                    assert forall|a: int, b: int| 0 <= a < kept@.len() && 0 <= b < kept@.len() && a != b implies kept@[a] != kept@[b] by {
                        if a == before.len() {
                            assert(before[b] == kept@[b]);
                        } else if b == before.len() {
                            assert(before[a] == kept@[a]);
                        } else {
                            assert(before[a] == kept@[a] && before[b] == kept@[b]);
                        }
                    }
                }
            }
            proof {
                assert forall|x: MediaId| #[trigger] pre.push(id).contains(x) <==> pre.contains(x) || x == id by {
                    if x == id {
                        assert(pre.push(id)[pre.len() as int] == id);
                    }
                    if pre.contains(x) {
                        let k = choose|k: int| 0 <= k < pre.len() && pre[k] == x;
                        assert(pre.push(id)[k] == x);
                    }
                }
                assert forall|x: MediaId| #[trigger] kept@.contains(x) <==> before.contains(x) || (keep && x == id) by {
                    if keep {
                        if x == id {
                            assert(kept@[before.len() as int] == id);
                        }
                        if before.contains(x) {
                            let k = choose|k: int| 0 <= k < before.len() && before[k] == x;
                            assert(kept@[k] == x);
                        }
                        if kept@.contains(x) {
                            let k = choose|k: int| 0 <= k < kept@.len() && kept@[k] == x;
                            if k < before.len() {
                                assert(before[k] == x);
                            }
                        }
                    }
                }
            }
            i = i + 1;
        }
        assert(self.media@.subrange(0, self.media@.len() as int) =~= self.media@);
        self.media = kept;
    }

    /// Where `id` stands among the members.
    fn position(&self, id: MediaId) -> (r: Option<usize>)
        ensures
            r matches Some(i) ==> i < self.media@.len() && self.media@[i as int] == id,
            r is None ==> !self.media@.contains(id),
    {
        let mut i: usize = 0;
        while i < self.media.len()
            invariant
                i <= self.media@.len(),
                forall|j: int| 0 <= j < i ==> self.media@[j] != id,
            decreases self.media.len() - i,
        {
            if self.media[i] == id {
                return Some(i);
            }
            i = i + 1;
        }
        None
    }

    /// Adds `id`; true where it was not a member yet.
    pub fn insert(&mut self, id: MediaId) -> (r: bool)
        requires
            old(self).wf(),
        ensures
            final(self).wf(),
            r == !old(self).members().contains(id),
            final(self).members() == old(self).members().insert(id),
            final(self).name_spec() == old(self).name_spec(),
    {
        if self.contains(id) {
            assert(self.media@.to_set().insert(id) =~= self.media@.to_set());
            false
        } else {
            let ghost s = self.media@;
            self.media.push(id);
            assert forall|x: MediaId| #[trigger] self.media@.contains(x) <==> s.contains(x) || x == id by {
                if x == id {
                    assert(self.media@[s.len() as int] == id);
                }
                if s.contains(x) {
                    let k = choose|k: int| 0 <= k < s.len() && s[k] == x;
                    assert(self.media@[k] == x);
                }
                if self.media@.contains(x) {
                    let k = choose|k: int| 0 <= k < self.media@.len() && self.media@[k] == x;
                    if k < s.len() {
                        assert(s[k] == x);
                    }
                }
            }
            assert(self.media@.to_set() =~= s.to_set().insert(id));
            true
        }
    }

    /// Takes `id` out; true where it was a member.
    pub fn remove(&mut self, id: MediaId) -> (r: bool)
        requires
            old(self).wf(),
        ensures
            final(self).wf(),
            r == old(self).members().contains(id),
            final(self).members() == old(self).members().remove(id),
            final(self).name_spec() == old(self).name_spec(),
    {
        match self.position(id) {
            None => {
                assert(self.media@.to_set().remove(id) =~= self.media@.to_set());
                false
            },
            Some(i) => {
                let ghost s = self.media@;
                self.media.remove(i);
                proof {
                    assert forall|x: MediaId| #[trigger] self.media@.contains(x) <==> (s.contains(x) && x != id) by {
                        if s.contains(x) && x != id {
                            let k = choose|k: int| 0 <= k < s.len() && s[k] == x;
                            if k < i {
                                assert(self.media@[k] == x);
                            } else {
                                assert(self.media@[k - 1] == x);
                            }
                        }
                        if self.media@.contains(x) {
                            let k = choose|k: int| 0 <= k < self.media@.len() && self.media@[k] == x;
                            if k < i {
                                assert(s[k] == x);
                            } else {
                                assert(s[k + 1] == x);
                            }
                            assert(x != id);
                        }
                    }
                    assert(self.media@.to_set() =~= s.to_set().remove(id));
                    assert forall|a: int, b: int| 0 <= a < self.media@.len() && 0 <= b < self.media@.len() && a != b implies self.media@[a] != self.media@[b] by {
                        let a1 = if a < i { a } else { a + 1 };
                        let b1 = if b < i { b } else { b + 1 };
                        assert(self.media@[a] == s[a1]);
                        assert(self.media@[b] == s[b1]);
                    }
                }
                true
            },
        }
    }

    /// Whether `id` is a member.
    pub fn contains(&self, id: MediaId) -> (r: bool)
        ensures
            r == self.members().contains(id),
    {
        self.position(id).is_some()
    }

    /// The members, each once, in the order in which they were added.
    pub fn iter(&self) -> (r: &Vec<MediaId>)
        ensures
            r@.to_set() == self.members(),
            self.wf() ==> r@.no_duplicates(),
    {
        &self.media
    }
}

} // verus!
