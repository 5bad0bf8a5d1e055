use vstd::prelude::*;

use crate::types::{find_key, has_key, keys_unique};

verus! {

/// The live downstream clients, by server name. A name gets a client once and
/// keeps it: there is no way to replace or drop an entry.
pub struct Sessions<C> {
    entries: Vec<(String, C)>,
}

impl<C> View for Sessions<C> {
    type V = Map<Seq<char>, C>;

    closed spec fn view(&self) -> Map<Seq<char>, C> {
        Map::new(
            |k: Seq<char>| has_key(self.entries@, k),
            |k: Seq<char>|
                self.entries@[choose|i: int|
                    0 <= i < self.entries@.len() && #[trigger] self.entries@[i].0@ == k].1,
        )
    }
}

impl<C> Sessions<C> {
    /// No two entries share a name.
    pub closed spec fn wf(&self) -> bool {
        keys_unique(self.entries@)
    }

    /// No session yet.
    pub fn new() -> (r: Sessions<C>)
        ensures
            r.wf(),
            r@ == Map::<Seq<char>, C>::empty(),
    {
        let r = Sessions { entries: Vec::new() };
        assert(r@ =~= Map::<Seq<char>, C>::empty());
        r
    }

    /// The client of server `name`, if one was made.
    pub fn get(&self, name: &String) -> (r: Option<&C>)
        requires
            self.wf(),
        ensures
            match r {
                Some(c) => self@.contains_key(name@) && self@[name@] == *c,
                None => !self@.contains_key(name@),
            },
    {
        match find_key(&self.entries, name) {
            Some(i) => {
                proof {
                    let j = choose|j: int|
                        0 <= j < self.entries@.len() && #[trigger] self.entries@[j].0@ == name@;
                    assert(self.entries@[i as int].0@ == name@);
                    if j != i {
                        assert(self.entries@[j].0@ != self.entries@[i as int].0@);
                    }
                }
                Some(&self.entries[i].1)
            },
            None => None,
        }
    }

    /// Records the client made for server `name`, which had none.
    pub fn insert(&mut self, name: String, client: C)
        requires
            old(self).wf(),
            !old(self)@.contains_key(name@),
        ensures
            final(self).wf(),
            final(self)@ == old(self)@.insert(name@, client),
    {
        let ghost before = self.entries@;
        let ghost key = name@;
        self.entries.push((name, client));
        proof {
            let after = self.entries@;
            let n = before.len() as int;
            assert(after[n].0@ == key);
            assert forall|a: int, b: int|
                0 <= a < after.len() && 0 <= b < after.len() && a != b implies #[trigger] after[a].0@
                != #[trigger] after[b].0@ by {
                if a < n && b < n {
                    assert(before[a] == after[a] && before[b] == after[b]);
                } else if a < n {
                    assert(before[a] == after[a]);
                    assert(!has_key(before, key));
                } else {
                    assert(before[b] == after[b]);
                    assert(!has_key(before, key));
                }
            }
            assert forall|k: Seq<char>| #[trigger] has_key(after, k) == (has_key(before, k) || k == key) by {
                if has_key(before, k) {
                    let i = choose|i: int| 0 <= i < before.len() && #[trigger] before[i].0@ == k;
                    assert(after[i] == before[i]);
                }
                if has_key(after, k) && k != key {
                    let i = choose|i: int| 0 <= i < after.len() && #[trigger] after[i].0@ == k;
                    assert(before[i] == after[i]);
                }
            }
            let old_map = Map::new(
                |k: Seq<char>| has_key(before, k),
                |k: Seq<char>|
                    before[choose|i: int| 0 <= i < before.len() && #[trigger] before[i].0@ == k].1,
            );
            assert(self@.dom() =~= old_map.insert(key, after[n].1).dom());
            assert forall|k: Seq<char>| #[trigger] self@.contains_key(k) implies self@[k]
                == old_map.insert(key, after[n].1)[k] by {
                let i = choose|i: int| 0 <= i < after.len() && #[trigger] after[i].0@ == k;
                if k == key {
                    if i != n {
                        assert(after[i].0@ != after[n].0@);
                    }
                } else {
                    let j = choose|j: int| 0 <= j < before.len() && #[trigger] before[j].0@ == k;
                    assert(after[j] == before[j]);
                    if i != j {
                        assert(after[i].0@ != after[j].0@);
                    }
                }
            }
            assert(self@ =~= old_map.insert(key, after[n].1));
        }
    }
}

/// Once a server has a client, every later lookup of it finds that same
/// client, whatever other servers get clients meanwhile; so a second
/// transport is never opened for it.
pub proof fn lemma_one_client_per_server<C>(
    sessions: Map<Seq<char>, C>,
    name: Seq<char>,
    client: C,
    other: Seq<char>,
    other_client: C,
)
    requires
        !sessions.contains_key(name),
        other != name,
    ensures
        sessions.insert(name, client).contains_key(name),
        sessions.insert(name, client)[name] == client,
        sessions.insert(name, client).insert(other, other_client)[name] == client,
{
}

} // verus!
