//! Which websocket connections each user has open, so that an event for a user reaches
//! every one of them.
use vstd::prelude::*;
use crate::router::{lemma_push_set, lemma_remove_no_dup_set};

verus! {

/// The open connections of every user, as (user, connection) pairs; a user with no
/// connection left has no entry.
pub struct ConnectionRegistry {
    entries: Vec<(u128, u128)>,
}

impl View for ConnectionRegistry {
    type V = Set<(u128, u128)>;

    closed spec fn view(&self) -> Set<(u128, u128)> {
        self.entries@.to_set()
    }
}

/// The connections that `user` has open in `registry`.
pub open spec fn connections_of(registry: Set<(u128, u128)>, user: u128) -> Set<u128> {
    Set::new(|c: u128| registry.contains((user, c)))
}

/// The users with at least one open connection.
pub open spec fn users_of(registry: Set<(u128, u128)>) -> Set<u128> {
    Set::new(|u: u128| exists|c: u128| registry.contains((u, c)))
}

impl ConnectionRegistry {
    /// The representation invariant: no pair is held twice.
    pub closed spec fn wf(&self) -> bool {
        self.entries@.no_duplicates()
    }

    /// An empty registry.
    pub fn new() -> (r: ConnectionRegistry)
        ensures
            r.wf(),
            r@ == Set::<(u128, u128)>::empty(),
    {
        let r = ConnectionRegistry { entries: Vec::new() };
        proof {
            assert(r.entries@.to_set() =~= Set::<(u128, u128)>::empty());
        }
        r
    }

    fn find(&self, user_id: u128, connection_id: u128) -> (r: Option<usize>)
        ensures
            match r {
                Some(i) => i < self.entries@.len() && self.entries@[i as int] == (
                    user_id,
                    connection_id,
                ),
                None => !self.entries@.contains((user_id, connection_id)),
            },
    {
        let mut i: usize = 0;
        while i < self.entries.len()
            invariant
                i <= self.entries@.len(),
                forall|j: int| 0 <= j < i ==> self.entries@[j] != (user_id, connection_id),
            decreases self.entries.len() - i,
        {
            let (u, c) = self.entries[i];
            if u == user_id && c == connection_id {
                return Some(i);
            }
            i = i + 1;
        }
        None
    }

    /// Records that `user_id` has `connection_id` open.
    pub fn register(&mut self, user_id: u128, connection_id: u128)
        requires
            old(self).wf(),
        ensures
            final(self).wf(),
            final(self)@ == old(self)@.insert((user_id, connection_id)),
    {
        if self.find(user_id, connection_id).is_none() {
            proof {
                lemma_push_set(self.entries@, (user_id, connection_id));
            }
            self.entries.push((user_id, connection_id));
        } else {
            proof {
                assert(old(self)@.insert((user_id, connection_id)) =~= old(self)@);
            }
        }
    }

    /// Forgets that `user_id` has `connection_id` open; the user is forgotten with their
    /// last connection.
    pub fn remove(&mut self, user_id: u128, connection_id: u128)
        requires
            old(self).wf(),
        ensures
            final(self).wf(),
            final(self)@ == old(self)@.remove((user_id, connection_id)),
    {
        match self.find(user_id, connection_id) {
            Some(i) => {
                proof {
                    lemma_remove_no_dup_set(self.entries@, i as int);
                }
                self.entries.remove(i);
            },
            None => {
                proof {
                    assert(old(self)@.remove((user_id, connection_id)) =~= old(self)@);
                }
            },
        }
    }

    /// The connections `user_id` has open, each once.
    pub fn connections_for_user(&self, user_id: u128) -> (r: Vec<u128>)
        requires
            self.wf(),
        ensures
            r@.no_duplicates(),
            r@.to_set() == connections_of(self@, user_id),
    {
        let mut r: Vec<u128> = Vec::new();
        let mut i: usize = 0;
        while i < self.entries.len()
            invariant
                self.wf(),
                i <= self.entries@.len(),
                r@.no_duplicates(),
                forall|c: u128|
                    r@.contains(c) <==> exists|j: int|
                        0 <= j < i && #[trigger] self.entries@[j] == (user_id, c),
            decreases self.entries.len() - i,
        {
            let (u, c) = self.entries[i];
            let ghost before = r@;
            proof {
                assert forall|x: u128| before.push(c).contains(x) <==> (before.contains(x) || x == c) by {
                    if before.push(c).contains(x) {
                        let k = choose|k: int| 0 <= k < before.push(c).len() && before.push(c)[k] == x;
                        if k < before.len() {
                            assert(before[k] == x);
                        }
                    }
                    if before.contains(x) {
                        let k = choose|k: int| 0 <= k < before.len() && before[k] == x;
                        assert(before.push(c)[k] == x);
                    }
                    if x == c {
                        assert(before.push(c)[before.len() as int] == x);
                    }
                }
            }
            if u == user_id {
                proof {
                    if before.contains(c) {
                        let j = choose|j: int| 0 <= j < i && #[trigger] self.entries@[j] == (user_id, c);
                        assert(self.entries@[j] == self.entries@[i as int]);
                    }
                    assert forall|a: int, b: int|
                        0 <= a < before.push(c).len() && 0 <= b < before.push(c).len() && a != b implies before.push(
                        c,
                    )[a] != before.push(c)[b] by {
                        if a < before.len() && b < before.len() {
                        } else if a == before.len() {
                            assert(before.contains(before[b]));
                        } else {
                            assert(before.contains(before[a]));
                        }
                    }
                }
                r.push(c);
            }
            proof {
                assert(u == user_id ==> r@ == before.push(c));
                assert(u != user_id ==> r@ == before);
                assert(self.entries@[i as int] == (u, c));
                assert forall|x: u128|
                    r@.contains(x) <==> exists|j: int|
                        0 <= j < i + 1 && #[trigger] self.entries@[j] == (user_id, x) by {
                    if exists|j: int| 0 <= j < i + 1 && #[trigger] self.entries@[j] == (user_id, x) {
                        let j = choose|j: int| 0 <= j < i + 1 && #[trigger] self.entries@[j] == (user_id, x);
                        if j < i {
                            assert(before.contains(x));
                        } else {
                            assert(u == user_id && c == x);
                        }
                    }
                    if r@.contains(x) {
                        if before.contains(x) {
                            let j = choose|j: int| 0 <= j < i && #[trigger] self.entries@[j] == (user_id, x);
                            assert(0 <= j < i + 1 && self.entries@[j] == (user_id, x));
                        } else {
                            assert(u == user_id && x == c);
                            assert(self.entries@[i as int] == (user_id, x));
                        }
                    }
                }
            }
            i = i + 1;
        }
        proof {
            assert forall|c: u128| r@.to_set().contains(c) <==> connections_of(self@, user_id).contains(c) by {
                if connections_of(self@, user_id).contains(c) {
                    let j = choose|j: int| 0 <= j < self.entries@.len() && self.entries@[j] == (user_id, c);
                    assert(self.entries@[j] == (user_id, c));
                }
            }
            assert(r@.to_set() =~= connections_of(self@, user_id));
        }
        r
    }

    /// Whether `user_id` has a connection open.
    pub fn has_user(&self, user_id: u128) -> (r: bool)
        requires
            self.wf(),
        ensures
            r == users_of(self@).contains(user_id),
    {
        let mut i: usize = 0;
        while i < self.entries.len()
            invariant
                i <= self.entries@.len(),
                forall|j: int| 0 <= j < i ==> (#[trigger] self.entries@[j]).0 != user_id,
            decreases self.entries.len() - i,
        {
            if self.entries[i].0 == user_id {
                proof {
                    assert(self@.contains((user_id, self.entries@[i as int].1)));
                }
                return true;
            }
            i = i + 1;
        }
        proof {
            if users_of(self@).contains(user_id) {
                let c = choose|c: u128| self@.contains((user_id, c));
                let j = choose|j: int| 0 <= j < self.entries@.len() && self.entries@[j] == (user_id, c);
                assert(self.entries@[j].0 == user_id);
            }
        }
        false
    }
}

/// Removing a connection undoes registering it, when it was not open before; and a user
/// whose only connection is removed is no longer known.
pub proof fn law_remove_undoes_register(registry: Set<(u128, u128)>, user: u128, connection: u128)
    requires
        !registry.contains((user, connection)),
    ensures
        registry.insert((user, connection)).remove((user, connection)) == registry,
        connections_of(registry, user).is_empty() ==> !users_of(
            registry.insert((user, connection)).remove((user, connection)),
        ).contains(user),
{
    assert(registry.insert((user, connection)).remove((user, connection)) =~= registry);
    if connections_of(registry, user).is_empty() && users_of(registry).contains(user) {
        let c = choose|c: u128| registry.contains((user, c));
        assert(connections_of(registry, user).contains(c));
    }
}

/// A registered connection is among its user's connections, and the user is known, until the
/// connection is removed.
pub proof fn law_registered_connection_is_reached(registry: Set<(u128, u128)>, user: u128, connection: u128)
    ensures
        connections_of(registry.insert((user, connection)), user).contains(connection),
        users_of(registry.insert((user, connection))).contains(user),
        !connections_of(registry.remove((user, connection)), user).contains(connection),
{
    assert(registry.insert((user, connection)).contains((user, connection)));
}

} // verus!
