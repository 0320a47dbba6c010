//! Which workspaces are watched.
//!
//! A workspace is unwatched until it is registered, watched from then on,
//! and stopped once it is taken out again. There is one watcher per
//! workspace path: registering a watched workspace changes nothing.

use vstd::prelude::*;
use crate::text::{clone_strings, owned, str_eq, texts};

verus! {

/// Whether a workspace is watched.
#[derive(Debug, Clone, Copy, PartialEq, Eq, Structural)]
pub enum WatchState {
    /// No watcher was ever started, or none since the last stop was noted.
    Unwatched,
    /// A watcher is running.
    Watching,
    /// The watcher was stopped.
    Stopped,
}

/// What registering a workspace did.
#[derive(Debug, Clone, Copy, PartialEq, Eq, Structural)]
pub enum Registration {
    /// The workspace was not watched; a watcher is to be started.
    Started,
    /// The workspace is watched already; its watcher is to be used.
    Existing,
}

/// The paths of the watched workspaces.
#[derive(Debug)]
pub struct WatcherRegistry {
    watched: Vec<String>,
    stopped: Vec<String>,
}

impl WatcherRegistry {
    /// The paths of the workspaces that are watched.
    pub closed spec fn watched(&self) -> Set<Seq<char>> {
        texts(self.watched@).to_set()
    }

    /// The paths of the workspaces whose watcher was stopped and not
    /// started again.
    pub closed spec fn stopped(&self) -> Set<Seq<char>> {
        texts(self.stopped@).to_set()
    }

    /// The state of the workspace at `path`.
    pub open spec fn state_of(&self, path: Seq<char>) -> WatchState {
        if self.watched().contains(path) {
            WatchState::Watching
        } else if self.stopped().contains(path) {
            WatchState::Stopped
        } else {
            WatchState::Unwatched
        }
    }

    /// The registry in which no workspace is watched.
    pub fn new() -> (r: WatcherRegistry)
        ensures
            r.watched() == Set::<Seq<char>>::empty(),
            r.stopped() == Set::<Seq<char>>::empty(),
    {
        let r = WatcherRegistry { watched: Vec::new(), stopped: Vec::new() };
        assert(texts(r.watched@) =~= Seq::<Seq<char>>::empty());
        assert(texts(r.stopped@) =~= Seq::<Seq<char>>::empty());
        assert(r.watched() =~= Set::<Seq<char>>::empty());
        assert(r.stopped() =~= Set::<Seq<char>>::empty());
        r
    }

    fn without(list: &Vec<String>, path: &str) -> (r: Vec<String>)
        ensures
            texts(r@).to_set() == texts(list@).to_set().remove(path@),
    {
        let mut out: Vec<String> = Vec::new();
        let mut i: usize = 0;
        while i < list.len()
            invariant
                i <= list.len(),
                forall|k: int| 0 <= k < out@.len() ==> (#[trigger] out@[k])@ != path@,
                forall|k: int|
                    0 <= k < out@.len() ==> exists|m: int|
                        0 <= m < i && list@[m]@ == (#[trigger] out@[k])@,
                forall|m: int|
                    0 <= m < i && list@[m]@ != path@ ==> exists|k: int|
                        0 <= k < out@.len() && (#[trigger] out@[k])@ == list@[m]@,
            decreases list.len() - i,
        {
            if !str_eq(list[i].as_str(), path) {
                let ghost before = out@;
                out.push(list[i].clone());
                proof {
                    assert forall|m: int| 0 <= m < i + 1 && list@[m]@ != path@ implies exists|
                        k: int,
                    | 0 <= k < out@.len() && (#[trigger] out@[k])@ == list@[m]@ by {
                        if m == i {
                            assert(out@[before.len() as int]@ == list@[m]@);
                        } else {
                            let k = choose|k: int|
                                0 <= k < before.len() && (#[trigger] before[k])@ == list@[m]@;
                            assert(out@[k]@ == list@[m]@);
                        }
                    }
                }
            }
            i += 1;
        }
        proof {
            let a = texts(out@).to_set();
            let b = texts(list@).to_set().remove(path@);
            assert forall|x: Seq<char>| a.contains(x) <==> b.contains(x) by {
                if a.contains(x) {
                    let k = choose|k: int| 0 <= k < texts(out@).len() && texts(out@)[k] == x;
                    assert(out@[k]@ == x);
                    let m = choose|m: int| 0 <= m < i && list@[m]@ == out@[k]@;
                    assert(texts(list@)[m] == x);
                }
                if b.contains(x) {
                    let m = choose|m: int| 0 <= m < texts(list@).len() && texts(list@)[m] == x;
                    assert(list@[m]@ == x);
                    let k = choose|k: int| 0 <= k < out@.len() && (#[trigger] out@[k])@ == list@[m]@;
                    assert(texts(out@)[k] == x);
                }
            }
            assert(a =~= b);
        }
        out
    }

    /// Whether the workspace at `path` is watched.
    pub fn is_watching(&self, path: &str) -> (r: bool)
        ensures
            r == self.watched().contains(path@),
            r == (self.state_of(path@) == WatchState::Watching),
    {
        crate::text::contains_text(&self.watched, path)
    }

    /// The state of the workspace at `path`.
    pub fn get(&self, path: &str) -> (r: WatchState)
        ensures
            r == self.state_of(path@),
    {
        if crate::text::contains_text(&self.watched, path) {
            WatchState::Watching
        } else if crate::text::contains_text(&self.stopped, path) {
            WatchState::Stopped
        } else {
            WatchState::Unwatched
        }
    }

    /// Registers the workspace at `path`. A workspace that is watched stays
    /// as it is; any other is watched from now on.
    pub fn register(&mut self, path: &str) -> (r: Registration)
        ensures
            r == if old(self).watched().contains(path@) {
                Registration::Existing
            } else {
                Registration::Started
            },
            final(self).watched() == old(self).watched().insert(path@),
            final(self).stopped() == old(self).stopped().remove(path@),
    {
        if crate::text::contains_text(&self.watched, path) {
            self.stopped = Self::without(&self.stopped, path);
            assert(self.watched() =~= old(self).watched().insert(path@));
            Registration::Existing
        } else {
            self.stopped = Self::without(&self.stopped, path);
            let ghost before = texts(self.watched@);
            self.watched.push(owned(path));
            proof {
                assert(texts(self.watched@) =~= before.push(path@));
                assert forall|x: Seq<char>|
                    self.watched().contains(x) <==> old(self).watched().insert(path@).contains(
                        x,
                    ) by {
                    if self.watched().contains(x) {
                        let k = choose|k: int|
                            0 <= k < texts(self.watched@).len() && texts(self.watched@)[k] == x;
                        if k < before.len() {
                            assert(before[k] == x);
                        }
                    }
                    if old(self).watched().contains(x) {
                        let k = choose|k: int| 0 <= k < before.len() && before[k] == x;
                        assert(texts(self.watched@)[k] == x);
                    }
                    if x == path@ {
                        assert(texts(self.watched@)[before.len() as int] == x);
                    }
                }
                assert(self.watched() =~= old(self).watched().insert(path@));
            }
            Registration::Started
        }
    }

    /// Stops the watcher of the workspace at `path`. Says whether there was
    /// one; where there was none, nothing changes.
    pub fn stop(&mut self, path: &str) -> (r: bool)
        ensures
            r == old(self).watched().contains(path@),
            final(self).watched() == old(self).watched().remove(path@),
            final(self).stopped() == if r {
                old(self).stopped().insert(path@)
            } else {
                old(self).stopped()
            },
    {
        if !crate::text::contains_text(&self.watched, path) {
            assert(self.watched() =~= old(self).watched().remove(path@));
            return false;
        }
        self.watched = Self::without(&self.watched, path);
        if !crate::text::contains_text(&self.stopped, path) {
            let ghost before = texts(self.stopped@);
            self.stopped.push(owned(path));
            proof {
                assert(texts(self.stopped@) =~= before.push(path@));
                assert forall|x: Seq<char>|
                    self.stopped().contains(x) <==> old(self).stopped().insert(path@).contains(
                        x,
                    ) by {
                    if self.stopped().contains(x) {
                        let k = choose|k: int|
                            0 <= k < texts(self.stopped@).len() && texts(self.stopped@)[k] == x;
                        if k < before.len() {
                            assert(before[k] == x);
                        }
                    }
                    if old(self).stopped().contains(x) {
                        let k = choose|k: int| 0 <= k < before.len() && before[k] == x;
                        assert(texts(self.stopped@)[k] == x);
                    }
                    if x == path@ {
                        assert(texts(self.stopped@)[before.len() as int] == x);
                    }
                }
                assert(self.stopped() =~= old(self).stopped().insert(path@));
            }
        } else {
            assert(self.stopped() =~= old(self).stopped().insert(path@));
        }
        true
    }

    /// The paths of the watched workspaces.
    pub fn watched_paths(&self) -> (r: Vec<String>)
        ensures
            texts(r@).to_set() == self.watched(),
    {
        clone_strings(&self.watched)
    }
}

/// Registering a workspace twice is registering it once: the second
/// registration finds the watcher of the first and changes nothing.
pub proof fn lemma_register_idempotent(watched: Set<Seq<char>>, path: Seq<char>)
    ensures
        watched.insert(path).insert(path) == watched.insert(path),
        watched.insert(path).contains(path),
{
    assert(watched.insert(path).insert(path) =~= watched.insert(path));
}

/// Stopping a workspace that is not watched changes nothing.
pub proof fn lemma_stop_idempotent(watched: Set<Seq<char>>, path: Seq<char>)
    ensures
        watched.remove(path).remove(path) == watched.remove(path),
        !watched.remove(path).contains(path),
{
    assert(watched.remove(path).remove(path) =~= watched.remove(path));
}

} // verus!
