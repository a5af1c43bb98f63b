//! What is kept of requests while they run, by request id.
use vstd::prelude::*;

use crate::text::text_eq;

verus! {

/// Handles of the requests that run. No id occurs twice.
pub struct InFlight<T> {
    entries: Vec<(String, T)>,
}

impl<T> View for InFlight<T> {
    type V = Map<Seq<char>, T>;

    closed spec fn view(&self) -> Map<Seq<char>, T> {
        handles(self.entries@)
    }
}

/// The handles by id.
spec fn handles<T>(entries: Seq<(String, T)>) -> Map<Seq<char>, T>
    decreases entries.len(),
{
    if entries.len() == 0 {
        Map::empty()
    } else {
        handles(entries.drop_last()).insert(entries.last().0@, entries.last().1)
    }
}

spec fn distinct<T>(entries: Seq<(String, T)>) -> bool {
    forall|i: int, j: int|
        0 <= i < j < entries.len() ==> (#[trigger] entries[i]).0@ != (#[trigger] entries[j]).0@
}

proof fn lemma_handles<T>(entries: Seq<(String, T)>)
    requires
        distinct(entries),
    ensures
        forall|i: int|
            0 <= i < entries.len() ==> handles(entries).contains_key((#[trigger] entries[i]).0@)
                && handles(entries)[entries[i].0@] == entries[i].1,
        forall|id: Seq<char>| #[trigger]
            handles(entries).contains_key(id) ==> exists|i: int|
                0 <= i < entries.len() && (#[trigger] entries[i]).0@ == id,
    decreases entries.len(),
{
    if entries.len() > 0 {
        let rest = entries.drop_last();
        assert(distinct(rest)) by {
            assert forall|i: int, j: int| 0 <= i < j < rest.len() implies (
            #[trigger] rest[i]).0@ != (#[trigger] rest[j]).0@ by {
                assert(rest[i] == entries[i] && rest[j] == entries[j]);
            }
        }
        lemma_handles(rest);
        assert forall|i: int| 0 <= i < entries.len() implies handles(entries).contains_key(
            (#[trigger] entries[i]).0@,
        ) && handles(entries)[entries[i].0@] == entries[i].1 by {
            if i < rest.len() {
                assert(rest[i] == entries[i]);
                assert(entries[i].0@ != entries[entries.len() - 1].0@);
            }
        }
        assert forall|id: Seq<char>| #[trigger]
            handles(entries).contains_key(id) implies exists|i: int|
            0 <= i < entries.len() && (#[trigger] entries[i]).0@ == id by {
            if id == entries.last().0@ {
                assert(entries[entries.len() - 1].0@ == id);
            } else {
                assert(handles(rest).contains_key(id));
                let i = choose|i: int| 0 <= i < rest.len() && (#[trigger] rest[i]).0@ == id;
                assert(entries[i].0@ == id);
            }
        }
    }
}

impl<T> InFlight<T> {
    #[verifier::type_invariant]
    spec fn well_formed(self) -> bool {
        distinct(self.entries@)
    }

    /// Nothing runs.
    pub fn new() -> (r: InFlight<T>)
        ensures
            r@ == Map::<Seq<char>, T>::empty(),
    {
        InFlight { entries: Vec::new() }
    }

    /// Takes the handle of a request out, where it runs.
    pub fn remove(&mut self, id: &str) -> (r: Option<T>)
        ensures
            final(self)@ == old(self)@.remove(id@),
            r == if old(self)@.contains_key(id@) {
                Some(old(self)@[id@])
            } else {
                None
            },
    {
        proof {
            use_type_invariant(&*self);
            lemma_handles(self.entries@);
        }
        let ghost before = self.entries@;
        let n: usize = self.entries.len();
        let mut entries: Vec<(String, T)> = Vec::new();
        std::mem::swap(&mut entries, &mut self.entries);
        for i in 0..n
            invariant
                n == entries@.len(),
                entries@ == before,
                distinct(before),
                forall|k: int| 0 <= k < i ==> (#[trigger] before[k]).0@ != id@,
                handles(before) == old(self)@,
                self.entries@.len() == 0,
        {
            if text_eq(entries[i].0.as_str(), id) {
                let found: (String, T) = entries.remove(i);
                proof {
                    lemma_handles(before);
                    let after = before.remove(i as int);
                    assert(distinct(after)) by {
                        assert forall|a: int, b: int| 0 <= a < b < after.len() implies (
                        #[trigger] after[a]).0@ != (#[trigger] after[b]).0@ by {
                            let c = if a < i {
                                a
                            } else {
                                a + 1
                            };
                            let d = if b < i {
                                b
                            } else {
                                b + 1
                            };
                            assert(after[a] == before[c] && after[b] == before[d]);
                        }
                    }
                    lemma_removed(before, i as int);
                }
                self.entries = entries;
                return Some(found.1);
            }
        }
        self.entries = entries;
        proof {
            lemma_handles(before);
            if handles(before).contains_key(id@) {
                let k = choose|k: int| 0 <= k < before.len() && (#[trigger] before[k]).0@ == id@;
                assert(false);
            }
            assert(handles(before).remove(id@) =~= handles(before));
        }
        None
    }

    /// Keeps the handle of a request, in place of any that its id had.
    pub fn insert(&mut self, id: String, handle: T)
        ensures
            final(self)@ == old(self)@.insert(id@, handle),
    {
        let _ = self.remove(id.as_str());
        proof {
            use_type_invariant(&*self);
            lemma_handles(self.entries@);
        }
        let ghost before = self.entries@;
        let ghost entry = (id, handle);
        let mut entries: Vec<(String, T)> = Vec::new();
        std::mem::swap(&mut entries, &mut self.entries);
        entries.push((id, handle));
        proof {
            assert(entries@.drop_last() =~= before);
            assert(distinct(entries@)) by {
                assert forall|a: int, b: int| 0 <= a < b < entries@.len() implies (
                #[trigger] entries@[a]).0@ != (#[trigger] entries@[b]).0@ by {
                    assert(entries@[a] == before[a]);
                    if b == before.len() {
                        assert(handles(before).contains_key(before[a].0@));
                    } else {
                        assert(entries@[b] == before[b]);
                    }
                }
            }
            assert(old(self)@.remove(entry.0@).insert(entry.0@, entry.1) =~= old(self)@.insert(
                entry.0@,
                entry.1,
            ));
        }
        self.entries = entries;
    }
}

proof fn lemma_removed<T>(entries: Seq<(String, T)>, i: int)
    requires
        distinct(entries),
        0 <= i < entries.len(),
    ensures
        handles(entries.remove(i)) == handles(entries).remove(entries[i].0@),
    decreases entries.len(),
{
    let rest = entries.drop_last();
    let last = entries[entries.len() - 1];
    assert(distinct(rest)) by {
        assert forall|a: int, b: int| 0 <= a < b < rest.len() implies (
        #[trigger] rest[a]).0@ != (#[trigger] rest[b]).0@ by {
            assert(rest[a] == entries[a] && rest[b] == entries[b]);
        }
    }
    if i == entries.len() - 1 {
        assert(entries.remove(i) =~= rest);
        lemma_handles(rest);
        assert(!handles(rest).contains_key(last.0@)) by {
            if handles(rest).contains_key(last.0@) {
                let k = choose|k: int| 0 <= k < rest.len() && (#[trigger] rest[k]).0@ == last.0@;
                assert(entries[k].0@ == last.0@);
            }
        }
        assert(handles(rest) =~= handles(entries).remove(last.0@));
    } else {
        lemma_removed(rest, i);
        assert(entries.remove(i).drop_last() =~= rest.remove(i));
        assert(entries.remove(i).last() == last);
        assert(entries[i].0@ != last.0@);
        assert(rest[i] == entries[i]);
        assert(handles(entries.remove(i)) =~= handles(entries).remove(entries[i].0@));
    }
}

} // verus!
