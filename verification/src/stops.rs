//! The stop-id to display-name directory.
//!
//! The directory is built once, before the first refresh, and never mutated
//! afterwards; lookups return the name of the first matching id.

use vstd::prelude::*;
use crate::model::assoc_lookup;

verus! {

/// A static table from raw stop id to human-readable display name.
pub struct StopNames {
    pairs: Vec<(String, String)>,
}

impl View for StopNames {
    type V = Seq<(Seq<char>, Seq<char>)>;

    closed spec fn view(&self) -> Seq<(Seq<char>, Seq<char>)> {
        self.pairs@.map_values(|p: (String, String)| (p.0@, p.1@))
    }
}

impl StopNames {
    /// An empty directory: every lookup misses.
    pub fn new() -> (d: StopNames)
        ensures
            d@ == Seq::<(Seq<char>, Seq<char>)>::empty(),
    {
        let d = StopNames { pairs: Vec::new() };
        proof {
            assert(d@ =~= Seq::<(Seq<char>, Seq<char>)>::empty());
        }
        d
    }

    /// Appends one id-to-name row to the directory.
    pub fn add(&mut self, id: String, name: String)
        ensures
            final(self)@ == old(self)@.push((id@, name@)),
    {
        let ghost pre = self@;
        self.pairs.push((id, name));
        proof {
            assert(self@ =~= pre.push((self.pairs@.last().0@, self.pairs@.last().1@)));
        }
    }

    /// The display name recorded for `id`, or `None` when the directory has
    /// no row for it.
    pub fn lookup(&self, id: &String) -> (r: Option<&String>)
        ensures
            match r {
                Some(name) => assoc_lookup(self@, id@) == Some(name@),
                None => assoc_lookup(self@, id@) is None,
            },
    {
        let n = self.pairs.len();
        let mut i: usize = 0;
        proof {
            assert(self@.skip(0) =~= self@);
        }
        while i < n
            invariant
                n == self.pairs.len(),
                i <= n,
                assoc_lookup(self@, id@) == assoc_lookup(self@.skip(i as int), id@),
            decreases n - i,
        {
            let row = &self.pairs[i];
            if row.0 == *id {
                proof {
                    assert(self@.skip(i as int)[0] == (self.pairs@[i as int].0@,
                    self.pairs@[i as int].1@));
                }
                return Some(&row.1);
            }
            proof {
                assert(self@.skip(i as int)[0] == (self.pairs@[i as int].0@,
                self.pairs@[i as int].1@));
                assert(self@.skip(i as int).drop_first() =~= self@.skip(i as int + 1));
            }
            i = i + 1;
        }
        proof {
            assert(self@.skip(n as int) =~= Seq::<(Seq<char>, Seq<char>)>::empty());
        }
        None
    }
}

} // verus!
