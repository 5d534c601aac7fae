//! The in-memory set of keys known to exist remotely.
//!
//! Built once per run from the store's listing, then queried and extended
//! during traversal: one insertion per accepted upload candidate. The index
//! never shrinks within a run; deletion is out of scope by design.

use vstd::prelude::*;
use crate::path_codec::PathKey;

verus! {

/// A set of path keys, unique by segment sequence, insertion order
/// irrelevant.
pub struct RemoteIndex {
    keys: Vec<PathKey>,
}

impl View for RemoteIndex {
    type V = Set<Seq<Seq<char>>>;

    closed spec fn view(&self) -> Set<Seq<Seq<char>>> {
        self.keys@.map_values(|k: PathKey| k@).to_set()
    }
}

impl RemoteIndex {
    /// The stored keys hold no duplicate segment sequence.
    pub closed spec fn wf(&self) -> bool {
        self.keys@.map_values(|k: PathKey| k@).no_duplicates()
    }

    /// An empty index, as at the start of a run.
    pub fn new() -> (r: RemoteIndex)
        ensures
            r.wf(),
            r@ == Set::<Seq<Seq<char>>>::empty(),
    {
        let r = RemoteIndex { keys: Vec::new() };
        proof {
            assert(r.keys@.map_values(|k: PathKey| k@) =~= Seq::<Seq<Seq<char>>>::empty());
            assert(r@ =~= Set::<Seq<Seq<char>>>::empty());
        }
        r
    }

    /// Whether a key with the same segment sequence is already indexed.
    pub fn contains(&self, key: &PathKey) -> (r: bool)
        ensures
            r == self@.contains(key@),
    {
        let ghost vs = self.keys@.map_values(|k: PathKey| k@);
        let n = self.keys.len();
        let mut i: usize = 0;
        while i < n
            invariant
                n == self.keys@.len(),
                i <= n,
                vs == self.keys@.map_values(|k: PathKey| k@),
                forall|k: int| 0 <= k < i ==> vs[k] != key@,
            decreases n - i,
        {
            if self.keys[i].key_eq(key) {
                proof {
                    assert(vs[i as int] == key@);
                    assert(vs.contains(key@));
                }
                return true;
            }
            i += 1;
        }
        proof {
            assert(!vs.contains(key@));
        }
        false
    }

    /// Inserts a key; reports whether it was newly inserted, so that
    /// re-insertion is idempotent.
    pub fn insert(&mut self, key: PathKey) -> (newly: bool)
        requires
            old(self).wf(),
        ensures
            final(self).wf(),
            final(self)@ == old(self)@.insert(key@),
            newly == !old(self)@.contains(key@),
    {
        let ghost vs = self.keys@.map_values(|k: PathKey| k@);
        if self.contains(&key) {
            proof {
                assert(old(self)@.insert(key@) =~= old(self)@);
            }
            false
        } else {
            self.keys.push(key);
            proof {
                assert(self.keys@.map_values(|k: PathKey| k@) =~= vs.push(key@));
                assert(!vs.contains(key@));
                assert(self.keys@.map_values(|k: PathKey| k@).no_duplicates());
                assert forall|x: Seq<Seq<char>>| vs.push(key@).contains(x) implies (vs.contains(x)
                    || x == key@) by {
                    let i = choose|i: int| 0 <= i < vs.push(key@).len() && vs.push(key@)[i] == x;
                    if i < vs.len() {
                        assert(vs[i] == x);
                    }
                }
                assert forall|x: Seq<Seq<char>>| vs.contains(x) implies vs.push(key@).contains(
                    x,
                ) by {
                    let i = choose|i: int| 0 <= i < vs.len() && vs[i] == x;
                    assert(vs.push(key@)[i] == x);
                }
                assert(vs.push(key@).contains(key@)) by {
                    assert(vs.push(key@)[vs.len() as int] == key@);
                }
                assert(self@ =~= old(self)@.insert(key@));
            }
            true
        }
    }

    /// The number of distinct keys indexed.
    pub fn len(&self) -> (n: usize)
        requires
            self.wf(),
        ensures
            n == self@.len(),
    {
        proof {
            self.keys@.map_values(|k: PathKey| k@).unique_seq_to_set();
        }
        self.keys.len()
    }
}

} // verus!
