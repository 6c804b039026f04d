//! Content store for the raw replay bytes backing each ledger row,
//! keyed by the owning record's id. A write overwrites unconditionally;
//! the blob always reflects the most recently accepted record state.

use vstd::prelude::*;
use vstd::slice::slice_to_vec;

verus! {

pub struct BlobStore {
    blobs: Vec<(u64, Vec<u8>)>,
}

impl BlobStore {
    /// What is stored: the bytes under each record id.
    pub closed spec fn view(&self) -> Map<u64, Seq<u8>> {
        Map::new(
            |id: u64| exists|i: int| 0 <= i < self.blobs@.len() && (#[trigger] self.blobs@[i]).0 == id,
            |id: u64|
                {
                    let i = choose|i: int|
                        0 <= i < self.blobs@.len() && (#[trigger] self.blobs@[i]).0 == id;
                    self.blobs@[i].1@
                },
        )
    }

    /// At most one stored blob per record id.
    pub closed spec fn wf(&self) -> bool {
        forall|i: int, j: int|
            0 <= i < j < self.blobs@.len() ==> (#[trigger] self.blobs@[i]).0 != (#[trigger] self.blobs@[j]).0
    }

    pub fn new() -> (r: BlobStore)
        ensures
            r.wf(),
            r@ == Map::<u64, Seq<u8>>::empty(),
    {
        let r = BlobStore { blobs: Vec::new() };
        proof {
            assert(r@ =~= Map::<u64, Seq<u8>>::empty());
        }
        r
    }

    /// Under a well-formed store, the pair at position `k` is the one
    /// the view reads for its key.
    proof fn lemma_view_at(&self, k: int)
        requires
            self.wf(),
            0 <= k < self.blobs@.len(),
        ensures
            self@.dom().contains(self.blobs@[k].0),
            self@[self.blobs@[k].0] == self.blobs@[k].1@,
    {
        let id = self.blobs@[k].0;
        assert(self@.dom().contains(id));
        let w = choose|i: int| 0 <= i < self.blobs@.len() && (#[trigger] self.blobs@[i]).0 == id;
        if w < k {
            assert(self.blobs@[w].0 != self.blobs@[k].0);
        } else if k < w {
            assert(self.blobs@[k].0 != self.blobs@[w].0);
        }
    }

    /// The views of two well-formed stores relate by `insert` when the
    /// second store's pairs are those of the first — except the pair
    /// keyed `id`, removed if present — followed by a fresh pair
    /// `(id, data)` at the end. `at(i)` maps each earlier position of
    /// the second store to the first store's position holding the same
    /// pair.
    proof fn lemma_view_insert(s0: &BlobStore, s1: &BlobStore, id: u64, data: Seq<u8>, at: spec_fn(int) -> int)
        requires
            s0.wf(),
            s1.wf(),
            s1.blobs@.len() > 0,
            (s1.blobs@[s1.blobs@.len() - 1].0 == id && s1.blobs@[s1.blobs@.len() - 1].1@ == data),
            forall|i: int|
                0 <= i < s1.blobs@.len() - 1 ==> 0 <= #[trigger] at(i) < s0.blobs@.len()
                    && s1.blobs@[i] == s0.blobs@[at(i)],
            forall|j: int|
                0 <= j < s0.blobs@.len() && (#[trigger] s0.blobs@[j]).0 != id ==> exists|i: int|
                    0 <= i < s1.blobs@.len() - 1 && #[trigger] at(i) == j,
        ensures
            s1@ == s0@.insert(id, data),
    {
        let last = s1.blobs@.len() - 1;
        assert forall|x: u64| #[trigger]
            s1@.dom().contains(x) == s0@.insert(id, data).dom().contains(x) by {
            if s1@.dom().contains(x) {
                let w = choose|i: int| 0 <= i < s1.blobs@.len() && (#[trigger] s1.blobs@[i]).0 == x;
                if w < last {
                    assert(s0.blobs@[at(w)].0 == x);
                }
            }
            if s0@.insert(id, data).dom().contains(x) {
                if x == id {
                    assert(s1.blobs@[last].0 == id);
                } else {
                    let j = choose|j: int|
                        0 <= j < s0.blobs@.len() && (#[trigger] s0.blobs@[j]).0 == x;
                    let i = choose|i: int| 0 <= i < s1.blobs@.len() - 1 && #[trigger] at(i) == j;
                    assert(s1.blobs@[i].0 == x);
                }
            }
        };
        assert forall|x: u64| s1@.dom().contains(x) implies #[trigger] s1@[x] == s0@.insert(
            id,
            data,
        )[x] by {
            let w = choose|i: int| 0 <= i < s1.blobs@.len() && (#[trigger] s1.blobs@[i]).0 == x;
            s1.lemma_view_at(w);
            if x == id {
                if w < last {
                    assert(s1.blobs@[w].0 != s1.blobs@[last].0);
                }
                assert(s1@[x] == data);
            } else {
                assert(w < last);
                s0.lemma_view_at(at(w));
            }
        };
        assert(s1@ =~= s0@.insert(id, data));
    }

    /// Overwrite (or create) the blob stored under `id`.
    pub fn write(&mut self, id: u64, data: &[u8])
        requires
            old(self).wf(),
        ensures
            final(self).wf(),
            final(self)@ == old(self)@.insert(id, data@),
    {
        let n = self.blobs.len();
        let mut k: usize = 0;
        while k < n
            invariant
                n == self.blobs@.len(),
                0 <= k <= n,
                *self == *old(self),
                self.wf(),
                forall|i: int| 0 <= i < k ==> (#[trigger] self.blobs@[i]).0 != id,
            decreases n - k,
        {
            if self.blobs[k].0 == id {
                self.blobs.remove(k);
                self.blobs.push((id, slice_to_vec(data)));
                proof {
                    let at = |i: int| if i < k as int { i } else { i + 1 };
                    assert forall|i: int, j: int|
                        0 <= i < j < self.blobs@.len() implies (#[trigger] self.blobs@[i]).0
                        != (#[trigger] self.blobs@[j]).0 by {
                        if j < self.blobs@.len() - 1 {
                            assert(old(self).blobs@[at(i)].0 != old(self).blobs@[at(j)].0);
                        } else {
                            if at(i) < k as int {
                                assert(old(self).blobs@[at(i)].0 != id);
                            } else {
                                assert(old(self).blobs@[k as int].0 != old(self).blobs@[at(i)].0);
                            }
                        }
                    };
                    assert forall|i: int| 0 <= i < self.blobs@.len() - 1 implies 0 <= #[trigger] at(
                        i,
                    ) < old(self).blobs@.len() && self.blobs@[i] == old(self).blobs@[at(i)] by {
                        assert(self.blobs@[i] == old(self).blobs@.remove(k as int)[i]);
                    };
                    assert forall|j: int|
                        0 <= j < old(self).blobs@.len() && (#[trigger] old(self).blobs@[j]).0
                        != id implies exists|i: int|
                        0 <= i < self.blobs@.len() - 1 && #[trigger] at(i) == j by {
                        let i = if j < k as int { j } else { j - 1 };
                        assert(at(i) == j);
                    };
                    Self::lemma_view_insert(old(self), self, id, data@, at);
                }
                return ;
            }
            k = k + 1;
        }
        self.blobs.push((id, slice_to_vec(data)));
        proof {
            let at = |i: int| i;
            assert forall|i: int, j: int|
                0 <= i < j < self.blobs@.len() implies (#[trigger] self.blobs@[i]).0
                != (#[trigger] self.blobs@[j]).0 by {
                if j < self.blobs@.len() - 1 {
                    assert(old(self).blobs@[i].0 != old(self).blobs@[j].0);
                } else {
                    assert(old(self).blobs@[i].0 != id);
                }
            };
            assert forall|i: int| 0 <= i < self.blobs@.len() - 1 implies 0 <= #[trigger] at(i)
                < old(self).blobs@.len() && self.blobs@[i] == old(self).blobs@[at(i)] by {
                assert(self.blobs@[i] == old(self).blobs@[i]);
            };
            assert forall|j: int|
                0 <= j < old(self).blobs@.len() && (#[trigger] old(self).blobs@[j]).0
                != id implies exists|i: int|
                0 <= i < self.blobs@.len() - 1 && #[trigger] at(i) == j by {
                assert(at(j) == j);
            };
            Self::lemma_view_insert(old(self), self, id, data@, at);
        }
    }

    /// The bytes stored under `id`, or `None` when no record ever
    /// persisted a blob there.
    pub fn read(&self, id: u64) -> (r: Option<&Vec<u8>>)
        requires
            self.wf(),
        ensures
            match r {
                Some(v) => self@.dom().contains(id) && v@ == self@[id],
                None => !self@.dom().contains(id),
            },
    {
        let n = self.blobs.len();
        let mut k: usize = 0;
        while k < n
            invariant
                n == self.blobs@.len(),
                0 <= k <= n,
                self.wf(),
                forall|i: int| 0 <= i < k ==> (#[trigger] self.blobs@[i]).0 != id,
            decreases n - k,
        {
            if self.blobs[k].0 == id {
                proof {
                    self.lemma_view_at(k as int);
                }
                return Some(&self.blobs[k].1);
            }
            k = k + 1;
        }
        proof {
            if self@.dom().contains(id) {
                let w = choose|i: int| 0 <= i < self.blobs@.len() && (#[trigger] self.blobs@[i]).0 == id;
                assert(self.blobs@[w].0 == id);
            }
        }
        None
    }
}

} // verus!
