//! The store handle: a project root under which atoms are kept.
use vstd::prelude::*;

use crate::error::strs;
use crate::text::{lemma_str_le_total_ordering, str_le, str_le_exec};
use vstd::relations::{sorted_by, total_ordering};

verus! {

/// A store of atom files under a project root.
pub struct Store {
    root: String,
}

impl View for Store {
    type V = Seq<char>;

    closed spec fn view(&self) -> Seq<char> {
        self.root@
    }
}

impl Store {
    /// A store rooted at `root`; nothing is read or created.
    pub fn open(root: String) -> (r: Self)
        ensures
            r@ == root@,
    {
        Store { root }
    }

    /// The project root.
    pub fn root(&self) -> (r: &str)
        ensures
            r@ == self@,
    {
        self.root.as_str()
    }
}

/// Ids in the order of strings: `a` before `b` only when `str_le(a, b)`.
pub open spec fn ids_sorted(ids: Seq<Seq<char>>) -> bool {
    sorted_by(ids, |a: Seq<char>, b: Seq<char>| str_le(a, b))
}

/// The same ids, each as often, in the order of strings.
pub fn sorted_ids(ids: Vec<String>) -> (r: Vec<String>)
    ensures
        ids_sorted(strs(r@)),
        strs(r@).to_multiset() == strs(ids@).to_multiset(),
{
    broadcast use vstd::seq_lib::group_to_multiset_ensures;
    proof {
        lemma_str_le_total_ordering();
    }
    let ghost le = |a: Seq<char>, b: Seq<char>| str_le(a, b);
    let ghost all = strs(ids@);
    let mut out: Vec<String> = Vec::new();
    let mut i: usize = 0;
    assert(all.take(0) =~= Seq::<Seq<char>>::empty());
    assert(strs(out@) =~= Seq::<Seq<char>>::empty());
    while i < ids.len()
        invariant
            i <= ids@.len(),
            all == strs(ids@),
            total_ordering(le),
            le == (|a: Seq<char>, b: Seq<char>| str_le(a, b)),
            ids_sorted(strs(out@)),
            strs(out@).to_multiset() == all.take(i as int).to_multiset(),
        decreases ids@.len() - i,
    {
        let id = ids[i].clone();
        let ghost o = strs(out@);
        let mut pos: usize = 0;
        while pos < out.len() && !str_le_exec(id.as_str(), out[pos].as_str())
            invariant
                pos <= out@.len(),
                o == strs(out@),
                forall|k: int| 0 <= k < pos ==> str_le(#[trigger] o[k], id@),
                total_ordering(le),
                le == (|a: Seq<char>, b: Seq<char>| str_le(a, b)),
            decreases out@.len() - pos,
        {
            assert(!le(id@, o[pos as int]));
            assert(le(id@, o[pos as int]) || le(o[pos as int], id@));
            pos = pos + 1;
        }
        let ghost n = o.insert(pos as int, id@);
        out.insert(pos, id);
        assert(strs(out@) =~= n);
        assert forall|a: int, b: int| 0 <= a < b < n.len() implies #[trigger] le(n[a], n[b]) by {
            if b < pos {
                assert(n[a] == o[a] && n[b] == o[b]);
            } else if b == pos {
                assert(n[a] == o[a]);
            } else if a == pos {
                assert(n[b] == o[b - 1]);
                assert(le(id@, o[pos as int]));
                if b - 1 > pos {
                    assert(le(o[pos as int], o[b - 1]));
                }
            } else if a < pos {
                assert(n[a] == o[a] && n[b] == o[b - 1]);
                assert(le(o[a], id@));
                assert(le(id@, o[pos as int]));
                if b - 1 > pos {
                    assert(le(o[pos as int], o[b - 1]));
                }
            } else {
                assert(n[a] == o[a - 1] && n[b] == o[b - 1]);
            }
        }
        assert(all.take(i + 1) =~= all.take(i as int).push(all[i as int]));
        proof {
            assert(id@ == all[i as int]);
            vstd::seq_lib::to_multiset_insert(o, pos as int, id@);
            vstd::seq_lib::to_multiset_build(all.take(i as int), all[i as int]);
        }
        i = i + 1;
    }
    assert(all.take(i as int) =~= all);
    out
}

} // verus!
