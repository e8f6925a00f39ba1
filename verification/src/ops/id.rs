//! Turning slugs into ids, reporting every slug that is already taken.
use vstd::prelude::*;

use crate::error::{strs, Error, ErrorView, SlugConflict, SlugConflictView};
use crate::keyed::{find_key, keyed_view, keys_distinct, lookup};
use crate::model::status::Status;

verus! {

/// Why a slug is taken before a batch is written.
#[derive(Clone, Copy, Debug, PartialEq, Eq, Structural)]
pub enum Occupied {
    /// An atom with this id exists on disk, with this status.
    Disk(Status),
}

/// The conflict, if any, of the slug at index `i`: taken on disk, or repeated
/// earlier in the batch.
pub open spec fn conflict_at(slugs: Seq<Seq<char>>, occupied: Seq<(Seq<char>, Occupied)>, i: int) -> Seq<
    SlugConflictView,
> {
    match lookup(occupied, slugs[i]) {
        Some(Occupied::Disk(status)) => seq![
            SlugConflictView { index: i as usize, slug: slugs[i], status: Some(status) },
        ],
        None => if slugs.take(i).contains(slugs[i]) {
            seq![SlugConflictView { index: i as usize, slug: slugs[i], status: None }]
        } else {
            seq![]
        },
    }
}

/// The conflicts of the first `n` slugs, in order.
pub open spec fn conflicts_upto(
    slugs: Seq<Seq<char>>,
    occupied: Seq<(Seq<char>, Occupied)>,
    n: int,
) -> Seq<SlugConflictView>
    decreases n,
{
    if n <= 0 {
        seq![]
    } else {
        conflicts_upto(slugs, occupied, n - 1) + conflict_at(slugs, occupied, n - 1)
    }
}

/// The ids issued for the first `n` slugs: those without a conflict, in order.
pub open spec fn ids_upto(slugs: Seq<Seq<char>>, occupied: Seq<(Seq<char>, Occupied)>, n: int) -> Seq<
    Seq<char>,
>
    decreases n,
{
    if n <= 0 {
        seq![]
    } else {
        ids_upto(slugs, occupied, n - 1) + if conflict_at(slugs, occupied, n - 1).len() == 0 {
            seq![slugs[n - 1]]
        } else {
            seq![]
        }
    }
}

/// What assigning ids gives: every conflict when there is one, otherwise the
/// slugs themselves, in order.
pub open spec fn assign_result(slugs: Seq<Seq<char>>, occupied: Seq<(Seq<char>, Occupied)>) -> Result<
    Seq<Seq<char>>,
    ErrorView,
> {
    let conflicts = conflicts_upto(slugs, occupied, slugs.len() as int);
    if conflicts.len() > 0 {
        Err(ErrorView::SlugConflict { conflicts })
    } else {
        Ok(ids_upto(slugs, occupied, slugs.len() as int))
    }
}

/// Whether `s` is among the first `n` slugs.
fn seen_before(slugs: &Vec<String>, n: usize, s: &String) -> (r: bool)
    requires
        n <= slugs@.len(),
    ensures
        r == strs(slugs@).take(n as int).contains(s@),
{
    let mut j: usize = 0;
    while j < n
        invariant
            n <= slugs@.len(),
            j <= n,
            forall|k: int| 0 <= k < j ==> strs(slugs@)[k] != s@,
        decreases n - j,
    {
        if slugs[j] == *s {
            assert(strs(slugs@).take(n as int)[j as int] == s@);
            return true;
        }
        j = j + 1;
    }
    assert forall|k: int| 0 <= k < n implies strs(slugs@).take(n as int)[k] != s@ by {
        assert(strs(slugs@).take(n as int)[k] == strs(slugs@)[k]);
    }
    false
}

/// Uses each slug as the id of the new atom at its index. A slug already taken on
/// disk, or repeated earlier in the batch, is a conflict; every conflict is
/// reported, and no id is issued when there is one.
///
/// `occupied` lists the ids on disk as `(id, Occupied)` pairs with distinct ids.
pub fn assign_ids(slugs: &Vec<String>, occupied: &Vec<(String, Occupied)>) -> (r: Result<
    Vec<String>,
    Error,
>)
    requires
        keys_distinct(keyed_view(occupied@)),
    ensures
        match r {
            Ok(ids) => assign_result(strs(slugs@), keyed_view(occupied@)) == Ok::<
                Seq<Seq<char>>,
                ErrorView,
            >(strs(ids@)),
            Err(e) => assign_result(strs(slugs@), keyed_view(occupied@)) == Err::<
                Seq<Seq<char>>,
                ErrorView,
            >(e@),
        },
{
    let ghost ss = strs(slugs@);
    let ghost occ = keyed_view(occupied@);
    let mut conflicts: Vec<SlugConflict> = Vec::new();
    let mut ids: Vec<String> = Vec::new();
    let mut i: usize = 0;
    while i < slugs.len()
        invariant
            i <= slugs@.len(),
            ss == strs(slugs@),
            occ == keyed_view(occupied@),
            conflicts@.map_values(|c: SlugConflict| c@) == conflicts_upto(ss, occ, i as int),
            strs(ids@) == ids_upto(ss, occ, i as int),
        decreases slugs@.len() - i,
    {
        let slug = &slugs[i];
        assert(ss[i as int] == slug@);
        let ghost cs_before = conflicts@;
        let ghost ids_before = ids@;
        match find_key(occupied, slug.as_str()) {
            Some(k) => {
                let Occupied::Disk(status) = occupied[k].1;
                conflicts.push(SlugConflict { index: i, slug: slug.clone(), status: Some(status) });
                assert(conflicts@.map_values(|c: SlugConflict| c@) =~= cs_before.map_values(
                    |c: SlugConflict| c@,
                ) + conflict_at(ss, occ, i as int));
                assert(strs(ids@) =~= ids_upto(ss, occ, i + 1));
            },
            None => {
                if seen_before(slugs, i, slug) {
                    conflicts.push(SlugConflict { index: i, slug: slug.clone(), status: None });
                    assert(conflicts@.map_values(|c: SlugConflict| c@) =~= cs_before.map_values(
                        |c: SlugConflict| c@,
                    ) + conflict_at(ss, occ, i as int));
                    assert(strs(ids@) =~= ids_upto(ss, occ, i + 1));
                } else {
                    ids.push(slug.clone());
                    assert(strs(ids@) =~= strs(ids_before) + seq![slug@]);
                    assert(conflicts@.map_values(|c: SlugConflict| c@) =~= conflicts_upto(
                        ss,
                        occ,
                        i + 1,
                    ));
                }
            },
        }
        i = i + 1;
    }
    if conflicts.len() > 0 {
        return Err(Error::SlugConflict { conflicts });
    }
    Ok(ids)
}

/// When no slug conflicts, the ids issued are the slugs themselves, in order.
proof fn lemma_ids_are_slugs(slugs: Seq<Seq<char>>, occupied: Seq<(Seq<char>, Occupied)>, n: int)
    requires
        0 <= n <= slugs.len(),
        conflicts_upto(slugs, occupied, n).len() == 0,
    ensures
        ids_upto(slugs, occupied, n) == slugs.take(n),
    decreases n,
{
    if n > 0 {
        lemma_ids_are_slugs(slugs, occupied, n - 1);
        assert(slugs.take(n) =~= slugs.take(n - 1) + seq![slugs[n - 1]]);
    } else {
        assert(slugs.take(0) =~= Seq::<Seq<char>>::empty());
    }
}

/// Assigning ids either reports conflicts or uses every slug as the id at its
/// index: the ids are exactly the slugs, in order.
pub proof fn lemma_assigned_ids_are_slugs(slugs: Seq<Seq<char>>, occupied: Seq<(Seq<char>, Occupied)>)
    ensures
        assign_result(slugs, occupied) is Ok ==> assign_result(slugs, occupied) == Ok::<
            Seq<Seq<char>>,
            ErrorView,
        >(slugs),
{
    if assign_result(slugs, occupied) is Ok {
        lemma_ids_are_slugs(slugs, occupied, slugs.len() as int);
        assert(slugs.take(slugs.len() as int) =~= slugs);
    }
}

proof fn lemma_no_conflict_at(slugs: Seq<Seq<char>>, occupied: Seq<(Seq<char>, Occupied)>, n: int, i: int)
    requires
        0 <= i < n <= slugs.len(),
        conflicts_upto(slugs, occupied, n).len() == 0,
    ensures
        conflict_at(slugs, occupied, i).len() == 0,
    decreases n,
{
    if i < n - 1 {
        lemma_no_conflict_at(slugs, occupied, n - 1, i);
    }
}

/// Every id issued is new: none is taken on disk, and no two are the same.
pub proof fn lemma_assigned_ids_are_fresh(slugs: Seq<Seq<char>>, occupied: Seq<(Seq<char>, Occupied)>)
    ensures
        assign_result(slugs, occupied) matches Ok(ids) ==> {
            &&& forall|i: int| 0 <= i < ids.len() ==> lookup(occupied, #[trigger] ids[i]) is None
            &&& forall|i: int, j: int| 0 <= i < j < ids.len() ==> ids[i] != ids[j]
        },
{
    lemma_assigned_ids_are_slugs(slugs, occupied);
    if let Ok(ids) = assign_result(slugs, occupied) {
        let n = slugs.len() as int;
        assert forall|i: int| 0 <= i < ids.len() implies lookup(occupied, #[trigger] ids[i]) is None by {
            lemma_no_conflict_at(slugs, occupied, n, i);
        }
        assert forall|i: int, j: int| 0 <= i < j < ids.len() implies ids[i] != ids[j] by {
            lemma_no_conflict_at(slugs, occupied, n, j);
            assert(slugs.take(j)[i] == slugs[i]);
        }
    }
}

} // verus!
