//! Editing atoms in a batch: titles, tags, bodies and freshness may change; ids and
//! statuses may not.
use vstd::prelude::*;

use crate::error::{opt_view, strs, validation_view, Error, ErrorView};
use crate::model::atom::{
    atom_views, copy_strings, Atom, AtomView, Freshness, FreshnessView, ImplPaths,
};
use crate::model::status::Status;
use crate::text::{push_str, str_eq};

verus! {

/// New freshness values; a key left `None` keeps the atom's value.
#[derive(Debug, PartialEq, Eq)]
pub struct FreshnessPatch<S> {
    pub last_verified: Option<String>,
    pub impl_path: Option<ImplPaths>,
    pub score: Option<S>,
}

pub struct FreshnessPatchView<S> {
    pub last_verified: Option<Seq<char>>,
    pub impl_path: Option<Seq<Seq<char>>>,
    pub score: Option<S>,
}

impl<S> View for FreshnessPatch<S> {
    type V = FreshnessPatchView<S>;

    open spec fn view(&self) -> FreshnessPatchView<S> {
        FreshnessPatchView {
            last_verified: opt_view(self.last_verified),
            impl_path: match self.impl_path {
                Some(p) => Some(p@),
                None => None,
            },
            score: self.score,
        }
    }
}

impl<S> Default for FreshnessPatch<S> {
    fn default() -> (r: Self)
        ensures
            r@ == (FreshnessPatchView::<S> { last_verified: None, impl_path: None, score: None }),
    {
        FreshnessPatch { last_verified: None, impl_path: None, score: None }
    }
}

/// An edit of the atom with id `id`. A field left `None` is not changed; a
/// `status` may only repeat the atom's status.
#[derive(Debug, PartialEq, Eq)]
pub struct EditPatch<S> {
    pub id: String,
    pub title: Option<String>,
    pub tags: Option<Vec<String>>,
    pub body: Option<String>,
    /// `None`: the key was omitted; `Some`, even with nothing in it: the key appeared.
    pub freshness: Option<FreshnessPatch<S>>,
    pub status: Option<Status>,
}

pub struct EditPatchView<S> {
    pub id: Seq<char>,
    pub title: Option<Seq<char>>,
    pub tags: Option<Seq<Seq<char>>>,
    pub body: Option<Seq<char>>,
    pub freshness: Option<FreshnessPatchView<S>>,
    pub status: Option<Status>,
}

impl<S> View for EditPatch<S> {
    type V = EditPatchView<S>;

    open spec fn view(&self) -> EditPatchView<S> {
        EditPatchView {
            id: self.id@,
            title: opt_view(self.title),
            tags: match self.tags {
                Some(t) => Some(strs(t@)),
                None => None,
            },
            body: opt_view(self.body),
            freshness: match self.freshness {
                Some(f) => Some(f@),
                None => None,
            },
            status: self.status,
        }
    }
}

/// The views of a sequence of patches.
pub open spec fn patch_views<S>(patches: Seq<EditPatch<S>>) -> Seq<EditPatchView<S>> {
    patches.map_values(|p: EditPatch<S>| p@)
}

/// A patch changes something: a title, tags, a body or freshness.
pub open spec fn changes_something<S>(p: EditPatchView<S>) -> bool {
    p.title is Some || p.tags is Some || p.body is Some || p.freshness is Some
}

impl<S> EditPatch<S> {
    /// Whether the patch sets any field that may change.
    pub fn has_mutable_field(&self) -> (r: bool)
        ensures
            r == changes_something(self@),
    {
        self.title.is_some() || self.tags.is_some() || self.body.is_some()
            || self.freshness.is_some()
    }
}

/// Freshness with the patch's keys taking the place of the old ones.
pub open spec fn merged<S>(old: FreshnessView<S>, p: FreshnessPatchView<S>) -> FreshnessView<S> {
    FreshnessView {
        last_verified: if p.last_verified is Some {
            p.last_verified
        } else {
            old.last_verified
        },
        impl_path: match p.impl_path {
            Some(paths) => paths,
            None => old.impl_path,
        },
        score: if p.score is Some {
            p.score
        } else {
            old.score
        },
    }
}

/// What the patch at `index` makes of `atom`: a status other than the atom's is
/// refused first; then a patch that changes nothing; then an empty title, then an
/// empty body. Otherwise every field the patch sets is replaced and freshness is merged.
pub open spec fn edit_result<S>(index: usize, atom: AtomView<S>, p: EditPatchView<S>) -> Result<
    AtomView<S>,
    ErrorView,
> {
    if p.status is Some && p.status.unwrap() != atom.status {
        Err(ErrorView::ImmutableField { index, field: "status"@ })
    } else if !changes_something(p) {
        Err(
            validation_view(
                index,
                None,
                "edit requires at least one of title, tags, body, freshness"@,
            ),
        )
    } else if p.title is Some && p.title.unwrap().len() == 0 {
        Err(validation_view(index, Some("title"@), "title must be non-empty"@))
    } else if p.body is Some && p.body.unwrap().len() == 0 {
        Err(validation_view(index, Some("body"@), "body must be non-empty"@))
    } else {
        Ok(
            AtomView {
                title: match p.title {
                    Some(t) => t,
                    None => atom.title,
                },
                body: match p.body {
                    Some(b) => b,
                    None => atom.body,
                },
                tags: match p.tags {
                    Some(t) => t,
                    None => atom.tags,
                },
                freshness: match p.freshness {
                    Some(f) => merged(atom.freshness, f),
                    None => atom.freshness,
                },
                ..atom
            },
        )
    }
}

/// The index of the first atom at or after `i` whose id is `id`.
pub open spec fn position_from<S>(atoms: Seq<AtomView<S>>, id: Seq<char>, i: int) -> Option<int>
    decreases atoms.len() - i,
{
    if i < 0 || i >= atoms.len() {
        None
    } else if atoms[i].id == id {
        Some(i)
    } else {
        position_from(atoms, id, i + 1)
    }
}

/// The error of a patch whose atom is not in the batch.
pub open spec fn missing_atom_error(index: int, id: Seq<char>) -> ErrorView {
    validation_view(index as usize, Some("id"@), "atom `"@ + id + "` not in batch"@)
}

/// Applying the patches from index `i` on, to the working copy `working`, after the
/// edited atoms `out`: each patch edits the first atom with its id, and later
/// patches see earlier edits. The first failing patch's error is the result.
pub open spec fn edits_from<S>(
    working: Seq<AtomView<S>>,
    patches: Seq<EditPatchView<S>>,
    i: int,
    out: Seq<AtomView<S>>,
) -> Result<Seq<AtomView<S>>, ErrorView>
    decreases patches.len() - i,
{
    if i < 0 || i >= patches.len() {
        Ok(out)
    } else {
        match position_from(working, patches[i].id, 0) {
            None => Err(missing_atom_error(i, patches[i].id)),
            Some(pos) => match edit_result(i as usize, working[pos], patches[i]) {
                Err(e) => Err(e),
                Ok(a) => edits_from(working.update(pos, a), patches, i + 1, out.push(a)),
            },
        }
    }
}

/// Freshness with the patch's keys in place of the old ones.
pub fn merge_freshness<S: Copy>(old: Freshness<S>, patch: &FreshnessPatch<S>) -> (r: Freshness<S>)
    ensures
        r@ == merged(old@, patch@),
{
    let last_verified = match &patch.last_verified {
        Some(v) => Some(v.clone()),
        None => old.last_verified,
    };
    let impl_path = match &patch.impl_path {
        Some(p) => p.clone(),
        None => old.impl_path,
    };
    let score = match patch.score {
        Some(s) => Some(s),
        None => old.score,
    };
    Freshness { last_verified, impl_path, score }
}

/// Applies the patch at `index` to `atom`.
pub fn apply_one<S: Copy>(index: usize, atom: Atom<S>, patch: &EditPatch<S>) -> (r: Result<
    Atom<S>,
    Error,
>)
    ensures
        match r {
            Ok(a) => edit_result(index, atom@, patch@) == Ok::<AtomView<S>, ErrorView>(a@),
            Err(e) => edit_result(index, atom@, patch@) == Err::<AtomView<S>, ErrorView>(e@),
        },
{
    let mut atom = atom;
    if let Some(status) = patch.status {
        if status != atom.status {
            return Err(Error::ImmutableField { index, field: String::from_str("status") });
        }
    }
    if !patch.has_mutable_field() {
        return Err(
            Error::validation(
                index,
                None,
                String::from_str("edit requires at least one of title, tags, body, freshness"),
            ),
        );
    }
    if let Some(title) = &patch.title {
        if title.as_str().is_empty() {
            return Err(
                Error::validation(
                    index,
                    Some(String::from_str("title")),
                    String::from_str("title must be non-empty"),
                ),
            );
        }
    }
    if let Some(body) = &patch.body {
        if body.as_str().is_empty() {
            return Err(
                Error::validation(
                    index,
                    Some(String::from_str("body")),
                    String::from_str("body must be non-empty"),
                ),
            );
        }
    }
    if let Some(title) = &patch.title {
        atom.title = title.clone();
    }
    if let Some(body) = &patch.body {
        atom.body = body.clone();
    }
    if let Some(tags) = &patch.tags {
        atom.tags = copy_strings(tags);
    }
    if let Some(freshness) = &patch.freshness {
        let old = atom.freshness;
        atom.freshness = merge_freshness(old, freshness);
    }
    Ok(atom)
}

/// Applies each patch, in order, to the first atom of `current` with its id; a
/// later patch sees the edits of earlier ones. Returns the edited atom of each
/// patch, in patch order, or the error of the first patch that fails.
pub fn apply_edits<S: Copy>(current: &[Atom<S>], patches: &[EditPatch<S>]) -> (r: Result<
    Vec<Atom<S>>,
    Error,
>)
    ensures
        match r {
            Ok(out) => edits_from(atom_views(current@), patch_views(patches@), 0, seq![]) == Ok::<
                Seq<AtomView<S>>,
                ErrorView,
            >(atom_views(out@)),
            Err(e) => edits_from(atom_views(current@), patch_views(patches@), 0, seq![]) == Err::<
                Seq<AtomView<S>>,
                ErrorView,
            >(e@),
        },
{
    let ghost ps = patch_views(patches@);
    let mut working: Vec<Atom<S>> = Vec::new();
    let mut k: usize = 0;
    while k < current.len()
        invariant
            k <= current@.len(),
            atom_views(working@) == atom_views(current@).take(k as int),
        decreases current@.len() - k,
    {
        let ghost before = working@;
        working.push(current[k].clone());
        assert(atom_views(working@) =~= atom_views(before).push(current@[k as int]@));
        assert(atom_views(working@) =~= atom_views(current@).take(k + 1));
        k = k + 1;
    }
    assert(atom_views(current@).take(k as int) =~= atom_views(current@));
    let mut out: Vec<Atom<S>> = Vec::new();
    assert(atom_views(out@) =~= Seq::<AtomView<S>>::empty());
    let mut i: usize = 0;
    while i < patches.len()
        invariant
            i <= patches@.len(),
            ps == patch_views(patches@),
            edits_from(atom_views(current@), ps, 0, seq![]) == edits_from(
                atom_views(working@),
                ps,
                i as int,
                atom_views(out@),
            ),
        decreases patches@.len() - i,
    {
        let patch = &patches[i];
        assert(ps[i as int] == patch@);
        let ghost wv = atom_views(working@);
        let mut pos: usize = 0;
        while pos < working.len() && !str_eq(working[pos].id.as_str(), patch.id.as_str())
            invariant
                pos <= working@.len(),
                wv == atom_views(working@),
                position_from(wv, patch@.id, 0) == position_from(wv, patch@.id, pos as int),
            decreases working@.len() - pos,
        {
            assert(wv[pos as int].id == working@[pos as int].id@);
            pos = pos + 1;
        }
        if pos == working.len() {
            let mut message = String::new();
            push_str(&mut message, "atom `");
            push_str(&mut message, patch.id.as_str());
            push_str(&mut message, "` not in batch");
            return Err(Error::validation(i, Some(String::from_str("id")), message));
        }
        assert(wv[pos as int].id == working@[pos as int].id@);
        assert(wv[pos as int] == working@[pos as int]@);
        let applied = match apply_one(i, working[pos].clone(), patch) {
            Ok(a) => a,
            Err(e) => {
                return Err(e);
            },
        };
        let ghost ov = atom_views(out@);
        working.set(pos, applied.clone());
        assert(atom_views(working@) =~= wv.update(pos as int, applied@));
        out.push(applied);
        assert(atom_views(out@) =~= ov.push(applied@));
        i = i + 1;
    }
    Ok(out)
}

/// An edit never changes an atom's id or status.
pub proof fn lemma_edit_keeps_id_and_status<S>(index: usize, atom: AtomView<S>, p: EditPatchView<S>)
    ensures
        edit_result(index, atom, p) matches Ok(a) ==> a.id == atom.id && a.status == atom.status,
{
}

/// A freshness patch with no keys keeps the freshness as it was.
pub proof fn lemma_empty_freshness_patch_keeps<S>(old: FreshnessView<S>)
    ensures
        merged(old, FreshnessPatchView { last_verified: None, impl_path: None, score: None })
            == old,
{
}

/// `position_from` finds an atom with the id, and none before it.
proof fn lemma_position_from<S>(atoms: Seq<AtomView<S>>, id: Seq<char>, i: int)
    requires
        0 <= i,
    ensures
        position_from(atoms, id, i) matches Some(k) ==> i <= k < atoms.len() && atoms[k].id == id,
    decreases atoms.len() - i,
{
    if i < atoms.len() && atoms[i].id != id {
        lemma_position_from(atoms, id, i + 1);
    }
}

/// An edited atom carries what its patch sets: the patch's id, and the patch's
/// value for each title, body, tags and freshness key the patch holds.
pub open spec fn carries_patch<S>(a: AtomView<S>, p: EditPatchView<S>) -> bool {
    &&& a.id == p.id
    &&& (p.title matches Some(t) ==> a.title == t)
    &&& (p.body matches Some(b) ==> a.body == b)
    &&& (p.tags matches Some(t) ==> a.tags == t)
    &&& (p.freshness matches Some(f) ==> {
        &&& (f.last_verified matches Some(v) ==> a.freshness.last_verified == Some(v))
        &&& (f.impl_path matches Some(ps) ==> a.freshness.impl_path == ps)
        &&& (f.score matches Some(s) ==> a.freshness.score == Some(s))
    })
}

proof fn lemma_edits_from_ids<S>(
    working: Seq<AtomView<S>>,
    patches: Seq<EditPatchView<S>>,
    i: int,
    out: Seq<AtomView<S>>,
)
    requires
        0 <= i <= patches.len(),
    ensures
        edits_from(working, patches, i, out) matches Ok(r) ==> {
            &&& r.len() == out.len() + patches.len() - i
            &&& r.take(out.len() as int) == out
            &&& forall|j: int|
                i <= j < patches.len() ==> carries_patch(#[trigger] r[out.len() + j - i], patches[j])
        },
    decreases patches.len() - i,
{
    if i < patches.len() {
        lemma_position_from(working, patches[i].id, 0);
        if let Some(pos) = position_from(working, patches[i].id, 0) {
            if let Ok(a) = edit_result(i as usize, working[pos], patches[i]) {
                lemma_edit_sets_patched_fields(i as usize, working[pos], patches[i]);
                assert(carries_patch(a, patches[i]));
                let w2 = working.update(pos, a);
                let o2 = out.push(a);
                lemma_edits_from_ids(w2, patches, i + 1, o2);
                if let Ok(r) = edits_from(w2, patches, i + 1, o2) {
                    assert(r.take(out.len() as int) =~= o2.take(out.len() as int));
                    assert(r[out.len() as int] == o2[out.len() as int]);
                    assert forall|j: int| i <= j < patches.len() implies carries_patch(
                        #[trigger] r[out.len() + j - i],
                        patches[j],
                    ) by {
                        if j > i {
                            assert(carries_patch(r[o2.len() + j - (i + 1)], patches[j]));
                        }
                    }
                }
            }
        }
    } else {
        assert(out.take(out.len() as int) =~= out);
    }
}

/// Applying edits returns one atom per patch, in patch order, each carrying the
/// id of its patch and every value its patch sets (a present freshness key, such
/// as a new `last-verified`, replaces the old value).
pub proof fn lemma_edits_carry_patch_ids<S>(current: Seq<AtomView<S>>, patches: Seq<EditPatchView<S>>)
    ensures
        edits_from(current, patches, 0, seq![]) matches Ok(r) ==> r.len() == patches.len() && forall|
            j: int,
        |
            0 <= j < patches.len() ==> #[trigger] r[j].id == patches[j].id && carries_patch(
                r[j],
                patches[j],
            ),
{
    lemma_edits_from_ids(current, patches, 0, seq![]);
    if let Ok(r) = edits_from(current, patches, 0, seq![]) {
        assert forall|j: int| 0 <= j < patches.len() implies #[trigger] r[j].id == patches[j].id
            && carries_patch(r[j], patches[j]) by {
            assert(carries_patch(r[0 + j - 0], patches[j]));
        }
    }
}

/// A freshness patch overrides key by key: every key present in the patch takes
/// the patch's value, and every absent key keeps the old one.
pub proof fn lemma_freshness_patch_overrides<S>(old: FreshnessView<S>, p: FreshnessPatchView<S>)
    ensures
        p.last_verified matches Some(v) ==> merged(old, p).last_verified == Some(v),
        p.last_verified is None ==> merged(old, p).last_verified == old.last_verified,
        p.impl_path matches Some(paths) ==> merged(old, p).impl_path == paths,
        p.impl_path is None ==> merged(old, p).impl_path == old.impl_path,
        p.score matches Some(s) ==> merged(old, p).score == Some(s),
        p.score is None ==> merged(old, p).score == old.score,
{
}

/// An accepted edit sets every field its patch carries to the patch's value:
/// title, body and tags are replaced, each freshness key present in the patch
/// replaces the old one, and everything the patch leaves out is kept.
pub proof fn lemma_edit_sets_patched_fields<S>(index: usize, atom: AtomView<S>, p: EditPatchView<S>)
    ensures
        edit_result(index, atom, p) matches Ok(a) ==> {
            &&& a.id == atom.id && a.status == atom.status
            &&& (p.title matches Some(t) ==> a.title == t)
            &&& (p.title is None ==> a.title == atom.title)
            &&& (p.body matches Some(b) ==> a.body == b)
            &&& (p.body is None ==> a.body == atom.body)
            &&& (p.tags matches Some(t) ==> a.tags == t)
            &&& (p.tags is None ==> a.tags == atom.tags)
            &&& (p.freshness is None ==> a.freshness == atom.freshness)
            &&& (p.freshness matches Some(f) ==> {
                &&& (f.last_verified matches Some(v) ==> a.freshness.last_verified == Some(v))
                &&& (f.last_verified is None ==> a.freshness.last_verified
                    == atom.freshness.last_verified)
                &&& (f.impl_path matches Some(ps) ==> a.freshness.impl_path == ps)
                &&& (f.impl_path is None ==> a.freshness.impl_path == atom.freshness.impl_path)
                &&& (f.score matches Some(s) ==> a.freshness.score == Some(s))
                &&& (f.score is None ==> a.freshness.score == atom.freshness.score)
            })
        },
{
    if let Some(f) = p.freshness {
        lemma_freshness_patch_overrides(atom.freshness, f);
    }
}

/// Status and id never change through an edit: a patch naming another status
/// than the atom's is refused, and a patch that changes nothing, an empty title
/// or an empty body is refused.
pub proof fn lemma_edit_refusals<S>(index: usize, atom: AtomView<S>, p: EditPatchView<S>)
    ensures
        (p.status matches Some(s) && s != atom.status) ==> edit_result(index, atom, p)
            == Err::<AtomView<S>, ErrorView>(
            ErrorView::ImmutableField { index, field: "status"@ },
        ),
        (p.title is None && p.tags is None && p.body is None && p.freshness is None) ==> edit_result(
            index,
            atom,
            p,
        ) is Err,
        (p.title matches Some(t) && t.len() == 0) ==> edit_result(index, atom, p) is Err,
        (p.body matches Some(b) && b.len() == 0) ==> edit_result(index, atom, p) is Err,
        edit_result(index, atom, p) is Ok ==> (p.status is None || p.status == Some(atom.status)),
{
}

} // verus!
