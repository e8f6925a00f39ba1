//! Atoms: single-fact records with a lifecycle status and freshness data.
use vstd::prelude::*;

use crate::error::{opt_view, strs, validation_view, Error, ErrorView};
use crate::model::status::Status;
use crate::text::{lemma_trim_idempotent, trim, trim_str};

verus! {

/// The error a title/body pair at `index` is refused with, if any: the title is
/// checked first, then the body.
pub open spec fn title_body_problem(index: usize, title: Seq<char>, body: Seq<char>) -> Option<
    ErrorView,
> {
    if title.len() == 0 {
        Some(validation_view(index, Some("title"@), "title must be non-empty"@))
    } else if body.len() == 0 {
        Some(validation_view(index, Some("body"@), "body must be non-empty"@))
    } else {
        None
    }
}

/// Both the title and the body of an atom or document must be non-empty.
pub fn validate_title_body(index: usize, title: &str, body: &str) -> (r: Result<(), Error>)
    ensures
        match r {
            Ok(()) => title_body_problem(index, title@, body@) is None,
            Err(e) => title_body_problem(index, title@, body@) == Some(e@),
        },
{
    if title.is_empty() {
        return Err(
            Error::validation(
                index,
                Some(String::from_str("title")),
                String::from_str("title must be non-empty"),
            ),
        );
    }
    if body.is_empty() {
        return Err(
            Error::validation(
                index,
                Some(String::from_str("body")),
                String::from_str("body must be non-empty"),
            ),
        );
    }
    Ok(())
}

/// A path as an atom keeps it: non-empty and without surrounding whitespace.
pub open spec fn is_kept_path(p: Seq<char>) -> bool {
    p.len() > 0 && trim(p) == p
}

/// The paths kept from `paths`: each one trimmed, the empty ones dropped, in order.
pub open spec fn kept_paths(paths: Seq<Seq<char>>) -> Seq<Seq<char>>
    decreases paths.len(),
{
    if paths.len() == 0 {
        seq![]
    } else {
        let rest = kept_paths(paths.drop_last());
        let t = trim(paths.last());
        if t.len() == 0 {
            rest
        } else {
            rest.push(t)
        }
    }
}

/// Live implementation paths an atom's body is checked against. Each path is kept
/// trimmed and non-empty; no paths means there is nothing to score against.
#[derive(Debug, PartialEq, Eq)]
pub struct ImplPaths {
    paths: Vec<String>,
}

impl View for ImplPaths {
    type V = Seq<Seq<char>>;

    closed spec fn view(&self) -> Seq<Seq<char>> {
        strs(self.paths@)
    }
}

impl ImplPaths {
    #[verifier::type_invariant]
    spec fn well_formed(self) -> bool {
        forall|i: int| 0 <= i < self.paths@.len() ==> is_kept_path(#[trigger] self.paths@[i]@)
    }

    /// The given paths, each trimmed, with the blank ones dropped.
    pub fn new(paths: Vec<String>) -> (r: Self)
        ensures
            r@ == kept_paths(strs(paths@)),
    {
        let ghost input = strs(paths@);
        let mut kept: Vec<String> = Vec::new();
        let mut i: usize = 0;
        while i < paths.len()
            invariant
                i <= paths@.len(),
                input == strs(paths@),
                strs(kept@) == kept_paths(input.take(i as int)),
                forall|k: int| 0 <= k < kept@.len() ==> is_kept_path(#[trigger] kept@[k]@),
            decreases paths@.len() - i,
        {
            let t = trim_str(paths[i].as_str());
            assert(input.take(i + 1).drop_last() =~= input.take(i as int));
            assert(input.take(i + 1).last() == paths@[i as int]@);
            if !t.as_str().is_empty() {
                proof {
                    lemma_trim_idempotent(paths@[i as int]@);
                }
                let ghost before = kept@;
                kept.push(t);
                assert(strs(kept@) =~= strs(before).push(t@));
            }
            i = i + 1;
        }
        assert(input.take(i as int) =~= input);
        ImplPaths { paths: kept }
    }

    /// Whether there are no paths.
    pub fn is_empty(&self) -> (r: bool)
        ensures
            r == (self@.len() == 0),
    {
        self.paths.len() == 0
    }

    /// The paths, in order; each is non-empty and trimmed.
    pub fn as_slice(&self) -> (r: &[String])
        ensures
            strs(r@) == self@,
            forall|i: int| 0 <= i < self@.len() ==> is_kept_path(#[trigger] self@[i]),
    {
        proof {
            use_type_invariant(self);
        }
        self.paths.as_slice()
    }
}

impl Clone for ImplPaths {
    fn clone(&self) -> (r: Self)
        ensures
            r@ == self@,
    {
        proof {
            use_type_invariant(self);
        }
        let mut copy: Vec<String> = Vec::new();
        let mut i: usize = 0;
        while i < self.paths.len()
            invariant
                i <= self.paths@.len(),
                copy@.len() == i,
                forall|k: int| 0 <= k < i ==> copy@[k]@ == self.paths@[k]@,
                forall|k: int| 0 <= k < self.paths@.len() ==> is_kept_path(#[trigger] self.paths@[k]@),
            decreases self.paths@.len() - i,
        {
            copy.push(self.paths[i].clone());
            i = i + 1;
        }
        assert(strs(copy@) =~= strs(self.paths@));
        ImplPaths { paths: copy }
    }
}

impl From<&str> for ImplPaths {
    /// The one path, trimmed; no path when it is blank.
    fn from(value: &str) -> (r: Self)
        ensures
            r@ == kept_paths(seq![value@]),
    {
        let mut v: Vec<String> = Vec::new();
        v.push(String::from_str(value));
        let r = ImplPaths::new(v);
        assert(strs(v@) =~= seq![value@]);
        r
    }
}

impl vstd::std_specs::convert::FromSpecImpl<&str> for ImplPaths {
    /// Two values with the same paths need not be the same value of the type, so no
    /// single value is named as the result; `from` states the paths instead.
    open spec fn obeys_from_spec() -> bool {
        false
    }

    open spec fn from_spec(v: &str) -> Self {
        arbitrary()
    }
}

impl From<String> for ImplPaths {
    /// The one path, trimmed; no path when it is blank.
    fn from(value: String) -> (r: Self)
        ensures
            r@ == kept_paths(seq![value@]),
    {
        let ghost s = value@;
        let mut v: Vec<String> = Vec::new();
        v.push(value);
        assert(strs(v@) =~= seq![s]);
        ImplPaths::new(v)
    }
}

impl vstd::std_specs::convert::FromSpecImpl<String> for ImplPaths {
    /// As for `&str`: `from` states the paths of the result.
    open spec fn obeys_from_spec() -> bool {
        false
    }

    open spec fn from_spec(v: String) -> Self {
        arbitrary()
    }
}

impl Default for ImplPaths {
    fn default() -> (r: Self)
        ensures
            r@ == Seq::<Seq<char>>::empty(),
    {
        let r = ImplPaths { paths: Vec::new() };
        assert(strs(r.paths@) =~= Seq::<Seq<char>>::empty());
        r
    }
}

/// What is known of an atom's freshness. `S` is the type of the score.
#[derive(Debug, PartialEq, Eq)]
pub struct Freshness<S> {
    /// When the atom was last checked against its implementation.
    pub last_verified: Option<String>,
    pub impl_path: ImplPaths,
    pub score: Option<S>,
}

pub struct FreshnessView<S> {
    pub last_verified: Option<Seq<char>>,
    pub impl_path: Seq<Seq<char>>,
    pub score: Option<S>,
}

impl<S> View for Freshness<S> {
    type V = FreshnessView<S>;

    open spec fn view(&self) -> FreshnessView<S> {
        FreshnessView {
            last_verified: opt_view(self.last_verified),
            impl_path: self.impl_path@,
            score: self.score,
        }
    }
}

/// Freshness with nothing recorded.
pub open spec fn empty_freshness<S>() -> FreshnessView<S> {
    FreshnessView { last_verified: None, impl_path: Seq::empty(), score: None }
}

/// Whether nothing is recorded.
pub open spec fn freshness_is_empty<S>(f: FreshnessView<S>) -> bool {
    f.last_verified is None && f.impl_path.len() == 0 && f.score is None
}

/// A copy of an optional string.
pub fn copy_opt_string(o: &Option<String>) -> (r: Option<String>)
    ensures
        opt_view(r) == opt_view(*o),
{
    match o {
        Some(s) => Some(s.clone()),
        None => None,
    }
}

/// A copy of a list of strings.
pub fn copy_strings(v: &Vec<String>) -> (r: Vec<String>)
    ensures
        strs(r@) == strs(v@),
{
    let mut out: Vec<String> = Vec::new();
    let mut i: usize = 0;
    while i < v.len()
        invariant
            i <= v@.len(),
            out@.len() == i,
            forall|k: int| 0 <= k < i ==> out@[k]@ == v@[k]@,
        decreases v@.len() - i,
    {
        out.push(v[i].clone());
        i = i + 1;
    }
    assert(strs(out@) =~= strs(v@));
    out
}

impl<S> Freshness<S> {
    /// Whether nothing is recorded: no verification time, no paths, no score.
    pub fn is_empty(&self) -> (r: bool)
        ensures
            r == freshness_is_empty(self@),
    {
        self.last_verified.is_none() && self.impl_path.is_empty() && self.score.is_none()
    }
}

impl<S: Copy> Clone for Freshness<S> {
    fn clone(&self) -> (r: Self)
        ensures
            r@ == self@,
    {
        Freshness {
            last_verified: copy_opt_string(&self.last_verified),
            impl_path: self.impl_path.clone(),
            score: self.score,
        }
    }
}

impl<S> Default for Freshness<S> {
    fn default() -> (r: Self)
        ensures
            r@ == empty_freshness::<S>(),
    {
        Freshness { last_verified: None, impl_path: ImplPaths::default(), score: None }
    }
}

/// One fact: an id, a lifecycle status, a title, tags, freshness data and a body.
#[derive(Debug, PartialEq, Eq)]
pub struct Atom<S> {
    pub id: String,
    pub status: Status,
    pub title: String,
    pub tags: Vec<String>,
    pub freshness: Freshness<S>,
    pub body: String,
}

pub struct AtomView<S> {
    pub id: Seq<char>,
    pub status: Status,
    pub title: Seq<char>,
    pub tags: Seq<Seq<char>>,
    pub freshness: FreshnessView<S>,
    pub body: Seq<char>,
}

impl<S> View for Atom<S> {
    type V = AtomView<S>;

    open spec fn view(&self) -> AtomView<S> {
        AtomView {
            id: self.id@,
            status: self.status,
            title: self.title@,
            tags: strs(self.tags@),
            freshness: self.freshness@,
            body: self.body@,
        }
    }
}

/// The views of a sequence of atoms.
pub open spec fn atom_views<S>(atoms: Seq<Atom<S>>) -> Seq<AtomView<S>> {
    atoms.map_values(|a: Atom<S>| a@)
}

impl<S: Copy> Clone for Atom<S> {
    fn clone(&self) -> (r: Self)
        ensures
            r@ == self@,
    {
        Atom {
            id: self.id.clone(),
            status: self.status,
            title: self.title.clone(),
            tags: copy_strings(&self.tags),
            freshness: self.freshness.clone(),
            body: self.body.clone(),
        }
    }
}

/// Every kept path is trimmed and non-empty.
pub proof fn lemma_kept_paths_are_kept(paths: Seq<Seq<char>>)
    ensures
        forall|i: int| 0 <= i < kept_paths(paths).len() ==> is_kept_path(#[trigger] kept_paths(paths)[i]),
    decreases paths.len(),
{
    if paths.len() > 0 {
        let rest = kept_paths(paths.drop_last());
        lemma_kept_paths_are_kept(paths.drop_last());
        lemma_trim_idempotent(paths.last());
        assert forall|i: int| 0 <= i < kept_paths(paths).len() implies is_kept_path(
            #[trigger] kept_paths(paths)[i],
        ) by {
            if i < rest.len() {
                assert(kept_paths(paths)[i] == rest[i]);
            }
        }
    }
}

/// Keeping paths is idempotent: paths already kept are kept as they are.
pub proof fn lemma_kept_paths_idempotent(paths: Seq<Seq<char>>)
    ensures
        kept_paths(kept_paths(paths)) == kept_paths(paths),
    decreases paths.len(),
{
    if paths.len() > 0 {
        let rest = kept_paths(paths.drop_last());
        lemma_kept_paths_idempotent(paths.drop_last());
        let t = trim(paths.last());
        if t.len() > 0 {
            lemma_trim_idempotent(paths.last());
            assert(rest.push(t).drop_last() =~= rest);
        }
    }
}

} // verus!
