//! The parts of freshness scoring that decide rather than weigh: which atoms are
//! scored, whether the implementation exists, how long ago the atom was verified,
//! the weight table, and the code-like words of a body.
use vstd::prelude::*;

use crate::error::strs;
use crate::model::atom::{Atom, AtomView};
use crate::model::timestamp::{
    epoch_ok, epoch_secs, is_valid_timestamp, lemma_before_is_earlier, lemma_parsed_epoch_ok,
    lemma_verified_stamp_reads_back, parse_verified, secs_since, ts_before, Timestamp,
};
use crate::ops::activate::activate_result;
use crate::text::{ascii_lower, ascii_lower_exec, chars_of, string_of};

verus! {

/// How a factor takes part in the total. Scores are combined by kind, never by id.
#[derive(Clone, Copy, Debug, PartialEq, Eq, Structural)]
pub enum FactorKind {
    Gate,
    Weighted,
    Multiplier,
    Observe,
}

/// The id of the all-or-nothing factor: every source file of the atom exists.
pub const IMPL_EXISTS_ID: &'static str = "impl-exists";

/// The id of the weighted factor of how current the verification is.
pub const IMPL_CURRENT_ID: &'static str = "impl-current";

/// The id of the all-or-nothing factor: the body's code words occur in its source files.
pub const BODY_IN_IMPL_ID: &'static str = "body-in-impl";

/// Seconds (180 days) over which the currency of a verification decays from full to none.
pub const HORIZON_SECS: u64 = 180 * 86_400;

/// Facts about one implementation file, gathered by the caller; the library does
/// not read the disk.
#[derive(Clone, Copy, Debug, PartialEq, Eq, Structural)]
pub struct ImplSnapshot {
    pub exists: bool,
    pub changed_at: Option<Timestamp>,
}

impl Default for ImplSnapshot {
    fn default() -> (r: Self)
        ensures
            r == (ImplSnapshot { exists: false, changed_at: None }),
    {
        ImplSnapshot { exists: false, changed_at: None }
    }
}

/// The atom names at least one implementation path, so it is scored.
pub open spec fn scored<S>(a: AtomView<S>) -> bool {
    a.freshness.impl_path.len() > 0
}

/// Whether the atom has an implementation path to be scored against.
pub fn has_impl_path<S>(atom: &Atom<S>) -> (r: bool)
    ensures
        r == scored(atom@),
{
    !atom.freshness.impl_path.is_empty()
}

/// There is at least one snapshot and every file exists.
pub open spec fn all_exist(snapshots: Seq<ImplSnapshot>) -> bool {
    snapshots.len() > 0 && forall|i: int| 0 <= i < snapshots.len() ==> #[trigger] snapshots[i].exists
}

/// Whether the `impl-exists` factor holds: there are snapshots and every file exists.
pub fn impl_exists(snapshots: &[ImplSnapshot]) -> (r: bool)
    ensures
        r == all_exist(snapshots@),
{
    if snapshots.len() == 0 {
        return false;
    }
    let mut i: usize = 0;
    while i < snapshots.len()
        invariant
            i <= snapshots@.len(),
            forall|k: int| 0 <= k < i ==> #[trigger] snapshots@[k].exists,
        decreases snapshots@.len() - i,
    {
        if !snapshots[i].exists {
            return false;
        }
        i = i + 1;
    }
    true
}

/// The file changed after the instant `verified`.
pub open spec fn changed_later(s: ImplSnapshot, verified: Timestamp) -> bool {
    match s.changed_at {
        Some(c) => ts_before(verified, c),
        None => false,
    }
}

/// Some file changed after the instant `verified`.
pub open spec fn changed_after(snapshots: Seq<ImplSnapshot>, verified: Timestamp) -> bool {
    exists|i: int| 0 <= i < snapshots.len() && changed_later(#[trigger] snapshots[i], verified)
}

/// How long before `now` the atom was verified, when that counts toward its
/// currency: `None` when it was never verified, its stamp does not read, a file
/// changed after it, or the age reached the horizon.
pub open spec fn current_age<S>(a: AtomView<S>, snapshots: Seq<ImplSnapshot>, now: Timestamp) -> Option<
    int,
> {
    match a.freshness.last_verified {
        None => None,
        Some(raw) => match parse_verified(raw) {
            None => None,
            Some(verified) => if changed_after(snapshots, verified) {
                None
            } else if secs_since(now, verified) >= HORIZON_SECS {
                None
            } else {
                Some(secs_since(now, verified))
            },
        },
    }
}

/// The age of the atom's verification that its `impl-current` value decays with:
/// the value is `1 - age / HORIZON_SECS` for `Some(age)` and `0` for `None`.
pub fn impl_current_age<S>(atom: &Atom<S>, snapshots: &[ImplSnapshot], now: Timestamp) -> (r:
    Option<u64>)
    requires
        epoch_ok(now),
    ensures
        match r {
            Some(age) => current_age(atom@, snapshots@, now) == Some(age as int),
            None => current_age(atom@, snapshots@, now) is None,
        },
{
    let raw = match &atom.freshness.last_verified {
        Some(raw) => raw,
        None => return None,
    };
    let verified = match Timestamp::parse_verified_stamp(raw.as_str()) {
        Some(t) => t,
        None => return None,
    };
    proof {
        lemma_parsed_epoch_ok(raw@);
    }
    let mut i: usize = 0;
    while i < snapshots.len()
        invariant
            i <= snapshots@.len(),
            parse_verified(raw@) == Some(verified),
            atom@.freshness.last_verified == Some(raw@),
            forall|k: int| 0 <= k < i ==> !changed_later(#[trigger] snapshots@[k], verified),
        decreases snapshots@.len() - i,
    {
        if let Some(changed) = snapshots[i].changed_at {
            if changed.is_after(verified) {
                assert(changed_later(snapshots@[i as int], verified));
                return None;
            }
        }
        i = i + 1;
    }
    let age = now.saturating_secs_since(verified);
    if age >= HORIZON_SECS {
        None
    } else {
        Some(age)
    }
}

/// The registered weighted factors and their weights, in hundredths.
pub open spec fn weight_table() -> Seq<(Seq<char>, u32)> {
    seq![("impl-current"@, 40u32)]
}

/// The sum of the weights of a table, in hundredths.
pub open spec fn weight_sum(t: Seq<(Seq<char>, u32)>) -> int
    decreases t.len(),
{
    if t.len() == 0 {
        0
    } else {
        weight_sum(t.drop_last()) + t.last().1
    }
}

/// The one place a weighted factor's weight is set, in hundredths of the score.
pub fn weights() -> (r: Vec<(&'static str, u32)>)
    ensures
        r@.map_values(|e: (&'static str, u32)| (e.0@, e.1)) == weight_table(),
{
    let r = vec![(IMPL_CURRENT_ID, 40u32)];
    proof {
        reveal_strlit("impl-current");
    }
    assert(r@.map_values(|e: (&'static str, u32)| (e.0@, e.1)) =~= weight_table());
    r
}

/// The weights add up to at most the whole score.
pub proof fn lemma_weights_at_most_whole()
    ensures
        weight_sum(weight_table()) <= 100,
{
    let t = weight_table();
    assert(t.drop_last() =~= Seq::<(Seq<char>, u32)>::empty());
    assert(weight_sum(t.drop_last()) == 0);
    assert(weight_sum(t) == weight_sum(t.drop_last()) + t.last().1);
}

/// A character that may start a code word: an ASCII letter or `_`.
pub open spec fn is_word_start(c: char) -> bool {
    ('A' <= c && c <= 'Z') || ('a' <= c && c <= 'z') || c == '_'
}

/// A character that may continue a code word: an ASCII letter, digit or `_`.
pub open spec fn is_word_char(c: char) -> bool {
    is_word_start(c) || ('0' <= c && c <= '9')
}

/// Reading `s` left to right: the code words finished so far, and the one being
/// read, if any. A word starts at a letter or `_` and runs over letters, digits
/// and `_`.
pub open spec fn scan_words(s: Seq<char>) -> (Seq<Seq<char>>, Option<Seq<char>>)
    decreases s.len(),
{
    if s.len() == 0 {
        (seq![], None)
    } else {
        let (done, cur) = scan_words(s.drop_last());
        let c = s.last();
        match cur {
            Some(w) => if is_word_char(c) {
                (done, Some(w.push(c)))
            } else {
                (done.push(w), None)
            },
            None => if is_word_start(c) {
                (done, Some(seq![c]))
            } else {
                (done, None)
            },
        }
    }
}

/// The code words of `s`, in order.
pub open spec fn code_words(s: Seq<char>) -> Seq<Seq<char>> {
    let (done, cur) = scan_words(s);
    match cur {
        Some(w) => done.push(w),
        None => done,
    }
}

/// The tokens after taking one more word: its lower-cased form is added when it has
/// at least three characters and is not already there.
pub open spec fn add_token(tokens: Seq<Seq<char>>, word: Seq<char>) -> Seq<Seq<char>> {
    let t = ascii_lower(word);
    if t.len() >= 3 && !tokens.contains(t) {
        tokens.push(t)
    } else {
        tokens
    }
}

/// The tokens of a list of words, in order of first appearance.
pub open spec fn tokens_of(words: Seq<Seq<char>>) -> Seq<Seq<char>>
    decreases words.len(),
{
    if words.len() == 0 {
        seq![]
    } else {
        add_token(tokens_of(words.drop_last()), words.last())
    }
}

/// Adds the token of one word.
fn push_token(tokens: &mut Vec<String>, word: &[char])
    ensures
        strs(final(tokens)@) == add_token(strs(old(tokens)@), word@),
{
    let lower = ascii_lower_exec(word);
    if lower.len() < 3 {
        return;
    }
    let t = string_of(lower.as_slice());
    let mut i: usize = 0;
    while i < tokens.len()
        invariant
            i <= tokens@.len(),
            t@ == ascii_lower(word@),
            forall|k: int| 0 <= k < i ==> #[trigger] strs(tokens@)[k] != t@,
        decreases tokens@.len() - i,
    {
        if tokens[i] == t {
            assert(strs(tokens@)[i as int] == t@);
            return;
        }
        i = i + 1;
    }
    let ghost before = tokens@;
    tokens.push(t);
    assert(strs(tokens@) =~= strs(before).push(t@));
}

/// The code-like words of `body` (`[A-Za-z_][A-Za-z0-9_]*` with at least three
/// characters), ASCII lower-cased, each once, in order of first appearance.
pub fn code_tokens(body: &str) -> (r: Vec<String>)
    ensures
        strs(r@) == tokens_of(code_words(body@)),
{
    let chars = chars_of(body);
    let ghost s = body@;
    let mut tokens: Vec<String> = Vec::new();
    let mut word: Vec<char> = Vec::new();
    let mut in_word = false;
    let mut i: usize = 0;
    while i < chars.len()
        invariant
            i <= chars@.len(),
            chars@ == s,
            strs(tokens@) == tokens_of(scan_words(s.take(i as int)).0),
            in_word ==> scan_words(s.take(i as int)).1 == Some(word@),
            !in_word ==> scan_words(s.take(i as int)).1 is None,
        decreases chars@.len() - i,
    {
        let c = chars[i];
        assert(s.take(i + 1).drop_last() =~= s.take(i as int));
        let start = ('A' <= c && c <= 'Z') || ('a' <= c && c <= 'z') || c == '_';
        let cont = start || ('0' <= c && c <= '9');
        let ghost done = scan_words(s.take(i as int)).0;
        if in_word {
            if cont {
                word.push(c);
            } else {
                assert(scan_words(s.take(i + 1)).0 == done.push(word@));
                assert(done.push(word@).drop_last() =~= done);
                push_token(&mut tokens, word.as_slice());
                word = Vec::new();
                in_word = false;
            }
        } else if start {
            word = Vec::new();
            word.push(c);
            assert(word@ =~= seq![c]);
            in_word = true;
        }
        i = i + 1;
    }
    assert(s.take(i as int) =~= s);
    if in_word {
        let ghost done = scan_words(s).0;
        assert(done.push(word@).drop_last() =~= done);
        push_token(&mut tokens, word.as_slice());
    }
    tokens
}

/// Lower-casing ASCII letters twice is lower-casing them once.
proof fn lemma_ascii_lower_idempotent(w: Seq<char>)
    ensures
        ascii_lower(ascii_lower(w)) == ascii_lower(w),
{
    assert forall|i: int| 0 <= i < w.len() implies #[trigger] ascii_lower(ascii_lower(w))[i]
        == ascii_lower(w)[i] by {
        let c = w[i];
        if 'A' <= c && c <= 'Z' {
            let l = (((c as u32) + 32) as u8) as char;
            assert(97 <= (c as u32) + 32 <= 122);
            assert(!('A' <= l && l <= 'Z'));
        }
    }
    assert(ascii_lower(ascii_lower(w)) =~= ascii_lower(w));
}

/// The tokens of any words have at least three characters, are lower-cased, and
/// occur once each.
pub proof fn lemma_tokens_well_formed(words: Seq<Seq<char>>)
    ensures
        forall|i: int|
            0 <= i < tokens_of(words).len() ==> (#[trigger] tokens_of(words)[i]).len() >= 3
                && ascii_lower(tokens_of(words)[i]) == tokens_of(words)[i],
        forall|i: int, j: int|
            0 <= i < j < tokens_of(words).len() ==> tokens_of(words)[i] != tokens_of(words)[j],
    decreases words.len(),
{
    if words.len() > 0 {
        let prev = tokens_of(words.drop_last());
        lemma_tokens_well_formed(words.drop_last());
        lemma_ascii_lower_idempotent(words.last());
        let t = ascii_lower(words.last());
        if t.len() >= 3 && !prev.contains(t) {
            assert forall|i: int, j: int| 0 <= i < j < tokens_of(words).len() implies tokens_of(
                words,
            )[i] != tokens_of(words)[j] by {
                if j == prev.len() {
                    assert(tokens_of(words)[i] == prev[i]);
                }
            }
        }
    }
}

/// An atom activated at `now` counts as verified at `now`: from then on its age
/// is the time since `now`, until a file changes after `now` or the horizon passes.
/// (For instants whose year is written with four characters.)
pub proof fn lemma_activation_starts_the_clock<S>(
    atom: AtomView<S>,
    now: Timestamp,
    one: S,
    snapshots: Seq<ImplSnapshot>,
    later: Timestamp,
)
    requires
        -999 <= now.year <= 9999,
        1 <= now.month <= 12,
        1 <= now.day <= 31,
        now.hour <= 23,
        now.minute <= 59,
        now.second <= 59,
    ensures
        activate_result(atom, now, one) matches Ok(a) ==> current_age(a, snapshots, later) == if changed_after(snapshots, now) {
            None
        } else if secs_since(later, now) >= HORIZON_SECS {
            None
        } else {
            Some(secs_since(later, now))
        },
{
    lemma_verified_stamp_reads_back(now);
}

/// For an atom verified at a real instant `v`, and files whose change times are
/// real instants: the atom has a current age exactly when no file changed at a
/// later second than `v` and fewer than `HORIZON_SECS` seconds passed from `v`
/// to `now`; that age is those seconds.
pub proof fn lemma_current_age_follows_seconds<S>(
    a: AtomView<S>,
    snapshots: Seq<ImplSnapshot>,
    now: Timestamp,
    v: Timestamp,
)
    requires
        a.freshness.last_verified matches Some(raw) && parse_verified(raw) == Some(v),
        is_valid_timestamp(v),
        forall|i: int|
            0 <= i < snapshots.len() && #[trigger] snapshots[i].changed_at is Some
                ==> is_valid_timestamp(snapshots[i].changed_at.unwrap()),
    ensures
        current_age(a, snapshots, now) == if exists|i: int|
            0 <= i < snapshots.len() && #[trigger] snapshots[i].changed_at is Some && epoch_secs(
                snapshots[i].changed_at.unwrap(),
            ) > epoch_secs(v) {
            None
        } else if secs_since(now, v) >= HORIZON_SECS {
            None
        } else {
            Some(secs_since(now, v))
        },
{
    assert forall|i: int| 0 <= i < snapshots.len() implies changed_later(
        #[trigger] snapshots[i],
        v,
    ) == (snapshots[i].changed_at is Some && epoch_secs(snapshots[i].changed_at.unwrap())
        > epoch_secs(v)) by {
        if let Some(c) = snapshots[i].changed_at {
            lemma_before_is_earlier(v, c);
        }
    }
}

proof fn lemma_scan_words_shape(s: Seq<char>)
    ensures
        forall|k: int|
            0 <= k < scan_words(s).0.len() ==> is_code_word(#[trigger] scan_words(s).0[k]),
        scan_words(s).1 matches Some(w) ==> is_code_word(w),
    decreases s.len(),
{
    if s.len() > 0 {
        lemma_scan_words_shape(s.drop_last());
        let (done, cur) = scan_words(s.drop_last());
        let c = s.last();
        if let Some(w) = cur {
            if is_word_char(c) {
                assert forall|i: int| 1 <= i < w.push(c).len() implies is_word_char(
                    #[trigger] w.push(c)[i],
                ) by {
                    if i < w.len() {
                        assert(w.push(c)[i] == w[i]);
                    }
                }
            } else {
                assert forall|k: int| 0 <= k < done.push(w).len() implies is_code_word(
                    #[trigger] done.push(w)[k],
                ) by {
                    if k < done.len() {
                        assert(done.push(w)[k] == done[k]);
                    }
                }
            }
        }
    }
}

/// A code word: an ASCII letter or `_`, then ASCII letters, digits and `_`.
pub open spec fn is_code_word(w: Seq<char>) -> bool {
    &&& w.len() > 0
    &&& (('A' <= w[0] && w[0] <= 'Z') || ('a' <= w[0] && w[0] <= 'z') || w[0] == '_')
    &&& forall|i: int|
        1 <= i < w.len() ==> (('A' <= #[trigger] w[i] && w[i] <= 'Z') || ('a' <= w[i] && w[i]
            <= 'z') || ('0' <= w[i] && w[i] <= '9') || w[i] == '_')
}

/// Every word read from a body is a code word: it starts with an ASCII letter or
/// `_` and goes on with ASCII letters, digits and `_`.
pub proof fn lemma_words_are_code_words(s: Seq<char>)
    ensures
        forall|k: int| 0 <= k < code_words(s).len() ==> is_code_word(#[trigger] code_words(s)[k]),
{
    lemma_scan_words_shape(s);
    let (done, cur) = scan_words(s);
    if let Some(w) = cur {
        assert forall|k: int| 0 <= k < done.push(w).len() implies is_code_word(
            #[trigger] done.push(w)[k],
        ) by {
            if k < done.len() {
                assert(done.push(w)[k] == done[k]);
            }
        }
    }
}

/// The tokens of words are exactly the lower-cased forms of the words with at
/// least three characters: each such form is a token, and each token is one.
pub proof fn lemma_tokens_cover_words(words: Seq<Seq<char>>)
    ensures
        forall|k: int|
            0 <= k < words.len() && (#[trigger] words[k]).len() >= 3 ==> tokens_of(words).contains(
                ascii_lower(words[k]),
            ),
        forall|t: int|
            #![trigger tokens_of(words)[t]]
            0 <= t < tokens_of(words).len() ==> exists|k: int|
                0 <= k < words.len() && words[k].len() >= 3 && #[trigger] ascii_lower(words[k])
                    == tokens_of(words)[t],
    decreases words.len(),
{
    if words.len() > 0 {
        let prev = words.drop_last();
        lemma_tokens_cover_words(prev);
        let w = words.last();
        let tp = tokens_of(prev);
        let tn = tokens_of(words);
        assert(ascii_lower(w).len() == w.len());
        assert forall|k: int|
            0 <= k < words.len() && (#[trigger] words[k]).len() >= 3 implies tn.contains(
            ascii_lower(words[k]),
        ) by {
            if k < words.len() - 1 {
                assert(words[k] == prev[k]);
                assert(tp.contains(ascii_lower(prev[k])));
                let m = choose|m: int| 0 <= m < tp.len() && tp[m] == ascii_lower(prev[k]);
                if tn == tp.push(ascii_lower(w)) {
                    assert(tn[m] == tp[m]);
                }
            } else {
                if tn == tp {
                    assert(tp.contains(ascii_lower(w)));
                } else {
                    assert(tn[tp.len() as int] == ascii_lower(w));
                }
            }
        }
        assert forall|t: int| #![trigger tn[t]] 0 <= t < tn.len() implies exists|k: int|
            0 <= k < words.len() && words[k].len() >= 3 && #[trigger] ascii_lower(words[k])
                == tn[t] by {
            if t < tp.len() {
                assert(tn[t] == tp[t]);
                let k = choose|k: int|
                    0 <= k < prev.len() && prev[k].len() >= 3 && #[trigger] ascii_lower(prev[k])
                        == tp[t];
                assert(words[k] == prev[k]);
            } else {
                assert(tn[t] == ascii_lower(w));
                assert(words[words.len() - 1] == w);
            }
        }
    }
}

} // verus!
