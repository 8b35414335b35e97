use crate::entry::{AppView, DesktopApp};
use fuzzy_matcher::skim::SkimMatcherV2;
use fuzzy_matcher::FuzzyMatcher;
use vstd::prelude::*;

verus! {

/// The skim fuzzy score of `pattern` against `choice`, or `None` when the
/// pattern's characters do not occur in order in the choice.
pub uninterp spec fn skim_score(choice: Seq<char>, pattern: Seq<char>) -> Option<i64>;

/// `a` and `b` are equal once ASCII letters are compared without case.
pub open spec fn eq_ignoring_ascii_case(a: char, b: char) -> bool {
    ||| a == b
    ||| (65 <= a as u32 <= 90 && a as u32 + 32 == b as u32)
    ||| (65 <= b as u32 <= 90 && b as u32 + 32 == a as u32)
}

/// The characters of `pattern` occur in `choice` in order, ASCII case
/// ignored.
pub open spec fn occurs_in_order(pattern: Seq<char>, choice: Seq<char>) -> bool
    decreases choice.len(),
{
    if pattern.len() == 0 {
        true
    } else if choice.len() == 0 {
        false
    } else if eq_ignoring_ascii_case(choice[0], pattern[0]) {
        occurs_in_order(pattern.skip(1), choice.skip(1))
    } else {
        occurs_in_order(pattern, choice.skip(1))
    }
}

/// Relies on `SkimMatcherV2::fuzzy_match` with case ignored: the score
/// depends on the two strings alone, an empty pattern scores 0, and a score
/// comes only when the pattern's characters occur in the choice in order.
#[verifier::external_body]
fn fuzzy_score(choice: &str, pattern: &str) -> (r: Option<i64>)
    ensures
        r == skim_score(choice@, pattern@),
        pattern@.len() == 0 ==> r == Some(0i64),
        r is Some ==> occurs_in_order(pattern@, choice@),
{
    SkimMatcherV2::default().ignore_case().fuzzy_match(choice, pattern)
}

pub open spec fn catalog_view(apps: Seq<DesktopApp>) -> Seq<AppView> {
    apps.map_values(|a: DesktopApp| a@)
}

/// The score of each record's name against the query, in catalog order.
pub open spec fn scores_of(apps: Seq<AppView>, query: Seq<char>) -> Seq<Option<i64>> {
    Seq::new(apps.len(), |i: int| skim_score(apps[i].name, query))
}

/// A score that counts as a match: present and above zero.
pub open spec fn is_positive(s: Option<i64>) -> bool {
    s is Some && s->0 > 0
}

/// Entry `i` has the highest positive score, and no earlier entry ties it.
pub open spec fn is_best(scores: Seq<Option<i64>>, i: int) -> bool {
    &&& 0 <= i < scores.len()
    &&& is_positive(scores[i])
    &&& forall|j: int| 0 <= j < scores.len() && is_positive(scores[j]) ==> scores[j]->0 <= scores[i]->0
    &&& forall|j: int| 0 <= j < i && is_positive(scores[j]) ==> scores[j]->0 < scores[i]->0
}

/// `r` is the outcome of ranking `scores`: the best entry, or none when no
/// score is positive.
pub open spec fn best_in(scores: Seq<Option<i64>>, r: Option<int>) -> bool {
    match r {
        Some(i) => is_best(scores, i),
        None => forall|j: int| 0 <= j < scores.len() ==> !is_positive(scores[j]),
    }
}

pub open spec fn as_int(r: Option<usize>) -> Option<int> {
    match r {
        Some(i) => Some(i as int),
        None => None,
    }
}

/// Picks the entry with the highest positive score; among equal scores the
/// earliest wins.
pub fn best_match(scores: &Vec<Option<i64>>) -> (r: Option<usize>)
    ensures
        best_in(scores@, as_int(r)),
{
    let mut best: Option<usize> = None;
    let mut i: usize = 0;
    while i < scores.len()
        invariant
            i <= scores.len(),
            match best {
                Some(b) => b < i && is_best(scores@.take(i as int), b as int),
                None => forall|j: int| 0 <= j < i ==> !is_positive(scores@[j]),
            },
        decreases scores.len() - i,
    {
        let ghost prev = scores@.take(i as int);
        let ghost next = scores@.take(i + 1);
        assert(next =~= prev.push(scores@[i as int]));
        match scores[i] {
            Some(s) => {
                if s > 0 {
                    match best {
                        Some(b) => {
                            if s > scores[b].unwrap() {
                                best = Some(i);
                            }
                        },
                        None => {
                            best = Some(i);
                        },
                    }
                }
            },
            None => {},
        }
        i = i + 1;
    }
    assert(scores@.take(i as int) =~= scores@);
    best
}

/// Ranks the catalog against the query by fuzzy score of each name and
/// returns the index of the winner, if any. An empty query matches nothing;
/// a winner's name holds the query's characters in order, case ignored.
pub fn pick(apps: &Vec<DesktopApp>, query: &str) -> (r: Option<usize>)
    ensures
        best_in(scores_of(catalog_view(apps@), query@), as_int(r)),
        query@.len() == 0 ==> r is None,
        match r {
            Some(i) => occurs_in_order(query@, apps@[i as int].name@),
            None => true,
        },
{
    let ghost target = scores_of(catalog_view(apps@), query@);
    let mut scores: Vec<Option<i64>> = Vec::new();
    let mut i: usize = 0;
    while i < apps.len()
        invariant
            i <= apps.len(),
            target == scores_of(catalog_view(apps@), query@),
            scores@ == target.take(i as int),
            query@.len() == 0 ==> forall|j: int| 0 <= j < i ==> scores@[j] == Some(0i64),
            forall|j: int|
                0 <= j < i && scores@[j] is Some ==> occurs_in_order(query@, apps@[j].name@),
        decreases apps.len() - i,
    {
        let s = fuzzy_score(apps[i].name.as_str(), query);
        scores.push(s);
        i = i + 1;
        assert(scores@ =~= target.take(i as int));
    }
    assert(scores@ =~= target);
    let r = best_match(&scores);
    match r {
        Some(b) => {
            assert(scores@[b as int] is Some);
        },
        None => {},
    }
    r
}

/// Ranking is deterministic: for one catalog and one query there is exactly
/// one outcome.
pub proof fn lemma_ranking_deterministic(
    apps: Seq<AppView>,
    query: Seq<char>,
    a: Option<int>,
    b: Option<int>,
)
    requires
        best_in(scores_of(apps, query), a),
        best_in(scores_of(apps, query), b),
    ensures
        a == b,
{
    let scores = scores_of(apps, query);
    match (a, b) {
        (Some(i), Some(j)) => {
            if i < j {
                assert(scores[j]->0 <= scores[i]->0);
            } else if j < i {
                assert(scores[i]->0 <= scores[j]->0);
            }
        },
        (Some(i), None) => {
            assert(!is_positive(scores[i]));
        },
        (None, Some(j)) => {
            assert(!is_positive(scores[j]));
        },
        (None, None) => {},
    }
}

/// Records with equal names score equally, so of two such records the later
/// one never wins: the earlier one wins the tie, or both lose.
pub proof fn lemma_later_duplicate_never_wins(
    apps: Seq<AppView>,
    query: Seq<char>,
    i: int,
    j: int,
    r: Option<int>,
)
    requires
        0 <= i < j < apps.len(),
        apps[i].name == apps[j].name,
        best_in(scores_of(apps, query), r),
    ensures
        r != Some(j),
{
    let scores = scores_of(apps, query);
    assert(scores[i] == scores[j]);
}

} // verus!
