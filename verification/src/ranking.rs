//! Played results: how they are ordered, graded and written out.
use vstd::prelude::*;
use crate::text::{decimal, decimal_text, score_string, score_text};

verus! {

/// An accuracy. The number itself is a 32-bit float, of which only the bits
/// are kept; `percent` is the same number in percent, with two decimals.
#[derive(Debug, PartialEq, Eq)]
pub struct Accuracy {
    pub bits: u32,
    pub percent: String,
}

impl Clone for Accuracy {
    fn clone(&self) -> (r: Self)
        ensures
            r == *self,
    {
        Accuracy { bits: self.bits, percent: self.percent.clone() }
    }
}

/// A record of one play, as the score service hands it out.
#[derive(Debug, PartialEq, Eq)]
pub struct Record {
    pub player: i32,
    pub score: i32,
    pub accuracy: Accuracy,
    pub full_combo: bool,
}

/// What one player reached in the current game.
#[derive(Debug, PartialEq, Eq)]
pub struct UserPlayedResult {
    pub id: i32,
    pub user_name: String,
    pub score: i32,
    pub accuracy: Accuracy,
    pub fc_state: bool,
    pub finish_time: u64,
}

impl Clone for UserPlayedResult {
    fn clone(&self) -> (r: Self)
        ensures
            r == *self,
    {
        UserPlayedResult {
            id: self.id,
            user_name: self.user_name.clone(),
            score: self.score,
            accuracy: self.accuracy.clone(),
            fc_state: self.fc_state,
            finish_time: self.finish_time,
        }
    }
}

/// The grade of a score.
pub open spec fn grade(score: int) -> Seq<char> {
    if score > 1000000 {
        "纪"@
    } else if score == 1000000 {
        "φ"@
    } else if score >= 960000 {
        "V"@
    } else if score >= 920000 {
        "S"@
    } else if score >= 880000 {
        "A"@
    } else if score >= 820000 {
        "B"@
    } else if score >= 700000 {
        "C"@
    } else {
        "F"@
    }
}

/// Puts `r` behind the last entry whose score is not below its own.
pub open spec fn placed(sorted: Seq<UserPlayedResult>, r: UserPlayedResult) -> Seq<UserPlayedResult>
    decreases sorted.len(),
{
    if sorted.len() == 0 || sorted.last().score >= r.score {
        sorted.push(r)
    } else {
        placed(sorted.drop_last(), r).push(sorted.last())
    }
}

/// The results from the highest score to the lowest; equal scores keep their
/// order.
pub open spec fn ranked(results: Seq<UserPlayedResult>) -> Seq<UserPlayedResult>
    decreases results.len(),
{
    if results.len() == 0 {
        results
    } else {
        placed(ranked(results.drop_last()), results.last())
    }
}

/// The line that announces a result; `rank` counts from one.
pub open spec fn result_line(rank: nat, r: UserPlayedResult) -> Seq<char> {
    "第"@ + decimal(rank) + "  玩家:"@ + r.user_name@ + "  等级:"@ + grade(r.score as int)
        + "  分数:"@ + score_text(r.score as int) + "  ACC:"@ + r.accuracy.percent@ + "%"@ + "  "@
        + if r.fc_state {
        "Full Combo"@
    } else {
        Seq::empty()
    }
}

/// The results that reached exactly `score`.
pub open spec fn with_score(results: Seq<UserPlayedResult>, score: i32) -> Seq<UserPlayedResult> {
    results.filter(|r: UserPlayedResult| r.score == score)
}

/// No score is above one that stands before it.
pub open spec fn descending(results: Seq<UserPlayedResult>) -> bool {
    forall|i: int, j: int| 0 <= i <= j < results.len() ==> results[i].score >= results[j].score
}

/// Where `placed` puts a new entry: behind `k` entries, if `k` counts those at
/// the start of the list whose score is not below its own.
proof fn lemma_placed_at(sorted: Seq<UserPlayedResult>, r: UserPlayedResult, k: int)
    requires
        0 <= k <= sorted.len(),
        k > 0 ==> sorted[k - 1].score >= r.score,
        forall|j: int| k <= j < sorted.len() ==> sorted[j].score < r.score,
    ensures
        placed(sorted, r) == sorted.insert(k, r),
    decreases sorted.len(),
{
    if k == sorted.len() {
        assert(sorted.insert(k, r) =~= sorted.push(r));
    } else {
        lemma_placed_at(sorted.drop_last(), r, k);
        assert(sorted.drop_last().insert(k, r).push(sorted.last()) =~= sorted.insert(k, r));
    }
}

proof fn lemma_placed_descending(sorted: Seq<UserPlayedResult>, r: UserPlayedResult)
    requires
        descending(sorted),
    ensures
        descending(placed(sorted, r)),
        placed(sorted, r).len() == sorted.len() + 1,
        forall|i: int| #![trigger placed(sorted, r)[i]] 0 <= i < sorted.len() + 1 ==> (
        sorted.contains(placed(sorted, r)[i]) || placed(sorted, r)[i] == r),
    decreases sorted.len(),
{
    if sorted.len() == 0 || sorted.last().score >= r.score {
        assert forall|i: int| #![trigger placed(sorted, r)[i]] 0 <= i < sorted.len() + 1 implies (
        sorted.contains(placed(sorted, r)[i]) || placed(sorted, r)[i] == r) by {
            if i < sorted.len() {
                assert(placed(sorted, r)[i] == sorted[i]);
            }
        }
    } else {
        let rest = sorted.drop_last();
        lemma_placed_descending(rest, r);
        let p = placed(rest, r);
        assert forall|i: int| 0 <= i < p.len() implies p[i].score >= sorted.last().score by {
            if rest.contains(p[i]) {
                let j = choose|j: int| 0 <= j < rest.len() && rest[j] == p[i];
                assert(sorted[j].score >= sorted[sorted.len() - 1].score);
            }
        }
        assert forall|i: int| #![trigger placed(sorted, r)[i]] 0 <= i < sorted.len() + 1 implies (
        sorted.contains(placed(sorted, r)[i]) || placed(sorted, r)[i] == r) by {
            if i < p.len() {
                assert(placed(sorted, r)[i] == p[i]);
                if rest.contains(p[i]) {
                    let j = choose|j: int| 0 <= j < rest.len() && rest[j] == p[i];
                    assert(sorted[j] == p[i]);
                }
            } else {
                assert(placed(sorted, r)[i] == sorted[sorted.len() - 1]);
            }
        }
    }
}

proof fn lemma_with_score_push(results: Seq<UserPlayedResult>, r: UserPlayedResult, score: i32)
    ensures
        with_score(results.push(r), score) == if r.score == score {
            with_score(results, score).push(r)
        } else {
            with_score(results, score)
        },
{
    reveal(Seq::filter);
    assert(results.push(r).drop_last() =~= results);
}

proof fn lemma_placed_keeps(sorted: Seq<UserPlayedResult>, r: UserPlayedResult, score: i32)
    ensures
        placed(sorted, r).to_multiset() == sorted.push(r).to_multiset(),
        with_score(placed(sorted, r), score) == with_score(sorted.push(r), score),
    decreases sorted.len(),
{
    broadcast use vstd::seq_lib::group_to_multiset_ensures;

    if !(sorted.len() == 0 || sorted.last().score >= r.score) {
        let rest = sorted.drop_last();
        let last = sorted.last();
        lemma_placed_keeps(rest, r, score);
        let p = placed(rest, r);
        assert(placed(sorted, r) == p.push(last));
        assert(rest.push(last) =~= sorted);
        lemma_with_score_push(p, last, score);
        lemma_with_score_push(rest, r, score);
        lemma_with_score_push(rest, last, score);
        lemma_with_score_push(sorted, r, score);
        assert(p.push(last).to_multiset() =~= p.to_multiset().insert(last));
        assert(sorted.push(r).to_multiset() =~= rest.to_multiset().insert(last).insert(r));
        assert(rest.push(r).to_multiset() =~= rest.to_multiset().insert(r));
        assert(placed(sorted, r).to_multiset() =~= sorted.push(r).to_multiset());
    }
}

/// Ranking loses no result and adds none, orders by falling score, and leaves
/// results with equal scores in the order in which they came in.
pub proof fn law_ranking(results: Seq<UserPlayedResult>)
    ensures
        ranked(results).to_multiset() == results.to_multiset(),
        ranked(results).len() == results.len(),
        descending(ranked(results)),
        forall|score: i32| #[trigger]
            with_score(ranked(results), score) == with_score(results, score),
    decreases results.len(),
{
    broadcast use vstd::seq_lib::group_to_multiset_ensures;

    if results.len() > 0 {
        let rest = results.drop_last();
        let last = results.last();
        law_ranking(rest);
        let sorted = ranked(rest);
        lemma_placed_descending(sorted, last);
        lemma_placed_keeps(sorted, last, 0);
        assert(rest.push(last) =~= results);
        assert(results.to_multiset() =~= rest.to_multiset().insert(last));
        assert(sorted.push(last).to_multiset() =~= sorted.to_multiset().insert(last));
        assert forall|score: i32| #[trigger]
            with_score(ranked(results), score) == with_score(results, score) by {
            lemma_placed_keeps(sorted, last, score);
            lemma_with_score_push(sorted, last, score);
            lemma_with_score_push(rest, last, score);
            assert(with_score(sorted, score) == with_score(rest, score));
        }
    }
}

/// The rank order is the only one with these three properties.
pub proof fn law_ranking_unique(results: Seq<UserPlayedResult>, other: Seq<UserPlayedResult>)
    requires
        descending(other),
        other.len() == results.len(),
        forall|score: i32| #[trigger] with_score(other, score) == with_score(results, score),
    ensures
        other == ranked(results),
{
    law_ranking(results);
    assert forall|score: i32| #[trigger]
        with_score(other, score) == with_score(ranked(results), score) by {
        assert(with_score(other, score) == with_score(results, score));
        assert(with_score(ranked(results), score) == with_score(results, score));
    }
    lemma_same_by_score(other, ranked(results));
}

proof fn lemma_same_by_score(a: Seq<UserPlayedResult>, b: Seq<UserPlayedResult>)
    requires
        descending(a),
        descending(b),
        a.len() == b.len(),
        forall|score: i32| #[trigger] with_score(a, score) == with_score(b, score),
    ensures
        a == b,
    decreases a.len(),
{
    if a.len() == 0 {
        assert(a =~= b);
    } else {
        lemma_last_is_lowest(a, b);
        lemma_last_is_lowest(b, a);
        let s = a.last().score;
        assert(b.last().score == s);
        reveal(Seq::filter);
        assert(with_score(a, s) == with_score(a.drop_last(), s).push(a.last()));
        assert(with_score(b, s) == with_score(b.drop_last(), s).push(b.last()));
        assert(with_score(a, s) == with_score(b, s));
        assert(with_score(a, s).last() == a.last());
        assert(with_score(b, s).last() == b.last());
        assert forall|score: i32| #[trigger]
            with_score(a.drop_last(), score) == with_score(b.drop_last(), score) by {
            assert(with_score(a, score) == with_score(b, score));
            if score == s {
                assert(with_score(a, s).drop_last() =~= with_score(a.drop_last(), s));
                assert(with_score(b, s).drop_last() =~= with_score(b.drop_last(), s));
            }
        }
        lemma_same_by_score(a.drop_last(), b.drop_last());
        assert(a =~= a.drop_last().push(a.last()));
        assert(b =~= b.drop_last().push(b.last()));
    }
}

proof fn lemma_last_is_lowest(a: Seq<UserPlayedResult>, b: Seq<UserPlayedResult>)
    requires
        descending(a),
        descending(b),
        a.len() > 0,
        a.len() == b.len(),
        forall|score: i32| #[trigger] with_score(a, score) == with_score(b, score),
    ensures
        a.last().score >= b.last().score,
{
    let s = a.last().score;
    let pred = |r: UserPlayedResult| r.score == s;
    assert(with_score(a, s) == with_score(b, s));
    a.lemma_filter_contains(pred, a.len() - 1);
    assert(with_score(a, s).contains(a[a.len() - 1]));
    b.lemma_filter_contains_rev(pred, a.last());
    let j = choose|j: int| 0 <= j < b.len() && b[j] == a.last();
    assert(b[j].score >= b[b.len() - 1].score);
}

/// The grade of a score, as text.
pub fn grade_of(score: i32) -> (r: &'static str)
    ensures
        r@ == grade(score as int),
{
    if score == 1000000 {
        "φ"
    } else if score >= 960000 && score < 1000000 {
        "V"
    } else if score >= 920000 && score < 960000 {
        "S"
    } else if score >= 880000 && score < 920000 {
        "A"
    } else if score >= 820000 && score < 880000 {
        "B"
    } else if score >= 700000 && score < 820000 {
        "C"
    } else if score < 700000 {
        "F"
    } else {
        "纪"
    }
}

/// Copies a list of results.
pub fn copy_results(results: &Vec<UserPlayedResult>) -> (r: Vec<UserPlayedResult>)
    ensures
        r@ == results@,
{
    let mut r: Vec<UserPlayedResult> = Vec::new();
    let mut i: usize = 0;
    assert(r@ =~= results@.take(0));
    while i < results.len()
        invariant
            i <= results.len(),
            r@ == results@.take(i as int),
        decreases results.len() - i,
    {
        r.push(results[i].clone());
        i = i + 1;
        assert(r@ =~= results@.take(i as int));
    }
    assert(r@ =~= results@);
    r
}

/// Orders results from the highest score to the lowest.
pub fn rank(results: &Vec<UserPlayedResult>) -> (r: Vec<UserPlayedResult>)
    ensures
        r@ == ranked(results@),
{
    let mut r: Vec<UserPlayedResult> = Vec::new();
    let mut i: usize = 0;
    assert(results@.take(0) =~= Seq::empty());
    while i < results.len()
        invariant
            i <= results.len(),
            r@ == ranked(results@.take(i as int)),
        decreases results.len() - i,
    {
        let item: UserPlayedResult = results[i].clone();
        let mut k: usize = r.len();
        while k > 0 && r[k - 1].score < item.score
            invariant
                k <= r.len(),
                forall|j: int| k <= j < r.len() ==> r@[j].score < item.score,
            decreases k,
        {
            k = k - 1;
        }
        proof {
            lemma_placed_at(r@, item, k as int);
            assert(results@.take(i + 1).drop_last() =~= results@.take(i as int));
        }
        r.insert(k, item);
        i = i + 1;
    }
    assert(results@.take(i as int) =~= results@);
    r
}

/// Writes the line that announces a result.
pub fn result_text(rank: u64, r: &UserPlayedResult) -> (line: String)
    ensures
        line@ == result_line(rank as nat, *r),
{
    let combo: &str = if r.fc_state { "Full Combo" } else { "" };
    proof {
        reveal_strlit("");
        assert(""@ =~= Seq::<char>::empty());
    }
    "第".to_string().concat(decimal_text(rank).as_str()).concat("  玩家:").concat(
        r.user_name.as_str(),
    ).concat("  等级:").concat(grade_of(r.score)).concat("  分数:").concat(
        score_string(r.score).as_str(),
    ).concat("  ACC:").concat(r.accuracy.percent.as_str()).concat("%").concat("  ").concat(combo)
}

} // verus!
