//! Deterministic daily samples for checking flexible distinct sketches.
//!
//! Days with all kinds, with one kind, and with long-form events are ranked by
//! their exact number of publishers. The first, the middle and the last of each
//! ranking are taken, each day and kind once.

use vstd::prelude::*;
use vstd::string::*;

use crate::activity_tables::DistinctPubkeysPeriod;
use crate::bytes::lemma_lex_transitive;
use crate::calendar::{day_text_epoch, parse_day};
use crate::error::Result;
use crate::sorting::{lemma_sorts_members, sort_ordered, sorts, Ordered};
use crate::text::text_equal;
use crate::text_map::{lemma_text_order, text_before, text_less};

verus! {

/// One day of the exact reference, with its start.
#[derive(Clone, Debug, PartialEq, Eq)]
pub struct ExactSample {
    /// ISO 8601 UTC date.
    pub period_start: String,
    /// Start of the day in epoch seconds.
    pub since_epoch: u64,
    /// The exact row.
    pub row: DistinctPubkeysPeriod,
}

/// Place of a kind: all kinds come first.
pub open spec fn kind_rank(kind: Option<u16>) -> int {
    match kind {
        None => -1,
        Some(kind) => kind as int,
    }
}

/// Whether `a` comes no later than `b`.
fn kind_at_most(a: Option<u16>, b: Option<u16>) -> (before: bool)
    ensures
        before == (kind_rank(a) <= kind_rank(b)),
{
    match a {
        None => true,
        Some(left) => match b {
            None => false,
            Some(right) => left <= right,
        },
    }
}

impl Ordered for ExactSample {
    /// By day, then by kind.
    open spec fn at_most(self, other: Self) -> bool {
        ||| text_less(self.period_start@, other.period_start@)
        ||| {
            &&& self.period_start@ == other.period_start@
            &&& kind_rank(self.row.kind) <= kind_rank(other.row.kind)
        }
    }

    proof fn lemma_total(a: Self, b: Self) {
        lemma_text_order(a.period_start@, b.period_start@);
    }

    proof fn lemma_transitive(a: Self, b: Self, c: Self) {
        if text_less(a.period_start@, b.period_start@) && text_less(
            b.period_start@,
            c.period_start@,
        ) {
            lemma_lex_transitive(
                vstd::utf8::encode_utf8(a.period_start@),
                vstd::utf8::encode_utf8(b.period_start@),
                vstd::utf8::encode_utf8(c.period_start@),
            );
        }
    }

    fn may_precede(&self, other: &Self) -> (before: bool) {
        if text_before(self.period_start.as_str(), other.period_start.as_str()) {
            true
        } else {
            text_equal(self.period_start.as_str(), other.period_start.as_str()) && kind_at_most(
                self.row.kind,
                other.row.kind,
            )
        }
    }
}

/// A sample ranked by its exact number of publishers.
#[derive(Clone, Debug, PartialEq, Eq)]
pub struct RankedSample {
    /// The sample.
    pub sample: ExactSample,
}

impl Ordered for RankedSample {
    /// By publishers, then by day, then by kind.
    open spec fn at_most(self, other: Self) -> bool {
        ||| self.sample.row.unique_pubkeys < other.sample.row.unique_pubkeys
        ||| {
            &&& self.sample.row.unique_pubkeys == other.sample.row.unique_pubkeys
            &&& self.sample.at_most(other.sample)
        }
    }

    proof fn lemma_total(a: Self, b: Self) {
        ExactSample::lemma_total(a.sample, b.sample);
    }

    proof fn lemma_transitive(a: Self, b: Self, c: Self) {
        if a.sample.at_most(b.sample) && b.sample.at_most(c.sample) {
            ExactSample::lemma_transitive(a.sample, b.sample, c.sample);
        }
    }

    fn may_precede(&self, other: &Self) -> (before: bool) {
        if self.sample.row.unique_pubkeys < other.sample.row.unique_pubkeys {
            true
        } else {
            self.sample.row.unique_pubkeys == other.sample.row.unique_pubkeys
                && self.sample.may_precede(&other.sample)
        }
    }
}

/// Ranking that a row belongs to: all kinds, one kind, long-form.
pub open spec fn category(kind: Option<u16>) -> int {
    match kind {
        None => 0,
        Some(kind) => if kind == 30_023 {
            2
        } else {
            1
        },
    }
}

/// The row counts publishers of a day.
pub open spec fn is_daily(row: DistinctPubkeysPeriod) -> bool {
    row.grain@ == "day"@ && row.unique_pubkeys > 0
}

/// The row is a day that ends within the complete hours.
pub open spec fn is_candidate(row: DistinctPubkeysPeriod, complete_through: int) -> bool {
    &&& is_daily(row)
    &&& day_text_epoch(row.period_start@) is Some
    &&& day_text_epoch(row.period_start@)->0 + 86_400 <= complete_through
}

/// The sample of a row.
pub open spec fn sample_of(row: DistinctPubkeysPeriod) -> ExactSample {
    ExactSample {
        period_start: row.period_start,
        since_epoch: day_text_epoch(row.period_start@)->0,
        row,
    }
}

/// The candidates of one ranking, in the order of the rows.
pub open spec fn candidates(
    rows: Seq<DistinctPubkeysPeriod>,
    complete_through: int,
    wanted: int,
) -> Seq<RankedSample>
    decreases rows.len(),
{
    if rows.len() == 0 {
        Seq::empty()
    } else {
        let earlier = candidates(rows.drop_last(), complete_through, wanted);
        let row = rows.last();
        if is_candidate(row, complete_through) && category(row.kind) == wanted {
            earlier.push(RankedSample { sample: sample_of(row) })
        } else {
            earlier
        }
    }
}

/// The first, the middle and the last of a ranking.
pub open spec fn picks(ranking: Seq<RankedSample>) -> Seq<ExactSample> {
    if ranking.len() == 0 {
        Seq::empty()
    } else {
        seq![
            ranking[0].sample,
            ranking[ranking.len() as int / 2].sample,
            ranking[ranking.len() - 1].sample,
        ]
    }
}

/// The samples are of the same day and kind.
pub open spec fn same_scope(a: ExactSample, b: ExactSample) -> bool {
    a.period_start@ == b.period_start@ && a.row.kind == b.row.kind
}

/// Some sample has the day and kind.
pub open spec fn has_scope(samples: Seq<ExactSample>, wanted: ExactSample) -> bool {
    exists|i: int| 0 <= i < samples.len() && #[trigger] same_scope(samples[i], wanted)
}

/// The samples without those whose day and kind came before.
pub open spec fn unique_scopes(samples: Seq<ExactSample>) -> Seq<ExactSample>
    decreases samples.len(),
{
    if samples.len() == 0 {
        Seq::empty()
    } else {
        let earlier = unique_scopes(samples.drop_last());
        if has_scope(earlier, samples.last()) {
            earlier
        } else {
            earlier.push(samples.last())
        }
    }
}

/// The samples are those that the rankings give, by day and kind.
pub open spec fn picked_from(
    samples: Seq<ExactSample>,
    all: Seq<RankedSample>,
    single: Seq<RankedSample>,
    longform: Seq<RankedSample>,
) -> bool {
    sorts(samples, unique_scopes(picks(all) + picks(single) + picks(longform)))
}

/// The rankings sort the candidates.
pub open spec fn ranks_candidates(
    rows: Seq<DistinctPubkeysPeriod>,
    complete_through: int,
    all: Seq<RankedSample>,
    single: Seq<RankedSample>,
    longform: Seq<RankedSample>,
) -> bool {
    &&& sorts(all, candidates(rows, complete_through, 0))
    &&& sorts(single, candidates(rows, complete_through, 1))
    &&& sorts(longform, candidates(rows, complete_through, 2))
}

/// The samples are those of the rows.
pub open spec fn selects(
    samples: Seq<ExactSample>,
    rows: Seq<DistinctPubkeysPeriod>,
    complete_through: int,
) -> bool {
    exists|all: Seq<RankedSample>, single: Seq<RankedSample>, longform: Seq<RankedSample>|
        ranks_candidates(rows, complete_through, all, single, longform) && #[trigger] picked_from(
            samples,
            all,
            single,
            longform,
        )
}

/// A copy of a row.
fn copy_row(row: &DistinctPubkeysPeriod) -> (copy: DistinctPubkeysPeriod)
    ensures
        copy == *row,
{
    DistinctPubkeysPeriod {
        grain: row.grain.clone(),
        period_start: row.period_start.clone(),
        kind: row.kind,
        unique_pubkeys: row.unique_pubkeys,
    }
}

/// A copy of a sample.
fn copy_sample(sample: &ExactSample) -> (copy: ExactSample)
    ensures
        copy == *sample,
{
    ExactSample {
        period_start: sample.period_start.clone(),
        since_epoch: sample.since_epoch,
        row: copy_row(&sample.row),
    }
}

/// Whether some sample has the day and kind.
fn scope_taken(samples: &Vec<ExactSample>, wanted: &ExactSample) -> (taken: bool)
    ensures
        taken == has_scope(samples@, *wanted),
{
    let mut i: usize = 0;
    while i < samples.len()
        invariant
            i <= samples@.len(),
            forall|j: int| 0 <= j < i ==> !#[trigger] same_scope(samples@[j], *wanted),
        decreases samples.len() - i,
    {
        if samples[i].row.kind == wanted.row.kind && text_equal(
            samples[i].period_start.as_str(),
            wanted.period_start.as_str(),
        ) {
            assert(same_scope(samples@[i as int], *wanted));
            return true;
        }
        i += 1;
    }
    false
}

/// Take a sample unless its day and kind are taken.
fn take_sample(
    samples: &mut Vec<ExactSample>,
    pick: &ExactSample,
    Ghost(seen): Ghost<Seq<ExactSample>>,
)
    requires
        old(samples)@ == unique_scopes(seen),
    ensures
        final(samples)@ == unique_scopes(seen.push(*pick)),
{
    assert(seen.push(*pick).drop_last() =~= seen);
    if !scope_taken(samples, pick) {
        samples.push(copy_sample(pick));
    }
}

/// Take the first, the middle and the last of a ranking.
fn take_picks(
    samples: &mut Vec<ExactSample>,
    ranking: &Vec<RankedSample>,
    Ghost(seen): Ghost<Seq<ExactSample>>,
)
    requires
        old(samples)@ == unique_scopes(seen),
    ensures
        final(samples)@ == unique_scopes(seen + picks(ranking@)),
{
    if ranking.len() == 0 {
        assert(seen + picks(ranking@) =~= seen);
        return ;
    }
    let middle: usize = ranking.len() / 2;
    let last: usize = ranking.len() - 1;
    take_sample(samples, &ranking[0].sample, Ghost(seen));
    take_sample(samples, &ranking[middle].sample, Ghost(seen.push(ranking@[0].sample)));
    take_sample(
        samples,
        &ranking[last].sample,
        Ghost(seen.push(ranking@[0].sample).push(ranking@[middle as int].sample)),
    );
    assert(seen + picks(ranking@) =~= seen.push(ranking@[0].sample).push(
        ranking@[middle as int].sample,
    ).push(ranking@[last as int].sample));
}

/// Candidates are days that end within the complete hours.
proof fn lemma_candidates_fit(
    rows: Seq<DistinctPubkeysPeriod>,
    complete_through: int,
    wanted: int,
)
    ensures
        forall|i: int|
            0 <= i < candidates(rows, complete_through, wanted).len() ==> {
                let sample = (#[trigger] candidates(rows, complete_through, wanted)[i]).sample;
                &&& sample.since_epoch + 86_400 <= complete_through
                &&& sample.row.period_start == sample.period_start
                &&& category(sample.row.kind) == wanted
            },
    decreases rows.len(),
{
    if rows.len() > 0 {
        lemma_candidates_fit(rows.drop_last(), complete_through, wanted);
    }
}

/// Every sample that is kept was offered.
proof fn lemma_unique_offered(samples: Seq<ExactSample>)
    ensures
        forall|i: int|
            0 <= i < unique_scopes(samples).len() ==> samples.contains(
                #[trigger] unique_scopes(samples)[i],
            ),
        unique_scopes(samples).len() <= samples.len(),
    decreases samples.len(),
{
    if samples.len() > 0 {
        let rest = samples.drop_last();
        lemma_unique_offered(rest);
        assert forall|i: int| 0 <= i < unique_scopes(samples).len() implies samples.contains(
            #[trigger] unique_scopes(samples)[i],
        ) by {
            if i < unique_scopes(rest).len() {
                let item = unique_scopes(rest)[i];
                assert(rest.contains(item));
                let k = choose|k: int| 0 <= k < rest.len() && rest[k] == item;
                assert(samples[k] == item);
            } else {
                assert(samples[samples.len() - 1] == unique_scopes(samples)[i]);
            }
        }
    }
}

/// Every day and kind that was offered is kept once.
proof fn lemma_unique_keeps(samples: Seq<ExactSample>, i: int)
    requires
        0 <= i < samples.len(),
    ensures
        has_scope(unique_scopes(samples), samples[i]),
    decreases samples.len(),
{
    let rest = samples.drop_last();
    let earlier = unique_scopes(rest);
    if i < samples.len() - 1 {
        lemma_unique_keeps(rest, i);
        let k = choose|k: int| 0 <= k < earlier.len() && #[trigger] same_scope(earlier[k], rest[i]);
        assert(same_scope(unique_scopes(samples)[k], samples[i]));
    } else if !has_scope(earlier, samples.last()) {
        assert(same_scope(unique_scopes(samples)[earlier.len() as int], samples[i]));
    }
}

/// Every sample comes from a candidate.
pub open spec fn from_candidate(
    sample: ExactSample,
    rows: Seq<DistinctPubkeysPeriod>,
    complete_through: int,
) -> bool {
    exists|wanted: int|
        0 <= wanted <= 2 && #[trigger] candidates(rows, complete_through, wanted).contains(
            RankedSample { sample },
        )
}

/// Samples are candidates, and so end within the complete hours.
pub proof fn lemma_samples_are_candidates(
    samples: Seq<ExactSample>,
    rows: Seq<DistinctPubkeysPeriod>,
    complete_through: int,
)
    requires
        selects(samples, rows, complete_through),
    ensures
        samples.len() <= 9,
        forall|i: int|
            0 <= i < samples.len() ==> from_candidate(
                #[trigger] samples[i],
                rows,
                complete_through,
            ) && samples[i].since_epoch + 86_400 <= complete_through,
{
    let (all, single, longform) = choose|
        all: Seq<RankedSample>,
        single: Seq<RankedSample>,
        longform: Seq<RankedSample>,
    |
        ranks_candidates(rows, complete_through, all, single, longform) && #[trigger] picked_from(
            samples,
            all,
            single,
            longform,
        );
    let offered = picks(all) + picks(single) + picks(longform);
    lemma_sorts_members(samples, unique_scopes(offered));
    lemma_unique_offered(offered);
    lemma_sorts_members(all, candidates(rows, complete_through, 0));
    lemma_sorts_members(single, candidates(rows, complete_through, 1));
    lemma_sorts_members(longform, candidates(rows, complete_through, 2));
    lemma_candidates_fit(rows, complete_through, 0);
    lemma_candidates_fit(rows, complete_through, 1);
    lemma_candidates_fit(rows, complete_through, 2);
    assert forall|i: int| 0 <= i < samples.len() implies from_candidate(
        #[trigger] samples[i],
        rows,
        complete_through,
    ) && samples[i].since_epoch + 86_400 <= complete_through by {
        let sample = samples[i];
        assert(samples.contains(sample));
        assert(unique_scopes(offered).contains(sample));
        let u = choose|u: int|
            0 <= u < unique_scopes(offered).len() && unique_scopes(offered)[u] == sample;
        assert(offered.contains(unique_scopes(offered)[u]));
        let k = choose|k: int| 0 <= k < offered.len() && offered[k] == sample;
        let a = picks(all).len() as int;
        let b = a + picks(single).len();
        let (ranking, wanted) = if k < a {
            (all, 0int)
        } else if k < b {
            (single, 1int)
        } else {
            (longform, 2int)
        };
        let at = if k < a {
            k
        } else if k < b {
            k - a
        } else {
            k - b
        };
        assert(picks(ranking)[at] == sample);
        let place = if at == 0 {
            0int
        } else if at == 1 {
            ranking.len() as int / 2
        } else {
            ranking.len() - 1
        };
        assert(ranking[place].sample == sample);
        assert(ranking.contains(ranking[place]));
        assert(ranking[place] == (RankedSample { sample }));
        let source = candidates(rows, complete_through, wanted);
        assert(source.contains(RankedSample { sample }));
        let c = choose|c: int| 0 <= c < source.len() && source[c] == (RankedSample { sample });
        assert(source[c].sample.since_epoch + 86_400 <= complete_through);
    }
}

/// A ranking with candidates has a sample: days with all kinds, with one kind
/// and with long-form events are all represented.
pub proof fn lemma_samples_cover_categories(
    samples: Seq<ExactSample>,
    rows: Seq<DistinctPubkeysPeriod>,
    complete_through: int,
    wanted: int,
)
    requires
        selects(samples, rows, complete_through),
        0 <= wanted <= 2,
        candidates(rows, complete_through, wanted).len() > 0,
    ensures
        exists|i: int|
            0 <= i < samples.len() && #[trigger] category(samples[i].row.kind) == wanted,
{
    let (all, single, longform) = choose|
        all: Seq<RankedSample>,
        single: Seq<RankedSample>,
        longform: Seq<RankedSample>,
    |
        ranks_candidates(rows, complete_through, all, single, longform) && #[trigger] picked_from(
            samples,
            all,
            single,
            longform,
        );
    let offered = picks(all) + picks(single) + picks(longform);
    let ranking = if wanted == 0 {
        all
    } else if wanted == 1 {
        single
    } else {
        longform
    };
    let start = if wanted == 0 {
        0int
    } else if wanted == 1 {
        picks(all).len() as int
    } else {
        (picks(all) + picks(single)).len() as int
    };
    let source = candidates(rows, complete_through, wanted);
    lemma_sorts_members(ranking, source);
    assert(offered[start] == ranking[0].sample);
    assert(ranking.contains(ranking[0]));
    assert(source.contains(ranking[0]));
    lemma_candidates_fit(rows, complete_through, wanted);
    let c = choose|c: int| 0 <= c < source.len() && source[c] == ranking[0];
    assert(category(source[c].sample.row.kind) == wanted);
    lemma_unique_keeps(offered, start);
    let kept = unique_scopes(offered);
    let u = choose|u: int| 0 <= u < kept.len() && #[trigger] same_scope(kept[u], offered[start]);
    lemma_sorts_members(samples, kept);
    assert(kept.contains(kept[u]));
    assert(samples.contains(kept[u]));
    let i = choose|i: int| 0 <= i < samples.len() && samples[i] == kept[u];
    assert(category(samples[i].row.kind) == wanted);
}

/// Some day with publishers has no readable date.
pub open spec fn has_unreadable_day(rows: Seq<DistinctPubkeysPeriod>) -> bool {
    exists|i: int|
        0 <= i < rows.len() && is_daily(#[trigger] rows[i]) && day_text_epoch(
            rows[i].period_start@,
        ) is None
}

/// Select the daily samples of the exact reference.
pub fn select_samples(
    rows: &[DistinctPubkeysPeriod],
    complete_through_epoch: u64,
) -> (outcome: Result<Vec<ExactSample>>)
    ensures
        outcome is Ok <==> !has_unreadable_day(rows@),
        match outcome {
            Ok(samples) => selects(samples@, rows@, complete_through_epoch as int),
            Err(error) => error is Invalid,
        },
{
    let ghost end = complete_through_epoch as int;
    let mut all: Vec<RankedSample> = Vec::new();
    let mut single: Vec<RankedSample> = Vec::new();
    let mut longform: Vec<RankedSample> = Vec::new();
    let mut i: usize = 0;
    assert(rows@.take(0) =~= Seq::empty());
    while i < rows.len()
        invariant
            i <= rows@.len(),
            end == complete_through_epoch,
            all@ == candidates(rows@.take(i as int), end, 0),
            single@ == candidates(rows@.take(i as int), end, 1),
            longform@ == candidates(rows@.take(i as int), end, 2),
            forall|j: int|
                0 <= j < i && is_daily(#[trigger] rows@[j]) ==> day_text_epoch(
                    rows@[j].period_start@,
                ) is Some,
        decreases rows@.len() - i,
    {
        let row: &DistinctPubkeysPeriod = &rows[i];
        proof {
            assert(rows@.take(i + 1).drop_last() =~= rows@.take(i as int));
            assert(rows@.take(i + 1).last() == *row);
        }
        i += 1;
        if !text_equal(row.grain.as_str(), "day") || row.unique_pubkeys == 0 {
            assert(!is_daily(*row));
            continue ;
        }
        let since_epoch: u64 = match parse_day(row.period_start.as_str()) {
            Ok(epoch) => epoch,
            Err(error) => {
                assert(is_daily(rows@[i - 1]));
                return Err(error);
            },
        };
        if since_epoch > complete_through_epoch || complete_through_epoch - since_epoch < 86_400 {
            assert(!is_candidate(*row, end));
            continue ;
        }
        let ranked: RankedSample = RankedSample {
            sample: ExactSample {
                period_start: row.period_start.clone(),
                since_epoch,
                row: copy_row(row),
            },
        };
        assert(ranked.sample == sample_of(*row));
        match row.kind {
            None => all.push(ranked),
            Some(kind) => {
                if kind == 30_023 {
                    longform.push(ranked);
                } else {
                    single.push(ranked);
                }
            },
        }
    }
    assert(rows@.take(rows@.len() as int) =~= rows@);
    let all: Vec<RankedSample> = sort_ordered(all);
    let single: Vec<RankedSample> = sort_ordered(single);
    let longform: Vec<RankedSample> = sort_ordered(longform);
    let mut samples: Vec<ExactSample> = Vec::new();
    take_picks(&mut samples, &all, Ghost(Seq::empty()));
    take_picks(&mut samples, &single, Ghost(Seq::empty() + picks(all@)));
    take_picks(&mut samples, &longform, Ghost(Seq::empty() + picks(all@) + picks(single@)));
    let sorted: Vec<ExactSample> = sort_ordered(samples);
    proof {
        assert(Seq::<ExactSample>::empty() + picks(all@) + picks(single@) + picks(longform@)
            =~= picks(all@) + picks(single@) + picks(longform@));
        assert(ranks_candidates(rows@, end, all@, single@, longform@));
        assert(picked_from(sorted@, all@, single@, longform@));
    }
    Ok(sorted)
}

} // verus!
