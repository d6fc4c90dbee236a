//! The columns of the lines that are copied into the published tables.

use vstd::prelude::*;

use crate::activity_tables::{ActiveUsersPeriod, DistinctPubkeysPeriod};
use crate::digest::hex_text;
use crate::leaf_stream::FlexibleLeaf;
use crate::products::CohortRetentionPeriod;
use crate::pubkey_first_seen::NewUsersDaily;
use crate::publish_ranking::ranking_text;
use crate::publish_semantic::{engagement_text, longform_text, zap_text};
use crate::publish_serving::hour_text;
use crate::publish_tables::{
    active_text, cohort_text, daily_kind_text, daily_text, distinct_text, new_users_text,
};
use crate::publisher_ledger::PublisherRankingRow;
use crate::rollups::{EngagementDay, LongformDay, ZapDay};
use crate::semantic_publish::{histogram_text, rejection_text};
use crate::serving_records::{ServingHourlyRow, ServingKindRow};
use crate::text::decimal;
use crate::words::{lemma_decimal_reads_back, lemma_hex_pairs, nibble};
use crate::zap_distinct::{ZapDistinctLeaf, ZapParticipantRole};

verus! {

/// The text without commas and line breaks.
pub open spec fn is_plain(text: Seq<char>) -> bool {
    forall|i: int| 0 <= i < text.len() ==> #[trigger] text[i] != ',' && text[i] != '\n'
}

/// The parts of a text between its commas.
pub open spec fn parts(text: Seq<char>) -> Seq<Seq<char>>
    decreases text.len(),
{
    if text.len() == 0 {
        seq![Seq::<char>::empty()]
    } else {
        let earlier = parts(text.drop_last());
        if text.last() == ',' {
            earlier.push(Seq::<char>::empty())
        } else {
            earlier.update(earlier.len() - 1, earlier.last().push(text.last()))
        }
    }
}

/// The line ends with a line break and has the columns before it.
pub open spec fn has_columns(line: Seq<char>, columns: Seq<Seq<char>>) -> bool {
    line.len() > 0 && line.last() == '\n' && parts(line.drop_last()) == columns
}

/// The column of a kind: the kind, or -1 for all kinds.
pub open spec fn kind_column(kind: Option<u16>) -> Seq<char> {
    match kind {
        None => seq!['-', '1'],
        Some(own) => decimal(own as nat),
    }
}

/// The column of bytes: hexadecimal digits behind `\\x`.
pub open spec fn bytes_column(bytes: Seq<u8>) -> Seq<char> {
    seq!['\\', 'x'] + hex_text(bytes)
}

/// The column of a role: 0 for senders, 1 for recipients.
pub open spec fn role_digit(role: ZapParticipantRole) -> Seq<char> {
    if role is Sender {
        seq!['0']
    } else {
        seq!['1']
    }
}

/// Plain text lengthens the last part.
proof fn lemma_longer_part(a: Seq<char>, b: Seq<char>)
    requires
        is_plain(b),
    ensures
        parts(a).len() > 0,
        parts(a + b) == parts(a).update(parts(a).len() - 1, parts(a).last() + b),
    decreases b.len(),
{
    lemma_some_part(a);
    if b.len() == 0 {
        assert(a + b =~= a);
        assert(parts(a).last() + b =~= parts(a).last());
        assert(parts(a) =~= parts(a).update(parts(a).len() - 1, parts(a).last() + b));
    } else {
        let c = b.drop_last();
        assert forall|i: int| 0 <= i < c.len() implies #[trigger] c[i] != ',' && c[i] != '\n' by {
            assert(c[i] == b[i]);
        }
        lemma_longer_part(a, c);
        assert((a + b).drop_last() =~= a + c);
        assert(b[b.len() - 1] != ',');
        assert((parts(a).last() + c).push(b.last()) =~= parts(a).last() + b);
        assert(parts(a + b) =~= parts(a).update(parts(a).len() - 1, parts(a).last() + b));
    }
}

/// A text has at least one part.
proof fn lemma_some_part(a: Seq<char>)
    ensures
        parts(a).len() > 0,
    decreases a.len(),
{
    if a.len() > 0 {
        lemma_some_part(a.drop_last());
    }
}

/// Behind a comma the next part begins.
pub proof fn lemma_next_part(a: Seq<char>, b: Seq<char>)
    requires
        is_plain(b),
    ensures
        parts(a + ","@ + b) == parts(a).push(b),
{
    reveal_strlit(",");
    let head = a + ","@;
    assert(head.drop_last() =~= a);
    assert(head.last() == ',');
    lemma_longer_part(head, b);
    assert(Seq::<char>::empty() + b =~= b);
    assert(parts(a + ","@ + b) =~= parts(a).push(b));
}

/// A plain text is one part.
proof fn lemma_first_part(a: Seq<char>)
    requires
        is_plain(a),
    ensures
        parts(a) == seq![a],
{
    lemma_longer_part(Seq::empty(), a);
    assert(Seq::<char>::empty() + a =~= a);
    assert(parts(a) =~= seq![a]);
}

/// Numbers, kinds, bytes and roles are plain.
proof fn lemma_plain_columns(n: nat, kind: Option<u16>, bytes: Seq<u8>, role: ZapParticipantRole)
    ensures
        is_plain(decimal(n)),
        is_plain(kind_column(kind)),
        is_plain(bytes_column(bytes)),
        is_plain(role_digit(role)),
        crate::publisher_publish::kind_column_text(kind) == kind_column(kind),
        decimal(crate::zap_publish::role_column(role) as nat) == role_digit(role),
{
    reveal_strlit("-1");
    lemma_decimal_reads_back(n);
    if let Some(own) = kind {
        lemma_decimal_reads_back(own as nat);
    }
    assert("-1"@ =~= seq!['-', '1']);
    let text = bytes_column(bytes);
    assert forall|i: int| 0 <= i < text.len() implies #[trigger] text[i] != ',' && text[i]
        != '\n' by {
        if i >= 2 {
            let k = (i - 2) / 2;
            lemma_hex_pairs(bytes, k);
            assert(text[i] == hex_text(bytes)[i - 2]);
            assert(i - 2 == 2 * k || i - 2 == 2 * k + 1);
            assert(nibble(hex_text(bytes)[i - 2]) is Some);
        }
    }
    reveal_with_fuel(decimal, 2);
    assert(decimal(0) =~= seq!['0']);
    assert(decimal(1) =~= seq!['1']);
}

/// A day: run, day, events.
pub proof fn lemma_day_line(run_id: Seq<char>, row: (String, u64))
    requires
        is_plain(run_id),
        is_plain(row.0@),
    ensures
        has_columns(
            daily_text(run_id, row),
            seq![
                run_id,
                row.0@,
                decimal(row.1 as nat),
            ],
        ),
{
    reveal_strlit(",");
    reveal_strlit("\n");
    let line = daily_text(run_id, row);
    let p0 = run_id;
    lemma_first_part(p0);
    let c1 = row.0@;
    lemma_next_part(p0, c1);
    let p1 = p0 + ","@ + c1;
    lemma_plain_columns(row.1 as nat, None, Seq::empty(), ZapParticipantRole::Sender);
    let c2 = decimal(row.1 as nat);
    lemma_next_part(p1, c2);
    let p2 = p1 + ","@ + c2;
    assert(line =~= p2.push('\n'));
    assert(line.drop_last() =~= p2);
    assert(parts(p2) =~= seq![p0, c1, c2]);
}

/// A kind of a day: run, day, kind, events.
pub proof fn lemma_day_kind_line(run_id: Seq<char>, row: (String, u16, u64))
    requires
        is_plain(run_id),
        is_plain(row.0@),
    ensures
        has_columns(
            daily_kind_text(run_id, row),
            seq![
                run_id,
                row.0@,
                decimal(row.1 as nat),
                decimal(row.2 as nat),
            ],
        ),
{
    reveal_strlit(",");
    reveal_strlit("\n");
    let line = daily_kind_text(run_id, row);
    let p0 = run_id;
    lemma_first_part(p0);
    let c1 = row.0@;
    lemma_next_part(p0, c1);
    let p1 = p0 + ","@ + c1;
    lemma_plain_columns(row.1 as nat, None, Seq::empty(), ZapParticipantRole::Sender);
    let c2 = decimal(row.1 as nat);
    lemma_next_part(p1, c2);
    let p2 = p1 + ","@ + c2;
    lemma_plain_columns(row.2 as nat, None, Seq::empty(), ZapParticipantRole::Sender);
    let c3 = decimal(row.2 as nat);
    lemma_next_part(p2, c3);
    let p3 = p2 + ","@ + c3;
    assert(line =~= p3.push('\n'));
    assert(line.drop_last() =~= p3);
    assert(parts(p3) =~= seq![p0, c1, c2, c3]);
}

/// A kind: run, kind, events.
pub proof fn lemma_kind_line(run_id: Seq<char>, row: (u16, u64))
    requires
        is_plain(run_id),
    ensures
        has_columns(
            crate::publish_tables::kind_text(run_id, row),
            seq![
                run_id,
                decimal(row.0 as nat),
                decimal(row.1 as nat),
            ],
        ),
{
    reveal_strlit(",");
    reveal_strlit("\n");
    let line = crate::publish_tables::kind_text(run_id, row);
    let p0 = run_id;
    lemma_first_part(p0);
    lemma_plain_columns(row.0 as nat, None, Seq::empty(), ZapParticipantRole::Sender);
    let c1 = decimal(row.0 as nat);
    lemma_next_part(p0, c1);
    let p1 = p0 + ","@ + c1;
    lemma_plain_columns(row.1 as nat, None, Seq::empty(), ZapParticipantRole::Sender);
    let c2 = decimal(row.1 as nat);
    lemma_next_part(p1, c2);
    let p2 = p1 + ","@ + c2;
    assert(line =~= p2.push('\n'));
    assert(line.drop_last() =~= p2);
    assert(parts(p2) =~= seq![p0, c1, c2]);
}

/// New publishers: run, day, publishers.
pub proof fn lemma_new_users_line(run_id: Seq<char>, row: NewUsersDaily)
    requires
        is_plain(run_id),
        is_plain(row.day@),
    ensures
        has_columns(
            new_users_text(run_id, row),
            seq![
                run_id,
                row.day@,
                decimal(row.new_pubkeys as nat),
            ],
        ),
{
    reveal_strlit(",");
    reveal_strlit("\n");
    let line = new_users_text(run_id, row);
    let p0 = run_id;
    lemma_first_part(p0);
    let c1 = row.day@;
    lemma_next_part(p0, c1);
    let p1 = p0 + ","@ + c1;
    lemma_plain_columns(row.new_pubkeys as nat, None, Seq::empty(), ZapParticipantRole::Sender);
    let c2 = decimal(row.new_pubkeys as nat);
    lemma_next_part(p1, c2);
    let p2 = p1 + ","@ + c2;
    assert(line =~= p2.push('\n'));
    assert(line.drop_last() =~= p2);
    assert(parts(p2) =~= seq![p0, c1, c2]);
}

/// Distinct publishers: run, grain, first day, kind, publishers.
pub proof fn lemma_distinct_line(run_id: Seq<char>, row: DistinctPubkeysPeriod)
    requires
        is_plain(run_id),
        is_plain(row.grain@),
        is_plain(row.period_start@),
    ensures
        has_columns(
            distinct_text(run_id, row),
            seq![
                run_id,
                row.grain@,
                row.period_start@,
                kind_column(row.kind),
                decimal(row.unique_pubkeys as nat),
            ],
        ),
{
    reveal_strlit(",");
    reveal_strlit("\n");
    let line = distinct_text(run_id, row);
    let p0 = run_id;
    lemma_first_part(p0);
    let c1 = row.grain@;
    lemma_next_part(p0, c1);
    let p1 = p0 + ","@ + c1;
    let c2 = row.period_start@;
    lemma_next_part(p1, c2);
    let p2 = p1 + ","@ + c2;
    lemma_plain_columns(0, row.kind, Seq::empty(), ZapParticipantRole::Sender);
    let c3 = kind_column(row.kind);
    lemma_next_part(p2, c3);
    let p3 = p2 + ","@ + c3;
    lemma_plain_columns(row.unique_pubkeys as nat, None, Seq::empty(), ZapParticipantRole::Sender);
    let c4 = decimal(row.unique_pubkeys as nat);
    lemma_next_part(p3, c4);
    let p4 = p3 + ","@ + c4;
    assert(line =~= p4.push('\n'));
    assert(line.drop_last() =~= p4);
    assert(parts(p4) =~= seq![p0, c1, c2, c3, c4]);
}

/// Active publishers: run, grain, first day, publishers, those with a profile,
/// with a follows list, with both, and events.
pub proof fn lemma_active_line(run_id: Seq<char>, row: ActiveUsersPeriod)
    requires
        is_plain(run_id),
        is_plain(row.grain@),
        is_plain(row.period_start@),
    ensures
        has_columns(
            active_text(run_id, row),
            seq![
                run_id,
                row.grain@,
                row.period_start@,
                decimal(row.active_users as nat),
                decimal(row.has_profile as nat),
                decimal(row.has_follows_list as nat),
                decimal(row.has_profile_and_follows_list as nat),
                decimal(row.total_events as nat),
            ],
        ),
{
    reveal_strlit(",");
    reveal_strlit("\n");
    let line = active_text(run_id, row);
    let p0 = run_id;
    lemma_first_part(p0);
    let c1 = row.grain@;
    lemma_next_part(p0, c1);
    let p1 = p0 + ","@ + c1;
    let c2 = row.period_start@;
    lemma_next_part(p1, c2);
    let p2 = p1 + ","@ + c2;
    lemma_plain_columns(row.active_users as nat, None, Seq::empty(), ZapParticipantRole::Sender);
    let c3 = decimal(row.active_users as nat);
    lemma_next_part(p2, c3);
    let p3 = p2 + ","@ + c3;
    lemma_plain_columns(row.has_profile as nat, None, Seq::empty(), ZapParticipantRole::Sender);
    let c4 = decimal(row.has_profile as nat);
    lemma_next_part(p3, c4);
    let p4 = p3 + ","@ + c4;
    lemma_plain_columns(row.has_follows_list as nat, None, Seq::empty(), ZapParticipantRole::Sender);
    let c5 = decimal(row.has_follows_list as nat);
    lemma_next_part(p4, c5);
    let p5 = p4 + ","@ + c5;
    lemma_plain_columns(row.has_profile_and_follows_list as nat, None, Seq::empty(), ZapParticipantRole::Sender);
    let c6 = decimal(row.has_profile_and_follows_list as nat);
    lemma_next_part(p5, c6);
    let p6 = p5 + ","@ + c6;
    lemma_plain_columns(row.total_events as nat, None, Seq::empty(), ZapParticipantRole::Sender);
    let c7 = decimal(row.total_events as nat);
    lemma_next_part(p6, c7);
    let p7 = p6 + ","@ + c7;
    assert(line =~= p7.push('\n'));
    assert(line.drop_last() =~= p7);
    assert(parts(p7) =~= seq![p0, c1, c2, c3, c4, c5, c6, c7]);
}

/// A cohort in a period: run, grain, start of the cohort, period, publishers.
pub proof fn lemma_cohort_line(run_id: Seq<char>, row: CohortRetentionPeriod)
    requires
        is_plain(run_id),
        is_plain(row.grain@),
        is_plain(row.cohort_start@),
        is_plain(row.activity_period@),
    ensures
        has_columns(
            cohort_text(run_id, row),
            seq![
                run_id,
                row.grain@,
                row.cohort_start@,
                row.activity_period@,
                decimal(row.active_pubkeys as nat),
            ],
        ),
{
    reveal_strlit(",");
    reveal_strlit("\n");
    let line = cohort_text(run_id, row);
    let p0 = run_id;
    lemma_first_part(p0);
    let c1 = row.grain@;
    lemma_next_part(p0, c1);
    let p1 = p0 + ","@ + c1;
    let c2 = row.cohort_start@;
    lemma_next_part(p1, c2);
    let p2 = p1 + ","@ + c2;
    let c3 = row.activity_period@;
    lemma_next_part(p2, c3);
    let p3 = p2 + ","@ + c3;
    lemma_plain_columns(row.active_pubkeys as nat, None, Seq::empty(), ZapParticipantRole::Sender);
    let c4 = decimal(row.active_pubkeys as nat);
    lemma_next_part(p3, c4);
    let p4 = p3 + ","@ + c4;
    assert(line =~= p4.push('\n'));
    assert(line.drop_last() =~= p4);
    assert(parts(p4) =~= seq![p0, c1, c2, c3, c4]);
}

/// A day of engagement: product, day, notes, replies, reactions.
pub proof fn lemma_engagement_line(product_id: Seq<char>, row: (u64, EngagementDay))
    requires
        is_plain(product_id),
    ensures
        has_columns(
            engagement_text(product_id, row),
            seq![
                product_id,
                decimal(row.1.day_epoch as nat),
                decimal(row.1.original_notes as nat),
                decimal(row.1.replies as nat),
                decimal(row.1.reactions as nat),
            ],
        ),
{
    reveal_strlit(",");
    reveal_strlit("\n");
    let line = engagement_text(product_id, row);
    let p0 = product_id;
    lemma_first_part(p0);
    lemma_plain_columns(row.1.day_epoch as nat, None, Seq::empty(), ZapParticipantRole::Sender);
    let c1 = decimal(row.1.day_epoch as nat);
    lemma_next_part(p0, c1);
    let p1 = p0 + ","@ + c1;
    lemma_plain_columns(row.1.original_notes as nat, None, Seq::empty(), ZapParticipantRole::Sender);
    let c2 = decimal(row.1.original_notes as nat);
    lemma_next_part(p1, c2);
    let p2 = p1 + ","@ + c2;
    lemma_plain_columns(row.1.replies as nat, None, Seq::empty(), ZapParticipantRole::Sender);
    let c3 = decimal(row.1.replies as nat);
    lemma_next_part(p2, c3);
    let p3 = p2 + ","@ + c3;
    lemma_plain_columns(row.1.reactions as nat, None, Seq::empty(), ZapParticipantRole::Sender);
    let c4 = decimal(row.1.reactions as nat);
    lemma_next_part(p3, c4);
    let p4 = p3 + ","@ + c4;
    assert(line =~= p4.push('\n'));
    assert(line.drop_last() =~= p4);
    assert(parts(p4) =~= seq![p0, c1, c2, c3, c4]);
}

/// A day of articles: product, day, articles, bytes.
pub proof fn lemma_longform_line(product_id: Seq<char>, row: (u64, LongformDay))
    requires
        is_plain(product_id),
    ensures
        has_columns(
            longform_text(product_id, row),
            seq![
                product_id,
                decimal(row.1.day_epoch as nat),
                decimal(row.1.articles as nat),
                decimal(row.1.content_bytes as nat),
            ],
        ),
{
    reveal_strlit(",");
    reveal_strlit("\n");
    let line = longform_text(product_id, row);
    let p0 = product_id;
    lemma_first_part(p0);
    lemma_plain_columns(row.1.day_epoch as nat, None, Seq::empty(), ZapParticipantRole::Sender);
    let c1 = decimal(row.1.day_epoch as nat);
    lemma_next_part(p0, c1);
    let p1 = p0 + ","@ + c1;
    lemma_plain_columns(row.1.articles as nat, None, Seq::empty(), ZapParticipantRole::Sender);
    let c2 = decimal(row.1.articles as nat);
    lemma_next_part(p1, c2);
    let p2 = p1 + ","@ + c2;
    lemma_plain_columns(row.1.content_bytes as nat, None, Seq::empty(), ZapParticipantRole::Sender);
    let c3 = decimal(row.1.content_bytes as nat);
    lemma_next_part(p2, c3);
    let p3 = p2 + ","@ + c3;
    assert(line =~= p3.push('\n'));
    assert(line.drop_last() =~= p3);
    assert(parts(p3) =~= seq![p0, c1, c2, c3]);
}

/// A day of zaps: product, day, zaps, millisatoshis, senders, recipients.
pub proof fn lemma_zap_line(product_id: Seq<char>, row: (u64, ZapDay))
    requires
        is_plain(product_id),
    ensures
        has_columns(
            zap_text(product_id, row),
            seq![
                product_id,
                decimal(row.1.day_epoch as nat),
                decimal(row.1.accepted as nat),
                decimal(row.1.amount_msats as nat),
                decimal(row.1.validated_senders as nat),
                decimal(row.1.validated_recipients as nat),
            ],
        ),
{
    reveal_strlit(",");
    reveal_strlit("\n");
    let line = zap_text(product_id, row);
    let p0 = product_id;
    lemma_first_part(p0);
    lemma_plain_columns(row.1.day_epoch as nat, None, Seq::empty(), ZapParticipantRole::Sender);
    let c1 = decimal(row.1.day_epoch as nat);
    lemma_next_part(p0, c1);
    let p1 = p0 + ","@ + c1;
    lemma_plain_columns(row.1.accepted as nat, None, Seq::empty(), ZapParticipantRole::Sender);
    let c2 = decimal(row.1.accepted as nat);
    lemma_next_part(p1, c2);
    let p2 = p1 + ","@ + c2;
    lemma_plain_columns(row.1.amount_msats as nat, None, Seq::empty(), ZapParticipantRole::Sender);
    let c3 = decimal(row.1.amount_msats as nat);
    lemma_next_part(p2, c3);
    let p3 = p2 + ","@ + c3;
    lemma_plain_columns(row.1.validated_senders as nat, None, Seq::empty(), ZapParticipantRole::Sender);
    let c4 = decimal(row.1.validated_senders as nat);
    lemma_next_part(p3, c4);
    let p4 = p3 + ","@ + c4;
    lemma_plain_columns(row.1.validated_recipients as nat, None, Seq::empty(), ZapParticipantRole::Sender);
    let c5 = decimal(row.1.validated_recipients as nat);
    lemma_next_part(p4, c5);
    let p5 = p4 + ","@ + c5;
    assert(line =~= p5.push('\n'));
    assert(line.drop_last() =~= p5);
    assert(parts(p5) =~= seq![p0, c1, c2, c3, c4, c5]);
}

/// A bucket of a day: product, day, bucket, zaps, millisatoshis.
pub proof fn lemma_histogram_line(product_id: Seq<char>, row: ZapDay, bucket: int)
    requires
        is_plain(product_id),
    ensures
        has_columns(
            histogram_text(product_id, row, bucket),
            seq![
                product_id,
                decimal(row.day_epoch as nat),
                decimal(bucket as nat),
                decimal(row.histogram@[bucket] as nat),
                decimal(row.histogram_amount_msats@[bucket] as nat),
            ],
        ),
{
    reveal_strlit(",");
    reveal_strlit("\n");
    let line = histogram_text(product_id, row, bucket);
    let p0 = product_id;
    lemma_first_part(p0);
    lemma_plain_columns(row.day_epoch as nat, None, Seq::empty(), ZapParticipantRole::Sender);
    let c1 = decimal(row.day_epoch as nat);
    lemma_next_part(p0, c1);
    let p1 = p0 + ","@ + c1;
    lemma_plain_columns(bucket as nat, None, Seq::empty(), ZapParticipantRole::Sender);
    let c2 = decimal(bucket as nat);
    lemma_next_part(p1, c2);
    let p2 = p1 + ","@ + c2;
    lemma_plain_columns(row.histogram@[bucket] as nat, None, Seq::empty(), ZapParticipantRole::Sender);
    let c3 = decimal(row.histogram@[bucket] as nat);
    lemma_next_part(p2, c3);
    let p3 = p2 + ","@ + c3;
    lemma_plain_columns(row.histogram_amount_msats@[bucket] as nat, None, Seq::empty(), ZapParticipantRole::Sender);
    let c4 = decimal(row.histogram_amount_msats@[bucket] as nat);
    lemma_next_part(p3, c4);
    let p4 = p3 + ","@ + c4;
    assert(line =~= p4.push('\n'));
    assert(line.drop_last() =~= p4);
    assert(parts(p4) =~= seq![p0, c1, c2, c3, c4]);
}

/// A reason of a day: product, day, reason, zaps.
pub proof fn lemma_rejection_line(product_id: Seq<char>, row: ZapDay, reason: int)
    requires
        is_plain(product_id),
    ensures
        has_columns(
            rejection_text(product_id, row, reason),
            seq![
                product_id,
                decimal(row.day_epoch as nat),
                decimal(reason as nat),
                decimal(row.rejected@[reason] as nat),
            ],
        ),
{
    reveal_strlit(",");
    reveal_strlit("\n");
    let line = rejection_text(product_id, row, reason);
    let p0 = product_id;
    lemma_first_part(p0);
    lemma_plain_columns(row.day_epoch as nat, None, Seq::empty(), ZapParticipantRole::Sender);
    let c1 = decimal(row.day_epoch as nat);
    lemma_next_part(p0, c1);
    let p1 = p0 + ","@ + c1;
    lemma_plain_columns(reason as nat, None, Seq::empty(), ZapParticipantRole::Sender);
    let c2 = decimal(reason as nat);
    lemma_next_part(p1, c2);
    let p2 = p1 + ","@ + c2;
    lemma_plain_columns(row.rejected@[reason] as nat, None, Seq::empty(), ZapParticipantRole::Sender);
    let c3 = decimal(row.rejected@[reason] as nat);
    lemma_next_part(p2, c3);
    let p3 = p2 + ","@ + c3;
    assert(line =~= p3.push('\n'));
    assert(line.drop_last() =~= p3);
    assert(parts(p3) =~= seq![p0, c1, c2, c3]);
}

/// An hour: product, hour, kind, events.
pub proof fn lemma_hour_line(product_id: Seq<char>, row: ServingHourlyRow)
    requires
        is_plain(product_id),
    ensures
        has_columns(
            hour_text(product_id, row),
            seq![
                product_id,
                decimal(row.hour_epoch as nat),
                kind_column(row.kind),
                decimal(row.event_count as nat),
            ],
        ),
{
    reveal_strlit(",");
    reveal_strlit("\n");
    let line = hour_text(product_id, row);
    let p0 = product_id;
    lemma_first_part(p0);
    lemma_plain_columns(row.hour_epoch as nat, None, Seq::empty(), ZapParticipantRole::Sender);
    let c1 = decimal(row.hour_epoch as nat);
    lemma_next_part(p0, c1);
    let p1 = p0 + ","@ + c1;
    lemma_plain_columns(0, row.kind, Seq::empty(), ZapParticipantRole::Sender);
    let c2 = kind_column(row.kind);
    lemma_next_part(p1, c2);
    let p2 = p1 + ","@ + c2;
    lemma_plain_columns(row.event_count as nat, None, Seq::empty(), ZapParticipantRole::Sender);
    let c3 = decimal(row.event_count as nat);
    lemma_next_part(p2, c3);
    let p3 = p2 + ","@ + c3;
    assert(line =~= p3.push('\n'));
    assert(line.drop_last() =~= p3);
    assert(parts(p3) =~= seq![p0, c1, c2, c3]);
}

/// A served kind: product, kind, events, publishers, first and last second,
/// content bytes, events with content.
pub proof fn lemma_served_kind_line(product_id: Seq<char>, row: ServingKindRow)
    requires
        is_plain(product_id),
    ensures
        has_columns(
            crate::publish_serving::kind_text(product_id, row),
            seq![
                product_id,
                decimal(row.kind as nat),
                decimal(row.event_count as nat),
                decimal(row.unique_pubkeys as nat),
                decimal(row.first_seen as nat),
                decimal(row.last_seen as nat),
                decimal(row.content_bytes as nat),
                decimal(row.content_rows as nat),
            ],
        ),
{
    reveal_strlit(",");
    reveal_strlit("\n");
    let line = crate::publish_serving::kind_text(product_id, row);
    let p0 = product_id;
    lemma_first_part(p0);
    lemma_plain_columns(row.kind as nat, None, Seq::empty(), ZapParticipantRole::Sender);
    let c1 = decimal(row.kind as nat);
    lemma_next_part(p0, c1);
    let p1 = p0 + ","@ + c1;
    lemma_plain_columns(row.event_count as nat, None, Seq::empty(), ZapParticipantRole::Sender);
    let c2 = decimal(row.event_count as nat);
    lemma_next_part(p1, c2);
    let p2 = p1 + ","@ + c2;
    lemma_plain_columns(row.unique_pubkeys as nat, None, Seq::empty(), ZapParticipantRole::Sender);
    let c3 = decimal(row.unique_pubkeys as nat);
    lemma_next_part(p2, c3);
    let p3 = p2 + ","@ + c3;
    lemma_plain_columns(row.first_seen as nat, None, Seq::empty(), ZapParticipantRole::Sender);
    let c4 = decimal(row.first_seen as nat);
    lemma_next_part(p3, c4);
    let p4 = p3 + ","@ + c4;
    lemma_plain_columns(row.last_seen as nat, None, Seq::empty(), ZapParticipantRole::Sender);
    let c5 = decimal(row.last_seen as nat);
    lemma_next_part(p4, c5);
    let p5 = p4 + ","@ + c5;
    lemma_plain_columns(row.content_bytes as nat, None, Seq::empty(), ZapParticipantRole::Sender);
    let c6 = decimal(row.content_bytes as nat);
    lemma_next_part(p5, c6);
    let p6 = p5 + ","@ + c6;
    lemma_plain_columns(row.content_rows as nat, None, Seq::empty(), ZapParticipantRole::Sender);
    let c7 = decimal(row.content_rows as nat);
    lemma_next_part(p6, c7);
    let p7 = p6 + ","@ + c7;
    assert(line =~= p7.push('\n'));
    assert(line.drop_last() =~= p7);
    assert(parts(p7) =~= seq![p0, c1, c2, c3, c4, c5, c6, c7]);
}

/// A ranked publisher: product, window in days, kind, key, events, kinds, first
/// and last second.
pub proof fn lemma_ranking_line(product_id: Seq<char>, row: PublisherRankingRow)
    requires
        is_plain(product_id),
    ensures
        has_columns(
            ranking_text(product_id, row),
            seq![
                product_id,
                decimal(row.days as nat),
                kind_column(row.kind),
                bytes_column(row.pubkey@),
                decimal(row.event_count as nat),
                decimal(row.kinds_count as nat),
                decimal(row.first_event as nat),
                decimal(row.last_event as nat),
            ],
        ),
{
    reveal_strlit(",");
    reveal_strlit("\n");
    reveal_strlit(",\\x");
    let line = ranking_text(product_id, row);
    let p0 = product_id;
    lemma_first_part(p0);
    lemma_plain_columns(row.days as nat, None, Seq::empty(), ZapParticipantRole::Sender);
    let c1 = decimal(row.days as nat);
    lemma_next_part(p0, c1);
    let p1 = p0 + ","@ + c1;
    lemma_plain_columns(0, row.kind, Seq::empty(), ZapParticipantRole::Sender);
    let c2 = kind_column(row.kind);
    lemma_next_part(p1, c2);
    let p2 = p1 + ","@ + c2;
    lemma_plain_columns(0, None, row.pubkey@, ZapParticipantRole::Sender);
    let c3 = bytes_column(row.pubkey@);
    lemma_next_part(p2, c3);
    let p3 = p2 + ","@ + c3;
    assert(p2 + ",\\x"@ + hex_text(row.pubkey@) =~= p3);
    lemma_plain_columns(row.event_count as nat, None, Seq::empty(), ZapParticipantRole::Sender);
    let c4 = decimal(row.event_count as nat);
    lemma_next_part(p3, c4);
    let p4 = p3 + ","@ + c4;
    lemma_plain_columns(row.kinds_count as nat, None, Seq::empty(), ZapParticipantRole::Sender);
    let c5 = decimal(row.kinds_count as nat);
    lemma_next_part(p4, c5);
    let p5 = p4 + ","@ + c5;
    lemma_plain_columns(row.first_event as nat, None, Seq::empty(), ZapParticipantRole::Sender);
    let c6 = decimal(row.first_event as nat);
    lemma_next_part(p5, c6);
    let p6 = p5 + ","@ + c6;
    lemma_plain_columns(row.last_event as nat, None, Seq::empty(), ZapParticipantRole::Sender);
    let c7 = decimal(row.last_event as nat);
    lemma_next_part(p6, c7);
    let p7 = p6 + ","@ + c7;
    assert(line =~= p7.push('\n'));
    assert(line.drop_last() =~= p7);
    assert(parts(p7) =~= seq![p0, c1, c2, c3, c4, c5, c6, c7]);
}

/// A leaf of zap participants: product, day, role, exact and estimated number,
/// error, sketch.
pub proof fn lemma_zap_leaf_line(product_id: Seq<char>, row: ZapDistinctLeaf)
    requires
        is_plain(product_id),
    ensures
        has_columns(
            crate::publish_zap::leaf_text(product_id, row),
            seq![
                product_id,
                decimal(row.day_epoch as nat),
                role_digit(row.role),
                decimal(row.exact_identities as nat),
                decimal(row.estimated_identities as nat),
                decimal(row.relative_error_ppm as nat),
                bytes_column(row.sketch@),
            ],
        ),
{
    reveal_strlit(",");
    reveal_strlit("\n");
    reveal_strlit(",\\x");
    let line = crate::publish_zap::leaf_text(product_id, row);
    let p0 = product_id;
    lemma_first_part(p0);
    lemma_plain_columns(row.day_epoch as nat, None, Seq::empty(), ZapParticipantRole::Sender);
    let c1 = decimal(row.day_epoch as nat);
    lemma_next_part(p0, c1);
    let p1 = p0 + ","@ + c1;
    lemma_plain_columns(0, None, Seq::empty(), row.role);
    let c2 = role_digit(row.role);
    lemma_next_part(p1, c2);
    let p2 = p1 + ","@ + c2;
    lemma_plain_columns(row.exact_identities as nat, None, Seq::empty(), ZapParticipantRole::Sender);
    let c3 = decimal(row.exact_identities as nat);
    lemma_next_part(p2, c3);
    let p3 = p2 + ","@ + c3;
    lemma_plain_columns(row.estimated_identities as nat, None, Seq::empty(), ZapParticipantRole::Sender);
    let c4 = decimal(row.estimated_identities as nat);
    lemma_next_part(p3, c4);
    let p4 = p3 + ","@ + c4;
    lemma_plain_columns(row.relative_error_ppm as nat, None, Seq::empty(), ZapParticipantRole::Sender);
    let c5 = decimal(row.relative_error_ppm as nat);
    lemma_next_part(p4, c5);
    let p5 = p4 + ","@ + c5;
    lemma_plain_columns(0, None, row.sketch@, ZapParticipantRole::Sender);
    let c6 = bytes_column(row.sketch@);
    lemma_next_part(p5, c6);
    let p6 = p5 + ","@ + c6;
    assert(p5 + ",\\x"@ + hex_text(row.sketch@) =~= p6);
    assert(line =~= p6.push('\n'));
    assert(line.drop_last() =~= p6);
    assert(parts(p6) =~= seq![p0, c1, c2, c3, c4, c5, c6]);
}

/// A leaf of distinct authors: product, first second of the hour, kind, sketch.
pub proof fn lemma_hour_leaf_line(product_id: Seq<char>, row: FlexibleLeaf)
    requires
        is_plain(product_id),
    ensures
        has_columns(
            crate::publish_flexible::leaf_text(product_id, row),
            seq![
                product_id,
                decimal((row.hour * 3_600) as nat),
                decimal(row.kind as nat),
                bytes_column(row.sketch@),
            ],
        ),
{
    reveal_strlit(",");
    reveal_strlit("\n");
    reveal_strlit(",\\x");
    let line = crate::publish_flexible::leaf_text(product_id, row);
    let p0 = product_id;
    lemma_first_part(p0);
    lemma_plain_columns((row.hour * 3_600) as nat, None, Seq::empty(), ZapParticipantRole::Sender);
    let c1 = decimal((row.hour * 3_600) as nat);
    lemma_next_part(p0, c1);
    let p1 = p0 + ","@ + c1;
    lemma_plain_columns(row.kind as nat, None, Seq::empty(), ZapParticipantRole::Sender);
    let c2 = decimal(row.kind as nat);
    lemma_next_part(p1, c2);
    let p2 = p1 + ","@ + c2;
    lemma_plain_columns(0, None, row.sketch@, ZapParticipantRole::Sender);
    let c3 = bytes_column(row.sketch@);
    lemma_next_part(p2, c3);
    let p3 = p2 + ","@ + c3;
    assert(p2 + ",\\x"@ + hex_text(row.sketch@) =~= p3);
    assert(line =~= p3.push('\n'));
    assert(line.drop_last() =~= p3);
    assert(parts(p3) =~= seq![p0, c1, c2, c3]);
}

} // verus!
