//! What the status page shows, as values: which rate, which tokens in which
//! order, which processes the cron listing makes visible, and the short
//! forms of long identifiers. Turning these into markup is left to the
//! caller.
use crate::hyperbeam::CronItem;
use crate::model::QueueView;
use crate::models::{reserves_opt, text_opt, ProcessStatus, StatusView};
use crate::queue::{status_views, QueueManager};
use crate::reserves::{token_keys, ReserveMap};
use crate::sync::{cron_created, cron_created_at, cron_target_of, rate_after, updated_rate};
use crate::text::{find_text, lemma_sorted_members, sort_texts, text_order, text_views};
use crate::time::{SyncRate, Timestamp};
use vstd::prelude::*;
use vstd::relations::sorted_by;
use vstd::string::{StrSliceExecFns, StringExecFns};

verus! {

/// The short form of a text of more than `limit` characters: its first
/// `head` characters, three dots, and its last `tail` characters. A text of
/// at most `limit` characters is its own short form.
pub open spec fn short_form(text: Seq<char>, limit: nat, head: nat, tail: nat) -> Seq<char> {
    if text.len() > limit {
        text.take(head as int) + "..."@ + text.skip(text.len() - tail)
    } else {
        text
    }
}

/// The short form of a text.
pub fn shortened(text: &str, limit: usize, head: usize, tail: usize) -> (r: String)
    requires
        head <= limit,
        tail <= limit,
    ensures
        r@ == short_form(text@, limit as nat, head as nat, tail as nat),
{
    let n = text.unicode_len();
    if n > limit {
        let front = text.substring_char(0, head);
        let back = text.substring_char(n - tail, n);
        let r = String::from_str(front).concat("...").concat(back);
        proof {
            assert(text@.subrange(0, head as int) =~= text@.take(head as int));
            assert(text@.subrange(n - tail, n as int) =~= text@.skip(n - tail));
        }
        r
    } else {
        String::from_str(text)
    }
}

/// A process id as the status page shows it.
pub fn short_process_id(process_id: &str) -> (r: String)
    ensures
        r@ == short_form(process_id@, 43, 20, 20),
{
    shortened(process_id, 43, 20, 20)
}

/// A task id as the status page shows it.
pub fn short_task_id(task_id: &str) -> (r: String)
    ensures
        r@ == short_form(task_id@, 20, 10, 7),
{
    shortened(task_id, 20, 10, 7)
}

impl StatusView {
    /// The rate that the status page shows at `now`: measured from the
    /// creation of the cron where that is known and gives a rate, the stored
    /// average where that is above zero, none otherwise.
    pub open spec fn shown_rate(self, now: Timestamp) -> Option<SyncRate> {
        let fresh = rate_after(
            SyncRate::zero(),
            self.metrics.total_slots_advanced,
            self.cron_created_at,
            now,
        );
        if fresh.positive() {
            Some(fresh)
        } else if self.metrics.avg_sync_rate.positive() {
            Some(self.metrics.avg_sync_rate)
        } else {
            None
        }
    }

    /// The record as the cron listing shows it at `now`: with the creation
    /// time of the cron, and with the rate measured from it where that gives
    /// one.
    pub open spec fn seen_through_cron(self, created: Option<Timestamp>, now: Timestamp) -> StatusView {
        StatusView {
            cron_created_at: created,
            metrics: crate::models::MetricsView {
                avg_sync_rate: rate_after(
                    self.metrics.avg_sync_rate,
                    self.metrics.total_slots_advanced,
                    created,
                    now,
                ),
                ..self.metrics
            },
            ..self
        }
    }
}

impl ProcessStatus {
    /// The rate that the status page shows at `now`.
    pub fn display_rate(&self, now: Timestamp) -> (r: Option<SyncRate>)
        ensures
            r == self@.shown_rate(now),
    {
        let fresh = updated_rate(
            SyncRate::new_zero(),
            self.metrics.total_slots_advanced,
            self.cron_created_at,
            now,
        );
        if fresh.is_positive() {
            Some(fresh)
        } else if self.metrics.avg_sync_rate.is_positive() {
            Some(self.metrics.avg_sync_rate)
        } else {
            None
        }
    }
}

/// The records that a cron listing makes visible at `now`: for every entry
/// whose path names a registered process, in the order of the listing, the
/// record of that process as seen through the entry.
pub open spec fn cron_records(q: QueueView, items: Seq<CronItem>, now: Timestamp) -> Seq<StatusView>
    decreases items.len(),
{
    if items.len() == 0 {
        Seq::empty()
    } else {
        let before = cron_records(q, items.drop_last(), now);
        match cron_target_of(q, items.last().path@) {
            Some(id) => before.push(
                q.record(id).seen_through_cron(cron_created(items.last().created_at), now),
            ),
            None => before,
        }
    }
}

/// Copies of the records that a cron listing makes visible at `now`.
pub fn active_from_crons(queue: &QueueManager, items: &Vec<CronItem>, now: Timestamp) -> (r: Vec<
    ProcessStatus,
>)
    requires
        queue@.wf(),
    ensures
        status_views(r@) == cron_records(queue@, items@, now),
{
    let mut out: Vec<ProcessStatus> = Vec::new();
    let mut i: usize = 0;
    proof {
        assert(items@.take(0) =~= Seq::empty());
        assert(status_views(out@) =~= cron_records(queue@, items@.take(0), now));
    }
    while i < items.len()
        invariant
            queue@.wf(),
            i <= items@.len(),
            status_views(out@) == cron_records(queue@, items@.take(i as int), now),
        decreases items@.len() - i,
    {
        proof {
            assert(items@.take(i + 1).drop_last() == items@.take(i as int));
            assert(items@.take(i + 1).last() == items@[i as int]);
        }
        match queue.cron_target(&items[i]) {
            Some(id) => {
                match queue.get_process(id.as_str()) {
                    Some(mut record) => {
                        let created = cron_created_at(items[i].created_at);
                        record.cron_created_at = created;
                        record.metrics.avg_sync_rate = updated_rate(
                            record.metrics.avg_sync_rate,
                            record.metrics.total_slots_advanced,
                            created,
                            now,
                        );
                        let ghost sofar = out@;
                        out.push(record);
                        proof {
                            assert(status_views(out@) =~= status_views(sofar).push(record@));
                        }
                    },
                    None => {},
                }
            },
            None => {},
        }
        i += 1;
    }
    proof {
        assert(items@.take(items@.len() as int) == items@);
    }
    out
}

/// One line of the reserve comparison: a token and the amount that each
/// source reports of it, where it reports one.
#[derive(Debug)]
pub struct ReserveRow {
    pub token: String,
    pub hb_amount: Option<String>,
    pub ao_amount: Option<String>,
}

/// The tokens of the lines of a comparison, in their order.
pub open spec fn row_tokens(rows: Seq<ReserveRow>) -> Seq<Seq<char>> {
    rows.map_values(|r: ReserveRow| r.token@)
}

/// The token identifiers among the keys of a report; none where the report
/// is missing.
pub open spec fn tokens_of(report: Option<Map<Seq<char>, Seq<char>>>) -> Set<Seq<char>> {
    match report {
        Some(m) => token_keys(m),
        None => Set::empty(),
    }
}

/// The amount that a report gives for a token, where it names the token.
pub open spec fn amount_in(report: Option<Map<Seq<char>, Seq<char>>>, token: Seq<char>) -> Option<
    Seq<char>,
> {
    match report {
        Some(m) => if m.contains_key(token) {
            Some(m[token])
        } else {
            None
        },
        None => None,
    }
}

/// Whether the lines compare two reports: one line for every token that
/// either report names, in lexicographic order of the tokens, each with the
/// amounts that the reports give for it.
pub open spec fn compares(
    rows: Seq<ReserveRow>,
    hb: Option<Map<Seq<char>, Seq<char>>>,
    ao: Option<Map<Seq<char>, Seq<char>>>,
) -> bool {
    &&& sorted_by(row_tokens(rows), text_order())
    &&& row_tokens(rows).no_duplicates()
    &&& forall|t: Seq<char>| #[trigger]
        row_tokens(rows).contains(t) <==> tokens_of(hb).contains(t) || tokens_of(ao).contains(t)
    &&& forall|i: int|
        0 <= i < rows.len() ==> text_opt((#[trigger] rows[i]).hb_amount) == amount_in(
            hb,
            rows[i].token@,
        ) && text_opt(rows[i].ao_amount) == amount_in(ao, rows[i].token@)
}

/// The amount that a report gives for a token.
fn amount_of(report: &Option<ReserveMap>, token: &String) -> (r: Option<String>)
    ensures
        text_opt(r) == amount_in(reserves_opt(*report), token@),
{
    match report {
        Some(m) => match m.get(token) {
            Some(amount) => Some(amount.clone()),
            None => None,
        },
        None => None,
    }
}

/// Compares the reserve reports of the two sources, token by token.
pub fn reserve_rows(hb: &Option<ReserveMap>, ao: &Option<ReserveMap>) -> (r: Vec<ReserveRow>)
    ensures
        compares(r@, reserves_opt(*hb), reserves_opt(*ao)),
{
    let ghost first = tokens_of(reserves_opt(*hb));
    let ghost second = tokens_of(reserves_opt(*ao));
    let mut tokens: Vec<String> = match hb {
        Some(m) => m.token_ids(),
        None => Vec::new(),
    };
    proof {
        if hb is None {
            assert(text_views(tokens@) =~= Seq::empty());
        }
    }
    match ao {
        Some(m) => {
            let more = m.token_ids();
            let mut i: usize = 0;
            while i < more.len()
                invariant
                    i <= more@.len(),
                    text_views(more@).no_duplicates(),
                    forall|k: Seq<char>| #[trigger]
                        text_views(more@).contains(k) <==> second.contains(k),
                    text_views(tokens@).no_duplicates(),
                    forall|k: Seq<char>| #[trigger]
                        text_views(tokens@).contains(k) <==> first.contains(k) || exists|j: int|
                            0 <= j < i && #[trigger] text_views(more@)[j] == k,
                decreases more@.len() - i,
            {
                let ghost sofar = text_views(tokens@);
                let ghost t = text_views(more@)[i as int];
                if find_text(&tokens, &more[i]).is_none() {
                    tokens.push(more[i].clone());
                    proof {
                        assert(text_views(tokens@) =~= sofar.push(t));
                    }
                }
                proof {
                    let after = text_views(tokens@);
                    assert forall|k: Seq<char>| #[trigger] after.contains(k) <==> first.contains(k)
                        || exists|j: int| 0 <= j < i + 1 && #[trigger] text_views(more@)[j] == k by {
                        if after.contains(k) {
                            let a = choose|a: int| 0 <= a < after.len() && after[a] == k;
                            if a < sofar.len() {
                                assert(sofar[a] == k);
                                assert(sofar.contains(k));
                            } else {
                                assert(text_views(more@)[i as int] == k);
                            }
                        }
                        if first.contains(k) || exists|j: int|
                            0 <= j < i + 1 && #[trigger] text_views(more@)[j] == k {
                            if sofar.contains(k) {
                                let a = choose|a: int| 0 <= a < sofar.len() && sofar[a] == k;
                                assert(after[a] == k);
                            } else {
                                assert(k == t);
                                assert(after[after.len() - 1] == k);
                            }
                        }
                    }
                }
                i += 1;
            }
            proof {
                assert forall|k: Seq<char>| #[trigger] text_views(tokens@).contains(k) <==> first.contains(k)
                    || second.contains(k) by {
                    if second.contains(k) {
                        assert(text_views(more@).contains(k));
                        let j = choose|j: int|
                            0 <= j < text_views(more@).len() && text_views(more@)[j] == k;
                        assert(text_views(more@)[j] == k);
                    }
                    if exists|j: int| 0 <= j < more@.len() && #[trigger] text_views(more@)[j] == k {
                        let j = choose|j: int|
                            0 <= j < more@.len() && #[trigger] text_views(more@)[j] == k;
                        assert(text_views(more@).contains(k));
                    }
                }
            }
        },
        None => {},
    }
    let ghost unsorted = text_views(tokens@);
    proof {
        lemma_sorted_members(unsorted);
    }
    let sorted = sort_texts(tokens);
    let mut rows: Vec<ReserveRow> = Vec::new();
    let mut k: usize = 0;
    while k < sorted.len()
        invariant
            k <= sorted@.len(),
            rows@.len() == k,
            forall|j: int|
                0 <= j < k ==> (#[trigger] rows@[j]).token@ == sorted@[j]@ && text_opt(
                    rows@[j].hb_amount,
                ) == amount_in(reserves_opt(*hb), rows@[j].token@) && text_opt(rows@[j].ao_amount)
                    == amount_in(reserves_opt(*ao), rows@[j].token@),
        decreases sorted@.len() - k,
    {
        let token = sorted[k].clone();
        let hb_amount = amount_of(hb, &token);
        let ao_amount = amount_of(ao, &token);
        rows.push(ReserveRow { token, hb_amount, ao_amount });
        k += 1;
    }
    proof {
        assert(row_tokens(rows@) =~= text_views(sorted@));
    }
    rows
}

} // verus!
