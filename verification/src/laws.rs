use vstd::prelude::*;

use crate::calendar::Date;
use crate::finalize::{has_finalized_rate, spec_is_finalized};
use crate::provider::{monthly_wf, spec_bits_finite, MonthRates, Quote};
use crate::reconcile::{
    spec_commands, spec_failed, spec_month_commands, spec_rate_decision, spec_skipped,
    spec_total_quotes, CmdModel, RateDecision,
};
use crate::store::{key_of, lemma_find_rate_props, snapshot_wf, spec_find_rate, StoredRate};

verus! {

/// A row that is finalized for its own month: recorded after that month
/// closed.
pub open spec fn finalized_row(r: StoredRate) -> bool {
    spec_is_finalized(r, r.year, r.month)
}

/// The row `r` stands in `s`, unchanged in every field.
pub open spec fn row_present(s: Seq<StoredRate>, r: StoredRate) -> bool {
    exists|i: int| 0 <= i < s.len() && s[i] == r
}

/// Some command of `cmds` addresses the key `k`.
pub open spec fn key_named(cmds: Seq<CmdModel>, k: (i32, u8, Seq<char>, Seq<char>)) -> bool {
    exists|t: int|
        0 <= t < cmds.len() && ((#[trigger] cmds[t]).year, cmds[t].month, cmds[t].from, cmds[t].to)
            == k
}

/// The store carried out command `c`: the row at the command's key holds
/// the commanded value, recorded at `rec`.
pub open spec fn cmd_applied(s2: Seq<StoredRate>, c: CmdModel, rec: Date) -> bool {
    exists|i: int|
        0 <= i < s2.len() && key_of(#[trigger] s2[i]) == (c.year, c.month, c.from, c.to)
            && s2[i].rate_bits == c.rate_bits && s2[i].recorded_at == rec
}

/// The store already holds what command `c` would write: a row at the
/// command's key with the commanded value, and the command updates that
/// very row in place.
pub open spec fn cmd_rewrites_in_place(s: Seq<StoredRate>, c: CmdModel) -> bool {
    exists|i: int|
        0 <= i < s.len() && key_of(#[trigger] s[i]) == (c.year, c.month, c.from, c.to)
            && s[i].rate_bits == c.rate_bits && c.existing_id == Some(s[i].id)
}

/// How the rate store stands after carrying out one run's commands, per
/// the upsert semantics of the store interface (update in place at the
/// existing row, insert otherwise; at most one write per key): every
/// commanded write landed with record date `rec`, every row whose key no
/// command names is carried over unchanged, and nothing else appeared.
pub open spec fn run_updates_store(
    s: Seq<StoredRate>,
    cmds: Seq<CmdModel>,
    rec: Date,
    s2: Seq<StoredRate>,
) -> bool {
    &&& snapshot_wf(s2)
    &&& forall|t: int| 0 <= t < cmds.len() ==> cmd_applied(s2, #[trigger] cmds[t], rec)
    &&& forall|i: int|
        0 <= i < s.len() && !key_named(cmds, key_of(#[trigger] s[i])) ==> row_present(s2, s[i])
    &&& forall|i: int|
        0 <= i < s2.len() && !key_named(cmds, key_of(#[trigger] s2[i])) ==> row_present(s, s2[i])
}

/// Every command a month's quotes give rise to targets this year and the
/// home currency, addresses a key that holds no finalized rate, carries a
/// finite value, and names the handle the snapshot holds for its key.
proof fn lemma_month_command_fields(
    snap: Seq<StoredRate>,
    year: i32,
    home: Seq<char>,
    month: u8,
    qs: Seq<Quote>,
)
    ensures
        forall|t: int|
            0 <= t < spec_month_commands(snap, year, home, month, qs).len() ==> {
                let c = #[trigger] spec_month_commands(snap, year, home, month, qs)[t];
                &&& c.year == year
                &&& c.to == home
                &&& c.month == month
                &&& !has_finalized_rate(snap, year, month, c.from, home)
                &&& spec_bits_finite(c.rate_bits)
                &&& c.existing_id == (match spec_find_rate(snap, year, month, c.from, home) {
                    Some(i) => Some(snap[i].id),
                    None => None,
                })
            },
    decreases qs.len(),
{
    if qs.len() > 0 {
        lemma_month_command_fields(snap, year, home, month, qs.drop_last());
    }
}

/// As `lemma_month_command_fields`, over a whole pass's commands.
proof fn lemma_command_fields(
    snap: Seq<StoredRate>,
    year: i32,
    home: Seq<char>,
    monthly: Seq<MonthRates>,
)
    ensures
        forall|t: int|
            0 <= t < spec_commands(snap, year, home, monthly).len() ==> {
                let c = #[trigger] spec_commands(snap, year, home, monthly)[t];
                &&& c.year == year
                &&& c.to == home
                &&& !has_finalized_rate(snap, year, c.month, c.from, home)
                &&& spec_bits_finite(c.rate_bits)
                &&& c.existing_id == (match spec_find_rate(snap, year, c.month, c.from, home) {
                    Some(i) => Some(snap[i].id),
                    None => None,
                })
            },
    decreases monthly.len(),
{
    if monthly.len() > 0 {
        lemma_command_fields(snap, year, home, monthly.drop_last());
        lemma_month_command_fields(snap, year, home, monthly.last().month, monthly.last().quotes@);
    }
}

/// Finalization monotonicity: once a stored rate is finalized, no
/// reconciliation pass computes a command that addresses its key or its
/// row handle — whatever the provider returned for that key, the row is
/// never altered.
pub proof fn lemma_finalization_monotonic(
    snap: Seq<StoredRate>,
    year: i32,
    home: Seq<char>,
    monthly: Seq<MonthRates>,
)
    requires
        snapshot_wf(snap),
    ensures
        forall|t: int|
            0 <= t < spec_commands(snap, year, home, monthly).len() ==> {
                let c = #[trigger] spec_commands(snap, year, home, monthly)[t];
                &&& c.year == year
                &&& c.to == home
                &&& !has_finalized_rate(snap, year, c.month, c.from, home)
            },
        forall|t: int, j: int|
            0 <= t < spec_commands(snap, year, home, monthly).len() && 0 <= j < snap.len()
                && finalized_row(#[trigger] snap[j]) ==> {
                let c = #[trigger] spec_commands(snap, year, home, monthly)[t];
                &&& (c.year, c.month, c.from, c.to) != key_of(snap[j])
                &&& c.existing_id != Some(snap[j].id)
            },
{
    lemma_command_fields(snap, year, home, monthly);
    let cmds = spec_commands(snap, year, home, monthly);
    assert forall|t: int, j: int|
        0 <= t < cmds.len() && 0 <= j < snap.len() && finalized_row(#[trigger] snap[j]) implies {
        let c = #[trigger] cmds[t];
        &&& (c.year, c.month, c.from, c.to) != key_of(snap[j])
        &&& c.existing_id != Some(snap[j].id)
    } by {
        let c = cmds[t];
        if (c.year, c.month, c.from, c.to) == key_of(snap[j]) {
            assert(snap[j].year == c.year && snap[j].month == c.month);
            assert(spec_is_finalized(snap[j], year, c.month));
            assert(has_finalized_rate(snap, year, c.month, c.from, home));
        }
        if c.existing_id == Some(snap[j].id) {
            lemma_find_rate_props(snap, year, c.month, c.from, home);
            match spec_find_rate(snap, year, c.month, c.from, home) {
                Some(i) => {
                    if i != j {
                        if i < j {
                            assert(snap[i].id != snap[j].id);
                        } else {
                            assert(snap[j].id != snap[i].id);
                        }
                    }
                    assert(i == j);
                    assert(key_of(snap[j]) == (year, c.month, c.from, home));
                    assert(spec_is_finalized(snap[j], year, c.month));
                    assert(has_finalized_rate(snap, year, c.month, c.from, home));
                },
                None => {},
            }
        }
    }
}

/// Command `c` carries the reciprocal of one of the quotes `qs`, for that
/// quote's currency.
pub open spec fn cmd_from_quote(qs: Seq<Quote>, c: CmdModel) -> bool {
    exists|k: int|
        0 <= k < qs.len() && (#[trigger] qs[k]).currency@ == c.from && qs[k].recip_bits
            == c.rate_bits
}

/// Aggregation tie-break, carried through to the writes: every command a
/// month's pass computes takes its value from one of that month's quotes.
/// The aggregator's contract makes a month's quotes exactly the latest
/// parsable day's set, so a persisted value always stems from the latest
/// date's entry, never an earlier date's.
pub proof fn lemma_commands_from_quotes(
    snap: Seq<StoredRate>,
    year: i32,
    home: Seq<char>,
    month: u8,
    qs: Seq<Quote>,
)
    ensures
        forall|t: int|
            0 <= t < spec_month_commands(snap, year, home, month, qs).len() ==> cmd_from_quote(
                qs,
                #[trigger] spec_month_commands(snap, year, home, month, qs)[t],
            ),
    decreases qs.len(),
{
    if qs.len() > 0 {
        let rest = qs.drop_last();
        let q = qs.last();
        let mc = spec_month_commands(snap, year, home, month, qs);
        let mr = spec_month_commands(snap, year, home, month, rest);
        lemma_commands_from_quotes(snap, year, home, month, rest);
        assert forall|t: int| 0 <= t < mc.len() implies cmd_from_quote(qs, #[trigger] mc[t]) by {
            match spec_rate_decision(snap, year, home, month, q) {
                RateDecision::Persist(c) => {
                    if t < mr.len() {
                        assert(mc[t] == mr[t]);
                        assert(cmd_from_quote(rest, mr[t]));
                        let k = choose|k: int|
                            0 <= k < rest.len() && (#[trigger] rest[k]).currency@ == mr[t].from
                                && rest[k].recip_bits == mr[t].rate_bits;
                        assert(qs[k] == rest[k]);
                    } else {
                        assert(mc[t] == c);
                        assert(qs[qs.len() - 1] == q);
                        assert(c.from == q.currency@ && c.rate_bits == q.recip_bits);
                    }
                },
                _ => {
                    assert(mc[t] == mr[t]);
                    assert(cmd_from_quote(rest, mr[t]));
                    let k = choose|k: int|
                        0 <= k < rest.len() && (#[trigger] rest[k]).currency@ == mr[t].from
                            && rest[k].recip_bits == mr[t].rate_bits;
                    assert(qs[k] == rest[k]);
                },
            }
        }
    }
}

/// Division by zero yields an infinity, and no non-finite value is ever
/// persisted: every command of a pass carries a finite bit pattern, and the
/// skipped count, the failed count and the commands together account for
/// every fetched quote exactly once.
pub proof fn lemma_non_finite_never_persisted(
    snap: Seq<StoredRate>,
    year: i32,
    home: Seq<char>,
    monthly: Seq<MonthRates>,
)
    ensures
        forall|t: int|
            0 <= t < spec_commands(snap, year, home, monthly).len() ==> spec_bits_finite(
                (#[trigger] spec_commands(snap, year, home, monthly)[t]).rate_bits,
            ),
        spec_skipped(snap, year, home, monthly) + spec_failed(snap, year, home, monthly)
            + spec_commands(snap, year, home, monthly).len() == spec_total_quotes(monthly),
        0 <= spec_skipped(snap, year, home, monthly),
        0 <= spec_failed(snap, year, home, monthly),
{
    lemma_command_fields(snap, year, home, monthly);
    crate::reconcile::lemma_counts_bounded(snap, year, home, monthly);
}

/// One month of the second pass, given that the first pass's commands for
/// the month landed and that finalized rows of the year carried over.
proof fn lemma_month_idempotent(
    snap: Seq<StoredRate>,
    snap2: Seq<StoredRate>,
    year: i32,
    home: Seq<char>,
    month: u8,
    qs: Seq<Quote>,
    rec: Date,
)
    requires
        snapshot_wf(snap),
        snapshot_wf(snap2),
        forall|j: int|
            0 <= j < snap.len() && snap[j].year == year && finalized_row(#[trigger] snap[j])
                ==> row_present(snap2, snap[j]),
        forall|t: int|
            0 <= t < spec_month_commands(snap, year, home, month, qs).len() ==> cmd_applied(
                snap2,
                #[trigger] spec_month_commands(snap, year, home, month, qs)[t],
                rec,
            ),
    ensures
        forall|t: int|
            0 <= t < spec_month_commands(snap2, year, home, month, qs).len()
                ==> cmd_rewrites_in_place(
                snap2,
                #[trigger] spec_month_commands(snap2, year, home, month, qs)[t],
            ),
    decreases qs.len(),
{
    if qs.len() > 0 {
        let rest = qs.drop_last();
        let q = qs.last();
        let mc1 = spec_month_commands(snap, year, home, month, qs);
        let mc2 = spec_month_commands(snap2, year, home, month, qs);
        let r1 = spec_month_commands(snap, year, home, month, rest);
        let r2 = spec_month_commands(snap2, year, home, month, rest);
        assert forall|t: int| 0 <= t < r1.len() implies cmd_applied(snap2, #[trigger] r1[t], rec) by {
            match spec_rate_decision(snap, year, home, month, q) {
                RateDecision::Persist(c) => {
                    assert(mc1[t] == r1[t]);
                    assert(cmd_applied(snap2, mc1[t], rec));
                },
                _ => {
                    assert(mc1[t] == r1[t]);
                    assert(cmd_applied(snap2, mc1[t], rec));
                },
            }
        }
        lemma_month_idempotent(snap, snap2, year, home, month, rest, rec);
        assert forall|t: int|
            0 <= t < mc2.len() implies cmd_rewrites_in_place(snap2, #[trigger] mc2[t]) by {
            match spec_rate_decision(snap2, year, home, month, q) {
                RateDecision::Persist(c2) => {
                    if t < r2.len() {
                        assert(mc2[t] == r2[t]);
                        assert(cmd_rewrites_in_place(snap2, r2[t]));
                    } else {
                        assert(mc2[t] == c2);
                        if has_finalized_rate(snap, year, month, q.currency@, home) {
                            let j = choose|j: int|
                                0 <= j < snap.len() && key_of(#[trigger] snap[j]) == (
                                year,
                                month,
                                q.currency@,
                                home,
                                ) && spec_is_finalized(snap[j], year, month);
                            assert(snap[j].year == year && snap[j].month == month);
                            assert(finalized_row(snap[j]));
                            assert(row_present(snap2, snap[j]));
                            let i2 = choose|i: int| 0 <= i < snap2.len() && snap2[i] == snap[j];
                            assert(key_of(snap2[i2]) == (year, month, q.currency@, home));
                            assert(spec_is_finalized(snap2[i2], year, month));
                            assert(has_finalized_rate(snap2, year, month, q.currency@, home));
                            assert(false);
                        } else if !spec_bits_finite(q.recip_bits) {
                            assert(false);
                        } else {
                            match spec_rate_decision(snap, year, home, month, q) {
                                RateDecision::Persist(c1) => {
                                    assert(mc1 == r1.push(c1));
                                    assert(mc1[mc1.len() - 1] == c1);
                                    assert(cmd_applied(snap2, c1, rec));
                                    let i2 = choose|i: int|
                                        0 <= i < snap2.len() && key_of(#[trigger] snap2[i]) == (
                                        c1.year,
                                        c1.month,
                                        c1.from,
                                        c1.to,
                                        ) && snap2[i].rate_bits == c1.rate_bits
                                            && snap2[i].recorded_at == rec;
                                    assert(key_of(snap2[i2]) == (year, month, q.currency@, home));
                                    assert(snap2[i2].rate_bits == q.recip_bits);
                                    lemma_find_rate_props(snap2, year, month, q.currency@, home);
                                    match spec_find_rate(snap2, year, month, q.currency@, home) {
                                        Some(i3) => {
                                            if i3 != i2 {
                                                if i3 < i2 {
                                                    assert(key_of(snap2[i3]) != key_of(snap2[i2]));
                                                } else {
                                                    assert(key_of(snap2[i2]) != key_of(snap2[i3]));
                                                }
                                                assert(false);
                                            }
                                            assert(c2.existing_id == Some(snap2[i2].id));
                                            assert(c2.rate_bits == q.recip_bits);
                                            assert(cmd_rewrites_in_place(snap2, c2));
                                        },
                                        None => {
                                            assert(key_of(snap2[i2]) != (
                                                year,
                                                month,
                                                q.currency@,
                                                home,
                                            ));
                                            assert(false);
                                        },
                                    }
                                },
                                _ => {
                                    assert(false);
                                },
                            }
                        }
                    }
                },
                _ => {
                    assert(mc2 == r2);
                    assert(cmd_rewrites_in_place(snap2, r2[t]));
                },
            }
        }
    }
}

/// A whole second pass, month by month.
proof fn lemma_all_idempotent(
    snap: Seq<StoredRate>,
    snap2: Seq<StoredRate>,
    year: i32,
    home: Seq<char>,
    monthly: Seq<MonthRates>,
    rec: Date,
)
    requires
        snapshot_wf(snap),
        snapshot_wf(snap2),
        forall|j: int|
            0 <= j < snap.len() && snap[j].year == year && finalized_row(#[trigger] snap[j])
                ==> row_present(snap2, snap[j]),
        forall|t: int|
            0 <= t < spec_commands(snap, year, home, monthly).len() ==> cmd_applied(
                snap2,
                #[trigger] spec_commands(snap, year, home, monthly)[t],
                rec,
            ),
    ensures
        forall|t: int|
            0 <= t < spec_commands(snap2, year, home, monthly).len() ==> cmd_rewrites_in_place(
                snap2,
                #[trigger] spec_commands(snap2, year, home, monthly)[t],
            ),
    decreases monthly.len(),
{
    if monthly.len() > 0 {
        let butlast = monthly.drop_last();
        let mr = monthly.last();
        let a1 = spec_commands(snap, year, home, butlast);
        let b1 = spec_month_commands(snap, year, home, mr.month, mr.quotes@);
        let a2 = spec_commands(snap2, year, home, butlast);
        let b2 = spec_month_commands(snap2, year, home, mr.month, mr.quotes@);
        let cmds1 = spec_commands(snap, year, home, monthly);
        assert(cmds1 == a1 + b1);
        assert forall|t: int| 0 <= t < a1.len() implies cmd_applied(snap2, #[trigger] a1[t], rec) by {
            assert(cmds1[t] == a1[t]);
            assert(cmd_applied(snap2, cmds1[t], rec));
        }
        assert forall|t: int| 0 <= t < b1.len() implies cmd_applied(snap2, #[trigger] b1[t], rec) by {
            assert(cmds1[a1.len() + t] == b1[t]);
            assert(cmd_applied(snap2, cmds1[a1.len() + t], rec));
        }
        lemma_all_idempotent(snap, snap2, year, home, butlast, rec);
        lemma_month_idempotent(snap, snap2, year, home, mr.month, mr.quotes@, rec);
        let cmds2 = spec_commands(snap2, year, home, monthly);
        assert(cmds2 == a2 + b2);
        assert forall|t: int|
            0 <= t < cmds2.len() implies cmd_rewrites_in_place(snap2, #[trigger] cmds2[t]) by {
            if t < a2.len() {
                assert(cmds2[t] == a2[t]);
                assert(cmd_rewrites_in_place(snap2, a2[t]));
            } else {
                assert(cmds2[t] == b2[t - a2.len()]);
                assert(cmd_rewrites_in_place(snap2, b2[t - a2.len()]));
            }
        }
    }
}

/// Idempotence: run the engine, let the store carry out its commands, and
/// run it again on the same provider data — the second pass computes only
/// commands that update existing rows in place with the values they
/// already hold. No row is added, no value changes, nothing is inverted
/// twice.
pub proof fn lemma_sync_idempotent(
    snap: Seq<StoredRate>,
    snap2: Seq<StoredRate>,
    year: i32,
    home: Seq<char>,
    monthly: Seq<MonthRates>,
    rec: Date,
)
    requires
        snapshot_wf(snap),
        monthly_wf(monthly),
        run_updates_store(snap, spec_commands(snap, year, home, monthly), rec, snap2),
    ensures
        forall|t: int|
            0 <= t < spec_commands(snap2, year, home, monthly).len() ==> cmd_rewrites_in_place(
                snap2,
                #[trigger] spec_commands(snap2, year, home, monthly)[t],
            ),
{
    lemma_finalization_monotonic(snap, year, home, monthly);
    let cmds1 = spec_commands(snap, year, home, monthly);
    assert forall|j: int|
        0 <= j < snap.len() && snap[j].year == year && finalized_row(#[trigger] snap[j])
            implies row_present(snap2, snap[j]) by {
        if key_named(cmds1, key_of(snap[j])) {
            let t = choose|t: int|
                0 <= t < cmds1.len() && ((#[trigger] cmds1[t]).year, cmds1[t].month, cmds1[t].from, cmds1[t].to)
                    == key_of(snap[j]);
            assert((cmds1[t].year, cmds1[t].month, cmds1[t].from, cmds1[t].to) != key_of(snap[j]));
            assert(false);
        }
    }
    lemma_all_idempotent(snap, snap2, year, home, monthly, rec);
}

} // verus!
