//! The library's general guarantees, stated and proved over the spec
//! functions that the store operations' contracts use.

use vstd::prelude::*;

verus! {

use vstd::arithmetic::div_mod::lemma_small_mod;
use vstd::arithmetic::div_mod::lemma_mod_add_multiples_vanish;
use vstd::arithmetic::div_mod::lemma_mod_division_less_than_divisor;
use crate::codec::ids_of;
use crate::codec::lemma_ids_roundtrip;
use crate::codec::encode_ids_spec;
use crate::entries::entry_of;
use crate::entries::map_of_entries;
use crate::migrate::fanout;
use crate::migrate::migrate_count;
use crate::migrate::migrate_rows;
use crate::migrate::migrated_row;
use crate::models::AccountView;
use crate::models::LegacyView;
use crate::models::ReplyView;
use crate::replies::deactivate_for;
use crate::replies::lemma_valid_targets_fixed;
use crate::replies::lemma_valid_targets_props;
use crate::replies::new_reply_row;
use crate::replies::reclaim_rows;
use crate::replies::reply_heal;
use crate::replies::reply_keep;
use crate::replies::valid_targets;
use crate::store::has_account;
use crate::strcodec::lemma_strs_roundtrip;
use crate::strcodec::strs_of;

/// Integrity closure: after the reclamation sweep, every remaining
/// row's replier names an existing account, and every active row's
/// target list decodes with every target naming an existing account.
pub proof fn lemma_reclaim_integrity(
    accs: Seq<AccountView>,
    rows: Seq<ReplyView>,
    now: Seq<char>,
)
    ensures
        forall|k: int| 0 <= k < reclaim_rows(accs, rows, now).len() ==>
            has_account(accs, (#[trigger] reclaim_rows(accs, rows, now)[k]).reply_bot_id),
        forall|k: int| 0 <= k < reclaim_rows(accs, rows, now).len() ==>
            ((#[trigger] reclaim_rows(accs, rows, now)[k]).is_active ==>
                (ids_of(reclaim_rows(accs, rows, now)[k].target_bot_ids) matches Some(ts)
                    && ts.len() > 0
                    && forall|i: int| 0 <= i < ts.len() ==>
                        has_account(accs, #[trigger] ts[i]))),
    decreases rows.len(),
{
    if rows.len() > 0 {
        lemma_reclaim_integrity(accs, rows.drop_last(), now);
        let last = rows.last();
        if reply_keep(accs, last) {
            let h = reply_heal(accs, last, now);
            if last.is_active {
                let ts = ids_of(last.target_bot_ids)->Some_0;
                let v = valid_targets(accs, ts);
                lemma_valid_targets_props(accs, ts);
                if v.len() == ts.len() {
                    assert(v == ts);
                    assert(h == last);
                } else {
                    lemma_ids_roundtrip(v);
                    assert(ids_of(h.target_bot_ids) == Some(v));
                }
            }
        }
    }
}

/// Idempotence: sweeping a table that was just swept changes nothing,
/// so a second consecutive sweep deletes zero rows.
pub proof fn lemma_reclaim_idempotent(
    accs: Seq<AccountView>,
    rows: Seq<ReplyView>,
    n1: Seq<char>,
    n2: Seq<char>,
)
    ensures
        reclaim_rows(accs, reclaim_rows(accs, rows, n1), n2) == reclaim_rows(accs, rows, n1),
    decreases rows.len(),
{
    if rows.len() == 0 {
    } else {
        lemma_reclaim_idempotent(accs, rows.drop_last(), n1, n2);
        let pre = reclaim_rows(accs, rows.drop_last(), n1);
        let last = rows.last();
        if reply_keep(accs, last) {
            let h = reply_heal(accs, last, n1);
            assert(reclaim_rows(accs, rows, n1) == pre.push(h));
            assert(pre.push(h).drop_last() =~= pre);
            // The healed row passes the sweep untouched.
            if last.is_active {
                let ts = ids_of(last.target_bot_ids)->Some_0;
                let v = valid_targets(accs, ts);
                lemma_valid_targets_props(accs, ts);
                if v.len() == ts.len() {
                    assert(v == ts);
                    assert(h == last);
                    assert(reply_keep(accs, h));
                    assert(reply_heal(accs, h, n2) == h);
                } else {
                    lemma_ids_roundtrip(v);
                    assert(ids_of(h.target_bot_ids) == Some(v));
                    lemma_valid_targets_fixed(accs, v);
                    assert(reply_keep(accs, h));
                    assert(reply_heal(accs, h, n2) == h);
                }
            } else {
                assert(h == last);
                assert(reply_keep(accs, h));
                assert(reply_heal(accs, h, n2) == h);
            }
            assert(reclaim_rows(accs, pre.push(h), n2)
                == reclaim_rows(accs, pre, n2).push(reply_heal(accs, h, n2)));
        }
    }
}

/// The number of active rows of one replier.
pub open spec fn active_count_for(rows: Seq<ReplyView>, replier: i64) -> int
    decreases rows.len(),
{
    if rows.len() == 0 {
        0
    } else {
        active_count_for(rows.drop_last(), replier)
            + if rows.last().is_active && rows.last().reply_bot_id == replier {
                1int
            } else {
                0int
            }
    }
}

/// After the supersede step no row of the replier is active.
proof fn lemma_deactivate_count(rows: Seq<ReplyView>, replier: i64, now: Seq<char>)
    ensures
        active_count_for(deactivate_for(rows, replier, now), replier) == 0,
    decreases rows.len(),
{
    if rows.len() > 0 {
        lemma_deactivate_count(rows.drop_last(), replier, now);
        assert(deactivate_for(rows, replier, now).drop_last()
            =~~= deactivate_for(rows.drop_last(), replier, now));
    }
}

/// Single active version: after a save, exactly one row of the
/// replier is active — the new one — while every prior row is still
/// present with its identity intact, and rows of other repliers keep
/// their activity.
pub proof fn lemma_single_active_after_save(
    rows: Seq<ReplyView>,
    replier: i64,
    id: int,
    targets: Seq<i64>,
    content: Seq<char>,
    now: Seq<char>,
)
    ensures
        active_count_for(deactivate_for(rows, replier, now).push(
            new_reply_row(id, replier, targets, content, now)), replier) == 1,
        deactivate_for(rows, replier, now).push(
            new_reply_row(id, replier, targets, content, now)).len() == rows.len() + 1,
        forall|k: int| #![trigger rows[k]] 0 <= k < rows.len() ==> {
            let post = deactivate_for(rows, replier, now).push(
                new_reply_row(id, replier, targets, content, now));
            post[k].id == rows[k].id
                && post[k].reply_bot_id == rows[k].reply_bot_id
                && post[k].target_bot_ids == rows[k].target_bot_ids
                && post[k].reply_content == rows[k].reply_content
                && post[k].created_at == rows[k].created_at
                && (rows[k].reply_bot_id == replier ==> !post[k].is_active)
                && (rows[k].reply_bot_id != replier ==> post[k] == rows[k])
        },
{
    lemma_deactivate_count(rows, replier, now);
    let d = deactivate_for(rows, replier, now);
    let post = d.push(new_reply_row(id, replier, targets, content, now));
    assert(post.drop_last() =~= d);
    assert(active_count_for(post, replier) == active_count_for(d, replier) + 1);
}

/// One round-robin step over a list of length `n`, at the spec level.
pub open spec fn cursor_step(c: int, n: int) -> int {
    if c + 1 < n {
        c + 1
    } else {
        0
    }
}

/// `k` round-robin steps.
pub open spec fn cursor_iter(c: int, n: int, k: nat) -> int
    decreases k,
{
    if k == 0 {
        c
    } else {
        cursor_iter(cursor_step(c, n), n, (k - 1) as nat)
    }
}

/// The executable advance takes exactly one spec-level step whenever
/// the cursor is a real index of the list.
pub proof fn lemma_next_cursor_is_step(cur: i32, n: int)
    requires
        0 <= cur < n,
        n <= i32::MAX as int,
    ensures
        crate::schedules::next_cursor(cur, n) as int == cursor_step(cur as int, n),
{
}

/// `k` round-robin steps land on `(c + k) mod n`.
pub proof fn lemma_rotation_mod(c: int, n: int, k: nat)
    requires
        0 <= c < n,
    ensures
        cursor_iter(c, n, k) == (c + k) % n,
    decreases k,
{
    if k == 0 {
        lemma_small_mod(c as nat, n as nat);
    } else {
        let c2 = cursor_step(c, n);
        assert(0 <= c2 < n);
        lemma_rotation_mod(c2, n, (k - 1) as nat);
        if c + 1 < n {
            assert(cursor_iter(c, n, k) == (c + 1 + (k - 1)) % n);
        } else {
            assert(c == n - 1);
            assert(cursor_iter(c, n, k) == (k - 1) % n);
            lemma_mod_add_multiples_vanish(k - 1, n);
            assert((c + k) % n == (k - 1) % n);
        }
    }
}

/// Rotation cycle: `n` advances return the cursor to where it began,
/// and `n + 1` advances land where a single advance does.
pub proof fn lemma_rotation_cycle(c: int, n: int)
    requires
        0 <= c < n,
    ensures
        cursor_iter(c, n, n as nat) == c,
        cursor_iter(c, n, (n + 1) as nat) == cursor_iter(c, n, 1),
{
    lemma_rotation_mod(c, n, n as nat);
    lemma_rotation_mod(c, n, (n + 1) as nat);
    lemma_rotation_mod(c, n, 1nat);
    lemma_small_mod(c as nat, n as nat);
    lemma_mod_add_multiples_vanish(c, n);
    assert((c + n) % n == c % n);
    lemma_mod_add_multiples_vanish(c + 1, n);
    assert((c + n + 1) % n == (c + 1) % n);
}

/// Migration fan-out: a legacy row whose replier list decodes to `K`
/// ids produces exactly `K` rows, each an active singleton-target row
/// with the same content, and each carrying the legacy last-seen id
/// under that target when one was recorded.
pub proof fn lemma_migration_fanout(l: LegacyView, ids: Seq<i64>, base: int, now: Seq<char>)
    requires
        ids_of(l.reply_bot_ids) == Some(ids),
    ensures
        migrate_rows(seq![l], base, now).len() == ids.len(),
        forall|j: int| 0 <= j < ids.len() ==>
            #[trigger] migrate_rows(seq![l], base, now)[j]
                == migrated_row(l, ids[j], base + j, now),
        forall|j: int| 0 <= j < ids.len() ==> {
            let r = #[trigger] migrate_rows(seq![l], base, now)[j];
            &&& r.is_active
            &&& r.reply_bot_id == ids[j]
            &&& r.reply_content == l.reply_content
            &&& ids_of(r.target_bot_ids) == Some(seq![l.target_bot_id])
            &&& (l.last_checked_tweet_id matches Some(t) ==>
                r.last_checked_tweet_ids == Some(crate::strcodec::encode_strs_spec(
                    seq![entry_of(l.target_bot_id, t)])))
        },
{
    let one = seq![l];
    assert(one.drop_last() =~= Seq::<LegacyView>::empty());
    assert(migrate_count(one.drop_last()) == 0);
    assert(migrate_rows(one.drop_last(), base, now) =~= Seq::<ReplyView>::empty());
    assert(one.last() == l);
    let f = fanout(l, ids, base, now);
    assert(migrate_rows(one, base, now) =~= f);
    assert forall|j: int| 0 <= j < ids.len() implies {
        let r = #[trigger] migrate_rows(one, base, now)[j];
        &&& r.is_active
        &&& r.reply_bot_id == ids[j]
        &&& r.reply_content == l.reply_content
        &&& ids_of(r.target_bot_ids) == Some(seq![l.target_bot_id])
        &&& (l.last_checked_tweet_id matches Some(t) ==>
            r.last_checked_tweet_ids == Some(crate::strcodec::encode_strs_spec(
                seq![entry_of(l.target_bot_id, t)])))
    } by {
        assert(migrate_rows(one, base, now)[j] == migrated_row(l, ids[j], base + j, now));
        lemma_ids_roundtrip(seq![l.target_bot_id]);
    }
}

/// The last-seen map carried by a migrated row is the singleton map
/// from the legacy target to the legacy last-seen id.
pub proof fn lemma_migrated_last_seen(target: i64, t: Seq<char>)
    ensures
        strs_of(crate::strcodec::encode_strs_spec(seq![entry_of(target, t)]))
            == Some(seq![entry_of(target, t)]),
        map_of_entries(crate::entries::entries_of_items(seq![entry_of(target, t)]))
            == Map::<i64, Seq<char>>::empty().insert(target, t),
{
    lemma_strs_roundtrip(seq![entry_of(target, t)]);
    crate::replies::lemma_entry_roundtrip(target, t);
    let items = seq![entry_of(target, t)];
    assert(items.drop_last() =~= Seq::<Seq<char>>::empty());
    assert(crate::entries::entries_of_items(Seq::<Seq<char>>::empty())
        =~= Seq::<(i64, Seq<char>)>::empty());
    assert(items.last() == entry_of(target, t));
    let es = crate::entries::entries_of_items(items);
    assert(es =~= seq![(target, t)]);
    assert(es.drop_last() =~= Seq::<(i64, Seq<char>)>::empty());
    assert(map_of_entries(Seq::<(i64, Seq<char>)>::empty())
        =~= Map::<i64, Seq<char>>::empty());
    assert(es.last() == (target, t));
    assert(map_of_entries(es)
        =~= Map::<i64, Seq<char>>::empty().insert(target, t));
}

} // verus!
