//! The legacy migrator: turns rows of the old per-(target, replier
//! list) layout into rows of the current per-replier layout, one new
//! active row per replier in each legacy row's encoded list. A legacy
//! row whose replier list fails to decode is skipped.

use vstd::prelude::*;

verus! {

use crate::codec::encode_ids;
use crate::codec::encode_ids_spec;
use crate::codec::decode_ids;
use crate::codec::ids_of;
use crate::entries::entry_of;
use crate::models::LegacyReplyRow;
use crate::models::LegacyView;
use crate::models::ReplySettings;
use crate::models::ReplyView;
use crate::store::same_but_replies;
use crate::store::Store;
use crate::store::StoreError;
use crate::strcodec::encode_strs;
use crate::strcodec::encode_strs_spec;

/// One migrated row: a singleton target set, the legacy content, and
/// a last-seen map holding the legacy id under the target when one
/// was recorded.
pub open spec fn migrated_row(l: LegacyView, replier: i64, id: int, now: Seq<char>) -> ReplyView {
    ReplyView {
        id: Some(id as i64),
        target_bot_ids: encode_ids_spec(seq![l.target_bot_id]),
        reply_bot_id: replier,
        reply_content: l.reply_content,
        is_active: true,
        last_checked_tweet_ids: Some(match l.last_checked_tweet_id {
            Some(t) => encode_strs_spec(seq![entry_of(l.target_bot_id, t)]),
            None => encode_strs_spec(Seq::empty()),
        }),
        created_at: l.created_at,
        updated_at: now,
    }
}

/// The fan-out of one legacy row over its decoded replier list.
pub open spec fn fanout(l: LegacyView, ids: Seq<i64>, base: int, now: Seq<char>) -> Seq<
    ReplyView,
> {
    Seq::new(ids.len(), |j: int| migrated_row(l, ids[j], base + j, now))
}

/// How many rows one legacy row produces.
pub open spec fn legacy_count(l: LegacyView) -> int {
    match ids_of(l.reply_bot_ids) {
        Some(ids) => ids.len() as int,
        None => 0,
    }
}

/// How many rows a legacy table produces.
pub open spec fn migrate_count(rows: Seq<LegacyView>) -> int
    decreases rows.len(),
{
    if rows.len() == 0 {
        0
    } else {
        migrate_count(rows.drop_last()) + legacy_count(rows.last())
    }
}

/// The migrated table, ids assigned in order from `base`.
pub open spec fn migrate_rows(rows: Seq<LegacyView>, base: int, now: Seq<char>) -> Seq<
    ReplyView,
>
    decreases rows.len(),
{
    if rows.len() == 0 {
        Seq::empty()
    } else {
        migrate_rows(rows.drop_last(), base, now) + (match ids_of(
            rows.last().reply_bot_ids) {
            Some(ids) => fanout(rows.last(), ids, base + migrate_count(rows.drop_last()),
                now),
            None => Seq::empty(),
        })
    }
}

/// The row counts of prefixes never exceed the whole.
pub proof fn lemma_migrate_count_mono(rows: Seq<LegacyView>, k: int)
    requires
        0 <= k <= rows.len(),
    ensures
        0 <= migrate_count(rows.take(k)) <= migrate_count(rows),
    decreases rows.len(),
{
    if rows.len() == 0 {
        assert(rows.take(k) =~= rows);
    } else if k == rows.len() {
        assert(rows.take(k) =~= rows);
        lemma_migrate_count_mono(rows.drop_last(), rows.len() - 1);
        assert(rows.drop_last().take(rows.len() - 1) =~= rows.drop_last());
    } else {
        assert(rows.take(k) =~= rows.drop_last().take(k));
        lemma_migrate_count_mono(rows.drop_last(), k);
    }
}

/// The migrated rows carry exactly the ids `base..base + count`, in
/// order.
pub proof fn lemma_migrate_ids(rows: Seq<LegacyView>, base: int, now: Seq<char>)
    requires
        1 <= base,
        base + migrate_count(rows) <= i64::MAX as int,
    ensures
        migrate_rows(rows, base, now).len() == migrate_count(rows),
        0 <= migrate_count(rows),
        forall|k: int| 0 <= k < migrate_count(rows) ==>
            (#[trigger] migrate_rows(rows, base, now)[k]).id == Some((base + k) as i64),
    decreases rows.len(),
{
    if rows.len() > 0 {
        let head = rows.drop_last();
        lemma_migrate_count_mono(rows, rows.len() - 1);
        assert(rows.take(rows.len() - 1) =~= head);
        lemma_migrate_ids(head, base, now);
        let pre = migrate_rows(head, base, now);
        let c1 = migrate_count(head);
        match ids_of(rows.last().reply_bot_ids) {
            Some(ids) => {
                let f = fanout(rows.last(), ids, base + c1, now);
                assert(f.len() == ids.len());
                assert forall|k: int| 0 <= k < migrate_count(rows) implies
                    (#[trigger] migrate_rows(rows, base, now)[k]).id
                        == Some((base + k) as i64) by {
                    if k < c1 {
                        assert(migrate_rows(rows, base, now)[k] == pre[k]);
                    } else {
                        assert(migrate_rows(rows, base, now)[k] == f[k - c1]);
                        assert(f[k - c1] == migrated_row(rows.last(), ids[k - c1],
                            base + c1 + (k - c1), now));
                    }
                }
            }
            None => {
                assert(migrate_rows(rows, base, now) =~= pre);
            }
        }
    }
}

impl Store {
    /// Rebuilds the reply table from legacy rows: one new active row
    /// per replier in each legacy row's list. Fails without touching
    /// the store when the rows would exhaust the id space.
    #[verifier::loop_isolation(false)]
    pub fn migrate_reply_settings(&mut self, legacy: &Vec<LegacyReplyRow>, now: &str) -> (r:
        Result<usize, StoreError>)
        requires
            old(self)@.wf(),
            old(self)@.replies.len() == 0,
        ensures
            final(self)@.wf(),
            same_but_replies(old(self)@, final(self)@),
            (r matches Err(e) ==> e == StoreError::IdsExhausted
                && final(self)@ == old(self)@
                && old(self)@.next_reply_id + migrate_count(
                    legacy@.map_values(|l: LegacyReplyRow| l@)) > i64::MAX as int),
            (r matches Ok(n) ==> {
                &&& old(self)@.next_reply_id + migrate_count(
                    legacy@.map_values(|l: LegacyReplyRow| l@)) <= i64::MAX as int
                &&& n as int == migrate_count(legacy@.map_values(|l: LegacyReplyRow| l@))
                &&& final(self)@.replies == migrate_rows(
                    legacy@.map_values(|l: LegacyReplyRow| l@),
                    old(self)@.next_reply_id, now@)
                &&& final(self)@.next_reply_id == old(self)@.next_reply_id + n as int
            }),
    {
        let ghost lv = legacy@.map_values(|l: LegacyReplyRow| l@);
        let base = self.next_reply_id;
        let budget: i64 = i64::MAX - base;
        // First pass: refuse the migration if the ids would run out.
        let mut c: i64 = 0;
        let mut j: usize = 0;
        proof {
            assert(lv.take(0) =~= Seq::<LegacyView>::empty());
        }
        while j < legacy.len()
            invariant
                0 <= j <= legacy@.len(),
                lv == legacy@.map_values(|l: LegacyReplyRow| l@),
                0 <= c <= budget,
                c == migrate_count(lv.take(j as int)),
            decreases legacy@.len() - j,
        {
            let ghost row = lv[j as int];
            proof {
                assert(lv.take(j + 1).drop_last() =~= lv.take(j as int));
                assert(lv.take(j + 1).last() == row);
            }
            match decode_ids(legacy[j].reply_bot_ids.as_str()) {
                Some(ids) => {
                    assert(legacy_count(row) == ids@.len());
                    if (c as u128) + (ids.len() as u128) > (budget as u128) {
                        proof {
                            lemma_migrate_count_mono(lv, j + 1);
                            assert(migrate_count(lv.take(j + 1)) == c + ids@.len());
                        }
                        return Err(StoreError::IdsExhausted);
                    }
                    c = c + (ids.len() as i64);
                }
                None => {
                    assert(legacy_count(row) == 0);
                }
            }
            j = j + 1;
        }
        proof {
            assert(lv.take(lv.len() as int) =~= lv);
        }
        let total: i64 = c;
        // Second pass: build the new table.
        let mut out: Vec<ReplySettings> = Vec::new();
        let mut nid: i64 = base;
        let mut m: usize = 0;
        proof {
            assert(out@.map_values(|x: ReplySettings| x@)
                =~~= migrate_rows(lv.take(0), base as int, now@));
        }
        while m < legacy.len()
            invariant
                0 <= m <= legacy@.len(),
                lv == legacy@.map_values(|l: LegacyReplyRow| l@),
                total == migrate_count(lv),
                base + total <= i64::MAX,
                1 <= base,
                out@.len() == migrate_count(lv.take(m as int)),
                nid as int == base + migrate_count(lv.take(m as int)),
                out@.map_values(|x: ReplySettings| x@)
                    =~~= migrate_rows(lv.take(m as int), base as int, now@),
            decreases legacy@.len() - m,
        {
            let ghost row = lv[m as int];
            let ghost done = migrate_rows(lv.take(m as int), base as int, now@);
            let ghost fan_base = base + migrate_count(lv.take(m as int));
            proof {
                assert(lv.take(m + 1).drop_last() =~= lv.take(m as int));
                assert(lv.take(m + 1).last() == row);
                lemma_migrate_count_mono(lv, m + 1);
            }
            match decode_ids(legacy[m].reply_bot_ids.as_str()) {
                Some(ids) => {
                    let ghost idsv = ids@;
                    let target = legacy[m].target_bot_id;
                    let mut q: usize = 0;
                    while q < ids.len()
                        invariant
                            0 <= q <= ids@.len(),
                            idsv == ids@,
                            legacy_count(row) == idsv.len(),
                            out@.len() == migrate_count(lv.take(m as int)) + q,
                            nid as int == fan_base + q,
                            out@.map_values(|x: ReplySettings| x@)
                                =~~= done + fanout(row, idsv.take(q as int),
                                    fan_base, now@),
                        decreases ids@.len() - q,
                    {
                        let ghost out_pre = out@;
                        let mut tv: Vec<i64> = Vec::new();
                        tv.push(target);
                        let last_seen: String = match &legacy[m].last_checked_tweet_id {
                            Some(t) => {
                                let entry = crate::entries::encode_entry(target,
                                    t.as_str());
                                let mut ev: Vec<String> = Vec::new();
                                ev.push(entry);
                                let tok = encode_strs(&ev);
                                proof {
                                    assert(crate::strcodec::views_of(ev@)
                                        =~~= seq![entry_of(target, t@)]);
                                }
                                tok
                            },
                            None => {
                                let ev: Vec<String> = Vec::new();
                                let tok = encode_strs(&ev);
                                proof {
                                    assert(crate::strcodec::views_of(ev@)
                                        =~~= Seq::<Seq<char>>::empty());
                                }
                                tok
                            },
                        };
                        let new_row = ReplySettings {
                            id: Some(nid),
                            target_bot_ids: encode_ids(&tv),
                            reply_bot_id: ids[q],
                            reply_content: legacy[m].reply_content.clone(),
                            is_active: true,
                            last_checked_tweet_ids: Some(last_seen),
                            created_at: legacy[m].created_at.clone(),
                            updated_at: now.to_owned(),
                        };
                        proof {
                            assert(tv@ =~= seq![row.target_bot_id]);
                            assert(new_row@ =~= migrated_row(row, idsv[q as int],
                                nid as int, now@));
                        }
                        out.push(new_row);
                        proof {
                            assert(migrate_count(lv) >= migrate_count(lv.take(m + 1)));
                            assert(nid < i64::MAX);
                        }
                        nid = nid + 1;
                        q = q + 1;
                        proof {
                            assert(out@.map_values(|x: ReplySettings| x@)
                                =~~= out_pre.map_values(|x: ReplySettings| x@)
                                    .push(out@.last()@));
                            assert(fanout(row, idsv.take(q as int), fan_base, now@)
                                =~~= fanout(row, idsv.take(q - 1), fan_base, now@)
                                    .push(migrated_row(row, idsv[q - 1],
                                        fan_base + q - 1, now@)));
                            assert(out@.map_values(|x: ReplySettings| x@)
                                =~~= done + fanout(row, idsv.take(q as int), fan_base,
                                    now@));
                        }
                    }
                    proof {
                        assert(idsv.take(idsv.len() as int) =~= idsv);
                        assert(out@.map_values(|x: ReplySettings| x@)
                            =~~= migrate_rows(lv.take(m + 1), base as int, now@));
                    }
                }
                None => {
                    proof {
                        assert(migrate_rows(lv.take(m + 1), base as int, now@)
                            =~~= done);
                    }
                }
            }
            m = m + 1;
        }
        proof {
            assert(lv.take(lv.len() as int) =~= lv);
        }
        let n = out.len();
        self.replies = out;
        self.next_reply_id = nid;
        proof {
            lemma_migrate_ids(lv, base as int, now@);
            let post = self@.replies;
            assert forall|i: int| 0 <= i < post.len() implies
                ((#[trigger] post[i]).id matches Some(k)
                    && 1 <= k < self@.next_reply_id) by {
                assert(post[i].id == Some((base + i) as i64));
            }
            assert forall|i: int, k: int| 0 <= i < k < post.len() implies
                (#[trigger] post[i]).id != (#[trigger] post[k]).id by {
                assert(post[i].id == Some((base + i) as i64));
                assert(post[k].id == Some((base + k) as i64));
            }
        }
        Ok(n)
    }
}

} // verus!
