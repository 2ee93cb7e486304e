//! The reply-relationship store: single-active-version saves, the
//! self-healing read, explicit removal, and the orphan-reclamation
//! sweep.

use vstd::prelude::*;

verus! {

use crate::codec::encode_ids;
use crate::codec::encode_ids_spec;
use crate::codec::decode_ids;
use crate::digits::int_repr;
use crate::codec::ids_of;
use crate::models::AccountView;
use crate::models::ReplySettings;
use crate::models::ReplyView;
use crate::store::blank;
use crate::store::has_account;
use crate::store::is_blank;
use crate::store::same_but_replies;
use crate::store::Store;
use crate::store::StoreError;
use crate::strcodec::encode_strs;
use crate::strcodec::strs_of;
use crate::entries::entries_of_items;
use crate::entries::entry_key_val;
use crate::entries::entry_of;
use crate::entries::lemma_first_colon_at;
use crate::entries::lemma_upsert_map;
use crate::entries::map_of_entries;
use crate::entries::remove_key;
use crate::entries::upsert;
use crate::strcodec::encode_strs_spec;

/// The first target id in the list that names no account.
pub open spec fn first_missing(accs: Seq<AccountView>, targets: Seq<i64>) -> Option<i64>
    decreases targets.len(),
{
    if targets.len() == 0 {
        None
    } else if !has_account(accs, targets[0]) {
        Some(targets[0])
    } else {
        first_missing(accs, targets.drop_first())
    }
}

/// The validation outcome of a reply save: the checks run in order
/// over content, target count, replier, and then each target.
pub open spec fn save_reply_err(
    accs: Seq<AccountView>,
    replier: i64,
    targets: Seq<i64>,
    content: Seq<char>,
) -> Option<StoreError> {
    if blank(content) {
        Some(StoreError::EmptyContent)
    } else if targets.len() == 0 {
        Some(StoreError::EmptyTargets)
    } else if !has_account(accs, replier) {
        Some(StoreError::MissingAccount(replier))
    } else {
        match first_missing(accs, targets) {
            Some(t) => Some(StoreError::MissingAccount(t)),
            None => None,
        }
    }
}

/// A row after the supersede step: inactive, with a fresh update
/// stamp.
pub open spec fn deactivated_reply(r: ReplyView, now: Seq<char>) -> ReplyView {
    ReplyView { is_active: false, updated_at: now, ..r }
}

/// Every row of the given replier deactivated; other rows untouched.
pub open spec fn deactivate_for(
    rows: Seq<ReplyView>,
    replier: i64,
    now: Seq<char>,
) -> Seq<ReplyView> {
    rows.map_values(
        |r: ReplyView|
            if r.reply_bot_id == replier {
                deactivated_reply(r, now)
            } else {
                r
            },
    )
}

/// The fresh active row inserted by a save: encoded targets, empty
/// last-seen map.
pub open spec fn new_reply_row(
    id: int,
    replier: i64,
    targets: Seq<i64>,
    content: Seq<char>,
    now: Seq<char>,
) -> ReplyView {
    ReplyView {
        id: Some(id as i64),
        target_bot_ids: encode_ids_spec(targets),
        reply_bot_id: replier,
        reply_content: content,
        is_active: true,
        last_checked_tweet_ids: Some(encode_strs_spec(Seq::empty())),
        created_at: now,
        updated_at: now,
    }
}

/// The rows left after removing every row with the given id.
pub open spec fn remove_reply_by_id(rows: Seq<ReplyView>, id: i64) -> Seq<ReplyView>
    decreases rows.len(),
{
    if rows.len() == 0 {
        Seq::empty()
    } else {
        let pre = remove_reply_by_id(rows.drop_last(), id);
        if rows.last().id == Some(id) {
            pre
        } else {
            pre.push(rows.last())
        }
    }
}

/// The number of active rows.
pub open spec fn count_active(rows: Seq<ReplyView>) -> int
    decreases rows.len(),
{
    if rows.len() == 0 {
        0
    } else {
        count_active(rows.drop_last()) + if rows.last().is_active { 1int } else { 0int }
    }
}

impl Store {
    /// Saves a reply relationship: validates the inputs, deactivates
    /// the current active row of the replier, and inserts a new
    /// active row with an empty last-seen map. Returns the new id.
    #[verifier::loop_isolation(false)]
    pub fn save_reply_settings(
        &mut self,
        reply_bot_id: i64,
        target_bot_ids: &Vec<i64>,
        reply_content: &str,
        now: &str,
    ) -> (r: Result<i64, StoreError>)
        requires
            old(self)@.wf(),
            old(self)@.next_reply_id < i64::MAX as int,
        ensures
            final(self)@.wf(),
            same_but_replies(old(self)@, final(self)@),
            (r matches Err(e) ==> final(self)@ == old(self)@
                && save_reply_err(old(self)@.accounts, reply_bot_id, target_bot_ids@,
                    reply_content@) == Some(e)),
            (r matches Ok(id) ==> {
                &&& save_reply_err(old(self)@.accounts, reply_bot_id, target_bot_ids@,
                    reply_content@) is None
                &&& id as int == old(self)@.next_reply_id
                &&& final(self)@.next_reply_id == old(self)@.next_reply_id + 1
                &&& final(self)@.replies == deactivate_for(old(self)@.replies, reply_bot_id,
                    now@).push(new_reply_row(id as int, reply_bot_id, target_bot_ids@,
                    reply_content@, now@))
            }),
    {
        if is_blank(reply_content) {
            return Err(StoreError::EmptyContent);
        }
        if target_bot_ids.len() == 0 {
            return Err(StoreError::EmptyTargets);
        }
        if !self.bot_exists(reply_bot_id) {
            return Err(StoreError::MissingAccount(reply_bot_id));
        }
        let ghost accs = self@.accounts;
        let ghost tseq = target_bot_ids@;
        let mut i: usize = 0;
        proof {
            assert(tseq.skip(0) =~= tseq);
        }
        while i < target_bot_ids.len()
            invariant
                0 <= i <= tseq.len(),
                tseq == target_bot_ids@,
                accs == self@.accounts,
                first_missing(accs, tseq) == first_missing(accs, tseq.skip(i as int)),
            decreases tseq.len() - i,
        {
            let t = target_bot_ids[i];
            let present = self.bot_exists(t);
            proof {
                assert(tseq.skip(i as int)[0] == t);
            }
            if !present {
                assert(first_missing(accs, tseq.skip(i as int)) == Some(t));
                return Err(StoreError::MissingAccount(t));
            }
            i = i + 1;
            proof {
                assert(tseq.skip(i - 1).drop_first() =~= tseq.skip(i as int));
            }
        }
        proof {
            assert(tseq.skip(tseq.len() as int) =~= Seq::<i64>::empty());
            assert(first_missing(accs, tseq) is None);
        }
        // Supersede: deactivate every row of this replier.
        let ghost pre_rows = self@.replies;
        let mut out: Vec<ReplySettings> = Vec::new();
        let mut j: usize = 0;
        proof {
            assert(out@.map_values(|x: ReplySettings| x@)
                =~~= deactivate_for(pre_rows.take(0), reply_bot_id, now@));
        }
        while j < self.replies.len()
            invariant
                0 <= j <= self.replies@.len(),
                pre_rows == self@.replies,
                out@.map_values(|x: ReplySettings| x@)
                    =~~= deactivate_for(pre_rows.take(j as int), reply_bot_id, now@),
            decreases self.replies@.len() - j,
        {
            let ghost out_pre = out@;
            let row = &self.replies[j];
            if row.reply_bot_id == reply_bot_id {
                let mut d = row.duplicate();
                d.is_active = false;
                d.updated_at = now.to_owned();
                out.push(d);
            } else {
                out.push(row.duplicate());
            }
            j = j + 1;
            proof {
                assert(out@.map_values(|x: ReplySettings| x@)
                    =~~= out_pre.map_values(|x: ReplySettings| x@)
                        .push(out@.last()@));
                assert(deactivate_for(pre_rows.take(j as int), reply_bot_id, now@)
                    =~~= deactivate_for(pre_rows.take(j - 1), reply_bot_id, now@)
                        .push(deactivate_for(pre_rows, reply_bot_id, now@)[j - 1]));
                assert(out@.map_values(|x: ReplySettings| x@)
                    =~~= deactivate_for(pre_rows.take(j as int), reply_bot_id, now@));
            }
        }
        let id = self.next_reply_id;
        let empty_items: Vec<String> = Vec::new();
        let new_row = ReplySettings {
            id: Some(id),
            target_bot_ids: encode_ids(target_bot_ids),
            reply_bot_id: reply_bot_id,
            reply_content: reply_content.to_owned(),
            is_active: true,
            last_checked_tweet_ids: Some(encode_strs(&empty_items)),
            created_at: now.to_owned(),
            updated_at: now.to_owned(),
        };
        proof {
            assert(crate::strcodec::views_of(empty_items@) =~~= Seq::<Seq<char>>::empty());
            assert(new_row@ =~= new_reply_row(id as int, reply_bot_id, tseq,
                reply_content@, now@));
        }
        let ghost out_pre = out@;
        out.push(new_row);
        self.replies = out;
        self.next_reply_id = id + 1;
        proof {
            assert(pre_rows.take(pre_rows.len() as int) =~= pre_rows);
            assert(self@.replies
                =~~= out_pre.map_values(|x: ReplySettings| x@).push(new_row@));
            assert(self@.replies =~~= deactivate_for(pre_rows, reply_bot_id, now@)
                .push(new_reply_row(id as int, reply_bot_id, tseq, reply_content@, now@)));
            assert(self@.wf()) by {
                lemma_save_wf(old(self)@, self@, reply_bot_id, tseq, reply_content@, now@,
                    id as int);
            }
        }
        Ok(id)
    }

    /// Hard-deletes the reply row with the given id; a no-op when no
    /// row has it.
    pub fn delete_reply_setting(&mut self, id: i64)
        requires
            old(self)@.wf(),
        ensures
            final(self)@.wf(),
            same_but_replies(old(self)@, final(self)@),
            final(self)@.next_reply_id == old(self)@.next_reply_id,
            final(self)@.replies == remove_reply_by_id(old(self)@.replies, id),
    {
        let ghost pre_rows = self@.replies;
        let mut out: Vec<ReplySettings> = Vec::new();
        let mut j: usize = 0;
        proof {
            assert(out@.map_values(|x: ReplySettings| x@)
                =~~= remove_reply_by_id(pre_rows.take(0), id));
        }
        while j < self.replies.len()
            invariant
                0 <= j <= self.replies@.len(),
                pre_rows == self@.replies,
                out@.map_values(|x: ReplySettings| x@)
                    =~~= remove_reply_by_id(pre_rows.take(j as int), id),
            decreases self.replies@.len() - j,
        {
            let ghost out_pre = out@;
            let row = &self.replies[j];
            let keep = match row.id {
                Some(k) => k != id,
                None => true,
            };
            if keep {
                out.push(row.duplicate());
            }
            j = j + 1;
            proof {
                assert(pre_rows.take(j as int).drop_last() =~= pre_rows.take(j - 1));
                assert(pre_rows.take(j as int).last() == pre_rows[j - 1]);
                if keep {
                    assert(out@.map_values(|x: ReplySettings| x@)
                        =~~= out_pre.map_values(|x: ReplySettings| x@)
                            .push(pre_rows[j - 1]));
                }
                assert(out@.map_values(|x: ReplySettings| x@)
                    =~~= remove_reply_by_id(pre_rows.take(j as int), id));
            }
        }
        self.replies = out;
        proof {
            assert(pre_rows.take(pre_rows.len() as int) =~= pre_rows);
            lemma_remove_wf(old(self)@, id);
        }
    }

    /// The number of active reply rows.
    pub fn count_active_reply_settings(&self) -> (r: usize)
        ensures
            r == count_active(self@.replies),
    {
        let ghost rows = self@.replies;
        let mut n: usize = 0;
        let mut j: usize = 0;
        proof {
            assert(count_active(rows.take(0)) == 0);
        }
        while j < self.replies.len()
            invariant
                0 <= j <= self.replies@.len(),
                rows == self@.replies,
                n == count_active(rows.take(j as int)),
                n <= j,
            decreases self.replies@.len() - j,
        {
            if self.replies[j].is_active {
                n = n + 1;
            }
            j = j + 1;
            proof {
                assert(rows.take(j as int).drop_last() =~= rows.take(j - 1));
                assert(rows.take(j as int).last() == rows[j - 1]);
            }
        }
        proof {
            assert(rows.take(rows.len() as int) =~= rows);
        }
        n
    }
}

/// The target ids that still name an existing account, in order.
pub open spec fn valid_targets(accs: Seq<AccountView>, ts: Seq<i64>) -> Seq<i64>
    decreases ts.len(),
{
    if ts.len() == 0 {
        Seq::empty()
    } else {
        let pre = valid_targets(accs, ts.drop_last());
        if has_account(accs, ts.last()) {
            pre.push(ts.last())
        } else {
            pre
        }
    }
}

/// Facts about the valid-target filter: every survivor names an
/// account, nothing is added, and a full-length result is the input.
pub proof fn lemma_valid_targets_props(accs: Seq<AccountView>, ts: Seq<i64>)
    ensures
        valid_targets(accs, ts).len() <= ts.len(),
        forall|i: int| 0 <= i < valid_targets(accs, ts).len() ==>
            has_account(accs, #[trigger] valid_targets(accs, ts)[i]),
        valid_targets(accs, ts).len() == ts.len() ==> valid_targets(accs, ts) == ts,
    decreases ts.len(),
{
    if ts.len() > 0 {
        lemma_valid_targets_props(accs, ts.drop_last());
        if valid_targets(accs, ts).len() == ts.len() {
            assert(valid_targets(accs, ts.drop_last()) =~= ts.drop_last());
            if has_account(accs, ts.last()) {
                assert(valid_targets(accs, ts) =~= ts);
            }
        }
    }
}

/// Filtering a list whose members all name accounts changes nothing.
pub proof fn lemma_valid_targets_fixed(accs: Seq<AccountView>, ts: Seq<i64>)
    requires
        forall|i: int| 0 <= i < ts.len() ==> has_account(accs, #[trigger] ts[i]),
    ensures
        valid_targets(accs, ts) == ts,
    decreases ts.len(),
{
    if ts.len() > 0 {
        assert(forall|i: int| 0 <= i < ts.drop_last().len() ==>
            has_account(accs, #[trigger] ts.drop_last()[i]));
        lemma_valid_targets_fixed(accs, ts.drop_last());
        assert(valid_targets(accs, ts) =~= ts);
    }
}

/// Whether the reclamation sweep keeps a row: its replier must exist,
/// and an active row must decode to at least one valid target.
pub open spec fn reply_keep(accs: Seq<AccountView>, r: ReplyView) -> bool {
    &&& has_account(accs, r.reply_bot_id)
    &&& (!r.is_active || (ids_of(r.target_bot_ids) matches Some(ts)
        && valid_targets(accs, ts).len() > 0))
}

/// A kept row after the sweep: an active row whose target list shrank
/// is rewritten to the valid targets with a fresh update stamp.
pub open spec fn reply_heal(accs: Seq<AccountView>, r: ReplyView, now: Seq<char>) -> ReplyView {
    if !r.is_active {
        r
    } else {
        match ids_of(r.target_bot_ids) {
            Some(ts) => {
                let v = valid_targets(accs, ts);
                if v.len() == ts.len() {
                    r
                } else {
                    ReplyView { target_bot_ids: encode_ids_spec(v), updated_at: now, ..r }
                }
            },
            None => r,
        }
    }
}

/// The reply table after one reclamation sweep.
pub open spec fn reclaim_rows(
    accs: Seq<AccountView>,
    rows: Seq<ReplyView>,
    now: Seq<char>,
) -> Seq<ReplyView>
    decreases rows.len(),
{
    if rows.len() == 0 {
        Seq::empty()
    } else {
        let pre = reclaim_rows(accs, rows.drop_last(), now);
        if reply_keep(accs, rows.last()) {
            pre.push(reply_heal(accs, rows.last(), now))
        } else {
            pre
        }
    }
}

/// The sweep keeps ids well formed and unique, and never grows the
/// table.
pub proof fn lemma_reclaim_wf(
    accs: Seq<AccountView>,
    rows: Seq<ReplyView>,
    now: Seq<char>,
    next: int,
)
    requires
        crate::store::reply_rows_ok(rows, next),
        crate::store::reply_ids_unique(rows),
    ensures
        crate::store::reply_rows_ok(reclaim_rows(accs, rows, now), next),
        crate::store::reply_ids_unique(reclaim_rows(accs, rows, now)),
        reclaim_rows(accs, rows, now).len() <= rows.len(),
        forall|k: int| 0 <= k < reclaim_rows(accs, rows, now).len() ==>
            exists|j: int| 0 <= j < rows.len()
                && (#[trigger] reclaim_rows(accs, rows, now)[k]).id == rows[j].id,
    decreases rows.len(),
{
    if rows.len() > 0 {
        let head = rows.drop_last();
        assert(crate::store::reply_rows_ok(head, next));
        assert(crate::store::reply_ids_unique(head));
        lemma_reclaim_wf(accs, head, now, next);
        let pre = reclaim_rows(accs, head, now);
        if reply_keep(accs, rows.last()) {
            let h = reply_heal(accs, rows.last(), now);
            assert(h.id == rows.last().id);
            let res = pre.push(h);
            assert forall|k: int| 0 <= k < res.len() implies
                exists|j: int| 0 <= j < rows.len()
                    && (#[trigger] res[k]).id == rows[j].id by {
                if k < pre.len() {
                    let j0 = choose|j0: int| 0 <= j0 < head.len()
                        && (#[trigger] pre[k]).id == head[j0].id;
                    assert(res[k].id == rows[j0].id);
                } else {
                    assert(res[k].id == rows[rows.len() - 1].id);
                }
            }
            assert(crate::store::reply_ids_unique(res)) by {
                assert forall|i: int, j: int| 0 <= i < j < res.len() implies
                    (#[trigger] res[i]).id != (#[trigger] res[j]).id by {
                    if j == res.len() - 1 {
                        let j0 = choose|j0: int| 0 <= j0 < head.len()
                            && (#[trigger] res[i]).id == head[j0].id;
                        assert(rows[j0].id != rows[rows.len() - 1].id);
                    }
                }
            }
        } else {
            assert forall|k: int| 0 <= k < pre.len() implies
                exists|j: int| 0 <= j < rows.len()
                    && (#[trigger] pre[k]).id == rows[j].id by {
                let j0 = choose|j0: int| 0 <= j0 < head.len()
                    && (#[trigger] pre[k]).id == head[j0].id;
                assert(pre[k].id == rows[j0].id);
            }
        }
    }
}

impl Store {
    /// The target ids in the list that name existing accounts.
    fn filter_valid(&self, ts: &Vec<i64>) -> (r: Vec<i64>)
        ensures
            r@ == valid_targets(self@.accounts, ts@),
    {
        let mut out: Vec<i64> = Vec::new();
        let mut i: usize = 0;
        proof {
            assert(out@ =~= valid_targets(self@.accounts, ts@.take(0)));
        }
        while i < ts.len()
            invariant
                0 <= i <= ts@.len(),
                out@ == valid_targets(self@.accounts, ts@.take(i as int)),
            decreases ts@.len() - i,
        {
            let t = ts[i];
            if self.bot_exists(t) {
                out.push(t);
            }
            i = i + 1;
            proof {
                assert(ts@.take(i as int).drop_last() =~= ts@.take(i - 1));
                assert(ts@.take(i as int).last() == ts@[i - 1]);
            }
        }
        proof {
            assert(ts@.take(ts@.len() as int) =~= ts@);
        }
        out
    }

    /// The orphan-reclamation sweep: deletes every row whose replier
    /// no longer exists, then deletes every remaining active row
    /// whose encoded target list is corrupt or holds no existing
    /// account, and shrinks active rows that lost some targets.
    /// Returns how many rows were deleted.
    #[verifier::loop_isolation(false)]
    pub fn cleanup_orphaned_reply_settings(&mut self, now: &str) -> (r: usize)
        requires
            old(self)@.wf(),
        ensures
            final(self)@.wf(),
            same_but_replies(old(self)@, final(self)@),
            final(self)@.next_reply_id == old(self)@.next_reply_id,
            final(self)@.replies == reclaim_rows(old(self)@.accounts, old(self)@.replies,
                now@),
            r == old(self)@.replies.len() - final(self)@.replies.len(),
    {
        let ghost accs = self@.accounts;
        let ghost pre_rows = self@.replies;
        let mut out: Vec<ReplySettings> = Vec::new();
        let mut j: usize = 0;
        proof {
            assert(out@.map_values(|x: ReplySettings| x@)
                =~~= reclaim_rows(accs, pre_rows.take(0), now@));
        }
        while j < self.replies.len()
            invariant
                0 <= j <= self.replies@.len(),
                pre_rows == self@.replies,
                accs == self@.accounts,
                out@.len() <= j,
                out@.map_values(|x: ReplySettings| x@)
                    =~~= reclaim_rows(accs, pre_rows.take(j as int), now@),
            decreases self.replies@.len() - j,
        {
            let ghost out_pre = out@;
            let ghost rv = pre_rows[j as int];
            let keep_replier = self.bot_exists(self.replies[j].reply_bot_id);
            if keep_replier {
                if !self.replies[j].is_active {
                    out.push(self.replies[j].duplicate());
                    assert(reply_keep(accs, rv) && reply_heal(accs, rv, now@) == rv);
                } else {
                    match decode_ids(self.replies[j].target_bot_ids.as_str()) {
                        Some(ts) => {
                            let valid = self.filter_valid(&ts);
                            if valid.len() == 0 {
                                assert(!reply_keep(accs, rv));
                            } else if valid.len() == ts.len() {
                                out.push(self.replies[j].duplicate());
                                assert(reply_keep(accs, rv)
                                    && reply_heal(accs, rv, now@) == rv);
                            } else {
                                let mut h = self.replies[j].duplicate();
                                h.target_bot_ids = encode_ids(&valid);
                                h.updated_at = now.to_owned();
                                out.push(h);
                                assert(reply_keep(accs, rv));
                                assert(h@ =~= reply_heal(accs, rv, now@));
                            }
                        }
                        None => {
                            assert(!reply_keep(accs, rv));
                        }
                    }
                }
            } else {
                assert(!reply_keep(accs, rv));
            }
            j = j + 1;
            proof {
                assert(pre_rows.take(j as int).drop_last() =~= pre_rows.take(j - 1));
                assert(pre_rows.take(j as int).last() == rv);
                if reply_keep(accs, rv) {
                    assert(out@.map_values(|x: ReplySettings| x@)
                        =~~= out_pre.map_values(|x: ReplySettings| x@)
                            .push(reply_heal(accs, rv, now@)));
                }
                assert(out@.map_values(|x: ReplySettings| x@)
                    =~~= reclaim_rows(accs, pre_rows.take(j as int), now@));
            }
        }
        let removed = self.replies.len() - out.len();
        self.replies = out;
        proof {
            assert(pre_rows.take(pre_rows.len() as int) =~= pre_rows);
            lemma_reclaim_wf(accs, pre_rows, now@, old(self)@.next_reply_id);
        }
        removed
    }
}

/// Whether the self-healing read deletes a row: only an active row
/// whose replier exists, whose targets decode, and whose valid target
/// set is empty. Corrupt or replier-less rows are left for the sweep.
pub open spec fn fetch_keep(accs: Seq<AccountView>, r: ReplyView) -> bool {
    !(r.is_active && has_account(accs, r.reply_bot_id)
        && (ids_of(r.target_bot_ids) matches Some(ts)
            && valid_targets(accs, ts).len() == 0))
}

/// A row after the self-healing read: an active, resolvable row whose
/// target list shrank is rewritten; everything else is untouched.
pub open spec fn fetch_heal(accs: Seq<AccountView>, r: ReplyView, now: Seq<char>) -> ReplyView {
    if r.is_active && has_account(accs, r.reply_bot_id) {
        match ids_of(r.target_bot_ids) {
            Some(ts) => {
                let v = valid_targets(accs, ts);
                if v.len() == ts.len() || v.len() == 0 {
                    r
                } else {
                    ReplyView { target_bot_ids: encode_ids_spec(v), updated_at: now, ..r }
                }
            },
            None => r,
        }
    } else {
        r
    }
}

/// Whether the self-healing read returns a row to the caller: active,
/// resolvable replier, decodable targets, at least one valid target.
pub open spec fn fetch_returned(accs: Seq<AccountView>, r: ReplyView) -> bool {
    &&& r.is_active
    &&& has_account(accs, r.reply_bot_id)
    &&& (ids_of(r.target_bot_ids) matches Some(ts) && valid_targets(accs, ts).len() > 0)
}

/// The reply table after the self-healing read.
pub open spec fn fetch_rows(
    accs: Seq<AccountView>,
    rows: Seq<ReplyView>,
    now: Seq<char>,
) -> Seq<ReplyView>
    decreases rows.len(),
{
    if rows.len() == 0 {
        Seq::empty()
    } else {
        let pre = fetch_rows(accs, rows.drop_last(), now);
        if fetch_keep(accs, rows.last()) {
            pre.push(fetch_heal(accs, rows.last(), now))
        } else {
            pre
        }
    }
}

/// The rows handed back by the self-healing read, in storage order.
pub open spec fn fetch_result(
    accs: Seq<AccountView>,
    rows: Seq<ReplyView>,
    now: Seq<char>,
) -> Seq<ReplyView>
    decreases rows.len(),
{
    if rows.len() == 0 {
        Seq::empty()
    } else {
        let pre = fetch_result(accs, rows.drop_last(), now);
        if fetch_returned(accs, rows.last()) {
            pre.push(fetch_heal(accs, rows.last(), now))
        } else {
            pre
        }
    }
}

/// The self-healing read keeps ids well formed and unique.
pub proof fn lemma_fetch_wf(
    accs: Seq<AccountView>,
    rows: Seq<ReplyView>,
    now: Seq<char>,
    next: int,
)
    requires
        crate::store::reply_rows_ok(rows, next),
        crate::store::reply_ids_unique(rows),
    ensures
        crate::store::reply_rows_ok(fetch_rows(accs, rows, now), next),
        crate::store::reply_ids_unique(fetch_rows(accs, rows, now)),
        fetch_rows(accs, rows, now).len() <= rows.len(),
        forall|k: int| 0 <= k < fetch_rows(accs, rows, now).len() ==>
            exists|j: int| 0 <= j < rows.len()
                && (#[trigger] fetch_rows(accs, rows, now)[k]).id == rows[j].id,
    decreases rows.len(),
{
    if rows.len() > 0 {
        let head = rows.drop_last();
        assert(crate::store::reply_rows_ok(head, next));
        assert(crate::store::reply_ids_unique(head));
        lemma_fetch_wf(accs, head, now, next);
        let pre = fetch_rows(accs, head, now);
        if fetch_keep(accs, rows.last()) {
            let h = fetch_heal(accs, rows.last(), now);
            assert(h.id == rows.last().id);
            let res = pre.push(h);
            assert forall|k: int| 0 <= k < res.len() implies
                exists|j: int| 0 <= j < rows.len()
                    && (#[trigger] res[k]).id == rows[j].id by {
                if k < pre.len() {
                    let j0 = choose|j0: int| 0 <= j0 < head.len()
                        && (#[trigger] pre[k]).id == head[j0].id;
                    assert(res[k].id == rows[j0].id);
                } else {
                    assert(res[k].id == rows[rows.len() - 1].id);
                }
            }
            assert(crate::store::reply_ids_unique(res)) by {
                assert forall|i: int, j: int| 0 <= i < j < res.len() implies
                    (#[trigger] res[i]).id != (#[trigger] res[j]).id by {
                    if j == res.len() - 1 {
                        let j0 = choose|j0: int| 0 <= j0 < head.len()
                            && (#[trigger] res[i]).id == head[j0].id;
                        assert(rows[j0].id != rows[rows.len() - 1].id);
                    }
                }
            }
        } else {
            assert forall|k: int| 0 <= k < pre.len() implies
                exists|j: int| 0 <= j < rows.len()
                    && (#[trigger] pre[k]).id == rows[j].id by {
                let j0 = choose|j0: int| 0 <= j0 < head.len()
                    && (#[trigger] pre[k]).id == head[j0].id;
                assert(pre[k].id == rows[j0].id);
            }
        }
    }
}

impl Store {
    /// The self-healing read: returns the active rows whose replier
    /// still exists and whose targets resolve, newest first. Target
    /// ids that no longer resolve are removed from the stored rows as
    /// a side effect, and an active row left without any valid target
    /// is deleted instead of returned.
    #[verifier::loop_isolation(false)]
    pub fn fetch_reply_settings(&mut self, now: &str) -> (r: Vec<ReplySettings>)
        requires
            old(self)@.wf(),
        ensures
            final(self)@.wf(),
            same_but_replies(old(self)@, final(self)@),
            final(self)@.next_reply_id == old(self)@.next_reply_id,
            final(self)@.replies == fetch_rows(old(self)@.accounts, old(self)@.replies,
                now@),
            r@.map_values(|x: ReplySettings| x@)
                == fetch_result(old(self)@.accounts, old(self)@.replies, now@).reverse(),
    {
        let ghost accs = self@.accounts;
        let ghost pre_rows = self@.replies;
        let mut out: Vec<ReplySettings> = Vec::new();
        let mut picked: Vec<ReplySettings> = Vec::new();
        let mut j: usize = 0;
        proof {
            assert(out@.map_values(|x: ReplySettings| x@)
                =~~= fetch_rows(accs, pre_rows.take(0), now@));
            assert(picked@.map_values(|x: ReplySettings| x@)
                =~~= fetch_result(accs, pre_rows.take(0), now@));
        }
        while j < self.replies.len()
            invariant
                0 <= j <= self.replies@.len(),
                pre_rows == self@.replies,
                accs == self@.accounts,
                out@.map_values(|x: ReplySettings| x@)
                    =~~= fetch_rows(accs, pre_rows.take(j as int), now@),
                picked@.map_values(|x: ReplySettings| x@)
                    =~~= fetch_result(accs, pre_rows.take(j as int), now@),
            decreases self.replies@.len() - j,
        {
            let ghost out_pre = out@;
            let ghost picked_pre = picked@;
            let ghost rv = pre_rows[j as int];
            let active = self.replies[j].is_active;
            let resolvable = active && self.bot_exists(self.replies[j].reply_bot_id);
            if resolvable {
                match decode_ids(self.replies[j].target_bot_ids.as_str()) {
                    Some(ts) => {
                        let valid = self.filter_valid(&ts);
                        if valid.len() == 0 {
                            assert(!fetch_keep(accs, rv));
                            assert(!fetch_returned(accs, rv));
                        } else if valid.len() == ts.len() {
                            out.push(self.replies[j].duplicate());
                            picked.push(self.replies[j].duplicate());
                            assert(fetch_keep(accs, rv) && fetch_returned(accs, rv)
                                && fetch_heal(accs, rv, now@) == rv);
                        } else {
                            let mut h = self.replies[j].duplicate();
                            h.target_bot_ids = encode_ids(&valid);
                            h.updated_at = now.to_owned();
                            let h2 = h.duplicate();
                            out.push(h);
                            picked.push(h2);
                            assert(fetch_keep(accs, rv) && fetch_returned(accs, rv));
                            assert(out@.last()@ =~= fetch_heal(accs, rv, now@));
                            assert(picked@.last()@ =~= fetch_heal(accs, rv, now@));
                        }
                    }
                    None => {
                        out.push(self.replies[j].duplicate());
                        assert(fetch_keep(accs, rv) && !fetch_returned(accs, rv)
                            && fetch_heal(accs, rv, now@) == rv);
                    }
                }
            } else {
                out.push(self.replies[j].duplicate());
                assert(fetch_keep(accs, rv) && !fetch_returned(accs, rv)
                    && fetch_heal(accs, rv, now@) == rv);
            }
            j = j + 1;
            proof {
                assert(pre_rows.take(j as int).drop_last() =~= pre_rows.take(j - 1));
                assert(pre_rows.take(j as int).last() == rv);
                if fetch_keep(accs, rv) {
                    assert(out@.map_values(|x: ReplySettings| x@)
                        =~~= out_pre.map_values(|x: ReplySettings| x@)
                            .push(fetch_heal(accs, rv, now@)));
                }
                if fetch_returned(accs, rv) {
                    assert(picked@.map_values(|x: ReplySettings| x@)
                        =~~= picked_pre.map_values(|x: ReplySettings| x@)
                            .push(fetch_heal(accs, rv, now@)));
                }
                assert(out@.map_values(|x: ReplySettings| x@)
                    =~~= fetch_rows(accs, pre_rows.take(j as int), now@));
                assert(picked@.map_values(|x: ReplySettings| x@)
                    =~~= fetch_result(accs, pre_rows.take(j as int), now@));
            }
        }
        self.replies = out;
        proof {
            assert(pre_rows.take(pre_rows.len() as int) =~= pre_rows);
            lemma_fetch_wf(accs, pre_rows, now@, old(self)@.next_reply_id);
        }
        // Newest first: reverse the storage order.
        let ghost picked_views = picked@.map_values(|x: ReplySettings| x@);
        let mut result: Vec<ReplySettings> = Vec::new();
        let mut k: usize = picked.len();
        while k > 0
            invariant
                0 <= k <= picked@.len(),
                picked_views == picked@.map_values(|x: ReplySettings| x@),
                result@.len() == picked@.len() - k,
                forall|i: int| 0 <= i < result@.len() ==>
                    (#[trigger] result@[i])@ == picked_views[picked_views.len() - 1 - i],
            decreases k,
        {
            k = k - 1;
            result.push(picked[k].duplicate());
        }
        proof {
            assert(result@.map_values(|x: ReplySettings| x@)
                =~~= picked_views.reverse());
        }
        result
    }
}

/// The last-seen entries a row holds: decoded from its token, with an
/// absent, corrupt, or malformed token contributing nothing.
pub open spec fn row_entries(r: ReplyView) -> Seq<(i64, Seq<char>)> {
    match r.last_checked_tweet_ids {
        Some(tok) => match strs_of(tok) {
            Some(items) => entries_of_items(items),
            None => Seq::empty(),
        },
        None => Seq::empty(),
    }
}

/// The entry strings of a list of pairs.
pub open spec fn entry_strings(es: Seq<(i64, Seq<char>)>) -> Seq<Seq<char>> {
    es.map_values(|e: (i64, Seq<char>)| entry_of(e.0, e.1))
}

/// The token a row carries after recording one last-seen value.
pub open spec fn recorded_token(r: ReplyView, target: i64, value: Seq<char>) -> Seq<char> {
    encode_strs_spec(entry_strings(upsert(row_entries(r), target, value)))
}

/// The index of the first active row of a replier.
pub open spec fn first_active_for(rows: Seq<ReplyView>, replier: i64) -> Option<int>
    decreases rows.len(),
{
    if rows.len() == 0 {
        None
    } else if rows[0].is_active && rows[0].reply_bot_id == replier {
        Some(0)
    } else {
        match first_active_for(rows.drop_first(), replier) {
            Some(i) => Some(i + 1),
            None => None,
        }
    }
}

/// A matching row with no match before it is the first one.
pub proof fn lemma_first_active_at(rows: Seq<ReplyView>, replier: i64, i: int)
    requires
        0 <= i < rows.len(),
        rows[i].is_active && rows[i].reply_bot_id == replier,
        forall|k: int| 0 <= k < i ==>
            !((#[trigger] rows[k]).is_active && rows[k].reply_bot_id == replier),
    ensures
        first_active_for(rows, replier) == Some(i),
    decreases i,
{
    if i > 0 {
        assert(forall|k: int| 0 <= k < i - 1 ==>
            !((#[trigger] rows.drop_first()[k]).is_active
                && rows.drop_first()[k].reply_bot_id == replier));
        assert(rows.drop_first()[i - 1] == rows[i]);
        lemma_first_active_at(rows.drop_first(), replier, i - 1);
    }
}

/// Without a matching row there is no first one.
pub proof fn lemma_first_active_none(rows: Seq<ReplyView>, replier: i64)
    requires
        forall|k: int| 0 <= k < rows.len() ==>
            !((#[trigger] rows[k]).is_active && rows[k].reply_bot_id == replier),
    ensures
        first_active_for(rows, replier) is None,
    decreases rows.len(),
{
    if rows.len() > 0 {
        assert(forall|k: int| 0 <= k < rows.drop_first().len() ==>
            !((#[trigger] rows.drop_first()[k]).is_active
                && rows.drop_first()[k].reply_bot_id == replier));
        lemma_first_active_none(rows.drop_first(), replier);
    }
}

/// Every active row of the replier rewritten with the new token.
pub open spec fn record_rows(
    rows: Seq<ReplyView>,
    replier: i64,
    tok: Seq<char>,
    now: Seq<char>,
) -> Seq<ReplyView> {
    rows.map_values(
        |r: ReplyView|
            if r.is_active && r.reply_bot_id == replier {
                ReplyView { last_checked_tweet_ids: Some(tok), updated_at: now, ..r }
            } else {
                r
            },
    )
}

/// One entry string parses back to its pair.
pub proof fn lemma_entry_roundtrip(k: i64, v: Seq<char>)
    ensures
        entry_key_val(entry_of(k, v)) == Some((k, v)),
{
    let s = entry_of(k, v);
    let j = int_repr(k as int).len() as int;
    crate::digits::lemma_int_repr_chars(k as int);
    assert forall|p: int| 0 <= p < j implies s[p] != ':' by {
        assert(s[p] == int_repr(k as int)[p]);
        assert(crate::digits::is_digit(s[p]) || s[p] == '-');
    }
    assert(s[j] == ':');
    lemma_first_colon_at(s, j);
    assert(s.take(j) =~= int_repr(k as int));
    assert(exists|w: i64| s.take(j) == int_repr(w as int));
    let w = choose|w: i64| s.take(j) == int_repr(w as int);
    crate::digits::lemma_int_repr_injective(w as int, k as int);
    assert(s.skip(j + 1) =~= v);
}

/// An encoded entry list parses back to its pairs.
pub proof fn lemma_entries_roundtrip(es: Seq<(i64, Seq<char>)>)
    ensures
        entries_of_items(entry_strings(es)) == es,
    decreases es.len(),
{
    if es.len() == 0 {
        assert(entries_of_items(entry_strings(es)) =~= es);
    } else {
        lemma_entries_roundtrip(es.drop_last());
        assert(entry_strings(es).drop_last() =~~= entry_strings(es.drop_last()));
        assert(entry_strings(es).last() == entry_of(es.last().0, es.last().1));
        lemma_entry_roundtrip(es.last().0, es.last().1);
        assert(entries_of_items(entry_strings(es)) =~= es);
    }
}

/// Recording a value sets exactly that key in the row's last-seen
/// map: the new token decodes to the upserted entries, whose map is
/// the old map with the pair inserted.
pub proof fn lemma_recorded_token_map(r: ReplyView, target: i64, value: Seq<char>)
    ensures
        strs_of(recorded_token(r, target, value))
            == Some(entry_strings(upsert(row_entries(r), target, value))),
        entries_of_items(entry_strings(upsert(row_entries(r), target, value)))
            == upsert(row_entries(r), target, value),
        map_of_entries(upsert(row_entries(r), target, value))
            == map_of_entries(row_entries(r)).insert(target, value),
{
    crate::strcodec::lemma_strs_roundtrip(
        entry_strings(upsert(row_entries(r), target, value)));
    lemma_entries_roundtrip(upsert(row_entries(r), target, value));
    lemma_upsert_map(row_entries(r), target, value);
}

/// The pair views of a vector of owned entries.
pub open spec fn pair_views(es: Seq<(i64, String)>) -> Seq<(i64, Seq<char>)> {
    es.map_values(|e: (i64, String)| (e.0, e.1@))
}

impl Store {
    /// The index of the first active row of a replier, if any.
    fn find_first_active(&self, replier: i64) -> (r: Option<usize>)
        ensures
            (r matches Some(j) ==> first_active_for(self@.replies, replier)
                == Some(j as int) && j < self@.replies.len()
                && self@.replies[j as int].is_active
                && self@.replies[j as int].reply_bot_id == replier),
            r is None ==> first_active_for(self@.replies, replier) is None,
    {
        let ghost rows = self@.replies;
        let mut j: usize = 0;
        while j < self.replies.len()
            invariant
                0 <= j <= self.replies@.len(),
                rows == self@.replies,
                forall|k: int| 0 <= k < j ==>
                    !((#[trigger] rows[k]).is_active
                        && rows[k].reply_bot_id == replier),
            ensures
                0 <= j <= self.replies@.len(),
                rows == self@.replies,
                forall|k: int| 0 <= k < j ==>
                    !((#[trigger] rows[k]).is_active
                        && rows[k].reply_bot_id == replier),
                j < self.replies@.len() ==> (rows[j as int].is_active
                    && rows[j as int].reply_bot_id == replier),
            decreases self.replies@.len() - j,
        {
            if self.replies[j].is_active && self.replies[j].reply_bot_id == replier {
                break;
            }
            j = j + 1;
        }
        if j == self.replies.len() {
            proof {
                lemma_first_active_none(rows, replier);
            }
            None
        } else {
            proof {
                lemma_first_active_at(rows, replier, j as int);
            }
            Some(j)
        }
    }

    /// Records the last-processed item for one target under the
    /// active row of a replier: decodes the stored map (defaulting to
    /// empty when absent or corrupt), sets the key, re-encodes, and
    /// stamps the row. A replier with no active row is left alone.
    #[verifier::loop_isolation(false)]
    pub fn update_last_checked_tweet(
        &mut self,
        reply_bot_id: i64,
        target_bot_id: i64,
        tweet_id: &str,
        now: &str,
    )
        requires
            old(self)@.wf(),
        ensures
            final(self)@.wf(),
            same_but_replies(old(self)@, final(self)@),
            final(self)@.next_reply_id == old(self)@.next_reply_id,
            first_active_for(old(self)@.replies, reply_bot_id) is None ==>
                final(self)@ == old(self)@,
            (first_active_for(old(self)@.replies, reply_bot_id) matches Some(i) ==>
                final(self)@.replies == record_rows(old(self)@.replies, reply_bot_id,
                    recorded_token(old(self)@.replies[i], target_bot_id, tweet_id@),
                    now@)),
    {
        let ghost pre_rows = self@.replies;
        // Find the active row of this replier.
        let j = match self.find_first_active(reply_bot_id) {
            Some(j) => j,
            None => {
                return;
            },
        };
        let ghost the_row = pre_rows[j as int];
        // Decode the stored entries, defaulting to empty.
        let tok_opt = crate::models::copy_opt(&self.replies[j].last_checked_tweet_ids);
        let mut entries: Vec<(i64, String)> = Vec::new();
        match tok_opt {
            Some(tok) => {
                match crate::strcodec::decode_strs(tok.as_str()) {
                    Some(items) => {
                        let ghost item_views = crate::strcodec::views_of(items@);
                        let mut p: usize = 0;
                        proof {
                            assert(pair_views(entries@)
                                =~~= entries_of_items(item_views.take(0)));
                        }
                        while p < items.len()
                            invariant
                                0 <= p <= items@.len(),
                                item_views == crate::strcodec::views_of(items@),
                                pair_views(entries@)
                                    =~~= entries_of_items(item_views.take(p as int)),
                            decreases items@.len() - p,
                        {
                            let ghost entries_pre = entries@;
                            match crate::entries::parse_entry(items[p].as_str()) {
                                Some(e) => {
                                    entries.push(e);
                                    proof {
                                        assert(pair_views(entries@)
                                            =~~= pair_views(entries_pre)
                                                .push((entries@.last().0,
                                                    entries@.last().1@)));
                                    }
                                }
                                None => {}
                            }
                            p = p + 1;
                            proof {
                                assert(item_views.take(p as int).drop_last()
                                    =~= item_views.take(p - 1));
                                assert(item_views.take(p as int).last()
                                    == item_views[p - 1]);
                                assert(pair_views(entries@)
                                    =~~= entries_of_items(item_views.take(p as int)));
                            }
                        }
                        proof {
                            assert(item_views.take(item_views.len() as int)
                                =~= item_views);
                            assert(pair_views(entries@) =~~= row_entries(the_row));
                        }
                    }
                    None => {
                        proof {
                            assert(pair_views(entries@) =~~= row_entries(the_row));
                        }
                    }
                }
            }
            None => {
                proof {
                    assert(pair_views(entries@) =~~= row_entries(the_row));
                }
            }
        }
        // Upsert the pair.
        let ghost old_pairs = pair_views(entries@);
        let mut kept: Vec<(i64, String)> = Vec::new();
        let mut q: usize = 0;
        proof {
            assert(pair_views(kept@) =~~= remove_key(old_pairs.take(0), target_bot_id));
        }
        while q < entries.len()
            invariant
                0 <= q <= entries@.len(),
                old_pairs == pair_views(entries@),
                pair_views(kept@)
                    =~~= remove_key(old_pairs.take(q as int), target_bot_id),
            decreases entries@.len() - q,
        {
            let ghost kept_pre = kept@;
            if entries[q].0 != target_bot_id {
                let v = entries[q].1.clone();
                let k0 = entries[q].0;
                kept.push((k0, v));
                proof {
                    assert(pair_views(kept@)
                        =~~= pair_views(kept_pre).push((k0, kept@.last().1@)));
                }
            }
            q = q + 1;
            proof {
                assert(old_pairs.take(q as int).drop_last() =~= old_pairs.take(q - 1));
                assert(old_pairs.take(q as int).last() == old_pairs[q - 1]);
                assert(pair_views(kept@)
                    =~~= remove_key(old_pairs.take(q as int), target_bot_id));
            }
        }
        proof {
            assert(old_pairs.take(old_pairs.len() as int) =~= old_pairs);
        }
        kept.push((target_bot_id, tweet_id.to_owned()));
        let ghost upserted = upsert(row_entries(the_row), target_bot_id, tweet_id@);
        proof {
            assert(pair_views(kept@) =~~= upserted);
        }
        // Re-encode the entry strings.
        let mut entry_texts: Vec<String> = Vec::new();
        let mut w: usize = 0;
        proof {
            assert(crate::strcodec::views_of(entry_texts@)
                =~~= entry_strings(upserted.take(0)));
        }
        while w < kept.len()
            invariant
                0 <= w <= kept@.len(),
                upserted == pair_views(kept@),
                crate::strcodec::views_of(entry_texts@)
                    =~~= entry_strings(upserted.take(w as int)),
            decreases kept@.len() - w,
        {
            let ghost texts_pre = entry_texts@;
            let t = crate::entries::encode_entry(kept[w].0, kept[w].1.as_str());
            entry_texts.push(t);
            w = w + 1;
            proof {
                assert(crate::strcodec::views_of(entry_texts@)
                    =~~= crate::strcodec::views_of(texts_pre)
                        .push(entry_texts@.last()@));
                assert(entry_strings(upserted.take(w as int))
                    =~~= entry_strings(upserted.take(w - 1))
                        .push(entry_of(upserted[w - 1].0, upserted[w - 1].1)));
                assert(crate::strcodec::views_of(entry_texts@)
                    =~~= entry_strings(upserted.take(w as int)));
            }
        }
        proof {
            assert(upserted.take(upserted.len() as int) =~= upserted);
        }
        let new_token = crate::strcodec::encode_strs(&entry_texts);
        let ghost tok_view = recorded_token(the_row, target_bot_id, tweet_id@);
        proof {
            assert(new_token@ == tok_view);
        }
        // Stamp every active row of the replier with the new token.
        let mut out: Vec<ReplySettings> = Vec::new();
        let mut m: usize = 0;
        proof {
            assert(out@.map_values(|x: ReplySettings| x@)
                =~~= record_rows(pre_rows.take(0), reply_bot_id, tok_view, now@));
        }
        while m < self.replies.len()
            invariant
                0 <= m <= self.replies@.len(),
                pre_rows == self@.replies,
                out@.map_values(|x: ReplySettings| x@)
                    =~~= record_rows(pre_rows.take(m as int), reply_bot_id, tok_view,
                        now@),
            decreases self.replies@.len() - m,
        {
            let ghost out_pre = out@;
            let row = &self.replies[m];
            if row.is_active && row.reply_bot_id == reply_bot_id {
                let mut d = row.duplicate();
                d.last_checked_tweet_ids = Some(new_token.clone());
                d.updated_at = now.to_owned();
                out.push(d);
            } else {
                out.push(row.duplicate());
            }
            m = m + 1;
            proof {
                assert(out@.map_values(|x: ReplySettings| x@)
                    =~~= out_pre.map_values(|x: ReplySettings| x@)
                        .push(out@.last()@));
                assert(record_rows(pre_rows.take(m as int), reply_bot_id, tok_view, now@)
                    =~~= record_rows(pre_rows.take(m - 1), reply_bot_id, tok_view, now@)
                        .push(record_rows(pre_rows, reply_bot_id, tok_view, now@)[m - 1]));
                assert(out@.map_values(|x: ReplySettings| x@)
                    =~~= record_rows(pre_rows.take(m as int), reply_bot_id, tok_view,
                        now@));
            }
        }
        self.replies = out;
        proof {
            assert(pre_rows.take(pre_rows.len() as int) =~= pre_rows);
            let post = record_rows(pre_rows, reply_bot_id, tok_view, now@);
            assert(post.len() == pre_rows.len());
            assert(forall|i: int| 0 <= i < post.len() ==>
                (#[trigger] post[i]).id == pre_rows[i].id);
        }
    }
}


/// Saving preserves well-formedness.
proof fn lemma_save_wf(
    pre: crate::store::StoreView,
    post: crate::store::StoreView,
    replier: i64,
    targets: Seq<i64>,
    content: Seq<char>,
    now: Seq<char>,
    id: int,
)
    requires
        pre.wf(),
        pre.next_reply_id < i64::MAX as int,
        id == pre.next_reply_id,
        post.replies == deactivate_for(pre.replies, replier, now).push(
            new_reply_row(id, replier, targets, content, now)),
        post.next_reply_id == id + 1,
        same_but_replies(pre, post),
    ensures
        post.wf(),
{
    let d = deactivate_for(pre.replies, replier, now);
    assert(d.len() == pre.replies.len());
    assert forall|i: int| 0 <= i < d.len() implies (#[trigger] d[i]).id
        == pre.replies[i].id by {}
    assert(crate::store::reply_rows_ok(post.replies, post.next_reply_id));
    assert(crate::store::reply_ids_unique(post.replies)) by {
        assert forall|i: int, j: int| 0 <= i < j < post.replies.len() implies
            (#[trigger] post.replies[i]).id != (#[trigger] post.replies[j]).id by {
            if j < d.len() {
                assert(post.replies[i].id == pre.replies[i].id);
                assert(post.replies[j].id == pre.replies[j].id);
            } else {
                assert(post.replies[j].id == Some(id as i64));
                assert(post.replies[i].id == pre.replies[i].id);
            }
        }
    }
}

/// Removal preserves well-formedness.
proof fn lemma_remove_wf(pre: crate::store::StoreView, id: i64)
    requires
        pre.wf(),
    ensures
        crate::store::reply_rows_ok(remove_reply_by_id(pre.replies, id), pre.next_reply_id),
        crate::store::reply_ids_unique(remove_reply_by_id(pre.replies, id)),
{
    lemma_remove_keeps_rows(pre.replies, id, pre.next_reply_id);
}

/// Removal yields a subsequence of the prior rows, so ids stay well
/// formed and unique.
proof fn lemma_remove_keeps_rows(rows: Seq<ReplyView>, id: i64, next: int)
    requires
        crate::store::reply_rows_ok(rows, next),
        crate::store::reply_ids_unique(rows),
    ensures
        crate::store::reply_rows_ok(remove_reply_by_id(rows, id), next),
        crate::store::reply_ids_unique(remove_reply_by_id(rows, id)),
        remove_reply_by_id(rows, id).len() <= rows.len(),
        forall|k: int| 0 <= k < remove_reply_by_id(rows, id).len() ==>
            exists|j: int| 0 <= j < rows.len()
                && #[trigger] remove_reply_by_id(rows, id)[k] == rows[j],
    decreases rows.len(),
{
    if rows.len() > 0 {
        let head = rows.drop_last();
        assert(crate::store::reply_rows_ok(head, next));
        assert(crate::store::reply_ids_unique(head));
        lemma_remove_keeps_rows(head, id, next);
        let pre = remove_reply_by_id(head, id);
        if rows.last().id != Some(id) {
            let res = pre.push(rows.last());
            assert forall|k: int| 0 <= k < res.len() implies
                exists|j: int| 0 <= j < rows.len() && #[trigger] res[k] == rows[j] by {
                if k < pre.len() {
                    let j0 = choose|j0: int| 0 <= j0 < head.len() && pre[k] == head[j0];
                    assert(res[k] == rows[j0]);
                } else {
                    assert(res[k] == rows[rows.len() - 1]);
                }
            }
            assert(crate::store::reply_ids_unique(res)) by {
                assert forall|i: int, j: int| 0 <= i < j < res.len() implies
                    (#[trigger] res[i]).id != (#[trigger] res[j]).id by {
                    if j == res.len() - 1 {
                        let j0 = choose|j0: int| 0 <= j0 < head.len() && res[i] == head[j0];
                        assert(rows[j0].id != rows[rows.len() - 1].id);
                    }
                }
            }
        } else {
            assert forall|k: int| 0 <= k < pre.len() implies
                exists|j: int| 0 <= j < rows.len() && #[trigger] pre[k] == rows[j] by {
                let j0 = choose|j0: int| 0 <= j0 < head.len() && pre[k] == head[j0];
                assert(pre[k] == rows[j0]);
            }
        }
    }
}

} // verus!
