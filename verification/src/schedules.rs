//! The schedule store: single-active-version saves of rotating
//! content lists, direct row insertion, the round-robin cursor
//! advance, and the active-row read.

use vstd::prelude::*;

verus! {

use crate::models::ScheduledTweet;
use crate::models::ScheduleView;
use crate::store::blank;
use crate::store::is_blank;
use crate::store::same_but_schedules;
use crate::store::Store;
use crate::store::StoreError;
use crate::strcodec::decode_strs;
use crate::strcodec::encode_strs;
use crate::strcodec::encode_strs_spec;
use crate::strcodec::strs_of;
use crate::strcodec::views_of;

/// Every schedule row of the account deactivated.
pub open spec fn deactivate_sched_for(
    rows: Seq<ScheduleView>,
    account: i64,
    now: Seq<char>,
) -> Seq<ScheduleView> {
    rows.map_values(
        |r: ScheduleView|
            if r.account_id == account {
                ScheduleView { is_active: false, updated_at: now, ..r }
            } else {
                r
            },
    )
}

/// The fresh active row of a content-list save: the first item is the
/// primary content and the cursor starts at zero.
pub open spec fn new_list_row(
    id: int,
    account: i64,
    times: Seq<char>,
    list: Seq<Seq<char>>,
    now: Seq<char>,
) -> ScheduleView {
    ScheduleView {
        id: Some(id as i64),
        account_id: account,
        content: list[0],
        content_list: Some(encode_strs_spec(list)),
        current_index: Some(0),
        scheduled_times: times,
        is_active: true,
        created_at: now,
        updated_at: now,
    }
}

/// The fresh active row of a single-content save: no content list.
pub open spec fn new_single_row(
    id: int,
    account: i64,
    times: Seq<char>,
    content: Seq<char>,
    now: Seq<char>,
) -> ScheduleView {
    ScheduleView {
        id: Some(id as i64),
        account_id: account,
        content: content,
        content_list: None,
        current_index: Some(0),
        scheduled_times: times,
        is_active: true,
        created_at: now,
        updated_at: now,
    }
}

/// A row inserted as given, with a fresh id, fresh stamps, and a
/// defaulted cursor.
pub open spec fn added_sched_row(id: int, t: ScheduleView, now: Seq<char>) -> ScheduleView {
    ScheduleView {
        id: Some(id as i64),
        account_id: t.account_id,
        content: t.content,
        content_list: t.content_list,
        current_index: Some(match t.current_index {
            Some(c) => c,
            None => 0,
        }),
        scheduled_times: t.scheduled_times,
        is_active: t.is_active,
        created_at: now,
        updated_at: now,
    }
}

/// The index of the first active row of an account.
pub open spec fn first_sched_active_for(rows: Seq<ScheduleView>, account: i64) -> Option<int>
    decreases rows.len(),
{
    if rows.len() == 0 {
        None
    } else if rows[0].is_active && rows[0].account_id == account {
        Some(0)
    } else {
        match first_sched_active_for(rows.drop_first(), account) {
            Some(i) => Some(i + 1),
            None => None,
        }
    }
}

pub proof fn lemma_first_sched_active_at(rows: Seq<ScheduleView>, account: i64, i: int)
    requires
        0 <= i < rows.len(),
        rows[i].is_active && rows[i].account_id == account,
        forall|k: int| 0 <= k < i ==>
            !((#[trigger] rows[k]).is_active && rows[k].account_id == account),
    ensures
        first_sched_active_for(rows, account) == Some(i),
    decreases i,
{
    if i > 0 {
        assert(forall|k: int| 0 <= k < i - 1 ==>
            !((#[trigger] rows.drop_first()[k]).is_active
                && rows.drop_first()[k].account_id == account));
        assert(rows.drop_first()[i - 1] == rows[i]);
        lemma_first_sched_active_at(rows.drop_first(), account, i - 1);
    }
}

pub proof fn lemma_first_sched_active_none(rows: Seq<ScheduleView>, account: i64)
    requires
        forall|k: int| 0 <= k < rows.len() ==>
            !((#[trigger] rows[k]).is_active && rows[k].account_id == account),
    ensures
        first_sched_active_for(rows, account) is None,
    decreases rows.len(),
{
    if rows.len() > 0 {
        assert(forall|k: int| 0 <= k < rows.drop_first().len() ==>
            !((#[trigger] rows.drop_first()[k]).is_active
                && rows.drop_first()[k].account_id == account));
        lemma_first_sched_active_none(rows.drop_first(), account);
    }
}

/// The cursor a row carries, zero when unset.
pub open spec fn cursor_of(r: ScheduleView) -> i32 {
    match r.current_index {
        Some(c) => c,
        None => 0,
    }
}

/// The round-robin step: one past the cursor, wrapping to zero at the
/// end of the list; a cursor outside the list restarts at zero.
pub open spec fn next_cursor(cur: i32, n: int) -> i32 {
    if 0 <= cur && cur < i32::MAX && cur + 1 < n {
        (cur + 1) as i32
    } else {
        0
    }
}

/// Every active row of the account moved to the new cursor.
pub open spec fn advance_rows(
    rows: Seq<ScheduleView>,
    account: i64,
    nc: i32,
    now: Seq<char>,
) -> Seq<ScheduleView> {
    rows.map_values(
        |r: ScheduleView|
            if r.is_active && r.account_id == account {
                ScheduleView { current_index: Some(nc), updated_at: now, ..r }
            } else {
                r
            },
    )
}

/// What an advance returns: the account must have an active row, and
/// a present content list must decode.
pub open spec fn advance_result(rows: Seq<ScheduleView>, account: i64) -> Result<
    (),
    StoreError,
> {
    match first_sched_active_for(rows, account) {
        None => Err(StoreError::NotFound),
        Some(i) => match rows[i].content_list {
            None => Ok(()),
            Some(tok) => match strs_of(tok) {
                None => Err(StoreError::CorruptList),
                Some(items) => Ok(()),
            },
        },
    }
}

/// The schedule table after an advance: unchanged unless the active
/// row has a nonempty, decodable content list.
pub open spec fn advance_post(
    rows: Seq<ScheduleView>,
    account: i64,
    now: Seq<char>,
) -> Seq<ScheduleView> {
    match first_sched_active_for(rows, account) {
        None => rows,
        Some(i) => match rows[i].content_list {
            None => rows,
            Some(tok) => match strs_of(tok) {
                None => rows,
                Some(items) => if items.len() == 0 {
                    rows
                } else {
                    advance_rows(rows, account, next_cursor(cursor_of(rows[i]),
                        items.len() as int), now)
                },
            },
        },
    }
}

/// A schedule row the read returns: active, and owned by the account
/// when a filter is given.
pub open spec fn sched_matches(r: ScheduleView, filt: Option<i64>) -> bool {
    r.is_active && (match filt {
        Some(a) => r.account_id == a,
        None => true,
    })
}

/// The returned schedule rows, in storage order.
pub open spec fn fetch_scheds(rows: Seq<ScheduleView>, filt: Option<i64>) -> Seq<ScheduleView>
    decreases rows.len(),
{
    if rows.len() == 0 {
        Seq::empty()
    } else {
        let pre = fetch_scheds(rows.drop_last(), filt);
        if sched_matches(rows.last(), filt) {
            pre.push(rows.last())
        } else {
            pre
        }
    }
}

/// The deactivation step keeps ids in place.
proof fn lemma_deactivate_sched_ids(rows: Seq<ScheduleView>, account: i64, now: Seq<char>)
    ensures
        deactivate_sched_for(rows, account, now).len() == rows.len(),
        forall|i: int| 0 <= i < rows.len() ==>
            (#[trigger] deactivate_sched_for(rows, account, now)[i]).id == rows[i].id,
{
}

/// Appending one fresh row preserves well-formedness of the schedule
/// table.
proof fn lemma_sched_append_wf(
    pre: Seq<ScheduleView>,
    post: Seq<ScheduleView>,
    next: int,
    id: int,
)
    requires
        crate::store::schedule_rows_ok(pre, next),
        crate::store::schedule_ids_unique(pre),
        id == next,
        1 <= next < i64::MAX as int,
        post.len() == pre.len() + 1,
        forall|i: int| 0 <= i < pre.len() ==> (#[trigger] post[i]).id == pre[i].id,
        post.last().id == Some(id as i64),
    ensures
        crate::store::schedule_rows_ok(post, next + 1),
        crate::store::schedule_ids_unique(post),
{
    assert forall|i: int| 0 <= i < post.len() implies
        ((#[trigger] post[i]).id matches Some(k) && 1 <= k < next + 1) by {
        if i < pre.len() {
            assert(post[i].id == pre[i].id);
        }
    }
    assert forall|i: int, j: int| 0 <= i < j < post.len() implies
        (#[trigger] post[i]).id != (#[trigger] post[j]).id by {
        if j < pre.len() {
            assert(post[i].id == pre[i].id);
            assert(post[j].id == pre[j].id);
        } else {
            assert(post[i].id == pre[i].id);
        }
    }
}

impl Store {
    /// Saves a rotating content list for an account: deactivates the
    /// current active schedule, and inserts a fresh active row with
    /// the cursor at zero — unless the times or the list are empty,
    /// which clears the schedule and inserts nothing.
    #[verifier::loop_isolation(false)]
    pub fn save_scheduled_tweet_list(
        &mut self,
        account_id: i64,
        scheduled_times: &str,
        content_list: &Vec<String>,
        now: &str,
    )
        requires
            old(self)@.wf(),
            old(self)@.next_schedule_id < i64::MAX as int,
        ensures
            final(self)@.wf(),
            same_but_schedules(old(self)@, final(self)@),
            scheduled_times@.len() == 0 || content_list@.len() == 0 ==> {
                &&& final(self)@.schedules == deactivate_sched_for(old(self)@.schedules,
                    account_id, now@)
                &&& final(self)@.next_schedule_id == old(self)@.next_schedule_id
            },
            scheduled_times@.len() > 0 && content_list@.len() > 0 ==> {
                &&& final(self)@.schedules == deactivate_sched_for(old(self)@.schedules,
                    account_id, now@).push(new_list_row(old(self)@.next_schedule_id,
                    account_id, scheduled_times@, views_of(content_list@), now@))
                &&& final(self)@.next_schedule_id == old(self)@.next_schedule_id + 1
            },
    {
        let ghost pre_rows = self@.schedules;
        let mut out = self.deactivated_schedules(account_id, now);
        if scheduled_times.unicode_len() > 0 && content_list.len() > 0 {
            let id = self.next_schedule_id;
            let first_content = content_list[0].clone();
            let row = ScheduledTweet {
                id: Some(id),
                account_id: account_id,
                content: first_content,
                content_list: Some(encode_strs(content_list)),
                current_index: Some(0),
                scheduled_times: scheduled_times.to_owned(),
                is_active: true,
                created_at: now.to_owned(),
                updated_at: now.to_owned(),
            };
            proof {
                assert(row@ =~= new_list_row(id as int, account_id, scheduled_times@,
                    views_of(content_list@), now@));
            }
            let ghost out_pre = out@;
            out.push(row);
            self.schedules = out;
            self.next_schedule_id = id + 1;
            proof {
                assert(self@.schedules
                    =~~= out_pre.map_values(|x: ScheduledTweet| x@)
                        .push(new_list_row(id as int, account_id, scheduled_times@,
                            views_of(content_list@), now@)));
                lemma_deactivate_sched_ids(pre_rows, account_id, now@);
                lemma_sched_append_wf(deactivate_sched_for(pre_rows, account_id, now@),
                    self@.schedules, old(self)@.next_schedule_id, id as int);
            }
        } else {
            self.schedules = out;
            proof {
                lemma_deactivate_sched_ids(pre_rows, account_id, now@);
            }
        }
    }

    /// Saves a single-content schedule for an account: deactivates
    /// the current active schedule, and inserts a fresh active row
    /// with no content list — unless the times are empty or the
    /// content is blank, which clears the schedule.
    #[verifier::loop_isolation(false)]
    pub fn save_single_scheduled_tweet(
        &mut self,
        account_id: i64,
        scheduled_times: &str,
        content: &str,
        now: &str,
    )
        requires
            old(self)@.wf(),
            old(self)@.next_schedule_id < i64::MAX as int,
        ensures
            final(self)@.wf(),
            same_but_schedules(old(self)@, final(self)@),
            scheduled_times@.len() == 0 || blank(content@) ==> {
                &&& final(self)@.schedules == deactivate_sched_for(old(self)@.schedules,
                    account_id, now@)
                &&& final(self)@.next_schedule_id == old(self)@.next_schedule_id
            },
            scheduled_times@.len() > 0 && !blank(content@) ==> {
                &&& final(self)@.schedules == deactivate_sched_for(old(self)@.schedules,
                    account_id, now@).push(new_single_row(old(self)@.next_schedule_id,
                    account_id, scheduled_times@, content@, now@))
                &&& final(self)@.next_schedule_id == old(self)@.next_schedule_id + 1
            },
    {
        let ghost pre_rows = self@.schedules;
        let mut out = self.deactivated_schedules(account_id, now);
        if scheduled_times.unicode_len() > 0 && !is_blank(content) {
            let id = self.next_schedule_id;
            let row = ScheduledTweet {
                id: Some(id),
                account_id: account_id,
                content: content.to_owned(),
                content_list: None,
                current_index: Some(0),
                scheduled_times: scheduled_times.to_owned(),
                is_active: true,
                created_at: now.to_owned(),
                updated_at: now.to_owned(),
            };
            proof {
                assert(row@ =~= new_single_row(id as int, account_id, scheduled_times@,
                    content@, now@));
            }
            let ghost out_pre = out@;
            out.push(row);
            self.schedules = out;
            self.next_schedule_id = id + 1;
            proof {
                assert(self@.schedules
                    =~~= out_pre.map_values(|x: ScheduledTweet| x@)
                        .push(new_single_row(id as int, account_id, scheduled_times@,
                            content@, now@)));
                lemma_deactivate_sched_ids(pre_rows, account_id, now@);
                lemma_sched_append_wf(deactivate_sched_for(pre_rows, account_id, now@),
                    self@.schedules, old(self)@.next_schedule_id, id as int);
            }
        } else {
            self.schedules = out;
            proof {
                lemma_deactivate_sched_ids(pre_rows, account_id, now@);
            }
        }
    }

    /// The schedule rows with every row of the account deactivated;
    /// shared by both save paths.
    #[verifier::loop_isolation(false)]
    fn deactivated_schedules(&self, account_id: i64, now: &str) -> (out: Vec<ScheduledTweet>)
        ensures
            out@.map_values(|x: ScheduledTweet| x@)
                == deactivate_sched_for(self@.schedules, account_id, now@),
    {
        let ghost pre_rows = self@.schedules;
        let mut out: Vec<ScheduledTweet> = Vec::new();
        let mut j: usize = 0;
        proof {
            assert(out@.map_values(|x: ScheduledTweet| x@)
                =~~= deactivate_sched_for(pre_rows.take(0), account_id, now@));
        }
        while j < self.schedules.len()
            invariant
                0 <= j <= self.schedules@.len(),
                out@.map_values(|x: ScheduledTweet| x@)
                    =~~= deactivate_sched_for(pre_rows.take(j as int), account_id, now@),
            decreases self.schedules@.len() - j,
        {
            let ghost out_pre = out@;
            let row = &self.schedules[j];
            if row.account_id == account_id {
                let mut d = row.duplicate();
                d.is_active = false;
                d.updated_at = now.to_owned();
                out.push(d);
            } else {
                out.push(row.duplicate());
            }
            j = j + 1;
            proof {
                assert(out@.map_values(|x: ScheduledTweet| x@)
                    =~~= out_pre.map_values(|x: ScheduledTweet| x@).push(out@.last()@));
                assert(deactivate_sched_for(pre_rows.take(j as int), account_id, now@)
                    =~~= deactivate_sched_for(pre_rows.take(j - 1), account_id, now@)
                        .push(deactivate_sched_for(pre_rows, account_id, now@)[j - 1]));
            }
        }
        proof {
            assert(pre_rows.take(pre_rows.len() as int) =~= pre_rows);
        }
        out
    }

    /// Inserts one schedule row as given, assigning a fresh id and
    /// fresh stamps and defaulting the cursor to zero. Returns the
    /// new id.
    pub fn add_scheduled_tweet(&mut self, tweet: &ScheduledTweet, now: &str) -> (r: i64)
        requires
            old(self)@.wf(),
            old(self)@.next_schedule_id < i64::MAX as int,
        ensures
            final(self)@.wf(),
            same_but_schedules(old(self)@, final(self)@),
            r as int == old(self)@.next_schedule_id,
            final(self)@.next_schedule_id == old(self)@.next_schedule_id + 1,
            final(self)@.schedules == old(self)@.schedules.push(
                added_sched_row(r as int, tweet@, now@)),
    {
        let id = self.next_schedule_id;
        let cur: i32 = match tweet.current_index {
            Some(c) => c,
            None => 0,
        };
        let row = ScheduledTweet {
            id: Some(id),
            account_id: tweet.account_id,
            content: tweet.content.clone(),
            content_list: crate::models::copy_opt(&tweet.content_list),
            current_index: Some(cur),
            scheduled_times: tweet.scheduled_times.clone(),
            is_active: tweet.is_active,
            created_at: now.to_owned(),
            updated_at: now.to_owned(),
        };
        proof {
            assert(row@ =~= added_sched_row(id as int, tweet@, now@));
        }
        let ghost pre_rows = self@.schedules;
        self.schedules.push(row);
        self.next_schedule_id = id + 1;
        proof {
            assert(self@.schedules
                =~~= pre_rows.push(added_sched_row(id as int, tweet@, now@)));
            lemma_sched_append_wf(pre_rows, self@.schedules,
                old(self)@.next_schedule_id, id as int);
        }
        id
    }

    /// The index of the first active schedule row of an account.
    fn find_first_sched_active(&self, account: i64) -> (r: Option<usize>)
        ensures
            (r matches Some(j) ==> first_sched_active_for(self@.schedules, account)
                == Some(j as int) && j < self@.schedules.len()
                && self@.schedules[j as int].is_active
                && self@.schedules[j as int].account_id == account),
            r is None ==> first_sched_active_for(self@.schedules, account) is None,
    {
        let ghost rows = self@.schedules;
        let mut j: usize = 0;
        while j < self.schedules.len()
            invariant
                0 <= j <= self.schedules@.len(),
                rows == self@.schedules,
                forall|k: int| 0 <= k < j ==>
                    !((#[trigger] rows[k]).is_active && rows[k].account_id == account),
            ensures
                0 <= j <= self.schedules@.len(),
                rows == self@.schedules,
                forall|k: int| 0 <= k < j ==>
                    !((#[trigger] rows[k]).is_active && rows[k].account_id == account),
                j < self.schedules@.len() ==> (rows[j as int].is_active
                    && rows[j as int].account_id == account),
            decreases self.schedules@.len() - j,
        {
            if self.schedules[j].is_active && self.schedules[j].account_id == account {
                break;
            }
            j = j + 1;
        }
        if j == self.schedules.len() {
            proof {
                lemma_first_sched_active_none(rows, account);
            }
            None
        } else {
            proof {
                lemma_first_sched_active_at(rows, account, j as int);
            }
            Some(j)
        }
    }

    /// Advances the rotation cursor of the account's active schedule:
    /// one step round-robin over the content list; a missing or empty
    /// list is a no-op. An account without an active row is an error,
    /// as is a list that fails to decode.
    #[verifier::loop_isolation(false)]
    pub fn update_post_index(&mut self, account_id: i64, now: &str) -> (r: Result<
        (),
        StoreError,
    >)
        requires
            old(self)@.wf(),
        ensures
            final(self)@.wf(),
            same_but_schedules(old(self)@, final(self)@),
            final(self)@.next_schedule_id == old(self)@.next_schedule_id,
            r == advance_result(old(self)@.schedules, account_id),
            final(self)@.schedules == advance_post(old(self)@.schedules, account_id, now@),
    {
        let ghost pre_rows = self@.schedules;
        let j = match self.find_first_sched_active(account_id) {
            Some(j) => j,
            None => {
                return Err(StoreError::NotFound);
            },
        };
        let ghost the_row = pre_rows[j as int];
        let tok_opt = crate::models::copy_opt(&self.schedules[j].content_list);
        let tok = match tok_opt {
            Some(tok) => tok,
            None => {
                return Ok(());
            },
        };
        let items = match decode_strs(tok.as_str()) {
            Some(items) => items,
            None => {
                return Err(StoreError::CorruptList);
            },
        };
        if items.len() == 0 {
            return Ok(());
        }
        let cur: i32 = match self.schedules[j].current_index {
            Some(c) => c,
            None => 0,
        };
        let nc: i32 = if 0 <= cur && cur < i32::MAX && ((cur + 1) as usize) < items.len() {
            cur + 1
        } else {
            0
        };
        proof {
            assert(nc == next_cursor(cursor_of(the_row), items@.len() as int));
        }
        let mut out: Vec<ScheduledTweet> = Vec::new();
        let mut m: usize = 0;
        proof {
            assert(out@.map_values(|x: ScheduledTweet| x@)
                =~~= advance_rows(pre_rows.take(0), account_id, nc, now@));
        }
        while m < self.schedules.len()
            invariant
                0 <= m <= self.schedules@.len(),
                pre_rows == self@.schedules,
                out@.map_values(|x: ScheduledTweet| x@)
                    =~~= advance_rows(pre_rows.take(m as int), account_id, nc, now@),
            decreases self.schedules@.len() - m,
        {
            let ghost out_pre = out@;
            let row = &self.schedules[m];
            if row.is_active && row.account_id == account_id {
                let mut d = row.duplicate();
                d.current_index = Some(nc);
                d.updated_at = now.to_owned();
                out.push(d);
            } else {
                out.push(row.duplicate());
            }
            m = m + 1;
            proof {
                assert(out@.map_values(|x: ScheduledTweet| x@)
                    =~~= out_pre.map_values(|x: ScheduledTweet| x@).push(out@.last()@));
                assert(advance_rows(pre_rows.take(m as int), account_id, nc, now@)
                    =~~= advance_rows(pre_rows.take(m - 1), account_id, nc, now@)
                        .push(advance_rows(pre_rows, account_id, nc, now@)[m - 1]));
            }
        }
        self.schedules = out;
        proof {
            assert(pre_rows.take(pre_rows.len() as int) =~= pre_rows);
            let post = advance_rows(pre_rows, account_id, nc, now@);
            assert(post.len() == pre_rows.len());
            assert(forall|i: int| 0 <= i < post.len() ==>
                (#[trigger] post[i]).id == pre_rows[i].id);
        }
        Ok(())
    }

    /// The active schedule rows, optionally filtered by account,
    /// newest first.
    #[verifier::loop_isolation(false)]
    pub fn fetch_scheduled_tweets(&self, account_id: Option<i64>) -> (r: Vec<ScheduledTweet>)
        ensures
            r@.map_values(|x: ScheduledTweet| x@)
                == fetch_scheds(self@.schedules, account_id).reverse(),
    {
        let ghost rows = self@.schedules;
        let mut picked: Vec<ScheduledTweet> = Vec::new();
        let mut j: usize = 0;
        proof {
            assert(picked@.map_values(|x: ScheduledTweet| x@)
                =~~= fetch_scheds(rows.take(0), account_id));
        }
        while j < self.schedules.len()
            invariant
                0 <= j <= self.schedules@.len(),
                picked@.map_values(|x: ScheduledTweet| x@)
                    =~~= fetch_scheds(rows.take(j as int), account_id),
            decreases self.schedules@.len() - j,
        {
            let ghost picked_pre = picked@;
            let row = &self.schedules[j];
            let wanted = row.is_active && (match account_id {
                Some(a) => row.account_id == a,
                None => true,
            });
            if wanted {
                picked.push(row.duplicate());
            }
            j = j + 1;
            proof {
                assert(rows.take(j as int).drop_last() =~= rows.take(j - 1));
                assert(rows.take(j as int).last() == rows[j - 1]);
                if wanted {
                    assert(picked@.map_values(|x: ScheduledTweet| x@)
                        =~~= picked_pre.map_values(|x: ScheduledTweet| x@)
                            .push(rows[j - 1]));
                }
                assert(picked@.map_values(|x: ScheduledTweet| x@)
                    =~~= fetch_scheds(rows.take(j as int), account_id));
            }
        }
        proof {
            assert(rows.take(rows.len() as int) =~= rows);
        }
        let ghost picked_views = picked@.map_values(|x: ScheduledTweet| x@);
        let mut result: Vec<ScheduledTweet> = Vec::new();
        let mut k: usize = picked.len();
        while k > 0
            invariant
                0 <= k <= picked@.len(),
                picked_views == picked@.map_values(|x: ScheduledTweet| x@),
                result@.len() == picked@.len() - k,
                forall|i: int| 0 <= i < result@.len() ==>
                    (#[trigger] result@[i])@ == picked_views[picked_views.len() - 1 - i],
            decreases k,
        {
            k = k - 1;
            result.push(picked[k].duplicate());
        }
        proof {
            assert(result@.map_values(|x: ScheduledTweet| x@) =~~= picked_views.reverse());
        }
        result
    }
}

} // verus!
