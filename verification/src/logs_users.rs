//! The execution log and the per-installation settings row.

use vstd::prelude::*;

verus! {

use crate::models::ExecutionLog;
use crate::models::LogView;
use crate::models::UserSettings;
use crate::store::same_but_logs;
use crate::store::Store;

/// The stored log row: fresh id, the given timestamp, fields as
/// given.
pub open spec fn inserted_log(id: int, l: LogView, timestamp: Seq<char>) -> LogView {
    LogView {
        id: Some(id as i64),
        account_id: l.account_id,
        log_type: l.log_type,
        message: l.message,
        tweet_id: l.tweet_id,
        tweet_content: l.tweet_content,
        status: l.status,
        created_at: timestamp,
    }
}

/// Whether a log row matches the optional account filter.
pub open spec fn log_matches(l: LogView, filt: Option<i64>) -> bool {
    match filt {
        Some(a) => l.account_id == a,
        None => true,
    }
}

/// The matching log rows, in storage order.
pub open spec fn matching_logs(logs: Seq<LogView>, filt: Option<i64>) -> Seq<LogView>
    decreases logs.len(),
{
    if logs.len() == 0 {
        Seq::empty()
    } else {
        let pre = matching_logs(logs.drop_last(), filt);
        if log_matches(logs.last(), filt) {
            pre.push(logs.last())
        } else {
            pre
        }
    }
}

/// How many rows a limit allows out of `n`: a negative limit means
/// no limit.
pub open spec fn log_cap(limit: i32, n: int) -> int {
    if limit < 0 {
        n
    } else if limit as int <= n {
        limit as int
    } else {
        n
    }
}

impl Store {
    /// Appends one log row with the given timestamp. Returns the new
    /// id.
    pub fn insert_execution_log(&mut self, log: &ExecutionLog, timestamp: &str) -> (r: i64)
        requires
            old(self)@.wf(),
            old(self)@.next_log_id < i64::MAX as int,
        ensures
            final(self)@.wf(),
            same_but_logs(old(self)@, final(self)@),
            r as int == old(self)@.next_log_id,
            final(self)@.next_log_id == old(self)@.next_log_id + 1,
            final(self)@.logs == old(self)@.logs.push(
                inserted_log(r as int, log@, timestamp@)),
    {
        let id = self.next_log_id;
        let mut row = log.duplicate();
        row.id = Some(id);
        row.created_at = timestamp.to_owned();
        proof {
            assert(row@ =~= inserted_log(id as int, log@, timestamp@));
        }
        let ghost pre_logs = self@.logs;
        self.logs.push(row);
        self.next_log_id = id + 1;
        proof {
            assert(self@.logs =~~= pre_logs.push(inserted_log(id as int, log@,
                timestamp@)));
        }
        id
    }

    /// The most recent matching log rows, newest first, up to the
    /// limit; a negative limit returns them all.
    #[verifier::loop_isolation(false)]
    pub fn fetch_execution_logs(&self, account_id: Option<i64>, limit: i32) -> (r: Vec<
        ExecutionLog,
    >)
        ensures
            r@.map_values(|x: ExecutionLog| x@)
                == matching_logs(self@.logs, account_id).reverse().take(
                    log_cap(limit, matching_logs(self@.logs, account_id).len() as int)),
    {
        let ghost logs = self@.logs;
        let mut picked: Vec<ExecutionLog> = Vec::new();
        let mut j: usize = 0;
        proof {
            assert(picked@.map_values(|x: ExecutionLog| x@)
                =~~= matching_logs(logs.take(0), account_id));
        }
        while j < self.logs.len()
            invariant
                0 <= j <= self.logs@.len(),
                picked@.map_values(|x: ExecutionLog| x@)
                    =~~= matching_logs(logs.take(j as int), account_id),
            decreases self.logs@.len() - j,
        {
            let ghost picked_pre = picked@;
            let row = &self.logs[j];
            let wanted = match account_id {
                Some(a) => row.account_id == a,
                None => true,
            };
            if wanted {
                picked.push(row.duplicate());
            }
            j = j + 1;
            proof {
                assert(logs.take(j as int).drop_last() =~= logs.take(j - 1));
                assert(logs.take(j as int).last() == logs[j - 1]);
                if log_matches(logs[j - 1], account_id) {
                    assert(picked@.map_values(|x: ExecutionLog| x@)
                        =~~= picked_pre.map_values(|x: ExecutionLog| x@)
                            .push(logs[j - 1]));
                }
                assert(picked@.map_values(|x: ExecutionLog| x@)
                    =~~= matching_logs(logs.take(j as int), account_id));
            }
        }
        proof {
            assert(logs.take(logs.len() as int) =~= logs);
        }
        let ghost picked_views = picked@.map_values(|x: ExecutionLog| x@);
        let cap: usize = if limit < 0 {
            picked.len()
        } else if (limit as usize) <= picked.len() {
            limit as usize
        } else {
            picked.len()
        };
        proof {
            assert(cap as int == log_cap(limit, picked_views.len() as int));
        }
        let mut result: Vec<ExecutionLog> = Vec::new();
        let mut i: usize = 0;
        while i < cap
            invariant
                0 <= i <= cap,
                cap <= picked@.len(),
                picked_views == picked@.map_values(|x: ExecutionLog| x@),
                result@.len() == i,
                forall|k: int| 0 <= k < i ==>
                    (#[trigger] result@[k])@ == picked_views[picked_views.len() - 1 - k],
            decreases cap - i,
        {
            result.push(picked[picked.len() - 1 - i].duplicate());
            i = i + 1;
        }
        proof {
            assert(result@.map_values(|x: ExecutionLog| x@)
                =~~= picked_views.reverse().take(cap as int));
        }
        result
    }

    /// The per-installation settings row.
    pub fn fetch_user_settings(&self) -> (r: UserSettings)
        ensures
            r@ == self@.user,
    {
        self.user.duplicate()
    }

    /// Rewrites the plan and account-cap fields of the settings row.
    pub fn update_user_settings(&mut self, settings: &UserSettings, now: &str)
        requires
            old(self)@.wf(),
        ensures
            final(self)@.wf(),
            final(self)@.accounts == old(self)@.accounts,
            final(self)@.configs == old(self)@.configs,
            final(self)@.replies == old(self)@.replies,
            final(self)@.schedules == old(self)@.schedules,
            final(self)@.logs == old(self)@.logs,
            final(self)@.next_account_id == old(self)@.next_account_id,
            final(self)@.next_config_id == old(self)@.next_config_id,
            final(self)@.next_reply_id == old(self)@.next_reply_id,
            final(self)@.next_schedule_id == old(self)@.next_schedule_id,
            final(self)@.next_log_id == old(self)@.next_log_id,
            final(self)@.user.plan_type == settings@.plan_type,
            final(self)@.user.max_accounts == settings@.max_accounts,
            final(self)@.user.updated_at == now@,
            final(self)@.user.id == old(self)@.user.id,
            final(self)@.user.user_id == old(self)@.user.user_id,
            final(self)@.user.created_at == old(self)@.user.created_at,
    {
        self.user.plan_type = settings.plan_type.clone();
        self.user.max_accounts = settings.max_accounts;
        self.user.updated_at = now.to_owned();
    }
}

} // verus!
