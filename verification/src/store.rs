//! The store: the in-memory table of each record kind, an explicit
//! handle passed to every operation, with a well-formedness invariant
//! that constructors establish and operations preserve.

use vstd::prelude::*;

verus! {

use crate::models::AccountView;
use crate::models::BotAccount;
use crate::models::BotConfig;
use crate::models::ConfigView;
use crate::models::ExecutionLog;
use crate::models::LogView;
use crate::models::ReplySettings;
use crate::models::ReplyView;
use crate::models::ScheduleView;
use crate::models::ScheduledTweet;
use crate::models::UserSettings;
use crate::models::UserView;

/// The errors surfaced by store operations. Validation errors carry
/// enough to name what was rejected; `NotFound` is for single-row
/// operations on a missing row.
#[derive(Debug, PartialEq, Eq, Structural, Clone, Copy)]
pub enum StoreError {
    /// A required text field was empty or all whitespace.
    BlankField,
    /// An account name collided with an existing account.
    DuplicateName,
    /// An update was asked for without a row id.
    MissingId,
    /// No row matched a single-row operation.
    NotFound,
    /// A reply was saved with blank content.
    EmptyContent,
    /// A reply was saved with no targets.
    EmptyTargets,
    /// A save referenced this account id, which does not exist.
    MissingAccount(i64),
    /// A stored content list failed to decode.
    CorruptList,
    /// No further row ids can be assigned.
    IdsExhausted,
}

/// The store over all record kinds.
pub struct Store {
    pub accounts: Vec<BotAccount>,
    pub configs: Vec<BotConfig>,
    pub replies: Vec<ReplySettings>,
    pub schedules: Vec<ScheduledTweet>,
    pub logs: Vec<ExecutionLog>,
    pub user: UserSettings,
    pub next_account_id: i64,
    pub next_config_id: i64,
    pub next_reply_id: i64,
    pub next_schedule_id: i64,
    pub next_log_id: i64,
}

#[verifier::ext_equal]
pub struct StoreView {
    pub accounts: Seq<AccountView>,
    pub configs: Seq<ConfigView>,
    pub replies: Seq<ReplyView>,
    pub schedules: Seq<ScheduleView>,
    pub logs: Seq<LogView>,
    pub user: UserView,
    pub next_account_id: int,
    pub next_config_id: int,
    pub next_reply_id: int,
    pub next_schedule_id: int,
    pub next_log_id: int,
}

impl View for Store {
    type V = StoreView;

    open spec fn view(&self) -> StoreView {
        StoreView {
            accounts: self.accounts@.map_values(|a: BotAccount| a@),
            configs: self.configs@.map_values(|c: BotConfig| c@),
            replies: self.replies@.map_values(|r: ReplySettings| r@),
            schedules: self.schedules@.map_values(|t: ScheduledTweet| t@),
            logs: self.logs@.map_values(|l: ExecutionLog| l@),
            user: self.user@,
            next_account_id: self.next_account_id as int,
            next_config_id: self.next_config_id as int,
            next_reply_id: self.next_reply_id as int,
            next_schedule_id: self.next_schedule_id as int,
            next_log_id: self.next_log_id as int,
        }
    }
}

/// An account with this id exists.
pub open spec fn has_account(accs: Seq<AccountView>, id: i64) -> bool {
    exists|j: int| 0 <= j < accs.len() && (#[trigger] accs[j]).id == Some(id)
}

pub open spec fn account_rows_ok(accs: Seq<AccountView>, next: int) -> bool {
    forall|i: int| 0 <= i < accs.len() ==>
        ((#[trigger] accs[i]).id matches Some(k) && 1 <= k < next)
}

pub open spec fn account_ids_unique(accs: Seq<AccountView>) -> bool {
    forall|i: int, j: int| 0 <= i < j < accs.len() ==>
        (#[trigger] accs[i]).id != (#[trigger] accs[j]).id
}

pub open spec fn account_names_unique(accs: Seq<AccountView>) -> bool {
    forall|i: int, j: int| 0 <= i < j < accs.len() ==>
        (#[trigger] accs[i]).account_name != (#[trigger] accs[j]).account_name
}

pub open spec fn reply_rows_ok(rows: Seq<ReplyView>, next: int) -> bool {
    forall|i: int| 0 <= i < rows.len() ==>
        ((#[trigger] rows[i]).id matches Some(k) && 1 <= k < next)
}

pub open spec fn reply_ids_unique(rows: Seq<ReplyView>) -> bool {
    forall|i: int, j: int| 0 <= i < j < rows.len() ==>
        (#[trigger] rows[i]).id != (#[trigger] rows[j]).id
}

pub open spec fn schedule_rows_ok(rows: Seq<ScheduleView>, next: int) -> bool {
    forall|i: int| 0 <= i < rows.len() ==>
        ((#[trigger] rows[i]).id matches Some(k) && 1 <= k < next)
}

pub open spec fn schedule_ids_unique(rows: Seq<ScheduleView>) -> bool {
    forall|i: int, j: int| 0 <= i < j < rows.len() ==>
        (#[trigger] rows[i]).id != (#[trigger] rows[j]).id
}

impl StoreView {
    /// Well-formedness: every row carries an id below the next free
    /// one, ids are unique per table, and account names are unique.
    /// Single-active-per-key is deliberately not part of this
    /// invariant: the legacy migrator may produce several active rows
    /// for one replier, so that property is stated of the save path
    /// instead.
    pub open spec fn wf(self) -> bool {
        &&& 1 <= self.next_account_id
        &&& 1 <= self.next_config_id
        &&& 1 <= self.next_reply_id
        &&& 1 <= self.next_schedule_id
        &&& 1 <= self.next_log_id
        &&& account_rows_ok(self.accounts, self.next_account_id)
        &&& account_ids_unique(self.accounts)
        &&& account_names_unique(self.accounts)
        &&& reply_rows_ok(self.replies, self.next_reply_id)
        &&& reply_ids_unique(self.replies)
        &&& schedule_rows_ok(self.schedules, self.next_schedule_id)
        &&& schedule_ids_unique(self.schedules)
    }
}

/// Everything except the reply table and its id counter is unchanged.
pub open spec fn same_but_replies(pre: StoreView, post: StoreView) -> bool {
    &&& post.accounts == pre.accounts
    &&& post.configs == pre.configs
    &&& post.schedules == pre.schedules
    &&& post.logs == pre.logs
    &&& post.user == pre.user
    &&& post.next_account_id == pre.next_account_id
    &&& post.next_config_id == pre.next_config_id
    &&& post.next_schedule_id == pre.next_schedule_id
    &&& post.next_log_id == pre.next_log_id
}

/// Everything except the schedule table and its id counter is unchanged.
pub open spec fn same_but_schedules(pre: StoreView, post: StoreView) -> bool {
    &&& post.accounts == pre.accounts
    &&& post.configs == pre.configs
    &&& post.replies == pre.replies
    &&& post.logs == pre.logs
    &&& post.user == pre.user
    &&& post.next_account_id == pre.next_account_id
    &&& post.next_config_id == pre.next_config_id
    &&& post.next_reply_id == pre.next_reply_id
    &&& post.next_log_id == pre.next_log_id
}

/// Everything except the log table and its id counter is unchanged.
pub open spec fn same_but_logs(pre: StoreView, post: StoreView) -> bool {
    &&& post.accounts == pre.accounts
    &&& post.configs == pre.configs
    &&& post.replies == pre.replies
    &&& post.schedules == pre.schedules
    &&& post.user == pre.user
    &&& post.next_account_id == pre.next_account_id
    &&& post.next_config_id == pre.next_config_id
    &&& post.next_reply_id == pre.next_reply_id
    &&& post.next_schedule_id == pre.next_schedule_id
}

/// Whitespace, for blank-field checks.
pub open spec fn is_space(c: char) -> bool {
    c == ' ' || c == '\t' || c == '\n' || c == '\r' || c == '\u{b}' || c == '\u{c}'
}

/// A string is blank when every character is whitespace; an empty
/// string is blank.
pub open spec fn blank(s: Seq<char>) -> bool {
    forall|i: int| 0 <= i < s.len() ==> is_space(#[trigger] s[i])
}

/// Checks whether a string is empty or all whitespace.
pub fn is_blank(s: &str) -> (r: bool)
    ensures
        r == blank(s@),
{
    let n = s.unicode_len();
    let mut i: usize = 0;
    while i < n
        invariant
            0 <= i <= n,
            n == s@.len(),
            forall|j: int| 0 <= j < i ==> is_space(#[trigger] s@[j]),
        decreases n - i,
    {
        let c = s.get_char(i);
        if !(c == ' ' || c == '\t' || c == '\n' || c == '\r' || c == '\u{b}' || c == '\u{c}') {
            assert(!is_space(s@[i as int]));
            return false;
        }
        i = i + 1;
    }
    true
}

impl Store {
    /// A fresh, empty store with the default settings row.
    pub fn new(now: &str) -> (r: Store)
        ensures
            r@.wf(),
            r@.accounts.len() == 0,
            r@.configs.len() == 0,
            r@.replies.len() == 0,
            r@.schedules.len() == 0,
            r@.logs.len() == 0,
            r@.user.user_id == "default"@,
            r@.user.plan_type == "starter"@,
            r@.user.max_accounts == 999,
            r@.user.created_at == now@,
            r@.user.updated_at == now@,
            r@.next_account_id == 1,
            r@.next_config_id == 1,
            r@.next_reply_id == 1,
            r@.next_schedule_id == 1,
            r@.next_log_id == 1,
    {
        Store {
            accounts: Vec::new(),
            configs: Vec::new(),
            replies: Vec::new(),
            schedules: Vec::new(),
            logs: Vec::new(),
            user: UserSettings {
                id: Some(1),
                user_id: "default".to_owned(),
                plan_type: "starter".to_owned(),
                max_accounts: 999,
                created_at: now.to_owned(),
                updated_at: now.to_owned(),
            },
            next_account_id: 1,
            next_config_id: 1,
            next_reply_id: 1,
            next_schedule_id: 1,
            next_log_id: 1,
        }
    }

    /// The authoritative account-existence check.
    pub fn bot_exists(&self, id: i64) -> (r: bool)
        ensures
            r == has_account(self@.accounts, id),
    {
        let mut j: usize = 0;
        while j < self.accounts.len()
            invariant
                0 <= j <= self.accounts@.len(),
                forall|k: int| 0 <= k < j ==> (#[trigger] self@.accounts[k]).id != Some(id),
            decreases self.accounts@.len() - j,
        {
            match self.accounts[j].id {
                Some(k) => {
                    if k == id {
                        assert(self@.accounts[j as int].id == Some(id));
                        return true;
                    }
                }
                None => {}
            }
            assert(self@.accounts[j as int].id != Some(id));
            j = j + 1;
        }
        false
    }
}

} // verus!
