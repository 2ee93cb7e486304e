//! The account registry: the root entity's create, update, read and
//! existence checks, the dashboard counters, and the cascade that
//! runs when an account is deleted.

use vstd::prelude::*;

verus! {

use crate::codec::encode_ids;
use crate::codec::encode_ids_spec;
use crate::codec::decode_ids;
use crate::codec::ids_of;
use crate::codec::str_eq;
use crate::models::AccountView;
use crate::models::BotAccount;
use crate::models::BotConfig;
use crate::models::ConfigView;
use crate::models::DashboardStats;
use crate::models::LogView;
use crate::models::ReplySettings;
use crate::models::ReplyView;
use crate::models::ScheduleView;
use crate::replies::reclaim_rows;
use crate::store::blank;
use crate::store::has_account;
use crate::store::is_blank;
use crate::store::Store;
use crate::store::StoreError;
use crate::store::StoreView;

/// An account with this display name exists.
pub open spec fn has_name(accs: Seq<AccountView>, name: Seq<char>) -> bool {
    exists|j: int| 0 <= j < accs.len() && (#[trigger] accs[j]).account_name == name
}

/// The validation outcome of an account insert: the credential fields
/// and the name must be non-blank, and the name must be new.
pub open spec fn insert_account_err(accs: Seq<AccountView>, a: AccountView) -> Option<
    StoreError,
> {
    if blank(a.account_name) || blank(a.api_key) || blank(a.api_key_secret)
        || blank(a.access_token) || blank(a.access_token_secret) {
        Some(StoreError::BlankField)
    } else if has_name(accs, a.account_name) {
        Some(StoreError::DuplicateName)
    } else {
        None
    }
}

/// The stored account row: fresh id and stamps, fields as given.
pub open spec fn inserted_account(id: int, a: AccountView, now: Seq<char>) -> AccountView {
    AccountView { id: Some(id as i64), created_at: Some(now), updated_at: Some(now), ..a }
}

/// The configuration row created with every account, with the storage
/// defaults.
pub open spec fn default_config(id: int, account_id: i64, now: Seq<char>) -> ConfigView {
    ConfigView {
        id: Some(id as i64),
        account_id: account_id,
        is_enabled: false,
        auto_tweet_enabled: false,
        tweet_interval_minutes: 60,
        tweet_templates: None,
        hashtags: None,
        created_at: now,
        updated_at: now,
    }
}

/// Everything except the account and config tables and their id
/// counters is unchanged.
pub open spec fn same_but_registry(pre: StoreView, post: StoreView) -> bool {
    &&& post.replies == pre.replies
    &&& post.schedules == pre.schedules
    &&& post.logs == pre.logs
    &&& post.user == pre.user
    &&& post.next_reply_id == pre.next_reply_id
    &&& post.next_schedule_id == pre.next_schedule_id
    &&& post.next_log_id == pre.next_log_id
}

/// The validation outcome of an account update: an id is required,
/// and the name may not collide with a different account.
pub open spec fn update_account_err(accs: Seq<AccountView>, a: AccountView) -> Option<
    StoreError,
> {
    match a.id {
        None => Some(StoreError::MissingId),
        Some(aid) => if exists|j: int| 0 <= j < accs.len()
            && (#[trigger] accs[j]).account_name == a.account_name
            && accs[j].id != Some(aid) {
            Some(StoreError::DuplicateName)
        } else {
            None
        },
    }
}

/// A row after an update: every field replaced except id and the
/// creation stamp.
pub open spec fn updated_account(r: AccountView, a: AccountView, now: Seq<char>) -> AccountView {
    AccountView {
        id: r.id,
        account_name: a.account_name,
        api_type: a.api_type,
        api_key: a.api_key,
        api_key_secret: a.api_key_secret,
        access_token: a.access_token,
        access_token_secret: a.access_token_secret,
        status: a.status,
        created_at: r.created_at,
        updated_at: Some(now),
    }
}

/// The account table after an update by id.
pub open spec fn update_accounts(
    rows: Seq<AccountView>,
    a: AccountView,
    now: Seq<char>,
) -> Seq<AccountView> {
    rows.map_values(
        |r: AccountView|
            if r.id == a.id {
                updated_account(r, a, now)
            } else {
                r
            },
    )
}

/// The account table without the given id.
pub open spec fn remove_account(accs: Seq<AccountView>, id: i64) -> Seq<AccountView>
    decreases accs.len(),
{
    if accs.len() == 0 {
        Seq::empty()
    } else {
        let pre = remove_account(accs.drop_last(), id);
        if accs.last().id == Some(id) {
            pre
        } else {
            pre.push(accs.last())
        }
    }
}

/// The config rows of other accounts.
pub open spec fn remove_configs_for(rows: Seq<ConfigView>, id: i64) -> Seq<ConfigView>
    decreases rows.len(),
{
    if rows.len() == 0 {
        Seq::empty()
    } else {
        let pre = remove_configs_for(rows.drop_last(), id);
        if rows.last().account_id == id {
            pre
        } else {
            pre.push(rows.last())
        }
    }
}

/// The schedule rows of other accounts.
pub open spec fn remove_scheds_for(rows: Seq<ScheduleView>, id: i64) -> Seq<ScheduleView>
    decreases rows.len(),
{
    if rows.len() == 0 {
        Seq::empty()
    } else {
        let pre = remove_scheds_for(rows.drop_last(), id);
        if rows.last().account_id == id {
            pre
        } else {
            pre.push(rows.last())
        }
    }
}

/// The log rows of other accounts.
pub open spec fn remove_logs_for(rows: Seq<LogView>, id: i64) -> Seq<LogView>
    decreases rows.len(),
{
    if rows.len() == 0 {
        Seq::empty()
    } else {
        let pre = remove_logs_for(rows.drop_last(), id);
        if rows.last().account_id == id {
            pre
        } else {
            pre.push(rows.last())
        }
    }
}

/// The target list without the deleted id.
pub open spec fn remove_val(ts: Seq<i64>, id: i64) -> Seq<i64>
    decreases ts.len(),
{
    if ts.len() == 0 {
        Seq::empty()
    } else {
        let pre = remove_val(ts.drop_last(), id);
        if ts.last() == id {
            pre
        } else {
            pre.push(ts.last())
        }
    }
}

/// Whether the cascade keeps a reply row: rows owned by the deleted
/// account go, and so does an active row whose decodable target set
/// becomes empty once the id is removed.
pub open spec fn cascade_keep(r: ReplyView, id: i64) -> bool {
    &&& r.reply_bot_id != id
    &&& !(r.is_active && (ids_of(r.target_bot_ids) matches Some(ts)
        && ts.len() > 0 && remove_val(ts, id).len() == 0))
}

/// A kept reply row after the cascade: an active row that lost the id
/// from its targets is rewritten with a fresh stamp.
pub open spec fn cascade_heal(r: ReplyView, id: i64, now: Seq<char>) -> ReplyView {
    if r.is_active {
        match ids_of(r.target_bot_ids) {
            Some(ts) => {
                let v = remove_val(ts, id);
                if v.len() == ts.len() {
                    r
                } else {
                    ReplyView { target_bot_ids: encode_ids_spec(v), updated_at: now, ..r }
                }
            },
            None => r,
        }
    } else {
        r
    }
}

/// The reply table after the cascade's own two passes (before the
/// closing reclamation sweep).
pub open spec fn cascade_replies(rows: Seq<ReplyView>, id: i64, now: Seq<char>) -> Seq<
    ReplyView,
>
    decreases rows.len(),
{
    if rows.len() == 0 {
        Seq::empty()
    } else {
        let pre = cascade_replies(rows.drop_last(), id, now);
        if cascade_keep(rows.last(), id) {
            pre.push(cascade_heal(rows.last(), id, now))
        } else {
            pre
        }
    }
}

/// The cascade keeps reply ids well formed and unique.
pub proof fn lemma_cascade_wf(rows: Seq<ReplyView>, id: i64, now: Seq<char>, next: int)
    requires
        crate::store::reply_rows_ok(rows, next),
        crate::store::reply_ids_unique(rows),
    ensures
        crate::store::reply_rows_ok(cascade_replies(rows, id, now), next),
        crate::store::reply_ids_unique(cascade_replies(rows, id, now)),
        cascade_replies(rows, id, now).len() <= rows.len(),
        forall|k: int| 0 <= k < cascade_replies(rows, id, now).len() ==>
            exists|j: int| 0 <= j < rows.len()
                && (#[trigger] cascade_replies(rows, id, now)[k]).id == rows[j].id,
    decreases rows.len(),
{
    if rows.len() > 0 {
        let head = rows.drop_last();
        assert(crate::store::reply_rows_ok(head, next));
        assert(crate::store::reply_ids_unique(head));
        lemma_cascade_wf(head, id, now, next);
        let pre = cascade_replies(head, id, now);
        if cascade_keep(rows.last(), id) {
            let h = cascade_heal(rows.last(), id, now);
            assert(h.id == rows.last().id);
            let res = pre.push(h);
            assert forall|k: int| 0 <= k < res.len() implies
                exists|j: int| 0 <= j < rows.len()
                    && (#[trigger] res[k]).id == rows[j].id by {
                if k < pre.len() {
                    let j0 = choose|j0: int| 0 <= j0 < head.len()
                        && (#[trigger] pre[k]).id == head[j0].id;
                    assert(res[k].id == rows[j0].id);
                } else {
                    assert(res[k].id == rows[rows.len() - 1].id);
                }
            }
            assert(crate::store::reply_ids_unique(res)) by {
                assert forall|i: int, j: int| 0 <= i < j < res.len() implies
                    (#[trigger] res[i]).id != (#[trigger] res[j]).id by {
                    if j == res.len() - 1 {
                        let j0 = choose|j0: int| 0 <= j0 < head.len()
                            && (#[trigger] res[i]).id == head[j0].id;
                        assert(rows[j0].id != rows[rows.len() - 1].id);
                    }
                }
            }
        } else {
            assert forall|k: int| 0 <= k < pre.len() implies
                exists|j: int| 0 <= j < rows.len()
                    && (#[trigger] pre[k]).id == rows[j].id by {
                let j0 = choose|j0: int| 0 <= j0 < head.len()
                    && (#[trigger] pre[k]).id == head[j0].id;
                assert(pre[k].id == rows[j0].id);
            }
        }
    }
}

/// Removing an account keeps the account table well formed.
proof fn lemma_remove_account_wf(accs: Seq<AccountView>, id: i64, next: int)
    requires
        crate::store::account_rows_ok(accs, next),
        crate::store::account_ids_unique(accs),
        crate::store::account_names_unique(accs),
    ensures
        crate::store::account_rows_ok(remove_account(accs, id), next),
        crate::store::account_ids_unique(remove_account(accs, id)),
        crate::store::account_names_unique(remove_account(accs, id)),
        forall|k: int| 0 <= k < remove_account(accs, id).len() ==>
            exists|j: int| 0 <= j < accs.len()
                && #[trigger] remove_account(accs, id)[k] == accs[j],
    decreases accs.len(),
{
    if accs.len() > 0 {
        let head = accs.drop_last();
        assert(crate::store::account_rows_ok(head, next));
        assert(crate::store::account_ids_unique(head));
        assert(crate::store::account_names_unique(head));
        lemma_remove_account_wf(head, id, next);
        let pre = remove_account(head, id);
        if accs.last().id != Some(id) {
            let res = pre.push(accs.last());
            assert forall|k: int| 0 <= k < res.len() implies
                exists|j: int| 0 <= j < accs.len() && #[trigger] res[k] == accs[j] by {
                if k < pre.len() {
                    let j0 = choose|j0: int| 0 <= j0 < head.len() && pre[k] == head[j0];
                    assert(res[k] == accs[j0]);
                } else {
                    assert(res[k] == accs[accs.len() - 1]);
                }
            }
            assert(crate::store::account_ids_unique(res)
                && crate::store::account_names_unique(res)) by {
                assert forall|i: int, j: int| 0 <= i < j < res.len() implies
                    (#[trigger] res[i]).id != (#[trigger] res[j]).id
                    && res[i].account_name != res[j].account_name by {
                    if j == res.len() - 1 {
                        let j0 = choose|j0: int| 0 <= j0 < head.len()
                            && res[i] == head[j0];
                        assert(accs[j0].id != accs[accs.len() - 1].id);
                        assert(accs[j0].account_name != accs[accs.len() - 1].account_name);
                    }
                }
            }
        } else {
            assert forall|k: int| 0 <= k < pre.len() implies
                exists|j: int| 0 <= j < accs.len() && #[trigger] pre[k] == accs[j] by {
                let j0 = choose|j0: int| 0 <= j0 < head.len() && pre[k] == head[j0];
                assert(pre[k] == accs[j0]);
            }
        }
    }
}

/// Removing an account's schedules keeps the table well formed.
proof fn lemma_remove_scheds_wf(rows: Seq<ScheduleView>, id: i64, next: int)
    requires
        crate::store::schedule_rows_ok(rows, next),
        crate::store::schedule_ids_unique(rows),
    ensures
        crate::store::schedule_rows_ok(remove_scheds_for(rows, id), next),
        crate::store::schedule_ids_unique(remove_scheds_for(rows, id)),
    decreases rows.len(),
{
    if rows.len() > 0 {
        let head = rows.drop_last();
        assert(crate::store::schedule_rows_ok(head, next));
        assert(crate::store::schedule_ids_unique(head));
        lemma_remove_scheds_wf(head, id, next);
        lemma_remove_scheds_sub(rows, id);
        let pre = remove_scheds_for(head, id);
        if rows.last().account_id != id {
            let res = pre.push(rows.last());
            assert(crate::store::schedule_ids_unique(res)) by {
                assert forall|i: int, j: int| 0 <= i < j < res.len() implies
                    (#[trigger] res[i]).id != (#[trigger] res[j]).id by {
                    if j == res.len() - 1 {
                        lemma_remove_scheds_sub(head, id);
                        let j0 = choose|j0: int| 0 <= j0 < head.len()
                            && #[trigger] pre[i] == head[j0];
                        assert(rows[j0].id != rows[rows.len() - 1].id);
                    }
                }
            }
        }
    }
}

/// Every surviving schedule row already stood in the table.
proof fn lemma_remove_scheds_sub(rows: Seq<ScheduleView>, id: i64)
    ensures
        forall|k: int| 0 <= k < remove_scheds_for(rows, id).len() ==>
            exists|j: int| 0 <= j < rows.len()
                && #[trigger] remove_scheds_for(rows, id)[k] == rows[j],
    decreases rows.len(),
{
    if rows.len() > 0 {
        let head = rows.drop_last();
        lemma_remove_scheds_sub(head, id);
        let pre = remove_scheds_for(head, id);
        let res = remove_scheds_for(rows, id);
        assert forall|k: int| 0 <= k < res.len() implies
            exists|j: int| 0 <= j < rows.len() && #[trigger] res[k] == rows[j] by {
            if k < pre.len() {
                let j0 = choose|j0: int| 0 <= j0 < head.len() && pre[k] == head[j0];
                assert(res[k] == rows[j0]);
            } else {
                assert(res[k] == rows[rows.len() - 1]);
            }
        }
    }
}

impl Store {
    /// Creates an account, rejecting blank required fields and a
    /// duplicate name, and creates its default configuration row.
    /// Returns the new account id.
    #[verifier::loop_isolation(false)]
    pub fn insert_bot_account(&mut self, account: &BotAccount, now: &str) -> (r: Result<
        i64,
        StoreError,
    >)
        requires
            old(self)@.wf(),
            old(self)@.next_account_id < i64::MAX as int,
            old(self)@.next_config_id < i64::MAX as int,
        ensures
            final(self)@.wf(),
            same_but_registry(old(self)@, final(self)@),
            (r matches Err(e) ==> final(self)@ == old(self)@
                && insert_account_err(old(self)@.accounts, account@) == Some(e)),
            (r matches Ok(id) ==> {
                &&& insert_account_err(old(self)@.accounts, account@) is None
                &&& id as int == old(self)@.next_account_id
                &&& final(self)@.accounts == old(self)@.accounts.push(
                    inserted_account(id as int, account@, now@))
                &&& final(self)@.configs == old(self)@.configs.push(
                    default_config(old(self)@.next_config_id, id, now@))
                &&& final(self)@.next_account_id == old(self)@.next_account_id + 1
                &&& final(self)@.next_config_id == old(self)@.next_config_id + 1
            }),
    {
        if is_blank(account.account_name.as_str()) || is_blank(account.api_key.as_str())
            || is_blank(account.api_key_secret.as_str())
            || is_blank(account.access_token.as_str())
            || is_blank(account.access_token_secret.as_str()) {
            return Err(StoreError::BlankField);
        }
        let ghost accs = self@.accounts;
        let mut j: usize = 0;
        while j < self.accounts.len()
            invariant
                0 <= j <= self.accounts@.len(),
                forall|k: int| 0 <= k < j ==>
                    (#[trigger] accs[k]).account_name != account@.account_name,
            decreases self.accounts@.len() - j,
        {
            if str_eq(self.accounts[j].account_name.as_str(), account.account_name.as_str()) {
                assert(accs[j as int].account_name == account@.account_name);
                return Err(StoreError::DuplicateName);
            }
            j = j + 1;
        }
        assert(!has_name(accs, account@.account_name));
        let id = self.next_account_id;
        let cid = self.next_config_id;
        let mut row = account.duplicate();
        row.id = Some(id);
        row.created_at = Some(now.to_owned());
        row.updated_at = Some(now.to_owned());
        let config = BotConfig {
            id: Some(cid),
            account_id: id,
            is_enabled: false,
            auto_tweet_enabled: false,
            tweet_interval_minutes: 60,
            tweet_templates: None,
            hashtags: None,
            created_at: now.to_owned(),
            updated_at: now.to_owned(),
        };
        proof {
            assert(row@ =~= inserted_account(id as int, account@, now@));
            assert(config@ =~= default_config(cid as int, id, now@));
        }
        let ghost pre_accounts = self@.accounts;
        let ghost pre_configs = self@.configs;
        self.accounts.push(row);
        self.configs.push(config);
        self.next_account_id = id + 1;
        self.next_config_id = cid + 1;
        proof {
            assert(self@.accounts
                =~~= pre_accounts.push(inserted_account(id as int, account@, now@)));
            assert(self@.configs
                =~~= pre_configs.push(default_config(cid as int, id, now@)));
            let post = self@.accounts;
            assert forall|i: int| 0 <= i < post.len() implies
                ((#[trigger] post[i]).id matches Some(k)
                    && 1 <= k < self@.next_account_id) by {
                if i < pre_accounts.len() {
                    assert(post[i] == pre_accounts[i]);
                }
            }
            assert forall|i: int, k: int| 0 <= i < k < post.len() implies
                (#[trigger] post[i]).id != (#[trigger] post[k]).id
                && post[i].account_name != post[k].account_name by {
                if k < pre_accounts.len() {
                    assert(post[i] == pre_accounts[i]);
                    assert(post[k] == pre_accounts[k]);
                } else {
                    assert(post[i] == pre_accounts[i]);
                    assert(!has_name(pre_accounts, account@.account_name));
                }
            }
        }
        Ok(id)
    }

    /// Rewrites an account's fields in place by id, keeping the
    /// creation stamp. An update without an id, or to a name held by
    /// a different account, is rejected; an absent id is a no-op.
    #[verifier::loop_isolation(false)]
    pub fn update_bot_account(&mut self, account: &BotAccount, now: &str) -> (r: Result<
        (),
        StoreError,
    >)
        requires
            old(self)@.wf(),
        ensures
            final(self)@.wf(),
            same_but_registry(old(self)@, final(self)@),
            final(self)@.configs == old(self)@.configs,
            final(self)@.next_account_id == old(self)@.next_account_id,
            final(self)@.next_config_id == old(self)@.next_config_id,
            (r matches Err(e) ==> final(self)@ == old(self)@
                && update_account_err(old(self)@.accounts, account@) == Some(e)),
            r is Ok ==> {
                &&& update_account_err(old(self)@.accounts, account@) is None
                &&& final(self)@.accounts == update_accounts(old(self)@.accounts,
                    account@, now@)
            },
    {
        let aid = match account.id {
            Some(aid) => aid,
            None => {
                return Err(StoreError::MissingId);
            },
        };
        let ghost accs = self@.accounts;
        let mut j: usize = 0;
        while j < self.accounts.len()
            invariant
                0 <= j <= self.accounts@.len(),
                forall|k: int| 0 <= k < j ==>
                    !((#[trigger] accs[k]).account_name == account@.account_name
                        && accs[k].id != Some(aid)),
            decreases self.accounts@.len() - j,
        {
            let same_name = str_eq(self.accounts[j].account_name.as_str(),
                account.account_name.as_str());
            let other = match self.accounts[j].id {
                Some(k) => k != aid,
                None => true,
            };
            if same_name && other {
                assert(accs[j as int].account_name == account@.account_name
                    && accs[j as int].id != Some(aid));
                return Err(StoreError::DuplicateName);
            }
            j = j + 1;
        }
        let ghost pre_accounts = self@.accounts;
        let mut out: Vec<BotAccount> = Vec::new();
        let mut m: usize = 0;
        proof {
            assert(out@.map_values(|x: BotAccount| x@)
                =~~= update_accounts(pre_accounts.take(0), account@, now@));
        }
        while m < self.accounts.len()
            invariant
                0 <= m <= self.accounts@.len(),
                pre_accounts == self@.accounts,
                out@.map_values(|x: BotAccount| x@)
                    =~~= update_accounts(pre_accounts.take(m as int), account@, now@),
            decreases self.accounts@.len() - m,
        {
            let ghost out_pre = out@;
            let row = &self.accounts[m];
            let matches_id = match row.id {
                Some(k) => k == aid,
                None => false,
            };
            if matches_id {
                let mut d = account.duplicate();
                d.id = row.id;
                d.created_at = crate::models::copy_opt(&row.created_at);
                d.updated_at = Some(now.to_owned());
                out.push(d);
                assert(out@.last()@ =~= updated_account(pre_accounts[m as int], account@,
                    now@));
            } else {
                out.push(row.duplicate());
            }
            m = m + 1;
            proof {
                assert(out@.map_values(|x: BotAccount| x@)
                    =~~= out_pre.map_values(|x: BotAccount| x@).push(out@.last()@));
                assert(update_accounts(pre_accounts.take(m as int), account@, now@)
                    =~~= update_accounts(pre_accounts.take(m - 1), account@, now@)
                        .push(update_accounts(pre_accounts, account@, now@)[m - 1]));
                assert(out@.map_values(|x: BotAccount| x@)
                    =~~= update_accounts(pre_accounts.take(m as int), account@, now@));
            }
        }
        self.accounts = out;
        proof {
            assert(pre_accounts.take(pre_accounts.len() as int) =~= pre_accounts);
            let post = self@.accounts;
            assert(post == update_accounts(pre_accounts, account@, now@));
            assert forall|i: int| 0 <= i < post.len() implies
                ((#[trigger] post[i]).id matches Some(k)
                    && 1 <= k < self@.next_account_id) by {
                assert(post[i].id == pre_accounts[i].id);
            }
            assert forall|i: int, k: int| 0 <= i < k < post.len() implies
                (#[trigger] post[i]).id != (#[trigger] post[k]).id
                && post[i].account_name != post[k].account_name by {
                assert(post[i].id == pre_accounts[i].id);
                assert(post[k].id == pre_accounts[k].id);
                if pre_accounts[i].id == Some(aid) {
                    assert(post[k].account_name == pre_accounts[k].account_name);
                    assert(!(pre_accounts[k].account_name == account@.account_name
                        && pre_accounts[k].id != Some(aid)));
                } else if pre_accounts[k].id == Some(aid) {
                    assert(post[i].account_name == pre_accounts[i].account_name);
                    assert(!(pre_accounts[i].account_name == account@.account_name
                        && pre_accounts[i].id != Some(aid)));
                }
            }
        }
        Ok(())
    }

    /// The account with the given id.
    #[verifier::loop_isolation(false)]
    pub fn find_bot_account_by_id(&self, id: i64) -> (r: Result<BotAccount, StoreError>)
        ensures
            (r matches Ok(a) ==> exists|j: int| 0 <= j < self@.accounts.len()
                && #[trigger] self@.accounts[j] == a@ && a@.id == Some(id)),
            (r matches Err(e) ==> e == StoreError::NotFound
                && !has_account(self@.accounts, id)),
    {
        let mut j: usize = 0;
        while j < self.accounts.len()
            invariant
                0 <= j <= self.accounts@.len(),
                forall|k: int| 0 <= k < j ==>
                    (#[trigger] self@.accounts[k]).id != Some(id),
            decreases self.accounts@.len() - j,
        {
            let found = match self.accounts[j].id {
                Some(k) => k == id,
                None => false,
            };
            if found {
                let a = self.accounts[j].duplicate();
                assert(self@.accounts[j as int] == a@);
                return Ok(a);
            }
            assert(self@.accounts[j as int].id != Some(id));
            j = j + 1;
        }
        Err(StoreError::NotFound)
    }

    /// Every account, newest first.
    #[verifier::loop_isolation(false)]
    pub fn fetch_all_bots(&self) -> (r: Vec<BotAccount>)
        ensures
            r@.map_values(|x: BotAccount| x@) == self@.accounts.reverse(),
    {
        let ghost rows = self@.accounts;
        let mut result: Vec<BotAccount> = Vec::new();
        let mut k: usize = self.accounts.len();
        while k > 0
            invariant
                0 <= k <= rows.len(),
                rows == self@.accounts,
                result@.len() == rows.len() - k,
                forall|i: int| 0 <= i < result@.len() ==>
                    (#[trigger] result@[i])@ == rows[rows.len() - 1 - i],
            decreases k,
        {
            k = k - 1;
            result.push(self.accounts[k].duplicate());
        }
        proof {
            assert(result@.map_values(|x: BotAccount| x@) =~~= rows.reverse());
        }
        result
    }

    /// The configuration row of an account.
    #[verifier::loop_isolation(false)]
    pub fn get_bot_config(&self, account_id: i64) -> (r: Result<BotConfig, StoreError>)
        ensures
            (r matches Ok(c) ==> exists|j: int| 0 <= j < self@.configs.len()
                && #[trigger] self@.configs[j] == c@ && c@.account_id == account_id),
            (r matches Err(e) ==> e == StoreError::NotFound
                && forall|j: int| 0 <= j < self@.configs.len() ==>
                    (#[trigger] self@.configs[j]).account_id != account_id),
    {
        let mut j: usize = 0;
        while j < self.configs.len()
            invariant
                0 <= j <= self.configs@.len(),
                forall|k: int| 0 <= k < j ==>
                    (#[trigger] self@.configs[k]).account_id != account_id,
            decreases self.configs@.len() - j,
        {
            if self.configs[j].account_id == account_id {
                let c = self.configs[j].duplicate();
                assert(self@.configs[j as int] == c@);
                return Ok(c);
            }
            j = j + 1;
        }
        Err(StoreError::NotFound)
    }

    /// Rewrites the configuration fields of an account in place; an
    /// account with no configuration row is a no-op.
    #[verifier::loop_isolation(false)]
    pub fn update_bot_config(&mut self, config: &BotConfig, now: &str)
        requires
            old(self)@.wf(),
        ensures
            final(self)@.wf(),
            same_but_registry(old(self)@, final(self)@),
            final(self)@.accounts == old(self)@.accounts,
            final(self)@.next_account_id == old(self)@.next_account_id,
            final(self)@.next_config_id == old(self)@.next_config_id,
            final(self)@.configs == old(self)@.configs.map_values(
                |c: ConfigView|
                    if c.account_id == config@.account_id {
                        ConfigView {
                            is_enabled: config@.is_enabled,
                            auto_tweet_enabled: config@.auto_tweet_enabled,
                            tweet_interval_minutes: config@.tweet_interval_minutes,
                            tweet_templates: config@.tweet_templates,
                            hashtags: config@.hashtags,
                            updated_at: now@,
                            ..c
                        }
                    } else {
                        c
                    },
            ),
    {
        let ghost pre_configs = self@.configs;
        let ghost f = |c: ConfigView|
            if c.account_id == config@.account_id {
                ConfigView {
                    is_enabled: config@.is_enabled,
                    auto_tweet_enabled: config@.auto_tweet_enabled,
                    tweet_interval_minutes: config@.tweet_interval_minutes,
                    tweet_templates: config@.tweet_templates,
                    hashtags: config@.hashtags,
                    updated_at: now@,
                    ..c
                }
            } else {
                c
            };
        let mut out: Vec<BotConfig> = Vec::new();
        let mut m: usize = 0;
        proof {
            assert(out@.map_values(|x: BotConfig| x@)
                =~~= pre_configs.take(0).map_values(f));
        }
        while m < self.configs.len()
            invariant
                0 <= m <= self.configs@.len(),
                pre_configs == self@.configs,
                out@.map_values(|x: BotConfig| x@)
                    =~~= pre_configs.take(m as int).map_values(f),
            decreases self.configs@.len() - m,
        {
            let ghost out_pre = out@;
            let row = &self.configs[m];
            if row.account_id == config.account_id {
                let mut d = row.duplicate();
                d.is_enabled = config.is_enabled;
                d.auto_tweet_enabled = config.auto_tweet_enabled;
                d.tweet_interval_minutes = config.tweet_interval_minutes;
                d.tweet_templates = crate::models::copy_opt(&config.tweet_templates);
                d.hashtags = crate::models::copy_opt(&config.hashtags);
                d.updated_at = now.to_owned();
                out.push(d);
                assert(out@.last()@ =~= f(pre_configs[m as int]));
            } else {
                out.push(row.duplicate());
            }
            m = m + 1;
            proof {
                assert(out@.map_values(|x: BotConfig| x@)
                    =~~= out_pre.map_values(|x: BotConfig| x@).push(out@.last()@));
                assert(pre_configs.take(m as int).map_values(f)
                    =~~= pre_configs.take(m - 1).map_values(f)
                        .push(f(pre_configs[m - 1])));
            }
        }
        self.configs = out;
        proof {
            assert(pre_configs.take(pre_configs.len() as int) =~= pre_configs);
        }
    }

    /// Deletes an account with the full cascade: its own reply rows
    /// go; the id is removed from every other active row's targets,
    /// deleting rows left without targets; its configuration,
    /// schedule, and log rows go; the account row goes; and a closing
    /// reclamation sweep runs.
    #[verifier::loop_isolation(false)]
    pub fn delete_bot_account(&mut self, id: i64, now: &str)
        requires
            old(self)@.wf(),
        ensures
            final(self)@.wf(),
            final(self)@.accounts == remove_account(old(self)@.accounts, id),
            final(self)@.configs == remove_configs_for(old(self)@.configs, id),
            final(self)@.schedules == remove_scheds_for(old(self)@.schedules, id),
            final(self)@.logs == remove_logs_for(old(self)@.logs, id),
            final(self)@.replies == reclaim_rows(remove_account(old(self)@.accounts, id),
                cascade_replies(old(self)@.replies, id, now@), now@),
            final(self)@.user == old(self)@.user,
            final(self)@.next_account_id == old(self)@.next_account_id,
            final(self)@.next_config_id == old(self)@.next_config_id,
            final(self)@.next_reply_id == old(self)@.next_reply_id,
            final(self)@.next_schedule_id == old(self)@.next_schedule_id,
            final(self)@.next_log_id == old(self)@.next_log_id,
    {
        let ghost pre = self@;
        // Pass one and two over the reply rows.
        let mut out: Vec<ReplySettings> = Vec::new();
        let mut j: usize = 0;
        proof {
            assert(out@.map_values(|x: ReplySettings| x@)
                =~~= cascade_replies(pre.replies.take(0), id, now@));
        }
        while j < self.replies.len()
            invariant
                0 <= j <= self.replies@.len(),
                pre == self@,
                out@.map_values(|x: ReplySettings| x@)
                    =~~= cascade_replies(pre.replies.take(j as int), id, now@),
            decreases self.replies@.len() - j,
        {
            let ghost out_pre = out@;
            let ghost rv = pre.replies[j as int];
            let row = &self.replies[j];
            if row.reply_bot_id == id {
                assert(!cascade_keep(rv, id));
            } else if row.is_active {
                match decode_ids(row.target_bot_ids.as_str()) {
                    Some(ts) => {
                        let ghost tsv = ts@;
                        let mut kept: Vec<i64> = Vec::new();
                        let mut q: usize = 0;
                        proof {
                            assert(kept@ =~= remove_val(tsv.take(0), id));
                        }
                        while q < ts.len()
                            invariant
                                0 <= q <= ts@.len(),
                                tsv == ts@,
                                kept@ =~= remove_val(tsv.take(q as int), id),
                            decreases ts@.len() - q,
                        {
                            if ts[q] != id {
                                kept.push(ts[q]);
                            }
                            q = q + 1;
                            proof {
                                assert(tsv.take(q as int).drop_last()
                                    =~= tsv.take(q - 1));
                                assert(tsv.take(q as int).last() == tsv[q - 1]);
                            }
                        }
                        proof {
                            assert(tsv.take(tsv.len() as int) =~= tsv);
                        }
                        if kept.len() == ts.len() {
                            out.push(row.duplicate());
                            assert(cascade_keep(rv, id)
                                && cascade_heal(rv, id, now@) == rv);
                        } else if kept.len() == 0 {
                            assert(!cascade_keep(rv, id));
                        } else {
                            let mut h = row.duplicate();
                            h.target_bot_ids = encode_ids(&kept);
                            h.updated_at = now.to_owned();
                            out.push(h);
                            assert(cascade_keep(rv, id));
                            assert(h@ =~= cascade_heal(rv, id, now@));
                        }
                    }
                    None => {
                        out.push(row.duplicate());
                        assert(cascade_keep(rv, id)
                            && cascade_heal(rv, id, now@) == rv);
                    }
                }
            } else {
                out.push(row.duplicate());
                assert(cascade_keep(rv, id) && cascade_heal(rv, id, now@) == rv);
            }
            j = j + 1;
            proof {
                assert(pre.replies.take(j as int).drop_last() =~= pre.replies.take(j - 1));
                assert(pre.replies.take(j as int).last() == rv);
                if cascade_keep(rv, id) {
                    assert(out@.map_values(|x: ReplySettings| x@)
                        =~~= out_pre.map_values(|x: ReplySettings| x@)
                            .push(cascade_heal(rv, id, now@)));
                }
                assert(out@.map_values(|x: ReplySettings| x@)
                    =~~= cascade_replies(pre.replies.take(j as int), id, now@));
            }
        }
        self.replies = out;
        proof {
            assert(pre.replies.take(pre.replies.len() as int) =~= pre.replies);
            lemma_cascade_wf(pre.replies, id, now@, pre.next_reply_id);
        }
        // Remove the account row itself.
        let mut accs_out: Vec<BotAccount> = Vec::new();
        let mut a: usize = 0;
        proof {
            assert(accs_out@.map_values(|x: BotAccount| x@)
                =~~= remove_account(pre.accounts.take(0), id));
        }
        while a < self.accounts.len()
            invariant
                0 <= a <= self.accounts@.len(),
                pre.accounts == self@.accounts,
                accs_out@.map_values(|x: BotAccount| x@)
                    =~~= remove_account(pre.accounts.take(a as int), id),
            decreases self.accounts@.len() - a,
        {
            let ghost out_pre = accs_out@;
            let row = &self.accounts[a];
            let keep = match row.id {
                Some(k) => k != id,
                None => true,
            };
            if keep {
                accs_out.push(row.duplicate());
            }
            a = a + 1;
            proof {
                assert(pre.accounts.take(a as int).drop_last()
                    =~= pre.accounts.take(a - 1));
                assert(pre.accounts.take(a as int).last() == pre.accounts[a - 1]);
                if keep {
                    assert(accs_out@.map_values(|x: BotAccount| x@)
                        =~~= out_pre.map_values(|x: BotAccount| x@)
                            .push(pre.accounts[a - 1]));
                }
                assert(accs_out@.map_values(|x: BotAccount| x@)
                    =~~= remove_account(pre.accounts.take(a as int), id));
            }
        }
        self.accounts = accs_out;
        proof {
            assert(pre.accounts.take(pre.accounts.len() as int) =~= pre.accounts);
            lemma_remove_account_wf(pre.accounts, id, pre.next_account_id);
        }
        // Storage-level cascades: configuration, schedules, and logs.
        let mut cfg_out: Vec<BotConfig> = Vec::new();
        let mut c: usize = 0;
        proof {
            assert(cfg_out@.map_values(|x: BotConfig| x@)
                =~~= remove_configs_for(pre.configs.take(0), id));
        }
        while c < self.configs.len()
            invariant
                0 <= c <= self.configs@.len(),
                pre.configs == self@.configs,
                cfg_out@.map_values(|x: BotConfig| x@)
                    =~~= remove_configs_for(pre.configs.take(c as int), id),
            decreases self.configs@.len() - c,
        {
            let ghost out_pre = cfg_out@;
            if self.configs[c].account_id != id {
                cfg_out.push(self.configs[c].duplicate());
            }
            c = c + 1;
            proof {
                assert(pre.configs.take(c as int).drop_last() =~= pre.configs.take(c - 1));
                assert(pre.configs.take(c as int).last() == pre.configs[c - 1]);
                if pre.configs[c - 1].account_id != id {
                    assert(cfg_out@.map_values(|x: BotConfig| x@)
                        =~~= out_pre.map_values(|x: BotConfig| x@)
                            .push(pre.configs[c - 1]));
                }
                assert(cfg_out@.map_values(|x: BotConfig| x@)
                    =~~= remove_configs_for(pre.configs.take(c as int), id));
            }
        }
        self.configs = cfg_out;
        let mut sch_out: Vec<crate::models::ScheduledTweet> = Vec::new();
        let mut s: usize = 0;
        proof {
            assert(pre.configs.take(pre.configs.len() as int) =~= pre.configs);
            assert(sch_out@.map_values(|x: crate::models::ScheduledTweet| x@)
                =~~= remove_scheds_for(pre.schedules.take(0), id));
        }
        while s < self.schedules.len()
            invariant
                0 <= s <= self.schedules@.len(),
                pre.schedules == self@.schedules,
                sch_out@.map_values(|x: crate::models::ScheduledTweet| x@)
                    =~~= remove_scheds_for(pre.schedules.take(s as int), id),
            decreases self.schedules@.len() - s,
        {
            let ghost out_pre = sch_out@;
            if self.schedules[s].account_id != id {
                sch_out.push(self.schedules[s].duplicate());
            }
            s = s + 1;
            proof {
                assert(pre.schedules.take(s as int).drop_last()
                    =~= pre.schedules.take(s - 1));
                assert(pre.schedules.take(s as int).last() == pre.schedules[s - 1]);
                if pre.schedules[s - 1].account_id != id {
                    assert(sch_out@.map_values(|x: crate::models::ScheduledTweet| x@)
                        =~~= out_pre.map_values(|x: crate::models::ScheduledTweet| x@)
                            .push(pre.schedules[s - 1]));
                }
                assert(sch_out@.map_values(|x: crate::models::ScheduledTweet| x@)
                    =~~= remove_scheds_for(pre.schedules.take(s as int), id));
            }
        }
        self.schedules = sch_out;
        proof {
            assert(pre.schedules.take(pre.schedules.len() as int) =~= pre.schedules);
            lemma_remove_scheds_wf(pre.schedules, id, pre.next_schedule_id);
        }
        let mut log_out: Vec<crate::models::ExecutionLog> = Vec::new();
        let mut g: usize = 0;
        proof {
            assert(log_out@.map_values(|x: crate::models::ExecutionLog| x@)
                =~~= remove_logs_for(pre.logs.take(0), id));
        }
        while g < self.logs.len()
            invariant
                0 <= g <= self.logs@.len(),
                pre.logs == self@.logs,
                log_out@.map_values(|x: crate::models::ExecutionLog| x@)
                    =~~= remove_logs_for(pre.logs.take(g as int), id),
            decreases self.logs@.len() - g,
        {
            let ghost out_pre = log_out@;
            if self.logs[g].account_id != id {
                log_out.push(self.logs[g].duplicate());
            }
            g = g + 1;
            proof {
                assert(pre.logs.take(g as int).drop_last() =~= pre.logs.take(g - 1));
                assert(pre.logs.take(g as int).last() == pre.logs[g - 1]);
                if pre.logs[g - 1].account_id != id {
                    assert(log_out@.map_values(|x: crate::models::ExecutionLog| x@)
                        =~~= out_pre.map_values(|x: crate::models::ExecutionLog| x@)
                            .push(pre.logs[g - 1]));
                }
                assert(log_out@.map_values(|x: crate::models::ExecutionLog| x@)
                    =~~= remove_logs_for(pre.logs.take(g as int), id));
            }
        }
        self.logs = log_out;
        proof {
            assert(pre.logs.take(pre.logs.len() as int) =~= pre.logs);
        }
        // The defensive closing pass.
        let _ = self.cleanup_orphaned_reply_settings(now);
    }

    /// Dashboard counters: account totals, and log counters for the
    /// given day (a `YYYY-MM-DD` string).
    #[verifier::loop_isolation(false)]
    pub fn fetch_dashboard_stats(&self, today: &str) -> (r: DashboardStats)
        requires
            self@.accounts.len() <= i32::MAX as int,
            self@.logs.len() <= i32::MAX as int,
        ensures
            r.total_accounts == self@.accounts.len(),
            r.active_accounts == count_active_accounts(self@.accounts),
            r.today_tweets == count_logs(self@.logs, "tweet"@, Some(today@)),
            r.total_tweets == count_logs(self@.logs, "tweet"@, None),
            r.error_count == count_errors_on(self@.logs, today@),
    {
        let total_accounts: i32 = self.accounts.len() as i32;
        let ghost accs = self@.accounts;
        let mut active: i32 = 0;
        let mut j: usize = 0;
        proof {
            assert(count_active_accounts(accs.take(0)) == 0);
        }
        while j < self.accounts.len()
            invariant
                0 <= j <= self.accounts@.len(),
                active == count_active_accounts(accs.take(j as int)),
                0 <= active <= j,
            decreases self.accounts@.len() - j,
        {
            if str_eq(self.accounts[j].status.as_str(), "active") {
                active = active + 1;
            }
            j = j + 1;
            proof {
                assert(accs.take(j as int).drop_last() =~= accs.take(j - 1));
                assert(accs.take(j as int).last() == accs[j - 1]);
            }
        }
        proof {
            assert(accs.take(accs.len() as int) =~= accs);
        }
        let ghost logs = self@.logs;
        let mut today_tweets: i32 = 0;
        let mut total_tweets: i32 = 0;
        let mut errors: i32 = 0;
        let mut g: usize = 0;
        proof {
            assert(count_logs(logs.take(0), "tweet"@, Some(today@)) == 0);
            assert(count_logs(logs.take(0), "tweet"@, None) == 0);
            assert(count_errors_on(logs.take(0), today@) == 0);
        }
        while g < self.logs.len()
            invariant
                0 <= g <= self.logs@.len(),
                today_tweets == count_logs(logs.take(g as int), "tweet"@, Some(today@)),
                total_tweets == count_logs(logs.take(g as int), "tweet"@, None),
                errors == count_errors_on(logs.take(g as int), today@),
                0 <= today_tweets <= g,
                0 <= total_tweets <= g,
                0 <= errors <= g,
            decreases self.logs@.len() - g,
        {
            let is_tweet = str_eq(self.logs[g].log_type.as_str(), "tweet");
            let on_day = date_matches(self.logs[g].created_at.as_str(), today);
            if is_tweet {
                total_tweets = total_tweets + 1;
                if on_day {
                    today_tweets = today_tweets + 1;
                }
            }
            if str_eq(self.logs[g].status.as_str(), "error") && on_day {
                errors = errors + 1;
            }
            g = g + 1;
            proof {
                assert(logs.take(g as int).drop_last() =~= logs.take(g - 1));
                assert(logs.take(g as int).last() == logs[g - 1]);
            }
        }
        proof {
            assert(logs.take(logs.len() as int) =~= logs);
        }
        DashboardStats {
            total_accounts: total_accounts,
            active_accounts: active,
            today_tweets: today_tweets,
            total_tweets: total_tweets,
            error_count: errors,
        }
    }
}

/// A timestamp falls on a day when its first ten characters are that
/// `YYYY-MM-DD` string.
pub open spec fn on_day(ts: Seq<char>, day: Seq<char>) -> bool {
    day.len() == 10 && ts.len() >= 10 && ts.take(10) == day
}

/// The number of accounts whose status is `active`.
pub open spec fn count_active_accounts(accs: Seq<AccountView>) -> int
    decreases accs.len(),
{
    if accs.len() == 0 {
        0
    } else {
        count_active_accounts(accs.drop_last())
            + if accs.last().status == "active"@ { 1int } else { 0int }
    }
}

/// The number of log rows of a type, optionally restricted to a day.
pub open spec fn count_logs(logs: Seq<LogView>, ty: Seq<char>, day: Option<Seq<char>>) -> int
    decreases logs.len(),
{
    if logs.len() == 0 {
        0
    } else {
        count_logs(logs.drop_last(), ty, day) + if logs.last().log_type == ty && (match day {
            Some(d) => on_day(logs.last().created_at, d),
            None => true,
        }) { 1int } else { 0int }
    }
}

/// The number of log rows with error status on a day.
pub open spec fn count_errors_on(logs: Seq<LogView>, day: Seq<char>) -> int
    decreases logs.len(),
{
    if logs.len() == 0 {
        0
    } else {
        count_errors_on(logs.drop_last(), day)
            + if logs.last().status == "error"@ && on_day(logs.last().created_at, day) {
                1int
            } else {
                0int
            }
    }
}

/// Whether a timestamp falls on the given day.
pub fn date_matches(ts: &str, day: &str) -> (r: bool)
    ensures
        r == on_day(ts@, day@),
{
    let dn = day.unicode_len();
    let tn = ts.unicode_len();
    if dn != 10 || tn < 10 {
        return false;
    }
    let prefix = ts.substring_char(0, 10);
    proof {
        assert(prefix@ =~= ts@.take(10));
    }
    str_eq(prefix, day)
}

} // verus!
