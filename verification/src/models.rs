//! The record types held by the store, and their spec-level views.

use vstd::prelude::*;

verus! {

/// A managed bot account: the root entity.
#[derive(Debug)]
pub struct BotAccount {
    pub id: Option<i64>,
    pub account_name: String,
    pub api_type: String,
    pub api_key: String,
    pub api_key_secret: String,
    pub access_token: String,
    pub access_token_secret: String,
    pub status: String,
    pub created_at: Option<String>,
    pub updated_at: Option<String>,
}

/// Per-account configuration, created together with the account.
#[derive(Debug)]
pub struct BotConfig {
    pub id: Option<i64>,
    pub account_id: i64,
    pub is_enabled: bool,
    pub auto_tweet_enabled: bool,
    pub tweet_interval_minutes: i32,
    pub tweet_templates: Option<String>,
    pub hashtags: Option<String>,
    pub created_at: String,
    pub updated_at: String,
}

/// A rotating content schedule row.
#[derive(Debug)]
pub struct ScheduledTweet {
    pub id: Option<i64>,
    pub account_id: i64,
    pub content: String,
    pub content_list: Option<String>,
    pub current_index: Option<i32>,
    pub scheduled_times: String,
    pub is_active: bool,
    pub created_at: String,
    pub updated_at: String,
}

/// One execution log entry.
#[derive(Debug)]
pub struct ExecutionLog {
    pub id: Option<i64>,
    pub account_id: i64,
    pub log_type: String,
    pub message: String,
    pub tweet_id: Option<String>,
    pub tweet_content: Option<String>,
    pub status: String,
    pub created_at: String,
}

/// A reply relationship row: one replier watching a set of targets.
/// `target_bot_ids` and `last_checked_tweet_ids` hold encoded
/// multi-value fields.
#[derive(Debug)]
pub struct ReplySettings {
    pub id: Option<i64>,
    pub target_bot_ids: String,
    pub reply_bot_id: i64,
    pub reply_content: String,
    pub is_active: bool,
    pub last_checked_tweet_ids: Option<String>,
    pub created_at: String,
    pub updated_at: String,
}

/// Per-installation settings, a single row.
#[derive(Debug)]
pub struct UserSettings {
    pub id: Option<i64>,
    pub user_id: String,
    pub plan_type: String,
    pub max_accounts: i32,
    pub created_at: String,
    pub updated_at: String,
}

/// Aggregate counters for the dashboard.
#[derive(Debug)]
pub struct DashboardStats {
    pub total_accounts: i32,
    pub active_accounts: i32,
    pub today_tweets: i32,
    pub total_tweets: i32,
    pub error_count: i32,
}

/// A request to post one piece of content from one account.
#[derive(Debug)]
pub struct TestTweetRequest {
    pub account_id: i64,
    pub content: String,
}

/// The outcome of a posting attempt.
#[derive(Debug)]
pub struct TwitterApiResponse {
    pub success: bool,
    pub tweet_id: Option<String>,
    pub message: String,
}

/// A row of the legacy reply-relationship layout: one target, an
/// encoded list of repliers, and at most one last-seen id.
#[derive(Debug)]
pub struct LegacyReplyRow {
    pub target_bot_id: i64,
    pub reply_bot_ids: String,
    pub reply_content: String,
    pub created_at: String,
    pub last_checked_tweet_id: Option<String>,
}

pub open spec fn opt_view(o: Option<String>) -> Option<Seq<char>> {
    match o {
        Some(s) => Some(s@),
        None => None,
    }
}

#[verifier::ext_equal]
pub struct AccountView {
    pub id: Option<i64>,
    pub account_name: Seq<char>,
    pub api_type: Seq<char>,
    pub api_key: Seq<char>,
    pub api_key_secret: Seq<char>,
    pub access_token: Seq<char>,
    pub access_token_secret: Seq<char>,
    pub status: Seq<char>,
    pub created_at: Option<Seq<char>>,
    pub updated_at: Option<Seq<char>>,
}

impl View for BotAccount {
    type V = AccountView;

    open spec fn view(&self) -> AccountView {
        AccountView {
            id: self.id,
            account_name: self.account_name@,
            api_type: self.api_type@,
            api_key: self.api_key@,
            api_key_secret: self.api_key_secret@,
            access_token: self.access_token@,
            access_token_secret: self.access_token_secret@,
            status: self.status@,
            created_at: opt_view(self.created_at),
            updated_at: opt_view(self.updated_at),
        }
    }
}

#[verifier::ext_equal]
pub struct ConfigView {
    pub id: Option<i64>,
    pub account_id: i64,
    pub is_enabled: bool,
    pub auto_tweet_enabled: bool,
    pub tweet_interval_minutes: i32,
    pub tweet_templates: Option<Seq<char>>,
    pub hashtags: Option<Seq<char>>,
    pub created_at: Seq<char>,
    pub updated_at: Seq<char>,
}

impl View for BotConfig {
    type V = ConfigView;

    open spec fn view(&self) -> ConfigView {
        ConfigView {
            id: self.id,
            account_id: self.account_id,
            is_enabled: self.is_enabled,
            auto_tweet_enabled: self.auto_tweet_enabled,
            tweet_interval_minutes: self.tweet_interval_minutes,
            tweet_templates: opt_view(self.tweet_templates),
            hashtags: opt_view(self.hashtags),
            created_at: self.created_at@,
            updated_at: self.updated_at@,
        }
    }
}

#[verifier::ext_equal]
pub struct ScheduleView {
    pub id: Option<i64>,
    pub account_id: i64,
    pub content: Seq<char>,
    pub content_list: Option<Seq<char>>,
    pub current_index: Option<i32>,
    pub scheduled_times: Seq<char>,
    pub is_active: bool,
    pub created_at: Seq<char>,
    pub updated_at: Seq<char>,
}

impl View for ScheduledTweet {
    type V = ScheduleView;

    open spec fn view(&self) -> ScheduleView {
        ScheduleView {
            id: self.id,
            account_id: self.account_id,
            content: self.content@,
            content_list: opt_view(self.content_list),
            current_index: self.current_index,
            scheduled_times: self.scheduled_times@,
            is_active: self.is_active,
            created_at: self.created_at@,
            updated_at: self.updated_at@,
        }
    }
}

#[verifier::ext_equal]
pub struct LogView {
    pub id: Option<i64>,
    pub account_id: i64,
    pub log_type: Seq<char>,
    pub message: Seq<char>,
    pub tweet_id: Option<Seq<char>>,
    pub tweet_content: Option<Seq<char>>,
    pub status: Seq<char>,
    pub created_at: Seq<char>,
}

impl View for ExecutionLog {
    type V = LogView;

    open spec fn view(&self) -> LogView {
        LogView {
            id: self.id,
            account_id: self.account_id,
            log_type: self.log_type@,
            message: self.message@,
            tweet_id: opt_view(self.tweet_id),
            tweet_content: opt_view(self.tweet_content),
            status: self.status@,
            created_at: self.created_at@,
        }
    }
}

#[verifier::ext_equal]
pub struct ReplyView {
    pub id: Option<i64>,
    pub target_bot_ids: Seq<char>,
    pub reply_bot_id: i64,
    pub reply_content: Seq<char>,
    pub is_active: bool,
    pub last_checked_tweet_ids: Option<Seq<char>>,
    pub created_at: Seq<char>,
    pub updated_at: Seq<char>,
}

impl View for ReplySettings {
    type V = ReplyView;

    open spec fn view(&self) -> ReplyView {
        ReplyView {
            id: self.id,
            target_bot_ids: self.target_bot_ids@,
            reply_bot_id: self.reply_bot_id,
            reply_content: self.reply_content@,
            is_active: self.is_active,
            last_checked_tweet_ids: opt_view(self.last_checked_tweet_ids),
            created_at: self.created_at@,
            updated_at: self.updated_at@,
        }
    }
}

#[verifier::ext_equal]
pub struct UserView {
    pub id: Option<i64>,
    pub user_id: Seq<char>,
    pub plan_type: Seq<char>,
    pub max_accounts: i32,
    pub created_at: Seq<char>,
    pub updated_at: Seq<char>,
}

impl View for UserSettings {
    type V = UserView;

    open spec fn view(&self) -> UserView {
        UserView {
            id: self.id,
            user_id: self.user_id@,
            plan_type: self.plan_type@,
            max_accounts: self.max_accounts,
            created_at: self.created_at@,
            updated_at: self.updated_at@,
        }
    }
}

#[verifier::ext_equal]
pub struct LegacyView {
    pub target_bot_id: i64,
    pub reply_bot_ids: Seq<char>,
    pub reply_content: Seq<char>,
    pub created_at: Seq<char>,
    pub last_checked_tweet_id: Option<Seq<char>>,
}

impl View for LegacyReplyRow {
    type V = LegacyView;

    open spec fn view(&self) -> LegacyView {
        LegacyView {
            target_bot_id: self.target_bot_id,
            reply_bot_ids: self.reply_bot_ids@,
            reply_content: self.reply_content@,
            created_at: self.created_at@,
            last_checked_tweet_id: opt_view(self.last_checked_tweet_id),
        }
    }
}

/// Copies an optional string.
pub fn copy_opt(o: &Option<String>) -> (r: Option<String>)
    ensures
        opt_view(r) == opt_view(*o),
{
    match o {
        Some(s) => Some(s.clone()),
        None => None,
    }
}

impl BotAccount {
    /// A field-for-field copy.
    pub fn duplicate(&self) -> (r: BotAccount)
        ensures
            r@ == self@,
    {
        let r = BotAccount {
            id: self.id,
            account_name: self.account_name.clone(),
            api_type: self.api_type.clone(),
            api_key: self.api_key.clone(),
            api_key_secret: self.api_key_secret.clone(),
            access_token: self.access_token.clone(),
            access_token_secret: self.access_token_secret.clone(),
            status: self.status.clone(),
            created_at: copy_opt(&self.created_at),
            updated_at: copy_opt(&self.updated_at),
        };
        assert(r@ =~= self@);
        r
    }
}

impl BotConfig {
    /// A field-for-field copy.
    pub fn duplicate(&self) -> (r: BotConfig)
        ensures
            r@ == self@,
    {
        let r = BotConfig {
            id: self.id,
            account_id: self.account_id,
            is_enabled: self.is_enabled,
            auto_tweet_enabled: self.auto_tweet_enabled,
            tweet_interval_minutes: self.tweet_interval_minutes,
            tweet_templates: copy_opt(&self.tweet_templates),
            hashtags: copy_opt(&self.hashtags),
            created_at: self.created_at.clone(),
            updated_at: self.updated_at.clone(),
        };
        assert(r@ =~= self@);
        r
    }
}

impl ScheduledTweet {
    /// A field-for-field copy.
    pub fn duplicate(&self) -> (r: ScheduledTweet)
        ensures
            r@ == self@,
    {
        let r = ScheduledTweet {
            id: self.id,
            account_id: self.account_id,
            content: self.content.clone(),
            content_list: copy_opt(&self.content_list),
            current_index: self.current_index,
            scheduled_times: self.scheduled_times.clone(),
            is_active: self.is_active,
            created_at: self.created_at.clone(),
            updated_at: self.updated_at.clone(),
        };
        assert(r@ =~= self@);
        r
    }
}

impl ExecutionLog {
    /// A field-for-field copy.
    pub fn duplicate(&self) -> (r: ExecutionLog)
        ensures
            r@ == self@,
    {
        let r = ExecutionLog {
            id: self.id,
            account_id: self.account_id,
            log_type: self.log_type.clone(),
            message: self.message.clone(),
            tweet_id: copy_opt(&self.tweet_id),
            tweet_content: copy_opt(&self.tweet_content),
            status: self.status.clone(),
            created_at: self.created_at.clone(),
        };
        assert(r@ =~= self@);
        r
    }
}

impl ReplySettings {
    /// A field-for-field copy.
    pub fn duplicate(&self) -> (r: ReplySettings)
        ensures
            r@ == self@,
    {
        let r = ReplySettings {
            id: self.id,
            target_bot_ids: self.target_bot_ids.clone(),
            reply_bot_id: self.reply_bot_id,
            reply_content: self.reply_content.clone(),
            is_active: self.is_active,
            last_checked_tweet_ids: copy_opt(&self.last_checked_tweet_ids),
            created_at: self.created_at.clone(),
            updated_at: self.updated_at.clone(),
        };
        assert(r@ =~= self@);
        r
    }
}

impl UserSettings {
    /// A field-for-field copy.
    pub fn duplicate(&self) -> (r: UserSettings)
        ensures
            r@ == self@,
    {
        let r = UserSettings {
            id: self.id,
            user_id: self.user_id.clone(),
            plan_type: self.plan_type.clone(),
            max_accounts: self.max_accounts,
            created_at: self.created_at.clone(),
            updated_at: self.updated_at.clone(),
        };
        assert(r@ =~= self@);
        r
    }
}

} // verus!
