//! Tests of the store: saves, the self-healing read, the reclamation
//! sweep, the cascade, rotation, migration, and the smaller tables.

use twilia::entries::parse_entry;
use twilia::models::BotAccount;
use twilia::models::ExecutionLog;
use twilia::models::LegacyReplyRow;
use twilia::models::ReplySettings;
use twilia::models::ScheduledTweet;
use twilia::store::Store;
use twilia::store::StoreError;
use twilia::strcodec::decode_strs;

fn account(name: &str) -> BotAccount {
    BotAccount {
        id: None,
        account_name: name.to_string(),
        api_type: "Free".to_string(),
        api_key: "k".to_string(),
        api_key_secret: "ks".to_string(),
        access_token: "t".to_string(),
        access_token_secret: "ts".to_string(),
        status: "active".to_string(),
        created_at: None,
        updated_at: None,
    }
}

fn store_with_accounts(names: &[&str]) -> Store {
    let mut s = Store::new("2024-01-01T00:00:00Z");
    for n in names {
        s.insert_bot_account(&account(n), "2024-01-01T00:00:00Z").unwrap();
    }
    s
}

#[test]
fn scenario_delete_target_empties_row() {
    // Accounts 1 and 2 exist; a reply watching 2 loses its only
    // target when account 2 is deleted, so the row goes away.
    let mut s = store_with_accounts(&["one", "two"]);
    let id = s.save_reply_settings(1, &vec![2], "hi", "2024-01-02T00:00:00Z").unwrap();
    assert_eq!(id, 1);
    assert_eq!(s.count_active_reply_settings(), 1);
    assert_eq!(s.replies[0].target_bot_ids, "[2]");
    s.delete_bot_account(2, "2024-01-03T00:00:00Z");
    let listed = s.fetch_reply_settings("2024-01-04T00:00:00Z");
    assert!(listed.is_empty());
    assert!(s.replies.is_empty());
}

#[test]
fn scenario_rotation_cycle() {
    // A three-item list: three advances take the cursor 1, 2, 0.
    let mut s = store_with_accounts(&["one"]);
    let list = vec!["a".to_string(), "b".to_string(), "c".to_string()];
    s.save_scheduled_tweet_list(1, "09:00", &list, "2024-01-02T00:00:00Z");
    let mut seen = Vec::new();
    for _ in 0..3 {
        s.update_post_index(1, "2024-01-02T01:00:00Z").unwrap();
        let rows = s.fetch_scheduled_tweets(Some(1));
        assert_eq!(rows.len(), 1);
        seen.push(rows[0].current_index.unwrap());
    }
    assert_eq!(seen, vec![1, 2, 0]);
}

#[test]
fn scenario_migration_fan_out() {
    // One legacy row with two repliers becomes two singleton rows.
    let mut s = store_with_accounts(&[]);
    let legacy = vec![LegacyReplyRow {
        target_bot_id: 5,
        reply_bot_ids: "[1,2]".to_string(),
        reply_content: "ok".to_string(),
        created_at: "2023-12-31T00:00:00Z".to_string(),
        last_checked_tweet_id: Some("999".to_string()),
    }];
    let n = s.migrate_reply_settings(&legacy, "2024-01-01T00:00:00Z").unwrap();
    assert_eq!(n, 2);
    assert_eq!(s.replies.len(), 2);
    for (i, expected_replier) in [(0usize, 1i64), (1usize, 2i64)] {
        let row = &s.replies[i];
        assert_eq!(row.reply_bot_id, expected_replier);
        assert_eq!(row.target_bot_ids, "[5]");
        assert_eq!(row.reply_content, "ok");
        assert!(row.is_active);
        assert_eq!(row.created_at, "2023-12-31T00:00:00Z");
        let token = row.last_checked_tweet_ids.clone().unwrap();
        let entries = decode_strs(&token).unwrap();
        assert_eq!(entries.len(), 1);
        assert_eq!(parse_entry(&entries[0]), Some((5, "999".to_string())));
    }
}

#[test]
fn scenario_single_active_version() {
    // Two saves for one replier: one active row remains, the first
    // row persists deactivated.
    let mut s = store_with_accounts(&["one", "two", "three"]);
    s.save_reply_settings(1, &vec![2], "x", "2024-01-02T00:00:00Z").unwrap();
    s.save_reply_settings(1, &vec![3], "y", "2024-01-03T00:00:00Z").unwrap();
    assert_eq!(s.count_active_reply_settings(), 1);
    assert_eq!(s.replies.len(), 2);
    assert!(!s.replies[0].is_active);
    assert_eq!(s.replies[0].reply_content, "x");
    let listed = s.fetch_reply_settings("2024-01-04T00:00:00Z");
    assert_eq!(listed.len(), 1);
    assert_eq!(listed[0].reply_bot_id, 1);
    assert_eq!(listed[0].reply_content, "y");
    assert_eq!(listed[0].target_bot_ids, "[3]");
}

#[test]
fn reclaim_removes_orphans_and_is_idempotent() {
    let mut s = store_with_accounts(&["one", "two"]);
    s.save_reply_settings(1, &vec![2], "watching", "2024-01-02T00:00:00Z").unwrap();
    // A row whose replier no longer exists, and a corrupt active row.
    s.replies.push(ReplySettings {
        id: Some(90),
        target_bot_ids: "[1]".to_string(),
        reply_bot_id: 77,
        reply_content: "orphan".to_string(),
        is_active: false,
        last_checked_tweet_ids: None,
        created_at: "2024-01-01T00:00:00Z".to_string(),
        updated_at: "2024-01-01T00:00:00Z".to_string(),
    });
    s.replies.push(ReplySettings {
        id: Some(91),
        target_bot_ids: "oops".to_string(),
        reply_bot_id: 1,
        reply_content: "corrupt".to_string(),
        is_active: true,
        last_checked_tweet_ids: None,
        created_at: "2024-01-01T00:00:00Z".to_string(),
        updated_at: "2024-01-01T00:00:00Z".to_string(),
    });
    s.next_reply_id = 100;
    let removed = s.cleanup_orphaned_reply_settings("2024-01-05T00:00:00Z");
    assert_eq!(removed, 2);
    assert_eq!(s.replies.len(), 1);
    assert_eq!(s.replies[0].reply_content, "watching");
    let removed_again = s.cleanup_orphaned_reply_settings("2024-01-06T00:00:00Z");
    assert_eq!(removed_again, 0);
}

#[test]
fn reclaim_shrinks_partial_target_sets() {
    let mut s = store_with_accounts(&["one", "two", "three"]);
    s.save_reply_settings(1, &vec![2, 3], "multi", "2024-01-02T00:00:00Z").unwrap();
    // Make account 3 vanish without the cascade, then sweep.
    s.accounts.retain(|a| a.id != Some(3));
    let removed = s.cleanup_orphaned_reply_settings("2024-01-05T00:00:00Z");
    assert_eq!(removed, 0);
    assert_eq!(s.replies.len(), 1);
    assert_eq!(s.replies[0].target_bot_ids, "[2]");
    assert_eq!(s.replies[0].updated_at, "2024-01-05T00:00:00Z");
}

#[test]
fn save_reply_validation_errors() {
    let mut s = store_with_accounts(&["one", "two"]);
    assert_eq!(
        s.save_reply_settings(1, &vec![2], "   ", "t"),
        Err(StoreError::EmptyContent)
    );
    assert_eq!(
        s.save_reply_settings(1, &vec![], "hi", "t"),
        Err(StoreError::EmptyTargets)
    );
    assert_eq!(
        s.save_reply_settings(7, &vec![2], "hi", "t"),
        Err(StoreError::MissingAccount(7))
    );
    assert_eq!(
        s.save_reply_settings(1, &vec![2, 9, 2], "hi", "t"),
        Err(StoreError::MissingAccount(9))
    );
    assert_eq!(s.replies.len(), 0);
}

#[test]
fn record_last_seen_sets_one_key() {
    let mut s = store_with_accounts(&["one", "two", "three"]);
    s.save_reply_settings(1, &vec![2, 3], "hi", "2024-01-02T00:00:00Z").unwrap();
    s.update_last_checked_tweet(1, 2, "111", "2024-01-03T00:00:00Z");
    s.update_last_checked_tweet(1, 3, "222", "2024-01-04T00:00:00Z");
    s.update_last_checked_tweet(1, 2, "333", "2024-01-05T00:00:00Z");
    let token = s.replies[0].last_checked_tweet_ids.clone().unwrap();
    let mut entries: Vec<(i64, String)> = decode_strs(&token)
        .unwrap()
        .iter()
        .map(|e| parse_entry(e).unwrap())
        .collect();
    entries.sort();
    assert_eq!(entries, vec![(2, "333".to_string()), (3, "222".to_string())]);
    // A replier without an active row is left alone.
    let before = s.replies[0].last_checked_tweet_ids.clone();
    s.update_last_checked_tweet(42, 2, "9", "2024-01-06T00:00:00Z");
    assert_eq!(s.replies[0].last_checked_tweet_ids, before);
}

#[test]
fn delete_reply_setting_removes_by_id() {
    let mut s = store_with_accounts(&["one", "two"]);
    let id = s.save_reply_settings(1, &vec![2], "hi", "t").unwrap();
    s.delete_reply_setting(id);
    assert!(s.replies.is_empty());
    // Deleting a missing id is a no-op.
    s.delete_reply_setting(12345);
    assert!(s.replies.is_empty());
}

#[test]
fn schedule_saves_supersede() {
    let mut s = store_with_accounts(&["one"]);
    let list = vec!["a".to_string(), "b".to_string()];
    s.save_scheduled_tweet_list(1, "09:00", &list, "2024-01-02T00:00:00Z");
    s.save_single_scheduled_tweet(1, "10:00", "solo", "2024-01-03T00:00:00Z");
    assert_eq!(s.schedules.len(), 2);
    assert!(!s.schedules[0].is_active);
    assert!(s.schedules[1].is_active);
    assert_eq!(s.schedules[1].content, "solo");
    assert_eq!(s.schedules[1].content_list, None);
    // Empty inputs clear the schedule without inserting.
    s.save_single_scheduled_tweet(1, "", "solo", "2024-01-04T00:00:00Z");
    assert_eq!(s.schedules.len(), 2);
    assert!(!s.schedules[1].is_active);
    let listed = s.fetch_scheduled_tweets(Some(1));
    assert!(listed.is_empty());
}

#[test]
fn schedule_list_save_sets_primary_and_cursor() {
    let mut s = store_with_accounts(&["one"]);
    let list = vec!["first".to_string(), "second".to_string()];
    s.save_scheduled_tweet_list(1, "09:00", &list, "2024-01-02T00:00:00Z");
    let rows = s.fetch_scheduled_tweets(Some(1));
    assert_eq!(rows.len(), 1);
    assert_eq!(rows[0].content, "first");
    assert_eq!(rows[0].current_index, Some(0));
    let tok = rows[0].content_list.clone().unwrap();
    assert_eq!(decode_strs(&tok), Some(list));
}

#[test]
fn advance_edge_cases() {
    let mut s = store_with_accounts(&["one"]);
    // No active schedule at all.
    assert_eq!(s.update_post_index(1, "t"), Err(StoreError::NotFound));
    // A single-content schedule has no list: advancing is a no-op.
    s.save_single_scheduled_tweet(1, "09:00", "solo", "t");
    assert_eq!(s.update_post_index(1, "t"), Ok(()));
    assert_eq!(s.fetch_scheduled_tweets(Some(1))[0].current_index, Some(0));
    // A corrupt list is an error.
    s.schedules[0].content_list = Some("not a token".to_string());
    assert_eq!(s.update_post_index(1, "t"), Err(StoreError::CorruptList));
}

#[test]
fn add_scheduled_tweet_defaults_cursor() {
    let mut s = store_with_accounts(&["one"]);
    let t = ScheduledTweet {
        id: None,
        account_id: 1,
        content: "c".to_string(),
        content_list: None,
        current_index: None,
        scheduled_times: "09:00".to_string(),
        is_active: true,
        created_at: String::new(),
        updated_at: String::new(),
    };
    let id = s.add_scheduled_tweet(&t, "2024-01-02T00:00:00Z");
    assert_eq!(id, 1);
    assert_eq!(s.schedules[0].current_index, Some(0));
    assert_eq!(s.schedules[0].created_at, "2024-01-02T00:00:00Z");
}

#[test]
fn migration_rejects_exhausted_ids() {
    let mut s = Store::new("t");
    s.next_reply_id = i64::MAX - 1;
    let legacy = vec![LegacyReplyRow {
        target_bot_id: 5,
        reply_bot_ids: "[1,2]".to_string(),
        reply_content: "ok".to_string(),
        created_at: "t".to_string(),
        last_checked_tweet_id: None,
    }];
    assert_eq!(
        s.migrate_reply_settings(&legacy, "t"),
        Err(StoreError::IdsExhausted)
    );
    assert!(s.replies.is_empty());
}

#[test]
fn migration_skips_undecodable_rows() {
    let mut s = Store::new("t");
    let legacy = vec![
        LegacyReplyRow {
            target_bot_id: 5,
            reply_bot_ids: "not a list".to_string(),
            reply_content: "bad".to_string(),
            created_at: "t".to_string(),
            last_checked_tweet_id: None,
        },
        LegacyReplyRow {
            target_bot_id: 6,
            reply_bot_ids: "[9]".to_string(),
            reply_content: "good".to_string(),
            created_at: "t".to_string(),
            last_checked_tweet_id: None,
        },
    ];
    let n = s.migrate_reply_settings(&legacy, "now").unwrap();
    assert_eq!(n, 1);
    assert_eq!(s.replies.len(), 1);
    assert_eq!(s.replies[0].reply_bot_id, 9);
    assert_eq!(s.replies[0].last_checked_tweet_ids, Some("[]".to_string()));
}

#[test]
fn account_registry_basics() {
    let mut s = Store::new("t0");
    let id = s.insert_bot_account(&account("alpha"), "t1").unwrap();
    assert_eq!(id, 1);
    assert_eq!(
        s.insert_bot_account(&account("alpha"), "t2"),
        Err(StoreError::DuplicateName)
    );
    let mut blank = account("beta");
    blank.api_key = "  ".to_string();
    assert_eq!(s.insert_bot_account(&blank, "t2"), Err(StoreError::BlankField));
    assert!(s.bot_exists(1));
    assert!(!s.bot_exists(2));
    let found = s.find_bot_account_by_id(1).unwrap();
    assert_eq!(found.account_name, "alpha");
    assert_eq!(found.created_at, Some("t1".to_string()));
    assert_eq!(
        s.find_bot_account_by_id(9).unwrap_err(),
        StoreError::NotFound
    );
    // The default configuration row came with the account.
    let cfg = s.get_bot_config(1).unwrap();
    assert_eq!(cfg.tweet_interval_minutes, 60);
    assert!(!cfg.is_enabled);
    assert_eq!(s.get_bot_config(7).unwrap_err(), StoreError::NotFound);
}

#[test]
fn account_update_rules() {
    let mut s = Store::new("t0");
    s.insert_bot_account(&account("alpha"), "t1").unwrap();
    s.insert_bot_account(&account("beta"), "t1").unwrap();
    let mut upd = account("beta");
    upd.id = None;
    assert_eq!(s.update_bot_account(&upd, "t2"), Err(StoreError::MissingId));
    // Renaming onto another account's name is rejected.
    upd.id = Some(1);
    assert_eq!(
        s.update_bot_account(&upd, "t2"),
        Err(StoreError::DuplicateName)
    );
    // Keeping one's own name is fine.
    let mut ok = account("alpha");
    ok.id = Some(1);
    ok.status = "inactive".to_string();
    assert_eq!(s.update_bot_account(&ok, "t2"), Ok(()));
    assert_eq!(s.accounts[0].status, "inactive");
    assert_eq!(s.accounts[0].created_at, Some("t1".to_string()));
    assert_eq!(s.accounts[0].updated_at, Some("t2".to_string()));
}

#[test]
fn fetch_all_bots_newest_first() {
    let mut s = Store::new("t0");
    s.insert_bot_account(&account("alpha"), "t1").unwrap();
    s.insert_bot_account(&account("beta"), "t2").unwrap();
    let all = s.fetch_all_bots();
    assert_eq!(all.len(), 2);
    assert_eq!(all[0].account_name, "beta");
    assert_eq!(all[1].account_name, "alpha");
}

#[test]
fn cascade_shrinks_other_rows() {
    let mut s = store_with_accounts(&["one", "two", "three"]);
    s.save_reply_settings(1, &vec![2, 3], "hi", "t1").unwrap();
    s.save_scheduled_tweet_list(
        3,
        "09:00",
        &vec!["x".to_string()],
        "t1",
    );
    s.delete_bot_account(3, "t2");
    assert!(!s.bot_exists(3));
    assert_eq!(s.replies.len(), 1);
    assert_eq!(s.replies[0].target_bot_ids, "[2]");
    assert!(s.schedules.is_empty());
    assert_eq!(s.configs.len(), 2);
}

#[test]
fn dashboard_counts() {
    let mut s = store_with_accounts(&["one", "two"]);
    let mut inactive = account("three");
    inactive.status = "inactive".to_string();
    s.insert_bot_account(&inactive, "t").unwrap();
    let log = |ty: &str, status: &str| ExecutionLog {
        id: None,
        account_id: 1,
        log_type: ty.to_string(),
        message: "m".to_string(),
        tweet_id: None,
        tweet_content: None,
        status: status.to_string(),
        created_at: String::new(),
    };
    s.insert_execution_log(&log("tweet", "success"), "2024-01-02T10:00:00Z");
    s.insert_execution_log(&log("tweet", "success"), "2024-01-03T10:00:00Z");
    s.insert_execution_log(&log("other", "error"), "2024-01-03T11:00:00Z");
    let stats = s.fetch_dashboard_stats("2024-01-03");
    assert_eq!(stats.total_accounts, 3);
    assert_eq!(stats.active_accounts, 2);
    assert_eq!(stats.total_tweets, 2);
    assert_eq!(stats.today_tweets, 1);
    assert_eq!(stats.error_count, 1);
}

#[test]
fn logs_fetch_with_limit() {
    let mut s = store_with_accounts(&["one"]);
    for i in 0..3 {
        let l = ExecutionLog {
            id: None,
            account_id: if i == 1 { 2 } else { 1 },
            log_type: "tweet".to_string(),
            message: format!("m{}", i),
            tweet_id: None,
            tweet_content: None,
            status: "success".to_string(),
            created_at: String::new(),
        };
        s.insert_execution_log(&l, "t");
    }
    let all = s.fetch_execution_logs(None, 100);
    assert_eq!(all.len(), 3);
    assert_eq!(all[0].message, "m2");
    let two = s.fetch_execution_logs(None, 2);
    assert_eq!(two.len(), 2);
    assert_eq!(two[0].message, "m2");
    assert_eq!(two[1].message, "m1");
    let only_one = s.fetch_execution_logs(Some(1), 100);
    assert_eq!(only_one.len(), 2);
    assert_eq!(only_one[0].message, "m2");
    assert_eq!(only_one[1].message, "m0");
}

#[test]
fn user_settings_update() {
    let mut s = Store::new("t0");
    let u = s.fetch_user_settings();
    assert_eq!(u.user_id, "default");
    assert_eq!(u.plan_type, "starter");
    assert_eq!(u.max_accounts, 999);
    let mut upd = u;
    upd.plan_type = "pro".to_string();
    upd.max_accounts = 5;
    s.update_user_settings(&upd, "t1");
    let u2 = s.fetch_user_settings();
    assert_eq!(u2.plan_type, "pro");
    assert_eq!(u2.max_accounts, 5);
    assert_eq!(u2.updated_at, "t1");
    assert_eq!(u2.created_at, "t0");
}

#[test]
fn update_bot_config_rewrites_fields() {
    let mut s = store_with_accounts(&["one"]);
    let mut cfg = s.get_bot_config(1).unwrap();
    cfg.is_enabled = true;
    cfg.tweet_interval_minutes = 15;
    cfg.hashtags = Some("#x".to_string());
    s.update_bot_config(&cfg, "t9");
    let got = s.get_bot_config(1).unwrap();
    assert!(got.is_enabled);
    assert_eq!(got.tweet_interval_minutes, 15);
    assert_eq!(got.hashtags, Some("#x".to_string()));
    assert_eq!(got.updated_at, "t9");
}

#[test]
fn post_outcome_shapes_log_and_response() {
    let ok: Result<String, String> = Ok("12345".to_string());
    let (log, resp) = twilia::posting::post_outcome(7, "hello", &ok, "t1");
    assert_eq!(log.account_id, 7);
    assert_eq!(log.log_type, "tweet");
    assert_eq!(log.status, "success");
    assert_eq!(log.tweet_id, Some("12345".to_string()));
    assert_eq!(log.tweet_content, Some("hello".to_string()));
    assert_eq!(log.created_at, "t1");
    assert!(resp.success);
    assert_eq!(resp.tweet_id, Some("12345".to_string()));

    let err: Result<String, String> = Err("boom".to_string());
    let (log2, resp2) = twilia::posting::post_outcome(7, "hello", &err, "t2");
    assert_eq!(log2.log_type, "error");
    assert_eq!(log2.status, "error");
    assert_eq!(log2.tweet_id, None);
    assert_eq!(log2.message, "posting failed: boom");
    assert!(!resp2.success);
    assert_eq!(resp2.message, "posting failed: boom");
}

#[test]
fn empty_content_list_clears_schedule() {
    let mut s = store_with_accounts(&["one"]);
    s.save_scheduled_tweet_list(1, "09:00", &vec!["a".to_string()], "t1");
    assert_eq!(s.fetch_scheduled_tweets(Some(1)).len(), 1);
    let empty: Vec<String> = vec![];
    s.save_scheduled_tweet_list(1, "09:00", &empty, "t2");
    assert!(s.fetch_scheduled_tweets(Some(1)).is_empty());
    assert_eq!(s.schedules.len(), 1);
    assert!(!s.schedules[0].is_active);
}

#[test]
fn read_heals_stored_rows() {
    let mut s = store_with_accounts(&["one", "two", "three"]);
    s.save_reply_settings(1, &vec![2, 3], "hi", "t1").unwrap();
    s.accounts.retain(|a| a.id != Some(3));
    let listed = s.fetch_reply_settings("t2");
    assert_eq!(listed.len(), 1);
    assert_eq!(listed[0].target_bot_ids, "[2]");
    // The healed copy was persisted, not just returned.
    assert_eq!(s.replies[0].target_bot_ids, "[2]");
    assert_eq!(s.replies[0].updated_at, "t2");
}
