//! The decision part of a posting attempt: what gets logged and what
//! gets reported for each outcome of the network call. The call
//! itself is outside work; this function takes its result as an
//! argument and is verified for every value of it.

use vstd::prelude::*;

verus! {

use crate::models::ExecutionLog;
use crate::models::TwitterApiResponse;

/// The log row and the caller-facing response for one posting
/// outcome: a success records the item id and the content under a
/// `tweet` entry; a failure records the error under an `error` entry.
pub fn post_outcome(
    account_id: i64,
    content: &str,
    outcome: &Result<String, String>,
    now: &str,
) -> (r: (ExecutionLog, TwitterApiResponse))
    ensures
        r.0.account_id == account_id,
        r.0.id is None,
        r.0.created_at@ == now@,
        r.0.tweet_content matches Some(c) && c@ == content@,
        (outcome matches Ok(tid) ==> {
            &&& r.0.log_type@ == "tweet"@
            &&& r.0.status@ == "success"@
            &&& r.0.tweet_id matches Some(t) && t@ == tid@
            &&& r.1.success
            &&& r.1.tweet_id matches Some(t2) && t2@ == tid@
        }),
        (outcome matches Err(e) ==> {
            &&& r.0.log_type@ == "error"@
            &&& r.0.status@ == "error"@
            &&& r.0.tweet_id is None
            &&& r.0.message@ == "posting failed: "@ + e@
            &&& !r.1.success
            &&& r.1.tweet_id is None
            &&& r.1.message@ == "posting failed: "@ + e@
        }),
{
    match outcome {
        Ok(tweet_id) => {
            let log = ExecutionLog {
                id: None,
                account_id: account_id,
                log_type: "tweet".to_owned(),
                message: "post succeeded".to_owned(),
                tweet_id: Some(tweet_id.clone()),
                tweet_content: Some(content.to_owned()),
                status: "success".to_owned(),
                created_at: now.to_owned(),
            };
            let resp = TwitterApiResponse {
                success: true,
                tweet_id: Some(tweet_id.clone()),
                message: "post succeeded".to_owned(),
            };
            (log, resp)
        }
        Err(error) => {
            let mut message = String::new();
            message.append("posting failed: ");
            message.append(error.as_str());
            let log = ExecutionLog {
                id: None,
                account_id: account_id,
                log_type: "error".to_owned(),
                message: message.clone(),
                tweet_id: None,
                tweet_content: Some(content.to_owned()),
                status: "error".to_owned(),
                created_at: now.to_owned(),
            };
            let resp = TwitterApiResponse {
                success: false,
                tweet_id: None,
                message: message,
            };
            (log, resp)
        }
    }
}

} // verus!
