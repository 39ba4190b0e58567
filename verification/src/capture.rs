//! Capturing activity: what one capture cycle records and how its text enters
//! the vectorization pass. Observing the screen and writing to the store is
//! the caller's business.

use vstd::prelude::*;
use vstd::string::StringExecFns;
use crate::orchestrator::{Phase, Vectorization};
use crate::settings::{DEFAULT_INTERVAL, interval_length, parsed_number};
use crate::tag::{RecordKind, Tag};

verus! {

/// What a capture cycle stamps on the activity it records.
#[derive(Debug, PartialEq, Eq)]
pub struct CapturePlan {
    /// The user for whom the activity is recorded.
    pub user_id: String,
    /// Seconds that the captured interval lasted.
    pub interval_length: u64,
}

/// Plans one capture cycle. Without a user nothing is captured. Otherwise the
/// activity is recorded for `user`, with the interval that the stored setting
/// names, or the default interval when the setting holds no number.
pub fn record_single_activity(user: &str, interval_setting: &str) -> (plan: Option<CapturePlan>)
    ensures
        user@.len() == 0 ==> plan is None,
        user@.len() > 0 ==> plan is Some && plan->0.user_id@ == user@ && plan->0.interval_length
            == match parsed_number(interval_setting@) {
            Some(n) => n,
            None => DEFAULT_INTERVAL,
        },
{
    if user.is_empty() {
        None
    } else {
        Some(
            CapturePlan {
                user_id: String::from_str(user),
                interval_length: interval_length(interval_setting),
            },
        )
    }
}

/// The vectorization pass for a captured activity whose full text the store
/// has just saved under `last_insert_rowid`. Without a row there is nothing to
/// index.
pub fn capture_pass(last_insert_rowid: Option<i64>) -> (pass: Option<Vectorization>)
    ensures
        pass == match last_insert_rowid {
            Some(id) => Some(
                Vectorization {
                    tag: Tag { kind: RecordKind::Activity, id },
                    phase: Phase::Persisting,
                },
            ),
            None => None,
        },
{
    match last_insert_rowid {
        Some(id) => Some(Vectorization::begin(Tag::activity(id))),
        None => None,
    }
}

} // verus!
