//! Text messages as the Android client sends them.

use vstd::prelude::*;
use crate::accounting::id::UserId;
use crate::accounting::moment::Moment;
use crate::accounting::sms::NewSms;
use crate::text::{integer_of, parse_i64};

verus! {

/// A text message as the Android client sends it: the time is the number
/// of milliseconds since 1970-01-01 00:00:00, in decimal.
#[derive(Debug, Clone)]
pub struct Sms {
    pub time: String,
    pub from: String,
    pub text: String,
}

/// The whole seconds in `milliseconds`, rounded towards zero.
pub open spec fn whole_seconds(milliseconds: int) -> int {
    if milliseconds >= 0 {
        milliseconds / 1000
    } else {
        -((-milliseconds) / 1000)
    }
}

/// The message of `user` that the client's `sms` describes, with its time
/// cut to whole seconds. A time that is no 64-bit integer gives nothing.
pub fn new_sms(user: &UserId, sms: Sms) -> (result: Option<NewSms>)
    ensures
        match result {
            Some(message) => {
                &&& integer_of(sms.time@) matches Some(milliseconds)
                &&& message.time.seconds == whole_seconds(milliseconds as int)
                &&& message.time.nanoseconds == 0
                &&& message.user == *user
                &&& message.from == sms.from
                &&& message.text == sms.text
            },
            None => integer_of(sms.time@) is None,
        },
{
    let timestamp_millis = match parse_i64(sms.time.as_str()) {
        Some(milliseconds) => milliseconds,
        None => {
            return None;
        },
    };
    let time = Moment { seconds: timestamp_millis / 1000, nanoseconds: 0 };
    Some(NewSms { user: user.duplicate(), from: sms.from, text: sms.text, time })
}

} // verus!
