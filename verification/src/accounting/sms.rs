//! Text messages forwarded by the Android client.

use vstd::prelude::*;
use super::id::{SmsId, UserId};
use super::moment::Moment;

verus! {

/// A stored text message.
#[derive(Debug, Clone)]
pub struct Sms {
    pub id: SmsId,
    pub user: UserId,
    pub from: String,
    pub text: String,
    pub time: Moment,
}

/// A text message that has no identifier yet.
#[derive(Debug, Clone)]
pub struct NewSms {
    pub user: UserId,
    pub from: String,
    pub text: String,
    pub time: Moment,
}

impl NewSms {
    /// The message with a fresh identifier.
    pub fn into_sms(self) -> (sms: Sms)
        ensures
            sms.user == self.user,
            sms.from == self.from,
            sms.text == self.text,
            sms.time == self.time,
            sms.id.0@.len() == 36,
    {
        Sms {
            id: SmsId::generate(),
            user: self.user,
            from: self.from,
            text: self.text,
            time: self.time,
        }
    }
}

/// Whether `moment` is the time of one of `messages` and none of them is
/// later.
pub open spec fn is_latest(messages: Seq<Sms>, moment: Moment) -> bool {
    &&& exists|i: int| 0 <= i < messages.len() && (#[trigger] messages[i]).time == moment
    &&& forall|i: int| 0 <= i < messages.len() ==> (#[trigger] messages[i]).time.not_after(moment)
}

/// The time of the latest of `messages`, if there is any message.
pub fn latest_time(messages: &Vec<Sms>) -> (latest: Option<Moment>)
    ensures
        match latest {
            Some(moment) => is_latest(messages@, moment),
            None => messages@.len() == 0,
        },
{
    if messages.len() == 0 {
        return None;
    }
    let mut latest = messages[0].time;
    let mut index: usize = 1;
    while index < messages.len()
        invariant
            1 <= index <= messages.len(),
            exists|i: int| 0 <= i < index && (#[trigger] messages@[i]).time == latest,
            forall|i: int| 0 <= i < index ==> (#[trigger] messages@[i]).time.not_after(latest),
        decreases messages.len() - index,
    {
        if !messages[index].time.is_not_after(&latest) {
            latest = messages[index].time;
        }
        index = index + 1;
    }
    Some(latest)
}

} // verus!
