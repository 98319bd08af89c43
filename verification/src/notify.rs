//! Desktop notification requests. The crate only composes them; delivery is
//! fire-and-forget and happens outside, so a failed notification can never
//! disturb the caller.

use vstd::prelude::*;

verus! {

#[derive(Debug, Clone, Copy, PartialEq, Eq, Structural)]
pub enum Urgency {
    Low,
    Normal,
    Critical,
}

/// One notification to deliver.
#[derive(Debug)]
pub struct Notification {
    pub urgency: Urgency,
    pub title: String,
    pub body: String,
}

pub struct NotificationView {
    pub urgency: Urgency,
    pub title: Seq<char>,
    pub body: Seq<char>,
}

impl View for Notification {
    type V = NotificationView;

    open spec fn view(&self) -> NotificationView {
        NotificationView { urgency: self.urgency, title: self.title@, body: self.body@ }
    }
}

pub open spec fn notification_of(u: Urgency, title: Seq<char>, body: Seq<char>) -> NotificationView {
    NotificationView { urgency: u, title, body }
}

pub fn low(title: &str, body: &str) -> (r: Notification)
    ensures
        r@ == notification_of(Urgency::Low, title@, body@),
{
    Notification { urgency: Urgency::Low, title: title.to_owned(), body: body.to_owned() }
}

pub fn normal(title: &str, body: &str) -> (r: Notification)
    ensures
        r@ == notification_of(Urgency::Normal, title@, body@),
{
    Notification { urgency: Urgency::Normal, title: title.to_owned(), body: body.to_owned() }
}

pub fn critical(title: &str, body: &str) -> (r: Notification)
    ensures
        r@ == notification_of(Urgency::Critical, title@, body@),
{
    Notification { urgency: Urgency::Critical, title: title.to_owned(), body: body.to_owned() }
}

/// The urgency word handed to the delivery command.
pub fn urgency_arg(u: Urgency) -> (r: &'static str)
    ensures
        u == Urgency::Low ==> r@ == "low"@,
        u == Urgency::Normal ==> r@ == "normal"@,
        u == Urgency::Critical ==> r@ == "critical"@,
{
    match u {
        Urgency::Low => "low",
        Urgency::Normal => "normal",
        Urgency::Critical => "critical",
    }
}

/// The title as shown, under the fixed application prefix.
pub fn display_title(title: &str) -> (r: String)
    ensures
        r@ == "Wi-Fi: "@ + title@,
{
    let mut out = String::from_str("Wi-Fi: ");
    out.append(title);
    out
}

} // verus!
