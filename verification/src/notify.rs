//! Desktop notifications: whether one is shown, and what it says.
use vstd::prelude::*;
use crate::text::{decimal, push_decimal};

verus! {

broadcast use vstd::string::group_string_axioms;

/// A desktop notification to show: its summary line and its body.
#[derive(Clone, Debug)]
pub struct Notice {
    pub summary: String,
    pub body: String,
}

/// Decides which desktop notifications are shown.
pub struct NotificationManager {
    enabled: bool,
}

impl NotificationManager {
    /// Whether notifications are shown.
    pub closed spec fn is_enabled(&self) -> bool {
        self.enabled
    }

    /// A manager that shows notifications.
    pub fn new() -> (m: Self)
        ensures
            m.is_enabled(),
    {
        NotificationManager { enabled: true }
    }

    /// The notification to show for `title` and `body`: exactly those texts when
    /// notifications are on, none when they are off.
    pub fn send(&self, title: &str, body: &str) -> (n: Option<Notice>)
        ensures
            self.is_enabled() <==> n is Some,
            n matches Some(notice) ==> notice.summary@ == title@ && notice.body@ == body@,
    {
        if self.enabled {
            Some(Notice { summary: title.to_string(), body: body.to_string() })
        } else {
            None
        }
    }

    /// The notification that `count` new articles came from `source`: the summary
    /// `Karga News` and the body `<count> new articles from <source>`.
    pub fn send_new_news(&self, source: &str, count: usize) -> (n: Option<Notice>)
        ensures
            self.is_enabled() <==> n is Some,
            n matches Some(notice) ==> notice.summary@ == "Karga News"@ && notice.body@ == decimal(
                count as nat,
            ) + " new articles from "@ + source@,
    {
        let mut body = String::new();
        push_decimal(&mut body, count as u64);
        body.append(" new articles from ");
        body.append(source);
        self.send("Karga News", body.as_str())
    }
}

} // verus!
