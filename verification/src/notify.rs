//! Desktop notifications. Every message is logged to stderr; when
//! notifications are enabled the binary also runs `notify-send` on a
//! best-effort basis, swallowing any failure.

use vstd::prelude::*;
use crate::text::{concat, push_str};

verus! {

#[derive(Debug, Clone, Copy)]
pub struct Notifier {
    enabled: bool,
}

/// What delivering one notification amounts to.
pub struct Delivery {
    /// The line written to stderr, always.
    pub log_line: String,
    /// The arguments for `notify-send`, when desktop notifications are on.
    pub desktop_args: Option<Vec<String>>,
}

/// The stderr line for a notification.
pub open spec fn log_line_spec(summary: Seq<char>, body: Seq<char>) -> Seq<char> {
    "[ApexDaemon] "@ + summary + ": "@ + body
}

impl Notifier {
    /// Whether desktop notifications are sent.
    pub closed spec fn is_enabled(self) -> bool {
        self.enabled
    }

    pub fn new(enabled: bool) -> (r: Self)
        ensures
            r.is_enabled() == enabled,
    {
        Notifier { enabled }
    }

    pub fn enabled(&self) -> (b: bool)
        ensures
            b == self.is_enabled(),
    {
        self.enabled
    }

    /// How `summary`/`body` is delivered: always a stderr line, and a
    /// `notify-send --app-name=ApexDaemon <summary> <body>` run only when
    /// notifications are enabled.
    pub fn delivery(&self, summary: &str, body: &str) -> (d: Delivery)
        ensures
            d.log_line@ == log_line_spec(summary@, body@),
            d.desktop_args is Some == self.is_enabled(),
            d.desktop_args is Some ==> d.desktop_args->0@.len() == 3 && d.desktop_args->0@[0]@
                == "--app-name=ApexDaemon"@ && d.desktop_args->0@[1]@ == summary@
                && d.desktop_args->0@[2]@ == body@,
    {
        let mut line = concat("[ApexDaemon] ", summary);
        push_str(&mut line, ": ");
        push_str(&mut line, body);
        let desktop_args = if self.enabled {
            let mut args: Vec<String> = Vec::new();
            args.push("--app-name=ApexDaemon".to_owned());
            args.push(summary.to_owned());
            args.push(body.to_owned());
            Some(args)
        } else {
            None
        };
        Delivery { log_line: line, desktop_args }
    }
}

} // verus!
