//! Push notification for finished downloads.
//!
//! When a webhook is configured the server announces the moment a download
//! becomes watchable. The webhook URL carries its own credential, so it must be
//! encrypted in transit unless it stays on this machine.

use vstd::prelude::*;

use crate::text::{chars_blank, chars_of, is_blank, owned, push_str, str_blank, string_of, trim, trim_chars};
use crate::urls::{parse_url, url_parse, HostView, ParsedUrl, ParsedUrlView, UrlHost};

verus! {

#[derive(Debug, Clone, Copy, PartialEq, Eq, Structural)]
pub enum NotifyError {
    SecretUnavailable,
    InvalidUrl,
}

/// Announces that a download is ready to watch.
pub trait DownloadNotifier {
    fn notify_ready(&self, title: &str, year: Option<&str>);
}

/// Used when no webhook is configured.
#[derive(Debug, Clone, Copy, Default)]
pub struct NoopNotifier;

impl DownloadNotifier for NoopNotifier {
    /// Announces nothing.
    fn notify_ready(&self, title: &str, year: Option<&str>) {
    }
}

/// The message shown on the phone: the title with its year when one is given,
/// greeting the recipient by name when one is configured.
pub open spec fn composed(recipient: Option<Seq<char>>, title: Seq<char>, year: Option<Seq<char>>) -> Seq<char> {
    let named = match year {
        Some(y) => if !is_blank(y) {
            title + " ("@ + y + ")"@
        } else {
            title
        },
        None => title,
    };
    match recipient {
        Some(n) => if !is_blank(n) {
            "Hey "@ + trim(n) + ", "@ + named + " is ready to watch."@
        } else {
            named + " is ready to watch."@
        },
        None => named + " is ready to watch."@,
    }
}

pub open spec fn opt_str(o: Option<&str>) -> Option<Seq<char>> {
    match o {
        Some(s) => Some(s@),
        None => None,
    }
}

/// Posts a completion message to a webhook that turns it into a phone
/// notification; the sending is the caller's part.
#[derive(Debug, Clone)]
pub struct WebhookNotifier {
    pub webhook: ParsedUrl,
    pub recipient: Option<String>,
    /// Where tapping the notification takes the viewer.
    pub link: Option<String>,
}

/// The body posted to the webhook, in the common `{title, body, url}` shape.
#[derive(Debug, Clone, PartialEq, Eq)]
pub struct NotificationPayload {
    pub title: String,
    pub body: String,
    pub project: String,
    pub url: Option<String>,
}

impl WebhookNotifier {
    /// Composes the message body shown on the phone.
    pub fn compose(recipient: Option<&str>, title: &str, year: Option<&str>) -> (r: String)
        ensures
            r@ == composed(opt_str(recipient), title@, opt_str(year)),
    {
        let mut named = owned(title);
        match year {
            Some(y) => {
                if !str_blank(y) {
                    push_str(&mut named, " (");
                    push_str(&mut named, y);
                    push_str(&mut named, ")");
                }
            },
            None => {},
        }
        match recipient {
            Some(n) => {
                let nv = chars_of(n);
                if !chars_blank(nv.as_slice()) {
                    let mut out = owned("Hey ");
                    push_str(&mut out, string_of(trim_chars(nv.as_slice()).as_slice()).as_str());
                    push_str(&mut out, ", ");
                    push_str(&mut out, named.as_str());
                    push_str(&mut out, " is ready to watch.");
                    return out;
                }
            },
            None => {},
        }
        push_str(&mut named, " is ready to watch.");
        named
    }
}

/// A webhook may only be reached over HTTPS, or over plain HTTP on this machine.
pub open spec fn acceptable_webhook(u: ParsedUrlView) -> bool {
    if u.scheme == "https"@ {
        true
    } else if u.scheme == "http"@ {
        match u.host {
            Some(HostView::Domain(d)) => d == "localhost"@,
            Some(HostView::Ipv4(a)) => a == seq![127u8, 0, 0, 1],
            Some(HostView::Ipv6(s)) => crate::urls::ipv6_loopback(s),
            None => false,
        }
    } else {
        false
    }
}

pub fn is_acceptable_webhook(url: &ParsedUrl) -> (r: bool)
    ensures
        r == acceptable_webhook(url@),
{
    if crate::text::str_eq(url.scheme.as_str(), "https") {
        return true;
    }
    if !crate::text::str_eq(url.scheme.as_str(), "http") {
        return false;
    }
    match &url.host {
        Some(UrlHost::Domain(d)) => crate::text::str_eq(d.as_str(), "localhost"),
        Some(UrlHost::Ipv4(a)) => {
            let r = a[0] == 127 && a[1] == 0 && a[2] == 0 && a[3] == 1;
            proof {
                if r {
                    assert(a@ =~= seq![127u8, 0, 0, 1]);
                }
                if a@ == seq![127u8, 0, 0, 1] {
                    assert(a@[0] == 127 && a@[1] == 0 && a@[2] == 0 && a@[3] == 1);
                }
            }
            r
        },
        Some(UrlHost::Ipv6(s)) => crate::urls::is_ipv6_loopback(s),
        None => false,
    }
}

/// The webhook a notifier posts to, from what reading its secret gave: `Err` when
/// the secret could not be read, `None` when notifications are off.
pub open spec fn webhook_of(secret: Result<Option<Seq<char>>, ()>) -> Result<Option<ParsedUrlView>, NotifyError> {
    match secret {
        Err(_) => Err(NotifyError::SecretUnavailable),
        Ok(None) => Ok(None),
        Ok(Some(raw)) => match url_parse(trim(raw)) {
            None => Err(NotifyError::InvalidUrl),
            Some(u) => if acceptable_webhook(u) {
                Ok(Some(u))
            } else {
                Err(NotifyError::InvalidUrl)
            },
        },
    }
}

pub fn webhook_from_secret(secret: Result<Option<String>, ()>) -> (r: Result<Option<ParsedUrl>, NotifyError>)
    ensures
        match (
            r,
            webhook_of(
                match secret {
                    Err(_) => Err(()),
                    Ok(o) => Ok(crate::text::opt_text(o)),
                },
            ),
        ) {
            (Ok(None), Ok(None)) => true,
            (Ok(Some(a)), Ok(Some(b))) => a@ == b,
            (Err(e), Err(f)) => e == f,
            _ => false,
        },
{
    let raw = match secret {
        Err(_) => return Err(NotifyError::SecretUnavailable),
        Ok(None) => return Ok(None),
        Ok(Some(raw)) => raw,
    };
    let trimmed = string_of(trim_chars(chars_of(raw.as_str()).as_slice()).as_slice());
    let url = match parse_url(trimmed.as_str()) {
        Some(u) => u,
        None => return Err(NotifyError::InvalidUrl),
    };
    if !is_acceptable_webhook(&url) {
        return Err(NotifyError::InvalidUrl);
    }
    Ok(Some(url))
}

impl WebhookNotifier {
    /// The notifier for a webhook secret as it was read, or `None` when no
    /// webhook is configured.
    pub fn from_parts(
        secret: Result<Option<String>, ()>,
        recipient: Option<String>,
        link: Option<String>,
    ) -> (r: Result<Option<Self>, NotifyError>)
        ensures
            match (
                r,
                webhook_of(
                    match secret {
                        Err(_) => Err(()),
                        Ok(o) => Ok(crate::text::opt_text(o)),
                    },
                ),
            ) {
                (Ok(None), Ok(None)) => true,
                (Ok(Some(n)), Ok(Some(b))) => n.webhook@ == b && n.recipient == recipient && n.link == link,
                (Err(e), Err(f)) => e == f,
                _ => false,
            },
    {
        match webhook_from_secret(secret) {
            Err(e) => Err(e),
            Ok(None) => Ok(None),
            Ok(Some(webhook)) => Ok(Some(WebhookNotifier { webhook, recipient, link })),
        }
    }

    /// What is posted when a title is ready: the app's name as the title, the
    /// composed message as the body, and the link when one is configured.
    pub fn payload(&self, title: &str, year: Option<&str>) -> (r: NotificationPayload)
        ensures
            r.title@ == "MovieBox"@,
            r.project@ == "MovieBox"@,
            r.body@ == composed(crate::text::opt_text(self.recipient), title@, opt_str(year)),
            r.url == self.link,
    {
        let recipient = match &self.recipient {
            Some(r) => Some(r.as_str()),
            None => None,
        };
        NotificationPayload {
            title: owned("MovieBox"),
            body: Self::compose(recipient, title, year),
            project: owned("MovieBox"),
            url: crate::catalog::models::duplicate_text(&self.link),
        }
    }
}

} // verus!
