//! Normalizing a channel reference to a named-or-URL form: a channel given
//! as a URL under the configured channel alias is reduced to its bare name;
//! anything else is kept as the name, URL or path it parses to.

use vstd::prelude::*;
use vstd::string::*;
use crate::strutil::{contains_sub_spec, str_contains};
use crate::GlobalError;

verus! {

/// A channel reference reduced to plain values: how the channel parser
/// classifies the text, and the text itself, carried verbatim.
#[derive(Debug)]
pub enum ChannelRef {
    /// A bare channel name, such as `conda-forge`.
    Name(String),
    /// A channel given as a URL.
    Url(String),
    /// A channel given as a local path.
    Path(String),
}

/// The text a channel reference carries.
pub open spec fn channel_text(c: ChannelRef) -> Seq<char> {
    match c {
        ChannelRef::Name(t) => t@,
        ChannelRef::Url(t) => t@,
        ChannelRef::Path(t) => t@,
    }
}

/// The kind of a channel reference, under the same coding as
/// [`named_channel_kind`]: a URL is 0, a path 1, a bare name 2.
pub open spec fn channel_kind(c: ChannelRef) -> int {
    match c {
        ChannelRef::Url(_) => 0,
        ChannelRef::Path(_) => 1,
        ChannelRef::Name(_) => 2,
    }
}

pub uninterp spec fn url_parses(s: Seq<char>) -> bool;

pub uninterp spec fn channel_name_of(s: Seq<char>) -> Option<Seq<char>>;

pub uninterp spec fn named_channel_kind(s: Seq<char>) -> int;

/// The channel parser accepts the string: it classifies it as a URL, a
/// path or a bare name.
pub open spec fn named_parses(s: Seq<char>) -> bool {
    0 <= named_channel_kind(s) <= 2
}

/// Relies on url::Url::from_str: whether a channel string parses as a URL
/// (`url_parses`) depends on the string alone.
#[verifier::external_body]
fn url_ok(s: &str) -> (r: bool)
    ensures
        r == url_parses(s@),
{
    <url::Url as core::str::FromStr>::from_str(s).is_ok()
}

/// Relies on url::Url::from_str and rattler_conda_types::Channel::from_url:
/// for a string that parses as a URL, hands out the derived channel's name
/// (`channel_name_of`) — the trimmed path portion of the URL, absent when
/// that portion is empty.  The name depends on the string alone.
#[verifier::external_body]
fn channel_name_from_url(s: &str) -> (r: Option<String>)
    requires
        url_parses(s@),
    ensures
        match r {
            Some(n) => channel_name_of(s@) == Some(n@),
            None => channel_name_of(s@) is None,
        },
{
    match <url::Url as core::str::FromStr>::from_str(s) {
        Ok(u) => rattler_conda_types::Channel::from_url(u).name,
        Err(_) => None,
    }
}

/// Relies on rattler_conda_types::NamedChannelOrUrl::from_str: a string
/// carrying a URL scheme is a URL channel, or fails to parse when the URL
/// is malformed; a path-shaped string is a path channel; anything else is
/// a bare channel name.  The classification (`named_channel_kind`: 0 a
/// URL, 1 a path, 2 a name, outside 0..=2 a failure) depends on the string
/// alone, and the carried text is the input itself.
#[verifier::external_body]
fn parse_named_channel_or_url(s: &str) -> (r: Option<ChannelRef>)
    ensures
        r is Some <==> named_parses(s@),
        match r {
            Some(c) => channel_kind(c) == named_channel_kind(s@) && channel_text(c) == s@,
            None => true,
        },
{
    match <rattler_conda_types::NamedChannelOrUrl as core::str::FromStr>::from_str(s) {
        Ok(rattler_conda_types::NamedChannelOrUrl::Name(_)) => Some(
            ChannelRef::Name(s.to_string()),
        ),
        Ok(rattler_conda_types::NamedChannelOrUrl::Url(_)) => Some(ChannelRef::Url(s.to_string())),
        Ok(rattler_conda_types::NamedChannelOrUrl::Path(_)) => Some(
            ChannelRef::Path(s.to_string()),
        ),
        Err(_) => None,
    }
}

/// A channel reference paired with an optional priority.  The normalizer
/// never assigns a priority.
#[derive(Debug)]
pub struct PrioritizedChannel {
    pub channel: ChannelRef,
    pub priority: Option<i32>,
}

/// The text the normalizer settles on, or nothing when the input must be
/// rejected: under the alias, a malformed URL fails, and the channel's
/// bare name (or, with no name portion, the whole input) must itself be a
/// parseable channel; away from the alias, the input is taken as it is.
pub open spec fn normalized_channel(channel: Seq<char>, alias: Seq<char>) -> Option<Seq<char>> {
    if contains_sub_spec(channel, alias) {
        if !url_parses(channel) {
            None
        } else {
            match channel_name_of(channel) {
                Some(n) => if named_parses(n) {
                    Some(n)
                } else {
                    None
                },
                None => if named_parses(channel) {
                    Some(channel)
                } else {
                    None
                },
            }
        }
    } else {
        if named_parses(channel) {
            Some(channel)
        } else {
            None
        }
    }
}

/// Converts a channel url string to a prioritized channel.  When the
/// string contains the configured channel alias, it is parsed as a URL and
/// reduced to the channel's bare name if it has one; otherwise the string
/// itself is taken as the name, URL or path.  Every failure surfaces as
/// `ChannelUrlInvalid` carrying the offending input.
pub fn channel_url_to_prioritized_channel(channel: &str, channel_alias: &str) -> (r: Result<
    PrioritizedChannel,
    GlobalError,
>)
    ensures
        r is Ok <==> normalized_channel(channel@, channel_alias@) is Some,
        match r {
            Ok(pc) => {
                let text = normalized_channel(channel@, channel_alias@)->Some_0;
                pc.priority is None && channel_text(pc.channel) == text && channel_kind(pc.channel)
                    == named_channel_kind(text)
            },
            Err(e) => match e {
                GlobalError::ChannelUrlInvalid(s) => s@ == channel@,
                _ => false,
            },
        },
{
    if str_contains(channel, channel_alias) {
        if !url_ok(channel) {
            return Err(GlobalError::ChannelUrlInvalid(channel.to_owned()));
        }
        match channel_name_from_url(channel) {
            Some(name) => {
                return match parse_named_channel_or_url(name.as_str()) {
                    Some(c) => Ok(PrioritizedChannel { channel: c, priority: None }),
                    None => Err(GlobalError::ChannelUrlInvalid(channel.to_owned())),
                };
            },
            None => {
                // a URL with no name portion is taken as the channel itself
            },
        }
    }
    match parse_named_channel_or_url(channel) {
        Some(c) => Ok(PrioritizedChannel { channel: c, priority: None }),
        None => Err(GlobalError::ChannelUrlInvalid(channel.to_owned())),
    }
}

} // verus!
