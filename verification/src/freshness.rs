//! The freshness protocol of the content cache: on every open the version of
//! the remote object is held against the version that the cached content was
//! filled from, and a content that is behind is filled again.

use vstd::prelude::*;
use vstd::string::StringExecFns;
use crate::attrs::{
    clear_suid_sgid, mode_without_suid_sgid, spec_time_parts, system_time_parts, AttrsView,
    InodeAttributes, Timestamp,
};
use crate::ops::{open_mode, spec_open_mode};
use crate::posix::FsError;
use crate::store::{FsView, S3FS};

verus! {

/// What the remote store says about an object.
#[derive(Debug)]
pub struct RemoteStat {
    pub content_length: u64,
    pub last_modified: Timestamp,
    /// The identifier of the object's current version.
    pub version_tag: String,
}

/// What the remote store says about an object, as a mathematical value.
pub struct RemoteStatView {
    pub content_length: u64,
    pub last_modified: Timestamp,
    pub version_tag: Seq<char>,
}

impl View for RemoteStat {
    type V = RemoteStatView;

    open spec fn view(&self) -> RemoteStatView {
        RemoteStatView {
            content_length: self.content_length,
            last_modified: self.last_modified,
            version_tag: self.version_tag@,
        }
    }
}

/// The cached content is behind: it was never filled, or it was filled from
/// another version than the remote object now has.
pub open spec fn is_stale(cached_tag: Seq<char>, remote_tag: Seq<char>) -> bool {
    cached_tag.len() == 0 || cached_tag != remote_tag
}

/// The time that lies `seconds` whole seconds behind the epoch and
/// `milliseconds` further on. For a time before the epoch the second part of
/// the result counts away from the epoch, as in every `Timestamp`.
pub open spec fn spec_timestamp_from_parts(seconds: i64, milliseconds: u16) -> Timestamp {
    if seconds >= 0 || milliseconds == 0 {
        Timestamp { secs: seconds, nanos: (milliseconds * 1_000_000) as u32 }
    } else {
        Timestamp {
            secs: (seconds + 1) as i64,
            nanos: ((1000 - milliseconds) * 1_000_000) as u32,
        }
    }
}

/// The time made of seconds and milliseconds lies where they say. The one
/// exception is the last second before the epoch, which a `Timestamp` cannot
/// tell from the first one behind it: there the distance is right and the
/// side is not.
pub proof fn lemma_timestamp_from_parts(seconds: i64, milliseconds: u16)
    requires
        milliseconds < 1000,
    ensures
        spec_timestamp_from_parts(seconds, milliseconds).nanos < 1_000_000_000,
        !(seconds == -1 && milliseconds > 0) ==> spec_timestamp_from_parts(
            seconds,
            milliseconds,
        ).offset_nanos() == seconds * 1_000_000_000 + milliseconds * 1_000_000,
        seconds == -1 && milliseconds > 0 ==> spec_timestamp_from_parts(
            seconds,
            milliseconds,
        ).offset_nanos() == -(seconds * 1_000_000_000 + milliseconds * 1_000_000),
{
}

/// The time that a remote object was last modified at, made of what the
/// remote store reports: whole seconds since the epoch and the milliseconds
/// within the second.
pub fn timestamp_from_parts(seconds: i64, milliseconds: u16) -> (t: Timestamp)
    requires
        milliseconds < 1000,
    ensures
        t == spec_timestamp_from_parts(seconds, milliseconds),
{
    if seconds >= 0 || milliseconds == 0 {
        Timestamp { secs: seconds, nanos: milliseconds as u32 * 1_000_000 }
    } else {
        Timestamp { secs: seconds + 1, nanos: (1000 - milliseconds as u32) * 1_000_000 }
    }
}

/// `OffsetDateTime` of the `time` crate: a moment in time, as the remote
/// store reports it. Nothing of its inside is known here.
#[verifier::external_type_specification]
#[verifier::external_body]
pub struct ExOffsetDateTime(time::OffsetDateTime);

/// What `OffsetDateTime::unix_timestamp` of the `time` crate gives for a
/// moment.
pub uninterp spec fn unix_seconds_of(moment: time::OffsetDateTime) -> i64;

/// What `OffsetDateTime::millisecond` of the `time` crate gives for a moment.
pub uninterp spec fn millisecond_of(moment: time::OffsetDateTime) -> u16;

/// `OffsetDateTime::unix_timestamp` of the `time` crate: the whole seconds
/// between the epoch and the moment, a function of the moment alone. Nothing
/// else is claimed of the number.
pub assume_specification[ time::OffsetDateTime::unix_timestamp ](
    moment: time::OffsetDateTime,
) -> (seconds: i64)
    ensures
        seconds == unix_seconds_of(moment),
;

/// `OffsetDateTime::millisecond` of the `time` crate: the milliseconds within
/// the second of the moment, a function of the moment alone, which the crate
/// documents to lie below 1000.
pub assume_specification[ time::OffsetDateTime::millisecond ](moment: time::OffsetDateTime) -> (milliseconds:
    u16)
    ensures
        milliseconds == millisecond_of(moment),
        milliseconds < 1000,
;

/// The time that the remote store reports an object was last modified at.
/// The store must have reported one.
pub fn time_from_offsetdatatime(dt: Option<time::OffsetDateTime>) -> (t: Timestamp)
    requires
        dt is Some,
    ensures
        t == spec_timestamp_from_parts(unix_seconds_of(dt->0), millisecond_of(dt->0)),
        t.nanos < 1_000_000_000,
{
    match dt {
        Some(moment) => timestamp_from_parts(moment.unix_timestamp(), moment.millisecond()),
        None => Timestamp { secs: 0, nanos: 0 },
    }
}

/// The character of a decimal digit.
pub open spec fn digit_char(d: nat) -> char {
    if d == 0 {
        '0'
    } else if d == 1 {
        '1'
    } else if d == 2 {
        '2'
    } else if d == 3 {
        '3'
    } else if d == 4 {
        '4'
    } else if d == 5 {
        '5'
    } else if d == 6 {
        '6'
    } else if d == 7 {
        '7'
    } else if d == 8 {
        '8'
    } else {
        '9'
    }
}

/// The decimal digits of `n` as text, most significant first.
pub open spec fn decimal_chars(n: nat) -> Seq<char>
    decreases n,
{
    if n < 10 {
        seq![digit_char(n)]
    } else {
        decimal_chars(n / 10).push(digit_char(n % 10))
    }
}

/// The text that stands for a time where the remote store gives no stronger
/// identifier of a version: the seconds with their sign, a dot, the
/// nanoseconds.
pub open spec fn time_tag(t: Timestamp) -> Seq<char> {
    (if t.secs < 0 {
        seq!['-']
    } else {
        Seq::<char>::empty()
    }) + decimal_chars(spec_time_parts(t).1 as nat) + seq!['.'] + decimal_chars(t.nanos as nat)
}

/// The identifier of a remote version: the ETag where the store gives one,
/// else the time of the last modification as text.
pub open spec fn spec_version_tag(etag: Option<Seq<char>>, last_modified: Timestamp) -> Seq<char> {
    match etag {
        Some(tag) => tag,
        None => time_tag(last_modified),
    }
}

fn push_digit(text: &mut String, d: u64)
    requires
        d < 10,
    ensures
        final(text)@ == old(text)@.push(digit_char(d as nat)),
{
    proof {
        reveal_strlit("0");
        reveal_strlit("1");
        reveal_strlit("2");
        reveal_strlit("3");
        reveal_strlit("4");
        reveal_strlit("5");
        reveal_strlit("6");
        reveal_strlit("7");
        reveal_strlit("8");
        reveal_strlit("9");
    }
    let digit = if d == 0 {
        "0"
    } else if d == 1 {
        "1"
    } else if d == 2 {
        "2"
    } else if d == 3 {
        "3"
    } else if d == 4 {
        "4"
    } else if d == 5 {
        "5"
    } else if d == 6 {
        "6"
    } else if d == 7 {
        "7"
    } else if d == 8 {
        "8"
    } else {
        "9"
    };
    assert(digit@ =~= seq![digit_char(d as nat)]);
    text.append(digit);
    assert(text@ =~= old(text)@.push(digit_char(d as nat)));
}

fn push_decimal(text: &mut String, n: u64)
    ensures
        final(text)@ == old(text)@ + decimal_chars(n as nat),
    decreases n,
{
    if n >= 10 {
        push_decimal(text, n / 10);
    }
    push_digit(text, n % 10);
    assert(text@ =~= old(text)@ + decimal_chars(n as nat));
}

/// The identifier of the remote version of an object, made of what the remote
/// store reports of it.
pub fn version_tag_of(etag: Option<String>, last_modified: Timestamp) -> (tag: String)
    ensures
        tag@ == spec_version_tag(
            match etag {
                Some(text) => Some(text@),
                None => None,
            },
            last_modified,
        ),
{
    match etag {
        Some(text) => text,
        None => {
            let (before_epoch, secs, nanos) = system_time_parts(
                last_modified.secs,
                last_modified.nanos,
            );
            let mut tag = String::new();
            if before_epoch {
                proof {
                    reveal_strlit("-");
                }
                tag.append("-");
                assert(tag@ =~= seq!['-']);
            }
            push_decimal(&mut tag, secs);
            proof {
                reveal_strlit(".");
            }
            let ghost before = tag@;
            tag.append(".");
            assert(tag@ =~= before + seq!['.']);
            push_decimal(&mut tag, nanos as u64);
            assert(tag@ =~= time_tag(last_modified));
            tag
        },
    }
}

/// What an open does about the cached content.
#[derive(Clone, Copy, Debug, PartialEq, Eq, Structural)]
pub enum FreshnessStep {
    /// Serve the cached content as it is.
    Serve,
    /// Fill the cached content again from the remote object, then serve it.
    Refresh,
    /// Fail the open with this error.
    Fail(FsError),
}

/// What an open does about the cached content, given what asking the remote
/// store came to. A remote store that has no such object leaves the file to
/// its local content. One that has the object decides by its version. One
/// that could not be asked fails the open: stale content is never served in
/// silence.
pub open spec fn spec_freshness_step(
    cached_tag: Seq<char>,
    stat: Result<Option<RemoteStatView>, ()>,
) -> FreshnessStep {
    match stat {
        Ok(None) => FreshnessStep::Serve,
        Ok(Some(remote)) => if is_stale(cached_tag, remote.version_tag) {
            FreshnessStep::Refresh
        } else {
            FreshnessStep::Serve
        },
        Err(_) => FreshnessStep::Fail(FsError::Io),
    }
}

/// The view of what asking the remote store came to.
pub open spec fn stat_view(stat: Result<Option<RemoteStat>, ()>) -> Result<
    Option<RemoteStatView>,
    (),
> {
    match stat {
        Ok(Some(remote)) => Ok(Some(remote@)),
        Ok(None) => Ok(None),
        Err(_) => Err(()),
    }
}

/// Decides what an open does about the content cached for `attrs`.
pub fn freshness_step(attrs: &InodeAttributes, stat: &Result<Option<RemoteStat>, ()>) -> (step:
    FreshnessStep)
    ensures
        step == spec_freshness_step(attrs@.version_tag, stat_view(*stat)),
{
    match stat {
        Ok(None) => FreshnessStep::Serve,
        Ok(Some(remote)) => if needs_refresh(attrs, remote) {
            FreshnessStep::Refresh
        } else {
            FreshnessStep::Serve
        },
        Err(_) => FreshnessStep::Fail(FsError::Io),
    }
}

/// Tells whether the content cached for `attrs` has to be filled again, given
/// what the remote store says.
pub fn needs_refresh(attrs: &InodeAttributes, remote: &RemoteStat) -> (stale: bool)
    ensures
        stale == is_stale(attrs@.version_tag, remote@.version_tag),
{
    attrs.version_tag.as_str().is_empty() || !(attrs.version_tag == remote.version_tag)
}

impl FsView {
    /// The attributes of a file after its content was filled with `length`
    /// bytes of the remote version `remote`.
    pub open spec fn refreshed_attrs(a: AttrsView, remote: RemoteStatView, length: int, now: Timestamp)
        -> AttrsView {
        AttrsView {
            size: length as u64,
            last_modified: remote.last_modified,
            last_metadata_changed: now,
            mode: mode_without_suid_sgid(a.mode),
            version_tag: remote.version_tag,
            ..a
        }
    }

    /// The store after the content of `inode` was filled again.
    pub open spec fn spec_refresh_state(
        self,
        inode: u64,
        remote: RemoteStatView,
        data: Seq<u8>,
        now: Timestamp,
    ) -> FsView {
        self.with_content(inode, data).with_inode(
            Self::refreshed_attrs(self.inodes[inode], remote, data.len() as int, now),
        )
    }
}

impl S3FS {
    /// What an open has to settle before the remote store is asked: the flags
    /// must name one access mode, and the inode must exist. The answer is the
    /// inode's attributes: their version tag is held against the remote
    /// version, and their remote key is what the remote store is asked for.
    pub fn open_prepare(&self, inode: u64, flags: i32) -> (prepared: Result<InodeAttributes, FsError>)
        ensures
            match prepared {
                Ok(attrs) => {
                    &&& spec_open_mode(flags, true) is Ok
                    &&& self@.attrs(inode) == Ok::<AttrsView, FsError>(attrs@)
                },
                Err(e) => match spec_open_mode(flags, true) {
                    Err(bad) => e == bad,
                    Ok(_) => self@.attrs(inode) == Err::<AttrsView, FsError>(e),
                },
            },
    {
        match open_mode(flags, true) {
            Err(e) => {
                return Err(e);
            },
            Ok(_) => {},
        }
        self.get_inode(inode)
    }

    /// Fills the content of `inode` with `data`, the bytes of the remote
    /// version that `remote` describes. The inode's size becomes the length
    /// of the data, its modification time the remote one, its change time
    /// `now`, its version tag the remote one, and its set-user-id and
    /// set-group-id bits are cleared as after any write. An inode that does
    /// not exist is `NotFound`, and nothing changes.
    pub fn refresh(&mut self, inode: u64, remote: &RemoteStat, data: Vec<u8>, now: Timestamp) -> (done:
        Result<(), FsError>)
        ensures
            match done {
                Ok(_) => {
                    &&& old(self)@.attrs(inode) is Ok
                    &&& final(self)@ == old(self)@.spec_refresh_state(inode, remote@, data@, now)
                    &&& final(self)@.inodes[old(self)@.inodes[inode].inode].version_tag
                        == remote@.version_tag
                },
                Err(e) => {
                    &&& e == FsError::NotFound
                    &&& old(self)@.attrs(inode) is Err
                    &&& final(self)@ == old(self)@
                },
            },
    {
        let mut attr = match self.get_inode(inode) {
            Ok(attr) => attr,
            Err(e) => {
                return Err(e);
            },
        };
        attr.last_metadata_changed = now;
        attr.last_modified = remote.last_modified;
        attr.size = data.len() as u64;
        attr.version_tag = remote.version_tag.clone();
        clear_suid_sgid(&mut attr);
        self.write_content(inode, data);
        self.write_inode(&attr);
        Ok(())
    }
}

} // verus!
