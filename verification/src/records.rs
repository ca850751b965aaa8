//! Local files and remote records as the comparison sees them.

use crate::keys::{canonical_key, derive_key};
use vstd::prelude::*;

verus! {

/// A file found on the local side: where it lives, the key under which it is
/// stored remotely, its size in bytes and when it was last modified, in
/// milliseconds since the epoch.
#[derive(Debug, PartialEq, Eq)]
pub struct LocalFileEntry {
    pub path: String,
    pub key: String,
    pub size: u64,
    pub modified_ms: u64,
}

/// The mathematical value of a [`LocalFileEntry`].
pub struct LocalEntryView {
    pub path: Seq<char>,
    pub key: Seq<char>,
    pub size: u64,
    pub modified_ms: u64,
}

impl View for LocalFileEntry {
    type V = LocalEntryView;

    open spec fn view(&self) -> LocalEntryView {
        LocalEntryView {
            path: self.path@,
            key: self.key@,
            size: self.size,
            modified_ms: self.modified_ms,
        }
    }
}

/// A time in whole seconds as milliseconds; a time too far off to be
/// written in milliseconds becomes the latest time that can be.
pub open spec fn millis_of(seconds: u64) -> u64 {
    if seconds * 1000 <= u64::MAX {
        (seconds * 1000) as u64
    } else {
        u64::MAX
    }
}

/// Converts a time in seconds since the epoch to milliseconds.
pub fn millis_from_seconds(seconds: u64) -> (millis: u64)
    ensures
        millis == millis_of(seconds),
{
    if seconds <= u64::MAX / 1000 {
        seconds * 1000
    } else {
        u64::MAX
    }
}

impl LocalFileEntry {
    /// The entry for the file at `path` with the given size, last modified
    /// at `modified_seconds` seconds since the epoch, or before the epoch
    /// where that is `None`, which counts as the epoch itself. The key is
    /// derived from the path.
    pub fn from_scan(path: String, size: u64, modified_seconds: Option<u64>) -> (entry: Self)
        ensures
            entry@ == (LocalEntryView {
                path: path@,
                key: canonical_key(path@),
                size,
                modified_ms: match modified_seconds {
                    Some(seconds) => millis_of(seconds),
                    None => 0,
                },
            }),
    {
        let key = derive_key(path.as_str());
        let modified_ms = match modified_seconds {
            Some(seconds) => millis_from_seconds(seconds),
            None => 0,
        };
        LocalFileEntry { path, key, size, modified_ms }
    }
}

impl Clone for LocalFileEntry {
    fn clone(&self) -> (copy: Self)
        ensures
            copy == *self,
    {
        LocalFileEntry {
            path: self.path.clone(),
            key: self.key.clone(),
            size: self.size,
            modified_ms: self.modified_ms,
        }
    }
}

/// One object of the remote store as the listing reports it: its key, the
/// store's identifier for it, its length and hash, and when it was uploaded,
/// in milliseconds since the epoch.
#[derive(Debug, PartialEq, Eq)]
pub struct RemoteFileRecord {
    pub key: String,
    pub id: String,
    pub content_length: u64,
    pub content_sha1: String,
    pub upload_timestamp: u64,
}

/// The mathematical value of a [`RemoteFileRecord`].
pub struct RemoteRecordView {
    pub key: Seq<char>,
    pub id: Seq<char>,
    pub content_length: u64,
    pub content_sha1: Seq<char>,
    pub upload_timestamp: u64,
}

impl View for RemoteFileRecord {
    type V = RemoteRecordView;

    open spec fn view(&self) -> RemoteRecordView {
        RemoteRecordView {
            key: self.key@,
            id: self.id@,
            content_length: self.content_length,
            content_sha1: self.content_sha1@,
            upload_timestamp: self.upload_timestamp,
        }
    }
}

impl Clone for RemoteFileRecord {
    fn clone(&self) -> (copy: Self)
        ensures
            copy == *self,
    {
        RemoteFileRecord {
            key: self.key.clone(),
            id: self.id.clone(),
            content_length: self.content_length,
            content_sha1: self.content_sha1.clone(),
            upload_timestamp: self.upload_timestamp,
        }
    }
}

/// The views of a sequence of local entries, in the same order.
pub open spec fn entry_views(entries: Seq<LocalFileEntry>) -> Seq<LocalEntryView> {
    entries.map_values(|e: LocalFileEntry| e@)
}

/// The views of a sequence of remote records, in the same order.
pub open spec fn record_views(records: Seq<RemoteFileRecord>) -> Seq<RemoteRecordView> {
    records.map_values(|r: RemoteFileRecord| r@)
}

} // verus!
