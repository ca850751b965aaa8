//! What is kept on disk: the data that outlasts a session, the list of
//! paths to back up and the files found under them.

use crate::clock::unix_seconds_now;
use crate::differ::{lemma_total_size_bound, total_size};
use crate::records::{entry_views, LocalEntryView, LocalFileEntry};
use crate::text::{chars_of, compare_keys, find_char, first_position, KeyOrder};
use crate::transfer::{
    accept_bandwidth_limit, accepted_limit, rule_on, rule_on_bandwidth_limit, LimitRuling,
    UPLOAD_WORKERS,
};
use vstd::prelude::*;
use vstd::string::*;

verus! {

/// What the file system holds at a path that was asked to be backed up, as
/// far as it matters for listing files.
#[derive(Debug, PartialEq, Eq)]
pub enum FsNode {
    /// A file, with its path.
    File { path: String },
    /// A directory, with what it holds, in the order of its listing.
    Directory { children: Vec<FsNode> },
    /// Anything else, and what is not there at all.
    Other,
}

/// The paths of the files at and below `node`, a directory's files standing
/// where the directory stands.
pub open spec fn files_in(node: FsNode) -> Seq<Seq<char>>
    decreases node, 0nat,
{
    match node {
        FsNode::File { path } => seq![path@],
        FsNode::Directory { children } => files_among(children@, children@.len()),
        FsNode::Other => Seq::empty(),
    }
}

/// The paths of the files at and below the first `n` of `nodes`.
pub open spec fn files_among(nodes: Seq<FsNode>, n: nat) -> Seq<Seq<char>>
    decreases nodes, n,
{
    if n == 0 || n > nodes.len() {
        Seq::empty()
    } else {
        files_among(nodes, (n - 1) as nat) + files_in(nodes[n - 1])
    }
}

/// The views of a sequence of strings, in the same order.
pub open spec fn text_views(texts: Seq<String>) -> Seq<Seq<char>> {
    texts.map_values(|t: String| t@)
}

/// Appends the paths of the files at and below `node` to `paths`.
fn collect_files(node: FsNode, paths: &mut Vec<String>)
    ensures
        text_views(final(paths)@) == text_views(old(paths)@) + files_in(node),
    decreases node,
{
    match node {
        FsNode::File { path } => {
            let ghost before = text_views(paths@);
            paths.push(path);
            assert(text_views(paths@) =~= before + seq![path@]);
        },
        FsNode::Directory { children } => {
            let ghost start = text_views(paths@);
            let ghost all = children@;
            assert(text_views(paths@) =~= start + files_among(all, 0));
            for child in it: children
                invariant
                    it.seq() == all,
                    decreases_to!(node => all),
                    text_views(paths@) == start + files_among(all, it.index() as nat),
            {
                let ghost i = it.index();
                let ghost before = text_views(paths@);
                assert(all[i] == child);
                collect_files(child, paths);
                assert(text_views(paths@) =~= start + files_among(all, (i + 1) as nat));
            }
        },
        FsNode::Other => {
            assert(text_views(paths@) =~= text_views(paths@) + Seq::<Seq<char>>::empty());
        },
    }
}

/// Lists the files to back up: each entry that is a file stands for itself,
/// each directory for the files in it and below it, and anything else for
/// nothing.
pub fn create_file_list(entry_list: Vec<FsNode>) -> (paths: Vec<String>)
    ensures
        text_views(paths@) == files_among(entry_list@, entry_list@.len()),
{
    let mut paths: Vec<String> = Vec::new();
    let ghost all = entry_list@;
    assert(text_views(paths@) =~= files_among(all, 0));
    for entry in it: entry_list
        invariant
            it.seq() == all,
            text_views(paths@) == files_among(all, it.index() as nat),
    {
        let ghost i = it.index();
        assert(all[i] == entry);
        collect_files(entry, &mut paths);
    }
    paths
}

/// The sum of the sizes of `entries`, in bytes.
pub fn get_total_size(entries: &Vec<LocalFileEntry>) -> (total: u128)
    ensures
        total == total_size(entry_views(entries@)),
{
    let ghost views = entry_views(entries@);
    let mut total: u128 = 0;
    let mut i: usize = 0;
    assert(views.take(0) =~= Seq::<LocalEntryView>::empty());
    while i < entries.len()
        invariant
            i <= entries.len(),
            views == entry_views(entries@),
            total == total_size(views.take(i as int)),
        decreases entries.len() - i,
    {
        proof {
            lemma_total_size_bound(views.take(i as int));
            assert(views.take(i + 1).drop_last() =~= views.take(i as int));
            assert(views.take(i + 1).last() == entries@[i as int]@);
        }
        total = total + entries[i].size as u128;
        i += 1;
    }
    assert(views.take(entries.len() as int) =~= views);
    total
}

/// `line` without the carriage return at its end, if it has one.
pub open spec fn without_carriage_return(line: Seq<char>) -> Seq<char> {
    if line.len() > 0 && line.last() == '\r' {
        line.drop_last()
    } else {
        line
    }
}

/// The lines of `text` from position `start` on that are not empty. A line
/// ends with a line feed, or with a carriage return and a line feed, neither
/// of which belongs to it; the last line may end with the text.
pub open spec fn lines_from(text: Seq<char>, start: int) -> Seq<Seq<char>>
    decreases text.len() - start,
{
    if start < 0 || start >= text.len() {
        Seq::empty()
    } else {
        let newline = first_position(text, '\n', start);
        if newline < start || newline >= text.len() {
            seq![text.skip(start)]
        } else {
            let line = without_carriage_return(text.subrange(start, newline));
            if line.len() > 0 {
                seq![line] + lines_from(text, newline + 1)
            } else {
                lines_from(text, newline + 1)
            }
        }
    }
}

/// The lines of `text` that are not empty, in order.
pub open spec fn lines_of(text: Seq<char>) -> Seq<Seq<char>> {
    lines_from(text, 0)
}

/// Splits the text of a list file into its lines and leaves out the empty
/// ones.
pub fn read_lines_to_vec(content: &str) -> (lines: Vec<String>)
    ensures
        text_views(lines@) == lines_of(content@),
{
    let chars = chars_of(content);
    let n = chars.len();
    let mut lines: Vec<String> = Vec::new();
    let mut start: usize = 0;
    assert(text_views(lines@) + lines_from(content@, 0) =~= lines_of(content@));
    while start < n
        invariant
            chars@ == content@,
            n == chars.len(),
            start <= n,
            lines_of(content@) == text_views(lines@) + lines_from(content@, start as int),
        decreases n - start,
    {
        let ghost before = text_views(lines@);
        match find_char(&chars, '\n', start) {
            None => {
                lines.push(content.substring_char(start, n).to_owned());
                proof {
                    assert(content@.subrange(start as int, n as int) =~= content@.skip(
                        start as int,
                    ));
                    assert(text_views(lines@) =~= before + seq![content@.skip(start as int)]);
                    assert(lines_from(content@, n as int) =~= Seq::<Seq<char>>::empty());
                    assert(text_views(lines@) + lines_from(content@, n as int) =~= before
                        + lines_from(content@, start as int));
                }
                start = n;
            },
            Some(newline) => {
                let ghost raw = content@.subrange(start as int, newline as int);
                let end = if newline > start && chars[newline - 1] == '\r' {
                    newline - 1
                } else {
                    newline
                };
                proof {
                    assert(content@.subrange(start as int, end as int) =~= without_carriage_return(
                        raw,
                    ));
                }
                if end > start {
                    lines.push(content.substring_char(start, end).to_owned());
                    proof {
                        assert(text_views(lines@) =~= before + seq![without_carriage_return(raw)]);
                        assert(text_views(lines@) + lines_from(content@, newline + 1) =~= before
                            + lines_from(content@, start as int));
                    }
                }
                start = newline + 1;
            },
        }
    }
    proof {
        assert(text_views(lines@) + Seq::<Seq<char>>::empty() =~= text_views(lines@));
    }
    lines
}

/// A bucket of the remote store, as its listing names it.
#[derive(Debug, PartialEq, Eq)]
pub struct Bucket {
    pub name: String,
    pub id: String,
}

/// The position of the last of the first `n` buckets that has the given
/// name, or -1 where none of them has it.
pub open spec fn last_named(buckets: Seq<Bucket>, name: Seq<char>, n: nat) -> int
    decreases n,
{
    if n == 0 || n > buckets.len() {
        -1
    } else if buckets[n - 1].name@ == name {
        n - 1
    } else {
        last_named(buckets, name, (n - 1) as nat)
    }
}

/// What outlasts a session: when the last backup was made, in seconds since
/// the epoch, which bucket is selected, where the empty name stands for
/// none, and the aggregate cap on the upload in bytes per second, where 0
/// stands for none.
#[derive(Debug, PartialEq, Eq)]
pub struct PersistentData {
    pub last_backup: i64,
    pub active_bucket: String,
    pub bandwidth_limit: usize,
}

/// The mathematical value of a [`PersistentData`].
pub struct PersistentDataView {
    pub last_backup: i64,
    pub active_bucket: Seq<char>,
    pub bandwidth_limit: usize,
}

impl View for PersistentData {
    type V = PersistentDataView;

    open spec fn view(&self) -> PersistentDataView {
        PersistentDataView {
            last_backup: self.last_backup,
            active_bucket: self.active_bucket@,
            bandwidth_limit: self.bandwidth_limit,
        }
    }
}

impl Clone for PersistentData {
    fn clone(&self) -> (copy: Self)
        ensures
            copy == *self,
    {
        PersistentData {
            last_backup: self.last_backup,
            active_bucket: self.active_bucket.clone(),
            bandwidth_limit: self.bandwidth_limit,
        }
    }
}

impl PersistentData {
    /// The data of a first run at time `now`: no bucket selected, no cap.
    pub fn first_run(now: i64) -> (data: Self)
        ensures
            data@ == (PersistentDataView {
                last_backup: now,
                active_bucket: Seq::empty(),
                bandwidth_limit: 0,
            }),
    {
        PersistentData { last_backup: now, active_bucket: String::new(), bandwidth_limit: 0 }
    }

    /// The data of a first run now, by the clock of this machine.
    pub fn first_run_now() -> (data: Self)
        ensures
            data@.active_bucket == Seq::<char>::empty(),
            data@.bandwidth_limit == 0,
    {
        PersistentData::first_run(unix_seconds_now())
    }

    /// Whether a bucket is selected.
    pub fn has_active_bucket(&self) -> (selected: bool)
        ensures
            selected == (self@.active_bucket.len() > 0),
    {
        !self.active_bucket.as_str().is_empty()
    }

    /// Sets the time of the last backup to `now`.
    pub fn record_backup(&mut self, now: i64)
        ensures
            final(self)@ == (PersistentDataView { last_backup: now, ..old(self)@ }),
    {
        self.last_backup = now;
    }

    /// Sets the time of the last backup to now, by the clock of this
    /// machine. Nothing else changes.
    pub fn record_backup_now(&mut self)
        ensures
            final(self)@.active_bucket == old(self)@.active_bucket,
            final(self)@.bandwidth_limit == old(self)@.bandwidth_limit,
    {
        let now = unix_seconds_now();
        self.record_backup(now);
    }

    /// Stores the cap that was asked for, as far as it is accepted, and says
    /// how the request was ruled on.
    pub fn set_bandwidth_limit(&mut self, requested: Option<usize>) -> (ruling: LimitRuling)
        ensures
            ruling == rule_on_bandwidth_limit(requested, UPLOAD_WORKERS),
            final(self)@ == (PersistentDataView {
                bandwidth_limit: accepted_limit(requested, UPLOAD_WORKERS),
                ..old(self)@
            }),
    {
        let ruling = rule_on(requested, UPLOAD_WORKERS);
        self.bandwidth_limit = accept_bandwidth_limit(requested, UPLOAD_WORKERS);
        ruling
    }

    /// Selects the bucket called `name`: the last of `buckets` with that
    /// name, if there are several. Says whether there was one; nothing
    /// changes where there was none.
    pub fn select_bucket(&mut self, buckets: &Vec<Bucket>, name: &str) -> (selected: bool)
        ensures
            selected == (last_named(buckets@, name@, buckets@.len()) >= 0),
            selected ==> final(self)@ == (PersistentDataView {
                active_bucket: buckets@[last_named(buckets@, name@, buckets@.len())].id@,
                ..old(self)@
            }),
            !selected ==> final(self)@ == old(self)@,
    {
        let mut i = buckets.len();
        while i > 0
            invariant
                i <= buckets.len(),
                last_named(buckets@, name@, buckets@.len()) == last_named(buckets@, name@, i as nat),
                *self == *old(self),
            decreases i,
        {
            if name_matches(&buckets[i - 1].name, name) {
                self.active_bucket = buckets[i - 1].id.clone();
                return true;
            }
            i -= 1;
        }
        false
    }
}

/// Whether `candidate` is the name `name`.
fn name_matches(candidate: &String, name: &str) -> (same: bool)
    ensures
        same == (candidate@ == name@),
{
    match compare_keys(candidate.as_str(), name) {
        KeyOrder::Same => true,
        _ => false,
    }
}

} // verus!
