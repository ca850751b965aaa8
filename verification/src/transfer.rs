//! How a file is sent and how a cap on the bandwidth is shared.

use vstd::prelude::*;

verus! {

/// Files larger than this many bytes are streamed from disk; smaller ones
/// are read into memory first.
pub const STREAM_UPLOAD_THRESHOLD: u64 = 5_000_000;

/// The number of uploads that run at the same time.
pub const UPLOAD_WORKERS: usize = 4;

/// The number of deletions that run at the same time.
pub const DELETE_WORKERS: usize = 4;

/// How a file is sent.
#[derive(Clone, Copy, Debug, PartialEq, Eq, Structural)]
pub enum UploadStrategy {
    /// Read the whole file into memory, then send it.
    Buffered,
    /// Send the file as it is read.
    Streaming,
    /// Send the file at no more than this many bytes per second.
    Throttled { bytes_per_second: usize },
}

/// The share of an aggregate cap of `limit` bytes per second that each of
/// `workers` workers gets: the cap divided evenly, rounded down. A share is
/// fixed for the session; what one worker leaves unused goes to no other.
pub open spec fn per_worker_share(limit: nat, workers: nat) -> nat {
    limit / workers
}

/// How a file of `size` bytes is sent under the aggregate cap
/// `bandwidth_limit`, where 0 stands for no cap.
pub open spec fn strategy_for(size: u64, bandwidth_limit: usize, workers: usize) -> UploadStrategy {
    if bandwidth_limit > 0 {
        UploadStrategy::Throttled {
            bytes_per_second: per_worker_share(bandwidth_limit as nat, workers as nat) as usize,
        }
    } else if size > STREAM_UPLOAD_THRESHOLD {
        UploadStrategy::Streaming
    } else {
        UploadStrategy::Buffered
    }
}

/// The cap that is stored for a requested one: none where the request was
/// no number, and the number of workers where the request is positive but
/// would leave a worker less than one byte per second.
pub open spec fn accepted_limit(requested: Option<usize>, workers: usize) -> usize {
    match requested {
        None => 0,
        Some(n) => if n > workers || n == 0 {
            n
        } else {
            workers
        },
    }
}

/// How a request for a cap is ruled on.
#[derive(Clone, Copy, Debug, PartialEq, Eq, Structural)]
pub enum LimitRuling {
    /// The request stands as it is.
    Accepted,
    /// The request was too low to leave each worker a byte per second and is
    /// raised to the lowest cap that does.
    RaisedToMinimum,
    /// The request was no number: there is to be no cap.
    Invalid,
}

/// The ruling on a requested cap.
pub open spec fn rule_on_bandwidth_limit(requested: Option<usize>, workers: usize) -> LimitRuling {
    match requested {
        None => LimitRuling::Invalid,
        Some(n) => if n > workers || n == 0 {
            LimitRuling::Accepted
        } else {
            LimitRuling::RaisedToMinimum
        },
    }
}

/// Splits an aggregate cap of `limit` bytes per second evenly across
/// `workers` workers. A cap below the number of workers leaves each a share
/// of 0, with which a transfer moves as slowly as the transport lets it.
pub fn throttle_allocation(limit: usize, workers: usize) -> (share: usize)
    requires
        workers > 0,
    ensures
        share == per_worker_share(limit as nat, workers as nat),
{
    limit / workers
}

/// Chooses how a file of `size` bytes is sent: throttled to the worker's
/// share wherever a cap is set, whatever the size; else streamed above the
/// threshold and buffered up to it.
pub fn select_upload_strategy(size: u64, bandwidth_limit: usize, workers: usize) -> (strategy:
    UploadStrategy)
    requires
        workers > 0,
    ensures
        strategy == strategy_for(size, bandwidth_limit, workers),
{
    if bandwidth_limit > 0 {
        UploadStrategy::Throttled { bytes_per_second: throttle_allocation(bandwidth_limit, workers) }
    } else if size > STREAM_UPLOAD_THRESHOLD {
        UploadStrategy::Streaming
    } else {
        UploadStrategy::Buffered
    }
}

/// Rules on a requested cap.
pub fn rule_on(requested: Option<usize>, workers: usize) -> (ruling: LimitRuling)
    ensures
        ruling == rule_on_bandwidth_limit(requested, workers),
{
    match requested {
        None => LimitRuling::Invalid,
        Some(n) => if n > workers || n == 0 {
            LimitRuling::Accepted
        } else {
            LimitRuling::RaisedToMinimum
        },
    }
}

/// The cap to store for a requested one.
pub fn accept_bandwidth_limit(requested: Option<usize>, workers: usize) -> (limit: usize)
    ensures
        limit == accepted_limit(requested, workers),
{
    match requested {
        None => 0,
        Some(n) => if n > workers || n == 0 {
            n
        } else {
            workers
        },
    }
}

} // verus!
