//! Bookkeeping of a download: how much of the file has arrived, against the
//! size that the server announced, if it announced one.
use vstd::prelude::*;

use crate::error::CheckError;

verus! {

/// A file being downloaded from `url` to `destination`.
pub struct DownloadTask {
    url: String,
    destination: String,
    total: Option<u64>,
    transferred: u64,
}

impl DownloadTask {
    /// Nothing beyond the announced size has arrived.
    pub open spec fn wf(&self) -> bool {
        self.total_spec() matches Some(t) ==> self.transferred_spec() <= t
    }

    /// Where the file comes from.
    pub closed spec fn url_spec(&self) -> Seq<char> {
        self.url@
    }

    /// Where the file goes.
    pub closed spec fn destination_spec(&self) -> Seq<char> {
        self.destination@
    }

    /// The announced size, if any.
    pub closed spec fn total_spec(&self) -> Option<u64> {
        self.total
    }

    /// The number of bytes that have arrived.
    pub closed spec fn transferred_spec(&self) -> u64 {
        self.transferred
    }

    /// A download that has not started, of `total` bytes where the size is
    /// announced.
    pub fn new(url: &str, destination: &str, total: Option<u64>) -> (r: DownloadTask)
        ensures
            r.wf(),
            r.url_spec() == url@,
            r.destination_spec() == destination@,
            r.total_spec() == total,
            r.transferred_spec() == 0,
    {
        DownloadTask { url: url.to_owned(), destination: destination.to_owned(), total, transferred: 0 }
    }

    /// Where the file comes from.
    pub fn url(&self) -> (r: &str)
        ensures
            r@ == self.url_spec(),
    {
        self.url.as_str()
    }

    /// Where the file goes.
    pub fn destination(&self) -> (r: &str)
        ensures
            r@ == self.destination_spec(),
    {
        self.destination.as_str()
    }

    /// The announced size, if any.
    pub fn total(&self) -> (r: Option<u64>)
        ensures
            r == self.total_spec(),
    {
        self.total
    }

    /// The number of bytes that have arrived.
    pub fn transferred(&self) -> (r: u64)
        ensures
            r == self.transferred_spec(),
    {
        self.transferred
    }

    /// Counts `n` more bytes as arrived. Fails with `TransferError`, and counts
    /// nothing, where that would pass the announced size or the largest count.
    pub fn record(&mut self, n: u64) -> (r: Result<(), CheckError>)
        requires
            old(self).wf(),
        ensures
            final(self).wf(),
            final(self).url_spec() == old(self).url_spec(),
            final(self).destination_spec() == old(self).destination_spec(),
            final(self).total_spec() == old(self).total_spec(),
            final(self).transferred_spec() >= old(self).transferred_spec(),
            r is Ok <==> old(self).transferred_spec() + n <= match old(self).total_spec() {
                Some(t) => t as int,
                None => u64::MAX as int,
            },
            r is Ok ==> final(self).transferred_spec() == old(self).transferred_spec() + n,
            r is Err ==> r == Err::<(), CheckError>(CheckError::TransferError)
                && final(self).transferred_spec() == old(self).transferred_spec(),
    {
        let limit = match self.total {
            Some(t) => t,
            None => u64::MAX,
        };
        if n > limit - self.transferred {
            return Err(CheckError::TransferError);
        }
        self.transferred = self.transferred + n;
        Ok(())
    }

    /// Whether the download is complete once the server has sent everything:
    /// `TransferError` where less than the announced size arrived.
    pub fn finish(&self) -> (r: Result<(), CheckError>)
        requires
            self.wf(),
        ensures
            r is Ok <==> (self.total_spec() matches Some(t) ==> self.transferred_spec() == t),
            r is Err ==> r == Err::<(), CheckError>(CheckError::TransferError),
    {
        match self.total {
            Some(t) => if self.transferred == t {
                Ok(())
            } else {
                Err(CheckError::TransferError)
            },
            None => Ok(()),
        }
    }
}

} // verus!
