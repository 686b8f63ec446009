//! The mapped line reader: the record of a file's metadata, the reader that
//! aggregates a handle, that record and the mapped bytes, and the lazy
//! iteration that splits the bytes into line views.

use vstd::prelude::*;
use vstd::slice::{slice_index_get, slice_subrange};

use crate::lines::{lemma_first_nl_at, lemma_no_nl, lines_of, NL};

verus! {

/// The file metadata record as the operating system reports it, one field
/// per attribute. Only `st_size` is read by the reader; the rest is carried
/// because the size query fills the whole record at once.
#[derive(Clone, Copy, Debug)]
pub struct Stat {
    pub st_dev: u64,
    pub st_ino: u64,
    pub st_nlink: u64,
    pub st_mode: u32,
    pub st_uid: u32,
    pub st_gid: u32,
    pub __pad0: i32,
    pub st_rdev: u64,
    pub st_size: i64,
    pub st_blksize: i64,
    pub st_blocks: i64,
    pub st_atime: i64,
    pub st_atime_nsec: i64,
    pub st_mtime: i64,
    pub st_mtime_nsec: i64,
    pub st_ctime: i64,
    pub st_ctime_nsec: i64,
    pub __unused: [i64; 3],
}

impl Default for Stat {
    /// The zeroed record handed to the metadata query to be filled in place.
    fn default() -> (r: Self)
        ensures
            r.st_dev == 0,
            r.st_ino == 0,
            r.st_nlink == 0,
            r.st_mode == 0,
            r.st_uid == 0,
            r.st_gid == 0,
            r.__pad0 == 0,
            r.st_rdev == 0,
            r.st_size == 0,
            r.st_blksize == 0,
            r.st_blocks == 0,
            r.st_atime == 0,
            r.st_atime_nsec == 0,
            r.st_mtime == 0,
            r.st_mtime_nsec == 0,
            r.st_ctime == 0,
            r.st_ctime_nsec == 0,
            r.__unused == [0i64, 0i64, 0i64],
    {
        Stat {
            st_dev: 0,
            st_ino: 0,
            st_nlink: 0,
            st_mode: 0,
            st_uid: 0,
            st_gid: 0,
            __pad0: 0,
            st_rdev: 0,
            st_size: 0,
            st_blksize: 0,
            st_blocks: 0,
            st_atime: 0,
            st_atime_nsec: 0,
            st_mtime: 0,
            st_mtime_nsec: 0,
            st_ctime: 0,
            st_ctime_nsec: 0,
            __unused: [0, 0, 0],
        }
    }
}

/// One mapped file, read-only: the open handle, the metadata record the
/// size was taken from, and the mapped bytes themselves, owned together.
/// The surrounding program acquires the three in that order and releases
/// the mapping and the handle when the reader's scope ends.
pub struct MReader<'a> {
    fd: i64,
    stat: Stat,
    data: &'a [u8],
}

impl<'a> View for MReader<'a> {
    type V = Seq<u8>;

    closed spec fn view(&self) -> Seq<u8> {
        self.data@
    }
}

impl<'a> MReader<'a> {
    /// The handle the file was opened with.
    pub closed spec fn fd(&self) -> i64 {
        self.fd
    }

    /// The metadata record captured at construction.
    pub closed spec fn stat(&self) -> Stat {
        self.stat
    }

    /// The mapped region is exactly as long as the size the metadata
    /// reports.
    pub open spec fn wf(&self) -> bool {
        self.stat().st_size == self@.len()
    }

    /// Aggregates the three results of construction: the open handle, its
    /// metadata record, and the mapped bytes, which must be exactly
    /// `stat.st_size` long.
    pub fn new(fd: i64, stat: Stat, data: &'a [u8]) -> (r: Self)
        requires
            stat.st_size == data@.len(),
        ensures
            r@ == data@,
            r.fd() == fd,
            r.stat() == stat,
            r.wf(),
    {
        MReader { fd, stat, data }
    }

    /// Begins a fresh pass over the newline-delimited records of the
    /// mapped bytes.
    pub fn into_iter(&self) -> (it: MReaderIter<'a>)
        ensures
            it.wf(),
            it.buf() == self@,
            it.pos() == 0,
            it.remaining() == self@,
    {
        let it = MReaderIter { data: self.data, idx: 0 };
        proof {
            assert(it.remaining() =~= self@);
        }
        it
    }
}

/// A single forward pass over the newline-delimited records of a mapped
/// region: the bytes and a cursor into them.
pub struct MReaderIter<'a> {
    data: &'a [u8],
    idx: usize,
}

impl<'a> MReaderIter<'a> {
    /// The bytes the pass walks over.
    pub closed spec fn buf(&self) -> Seq<u8> {
        self.data@
    }

    /// The cursor: where the next search for a newline starts.
    pub closed spec fn pos(&self) -> int {
        self.idx as int
    }

    /// The cursor stays within the bytes.
    pub open spec fn wf(&self) -> bool {
        0 <= self.pos() <= self.buf().len()
    }

    /// The bytes the pass has not yet walked over.
    pub open spec fn remaining(&self) -> Seq<u8> {
        self.buf().skip(self.pos())
    }

    /// The next record: the span from the cursor up to the next newline,
    /// without the newline. When no newline remains, nothing is yielded
    /// and the cursor moves to the end of the bytes: the pass is over,
    /// every later call yields nothing, and the bytes after the last
    /// newline are dropped unseen. A fresh pass is begun from the owning
    /// reader.
    pub fn next(&mut self) -> (r: Option<&'a [u8]>)
        requires
            old(self).wf(),
        ensures
            final(self).wf(),
            final(self).buf() == old(self).buf(),
            match r {
                Some(line) => {
                    &&& lines_of(old(self).remaining()).len() > 0
                    &&& line@ == lines_of(old(self).remaining())[0]
                    &&& lines_of(final(self).remaining()) == lines_of(
                        old(self).remaining(),
                    ).skip(1)
                    &&& final(self).pos() == old(self).pos() + line@.len() + 1
                },
                None => {
                    &&& lines_of(old(self).remaining()).len() == 0
                    &&& final(self).pos() == old(self).buf().len()
                },
            },
    {
        let data: &'a [u8] = self.data;
        let start: usize = self.idx;
        let k: usize = find_nl(data, start);
        let ghost rem = data@.skip(start as int);
        if k < data.len() {
            let line: &'a [u8] = slice_subrange(data, start, k);
            self.idx = k + 1;
            proof {
                let kk = k - start;
                assert(rem[kk] == data@[k as int]);
                assert forall|j: int| 0 <= j < kk implies rem[j] != NL by {
                    assert(rem[j] == data@[start + j]);
                }
                lemma_first_nl_at(rem, kk);
                assert(rem.subrange(0, kk) =~= data@.subrange(start as int, k as int));
                assert(rem.skip(kk + 1) =~= data@.skip(k + 1));
                assert(lines_of(rem) == seq![rem.subrange(0, kk)] + lines_of(rem.skip(kk + 1)));
                assert(lines_of(rem).skip(1) =~= lines_of(rem.skip(kk + 1)));
            }
            Some(line)
        } else {
            self.idx = data.len();
            proof {
                assert forall|j: int| 0 <= j < rem.len() implies rem[j] != NL by {
                    assert(rem[j] == data@[start + j]);
                }
                lemma_no_nl(rem);
            }
            None
        }
    }
}

/// Index of the first newline at or after `from`, or the length of `data`
/// when no newline follows `from`.
fn find_nl(data: &[u8], from: usize) -> (r: usize)
    requires
        from <= data@.len(),
    ensures
        from <= r <= data@.len(),
        r < data@.len() ==> data@[r as int] == NL,
        forall|j: int| from <= j < r ==> data@[j] != NL,
{
    let mut i: usize = from;
    while i < data.len()
        invariant
            from <= i <= data@.len(),
            forall|j: int| from <= j < i ==> data@[j] != NL,
        decreases data@.len() - i,
    {
        if *slice_index_get(data, i) == NL {
            return i;
        }
        i = i + 1;
    }
    i
}

} // verus!
