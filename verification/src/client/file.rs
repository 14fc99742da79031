use vstd::prelude::*;

use vstd::slice::{slice_subrange, slice_to_vec};

verus! {

/// Streams a server file through successive MMS `fileRead` requests.
///
/// It holds what the server has sent and was not handed on yet; the program
/// makes the requests that it asks for. The file-read state machine on the
/// server is to be released by [`close`](FileReader::close).
#[derive(Debug)]
pub struct FileReader {
    frsm: i32,
    buf: Vec<u8>,
    /// Offset into `buf` of the first unread byte.
    pos: usize,
    /// The server has sent its last chunk.
    done: bool,
    closed: bool,
    /// The size the server reported at open time.
    size: u32,
}

/// What a reader comes to next.
#[derive(Debug, PartialEq, Eq)]
pub enum Next {
    /// These bytes are next.
    Data(Vec<u8>),
    /// The file has ended.
    End,
    /// Ask the server for the next chunk, and hand it to the reader.
    Ask,
}

/// The model of a reader: what it holds unread, and what it knows of the file.
pub struct FileReaderView {
    pub pending: Seq<u8>,
    pub done: bool,
    pub closed: bool,
    pub frsm: i32,
    pub size: u32,
}

impl View for FileReader {
    type V = FileReaderView;

    closed spec fn view(&self) -> FileReaderView {
        FileReaderView {
            pending: self.buf@.skip(self.pos as int),
            done: self.done,
            closed: self.closed,
            frsm: self.frsm,
            size: self.size,
        }
    }
}

impl FileReader {
    /// The unread bytes lie within the buffer.
    pub closed spec fn wf(&self) -> bool {
        self.pos <= self.buf@.len()
    }

    /// A reader over a file that the server has opened.
    pub fn new(frsm: i32, size: u32) -> (r: FileReader)
        ensures
            r.wf(),
            r@ == (FileReaderView {
                pending: Seq::empty(),
                done: false,
                closed: false,
                frsm,
                size,
            }),
    {
        let r = FileReader { frsm, buf: Vec::new(), pos: 0, done: false, closed: false, size };
        assert(r@.pending =~= Seq::empty());
        r
    }

    /// Returns the file size the server reported when the file was opened.
    pub fn size(&self) -> (n: u32)
        ensures
            n == self@.size,
    {
        self.size
    }

    /// Returns the server's handle of the open file.
    pub fn frsm(&self) -> (n: i32)
        ensures
            n == self@.frsm,
    {
        self.frsm
    }

    /// Takes the next chunk: what is left from a partial read first. Chunks
    /// are whatever size the server chooses.
    pub fn next_chunk(&mut self) -> (r: Next)
        requires
            old(self).wf(),
        ensures
            final(self).wf(),
            final(self)@ == (FileReaderView { pending: Seq::empty(), ..old(self)@ }),
            if old(self)@.pending.len() > 0 {
                r matches Next::Data(b) && b@ == old(self)@.pending
            } else if old(self)@.done {
                r is End
            } else {
                r is Ask
            },
    {
        if self.pos < self.buf.len() {
            let out = slice_to_vec(slice_subrange(self.buf.as_slice(), self.pos, self.buf.len()));
            assert(out@ =~= self.buf@.skip(self.pos as int));
            self.buf = Vec::new();
            self.pos = 0;
            assert(self@.pending =~= Seq::empty());
            return Next::Data(out);
        }
        assert(self@.pending =~= Seq::empty());
        if self.done {
            return Next::End;
        }
        Next::Ask
    }

    /// Hands over a chunk that the server sent, and whether more follow.
    /// Returns whether the file has ended with it: an empty last chunk holds
    /// nothing to read.
    pub fn accept(&mut self, data: Vec<u8>, more: bool) -> (ended: bool)
        requires
            old(self).wf(),
            old(self)@.pending.len() == 0,
            !old(self)@.done,
        ensures
            final(self).wf(),
            final(self)@ == (FileReaderView { pending: data@, done: !more, ..old(self)@ }),
            ended == (!more && data@.len() == 0),
    {
        if !more {
            self.done = true;
        }
        let ended = data.len() == 0 && self.done;
        self.buf = data;
        self.pos = 0;
        assert(self@.pending =~= self.buf@);
        ended
    }

    /// Takes up to `n` bytes of what is there. `Ask` means that nothing is
    /// there yet, `End` that nothing will come any more.
    pub fn read(&mut self, n: usize) -> (r: Next)
        requires
            old(self).wf(),
        ensures
            final(self).wf(),
            ({
                let have = old(self)@.pending;
                if have.len() > 0 {
                    let k = if n < have.len() {
                        n as int
                    } else {
                        have.len() as int
                    };
                    &&& r matches Next::Data(b) && b@ == have.take(k)
                    &&& final(self)@ == (FileReaderView { pending: have.skip(k), ..old(self)@ })
                } else {
                    &&& final(self)@ == old(self)@
                    &&& if old(self)@.done {
                        r is End
                    } else {
                        r is Ask
                    }
                }
            }),
    {
        if self.pos >= self.buf.len() {
            if self.done {
                return Next::End;
            }
            return Next::Ask;
        }
        let left: usize = self.buf.len() - self.pos;
        let k: usize = if n < left {
            n
        } else {
            left
        };
        let out = slice_to_vec(
            slice_subrange(self.buf.as_slice(), self.pos, self.pos + k),
        );
        proof {
            let have = self@.pending;
            assert(out@ =~= have.take(k as int));
            assert(self.buf@.skip(self.pos + k) =~= have.skip(k as int));
        }
        self.pos = self.pos + k;
        Next::Data(out)
    }

    /// Reports whether the file-read state machine is still to be released,
    /// and notes that it is. Calling it twice is harmless.
    pub fn close(&mut self) -> (release: bool)
        requires
            old(self).wf(),
        ensures
            final(self).wf(),
            release == !old(self)@.closed,
            final(self)@ == (FileReaderView { closed: true, ..old(self)@ }),
    {
        if self.closed {
            return false;
        }
        self.closed = true;
        true
    }
}

/// Whatever sizes are asked for, nothing is lost and nothing repeated: the
/// bytes taken and the bytes left make up what was there.
pub proof fn reading_loses_nothing(have: Seq<u8>, n: int)
    requires
        0 <= n <= have.len(),
    ensures
        have.take(n) + have.skip(n) == have,
{
    assert(have.take(n) + have.skip(n) =~= have);
}

/// The octets of a file that `reads` took one after another out of what was
/// there, at most so many at a time.
pub open spec fn taken_by(have: Seq<u8>, reads: Seq<nat>) -> Seq<u8>
    decreases reads.len(),
{
    if reads.len() == 0 {
        Seq::empty()
    } else {
        let n = reads[0] as int;
        let k = if n < have.len() {
            n
        } else {
            have.len() as int
        };
        have.take(k) + taken_by(have.skip(k), reads.skip(1))
    }
}

/// However the reads are cut, they bring what was there from its beginning on,
/// in order: what they took together is a part of it that begins where it does.
pub proof fn reads_bring_what_was_there(have: Seq<u8>, reads: Seq<nat>)
    ensures
        taken_by(have, reads).is_prefix_of(have),
    decreases reads.len(),
{
    if reads.len() > 0 {
        let n = reads[0] as int;
        let k = if n < have.len() {
            n
        } else {
            have.len() as int
        };
        let rest = have.skip(k);
        reads_bring_what_was_there(rest, reads.skip(1));
        let t = taken_by(rest, reads.skip(1));
        let all = have.take(k) + t;
        assert(all =~= have.subrange(0, all.len() as int)) by {
            assert forall|i: int| 0 <= i < all.len() implies all[i] == have[i] by {
                if i >= k {
                    assert(t[i - k] == rest[i - k]);
                }
            }
        }
    }
}

} // verus!
