use crate::error::Error;
use crate::storage_io::StorageIo;
use crate::stream::{lemma_read, lemma_same_run, Stream, StreamPos};
use crate::{Fs, Volume};
use vstd::prelude::*;

verus! {

/// The bytes of a file: a stream over its cluster chain, cut off at the
/// size that its directory entry gives.
#[derive(Clone, Copy, Debug, PartialEq, Eq, Structural)]
pub struct File {
    pub stream: Stream,
    pub size: u32,
}

/// The `n` bytes that follow the position of `stream`, and the stream
/// behind them, taken in runs that each end with a sector or with the
/// `n`-th byte.
#[verifier::opaque]
pub open spec fn spec_take(stream: Stream, vol: Volume, n: nat) -> Result<(Stream, Seq<u8>), Error>
    decreases n,
{
    if n == 0 {
        Ok((stream, Seq::<u8>::empty()))
    } else {
        match stream.spec_read(vol, n) {
            Err(e) => Err(e),
            Ok((s, bytes)) => {
                let moved = s.global_offset - stream.global_offset;
                if moved <= 0 || moved > n {
                    Err(Error::EndOfStream)
                } else {
                    match spec_take(s, vol, (n - moved) as nat) {
                        Err(e) => Err(e),
                        Ok((t, rest)) => Ok((t, bytes + rest)),
                    }
                }
            },
        }
    }
}

/// Bytes taken in one more run behind `done` bytes are the bytes taken in
/// one go, as long as every run before ended with its sector.
pub proof fn lemma_take_extend(start: Stream, vol: Volume, done: nat, want: nat)
    requires
        vol.wf(),
        start.wf(vol),
        spec_take(start, vol, done) is Ok,
        done == 0 || spec_take(start, vol, done)->Ok_0.0.offset_in_sector == vol.sector_size,
        want > 0,
        spec_take(start, vol, done)->Ok_0.0.spec_read(vol, want) is Ok,
    ensures
        ({
            let (s, bytes) = spec_take(start, vol, done)->Ok_0;
            let (t, run) = s.spec_read(vol, want)->Ok_0;
            &&& s.wf(vol)
            &&& t.wf(vol)
            &&& 0 < run.len() <= want
            &&& run.len() == t.global_offset - s.global_offset
            &&& run.len() < want ==> t.offset_in_sector == vol.sector_size
            &&& spec_take(start, vol, done + run.len()) == Ok::<(Stream, Seq<u8>), Error>(
                (t, bytes + run),
            )
        }),
    decreases done,
{
    reveal_with_fuel(spec_take, 2);
    let (s, bytes) = spec_take(start, vol, done)->Ok_0;
    if done == 0 {
        let (t, run) = s.spec_read(vol, want)->Ok_0;
        lemma_read(s, vol, want);
        lemma_same_run(s, vol, want, run.len());
        assert(spec_take(t, vol, 0) == Ok::<(Stream, Seq<u8>), Error>((t, Seq::<u8>::empty())));
        assert(run + Seq::<u8>::empty() =~= run);
        assert(bytes + run =~= run);
    } else {
        let (s1, c1) = start.spec_read(vol, done)->Ok_0;
        lemma_read(start, vol, done);
        let moved = c1.len();
        let left = (done - moved) as nat;
        let (s_, rest) = spec_take(s1, vol, left)->Ok_0;
        assert(s_ == s);
        assert(bytes == c1 + rest);
        lemma_take_extend(s1, vol, left, want);
        let (t, run) = s.spec_read(vol, want)->Ok_0;
        if left == 0 {
            assert(s == s1);
        }
        lemma_same_run(start, vol, done, done + run.len());
        assert(done + run.len() - moved == left + run.len());
        assert(c1 + (rest + run) =~= (c1 + rest) + run);
    }
}

/// Taking no bytes leaves the stream where it is.
pub proof fn lemma_take_none(start: Stream, vol: Volume)
    ensures
        spec_take(start, vol, 0) == Ok::<(Stream, Seq<u8>), Error>((start, Seq::<u8>::empty())),
{
    reveal_with_fuel(spec_take, 2);
}

/// The stream behind bytes that were taken is well formed.
pub proof fn lemma_take_wf(start: Stream, vol: Volume, n: nat)
    requires
        vol.wf(),
        start.wf(vol),
        spec_take(start, vol, n) is Ok,
    ensures
        spec_take(start, vol, n)->Ok_0.0.wf(vol),
    decreases n,
{
    reveal_with_fuel(spec_take, 2);
    if n > 0 {
        lemma_read(start, vol, n);
        let (s, bytes) = start.spec_read(vol, n)->Ok_0;
        lemma_take_wf(s, vol, (n - bytes.len()) as nat);
    }
}

impl File {
    /// The file stands at a position that the volume has.
    pub open spec fn wf(self, vol: Volume) -> bool {
        self.stream.wf(vol)
    }

    /// The file of `size` bytes whose contents `stream` reads.
    pub fn new(stream: Stream, size: u32) -> (f: Self)
        ensures
            f.stream == stream,
            f.size == size,
    {
        File { stream, size }
    }

    /// The number of bytes that a read into a buffer of `room` bytes asks
    /// for: what is left of the file, or the room if that is less.
    pub open spec fn wanted(self, room: nat) -> nat {
        if self.size - self.stream.global_offset < room {
            (self.size - self.stream.global_offset) as nat
        } else {
            room
        }
    }

    /// Reads from the position up to the end of the file, or as much as
    /// `buf` takes if that is less, into the front of `buf`.
    ///
    /// At or behind the end of the file the result is `EndOfStream`.
    /// Before it, the stream is read run by run until the request is met
    /// or a run fails. If the first run fails, so does the read; else the
    /// number of bytes read so far is returned, and they are the bytes
    /// that follow the position. The first run does not fail where the
    /// resident sector serves it. The read stops short of the request only
    /// where the stream has no more bytes to give, or where the device
    /// failed, and then the cache stands as `Fs::failed` says.
    pub fn read<T: StorageIo>(&mut self, fs: &mut Fs<T>, buf: &mut [u8]) -> (r: Result<
        usize,
        Error,
    >)
        requires
            old(fs).wf(),
            old(self).wf(old(fs)@),
        ensures
            final(fs).wf(),
            final(fs)@ == old(fs)@,
            final(self).wf(final(fs)@),
            final(self).size == old(self).size,
            final(buf)@.len() == old(buf)@.len(),
            old(self).stream.global_offset >= old(self).size ==> r == Err::<usize, Error>(
                Error::EndOfStream,
            ),
            match r {
                Ok(n) => {
                    &&& old(self).stream.global_offset < old(self).size
                    &&& n <= old(self).wanted(old(buf)@.len())
                    &&& old(self).wanted(old(buf)@.len()) > 0 ==> n > 0
                    &&& n < old(self).wanted(old(buf)@.len()) ==> final(fs).failed()
                        || final(self).stream.spec_read(
                        final(fs)@,
                        (old(self).wanted(old(buf)@.len()) - n) as nat,
                    ) is Err
                    &&& spec_take(old(self).stream, old(fs)@, n as nat) == Ok::<
                        (Stream, Seq<u8>),
                        Error,
                    >((final(self).stream, final(buf)@.subrange(0, n as int)))
                    &&& final(buf)@.skip(n as int) == old(buf)@.skip(n as int)
                },
                Err(e) => {
                    &&& *final(self) == *old(self)
                    &&& final(buf)@ == old(buf)@
                    &&& old(self).stream.global_offset < old(self).size ==> e == Error::Io || (old(
                        self,
                    ).stream.spec_read(old(fs)@, old(self).wanted(old(buf)@.len())) matches Err(x)
                        && x == e)
                },
            },
            old(self).stream.global_offset < old(self).size && old(self).stream.served(
                old(fs),
                old(self).wanted(old(buf)@.len()),
            ) ==> r is Ok,
    {
        let ghost vol = fs@;
        let ghost start = self.stream;
        let pos = match self.stream.seek(fs, StreamPos::Current(0)) {
            Ok(pos) => pos,
            Err(e) => {
                return Err(e);
            },
        };
        if pos >= self.size {
            return Err(Error::EndOfStream);
        }
        let left = (self.size - pos) as usize;
        let want = if buf.len() < left {
            buf.len()
        } else {
            left
        };
        let mut done: usize = 0;
        proof {
            lemma_take_none(start, vol);
            assert(buf@.subrange(0, 0) =~= Seq::<u8>::empty());
        }
        while done < want
            invariant
                fs.wf(),
                fs@ == vol,
                vol == old(fs)@,
                self.stream.wf(vol),
                start == old(self).stream,
                start.wf(vol),
                self.size == old(self).size,
                done <= want,
                want == old(self).wanted(old(buf)@.len()),
                want <= buf@.len(),
                buf@.len() == old(buf)@.len(),
                old(self).stream.global_offset < old(self).size,
                done == 0 ==> *self == *old(self) && buf@ == old(buf)@ && *fs == *old(fs),
                done == 0 || done == want || self.stream.offset_in_sector == vol.sector_size,
                spec_take(start, vol, done as nat) == Ok::<(Stream, Seq<u8>), Error>(
                    (self.stream, buf@.subrange(0, done as int)),
                ),
                buf@.skip(done as int) == old(buf)@.skip(done as int),
            decreases want - done,
        {
            let rest = want - done;
            let ghost before = self.stream;
            let ghost held = buf@;
            match self.stream.read_at(fs, buf, done, rest) {
                Ok(n) => {
                    proof {
                        lemma_take_none(start, vol);
                        lemma_take_wf(start, vol, done as nat);
                        lemma_take_extend(start, vol, done as nat, rest as nat);
                        let run = before.spec_read(vol, rest as nat)->Ok_0.1;
                        assert(buf@.subrange(0, done + n) =~= held.subrange(0, done as int) + run);
                        assert(buf@.skip(done + n) =~= held.skip(done as int).skip(n as int));
                        assert(old(buf)@.skip(done + n) =~= old(buf)@.skip(done as int).skip(
                            n as int,
                        ));
                    }
                    done += n;
                },
                Err(e) => {
                    if done == 0 {
                        return Err(e);
                    }
                    return Ok(done);
                },
            }
        }
        Ok(done)
    }

    /// Moves the position, as `Stream::seek` does, and returns it.
    pub fn seek<T: StorageIo>(&mut self, fs: &mut Fs<T>, pos: StreamPos) -> (r: Result<u32, Error>)
        requires
            old(fs).wf(),
            old(self).wf(old(fs)@),
        ensures
            final(fs).wf(),
            final(fs)@ == old(fs)@,
            final(self).wf(final(fs)@),
            final(self).size == old(self).size,
            match r {
                Ok(p) => {
                    &&& old(self).stream.spec_seek(old(fs)@, pos) == Ok::<Stream, Error>(
                        final(self).stream,
                    )
                    &&& p == final(self).stream.global_offset
                },
                Err(e) => {
                    &&& *final(self) == *old(self)
                    &&& e == Error::Io || old(self).stream.spec_seek(old(fs)@, pos) == Err::<
                        Stream,
                        Error,
                    >(e)
                },
            },
            !old(self).stream.seek_walks(old(fs)@, pos) ==> *final(fs) == *old(fs) && r
                != Err::<u32, Error>(Error::Io),
    {
        self.stream.seek(fs, pos)
    }

    /// Gives the file up. Nothing is pending: a file is only read.
    pub fn close(self) {
    }
}

} // verus!
