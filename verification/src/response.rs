//! The stream that holds an encoded picture: bytes are appended at the end and
//! read back in chunks from a cursor that can be moved.

use vstd::prelude::*;

verus! {

/// No read hands out more bytes than this.
pub const CHUNK: usize = 4096;

/// Where a seek counts from.
#[derive(Debug, Clone, Copy, PartialEq, Eq, Structural)]
pub enum SeekFrom {
    /// From the first byte.
    Start(u64),
    /// From the end of what is stored.
    End(i64),
    /// From the cursor.
    Current(i64),
}

/// A growing run of bytes and a cursor into it.
pub struct Image {
    pub raw: Vec<u8>,
    pos: u64,
}

/// `n` as a 64-bit unsigned position: itself where it fits, and else what is
/// left of it after whole multiples of 2 to the 64 are taken away or added.
pub open spec fn wrapped(n: int) -> nat {
    (n % 0x1_0000_0000_0000_0000) as nat
}

/// What a stream is, to its callers: the bytes it stores, which the field
/// `raw` holds, and where its cursor stands.
pub struct Stream {
    pub bytes: Seq<u8>,
    pub cursor: nat,
}

impl Stream {
    /// Whether the cursor stands inside the stream or at its end.
    pub open spec fn in_bounds(self) -> bool {
        self.cursor <= self.bytes.len()
    }

    /// How many bytes lie between the cursor and the end: none where the
    /// cursor is past the end.
    pub open spec fn remaining(self) -> nat {
        if self.in_bounds() {
            (self.bytes.len() - self.cursor) as nat
        } else {
            0
        }
    }

    /// The stream after `data` is appended.
    pub open spec fn written(self, data: Seq<u8>) -> Stream {
        Stream { bytes: self.bytes + data, cursor: self.cursor }
    }

    /// How many bytes one read into a buffer of `capacity` bytes hands out:
    /// all that are left and fit, but no more than a chunk.
    pub open spec fn read_count(self, capacity: nat) -> nat {
        if self.remaining() <= capacity && self.remaining() <= CHUNK {
            self.remaining()
        } else if capacity <= CHUNK {
            capacity
        } else {
            CHUNK as nat
        }
    }

    /// The bytes that one read into a buffer of `capacity` bytes hands out.
    pub open spec fn read_bytes(self, capacity: nat) -> Seq<u8> {
        if self.in_bounds() {
            self.bytes.subrange(
                self.cursor as int,
                (self.cursor + self.read_count(capacity)) as int,
            )
        } else {
            Seq::empty()
        }
    }

    /// The stream after one read into a buffer of `capacity` bytes.
    pub open spec fn after_read(self, capacity: nat) -> Stream {
        Stream { bytes: self.bytes, cursor: self.cursor + self.read_count(capacity) }
    }

    /// The stream after a seek. Nothing holds the cursor inside the stream.
    pub open spec fn sought(self, origin: SeekFrom) -> Stream {
        Stream {
            bytes: self.bytes,
            cursor: match origin {
                SeekFrom::Start(n) => n as nat,
                SeekFrom::End(n) => wrapped(self.bytes.len() + n),
                SeekFrom::Current(n) => wrapped(self.cursor + n),
            },
        }
    }
}

impl View for Image {
    type V = Stream;

    closed spec fn view(&self) -> Stream {
        Stream { bytes: self.raw@, cursor: self.pos as nat }
    }
}

impl Image {
    /// An empty stream, its cursor at the start.
    pub fn new() -> (image: Image)
        ensures
            image@ == (Stream { bytes: Seq::empty(), cursor: 0 }),
    {
        Image { raw: Vec::new(), pos: 0 }
    }

    /// A stream that holds `bytes`, its cursor at the start.
    pub fn from_bytes(bytes: &[u8]) -> (image: Image)
        ensures
            image@ == (Stream { bytes: bytes@, cursor: 0 }),
    {
        let mut image = Image::new();
        image.write(bytes);
        image
    }

    /// The stored bytes, from the first to the last, wherever the cursor
    /// stands.
    pub fn as_bytes(&self) -> (bytes: &[u8])
        ensures
            bytes@ == self@.bytes,
    {
        self.raw.as_slice()
    }

    /// Appends all of `buf` at the end, wherever the cursor stands, and
    /// reports how many bytes that was.
    pub fn write(&mut self, buf: &[u8]) -> (written: usize)
        ensures
            final(self)@ == old(self)@.written(buf@),
            written == buf@.len(),
    {
        let ghost before = self.raw@;
        self.raw.extend_from_slice(buf);
        assert(self.raw@ =~= before + buf@);
        assert(Seq::<u8>::empty() + buf@ =~= buf@);
        buf.len()
    }

    /// Does nothing: what was written is stored already.
    pub fn flush(&mut self)
        ensures
            final(self)@ == old(self)@,
    {
    }

    /// Copies the next bytes from the cursor to the front of `buf` and moves
    /// the cursor past them. At the end of the stream, and beyond it, that is
    /// no byte at all.
    pub fn read(&mut self, buf: &mut [u8]) -> (count: usize)
        ensures
            count == old(self)@.read_count(old(buf)@.len()),
            final(self)@ == old(self)@.after_read(old(buf)@.len()),
            final(buf)@ == old(self)@.read_bytes(old(buf)@.len()) + old(buf)@.skip(count as int),
    {
        let len: usize = self.raw.len();
        if self.pos >= len as u64 {
            assert(buf@ =~= Seq::<u8>::empty() + buf@.skip(0));
            assert(self.raw@.subrange(len as int, len as int) =~= Seq::<u8>::empty());
            return 0;
        }
        let start: usize = self.pos as usize;
        let mut count: usize = len - start;
        if count > buf.len() {
            count = buf.len();
        }
        if count > CHUNK {
            count = CHUNK;
        }
        let ghost target = buf@;
        let mut i: usize = 0;
        while i < count
            invariant
                i <= count,
                start + count <= len,
                len == self.raw@.len(),
                count <= target.len(),
                buf@.len() == target.len(),
                buf@ == self.raw@.subrange(start as int, start + i) + target.skip(i as int),
            decreases count - i,
        {
            buf[i] = self.raw[start + i];
            assert(buf@ =~= self.raw@.subrange(start as int, start + i + 1) + target.skip(i + 1));
            i = i + 1;
        }
        self.pos = (start + count) as u64;
        count
    }

    /// Moves the cursor to `n` bytes from the start, from the end, or from
    /// where it stands, and reports where it then is. The stored bytes stay
    /// as they are. The cursor ends inside the stream only if the target
    /// lies there.
    pub fn seek(&mut self, pos: SeekFrom) -> (position: u64)
        ensures
            final(self)@ == old(self)@.sought(pos),
            position == final(self)@.cursor,
    {
        match pos {
            SeekFrom::Start(n) => {
                self.pos = n;
            },
            SeekFrom::End(n) => {
                self.pos = offset(self.raw.len() as u64, n);
            },
            SeekFrom::Current(n) => {
                self.pos = offset(self.pos, n);
            },
        };
        self.pos
    }
}

/// `base + n`, wrapped into 64 bits.
fn offset(base: u64, n: i64) -> (moved: u64)
    ensures
        moved == wrapped(base + n),
{
    let sum: i128 = base as i128 + n as i128;
    if sum < 0 {
        (sum + 0x1_0000_0000_0000_0000) as u64
    } else if sum >= 0x1_0000_0000_0000_0000 {
        (sum - 0x1_0000_0000_0000_0000) as u64
    } else {
        sum as u64
    }
}

/// A cursor inside the stream stays inside it through every write and every
/// read. A seek leaves it inside exactly when its target lies there. This is
/// said of streams no longer than a vector can be.
pub proof fn lemma_cursor_in_bounds(stream: Stream, data: Seq<u8>, capacity: nat, origin: SeekFrom)
    requires
        stream.in_bounds(),
        stream.bytes.len() <= i64::MAX,
    ensures
        stream.written(data).in_bounds(),
        stream.after_read(capacity).in_bounds(),
        origin matches SeekFrom::Start(n) ==> (stream.sought(origin).in_bounds() <==> n
            <= stream.bytes.len()),
        origin matches SeekFrom::End(n) ==> (stream.sought(origin).in_bounds() <==> 0
            <= stream.bytes.len() + n <= stream.bytes.len()),
        origin matches SeekFrom::Current(n) ==> (stream.sought(origin).in_bounds() <==> 0
            <= stream.cursor + n <= stream.bytes.len()),
{
}

/// The stream after each of `pieces` is written in turn.
pub open spec fn written_all(stream: Stream, pieces: Seq<Seq<u8>>) -> Stream
    decreases pieces.len(),
{
    if pieces.len() == 0 {
        stream
    } else {
        written_all(stream, pieces.drop_last()).written(pieces.last())
    }
}

/// All that comes out of a stream when it is read with a buffer of one chunk
/// until a read hands out nothing.
pub open spec fn drained(stream: Stream) -> Seq<u8>
    decreases stream.remaining(),
{
    if stream.read_count(CHUNK as nat) == 0 {
        Seq::empty()
    } else {
        stream.read_bytes(CHUNK as nat) + drained(stream.after_read(CHUNK as nat))
    }
}

/// How many reads that takes, the one that hands out nothing counted in.
pub open spec fn reads_to_drain(stream: Stream) -> nat
    decreases stream.remaining(),
{
    if stream.read_count(CHUNK as nat) == 0 {
        1
    } else {
        1 + reads_to_drain(stream.after_read(CHUNK as nat))
    }
}

/// Writes pile up at the end and leave the cursor alone.
pub proof fn lemma_written_all(stream: Stream, pieces: Seq<Seq<u8>>)
    ensures
        written_all(stream, pieces).bytes == stream.bytes + pieces.flatten(),
        written_all(stream, pieces).cursor == stream.cursor,
    decreases pieces.len(),
{
    pieces.lemma_flatten_and_flatten_alt_are_equivalent();
    if pieces.len() == 0 {
        assert(stream.bytes + pieces.flatten() == stream.bytes);
    } else {
        lemma_written_all(stream, pieces.drop_last());
        pieces.drop_last().lemma_flatten_and_flatten_alt_are_equivalent();
        assert(stream.bytes + pieces.drop_last().flatten() + pieces.last() == stream.bytes
            + pieces.flatten());
    }
}

/// Reading a stream chunk by chunk hands out what lies from the cursor to
/// the end, in order, in as many reads as there are chunks, the last of
/// which may be short, and one more that hands out nothing.
pub proof fn lemma_drained(stream: Stream)
    requires
        stream.in_bounds(),
    ensures
        drained(stream) == stream.bytes.skip(stream.cursor as int),
        reads_to_drain(stream) == (stream.remaining() + CHUNK - 1) / (CHUNK as int) + 1,
    decreases stream.remaining(),
{
    if stream.read_count(CHUNK as nat) == 0 {
        assert(stream.bytes.skip(stream.cursor as int) == Seq::<u8>::empty());
    } else {
        let next = stream.after_read(CHUNK as nat);
        lemma_drained(next);
        assert(stream.read_bytes(CHUNK as nat) + next.bytes.skip(next.cursor as int)
            == stream.bytes.skip(stream.cursor as int));
    }
}

/// Whatever is written into a fresh stream, in however many pieces, comes
/// back whole and in order when the stream is read from the start with a
/// buffer of one chunk: in one read for each 4096 bytes or part of them, and
/// one more that hands out nothing.
pub proof fn lemma_read_back(pieces: Seq<Seq<u8>>)
    ensures
        ({
            let fresh = Stream { bytes: Seq::empty(), cursor: 0 };
            let stream = written_all(fresh, pieces).sought(SeekFrom::Start(0));
            &&& drained(stream) == pieces.flatten()
            &&& reads_to_drain(stream) == (pieces.flatten().len() + 4095) / 4096 + 1
        }),
{
    let fresh = Stream { bytes: Seq::empty(), cursor: 0 };
    lemma_written_all(fresh, pieces);
    let stream = written_all(fresh, pieces).sought(SeekFrom::Start(0));
    assert(stream.bytes == pieces.flatten());
    lemma_drained(stream);
    assert(stream.bytes.skip(0) == stream.bytes);
}

} // verus!
