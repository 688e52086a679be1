//! Byte sinks that file reads write into.

use vstd::prelude::*;

verus! {

/// Why a write failed.
#[derive(Debug, Clone, Copy, PartialEq, Eq, Structural)]
pub enum WriterError {
    /// The write was asked for at an offset that the writer cannot take.
    InvalidOffset,
}

impl WriterError {
    /// The message that describes the error.
    pub fn message(&self) -> (r: &'static str)
        ensures
            r@ == "Write operation failed due to an invalid offset"@,
    {
        match self {
            WriterError::InvalidOffset => "Write operation failed due to an invalid offset",
        }
    }
}

/// A sink for bytes.
pub trait Write: Sized {
    /// Whether writing `bytes` to `before` may leave the writer as `after` and
    /// give back `r`.
    spec fn writes(before: Self, bytes: Seq<u8>, after: Self, r: Result<usize, WriterError>) -> bool;

    /// Writes a prefix of `bytes` and gives back how many bytes it took.
    fn write(&mut self, bytes: &[u8]) -> (r: Result<usize, WriterError>)
        ensures
            Self::writes(*old(self), bytes@, *final(self), r),
    ;
}

/// Ignorer is a writer that ignores the first `count` bytes written to it,
/// then writes the rest to the underlying writer.
pub struct Ignorer<T: Write> {
    count: usize,
    writer: T,
}

impl<T: Write> Ignorer<T> {
    /// How many bytes are still to be ignored.
    pub closed spec fn to_ignore(self) -> nat {
        self.count as nat
    }

    /// The writer that takes the bytes after the ignored ones.
    pub closed spec fn inner(self) -> T {
        self.writer
    }

    /// The writer that drops the first `count` bytes and hands the rest to `writer`.
    pub closed spec fn of(count: usize, writer: T) -> Self {
        Ignorer { count, writer }
    }

    /// A writer that drops the first `count` bytes and hands the rest to `writer`.
    pub fn ignoring(count: usize, writer: T) -> (r: Self)
        ensures
            r == Self::of(count, writer),
            r.to_ignore() == count,
            r.inner() == writer,
    {
        Ignorer { count, writer }
    }

    /// The writer that took the bytes after the ignored ones.
    pub fn into_inner(self) -> (r: T)
        ensures
            r == self.inner(),
    {
        self.writer
    }
}

impl<T: Write> Write for Ignorer<T> {
    /// While bytes are still to be ignored, a write drops as many of them as
    /// it can; if that is all of them it gives back 0 and the inner writer is
    /// left alone, otherwise the rest goes to the inner writer, whose answer
    /// comes back.
    open spec fn writes(before: Self, bytes: Seq<u8>, after: Self, r: Result<usize, WriterError>) -> bool {
        if before.to_ignore() > 0 {
            let dropped = if bytes.len() < before.to_ignore() {
                bytes.len()
            } else {
                before.to_ignore()
            };
            &&& after.to_ignore() == before.to_ignore() - dropped
            &&& if dropped == bytes.len() {
                after.inner() == before.inner() && r == Ok::<usize, WriterError>(0)
            } else {
                T::writes(before.inner(), bytes.skip(dropped as int), after.inner(), r)
            }
        } else {
            after.to_ignore() == 0 && T::writes(before.inner(), bytes, after.inner(), r)
        }
    }

    fn write(&mut self, bytes: &[u8]) -> (r: Result<usize, WriterError>) {
        if self.count > 0 {
            let to_ignore = if bytes.len() < self.count {
                bytes.len()
            } else {
                self.count
            };
            self.count = self.count - to_ignore;
            if to_ignore == bytes.len() {
                return Ok(0);
            }
            let rest = slice_skip(bytes, to_ignore);
            self.writer.write(rest.as_slice())
        } else {
            self.writer.write(bytes)
        }
    }
}

/// How many of the `len` bytes of a chunk an ignorer with `count` bytes
/// still to ignore drops: all of them, or `count` if that is fewer.
pub open spec fn dropped(count: nat, len: nat) -> nat {
    if len < count {
        len
    } else {
        count
    }
}

/// The parts of `chunks` that an [`Ignorer`] with `count` bytes still to
/// ignore hands on to its inner writer when the chunks are written to it in
/// turn: each chunk without the bytes that are dropped from it.
pub open spec fn handed_on(count: nat, chunks: Seq<Seq<u8>>) -> Seq<Seq<u8>>
    decreases chunks.len(),
{
    if chunks.len() == 0 {
        Seq::empty()
    } else {
        let d = dropped(count, chunks[0].len());
        seq![chunks[0].skip(d as int)] + handed_on((count - d) as nat, chunks.drop_first())
    }
}

/// Writing `chunks` in turn to an ignorer, which passes through `states` and
/// gives back `results`, hands on to its inner writer, in all, the bytes of
/// the chunks after the first `count` of them (none if there are fewer),
/// however the bytes are split into chunks, and leaves `count` less the
/// dropped bytes still to ignore.  Each chunk's part goes to the inner
/// writer in one write of it, except a chunk dropped whole while bytes were
/// still to be ignored, which leaves the inner writer alone and gives back 0.
pub proof fn lemma_ignorer_writes<T: Write>(
    states: Seq<Ignorer<T>>,
    chunks: Seq<Seq<u8>>,
    results: Seq<Result<usize, WriterError>>,
)
    requires
        states.len() == chunks.len() + 1,
        results.len() == chunks.len(),
        forall|i: int|
            #![trigger chunks[i]]
            0 <= i < chunks.len() ==> Ignorer::<T>::writes(states[i], chunks[i], states[i + 1], results[i]),
    ensures
        handed_on(states[0].to_ignore(), chunks).len() == chunks.len(),
        handed_on(states[0].to_ignore(), chunks).flatten() == chunks.flatten().skip(
            dropped(states[0].to_ignore(), chunks.flatten().len()) as int,
        ),
        states.last().to_ignore() == states[0].to_ignore() - dropped(states[0].to_ignore(), chunks.flatten().len()),
        forall|i: int|
            0 <= i < chunks.len() ==> #[trigger] handed_on(states[0].to_ignore(), chunks)[i] == chunks[i].skip(
                dropped(states[i].to_ignore(), chunks[i].len()) as int,
            ),
        forall|i: int|
            0 <= i < chunks.len() ==> if states[i].to_ignore() > 0 && chunks[i].len() <= states[i].to_ignore() {
                states[i + 1].inner() == states[i].inner() && results[i] == Ok::<usize, WriterError>(0)
            } else {
                T::writes(
                    states[i].inner(),
                    #[trigger] handed_on(states[0].to_ignore(), chunks)[i],
                    states[i + 1].inner(),
                    results[i],
                )
            },
    decreases chunks.len(),
{
    let n = states[0].to_ignore();
    if chunks.len() == 0 {
        assert(chunks.flatten() =~= Seq::<u8>::empty());
        assert(handed_on(n, chunks).flatten() =~= Seq::<u8>::empty());
    } else {
        let c0 = chunks[0];
        let d = dropped(n, c0.len());
        let rest = chunks.drop_first();
        let rest_states = states.drop_first();
        let rest_results = results.drop_first();
        assert(Ignorer::<T>::writes(states[0], chunks[0], states[1], results[0]));
        assert forall|i: int| #![trigger rest[i]] 0 <= i < rest.len() implies Ignorer::<T>::writes(
            rest_states[i],
            rest[i],
            rest_states[i + 1],
            rest_results[i],
        ) by {
            assert(Ignorer::<T>::writes(states[i + 1], chunks[i + 1], states[i + 2], results[i + 1]));
        }
        lemma_ignorer_writes(rest_states, rest, rest_results);
        let m = rest_states[0].to_ignore();
        assert(m == n - d);
        let head = seq![c0.skip(d as int)];
        let tail = handed_on(m, rest);
        assert(handed_on(n, chunks) == head + tail);
        assert((head + tail).drop_first() =~= tail);
        assert((head + tail).first() == c0.skip(d as int));
        assert(chunks.first() == c0);
        let rf = rest.flatten();
        assert(chunks.flatten() == c0 + rf);
        let total = chunks.flatten().len();
        assert(total == c0.len() + rf.len());
        if n <= c0.len() {
            assert(m == 0);
            assert(rf.skip(0) =~= rf);
            assert((c0 + rf).skip(n as int) =~= c0.skip(n as int) + rf);
        } else {
            assert(c0.skip(d as int) =~= Seq::<u8>::empty());
            assert((c0 + rf).skip(dropped(n, total) as int) =~= rf.skip(dropped(m, rf.len()) as int));
        }
        assert(handed_on(n, chunks).flatten() == c0.skip(d as int) + tail.flatten());
        assert forall|i: int| 0 <= i < chunks.len() implies (if states[i].to_ignore() > 0 && chunks[i].len()
            <= states[i].to_ignore() {
            states[i + 1].inner() == states[i].inner() && results[i] == Ok::<usize, WriterError>(0)
        } else {
            T::writes(
                states[i].inner(),
                #[trigger] handed_on(n, chunks)[i],
                states[i + 1].inner(),
                results[i],
            )
        }) by {
            if i == 0 {
                assert(handed_on(n, chunks)[0] == c0.skip(d as int));
                if n == 0 {
                    assert(c0.skip(0) =~= c0);
                }
            } else {
                assert(handed_on(n, chunks)[i] == tail[i - 1]);
                assert(rest_states[i - 1] == states[i]);
                assert(rest[i - 1] == chunks[i]);
            }
        }
        assert forall|i: int| 0 <= i < chunks.len() implies #[trigger] handed_on(n, chunks)[i] == chunks[i].skip(
            dropped(states[i].to_ignore(), chunks[i].len()) as int,
        ) by {
            if i == 0 {
                assert(handed_on(n, chunks)[0] == c0.skip(d as int));
            } else {
                assert(handed_on(n, chunks)[i] == tail[i - 1]);
                assert(rest_states[i - 1] == states[i]);
                assert(rest[i - 1] == chunks[i]);
            }
        }
    }
}

/// The sum of the counts that the successful writes among `results` gave back.
pub open spec fn ok_total(results: Seq<Result<usize, WriterError>>) -> int
    decreases results.len(),
{
    if results.len() == 0 {
        0
    } else {
        (match results[0] {
            Ok(n) => n as int,
            Err(_) => 0,
        }) + ok_total(results.drop_first())
    }
}

/// The total length of the pieces `pieces`.
proof fn lemma_flatten_len(pieces: Seq<Seq<u8>>, results: Seq<Result<usize, WriterError>>)
    requires
        results.len() == pieces.len(),
        forall|i: int| 0 <= i < pieces.len() ==> #[trigger] results[i] == Ok::<usize, WriterError>(
            pieces[i].len() as usize,
        ) && pieces[i].len() <= usize::MAX,
    ensures
        ok_total(results) == pieces.flatten().len(),
    decreases pieces.len(),
{
    if pieces.len() > 0 {
        assert forall|i: int| 0 <= i < pieces.drop_first().len() implies #[trigger] results.drop_first()[i]
            == Ok::<usize, WriterError>(pieces.drop_first()[i].len() as usize)
            && pieces.drop_first()[i].len() <= usize::MAX by {
            assert(results[i + 1] == Ok::<usize, WriterError>(pieces[i + 1].len() as usize));
        }
        lemma_flatten_len(pieces.drop_first(), results.drop_first());
        assert(results[0] == Ok::<usize, WriterError>(pieces[0].len() as usize));
    }
}

/// When the inner writer takes whole every piece handed to it, the counts
/// that the writes to an ignorer give back add up to the number of bytes
/// after the first `count`: the total length less the bytes dropped.
pub proof fn lemma_ignorer_counts<T: Write>(
    states: Seq<Ignorer<T>>,
    chunks: Seq<Seq<u8>>,
    results: Seq<Result<usize, WriterError>>,
)
    requires
        states.len() == chunks.len() + 1,
        results.len() == chunks.len(),
        forall|i: int|
            #![trigger chunks[i]]
            0 <= i < chunks.len() ==> Ignorer::<T>::writes(states[i], chunks[i], states[i + 1], results[i]),
        forall|i: int| 0 <= i < chunks.len() ==> #[trigger] chunks[i].len() <= usize::MAX,
        forall|i: int|
            #![trigger chunks[i]]
            0 <= i < chunks.len() && !(states[i].to_ignore() > 0 && chunks[i].len() <= states[i].to_ignore())
                ==> results[i] == Ok::<usize, WriterError>(
                handed_on(states[0].to_ignore(), chunks)[i].len() as usize,
            ),
    ensures
        ok_total(results) == chunks.flatten().len() - dropped(states[0].to_ignore(), chunks.flatten().len()),
{
    lemma_ignorer_writes(states, chunks, results);
    let pieces = handed_on(states[0].to_ignore(), chunks);
    assert forall|i: int| 0 <= i < pieces.len() implies #[trigger] results[i] == Ok::<usize, WriterError>(
        pieces[i].len() as usize,
    ) && pieces[i].len() <= usize::MAX by {
        assert(chunks[i].len() <= usize::MAX);
        assert(pieces[i] == chunks[i].skip(dropped(states[i].to_ignore(), chunks[i].len()) as int));
        if states[i].to_ignore() > 0 && chunks[i].len() <= states[i].to_ignore() {
            assert(results[i] == Ok::<usize, WriterError>(0));
            assert(pieces[i].len() == 0);
        }
    }
    lemma_flatten_len(pieces, results);
}

/// The bytes of `bytes` after the first `from`.
pub(crate) fn slice_skip(bytes: &[u8], from: usize) -> (r: Vec<u8>)
    requires
        from <= bytes@.len(),
    ensures
        r@ == bytes@.skip(from as int),
{
    let mut r: Vec<u8> = Vec::new();
    let mut i: usize = from;
    while i < bytes.len()
        invariant
            from <= i <= bytes@.len(),
            r@ == bytes@.subrange(from as int, i as int),
        decreases bytes@.len() - i,
    {
        r.push(bytes[i]);
        i = i + 1;
        assert(r@ =~= bytes@.subrange(from as int, i as int));
    }
    r
}

/// A writer into a buffer of fixed size, from its start on.
pub struct Cursor {
    position: usize,
    buffer: Vec<u8>,
}

impl Cursor {
    /// How many bytes have been written.
    pub closed spec fn pos(self) -> nat {
        self.position as nat
    }

    /// The buffer.
    pub closed spec fn contents(self) -> Seq<u8> {
        self.buffer@
    }

    /// A cursor at the start of `buffer`.
    pub fn new(buffer: Vec<u8>) -> (r: Self)
        ensures
            r.pos() == 0,
            r.contents() == buffer@,
    {
        Cursor { position: 0, buffer }
    }

    /// How many bytes have been written.
    pub fn position(&self) -> (r: usize)
        ensures
            r == self.pos(),
    {
        self.position
    }

    /// The buffer, with what was written in its first bytes.
    pub fn into_inner(self) -> (r: Vec<u8>)
        ensures
            r@ == self.contents(),
    {
        self.buffer
    }
}

impl Write for Cursor {
    /// An empty write takes nothing; otherwise as many bytes as fit in the
    /// rest of the buffer are copied there, the position moves past them and
    /// their number comes back.  A cursor made by `new` never fails: its
    /// position never passes the end of its buffer.
    open spec fn writes(before: Self, bytes: Seq<u8>, after: Self, r: Result<usize, WriterError>) -> bool {
        let room = if before.pos() <= before.contents().len() {
            before.contents().len() - before.pos()
        } else {
            0
        };
        let n = if bytes.len() < room {
            bytes.len() as int
        } else {
            room
        };
        if bytes.len() == 0 {
            after == before && r == Ok::<usize, WriterError>(0)
        } else if before.pos() + n > before.contents().len() {
            after == before && r == Err::<usize, WriterError>(WriterError::InvalidOffset)
        } else {
            &&& r == Ok::<usize, WriterError>(n as usize)
            &&& after.pos() == before.pos() + n
            &&& after.contents() == before.contents().take(before.pos() as int) + bytes.take(n)
                + before.contents().skip(before.pos() + n)
        }
    }

    fn write(&mut self, bytes: &[u8]) -> (r: Result<usize, WriterError>) {
        if bytes.len() == 0 {
            return Ok(0);
        }
        let room = if self.position <= self.buffer.len() {
            self.buffer.len() - self.position
        } else {
            0
        };
        let len = if bytes.len() < room {
            bytes.len()
        } else {
            room
        };
        if self.position + len > self.buffer.len() {
            return Err(WriterError::InvalidOffset);
        }
        let ghost start = self.buffer@;
        let blen = self.buffer.len();
        let mut i: usize = 0;
        while i < len
            invariant
                self.position == old(self).position,
                self.buffer@.len() == blen,
                self.position + len <= blen,
                len <= bytes@.len(),
                i <= len,
                self.buffer@.len() == start.len(),
                self.buffer@ == start.take(self.position as int) + bytes@.take(i as int) + start.skip(
                    self.position + i,
                ),
            decreases len - i,
        {
            let p = self.position + i;
            self.buffer.set(p, bytes[i]);
            i = i + 1;
            assert(self.buffer@ =~= start.take(self.position as int) + bytes@.take(i as int)
                + start.skip(self.position + i));
        }
        self.position = self.position + len;
        Ok(len)
    }
}

} // verus!
