use vstd::prelude::*;

verus! {

/// The largest payload that one frame can carry.
pub const MAX_FRAME_LEN: usize = 65535;

/// The length that a two-byte big-endian prefix states.
pub open spec fn prefix_len(hi: u8, lo: u8) -> nat {
    hi as nat * 256 + lo as nat
}

/// The bytes of one frame on the wire: the payload's length as two big-endian
/// bytes, then the payload.
pub open spec fn encoded(p: Seq<u8>) -> Seq<u8> {
    seq![(p.len() / 256) as u8, (p.len() % 256) as u8] + p
}

/// The wire form of a sequence of frames written back to back.
pub open spec fn encoded_all(frames: Seq<Seq<u8>>) -> Seq<u8>
    decreases frames.len(),
{
    if frames.len() == 0 {
        Seq::empty()
    } else {
        encoded(frames[0]) + encoded_all(frames.drop_first())
    }
}

/// Whether `s` is exactly one whole frame.
pub open spec fn is_whole_frame(s: Seq<u8>) -> bool {
    s.len() >= 2 && s.len() == 2 + prefix_len(s[0], s[1])
}

/// How many more bytes the frame that `pending` starts needs: up to the end of
/// the length prefix while that is incomplete, else up to the end of the payload.
pub open spec fn wanted(pending: Seq<u8>) -> int {
    if pending.len() < 2 {
        2 - pending.len()
    } else {
        2 + prefix_len(pending[0], pending[1]) - pending.len()
    }
}

/// Whether `pending` can stand between two reads: a proper beginning of a frame.
pub open spec fn is_partial_frame(pending: Seq<u8>) -> bool {
    wanted(pending) > 0
}

/// One read of the decoder: the bytes kept afterwards, and the frame that the
/// read completed, if any.
pub open spec fn decode_step(pending: Seq<u8>, data: Seq<u8>) -> (Seq<u8>, Option<Seq<u8>>) {
    let s = pending + data;
    if is_whole_frame(s) {
        (Seq::empty(), Some(s.subrange(2, s.len() as int)))
    } else {
        (s, None)
    }
}

/// Whether each chunk, handed to the decoder in turn from `pending` on, is no
/// longer than what the decoder asks for at that point.
pub open spec fn chunks_fit(pending: Seq<u8>, chunks: Seq<Seq<u8>>) -> bool
    decreases chunks.len(),
{
    if chunks.len() == 0 {
        true
    } else {
        chunks[0].len() <= wanted(pending) && chunks_fit(
            decode_step(pending, chunks[0]).0,
            chunks.drop_first(),
        )
    }
}

/// The frames that the decoder yields when handed `chunks` in turn from
/// `pending` on, and the bytes that it keeps at the end.
pub open spec fn decode_chunks(pending: Seq<u8>, chunks: Seq<Seq<u8>>) -> (Seq<Seq<u8>>, Seq<u8>)
    decreases chunks.len(),
{
    if chunks.len() == 0 {
        (Seq::empty(), pending)
    } else {
        let (next, out) = decode_step(pending, chunks[0]);
        let (rest, last) = decode_chunks(next, chunks.drop_first());
        match out {
            Some(f) => (seq![f] + rest, last),
            None => (rest, last),
        }
    }
}

/// The concatenation of a sequence of chunks.
pub open spec fn joined(chunks: Seq<Seq<u8>>) -> Seq<u8>
    decreases chunks.len(),
{
    if chunks.len() == 0 {
        Seq::empty()
    } else {
        chunks[0] + joined(chunks.drop_first())
    }
}

/// Why a frame could not be written or read.
#[derive(Debug, Clone, Copy, PartialEq, Eq, Structural)]
pub enum FrameError {
    /// The payload is longer than a frame can carry.
    TooLong,
    /// The stream ended inside a frame.
    UnexpectedEof,
}

/// Encodes `payload` as one frame: its length as two big-endian bytes, then
/// the payload. Fails, producing no bytes, when the payload is too long.
pub fn encode_frame(payload: &[u8]) -> (r: Result<Vec<u8>, FrameError>)
    ensures
        payload@.len() <= MAX_FRAME_LEN ==> r == Ok::<Vec<u8>, FrameError>(r->Ok_0) && r->Ok_0@
            == encoded(payload@),
        payload@.len() > MAX_FRAME_LEN ==> r == Err::<Vec<u8>, FrameError>(FrameError::TooLong),
{
    let n = payload.len();
    if n > MAX_FRAME_LEN {
        return Err(FrameError::TooLong);
    }
    let mut out: Vec<u8> = Vec::with_capacity(n + 2);
    out.push((n / 256) as u8);
    out.push((n % 256) as u8);
    let mut i: usize = 0;
    while i < n
        invariant
            n == payload@.len(),
            i <= n,
            out@ == seq![(n / 256) as u8, (n % 256) as u8] + payload@.subrange(0, i as int),
        decreases n - i,
    {
        out.push(payload[i]);
        i = i + 1;
        assert(payload@.subrange(0, i as int) == payload@.subrange(0, i - 1) + seq![payload@[i - 1]]);
    }
    assert(payload@.subrange(0, n as int) == payload@);
    Ok(out)
}

/// Appends the bytes of `data` to `v`.
fn append(v: &mut Vec<u8>, data: &[u8])
    ensures
        final(v)@ == old(v)@ + data@,
{
    let mut i: usize = 0;
    while i < data.len()
        invariant
            i <= data@.len(),
            v@ == old(v)@ + data@.subrange(0, i as int),
        decreases data@.len() - i,
    {
        v.push(data[i]);
        i = i + 1;
        assert(data@.subrange(0, i as int) == data@.subrange(0, i - 1) + seq![data@[i - 1]]);
    }
    assert(data@.subrange(0, data@.len() as int) == data@);
}

/// Where the decoder stands inside the frame that it is reading.
enum State {
    /// `remaining` bytes of the length prefix are still to come.
    ReadingLength { remaining: usize },
    /// `remaining` bytes of a payload of `total` bytes are still to come.
    ReadingPayload { remaining: usize, total: usize },
}

/// Incremental decoder of frames. It is handed the bytes of the stream as the
/// transport delivers them, in pieces of any size up to what it asks for, and
/// gives back each frame once its last byte has come.
pub struct Reader {
    header: Vec<u8>,
    payload: Vec<u8>,
    state: State,
}

impl View for Reader {
    type V = Seq<u8>;

    /// The bytes of the frame in progress that have come so far.
    closed spec fn view(&self) -> Seq<u8> {
        self.header@ + self.payload@
    }
}

impl Reader {
    /// The decoder's internal consistency: its state agrees with the bytes it holds.
    pub closed spec fn inv(&self) -> bool {
        &&& self.header@.len() <= 2
        &&& match self.state {
            State::ReadingLength { remaining } => {
                &&& self.header@.len() < 2
                &&& remaining == 2 - self.header@.len()
                &&& self.payload@.len() == 0
            },
            State::ReadingPayload { remaining, total } => {
                &&& self.header@.len() == 2
                &&& total == prefix_len(self.header@[0], self.header@[1])
                &&& self.payload@.len() + remaining == total
                &&& remaining > 0
            },
        }
    }

    /// A decoder at the start of a stream, awaiting a length prefix.
    pub fn new() -> (r: Reader)
        ensures
            r.inv(),
            r@ == Seq::<u8>::empty(),
    {
        let r = Reader {
            header: Vec::new(),
            payload: Vec::new(),
            state: State::ReadingLength { remaining: 2 },
        };
        assert(r@ =~= Seq::<u8>::empty());
        r
    }

    /// How many bytes the decoder asks for next: never none.
    pub fn want(&self) -> (r: usize)
        requires
            self.inv(),
        ensures
            r == wanted(self@),
            r > 0,
    {
        match self.state {
            State::ReadingLength { remaining } => remaining,
            State::ReadingPayload { remaining, total } => {
                assert(self@[0] == self.header@[0] && self@[1] == self.header@[1]);
                remaining
            },
        }
    }

    /// Takes the bytes that one read of the stream delivered, at most as many
    /// as `want` asked for, and returns the frame that they complete, if any.
    pub fn read(&mut self, data: &[u8]) -> (r: Option<Vec<u8>>)
        requires
            old(self).inv(),
            data@.len() <= wanted(old(self)@),
        ensures
            final(self).inv(),
            final(self)@ == decode_step(old(self)@, data@).0,
            match r {
                Some(f) => decode_step(old(self)@, data@).1 == Some(f@),
                None => decode_step(old(self)@, data@).1 == None::<Seq<u8>>,
            },
    {
        let ghost s = old(self)@ + data@;
        match self.state {
            State::ReadingLength { remaining } => {
                append(&mut self.header, data);
                assert(self.header@ == s);
                if self.header.len() == 2 {
                    let total = self.header[0] as usize * 256 + self.header[1] as usize;
                    if total == 0 {
                        self.header = Vec::new();
                        self.state = State::ReadingLength { remaining: 2 };
                        assert(s.subrange(2, 2) =~= Seq::<u8>::empty());
                        assert(self@ =~= Seq::<u8>::empty());
                        Some(Vec::new())
                    } else {
                        self.state = State::ReadingPayload { remaining: total, total };
                        assert(self@ =~= s);
                        None
                    }
                } else {
                    self.state = State::ReadingLength { remaining: 2 - self.header.len() };
                    assert(self@ =~= s);
                    None
                }
            },
            State::ReadingPayload { remaining, total } => {
                append(&mut self.payload, data);
                assert(s =~= self.header@ + self.payload@);
                assert(s[0] == self.header@[0] && s[1] == self.header@[1]);
                if data.len() == remaining {
                    let mut frame: Vec<u8> = Vec::new();
                    std::mem::swap(&mut frame, &mut self.payload);
                    self.header = Vec::new();
                    self.state = State::ReadingLength { remaining: 2 };
                    assert(s.subrange(2, s.len() as int) =~= frame@);
                    assert(self@ =~= Seq::<u8>::empty());
                    Some(frame)
                } else {
                    self.state = State::ReadingPayload { remaining: remaining - data.len(), total };
                    None
                }
            },
        }
    }

    /// What the end of the stream means at this point: a clean close where it
    /// falls between two frames, an error where it falls inside one.
    pub fn finish(&self) -> (r: Result<(), FrameError>)
        requires
            self.inv(),
        ensures
            r == (if self@.len() == 0 {
                Ok::<(), FrameError>(())
            } else {
                Err::<(), FrameError>(FrameError::UnexpectedEof)
            }),
    {
        if self.header.len() == 0 {
            Ok(())
        } else {
            Err(FrameError::UnexpectedEof)
        }
    }
}

/// Whether every payload in `frames` fits in a frame.
pub open spec fn all_fit(frames: Seq<Seq<u8>>) -> bool {
    forall|i: int| 0 <= i < frames.len() ==> #[trigger] frames[i].len() <= MAX_FRAME_LEN
}

/// The length prefix that `encoded` writes states the payload's length.
proof fn lemma_prefix_of_encoded(p: Seq<u8>)
    requires
        p.len() <= MAX_FRAME_LEN,
    ensures
        encoded(p).len() == 2 + p.len(),
        prefix_len(encoded(p)[0], encoded(p)[1]) == p.len(),
        is_whole_frame(encoded(p)),
        encoded(p).subrange(2, encoded(p).len() as int) == p,
{
    let n = p.len();
    assert(n / 256 < 256);
    assert((n / 256) as u8 == n / 256);
    assert((n % 256) as u8 == n % 256);
    assert(encoded(p)[0] == (n / 256) as u8);
    assert(encoded(p)[1] == (n % 256) as u8);
    assert((n / 256) * 256 + n % 256 == n);
    assert(encoded(p).subrange(2, encoded(p).len() as int) =~= p);
}

/// The decoder, started on a beginning of the wire form of `frames` and handed
/// chunks that fit and complete it, yields exactly `frames` and ends between frames.
proof fn lemma_decode_from(pending: Seq<u8>, chunks: Seq<Seq<u8>>, frames: Seq<Seq<u8>>)
    requires
        all_fit(frames),
        chunks_fit(pending, chunks),
        pending + joined(chunks) == encoded_all(frames),
        pending.len() == 0 || (frames.len() > 0 && pending.len() < encoded(frames[0]).len()),
    ensures
        decode_chunks(pending, chunks) == (frames, Seq::<u8>::empty()),
    decreases chunks.len(),
{
    if frames.len() > 0 {
        lemma_prefix_of_encoded(frames[0]);
        assert(encoded_all(frames) == encoded(frames[0]) + encoded_all(frames.drop_first()));
    }
    if chunks.len() == 0 {
        assert(pending + joined(chunks) =~= pending);
        if frames.len() > 0 {
            assert(encoded_all(frames).len() >= encoded(frames[0]).len());
        } else {
            assert(frames =~= Seq::<Seq<u8>>::empty());
        }
    } else {
        let c = chunks[0];
        let rest = chunks.drop_first();
        let s = pending + c;
        assert(joined(chunks) == c + joined(rest));
        assert(pending + joined(chunks) =~= s + joined(rest));
        if frames.len() == 0 {
            assert(s.len() == 0);
            assert(s =~= Seq::<u8>::empty());
            assert(!is_whole_frame(s));
            assert(joined(rest) =~= encoded_all(frames));
            lemma_decode_from(s, rest, frames);
        } else {
            let e = encoded(frames[0]);
            let tail = encoded_all(frames.drop_first());
            assert(s + joined(rest) == e + tail);
            if pending.len() >= 2 {
                assert(pending[0] == e[0] && pending[1] == e[1]) by {
                    assert(pending[0] == (pending + joined(chunks))[0]);
                    assert(pending[1] == (pending + joined(chunks))[1]);
                }
            }
            assert(s.len() <= e.len());
            assert(s =~= e.subrange(0, s.len() as int)) by {
                assert forall|i: int| 0 <= i < s.len() implies s[i] == e[i] by {
                    assert(s[i] == (s + joined(rest))[i]);
                    assert(e[i] == (e + tail)[i]);
                }
            }
            if s.len() == e.len() {
                assert(s =~= e);
                assert(joined(rest) =~= tail) by {
                    assert forall|i: int| 0 <= i < tail.len() implies joined(rest)[i] == tail[i] by {
                        assert(joined(rest)[i] == (s + joined(rest))[i + s.len()]);
                        assert(tail[i] == (e + tail)[i + e.len()]);
                    }
                    assert((s + joined(rest)).len() == (e + tail).len());
                }
                assert(Seq::<u8>::empty() + joined(rest) =~= joined(rest));
                assert forall|i: int| 0 <= i < frames.drop_first().len() implies #[trigger] frames.drop_first()[i].len() <= MAX_FRAME_LEN by {
                    assert(frames.drop_first()[i] == frames[i + 1]);
                }
                lemma_decode_from(Seq::empty(), rest, frames.drop_first());
                assert(seq![frames[0]] + frames.drop_first() =~= frames);
            } else {
                if s.len() >= 2 {
                    assert(s[0] == e[0] && s[1] == e[1]);
                }
                assert(!is_whole_frame(s));
                assert(s + joined(rest) == encoded_all(frames));
                lemma_decode_from(s, rest, frames);
            }
        }
    }
}

/// Round trip: whatever the chunking of the reads, as long as each read asks
/// for no more than the decoder wants, decoding the frames of `frames` written
/// back to back yields each payload whole, in order, and leaves nothing behind.
pub proof fn lemma_round_trip(frames: Seq<Seq<u8>>, chunks: Seq<Seq<u8>>)
    requires
        all_fit(frames),
        chunks_fit(Seq::empty(), chunks),
        joined(chunks) == encoded_all(frames),
    ensures
        decode_chunks(Seq::empty(), chunks) == (frames, Seq::<u8>::empty()),
{
    assert(Seq::<u8>::empty() + joined(chunks) =~= joined(chunks));
    lemma_decode_from(Seq::empty(), chunks, frames);
}

/// The chunking of `b` into reads of one byte each.
pub open spec fn one_byte_chunks(b: Seq<u8>) -> Seq<Seq<u8>> {
    Seq::new(b.len(), |i: int| seq![b[i]])
}

/// A read that asks for no more than the decoder wants leaves it between
/// reads again.
pub proof fn lemma_step_keeps_partial(pending: Seq<u8>, data: Seq<u8>)
    requires
        is_partial_frame(pending),
        data.len() <= wanted(pending),
    ensures
        is_partial_frame(decode_step(pending, data).0),
{
    let s = pending + data;
    if !is_whole_frame(s) && s.len() >= 2 {
        if pending.len() >= 2 {
            assert(s[0] == pending[0] && s[1] == pending[1]);
        }
    }
}

/// Reads of one byte each always fit, from any point between reads, and
/// together they are the whole of `b`.
pub proof fn lemma_one_byte_chunks_fit(pending: Seq<u8>, b: Seq<u8>)
    requires
        is_partial_frame(pending),
    ensures
        chunks_fit(pending, one_byte_chunks(b)),
        joined(one_byte_chunks(b)) == b,
    decreases b.len(),
{
    let chunks = one_byte_chunks(b);
    if b.len() == 0 {
        assert(joined(chunks) =~= b);
    } else {
        assert(chunks.drop_first() =~= one_byte_chunks(b.drop_first()));
        lemma_step_keeps_partial(pending, chunks[0]);
        lemma_one_byte_chunks_fit(decode_step(pending, chunks[0]).0, b.drop_first());
        assert(joined(chunks) =~= b);
    }
}

} // verus!
