//! The producer side of a file stream: what to push into the body channel
//! after each read.
use vstd::prelude::*;

verus! {

/// Bytes asked of the file by each read.
pub const CHUNK_SIZE: usize = 4096;

/// The outcome of one read of the file.
pub enum ReadOutcome {
    /// The bytes read; none at all means the end of the file.
    Data(Vec<u8>),
    /// The read failed.
    Failed,
}

/// What to push into the body channel.
pub enum Signal {
    /// The next chunk of the body.
    Chunk(Vec<u8>),
    /// The terminal error: the body ends incomplete.
    Error,
    /// The terminal completion: the body is whole.
    Close,
}

/// The bytes of `chunks`, one after another.
pub open spec fn concat(chunks: Seq<Seq<u8>>) -> Seq<u8>
    decreases chunks.len(),
{
    if chunks.len() == 0 {
        Seq::empty()
    } else {
        concat(chunks.drop_last()) + chunks.last()
    }
}

/// The chunks a fresh producer pushes when fed the reads `reads` in order:
/// each read up to the first empty one, which closes the stream.
pub open spec fn emits(reads: Seq<Seq<u8>>) -> Seq<Seq<u8>>
    decreases reads.len(),
{
    if reads.len() == 0 || reads[0].len() == 0 {
        Seq::empty()
    } else {
        seq![reads[0]] + emits(reads.drop_first())
    }
}

/// Reads of at most `CHUNK_SIZE` bytes, none empty.
pub open spec fn bounded_chunks(chunks: Seq<Seq<u8>>) -> bool {
    forall|i: int| 0 <= i < chunks.len() ==> 0 < (#[trigger] chunks[i]).len() <= CHUNK_SIZE
}

/// A whole stream. When the reads of a file return the pieces `pieces`,
/// each of at most `CHUNK_SIZE` bytes and together the file's bytes, and
/// then an empty read, the producer pushes exactly those pieces: their
/// concatenation is the file, in read order, with no gap or duplicate.
pub proof fn lemma_stream_rebuilds_file(file: Seq<u8>, pieces: Seq<Seq<u8>>)
    requires
        bounded_chunks(pieces),
        concat(pieces) == file,
    ensures
        emits(pieces.push(Seq::empty())) == pieces,
        concat(emits(pieces.push(Seq::empty()))) == file,
        bounded_chunks(emits(pieces.push(Seq::empty()))),
    decreases pieces.len(),
{
    let reads = pieces.push(Seq::<u8>::empty());
    if pieces.len() == 0 {
        assert(reads[0].len() == 0);
        assert(emits(reads) =~= pieces);
    } else {
        let rest = pieces.drop_first();
        assert(bounded_chunks(rest)) by {
            assert forall|i: int| 0 <= i < rest.len() implies 0 < (#[trigger] rest[i]).len()
                <= CHUNK_SIZE by {
                assert(rest[i] == pieces[i + 1]);
            }
        }
        lemma_stream_rebuilds_file(concat(rest), rest);
        assert(reads.drop_first() =~= rest.push(Seq::<u8>::empty()));
        assert(reads[0] == pieces[0]);
        assert(pieces[0].len() > 0);
        assert(seq![pieces[0]] + rest =~= pieces);
    }
}

/// Tracks one stream from the first read to its single terminal signal.
pub struct Producer {
    done: bool,
    sent: Ghost<Seq<Seq<u8>>>,
}

impl Producer {
    /// Whether the stream has ended: by completion, by error, or because
    /// the consumer went away.
    pub closed spec fn finished(&self) -> bool {
        self.done
    }

    /// The chunks pushed so far, in the order they were read.
    pub closed spec fn emitted(&self) -> Seq<Seq<u8>> {
        self.sent@
    }

    /// The bytes pushed so far, in the order they were read.
    pub open spec fn streamed(&self) -> Seq<u8> {
        concat(self.emitted())
    }

    pub fn new() -> (r: Producer)
        ensures
            !r.finished(),
            r.emitted() == Seq::<Seq<u8>>::empty(),
    {
        Producer { done: false, sent: Ghost(Seq::empty()) }
    }

    pub fn is_done(&self) -> (r: bool)
        ensures
            r == self.finished(),
    {
        self.done
    }

    /// The signal for the outcome of the next read, which asked for at
    /// most `CHUNK_SIZE` bytes. Bytes go out as one chunk, unchanged; an
    /// empty read closes the stream; a failed read ends it with the error
    /// signal. Nothing is pushed after either.
    pub fn on_read(&mut self, outcome: ReadOutcome) -> (s: Signal)
        requires
            !old(self).finished(),
            outcome matches ReadOutcome::Data(d) ==> d@.len() <= CHUNK_SIZE,
        ensures
            match outcome {
                ReadOutcome::Data(d) => if d@.len() > 0 {
                    &&& s matches Signal::Chunk(c) && c@ == d@ && c@.len() <= CHUNK_SIZE
                    &&& !final(self).finished()
                    &&& final(self).emitted() == old(self).emitted().push(d@)
                    &&& final(self).emitted() == old(self).emitted() + emits(seq![d@])
                    &&& final(self).streamed() == old(self).streamed() + d@
                } else {
                    &&& s is Close
                    &&& final(self).finished()
                    &&& final(self).emitted() == old(self).emitted()
                    &&& final(self).emitted() == old(self).emitted() + emits(seq![d@])
                },
                ReadOutcome::Failed => {
                    &&& s is Error
                    &&& final(self).finished()
                    &&& final(self).emitted() == old(self).emitted()
                },
            },
    {
        match outcome {
            ReadOutcome::Data(d) => {
                proof {
                    let one = seq![d@];
                    assert(one.drop_first() =~= Seq::<Seq<u8>>::empty());
                    assert(emits(one.drop_first()) == Seq::<Seq<u8>>::empty());
                    if d@.len() > 0 {
                        assert(self.sent@ + emits(one) =~= self.sent@.push(d@));
                    } else {
                        assert(self.sent@ + emits(one) =~= self.sent@);
                    }
                    assert(self.sent@.push(d@).drop_last() =~= self.sent@);
                }
                if d.len() > 0 {
                    self.sent = Ghost(self.sent@.push(d@));
                    Signal::Chunk(d)
                } else {
                    self.done = true;
                    Signal::Close
                }
            }
            ReadOutcome::Failed => {
                self.done = true;
                Signal::Error
            }
        }
    }

    /// The consumer went away: no further reads are made.
    pub fn on_send_failed(&mut self)
        ensures
            final(self).finished(),
            final(self).emitted() == old(self).emitted(),
    {
        self.done = true;
    }
}

} // verus!
