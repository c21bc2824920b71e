//! Framing: one record per line on a byte stream that has no message
//! boundaries of its own.

use vstd::prelude::*;

verus! {

/// The byte that ends a frame.
pub const LINE_FEED: u8 = 0x0a;

/// A carriage return directly before the line feed belongs to the line ending.
pub const CARRIAGE_RETURN: u8 = 0x0d;

/// Whether a line feed occurs in `bytes`.
pub open spec fn has_delimiter(bytes: Seq<u8>) -> bool {
    exists|i: int| 0 <= i < bytes.len() && bytes[i] == LINE_FEED
}

/// The position of the first line feed in `bytes`, or the length of `bytes`
/// where there is none.
pub open spec fn first_delimiter(bytes: Seq<u8>) -> int
    decreases bytes.len(),
{
    if bytes.len() == 0 || bytes[0] == LINE_FEED {
        0
    } else {
        1 + first_delimiter(bytes.drop_first())
    }
}

/// A line without its ending: `raw` is what stood before the line feed, and
/// one carriage return at its end is dropped.
pub open spec fn line_content(raw: Seq<u8>) -> Seq<u8> {
    if raw.len() > 0 && raw.last() == CARRIAGE_RETURN {
        raw.drop_last()
    } else {
        raw
    }
}

/// The lines that `stream` holds in full, in order, without their endings.
pub open spec fn complete_lines(stream: Seq<u8>) -> Seq<Seq<u8>>
    decreases stream.len(),
{
    let at = first_delimiter(stream);
    if 0 <= at < stream.len() {
        seq![line_content(stream.take(at))] + complete_lines(stream.skip(at + 1))
    } else {
        Seq::empty()
    }
}

/// The lines that `stream` holds in full, in order, each as it stands
/// before its line feed.
pub open spec fn raw_lines(stream: Seq<u8>) -> Seq<Seq<u8>>
    decreases stream.len(),
{
    let at = first_delimiter(stream);
    if 0 <= at < stream.len() {
        seq![stream.take(at)] + raw_lines(stream.skip(at + 1))
    } else {
        Seq::empty()
    }
}

/// What follows the last line feed of `stream`: the start of a line whose end
/// has not arrived.
pub open spec fn unfinished(stream: Seq<u8>) -> Seq<u8>
    decreases stream.len(),
{
    let at = first_delimiter(stream);
    if 0 <= at < stream.len() {
        unfinished(stream.skip(at + 1))
    } else {
        stream
    }
}

/// A record as it travels: the record, then one line feed.
pub open spec fn framed(record: Seq<u8>) -> Seq<u8> {
    record.push(LINE_FEED)
}

/// The frames of `records`, one after the other.
pub open spec fn framed_all(records: Seq<Seq<u8>>) -> Seq<u8>
    decreases records.len(),
{
    if records.len() == 0 {
        Seq::empty()
    } else {
        framed(records[0]) + framed_all(records.drop_first())
    }
}

/// The contents of a list of byte vectors.
pub open spec fn line_views(lines: Seq<Vec<u8>>) -> Seq<Seq<u8>> {
    Seq::new(lines.len(), |i: int| lines[i]@)
}

/// `first_delimiter` finds the first line feed and nothing before it.
pub proof fn lemma_first_delimiter(bytes: Seq<u8>)
    ensures
        0 <= first_delimiter(bytes) <= bytes.len(),
        forall|j: int| 0 <= j < first_delimiter(bytes) ==> bytes[j] != LINE_FEED,
        first_delimiter(bytes) < bytes.len() ==> bytes[first_delimiter(bytes)] == LINE_FEED,
        first_delimiter(bytes) < bytes.len() <==> has_delimiter(bytes),
    decreases bytes.len(),
{
    if bytes.len() == 0 || bytes[0] == LINE_FEED {
    } else {
        let tail = bytes.drop_first();
        lemma_first_delimiter(tail);
        assert forall|j: int| 0 <= j < first_delimiter(bytes) implies bytes[j] != LINE_FEED by {
            if j > 0 {
                assert(bytes[j] == tail[j - 1]);
            }
        }
        if first_delimiter(bytes) < bytes.len() {
            assert(bytes[first_delimiter(bytes)] == tail[first_delimiter(tail)]);
        }
        if has_delimiter(bytes) {
            let i = choose|i: int| 0 <= i < bytes.len() && bytes[i] == LINE_FEED;
            assert(tail[i - 1] == bytes[i]);
        }
    }
}

/// A line feed with none before it is the first one.
pub proof fn lemma_first_delimiter_is(bytes: Seq<u8>, at: int)
    requires
        0 <= at < bytes.len(),
        bytes[at] == LINE_FEED,
        forall|j: int| 0 <= j < at ==> bytes[j] != LINE_FEED,
    ensures
        first_delimiter(bytes) == at,
{
    lemma_first_delimiter(bytes);
}

/// Nothing that is still unfinished holds a line feed.
pub proof fn lemma_unfinished_has_no_delimiter(stream: Seq<u8>)
    ensures
        !has_delimiter(unfinished(stream)),
    decreases stream.len(),
{
    lemma_first_delimiter(stream);
    let at = first_delimiter(stream);
    if 0 <= at < stream.len() {
        lemma_unfinished_has_no_delimiter(stream.skip(at + 1));
    }
}

/// A stream without a line feed holds no complete line and is unfinished as
/// a whole.
pub proof fn lemma_no_delimiter(stream: Seq<u8>)
    requires
        !has_delimiter(stream),
    ensures
        complete_lines(stream) == Seq::<Seq<u8>>::empty(),
        unfinished(stream) == stream,
{
    lemma_first_delimiter(stream);
}

/// Where the first line ends at `at`, the stream is that line followed by the
/// lines of what comes after the line feed.
pub proof fn lemma_split_first_line(stream: Seq<u8>, at: int)
    requires
        0 <= at < stream.len(),
        stream[at] == LINE_FEED,
        forall|j: int| 0 <= j < at ==> stream[j] != LINE_FEED,
    ensures
        complete_lines(stream) == seq![line_content(stream.take(at))] + complete_lines(
            stream.skip(at + 1),
        ),
        unfinished(stream) == unfinished(stream.skip(at + 1)),
{
    lemma_first_delimiter_is(stream, at);
}

/// The complete lines are the raw lines, each without a carriage return at
/// its end.
pub proof fn law_lines_are_raw_lines_stripped(stream: Seq<u8>)
    ensures
        complete_lines(stream) == raw_lines(stream).map_values(|raw: Seq<u8>| line_content(raw)),
    decreases stream.len(),
{
    let strip = |raw: Seq<u8>| line_content(raw);
    let at = first_delimiter(stream);
    if 0 <= at < stream.len() {
        let rest = stream.skip(at + 1);
        law_lines_are_raw_lines_stripped(rest);
        assert((seq![stream.take(at)] + raw_lines(rest)).map_values(strip) =~= seq![
            line_content(stream.take(at)),
        ] + raw_lines(rest).map_values(strip));
    } else {
        assert(raw_lines(stream).map_values(strip) =~= Seq::<Seq<u8>>::empty());
    }
}

/// Splitting loses nothing and invents nothing: the raw lines of a stream,
/// each followed by its line feed, and then the unfinished end, are the
/// stream; and neither a raw line nor the unfinished end holds a line feed.
pub proof fn law_reassembly(stream: Seq<u8>)
    ensures
        framed_all(raw_lines(stream)) + unfinished(stream) == stream,
        forall|i: int|
            0 <= i < raw_lines(stream).len() ==> !has_delimiter(#[trigger] raw_lines(stream)[i]),
        !has_delimiter(unfinished(stream)),
    decreases stream.len(),
{
    lemma_first_delimiter(stream);
    lemma_unfinished_has_no_delimiter(stream);
    let at = first_delimiter(stream);
    if 0 <= at < stream.len() {
        let head = stream.take(at);
        let rest = stream.skip(at + 1);
        law_reassembly(rest);
        let lines = raw_lines(stream);
        let later = framed_all(raw_lines(rest));
        let open = unfinished(rest);
        assert(lines[0] == head);
        assert(lines.drop_first() =~= raw_lines(rest));
        assert(framed(head) + (later + open) =~= stream);
        assert((framed(head) + later) + open =~= framed(head) + (later + open));
        assert forall|i: int| 0 <= i < lines.len() implies !has_delimiter(#[trigger] lines[i]) by {
            if i == 0 {
                if has_delimiter(head) {
                    let j = choose|j: int| 0 <= j < head.len() && head[j] == LINE_FEED;
                    assert(stream[j] == head[j]);
                }
            } else {
                assert(lines[i] == raw_lines(rest)[i - 1]);
            }
        }
    } else {
        assert(framed_all(raw_lines(stream)) + stream =~= stream);
    }
}

/// Splitting does not depend on how the stream arrives: the lines of two
/// pieces read one after the other, the unfinished end of the first carried
/// over, are the lines of the whole.
pub proof fn law_chunking(first: Seq<u8>, second: Seq<u8>)
    ensures
        complete_lines(first + second) == complete_lines(first) + complete_lines(
            unfinished(first) + second,
        ),
        unfinished(first + second) == unfinished(unfinished(first) + second),
    decreases first.len(),
{
    lemma_first_delimiter(first);
    let at = first_delimiter(first);
    if 0 <= at < first.len() {
        let whole = first + second;
        assert(whole[at] == LINE_FEED);
        assert forall|j: int| 0 <= j < at implies whole[j] != LINE_FEED by {
            assert(whole[j] == first[j]);
        }
        lemma_split_first_line(whole, at);
        assert(whole.take(at) =~= first.take(at));
        assert(whole.skip(at + 1) =~= first.skip(at + 1) + second);
        law_chunking(first.skip(at + 1), second);
        let head = seq![line_content(first.take(at))];
        let rest = complete_lines(first.skip(at + 1));
        let carried = complete_lines(unfinished(first.skip(at + 1)) + second);
        assert(head + (rest + carried) =~= (head + rest) + carried);
    } else {
        lemma_no_delimiter(first);
        assert(Seq::<Seq<u8>>::empty() + complete_lines(first + second) =~= complete_lines(
            first + second,
        ));
    }
}

/// A frame read back is one line, the record itself but for a carriage
/// return at its end, and nothing is left over.
pub proof fn law_frame_round_trip(record: Seq<u8>)
    requires
        !has_delimiter(record),
    ensures
        complete_lines(framed(record)) == seq![line_content(record)],
        unfinished(framed(record)) == Seq::<u8>::empty(),
{
    let stream = framed(record);
    let at = record.len() as int;
    assert forall|j: int| 0 <= j < at implies stream[j] != LINE_FEED by {
        assert(stream[j] == record[j]);
    }
    lemma_split_first_line(stream, at);
    assert(stream.take(at) =~= record);
    assert(stream.skip(at + 1) =~= Seq::<u8>::empty());
    lemma_no_delimiter(Seq::<u8>::empty());
    assert(seq![line_content(record)] + Seq::<Seq<u8>>::empty() =~= seq![line_content(record)]);
}

/// A run of frames read back gives the records in the order in which they
/// were framed, each but for a carriage return at its end, with nothing left
/// over.
pub proof fn law_frames_round_trip(records: Seq<Seq<u8>>)
    requires
        forall|i: int| 0 <= i < records.len() ==> !has_delimiter(#[trigger] records[i]),
    ensures
        complete_lines(framed_all(records)) == records.map_values(|r: Seq<u8>| line_content(r)),
        unfinished(framed_all(records)) == Seq::<u8>::empty(),
    decreases records.len(),
{
    let strip = |r: Seq<u8>| line_content(r);
    if records.len() == 0 {
        lemma_no_delimiter(Seq::<u8>::empty());
        assert(records.map_values(strip) =~= Seq::<Seq<u8>>::empty());
    } else {
        let head = records[0];
        let tail = records.drop_first();
        assert forall|i: int| 0 <= i < tail.len() implies !has_delimiter(#[trigger] tail[i]) by {
            assert(tail[i] == records[i + 1]);
        }
        law_frames_round_trip(tail);
        law_frame_round_trip(head);
        law_chunking(framed(head), framed_all(tail));
        assert(Seq::<u8>::empty() + framed_all(tail) =~= framed_all(tail));
        assert(seq![line_content(head)] + tail.map_values(strip) =~= records.map_values(strip));
    }
}

/// Why a record cannot be framed.
#[derive(Debug, Clone, Copy, PartialEq, Eq)]
pub enum FrameError {
    /// The record holds a line feed, which would end the frame early.
    EmbeddedDelimiter,
}

/// Frames `record` for the channel: the record followed by one line feed. A
/// record that holds a line feed is refused. A carriage return at the end of
/// a record is taken for a part of the line ending when the frame is read.
pub fn frame(record: &[u8]) -> (result: Result<Vec<u8>, FrameError>)
    ensures
        match result {
            Ok(bytes) => !has_delimiter(record@) && bytes@ == framed(record@),
            Err(error) => has_delimiter(record@) && error == FrameError::EmbeddedDelimiter,
        },
{
    let mut bytes: Vec<u8> = Vec::new();
    let mut i: usize = 0;
    while i < record.len()
        invariant
            0 <= i <= record.len(),
            bytes@ == record@.take(i as int),
            forall|j: int| 0 <= j < i ==> record@[j] != LINE_FEED,
        decreases record.len() - i,
    {
        let byte: u8 = record[i];
        if byte == LINE_FEED {
            return Err(FrameError::EmbeddedDelimiter);
        }
        bytes.push(byte);
        i += 1;
        assert(bytes@ =~= record@.take(i as int));
    }
    assert(record@.take(i as int) =~= record@);
    bytes.push(LINE_FEED);
    Ok(bytes)
}

/// Splits what arrives on the channel into lines, whatever the sizes of the
/// pieces in which it arrives.
pub struct Deframer {
    pending: Vec<u8>,
}

impl Deframer {
    /// The bytes of the line that has begun and not yet ended.
    pub closed spec fn pending(&self) -> Seq<u8> {
        self.pending@
    }

    #[verifier::type_invariant]
    spec fn no_delimiter_pending(&self) -> bool {
        !has_delimiter(self.pending@)
    }

    /// A deframer that has seen nothing.
    pub fn new() -> (deframer: Deframer)
        ensures
            deframer.pending() == Seq::<u8>::empty(),
    {
        Deframer { pending: Vec::new() }
    }

    /// Takes in the next piece of the stream and hands out the lines that it
    /// completes, in order and without their endings. The line that the
    /// piece leaves open stays behind for the next call.
    pub fn push(&mut self, chunk: &[u8]) -> (lines: Vec<Vec<u8>>)
        ensures
            line_views(lines@) == complete_lines(old(self).pending() + chunk@),
            final(self).pending() == unfinished(old(self).pending() + chunk@),
    {
        proof {
            use_type_invariant(&*self);
        }
        let mut pending: Vec<u8> = Vec::new();
        std::mem::swap(&mut pending, &mut self.pending);
        let ghost stream = pending@ + chunk@;
        let mut lines: Vec<Vec<u8>> = Vec::new();
        let mut i: usize = 0;
        assert(chunk@.skip(0) =~= chunk@);
        assert(Seq::<Seq<u8>>::empty() + complete_lines(stream) =~= complete_lines(stream));
        while i < chunk.len()
            invariant
                0 <= i <= chunk.len(),
                !has_delimiter(pending@),
                line_views(lines@) + complete_lines(pending@ + chunk@.skip(i as int))
                    == complete_lines(stream),
                unfinished(pending@ + chunk@.skip(i as int)) == unfinished(stream),
            decreases chunk.len() - i,
        {
            let byte: u8 = chunk[i];
            let ghost before = pending@;
            let ghost ahead = chunk@.skip(i as int);
            let ghost done = line_views(lines@);
            if byte == LINE_FEED {
                let mut line: Vec<u8> = Vec::new();
                std::mem::swap(&mut line, &mut pending);
                proof {
                    let at = before.len() as int;
                    let joined = before + ahead;
                    assert(joined[at] == LINE_FEED);
                    assert forall|j: int| 0 <= j < at implies joined[j] != LINE_FEED by {
                        assert(joined[j] == before[j]);
                    }
                    lemma_split_first_line(joined, at);
                    assert(joined.take(at) =~= before);
                    assert(joined.skip(at + 1) =~= Seq::<u8>::empty() + chunk@.skip(i + 1));
                }
                let n: usize = line.len();
                if n > 0 && line[n - 1] == CARRIAGE_RETURN {
                    line.pop();
                }
                assert(line@ =~= line_content(before));
                lines.push(line);
                proof {
                    assert(line_views(lines@) =~= done + seq![line_content(before)]);
                    let later = complete_lines(Seq::<u8>::empty() + chunk@.skip(i + 1));
                    assert((done + seq![line_content(before)]) + later =~= done + (seq![
                        line_content(before),
                    ] + later));
                }
            } else {
                pending.push(byte);
                proof {
                    assert(pending@ + chunk@.skip(i + 1) =~= before + ahead);
                    assert forall|j: int| 0 <= j < pending@.len() implies pending@[j]
                        != LINE_FEED by {
                        if j < before.len() {
                            assert(pending@[j] == before[j]);
                        }
                    }
                }
            }
            i += 1;
        }
        proof {
            assert(pending@ + chunk@.skip(i as int) =~= pending@);
            lemma_no_delimiter(pending@);
            assert(line_views(lines@) + Seq::<Seq<u8>>::empty() =~= line_views(lines@));
        }
        std::mem::swap(&mut pending, &mut self.pending);
        lines
    }

    /// Ends the stream: hands out the line that was still open, if it holds
    /// anything, as it stands, and leaves the deframer empty.
    pub fn finish(&mut self) -> (last: Option<Vec<u8>>)
        ensures
            final(self).pending() == Seq::<u8>::empty(),
            old(self).pending().len() == 0 ==> last is None,
            old(self).pending().len() > 0 ==> last is Some && last->0@ == old(self).pending(),
    {
        let mut line: Vec<u8> = Vec::new();
        std::mem::swap(&mut line, &mut self.pending);
        if line.len() == 0 {
            None
        } else {
            Some(line)
        }
    }
}

} // verus!
