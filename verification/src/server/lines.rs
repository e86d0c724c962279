//! Lines and bodies that arrive in pieces.
//!
//! A read gives some bytes, finds that nothing has come yet, or finds the end.
//! These readers keep what has come and say what follows.

use vstd::prelude::*;
use vstd::utf8::*;
use crate::bytes::{append, string_from_utf8, utf8_text};

verus! {

/// How many bytes a line may have, its line feed counted.
pub const MAX_LINE_LENGTH: usize = 1024;

/// Why a read was given up.
#[derive(Debug, Clone, Copy, PartialEq, Eq, Structural)]
pub enum ReadError {
    /// The deadline of a line went by.
    IdleDeadline,
    /// The deadline of a body went by.
    BodyDeadline,
    LineTooLong,
    EofMidLine,
    InvalidUtf8,
    ShortBody,
}

impl ReadError {
    /// The message for the log.
    pub open spec fn text(self) -> Seq<char> {
        match self {
            ReadError::IdleDeadline => "Idle deadline exceeded"@,
            ReadError::BodyDeadline => "Body read deadline exceeded"@,
            ReadError::LineTooLong => "Line exceeded maximum length"@,
            ReadError::EofMidLine => "EOF mid-line"@,
            ReadError::InvalidUtf8 => "Invalid UTF-8 in line"@,
            ReadError::ShortBody => "Short body"@,
        }
    }

    /// The message for the log.
    pub fn message(&self) -> (r: String)
        ensures
            r@ == self.text(),
    {
        match self {
            ReadError::IdleDeadline => "Idle deadline exceeded".to_owned(),
            ReadError::BodyDeadline => "Body read deadline exceeded".to_owned(),
            ReadError::LineTooLong => "Line exceeded maximum length".to_owned(),
            ReadError::EofMidLine => "EOF mid-line".to_owned(),
            ReadError::InvalidUtf8 => "Invalid UTF-8 in line".to_owned(),
            ReadError::ShortBody => "Short body".to_owned(),
        }
    }

    /// Tells whether a deadline went by.
    pub fn is_timeout(&self) -> (r: bool)
        ensures
            r == (*self is IdleDeadline || *self is BodyDeadline),
    {
        matches!(self, ReadError::IdleDeadline | ReadError::BodyDeadline)
    }
}

/// What a read came to.
pub enum Arrival {
    /// Bytes, at least one.
    Bytes(Vec<u8>),
    /// The end.
    End,
    /// The wait was cut short, after these bytes, which may be none.
    Stalled(Vec<u8>),
}

/// What follows a read of a line.
pub enum LineStep {
    /// Read on.
    More,
    /// The line, with its line feed.
    Line(String),
    /// The end came where a line would have begun.
    Closed,
    Failed(ReadError),
}

/// What follows a read of a line, by the text of the line.
pub enum LineStepView {
    More,
    Line(Seq<char>),
    Closed,
    Failed(ReadError),
}

impl View for LineStep {
    type V = LineStepView;

    open spec fn view(&self) -> LineStepView {
        match self {
            LineStep::More => LineStepView::More,
            LineStep::Line(s) => LineStepView::Line(s@),
            LineStep::Closed => LineStepView::Closed,
            LineStep::Failed(e) => LineStepView::Failed(*e),
        }
    }
}

/// How many bytes of a line are taken at most: the line feed counts.
pub open spec fn line_cap() -> int {
    MAX_LINE_LENGTH as int
}

/// The line that ends in its line feed.
pub open spec fn finished_line(data: Seq<u8>) -> LineStepView {
    match utf8_text(data) {
        Some(s) => LineStepView::Line(s),
        None => LineStepView::Failed(ReadError::InvalidUtf8),
    }
}

/// The bytes end in a line feed.
pub open spec fn ends_line(data: Seq<u8>) -> bool {
    data.len() > 0 && data.last() == 0x0a
}

/// What follows once the bytes of a line are `data`, the wait cut short or not.
pub open spec fn line_after(data: Seq<u8>, stalled: bool) -> LineStepView {
    if data.len() > line_cap() {
        LineStepView::Failed(ReadError::LineTooLong)
    } else if ends_line(data) {
        finished_line(data)
    } else if !stalled && data.len() >= line_cap() {
        LineStepView::Failed(ReadError::LineTooLong)
    } else {
        LineStepView::More
    }
}

/// A line that is being read.
pub struct LineReader {
    pub buf: Vec<u8>,
}

impl LineReader {
    /// Nothing of the line yet.
    pub fn new() -> (r: LineReader)
        ensures
            r.buf@.len() == 0,
    {
        LineReader { buf: Vec::new() }
    }

    /// How many bytes the next read may take, unless the deadline has gone by
    /// or the line is too long already.
    pub fn room(&self, expired: bool) -> (r: Result<usize, ReadError>)
        ensures
            if expired {
                r == Err::<usize, ReadError>(ReadError::IdleDeadline)
            } else if self.buf@.len() >= line_cap() {
                r == Err::<usize, ReadError>(ReadError::LineTooLong)
            } else {
                r matches Ok(n) && n == line_cap() - self.buf@.len() && n > 0
            },
    {
        if expired {
            return Err(ReadError::IdleDeadline);
        }
        if self.buf.len() >= MAX_LINE_LENGTH {
            return Err(ReadError::LineTooLong);
        }
        Ok(MAX_LINE_LENGTH - self.buf.len())
    }

    /// Takes what a read came to.
    pub fn take(&mut self, arrival: Arrival) -> (r: LineStep)
        ensures
            match arrival {
                Arrival::Bytes(b) => {
                    &&& final(self).buf@ == old(self).buf@ + b@
                    &&& r@ == line_after(old(self).buf@ + b@, false)
                },
                Arrival::Stalled(b) => {
                    &&& final(self).buf@ == old(self).buf@ + b@
                    &&& r@ == line_after(old(self).buf@ + b@, true)
                },
                Arrival::End => {
                    &&& final(self).buf@ == old(self).buf@
                    &&& r@ == (if old(self).buf@.len() == 0 {
                        LineStepView::Closed
                    } else {
                        LineStepView::Failed(ReadError::EofMidLine)
                    })
                },
            },
    {
        match arrival {
            Arrival::Bytes(b) => {
                append(&mut self.buf, b.as_slice());
                self.settled(false)
            },
            Arrival::Stalled(b) => {
                append(&mut self.buf, b.as_slice());
                self.settled(true)
            },
            Arrival::End => {
                if self.buf.len() == 0 {
                    LineStep::Closed
                } else {
                    LineStep::Failed(ReadError::EofMidLine)
                }
            },
        }
    }

    /// What the bytes that have come amount to.
    fn settled(&self, stalled: bool) -> (r: LineStep)
        ensures
            r@ == line_after(self.buf@, stalled),
    {
        let n: usize = self.buf.len();
        if n > MAX_LINE_LENGTH {
            LineStep::Failed(ReadError::LineTooLong)
        } else if n > 0 && self.buf[n - 1] == 0x0a {
            match string_from_utf8(self.buf.clone()) {
                Some(line) => LineStep::Line(line),
                None => LineStep::Failed(ReadError::InvalidUtf8),
            }
        } else if !stalled && n >= MAX_LINE_LENGTH {
            LineStep::Failed(ReadError::LineTooLong)
        } else {
            LineStep::More
        }
    }
}

/// What follows a read of a body.
#[derive(Debug, Clone, Copy, PartialEq, Eq, Structural)]
pub enum BodyStep {
    /// Read on.
    More,
    /// All bytes have come.
    Complete,
    Failed(ReadError),
}

/// A body of known length that is being read.
pub struct BodyReader {
    pub buf: Vec<u8>,
    pub want: usize,
}

impl BodyReader {
    /// No more bytes than there are to be.
    pub open spec fn wf(&self) -> bool {
        self.buf@.len() <= self.want
    }

    /// Nothing of the body yet.
    pub fn new(want: usize) -> (r: BodyReader)
        ensures
            r.wf(),
            r.buf@.len() == 0,
            r.want == want,
    {
        BodyReader { buf: Vec::new(), want }
    }

    /// How many bytes are still to come; none where the body is complete. Fails
    /// where some are and the deadline has gone by.
    pub fn room(&self, expired: bool) -> (r: Result<usize, ReadError>)
        requires
            self.wf(),
        ensures
            if self.buf@.len() < self.want && expired {
                r == Err::<usize, ReadError>(ReadError::BodyDeadline)
            } else {
                r matches Ok(n) && n == self.want - self.buf@.len()
            },
    {
        if self.buf.len() < self.want && expired {
            return Err(ReadError::BodyDeadline);
        }
        Ok(self.want - self.buf.len())
    }

    /// Takes what a read came to, which is no more than there was room for.
    pub fn take(&mut self, arrival: Arrival) -> (r: BodyStep)
        requires
            old(self).wf(),
            arrival matches Arrival::Bytes(b) ==> old(self).buf@.len() + b@.len() <= old(self).want,
            arrival matches Arrival::Stalled(b) ==> old(self).buf@.len() + b@.len() <= old(self).want,
        ensures
            final(self).wf(),
            final(self).want == old(self).want,
            match arrival {
                Arrival::Bytes(b) => final(self).buf@ == old(self).buf@ + b@,
                Arrival::Stalled(b) => final(self).buf@ == old(self).buf@ + b@,
                Arrival::End => final(self).buf@ == old(self).buf@,
            },
            r == (if final(self).buf@.len() == final(self).want {
                BodyStep::Complete
            } else if arrival is End {
                BodyStep::Failed(ReadError::ShortBody)
            } else {
                BodyStep::More
            }),
    {
        let ended = matches!(arrival, Arrival::End);
        match arrival {
            Arrival::Bytes(b) => append(&mut self.buf, b.as_slice()),
            Arrival::Stalled(b) => append(&mut self.buf, b.as_slice()),
            Arrival::End => {},
        }
        if self.buf.len() == self.want {
            BodyStep::Complete
        } else if ended {
            BodyStep::Failed(ReadError::ShortBody)
        } else {
            BodyStep::More
        }
    }
}

// ---------------------------------------------------------------------------
// Laws
// ---------------------------------------------------------------------------

/// All pieces behind one another.
pub open spec fn joined(pieces: Seq<Seq<u8>>) -> Seq<u8>
    decreases pieces.len(),
{
    if pieces.len() == 0 {
        Seq::empty()
    } else {
        joined(pieces.drop_last()) + pieces.last()
    }
}

/// A line of at most the longest length comes out whole, in whatever pieces it
/// arrived and however often the wait was cut short between them: the reader
/// asks for more until the last piece, and then gives the line.
pub proof fn lines_survive_their_pieces(line: Seq<char>, pieces: Seq<Seq<u8>>, stalls: Seq<bool>)
    requires
        joined(pieces) == encode_utf8(line),
        pieces.len() > 0,
        pieces.last().len() > 0,
        ends_line(encode_utf8(line)),
        encode_utf8(line).len() <= line_cap(),
        forall|i: int|
            0 <= i < encode_utf8(line).len() - 1 ==> #[trigger] encode_utf8(line)[i] != 0x0a,
        stalls.len() == pieces.len(),
    ensures
        line_after(joined(pieces), stalls.last()) == LineStepView::Line(line),
        forall|k: int|
            0 <= k < pieces.len() - 1 ==> line_after(
                #[trigger] joined(pieces.take(k + 1)),
                stalls[k],
            ) == LineStepView::More,
{
    encode_utf8_valid_utf8(line);
    encode_utf8_decode_utf8(line);
    let all = encode_utf8(line);
    assert forall|k: int| 0 <= k < pieces.len() - 1 implies line_after(
        #[trigger] joined(pieces.take(k + 1)),
        stalls[k],
    ) == LineStepView::More by {
        lemma_joined_prefix(pieces, k + 1);
        lemma_joined_prefix(pieces, pieces.len() - 1);
        let part = joined(pieces.take(k + 1));
        lemma_joined_shorter(pieces, k + 1);
        assert(part.len() < all.len());
        if part.len() > 0 {
            assert(part.last() == all[part.len() - 1]);
        }
    }
}

/// A line that is longer than it may be never comes out: whatever has come of
/// it so far, no step gives a line, and once as many bytes have come as a line
/// may have, a read that was not cut short fails.
pub proof fn long_lines_are_refused(all: Seq<u8>, k: int, stalled: bool)
    requires
        all.len() > line_cap(),
        0 <= k <= all.len(),
        forall|i: int| 0 <= i < all.len() - 1 ==> #[trigger] all[i] != 0x0a,
    ensures
        !(line_after(all.take(k), stalled) is Line),
        k >= line_cap() && !stalled ==> line_after(all.take(k), stalled) == LineStepView::Failed(
            ReadError::LineTooLong,
        ),
{
    if 0 < k <= line_cap() {
        assert(all.take(k).last() == all[k - 1]);
    }
}

proof fn lemma_joined_prefix(pieces: Seq<Seq<u8>>, k: int)
    requires
        0 <= k <= pieces.len(),
    ensures
        joined(pieces.take(k)).len() <= joined(pieces).len(),
        joined(pieces.take(k)) == joined(pieces).take(joined(pieces.take(k)).len() as int),
    decreases pieces.len() - k,
{
    if k == pieces.len() {
        assert(pieces.take(k) =~= pieces);
        assert(joined(pieces).take(joined(pieces).len() as int) =~= joined(pieces));
    } else {
        lemma_joined_prefix(pieces, k + 1);
        assert(pieces.take(k + 1).drop_last() =~= pieces.take(k));
        let a = joined(pieces.take(k));
        let b = joined(pieces.take(k + 1));
        assert(b == a + pieces[k]);
        assert(a =~= b.take(a.len() as int));
        assert(joined(pieces).take(b.len() as int).take(a.len() as int) =~= joined(pieces).take(
            a.len() as int,
        ));
    }
}

proof fn lemma_joined_shorter(pieces: Seq<Seq<u8>>, k: int)
    requires
        0 <= k < pieces.len(),
        pieces.last().len() > 0,
    ensures
        joined(pieces.take(k)).len() < joined(pieces).len(),
{
    let front = pieces.drop_last();
    assert(front.take(k) =~= pieces.take(k));
    lemma_joined_prefix(front, k);
}

/// A line has at most 1024 bytes. One that has arrived whole and is no text is
/// refused for that, and one that has not is waited for.
pub proof fn lines_are_texts(data: Seq<u8>, stalled: bool)
    requires
        data.len() > 0,
    ensures
        line_cap() == 1024,
        data.len() <= 1024 && data.last() == 0x0a && !valid_utf8(data) ==> line_after(
            data,
            stalled,
        ) == LineStepView::Failed(ReadError::InvalidUtf8),
        data.len() < 1024 && data.last() != 0x0a ==> line_after(data, stalled)
            == LineStepView::More,
        data.len() == 1024 && data.last() != 0x0a ==> line_after(data, true) == LineStepView::More,
        data.len() > 1024 ==> line_after(data, stalled) == LineStepView::Failed(
            ReadError::LineTooLong,
        ),
{
}

} // verus!
