//! The frame reader: raw chunks from the connection accumulate in a buffer,
//! and nothing is forwarded until the buffer holds at least one newline.
//!
//! The grammars downstream are defined over whole lines, so forwarding an
//! unterminated chunk would split a record in two; the buffer-until-newline
//! policy is what makes the classification sound.  A zero-length read or a
//! read error ends the reading task; there is no reconnection.

use vstd::prelude::*;

verus! {

/// What one read from the connection produced.
pub enum ReadEvent {
    /// A chunk of text arrived.
    Data(String),
    /// The peer closed the connection (a zero-length read).
    Closed,
    /// The read failed.
    Failed,
}

/// What the reader does after taking one read outcome.
pub enum ReadStep {
    /// The buffer holds no complete frame yet; keep reading.
    Pending,
    /// A newline arrived: the whole buffered text, handed out as one frame.
    Frame(String),
    /// The connection is over; the reading task ends.
    Stop,
}

proof fn lemma_contains_concat(a: Seq<char>, b: Seq<char>, c: char)
    ensures
        (a + b).contains(c) <==> (a.contains(c) || b.contains(c)),
{
    if a.contains(c) {
        let k = choose|k: int| 0 <= k < a.len() && a[k] == c;
        assert((a + b)[k] == c);
    }
    if b.contains(c) {
        let k = choose|k: int| 0 <= k < b.len() && b[k] == c;
        assert((a + b)[a.len() + k] == c);
    }
    if (a + b).contains(c) {
        let k = choose|k: int| 0 <= k < (a + b).len() && (a + b)[k] == c;
        if k < a.len() {
            assert(a[k] == c);
        } else {
            assert(b[k - a.len()] == c);
        }
    }
}

/// Accumulates chunks until the text holds a newline, then hands the whole
/// accumulated text out as one frame.
pub struct FrameReader {
    buf: String,
    has_newline: bool,
}

impl FrameReader {
    /// The text accumulated and not yet handed out.
    pub closed spec fn buffered(self) -> Seq<char> {
        self.buf@
    }

    /// The newline mark mirrors the buffer's content.
    pub closed spec fn wf(self) -> bool {
        self.has_newline == self.buffered().contains('\n')
    }

    /// A reader with nothing buffered.
    pub fn new() -> (r: Self)
        ensures
            r.wf(),
            r.buffered() == Seq::<char>::empty(),
    {
        FrameReader { buf: String::new(), has_newline: false }
    }

    /// Adds one chunk to the buffer and reports whether the buffer now holds
    /// a complete frame, that is, at least one newline.
    pub fn push_chunk(&mut self, chunk: &str) -> (complete: bool)
        requires
            old(self).wf(),
        ensures
            final(self).wf(),
            final(self).buffered() == old(self).buffered() + chunk@,
            complete == final(self).buffered().contains('\n'),
    {
        let n = chunk.unicode_len();
        let mut i: usize = 0;
        let mut found = false;
        while i < n
            invariant
                0 <= i <= n == chunk@.len(),
                found ==> chunk@.contains('\n'),
                !found ==> forall|k: int| 0 <= k < i ==> chunk@[k] != '\n',
            decreases n - i,
        {
            if chunk.get_char(i) == '\n' {
                found = true;
            }
            i = i + 1;
        }
        proof {
            if !found {
                assert(!chunk@.contains('\n'));
            }
            lemma_contains_concat(self.buf@, chunk@, '\n');
        }
        self.buf.append(chunk);
        self.has_newline = self.has_newline || found;
        self.has_newline
    }

    /// Takes the buffered text out as one frame, leaving the buffer empty.
    pub fn take_frame(&mut self) -> (frame: String)
        requires
            old(self).wf(),
        ensures
            final(self).wf(),
            frame@ == old(self).buffered(),
            final(self).buffered() == Seq::<char>::empty(),
    {
        let frame = self.buf.clone();
        self.buf = String::new();
        self.has_newline = false;
        frame
    }

    /// Drives one read outcome: data accumulates until a newline completes a
    /// frame, which is handed out whole; a closed peer or a failed read stops
    /// the reading task with the buffer as it stands.
    pub fn on_event(&mut self, ev: ReadEvent) -> (step: ReadStep)
        requires
            old(self).wf(),
        ensures
            final(self).wf(),
            match ev {
                ReadEvent::Data(c) => {
                    if (old(self).buffered() + c@).contains('\n') {
                        &&& step matches ReadStep::Frame(f) && f@ == old(self).buffered() + c@
                        &&& final(self).buffered() == Seq::<char>::empty()
                    } else {
                        &&& step is Pending
                        &&& final(self).buffered() == old(self).buffered() + c@
                    }
                },
                ReadEvent::Closed => step is Stop && *final(self) == *old(self),
                ReadEvent::Failed => step is Stop && *final(self) == *old(self),
            },
    {
        match ev {
            ReadEvent::Data(c) => {
                if self.push_chunk(c.as_str()) {
                    ReadStep::Frame(self.take_frame())
                } else {
                    ReadStep::Pending
                }
            },
            ReadEvent::Closed => ReadStep::Stop,
            ReadEvent::Failed => ReadStep::Stop,
        }
    }
}

} // verus!
