//! Chat with the local model server: the request settings, the reading of
//! its newline-delimited streamed reply, and what each streamed message
//! asks for.

use vstd::prelude::*;

use crate::text::{chars_of, string_from_chars, strs_of, trim, trim_chars};

verus! {

/// A message of a conversation; `role` is `user` or `assistant`.
pub struct ChatMessage {
    pub role: String,
    pub content: String,
}

/// Seconds the model stays loaded after a request: for good (-1) when the
/// user keeps it in memory, else the server's default of five minutes.
pub fn keep_alive_secs(keep_in_memory: bool) -> (secs: i64)
    ensures
        secs == if keep_in_memory { -1i64 } else { 300i64 },
{
    if keep_in_memory {
        -1
    } else {
        300
    }
}

/// The CPU threads inference may use: half of those available, at least one.
pub fn inference_threads(available: usize) -> (threads: usize)
    ensures
        threads == if available / 2 >= 1 { available / 2 } else { 1 },
{
    let half = available / 2;
    if half >= 1 {
        half
    } else {
        1
    }
}

/// What a streamed message asks for.
pub enum StreamStep {
    /// Pass the message's text on to the conversation.
    Emit,
    /// The reply is complete.
    Finish,
    /// Nothing to do.
    Skip,
}

/// The step for a streamed message: the final one (`done`) ends the reply,
/// another one with text passes the text on.
pub fn stream_step(done: bool, content: &str) -> (step: StreamStep)
    ensures
        done ==> step is Finish,
        !done && content@.len() > 0 ==> step is Emit,
        !done && content@.len() == 0 ==> step is Skip,
{
    if done {
        StreamStep::Finish
    } else if !content.is_empty() {
        StreamStep::Emit
    } else {
        StreamStep::Skip
    }
}

/// After reading `text` with `pending` unfinished: the unfinished line and
/// the finished lines, trimmed, blank ones dropped.
pub open spec fn feed(pending: Seq<char>, text: Seq<char>) -> (Seq<char>, Seq<Seq<char>>)
    decreases text.len(),
{
    if text.len() == 0 {
        (pending, Seq::empty())
    } else {
        let (p, done) = feed(pending, text.drop_last());
        if text.last() == '\n' {
            let line = trim(p);
            (Seq::empty(), if line.len() > 0 { done.push(line) } else { done })
        } else {
            (p.push(text.last()), done)
        }
    }
}

/// Reading a stream in two chunks gives what reading it in one does: the
/// same unfinished line, and the lines of the first chunk followed by those
/// of the second.
pub proof fn law_stream_chunking_invariant(pending: Seq<char>, a: Seq<char>, b: Seq<char>)
    ensures
        feed(feed(pending, a).0, b).0 == feed(pending, a + b).0,
        feed(pending, a).1 + feed(feed(pending, a).0, b).1 == feed(pending, a + b).1,
    decreases b.len(),
{
    if b.len() == 0 {
        assert(a + b =~= a);
        assert(feed(pending, a).1 + Seq::<Seq<char>>::empty() =~= feed(pending, a).1);
    } else {
        let b0 = b.drop_last();
        law_stream_chunking_invariant(pending, a, b0);
        assert((a + b).drop_last() =~= a + b0);
        assert((a + b).last() == b.last());
        let q = feed(pending, a).0;
        let (p1, d1) = feed(q, b0);
        let (p2, d2) = feed(pending, a + b0);
        assert(p1 == p2);
        if b.last() == '\n' {
            let line = trim(p1);
            if line.len() > 0 {
                assert(feed(pending, a).1 + d1.push(line) =~= (feed(pending, a).1 + d1).push(line));
            }
        }
    }
}

/// The unfinished line of a streamed reply.
pub struct LineBuffer {
    pub pending: String,
}

impl LineBuffer {
    /// Nothing read yet.
    pub fn new() -> (buf: LineBuffer)
        ensures
            buf.pending@ == Seq::<char>::empty(),
    {
        LineBuffer { pending: String::new() }
    }

    /// Read a chunk of the reply: return the lines it finishes (trimmed,
    /// blank ones dropped) and keep the rest for the next chunk.
    pub fn push_text(&mut self, text: &str) -> (lines: Vec<String>)
        ensures
            (final(self).pending@, strs_of(lines@)) == feed(old(self).pending@, text@),
    {
        let cs = chars_of(text);
        let mut pending = chars_of(self.pending.as_str());
        let mut lines: Vec<String> = Vec::new();
        let ghost start = self.pending@;
        let mut i: usize = 0;
        while i < cs.len()
            invariant
                i <= cs@.len(),
                cs@ == text@,
                (pending@, strs_of(lines@)) == feed(start, text@.take(i as int)),
            decreases cs@.len() - i,
        {
            assert(text@.take(i + 1).drop_last() =~= text@.take(i as int));
            let c = cs[i];
            if c == '\n' {
                let t = trim_chars(pending.as_slice());
                if t.len() > 0 {
                    let ghost prev = lines@;
                    let s = string_from_chars(t.as_slice());
                    lines.push(s);
                    proof {
                        crate::text::lemma_strs_of_push(prev, s);
                    }
                }
                pending = Vec::new();
                assert(pending@ =~= Seq::<char>::empty());
            } else {
                pending.push(c);
            }
            i = i + 1;
        }
        assert(text@.take(i as int) =~= text@);
        self.pending = string_from_chars(pending.as_slice());
        lines
    }
}

} // verus!
