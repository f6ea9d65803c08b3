//! Physical line counting over byte streams.
//!
//! A stream is counted by the number of newline bytes it holds; a
//! non-empty stream that does not end in a newline has one final
//! unterminated line, which still counts.

use vstd::prelude::*;

verus! {

/// The newline byte, `b'\n'`.
pub const NEWLINE: u8 = 10;

/// Length of the fixed read buffer used when streaming a file's bytes.
pub const CHUNK_LEN: usize = 32768;

/// Number of occurrences of the byte `b` in `s`.
pub open spec fn count_byte(s: Seq<u8>, b: u8) -> nat
    decreases s.len(),
{
    if s.len() == 0 {
        0
    } else {
        count_byte(s.drop_last(), b) + if s.last() == b {
            1nat
        } else {
            0nat
        }
    }
}

/// Number of newline bytes in `s`.
pub open spec fn count_newlines(s: Seq<u8>) -> nat {
    count_byte(s, NEWLINE)
}

/// Physical line count of a byte stream: the number of newline bytes,
/// plus one for the final unterminated line when the stream is
/// non-empty and does not end in a newline. An empty stream has no
/// lines.
pub open spec fn spec_count_lines(s: Seq<u8>) -> nat {
    if s.len() == 0 {
        0
    } else if s.last() == NEWLINE {
        count_newlines(s)
    } else {
        count_newlines(s) + 1
    }
}

/// Occurrence counts add up across concatenation.
pub proof fn lemma_count_byte_concat(s: Seq<u8>, t: Seq<u8>, b: u8)
    ensures
        count_byte(s + t, b) == count_byte(s, b) + count_byte(t, b),
    decreases t.len(),
{
    if t.len() == 0 {
        assert(s + t =~= s);
    } else {
        lemma_count_byte_concat(s, t.drop_last(), b);
        assert((s + t).drop_last() =~= s + t.drop_last());
    }
}

/// A byte occurs no more often than the sequence is long.
pub proof fn lemma_count_byte_le_len(s: Seq<u8>, b: u8)
    ensures
        count_byte(s, b) <= s.len(),
    decreases s.len(),
{
    if s.len() > 0 {
        lemma_count_byte_le_len(s.drop_last(), b);
    }
}

/// Relies on `bytecount::count`: returns the number of occurrences of
/// `needle` in `haystack`.
#[verifier::external_body]
fn count_byte_in_slice(haystack: &[u8], needle: u8) -> (r: usize)
    ensures
        r == count_byte(haystack@, needle),
{
    bytecount::count(haystack, needle)
}

/// Incremental physical line counter. Byte chunks of a stream are fed
/// in order with [`LineCounter::push_chunk`]; [`LineCounter::finish`]
/// then yields the line count of the whole stream. The view is the
/// sequence of all bytes fed so far.
pub struct LineCounter {
    newlines: u64,
    last_byte_newline: bool,
    seen_any: bool,
    bytes_seen: Ghost<Seq<u8>>,
}

impl View for LineCounter {
    type V = Seq<u8>;

    closed spec fn view(&self) -> Seq<u8> {
        self.bytes_seen@
    }
}

impl LineCounter {
    /// The counter's internal state agrees with the bytes seen so far.
    pub closed spec fn wf(self) -> bool {
        &&& self.newlines == count_newlines(self.bytes_seen@)
        &&& self.seen_any == (self.bytes_seen@.len() > 0)
        &&& self.last_byte_newline == (self.bytes_seen@.len() > 0
            && self.bytes_seen@.last() == NEWLINE)
        &&& count_newlines(self.bytes_seen@) < u64::MAX
    }

    /// A fresh counter that has seen no bytes.
    pub fn new() -> (r: LineCounter)
        ensures
            r.wf(),
            r@ == Seq::<u8>::empty(),
    {
        LineCounter { newlines: 0, last_byte_newline: false, seen_any: false, bytes_seen: Ghost(Seq::empty()) }
    }

    /// Feed the next chunk of the stream. The bound on the newline
    /// count is a machine limit: the final count is returned as a
    /// `u64`.
    pub fn push_chunk(&mut self, chunk: &[u8])
        requires
            old(self).wf(),
            count_newlines(old(self)@ + chunk@) < u64::MAX,
        ensures
            final(self).wf(),
            final(self)@ == old(self)@ + chunk@,
    {
        let n = count_byte_in_slice(chunk, NEWLINE);
        proof {
            lemma_count_byte_concat(self.bytes_seen@, chunk@, NEWLINE);
        }
        self.newlines = self.newlines + n as u64;
        if chunk.len() > 0 {
            self.last_byte_newline = chunk[chunk.len() - 1] == NEWLINE;
            self.seen_any = true;
        }
        self.bytes_seen = Ghost(self.bytes_seen@ + chunk@);
        proof {
            if chunk@.len() == 0 {
                assert(self.bytes_seen@ =~= old(self).bytes_seen@);
            }
        }
    }

    /// The line count of everything fed so far.
    pub fn finish(&self) -> (r: u64)
        requires
            self.wf(),
        ensures
            r == spec_count_lines(self@),
    {
        if self.seen_any && !self.last_byte_newline {
            self.newlines + 1
        } else {
            self.newlines
        }
    }
}

/// Count the physical lines of `bytes`, streamed through a fixed-size
/// buffer window. The length bound is a machine limit: the count is
/// returned as a `u64`.
pub fn count_lines(bytes: &[u8]) -> (r: u64)
    requires
        bytes@.len() < u64::MAX,
    ensures
        r == spec_count_lines(bytes@),
{
    let mut counter = LineCounter::new();
    let mut i: usize = 0;
    while i < bytes.len()
        invariant
            counter.wf(),
            i <= bytes@.len() < u64::MAX,
            counter@ == bytes@.subrange(0, i as int),
        decreases bytes@.len() - i,
    {
        let end = if bytes.len() - i < CHUNK_LEN {
            bytes.len()
        } else {
            i + CHUNK_LEN
        };
        let chunk = &bytes[i..end];
        proof {
            assert(counter@ + chunk@ =~= bytes@.subrange(0, end as int));
            lemma_count_byte_le_len(bytes@.subrange(0, end as int), NEWLINE);
        }
        counter.push_chunk(chunk);
        i = end;
    }
    proof {
        assert(counter@ =~= bytes@);
    }
    counter.finish()
}

} // verus!
