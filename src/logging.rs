//! A write-only stream that forwards each complete line to a logger.
use vstd::prelude::*;

verus! {

/// A sink for log lines.
pub trait Logger {
    fn log(&self, message: &[u8]);
}

pub open spec fn is_newline(b: u8) -> bool {
    b == 10u8
}

/// The complete lines of `s`, in order, each without its terminating newline.
pub open spec fn complete_lines(s: Seq<u8>) -> Seq<Seq<u8>>
    decreases s.len(),
{
    if s.len() == 0 {
        Seq::empty()
    } else if is_newline(s.last()) {
        complete_lines(s.drop_last()).push(unterminated_tail(s.drop_last()))
    } else {
        complete_lines(s.drop_last())
    }
}

/// The bytes of `s` after its last newline (all of `s` when it holds none).
pub open spec fn unterminated_tail(s: Seq<u8>) -> Seq<u8>
    decreases s.len(),
{
    if s.len() == 0 {
        Seq::empty()
    } else if is_newline(s.last()) {
        Seq::empty()
    } else {
        unterminated_tail(s.drop_last()).push(s.last())
    }
}

/// The number of newline bytes in `s`.
pub open spec fn newline_count(s: Seq<u8>) -> nat
    decreases s.len(),
{
    if s.len() == 0 {
        0
    } else if is_newline(s.last()) {
        newline_count(s.drop_last()) + 1
    } else {
        newline_count(s.drop_last())
    }
}

/// Buffers partial lines and hands every complete line to its logger.
pub struct LogForwarder<L: Logger> {
    logger: L,
    incomplete: Vec<u8>,
    /// The messages handed to the logger so far, in order.
    emitted: Ghost<Seq<Seq<u8>>>,
}

impl<L: Logger> LogForwarder<L> {
    /// The bytes written since the last newline.
    pub closed spec fn pending(&self) -> Seq<u8> {
        self.incomplete@
    }

    /// Every message this forwarder has passed to its logger, oldest first.
    pub closed spec fn forwarded(&self) -> Seq<Seq<u8>> {
        self.emitted@
    }

    pub closed spec fn wf(&self) -> bool {
        forall|i: int| 0 <= i < self.incomplete@.len() ==> !is_newline(#[trigger] self.incomplete@[i])
    }

    pub fn new(logger: L) -> (r: Self)
        ensures
            r.wf(),
            r.pending() == Seq::<u8>::empty(),
            r.forwarded() == Seq::<Seq<u8>>::empty(),
    {
        LogForwarder { logger, incomplete: Vec::new(), emitted: Ghost(Seq::empty()) }
    }

    /// Takes `buf` whole: each newline completes a line, which goes to the
    /// logger; what follows the last newline stays buffered.
    pub fn write(&mut self, buf: &[u8]) -> (n: usize)
        requires
            old(self).wf(),
        ensures
            final(self).wf(),
            n == buf@.len(),
            final(self).forwarded() == old(self).forwarded() + complete_lines(
                old(self).pending() + buf@,
            ),
            final(self).pending() == unterminated_tail(old(self).pending() + buf@),
    {
        let ghost start = self.incomplete@;
        let ghost before = self.emitted@;
        proof {
            lemma_tail_of_line_free(start);
        }
        let mut i: usize = 0;
        while i < buf.len()
            invariant
                0 <= i <= buf@.len(),
                self.wf(),
                self.emitted@ == before + complete_lines(start + buf@.subrange(0, i as int)),
                self.incomplete@ == unterminated_tail(start + buf@.subrange(0, i as int)),
                complete_lines(start) == Seq::<Seq<u8>>::empty(),
            decreases buf@.len() - i,
        {
            let ghost prev = start + buf@.subrange(0, i as int);
            let b = buf[i];
            assert(start + buf@.subrange(0, i + 1) =~= prev.push(b));
            assert(prev.push(b).drop_last() =~= prev);
            if b == 10u8 {
                self.logger.log(self.incomplete.as_slice());
                proof {
                    self.emitted@ = self.emitted@.push(self.incomplete@);
                }
                self.incomplete.clear();
                assert(self.emitted@ =~= before + complete_lines(prev.push(b)));
            } else {
                self.incomplete.push(b);
            }
            i = i + 1;
        }
        assert(buf@.subrange(0, buf@.len() as int) =~= buf@);
        buf.len()
    }

    /// Hands a buffered unterminated line, if any, to the logger.
    pub fn finish(&mut self)
        ensures
            final(self).wf(),
            final(self).pending() == Seq::<u8>::empty(),
            old(self).pending().len() == 0 ==> final(self).forwarded() == old(self).forwarded(),
            old(self).pending().len() > 0 ==> final(self).forwarded() == old(
                self,
            ).forwarded().push(old(self).pending()),
    {
        if self.incomplete.len() > 0 {
            self.logger.log(self.incomplete.as_slice());
            proof {
                self.emitted@ = self.emitted@.push(self.incomplete@);
            }
            self.incomplete.clear();
        }
    }

    /// Cuts the buffered bytes to `len`, or pads them with zero bytes up to
    /// `len`.
    pub fn set_len(&mut self, len: usize)
        requires
            old(self).wf(),
        ensures
            final(self).wf(),
            final(self).forwarded() == old(self).forwarded(),
            len <= old(self).pending().len() ==> final(self).pending() == old(self).pending().subrange(
                0,
                len as int,
            ),
            len > old(self).pending().len() ==> final(self).pending() == old(self).pending() + Seq::new(
                (len - old(self).pending().len()) as nat,
                |i: int| 0u8,
            ),
    {
        let ghost start = self.incomplete@;
        if len <= self.incomplete.len() {
            self.incomplete.truncate(len);
        } else {
            while self.incomplete.len() < len
                invariant
                    start.len() <= self.incomplete@.len() <= len,
                    self.incomplete@ == start + Seq::new(
                        (self.incomplete@.len() - start.len()) as nat,
                        |i: int| 0u8,
                    ),
                    self.emitted@ == old(self).emitted@,
                    forall|i: int| 0 <= i < start.len() ==> !is_newline(#[trigger] start[i]),
                decreases len - self.incomplete@.len(),
            {
                self.incomplete.push(0u8);
                assert(self.incomplete@ =~= start + Seq::new(
                    (self.incomplete@.len() - start.len()) as nat,
                    |i: int| 0u8,
                ));
            }
        }
    }

    /// The number of buffered bytes.
    pub fn size(&self) -> (r: usize)
        ensures
            r == self.pending().len(),
    {
        self.incomplete.len()
    }
}

/// The lines of `lines`, each followed by a newline, one after another.
pub open spec fn join_lines(lines: Seq<Seq<u8>>) -> Seq<u8>
    decreases lines.len(),
{
    if lines.len() == 0 {
        Seq::empty()
    } else {
        join_lines(lines.drop_last()) + lines.last().push(10u8)
    }
}

/// Writing `s` yields one logged line per newline of `s`: the segments before
/// each newline, in order and without newlines of their own; what follows the
/// last newline is the one line left for the end of the stream.
pub proof fn lemma_line_semantics(s: Seq<u8>)
    ensures
        complete_lines(s).len() == newline_count(s),
        forall|j: int, k: int|
            0 <= j < complete_lines(s).len() && 0 <= k < complete_lines(s)[j].len()
                ==> !is_newline(#[trigger] complete_lines(s)[j][k]),
        forall|k: int| 0 <= k < unterminated_tail(s).len() ==> !is_newline(#[trigger] unterminated_tail(s)[k]),
        join_lines(complete_lines(s)) + unterminated_tail(s) == s,
    decreases s.len(),
{
    if s.len() > 0 {
        let p = s.drop_last();
        lemma_line_semantics(p);
        assert(p.push(s.last()) =~= s);
        if is_newline(s.last()) {
            let ls = complete_lines(p).push(unterminated_tail(p));
            assert(ls.drop_last() =~= complete_lines(p));
            assert(join_lines(ls) + Seq::<u8>::empty() =~= s);
        } else {
            assert(join_lines(complete_lines(s)) + unterminated_tail(s) =~= s);
        }
    }
}

/// A sequence without newlines is all tail and holds no complete line.
pub proof fn lemma_tail_of_line_free(s: Seq<u8>)
    requires
        forall|i: int| 0 <= i < s.len() ==> !is_newline(#[trigger] s[i]),
    ensures
        unterminated_tail(s) == s,
        complete_lines(s) == Seq::<Seq<u8>>::empty(),
        newline_count(s) == 0,
    decreases s.len(),
{
    if s.len() > 0 {
        lemma_tail_of_line_free(s.drop_last());
        assert(s.drop_last().push(s.last()) =~= s);
    }
}

} // verus!
