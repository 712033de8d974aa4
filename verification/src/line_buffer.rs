//! Cutting a byte stream into newline-delimited lines.
//!
//! A relay reads a child process's output in arbitrary chunks; the
//! [`LineBuffer`] turns those chunks back into the lines the child wrote.
//! The spec functions here say what the lines of a byte stream are, and
//! [`lemma_lines_reconstruct`] states that splitting loses, adds and
//! reorders nothing.

use vstd::prelude::*;

verus! {

/// The byte that ends a line.
pub const NEWLINE: u8 = 10;

/// The bytes of the unfinished line at the end of `s`: everything after the
/// last newline (all of `s` when `s` holds no newline).
pub open spec fn residual(s: Seq<u8>) -> Seq<u8>
    decreases s.len(),
{
    if s.len() == 0 {
        Seq::empty()
    } else if s.last() == NEWLINE {
        Seq::empty()
    } else {
        residual(s.drop_last()).push(s.last())
    }
}

/// The complete (newline-terminated) lines of `s`, in the order they stand
/// in `s`, each with its terminating newline stripped.
pub open spec fn complete_lines(s: Seq<u8>) -> Seq<Seq<u8>>
    decreases s.len(),
{
    if s.len() == 0 {
        Seq::empty()
    } else if s.last() == NEWLINE {
        complete_lines(s.drop_last()).push(residual(s.drop_last()))
    } else {
        complete_lines(s.drop_last())
    }
}

/// The given lines, concatenated with a newline restored after each.
pub open spec fn join_lines(ls: Seq<Seq<u8>>) -> Seq<u8>
    decreases ls.len(),
{
    if ls.len() == 0 {
        Seq::empty()
    } else {
        join_lines(ls.drop_last()) + ls.last() + seq![NEWLINE]
    }
}

/// True when no byte of `s` is a newline.
pub open spec fn newline_free(s: Seq<u8>) -> bool {
    forall|i: int| 0 <= i < s.len() ==> s[i] != NEWLINE
}

/// The unfinished line never contains a newline.
pub proof fn lemma_residual_newline_free(s: Seq<u8>)
    ensures
        newline_free(residual(s)),
    decreases s.len(),
{
    if s.len() == 0 {
    } else if s.last() == NEWLINE {
    } else {
        lemma_residual_newline_free(s.drop_last());
    }
}

/// No complete line contains a newline: a line is exactly what stands
/// between two terminators.
pub proof fn lemma_lines_newline_free(s: Seq<u8>)
    ensures
        forall|k: int| 0 <= k < complete_lines(s).len() ==> newline_free(complete_lines(s)[k]),
    decreases s.len(),
{
    if s.len() == 0 {
    } else if s.last() == NEWLINE {
        lemma_lines_newline_free(s.drop_last());
        lemma_residual_newline_free(s.drop_last());
        let cld = complete_lines(s.drop_last());
        let r = residual(s.drop_last());
        assert(complete_lines(s) == cld.push(r));
        assert forall|k: int| 0 <= k < complete_lines(s).len() implies newline_free(
            complete_lines(s)[k],
        ) by {
            if k < cld.len() {
                assert(complete_lines(s)[k] == cld[k]);
                assert(newline_free(cld[k]));
            } else {
                assert(complete_lines(s)[k] == r);
                assert(newline_free(r));
            }
        }
    } else {
        lemma_lines_newline_free(s.drop_last());
        assert(complete_lines(s) == complete_lines(s.drop_last()));
    }
}

/// Splitting is lossless: the complete lines of `s`, each with its newline
/// restored, followed by the unfinished rest, are `s` itself. So every byte
/// the child wrote appears in exactly one line, unmodified and in order.
pub proof fn lemma_lines_reconstruct(s: Seq<u8>)
    ensures
        join_lines(complete_lines(s)) + residual(s) == s,
    decreases s.len(),
{
    if s.len() == 0 {
        assert(join_lines(complete_lines(s)) + residual(s) =~= s);
    } else if s.last() == NEWLINE {
        let dl = s.drop_last();
        lemma_lines_reconstruct(dl);
        let ls = complete_lines(dl).push(residual(dl));
        assert(complete_lines(s) == ls);
        assert(ls.drop_last() =~= complete_lines(dl));
        assert(ls.last() == residual(dl));
        assert(join_lines(ls) == join_lines(complete_lines(dl)) + residual(dl) + seq![NEWLINE]);
        assert(dl + seq![NEWLINE] =~= s);
        assert(join_lines(complete_lines(s)) =~= dl + seq![NEWLINE]);
        assert(join_lines(complete_lines(s)) + residual(s) =~= s);
    } else {
        let dl = s.drop_last();
        lemma_lines_reconstruct(dl);
        let a = join_lines(complete_lines(dl));
        let r = residual(dl);
        assert(complete_lines(s) == complete_lines(dl));
        assert(residual(s) == r.push(s.last()));
        assert(a + r.push(s.last()) =~= (a + r).push(s.last()));
        assert(dl.push(s.last()) =~= s);
        assert(join_lines(complete_lines(s)) + residual(s) == s);
    }
}

/// A stream with no newline has no complete line, and is its own residue.
pub proof fn lemma_newline_free_split(s: Seq<u8>)
    requires
        newline_free(s),
    ensures
        complete_lines(s) == Seq::<Seq<u8>>::empty(),
        residual(s) == s,
    decreases s.len(),
{
    if s.len() == 0 {
        assert(residual(s) =~= s);
    } else {
        lemma_newline_free_split(s.drop_last());
        assert(residual(s) =~= s);
    }
}

/// Splitting a concatenation: the lines of `s + t` are the lines of `s`
/// followed by the lines that `t` completes, starting from `s`'s unfinished
/// rest. This is why feeding a stream in any division into chunks yields
/// the same lines.
pub proof fn lemma_split_append(s: Seq<u8>, t: Seq<u8>)
    ensures
        complete_lines(s + t) == complete_lines(s) + complete_lines(residual(s) + t),
        residual(s + t) == residual(residual(s) + t),
    decreases t.len(),
{
    if t.len() == 0 {
        lemma_residual_newline_free(s);
        lemma_newline_free_split(residual(s));
        assert(s + t =~= s);
        assert(residual(s) + t =~= residual(s));
        assert(complete_lines(s + t) =~= complete_lines(s) + complete_lines(residual(s) + t));
    } else {
        let t0 = t.drop_last();
        let b = t.last();
        lemma_split_append(s, t0);
        assert(s + t =~= (s + t0).push(b));
        assert(residual(s) + t =~= (residual(s) + t0).push(b));
        assert((s + t0).push(b).drop_last() =~= s + t0);
        assert((residual(s) + t0).push(b).drop_last() =~= residual(s) + t0);
        if b == NEWLINE {
            assert(complete_lines(s + t) =~= complete_lines(s) + complete_lines(residual(s) + t));
        } else {
            assert(complete_lines(s + t) =~= complete_lines(s) + complete_lines(residual(s) + t));
            assert(residual(s + t) =~= residual(residual(s) + t));
        }
    }
}

/// Holds the unfinished line between two reads of a stream.
pub struct LineBuffer {
    pending: Vec<u8>,
}

impl View for LineBuffer {
    type V = Seq<u8>;

    closed spec fn view(&self) -> Seq<u8> {
        self.pending@
    }
}

impl LineBuffer {
    /// An unfinished line holds no newline: the buffer empties itself the
    /// moment one arrives.
    #[verifier::type_invariant]
    spec fn inv(self) -> bool {
        newline_free(self.pending@)
    }

    /// A buffer holding no unfinished line.
    pub fn new() -> (b: LineBuffer)
        ensures
            b@ == Seq::<u8>::empty(),
    {
        LineBuffer { pending: Vec::new() }
    }

    /// True when no unfinished line is held.
    pub fn is_empty(&self) -> (r: bool)
        ensures
            r == (self@.len() == 0),
    {
        self.pending.is_empty()
    }

    /// Hands out the unfinished line and leaves the buffer empty.
    pub fn take_pending(&mut self) -> (v: Vec<u8>)
        ensures
            v@ == old(self)@,
            final(self)@ == Seq::<u8>::empty(),
    {
        let mut tmp = LineBuffer { pending: Vec::new() };
        core::mem::swap(self, &mut tmp);
        tmp.pending
    }

    /// Consumes one read chunk: returns the lines that the chunk completes,
    /// in order, and keeps the new unfinished rest.
    pub fn feed(&mut self, chunk: &[u8]) -> (lines: Vec<Vec<u8>>)
        ensures
            lines.deep_view() == complete_lines(old(self)@ + chunk@),
            final(self)@ == residual(old(self)@ + chunk@),
    {
        proof {
            use_type_invariant(&*self);
        }
        let ghost start: Seq<u8> = self.pending@;
        let mut pending: Vec<u8> = Vec::new();
        core::mem::swap(&mut pending, &mut self.pending);
        let mut lines: Vec<Vec<u8>> = Vec::new();
        proof {
            lemma_newline_free_split(start);
            assert(start + chunk@.subrange(0, 0) =~= start);
            assert(lines.deep_view() =~= complete_lines(start));
        }
        let n = chunk.len();
        let mut i: usize = 0;
        while i < n
            invariant
                i <= n,
                n == chunk@.len(),
                lines.deep_view() == complete_lines(start + chunk@.subrange(0, i as int)),
                pending@ == residual(start + chunk@.subrange(0, i as int)),
            decreases n - i,
        {
            let b = chunk[i];
            let ghost seen = start + chunk@.subrange(0, i as int);
            proof {
                assert(start + chunk@.subrange(0, i as int + 1) =~= seen.push(chunk@[i as int]));
                assert(seen.push(b).drop_last() =~= seen);
            }
            if b == NEWLINE {
                let mut finished: Vec<u8> = Vec::new();
                core::mem::swap(&mut finished, &mut pending);
                let ghost before = lines.deep_view();
                lines.push(finished);
                proof {
                    assert(lines.deep_view() =~~= before.push(finished@));
                }
            } else {
                pending.push(b);
            }
            i = i + 1;
        }
        proof {
            assert(start + chunk@.subrange(0, n as int) =~= start + chunk@);
            lemma_residual_newline_free(start + chunk@);
        }
        self.pending = pending;
        lines
    }
}

} // verus!
