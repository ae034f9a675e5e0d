use vstd::prelude::*;

verus! {

/// The byte that ends every message on the wire.
pub const NEWLINE: u8 = 10;

pub open spec fn no_newline(s: Seq<u8>) -> bool {
    forall|i: int| 0 <= i < s.len() ==> s[i] != NEWLINE
}

/// The bytes of `lines`, each followed by a newline.
pub open spec fn join_lines(lines: Seq<Seq<u8>>) -> Seq<u8>
    decreases lines.len(),
{
    if lines.len() == 0 {
        Seq::empty()
    } else {
        join_lines(lines.drop_last()) + lines.last() + seq![NEWLINE]
    }
}

pub open spec fn views(v: Seq<Vec<u8>>) -> Seq<Seq<u8>> {
    v.map_values(|x: Vec<u8>| x@)
}

/// Splits a byte stream into newline-terminated messages, however the
/// stream arrives: a message may span several reads and a read may hold
/// several messages.
pub struct LineFramer {
    pending: Vec<u8>,
}

impl LineFramer {
    /// The bytes of a message begun but not yet ended.
    pub closed spec fn pending_spec(&self) -> Seq<u8> {
        self.pending@
    }

    pub closed spec fn wf(&self) -> bool {
        no_newline(self.pending@)
    }

    pub fn new() -> (r: LineFramer)
        ensures
            r.wf(),
            r.pending_spec() == Seq::<u8>::empty(),
    {
        LineFramer { pending: Vec::new() }
    }

    /// The bytes of a message begun but not yet ended.
    pub fn pending(&self) -> (r: &Vec<u8>)
        ensures
            r@ == self.pending_spec(),
    {
        &self.pending
    }

    /// Takes the next bytes read and hands back every message they complete,
    /// in order, without its newline.
    pub fn feed(&mut self, chunk: &[u8]) -> (r: Vec<Vec<u8>>)
        requires
            old(self).wf(),
        ensures
            final(self).wf(),
            join_lines(views(r@)) + final(self).pending_spec() == old(self).pending_spec() + chunk@,
            forall|k: int| 0 <= k < r@.len() ==> no_newline(#[trigger] r@[k]@),
    {
        let mut out: Vec<Vec<u8>> = Vec::new();
        let mut i: usize = 0;
        let ghost start = self.pending@;
        while i < chunk.len()
            invariant
                i <= chunk@.len(),
                no_newline(self.pending@),
                forall|k: int| 0 <= k < out@.len() ==> no_newline(#[trigger] out@[k]@),
                join_lines(views(out@)) + self.pending@ == start + chunk@.subrange(0, i as int),
            decreases chunk@.len() - i,
        {
            let b = chunk[i];
            let ghost before_out = out@;
            let ghost before_pending = self.pending@;
            if b == NEWLINE {
                let line = self.pending.split_off(0);
                proof {
                    assert(self.pending@ =~= Seq::<u8>::empty());
                    assert(line@ =~= before_pending);
                }
                out.push(line);
                proof {
                    assert(views(out@).drop_last() =~= views(before_out));
                    assert(views(out@).last() == before_pending);
                    assert(join_lines(views(out@)) == join_lines(views(before_out)) + before_pending + seq![NEWLINE]);
                    assert(join_lines(views(out@)) + self.pending@ =~= (join_lines(views(before_out))
                        + before_pending).push(b));
                }
            } else {
                self.pending.push(b);
                proof {
                    assert(self.pending@ == before_pending.push(b));
                    assert(join_lines(views(out@)) + self.pending@ =~= (join_lines(views(before_out))
                        + before_pending).push(b));
                }
            }
            proof {
                assert(chunk@.subrange(0, i + 1) =~= chunk@.subrange(0, i as int).push(b));
                assert((start + chunk@.subrange(0, i as int)).push(b) =~= start + chunk@.subrange(0, i + 1));
            }
            i = i + 1;
        }
        proof {
            assert(chunk@.subrange(0, chunk@.len() as int) =~= chunk@);
        }
        out
    }
}

/// The bytes that carry one message: the message, then a newline.
pub fn frame_line(payload: &[u8]) -> (r: Vec<u8>)
    requires
        no_newline(payload@),
    ensures
        r@ == payload@.push(NEWLINE),
        r@ == join_lines(seq![payload@]),
{
    let mut out: Vec<u8> = Vec::new();
    let mut i: usize = 0;
    while i < payload.len()
        invariant
            i <= payload@.len(),
            out@ == payload@.subrange(0, i as int),
        decreases payload@.len() - i,
    {
        out.push(payload[i]);
        i = i + 1;
        proof {
            assert(out@ =~= payload@.subrange(0, i as int));
        }
    }
    out.push(NEWLINE);
    proof {
        assert(payload@.subrange(0, payload@.len() as int) =~= payload@);
        lemma_join_single(payload@);
    }
    out
}

/// Joining two runs of messages is joining their bytes.
pub proof fn lemma_join_concat(a: Seq<Seq<u8>>, b: Seq<Seq<u8>>)
    ensures
        join_lines(a + b) == join_lines(a) + join_lines(b),
    decreases b.len(),
{
    if b.len() == 0 {
        assert(a + b =~= a);
        assert(join_lines(a) + join_lines(b) =~= join_lines(a));
    } else {
        lemma_join_concat(a, b.drop_last());
        assert((a + b).drop_last() =~= a + b.drop_last());
        assert((a + b).last() == b.last());
        assert(join_lines(a + b) =~= join_lines(a) + join_lines(b));
    }
}

proof fn lemma_join_single(x: Seq<u8>)
    ensures
        join_lines(seq![x]) == x.push(NEWLINE),
{
    let l = seq![x];
    assert(l.drop_last() =~= Seq::<Seq<u8>>::empty());
    assert(join_lines(Seq::<Seq<u8>>::empty()) == Seq::<u8>::empty());
    assert(l.last() == x);
    assert(join_lines(l) == join_lines(l.drop_last()) + l.last() + seq![NEWLINE]);
    assert(join_lines(l) =~= x.push(NEWLINE));
}

proof fn lemma_join_last_newline(lines: Seq<Seq<u8>>)
    requires
        lines.len() > 0,
    ensures
        join_lines(lines).len() > 0,
        join_lines(lines).last() == NEWLINE,
{
}

/// A byte stream of newline-terminated messages, followed by an unended
/// tail, determines both: the same bytes, however they were read, give the
/// same messages and the same tail.
pub proof fn lemma_framing_unique(lines_a: Seq<Seq<u8>>, rest_a: Seq<u8>, lines_b: Seq<Seq<u8>>, rest_b: Seq<u8>)
    requires
        join_lines(lines_a) + rest_a == join_lines(lines_b) + rest_b,
        forall|k: int| 0 <= k < lines_a.len() ==> no_newline(#[trigger] lines_a[k]),
        forall|k: int| 0 <= k < lines_b.len() ==> no_newline(#[trigger] lines_b[k]),
        no_newline(rest_a),
        no_newline(rest_b),
    ensures
        lines_a == lines_b,
        rest_a == rest_b,
    decreases lines_a.len() + lines_b.len(),
{
    let s = join_lines(lines_a) + rest_a;
    if lines_a.len() == 0 && lines_b.len() == 0 {
        assert(rest_a =~= s);
        assert(rest_b =~= s);
        assert(lines_a =~= lines_b);
    } else if lines_a.len() == 0 {
        lemma_join_last_newline(lines_b);
        let j = join_lines(lines_b).len() - 1;
        assert(s[j] == NEWLINE);
        assert(join_lines(lines_a) =~= Seq::<u8>::empty());
        assert(s =~= rest_a);
        assert(false);
    } else if lines_b.len() == 0 {
        lemma_join_last_newline(lines_a);
        let j = join_lines(lines_a).len() - 1;
        assert(s[j] == NEWLINE);
        assert(join_lines(lines_b) =~= Seq::<u8>::empty());
        assert(false);
    } else {
        // The tails are the bytes after the last newline.
        let end_a = join_lines(lines_a).len() as int;
        let end_b = join_lines(lines_b).len() as int;
        lemma_join_last_newline(lines_a);
        lemma_join_last_newline(lines_b);
        assert(s.len() == end_a + rest_a.len());
        assert(s.len() == end_b + rest_b.len());
        assert(s == join_lines(lines_b) + rest_b);
        if end_a < end_b {
            assert(s[end_b - 1] == join_lines(lines_b)[end_b - 1]);
            assert(s[end_b - 1] == rest_a[end_b - 1 - end_a]);
            assert(false);
        } else if end_b < end_a {
            assert(s[end_a - 1] == join_lines(lines_a)[end_a - 1]);
            assert(s[end_a - 1] == rest_b[end_a - 1 - end_b]);
            assert(false);
        }
        assert(rest_a =~= s.subrange(end_a, s.len() as int));
        assert(rest_b =~= s.subrange(end_b, s.len() as int));
        assert(join_lines(lines_a) =~= s.subrange(0, end_a));
        assert(join_lines(lines_b) =~= s.subrange(0, end_b));
        let last_a = lines_a.last();
        let last_b = lines_b.last();
        let init_a = join_lines(lines_a.drop_last());
        let init_b = join_lines(lines_b.drop_last());
        assert(join_lines(lines_a) == init_a + last_a + seq![NEWLINE]);
        assert(join_lines(lines_b) == init_b + last_b + seq![NEWLINE]);
        assert(init_a + last_a =~= join_lines(lines_a).drop_last());
        assert(init_b + last_b =~= join_lines(lines_b).drop_last());
        assert(init_a + last_a == init_b + last_b);
        assert(no_newline(last_a)) by {
            assert(last_a == lines_a[lines_a.len() - 1]);
        }
        assert(no_newline(last_b)) by {
            assert(last_b == lines_b[lines_b.len() - 1]);
        }
        lemma_framing_unique(lines_a.drop_last(), last_a, lines_b.drop_last(), last_b);
        assert(lines_a =~= lines_a.drop_last().push(last_a));
        assert(lines_b =~= lines_b.drop_last().push(last_b));
    }
}

/// A framed message read back in any number of pieces is that one message.
pub proof fn lemma_frame_round_trip(payload: Seq<u8>, lines: Seq<Seq<u8>>, rest: Seq<u8>)
    requires
        no_newline(payload),
        join_lines(lines) + rest == payload.push(NEWLINE),
        forall|k: int| 0 <= k < lines.len() ==> no_newline(#[trigger] lines[k]),
        no_newline(rest),
    ensures
        lines == seq![payload],
        rest.len() == 0,
{
    lemma_join_single(payload);
    assert(join_lines(seq![payload]) + Seq::<u8>::empty() =~= payload.push(NEWLINE));
    lemma_framing_unique(lines, rest, seq![payload], Seq::empty());
}

} // verus!
