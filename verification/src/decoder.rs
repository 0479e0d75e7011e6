//! The streaming decoder: reconstructs discrete record lines from byte
//! chunks whose boundaries need not align with line boundaries, and decodes
//! each complete line into at most one stream item.
//!
//! The cursor buffers the unterminated tail of the byte stream between
//! chunks; no byte is ever lost and no partial record is ever parsed.
//! `lemma_chunk_boundary_invariance` states that the decoded item sequence
//! does not depend on where the byte stream was cut into chunks.
use vstd::prelude::*;

use crate::json::FragmentBytes;
use crate::json::FragmentBytesView;
use crate::json::MAX_SCAN_LEN;
use crate::json::Payload;
use crate::json::PayloadView;
use crate::json::parse_payload;
use crate::json::spec_parse_payload;

verus! {

/// The newline byte that terminates each record line.
pub const NL: u8 = 10;

/// The fixed marker `data: ` that opens every record line.
pub open spec fn marker() -> Seq<u8> {
    seq![100u8, 97u8, 116u8, 97u8, 58u8, 32u8]
}

/// The terminator payload `[DONE]`.
pub open spec fn done_token() -> Seq<u8> {
    seq![91u8, 68u8, 79u8, 78u8, 69u8, 93u8]
}

/// One decoded unit handed up by the decoder: a turn fragment, or the
/// terminator saying that the stream is logically over.
#[derive(Debug, Clone, PartialEq, Eq)]
pub enum StreamItem {
    Fragment(FragmentBytes),
    Done,
}

/// Mathematical image of a `StreamItem`.
pub enum StreamItemView {
    Fragment(FragmentBytesView),
    Done,
}

impl View for StreamItem {
    type V = StreamItemView;

    open spec fn view(&self) -> StreamItemView {
        match self {
            StreamItem::Fragment(f) => StreamItemView::Fragment(f@),
            StreamItem::Done => StreamItemView::Done,
        }
    }
}

/// The views of a sequence of items.
pub open spec fn view_items(s: Seq<StreamItem>) -> Seq<StreamItemView> {
    s.map_values(|it: StreamItem| it@)
}

/// What one complete line contributes to the decoded stream: nothing
/// unless the line starts with the record marker; the terminator item for
/// the `[DONE]` payload; the choice-0 fragment of a well-formed record
/// that carries one, the whole message preferred over the delta; nothing
/// for a malformed record, one with no choices, or one whose choice
/// carries neither part.
pub open spec fn spec_line_items(l: Seq<u8>) -> Seq<StreamItemView> {
    if l.len() < 6 || l.subrange(0, 6) != marker() {
        Seq::empty()
    } else {
        let p = l.skip(6);
        if p == done_token() {
            seq![StreamItemView::Done]
        } else {
            match spec_parse_payload(p) {
                PayloadView::Record { message, delta, finish_reason } => match message {
                    Some(m) => seq![StreamItemView::Fragment(m)],
                    None => match delta {
                        Some(d) => seq![StreamItemView::Fragment(d)],
                        None => Seq::empty(),
                    },
                },
                _ => Seq::empty(),
            }
        }
    }
}

/// The complete lines and the unterminated tail of a byte stream, the
/// partial first line carried in from earlier bytes given as `acc`.
pub open spec fn spec_scan(acc: Seq<u8>, s: Seq<u8>) -> (Seq<Seq<u8>>, Seq<u8>)
    decreases s.len(),
{
    if s.len() == 0 {
        (Seq::empty(), acc)
    } else if s[0] == NL {
        let t = spec_scan(Seq::empty(), s.drop_first());
        (seq![acc] + t.0, t.1)
    } else {
        spec_scan(acc + seq![s[0]], s.drop_first())
    }
}

/// The items contributed by a sequence of complete lines, in order.
pub open spec fn spec_items_of(ls: Seq<Seq<u8>>) -> Seq<StreamItemView>
    decreases ls.len(),
{
    if ls.len() == 0 {
        Seq::empty()
    } else {
        spec_line_items(ls[0]) + spec_items_of(ls.drop_first())
    }
}

/// Items of concatenated line sequences concatenate.
pub proof fn lemma_items_concat(a: Seq<Seq<u8>>, b: Seq<Seq<u8>>)
    ensures
        spec_items_of(a + b) == spec_items_of(a) + spec_items_of(b),
    decreases a.len(),
{
    if a.len() == 0 {
        assert(a + b =~= b);
        assert(spec_items_of(a) + spec_items_of(b) =~= spec_items_of(b));
    } else {
        assert((a + b)[0] == a[0]);
        assert((a + b).drop_first() =~= a.drop_first() + b);
        lemma_items_concat(a.drop_first(), b);
        assert(spec_line_items(a[0]) + (spec_items_of(a.drop_first()) + spec_items_of(b))
            =~= (spec_line_items(a[0]) + spec_items_of(a.drop_first())) + spec_items_of(b));
    }
}

/// Items of a line sequence extended by one line.
#[verifier::rlimit(50)]
pub proof fn lemma_items_push(ls: Seq<Seq<u8>>, l: Seq<u8>)
    ensures
        spec_items_of(ls.push(l)) == spec_items_of(ls) + spec_line_items(l),
{
    assert(ls.push(l) =~= ls + seq![l]);
    lemma_items_concat(ls, seq![l]);
    assert(seq![l].drop_first() =~= Seq::<Seq<u8>>::empty());
    assert(spec_items_of(seq![l]) == spec_line_items(l) + spec_items_of(
        Seq::<Seq<u8>>::empty(),
    ));
    assert(spec_line_items(l) + Seq::<StreamItemView>::empty() =~= spec_line_items(l));
}

/// Scanning a concatenation scans the first part, then the second from
/// the tail the first part left behind.
pub proof fn lemma_scan_concat(acc: Seq<u8>, a: Seq<u8>, b: Seq<u8>)
    ensures
        spec_scan(acc, a + b).0 == spec_scan(acc, a).0 + spec_scan(spec_scan(acc, a).1, b).0,
        spec_scan(acc, a + b).1 == spec_scan(spec_scan(acc, a).1, b).1,
    decreases a.len(),
{
    if a.len() == 0 {
        assert(a + b =~= b);
        assert(spec_scan(acc, a).0 + spec_scan(acc, b).0 =~= spec_scan(acc, b).0);
    } else {
        assert((a + b)[0] == a[0]);
        assert((a + b).drop_first() =~= a.drop_first() + b);
        if a[0] == NL {
            lemma_scan_concat(Seq::empty(), a.drop_first(), b);
            let t = spec_scan(Seq::empty(), a.drop_first());
            let u = spec_scan(t.1, b);
            assert(seq![acc] + (t.0 + u.0) =~= (seq![acc] + t.0) + u.0);
        } else {
            lemma_scan_concat(acc + seq![a[0]], a.drop_first(), b);
        }
    }
}

/// Bytes carried in the tail scan exactly as if they stood in front of
/// the incoming bytes, as long as the tail holds no newline.
pub proof fn lemma_scan_carry(acc: Seq<u8>, c: Seq<u8>, s: Seq<u8>)
    requires
        !c.contains(NL),
    ensures
        spec_scan(acc, c + s) == spec_scan(acc + c, s),
    decreases c.len(),
{
    if c.len() == 0 {
        assert(c + s =~= s);
        assert(acc + c =~= acc);
    } else {
        if c[0] == NL {
            assert(c.contains(NL));
            assert(false);
        }
        assert((c + s)[0] == c[0]);
        assert((c + s).drop_first() =~= c.drop_first() + s);
        assert(!c.drop_first().contains(NL)) by {
            if c.drop_first().contains(NL) {
                let k = choose|k: int|
                    0 <= k < c.drop_first().len() && c.drop_first()[k] == NL;
                assert(c[k + 1] == NL);
                assert(c.contains(NL));
            }
        }
        lemma_scan_carry(acc + seq![c[0]], c.drop_first(), s);
        assert((acc + seq![c[0]]) + c.drop_first() =~= acc + c);
    }
}

/// The decoded items and the final tail after feeding each chunk in turn,
/// starting from the tail `acc`.
pub open spec fn spec_decode_fold(acc: Seq<u8>, chunks: Seq<Seq<u8>>) -> (
    Seq<StreamItemView>,
    Seq<u8>,
)
    decreases chunks.len(),
{
    if chunks.len() == 0 {
        (Seq::empty(), acc)
    } else {
        let t = spec_scan(acc, chunks[0]);
        let u = spec_decode_fold(t.1, chunks.drop_first());
        (spec_items_of(t.0) + u.0, u.1)
    }
}

/// Chunk-boundary invariance: however the byte stream is cut into chunks,
/// feeding the chunks one by one decodes to exactly the items and the
/// tail of scanning the whole stream at once.
pub proof fn lemma_chunk_boundary_invariance(acc: Seq<u8>, chunks: Seq<Seq<u8>>)
    ensures
        spec_decode_fold(acc, chunks).0 == spec_items_of(spec_scan(acc, chunks.flatten()).0),
        spec_decode_fold(acc, chunks).1 == spec_scan(acc, chunks.flatten()).1,
    decreases chunks.len(),
{
    if chunks.len() == 0 {
        assert(chunks.flatten() =~= Seq::<u8>::empty());
    } else {
        let t = spec_scan(acc, chunks[0]);
        lemma_scan_concat(acc, chunks[0], chunks.drop_first().flatten());
        lemma_chunk_boundary_invariance(t.1, chunks.drop_first());
        lemma_items_concat(t.0, spec_scan(t.1, chunks.drop_first().flatten()).0);
    }
}

/// Chunk-boundary invariance in its two-sided form: any chunking of a
/// byte stream decodes exactly as the whole stream fed as one chunk.
pub proof fn lemma_decode_as_one_chunk(chunks: Seq<Seq<u8>>)
    ensures
        spec_decode_fold(Seq::empty(), chunks) == spec_decode_fold(
            Seq::empty(),
            seq![chunks.flatten()],
        ),
{
    lemma_chunk_boundary_invariance(Seq::empty(), chunks);
    lemma_chunk_boundary_invariance(Seq::empty(), seq![chunks.flatten()]);
    assert(seq![chunks.flatten()].flatten() == chunks.flatten()) by {
        let e: Seq<Seq<u8>> = Seq::empty();
        assert(seq![chunks.flatten()].drop_first() =~= e);
        assert(e.flatten() =~= Seq::<u8>::empty());
        assert(seq![chunks.flatten()].first() == chunks.flatten());
        assert(chunks.flatten() + Seq::<u8>::empty() =~= chunks.flatten());
    }
}

/// Decode one complete line, appending its items (none or one) to `items`.
#[verifier::rlimit(100)]
fn line_into_items(line: Vec<u8>, items: &mut Vec<StreamItem>)
    requires
        line@.len() <= MAX_SCAN_LEN,
    ensures
        view_items(final(items)@) == view_items(old(items)@) + spec_line_items(line@),
{
    let ghost l0 = line@;
    if line.len() < 6 {
        proof {
            assert(view_items(items@) + spec_line_items(l0) =~= view_items(items@));
        }
        return ;
    }
    if !(line[0] == 100 && line[1] == 97 && line[2] == 116 && line[3] == 97 && line[4] == 58
        && line[5] == 32) {
        proof {
            assert(l0.subrange(0, 6)[0] == l0[0]);
            assert(l0.subrange(0, 6)[1] == l0[1]);
            assert(l0.subrange(0, 6)[2] == l0[2]);
            assert(l0.subrange(0, 6)[3] == l0[3]);
            assert(l0.subrange(0, 6)[4] == l0[4]);
            assert(l0.subrange(0, 6)[5] == l0[5]);
            assert(l0.subrange(0, 6) != marker());
            assert(view_items(items@) + spec_line_items(l0) =~= view_items(items@));
        }
        return ;
    }
    proof {
        assert(l0.subrange(0, 6) =~= marker());
    }
    let mut line = line;
    let p = line.split_off(6);
    proof {
        assert(p@ =~= l0.skip(6));
    }
    if p.len() == 6 && p[0] == 91 && p[1] == 68 && p[2] == 79 && p[3] == 78 && p[4] == 69 && p[5]
        == 93 {
        proof {
            assert(p@ =~= done_token());
        }
        items.push(StreamItem::Done);
        proof {
            assert(view_items(items@) =~= view_items(old(items)@) + spec_line_items(l0));
        }
        return ;
    }
    proof {
        if p@ == done_token() {
            assert(p@.len() == 6);
            assert(p@[0] == 91 && p@[1] == 68 && p@[2] == 79 && p@[3] == 78 && p@[4] == 69
                && p@[5] == 93);
            assert(false);
        }
    }
    match parse_payload(&p) {
        Payload::Record { message, delta, finish_reason } => {
            match message {
                Some(m) => {
                    items.push(StreamItem::Fragment(m));
                    proof {
                        assert(view_items(items@) =~= view_items(old(items)@) + spec_line_items(
                            l0,
                        ));
                    }
                },
                None => {
                    match delta {
                        Some(d) => {
                            items.push(StreamItem::Fragment(d));
                            proof {
                                assert(view_items(items@) =~= view_items(old(items)@)
                                    + spec_line_items(l0));
                            }
                        },
                        None => {
                            proof {
                                assert(view_items(items@) + spec_line_items(l0) =~= view_items(
                                    items@,
                                ));
                            }
                        },
                    }
                },
            }
        },
        Payload::NoChoices => {
            proof {
                assert(view_items(items@) + spec_line_items(l0) =~= view_items(items@));
            }
        },
        Payload::Malformed => {
            proof {
                assert(view_items(items@) + spec_line_items(l0) =~= view_items(items@));
            }
        },
    }
}

/// The trailing, not yet terminated bytes of the response body,
/// accumulated across chunk reads. Cleared only of bytes that went into
/// complete lines; a complete line is never split and a partial line is
/// never parsed.
pub struct StreamCursor {
    buf: Vec<u8>,
}

impl View for StreamCursor {
    type V = Seq<u8>;

    closed spec fn view(&self) -> Seq<u8> {
        self.buf@
    }
}

impl StreamCursor {
    /// The buffered tail never holds a newline: every complete line has
    /// been consumed.
    pub open spec fn wf(&self) -> bool {
        !self@.contains(NL)
    }

    /// A cursor holding no bytes yet.
    pub fn new() -> (r: StreamCursor)
        ensures
            r@ == Seq::<u8>::empty(),
            r.wf(),
    {
        let r = StreamCursor { buf: Vec::new() };
        proof {
            assert(!r@.contains(NL));
        }
        r
    }

    /// How many bytes wait in the unterminated tail.
    pub fn buffered_len(&self) -> (r: usize)
        ensures
            r == self@.len(),
    {
        self.buf.len()
    }

    /// Feed one chunk: every complete line of the buffered tail followed
    /// by the chunk is decoded, in order, and the new unterminated tail is
    /// kept for the next chunk.
    #[verifier::rlimit(100)]
    pub fn feed(&mut self, chunk: Vec<u8>) -> (items: Vec<StreamItem>)
        requires
            old(self).wf(),
            old(self)@.len() + chunk@.len() <= MAX_SCAN_LEN,
        ensures
            final(self).wf(),
            final(self)@ == spec_scan(old(self)@, chunk@).1,
            view_items(items@) == spec_items_of(spec_scan(old(self)@, chunk@).0),
    {
        let ghost acc0 = self.buf@;
        let ghost ch = chunk@;
        let mut c = chunk;
        self.buf.append(&mut c);
        let ghost work = self.buf@;
        proof {
            lemma_scan_carry(Seq::empty(), acc0, ch);
            assert(Seq::<u8>::empty() + acc0 =~= acc0);
            assert(acc0 + ch =~= work);
        }
        let mut items: Vec<StreamItem> = Vec::new();
        let mut line: Vec<u8> = Vec::new();
        let ghost mut gdone: Seq<Seq<u8>> = Seq::empty();
        let mut i: usize = 0;
        let n = self.buf.len();
        proof {
            assert(work.skip(0) =~= work);
            assert(view_items(items@) =~= spec_items_of(gdone));
        }
        while i < n
            invariant
                self.buf@ == work,
                n == work.len(),
                work.len() <= MAX_SCAN_LEN,
                i <= n,
                line@.len() <= i,
                !line@.contains(NL),
                spec_scan(Seq::empty(), work).0 == gdone + spec_scan(line@, work.skip(i as int)).0,
                spec_scan(Seq::empty(), work).1 == spec_scan(line@, work.skip(i as int)).1,
                view_items(items@) == spec_items_of(gdone),
            decreases n - i,
        {
            let b = self.buf[i];
            proof {
                assert(work.skip(i as int)[0] == work[i as int]);
                assert(work.skip(i as int).drop_first() =~= work.skip(i as int + 1));
            }
            if b == NL {
                let consumed = line;
                line = Vec::new();
                let ghost t = spec_scan(Seq::empty(), work.skip(i as int + 1));
                proof {
                    assert(spec_scan(consumed@, work.skip(i as int)).0 =~= seq![consumed@] + t.0);
                    lemma_items_push(gdone, consumed@);
                    assert(gdone + (seq![consumed@] + t.0) =~= gdone.push(consumed@) + t.0);
                }
                line_into_items(consumed, &mut items);
                proof {
                    gdone = gdone.push(consumed@);
                    assert(!line@.contains(NL));
                }
            } else {
                proof {
                    assert(line@.push(b) =~= line@ + seq![b]);
                    assert(!line@.push(b).contains(NL)) by {
                        if line@.push(b).contains(NL) {
                            let k = choose|k: int|
                                0 <= k < line@.push(b).len() && line@.push(b)[k] == NL;
                            if k < line@.len() {
                                assert(line@[k] == NL);
                                assert(line@.contains(NL));
                            } else {
                                assert(line@.push(b)[k] == b);
                            }
                        }
                    }
                }
                line.push(b);
            }
            i = i + 1;
        }
        proof {
            assert(work.skip(n as int) =~= Seq::<u8>::empty());
            assert(spec_scan(Seq::empty(), work).0 =~= gdone) by {
                assert(gdone + Seq::<Seq<u8>>::empty() =~= gdone);
                assert(spec_scan(line@, Seq::empty()).0 =~= Seq::<Seq<u8>>::empty());
            }
        }
        self.buf = line;
        items
    }
}

} // verus!
