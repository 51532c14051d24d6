//! A pull-based, incremental tokenizer for HTML-like markup.
//!
//! Bytes come from a [`ByteSource`] a few at a time; they are decoded as
//! UTF-8 ([`decoder`]), fed one character at a time to the state machine of
//! [`lexer`], and the events it produces are handed out one per call of
//! [`HtmlParser::next`].
use vstd::prelude::*;

pub mod decoder;
pub mod element;
pub mod lexer;
pub mod properties;
pub mod source;
pub mod text;

pub use crate::lexer::HtmlEvent;
pub use crate::source::{ByteSource, SliceSource};

use crate::decoder::{decode, decode_at, lemma_decode_concat, Decoded, REPLACEMENT};
use crate::lexer::{events_of, lemma_run_push, run, EventModel, Lexer};
use crate::properties::lemma_events_only_grow;
use crate::text::copy_range;

verus! {

/// How many bytes one read asks the source for.
pub const CHUNK_SIZE: usize = 4;

/// All the state of one document being read, apart from its source.
pub struct HtmlParserContext {
    lexer: Lexer,
    buffer_vec: Vec<u8>,
    finished: bool,
    consumed: Ghost<Seq<u8>>,
    delivered: Ghost<nat>,
}

impl HtmlParserContext {
    /// Every byte taken from the source so far.
    pub closed spec fn consumed(&self) -> Seq<u8> {
        self.consumed@
    }

    /// How many events have been handed out.
    pub closed spec fn delivered(&self) -> nat {
        self.delivered@
    }

    /// Whether the end of the document has been reported.
    pub closed spec fn finished(&self) -> bool {
        self.finished
    }

    /// The characters that the bytes so far decode to.
    pub open spec fn chars(&self) -> Seq<char> {
        decode(self.consumed()).0
    }

    /// Every event that the bytes so far produce, handed out or not.
    pub open spec fn events(&self) -> Seq<EventModel> {
        events_of(self.chars())
    }

    /// The bytes not yet decoded are the incomplete tail of those taken, the
    /// tokenizer is where the decoded characters lead it, and its queue holds
    /// exactly the events not handed out yet.
    pub closed spec fn wf(&self) -> bool {
        let d = decode(self.consumed@);
        &&& d.1 == self.buffer_vec@
        &&& self.lexer.lex() == run(d.0).0
        &&& self.delivered@ <= run(d.0).1.len()
        &&& self.lexer.queue() == run(d.0).1.skip(self.delivered@ as int)
    }

    /// A context before the first byte.
    pub fn new() -> (r: HtmlParserContext)
        ensures
            r.wf(),
            r.consumed() == Seq::<u8>::empty(),
            r.delivered() == 0,
            !r.finished(),
    {
        let r = HtmlParserContext {
            lexer: Lexer::new(),
            buffer_vec: Vec::new(),
            finished: false,
            consumed: Ghost(Seq::empty()),
            delivered: Ghost(0),
        };
        assert(r.buffer_vec@ =~= Seq::<u8>::empty());
        assert(decode(Seq::<u8>::empty()).1 =~= Seq::<u8>::empty());
        assert(run(decode(Seq::<u8>::empty()).0).1.skip(0) =~= Seq::<EventModel>::empty());
        r
    }

    /// Decodes `bytes` after those taken before and feeds every complete
    /// character to the tokenizer.
    pub fn feed_bytes(&mut self, bytes: &Vec<u8>)
        requires
            old(self).wf(),
        ensures
            final(self).wf(),
            final(self).consumed() == old(self).consumed() + bytes@,
            final(self).delivered() == old(self).delivered(),
            final(self).finished() == old(self).finished(),
    {
        let ghost before = decode(self.consumed@).0;
        let mut buf: Vec<u8> = Vec::new();
        std::mem::swap(&mut buf, &mut self.buffer_vec);
        let mut j: usize = 0;
        while j < bytes.len()
            invariant
                j <= bytes@.len(),
                buf@ == decode(old(self).consumed@).1 + bytes@.subrange(0, j as int),
            decreases bytes@.len() - j,
        {
            buf.push(bytes[j]);
            j = j + 1;
            assert(buf@ =~= decode(old(self).consumed@).1 + bytes@.subrange(0, j as int));
        }
        assert(bytes@.subrange(0, bytes@.len() as int) =~= bytes@);
        proof {
            lemma_decode_concat(self.consumed@, bytes@);
        }
        let ghost fed_all = decode(buf@).0;
        let mut fed: Ghost<Seq<char>> = Ghost(Seq::empty());
        let mut pos: usize = 0;
        assert(buf@.subrange(0, buf@.len() as int) =~= buf@);
        assert(fed@ + decode(buf@).0 =~= decode(buf@).0);
        while pos < buf.len()
            invariant
                pos <= buf@.len(),
                fed@ + decode(buf@.subrange(pos as int, buf@.len() as int)).0 == fed_all,
                decode(buf@.subrange(pos as int, buf@.len() as int)).1 == decode(buf@).1,
                self.lexer.lex() == run(before + fed@).0,
                self.delivered@ <= run(before + fed@).1.len(),
                self.lexer.queue() == run(before + fed@).1.skip(self.delivered@ as int),
                self.delivered@ == old(self).delivered@,
                self.finished == old(self).finished,
                self.consumed@ == old(self).consumed@,
            ensures
                pos <= buf@.len(),
                pos < buf@.len() ==> decode_at_is_incomplete(buf@, pos as int),
            decreases buf@.len() - pos,
        {
            let ghost rest = buf@.subrange(pos as int, buf@.len() as int);
            let step = decode_at(&buf, pos);
            let ghost prev = before + fed@;
            match step {
                Decoded::Char(c, n) => {
                    self.lexer.advance(c);
                    proof {
                        lemma_run_push(prev, c);
                        assert(rest.subrange(n as int, rest.len() as int) =~= buf@.subrange(
                            pos + n,
                            buf@.len() as int,
                        ));
                        fed@ = fed@.push(c);
                        assert(prev.push(c) =~= before + fed@);
                        assert(run(prev).1.skip(self.delivered@ as int) + step_events(prev, c)
                            =~= run(prev.push(c)).1.skip(self.delivered@ as int));
                    }
                    pos = pos + n;
                },
                Decoded::Invalid => {
                    self.lexer.advance(REPLACEMENT);
                    proof {
                        lemma_run_push(prev, REPLACEMENT);
                        assert(rest.drop_first() =~= buf@.subrange(pos + 1, buf@.len() as int));
                        fed@ = fed@.push(REPLACEMENT);
                        assert(prev.push(REPLACEMENT) =~= before + fed@);
                        assert(run(prev).1.skip(self.delivered@ as int) + step_events(
                            prev,
                            REPLACEMENT,
                        ) =~= run(prev.push(REPLACEMENT)).1.skip(self.delivered@ as int));
                    }
                    pos = pos + 1;
                },
                Decoded::Incomplete => {
                    assert(decode_at_is_incomplete(buf@, pos as int));
                    break;
                },
            }
        }
        self.buffer_vec = copy_range(&buf, pos, buf.len());
        proof {
            let rest = buf@.subrange(pos as int, buf@.len() as int);
            if pos < buf@.len() {
                assert(decode(rest).0 =~= Seq::<char>::empty());
            } else {
                assert(rest =~= Seq::<u8>::empty());
            }
            assert(fed@ + decode(rest).0 =~= fed@);
            self.consumed@ = old(self).consumed@ + bytes@;
            assert(decode(self.consumed@).0 =~= before + fed@);
            assert(decode(self.consumed@).1 == decode(buf@).1);
            assert(decode(rest).1 == rest);
            assert(self.buffer_vec@ == rest);
        }
    }

    /// Hands out the oldest event not handed out yet, if there is one.
    pub fn take_event(&mut self) -> (r: Option<HtmlEvent>)
        requires
            old(self).wf(),
        ensures
            final(self).wf(),
            final(self).consumed() == old(self).consumed(),
            final(self).finished() == old(self).finished(),
            old(self).delivered() < old(self).events().len() ==> (r matches Some(e) && e@
                == old(self).events()[old(self).delivered() as int]),
            old(self).delivered() < old(self).events().len() ==> final(self).delivered()
                == old(self).delivered() + 1,
            old(self).delivered() >= old(self).events().len() ==> r is None && final(self).delivered()
                == old(self).delivered(),
    {
        let ghost all = run(decode(self.consumed@).0).1;
        let r = self.lexer.pop_event();
        proof {
            if self.delivered@ < all.len() {
                assert(all.skip(self.delivered@ + 1int) =~= all.skip(self.delivered@ as int).drop_first());
                self.delivered@ = self.delivered@ + 1nat;
            }
        }
        r
    }

    /// Takes the outcome of one read from the source: `None` when the read
    /// failed, else the bytes read, none when the source is exhausted.
    /// Returns what the pending request for an event is answered with, or
    /// `None` when more bytes are needed.
    pub fn handle_chunk(&mut self, chunk: Option<Vec<u8>>) -> (r: Option<Result<HtmlEvent, &'static str>>)
        requires
            old(self).wf(),
            !old(self).finished(),
            old(self).delivered() == old(self).events().len(),
        ensures
            final(self).wf(),
            chunk is None ==> (r matches Some(Err(_))),
            chunk is None ==> final(self).consumed() == old(self).consumed() && final(self).delivered()
                == old(self).delivered() && !final(self).finished(),
            chunk is Some && chunk->0@.len() == 0 ==> (r matches Some(
                Ok(HtmlEvent::HtmlDocumentEnd),
            )),
            chunk is Some && chunk->0@.len() == 0 ==> final(self).consumed() == old(self).consumed()
                && final(self).delivered() == old(self).delivered() && final(self).finished(),
            chunk is Some && chunk->0@.len() > 0 ==> final(self).consumed() == old(self).consumed()
                + chunk->0@ && !final(self).finished(),
            chunk is Some && chunk->0@.len() > 0 && final(self).events().len() > old(self).delivered()
                ==> (r matches Some(Ok(e)) && e@ == final(self).events()[old(self).delivered() as int])
                && final(self).delivered() == old(self).delivered() + 1,
            chunk is Some && chunk->0@.len() > 0 && final(self).events().len() <= old(self).delivered()
                ==> r is None && final(self).delivered() == old(self).delivered(),
    {
        match chunk {
            None => Some(Err("the source could not be read")),
            Some(bytes) => {
                if bytes.len() == 0 {
                    self.finished = true;
                    return Some(Ok(HtmlEvent::HtmlDocumentEnd));
                }
                self.feed_bytes(&bytes);
                match self.take_event() {
                    Some(e) => Some(Ok(e)),
                    None => None,
                }
            },
        }
    }
}

/// The bytes of `b` from `pos` on start a character that has not come whole.
pub open spec fn decode_at_is_incomplete(b: Seq<u8>, pos: int) -> bool {
    crate::decoder::classify(b.subrange(pos, b.len() as int)) == Decoded::Incomplete
}

/// A tokenizer that pulls its bytes from `source`.
pub struct HtmlParser<R> {
    source: R,
    context: HtmlParserContext,
}

impl<R: ByteSource> HtmlParser<R> {
    /// Every byte read from the source so far.
    pub closed spec fn consumed(&self) -> Seq<u8> {
        self.context.consumed()
    }

    /// How many events have been handed out, the end of the document not
    /// counted.
    pub closed spec fn delivered(&self) -> nat {
        self.context.delivered()
    }

    /// Whether the end of the document has been reported.
    pub closed spec fn finished(&self) -> bool {
        self.context.finished()
    }

    /// Every event that the bytes read so far produce.
    pub open spec fn events(&self) -> Seq<EventModel> {
        events_of(decode(self.consumed()).0)
    }

    /// The bytes that the source has still to give.
    pub closed spec fn source_rest(&self) -> Seq<u8> {
        self.source.rest()
    }

    /// Whether a read from the source can fail.
    pub closed spec fn source_can_fail(&self) -> bool {
        self.source.can_fail()
    }

    /// The context is well formed, and the end is reported only once the
    /// source has nothing left and every event has been handed out.
    pub closed spec fn wf(&self) -> bool {
        &&& self.context.wf()
        &&& self.context.finished() ==> self.source.rest().len() == 0
        &&& self.context.finished() ==> self.context.delivered() == self.context.events().len()
    }

    /// A parser at the start of the document that `source` gives; nothing
    /// is read yet.
    pub fn new(source: R) -> (r: HtmlParser<R>)
        ensures
            r.wf(),
            r.consumed() == Seq::<u8>::empty(),
            r.source_rest() == source.rest(),
            r.source_can_fail() == source.can_fail(),
            r.delivered() == 0,
            !r.finished(),
    {
        HtmlParser { source, context: HtmlParserContext::new() }
    }

    /// The next event of the document, in document order. Bytes are read
    /// only when no event is waiting. Once the end of the document has been
    /// reported, every further call reports it again and reads nothing.
    pub fn next(&mut self) -> (r: Result<HtmlEvent, &'static str>)
        requires
            old(self).wf(),
        ensures
            final(self).wf(),
            final(self).source_can_fail() == old(self).source_can_fail(),
            final(self).consumed() + final(self).source_rest() == old(self).consumed()
                + old(self).source_rest(),
            old(self).consumed().is_prefix_of(final(self).consumed()),
            old(self).events().is_prefix_of(final(self).events()),
            !old(self).source_can_fail() ==> r is Ok,
            r is Err ==> old(self).source_can_fail(),
            final(self).finished() ==> final(self).source_rest().len() == 0,
            old(self).finished() ==> (r matches Ok(HtmlEvent::HtmlDocumentEnd)),
            old(self).finished() ==> final(self).finished() && final(self).consumed()
                == old(self).consumed() && final(self).source_rest() == old(self).source_rest()
                && final(self).delivered() == old(self).delivered(),
            !old(self).finished() && old(self).delivered() < old(self).events().len() ==> (r matches Ok(
                e,
            ) && e@ == old(self).events()[old(self).delivered() as int]),
            !old(self).finished() && old(self).delivered() < old(self).events().len()
                ==> final(self).consumed() == old(self).consumed() && final(self).source_rest()
                == old(self).source_rest() && final(self).delivered() == old(self).delivered() + 1
                && !final(self).finished(),
            !old(self).finished() && r is Ok && !final(self).finished() ==> (r matches Ok(e) && e@
                == final(self).events()[old(self).delivered() as int]) && final(self).delivered()
                == old(self).delivered() + 1,
            !old(self).finished() && r is Ok && final(self).finished() ==> (r matches Ok(
                HtmlEvent::HtmlDocumentEnd,
            )) && final(self).delivered() == old(self).delivered() && final(self).delivered()
                == final(self).events().len(),
            r is Err ==> !final(self).finished() && final(self).delivered() == old(self).delivered(),
    {
        proof {
            lemma_events_only_grow(self.consumed(), self.consumed());
        }
        if self.context.finished {
            return Ok(HtmlEvent::HtmlDocumentEnd);
        }
        match self.context.take_event() {
            Some(e) => {
                return Ok(e);
            },
            None => {},
        }
        loop
            invariant
                self.context.wf(),
                !old(self).finished(),
                !self.context.finished(),
                self.context.delivered() == old(self).delivered(),
                self.context.delivered() == self.context.events().len(),
                old(self).consumed().is_prefix_of(self.context.consumed()),
                old(self).delivered() >= old(self).events().len(),
                self.source.can_fail() == old(self).source_can_fail(),
                self.context.consumed() + self.source.rest() == old(self).consumed()
                    + old(self).source_rest(),
            decreases self.source.rest().len(),
        {
            let ghost consumed0 = self.context.consumed();
            let ghost rest0 = self.source.rest();
            let chunk = self.source.read_bytes(CHUNK_SIZE);
            let result = self.context.handle_chunk(chunk);
            proof {
                if chunk is Some {
                    assert(consumed0 + rest0 =~= self.context.consumed() + self.source.rest());
                }
                assert(old(self).consumed().is_prefix_of(self.context.consumed()));
                lemma_events_only_grow(old(self).consumed(), self.context.consumed());
            }
            match result {
                Some(r) => {
                    return r;
                },
                None => {},
            }
        }
    }
}

/// A parser that has reported the end of a document has read all of it, and
/// has handed out every event that the document's bytes produce.
pub proof fn lemma_finished_parser_read_all<R: ByteSource>(p: &HtmlParser<R>, document: Seq<u8>)
    requires
        p.wf(),
        p.finished(),
        p.consumed() + p.source_rest() == document,
    ensures
        p.consumed() == document,
        p.delivered() == events_of(decode(document).0).len(),
{
    assert(p.source_rest() =~= Seq::<u8>::empty());
    assert(p.consumed() + p.source_rest() =~= p.consumed());
}

/// The events that `c` produces after the characters `cs`.
pub open spec fn step_events(cs: Seq<char>, c: char) -> Seq<EventModel> {
    crate::lexer::step(run(cs).0, c).1
}

} // verus!
