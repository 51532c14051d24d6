//! Where the bytes of a document come from.
use vstd::prelude::*;

verus! {

/// A sequential producer of the bytes of one document, which runs out after
/// finitely many.
pub trait ByteSource {
    /// The bytes the source has still to give, in order.
    spec fn rest(&self) -> Seq<u8>;

    /// Whether a read from this source can fail.
    spec fn can_fail(&self) -> bool;

    /// Reads up to `max` bytes, the next ones of `rest()`. An empty vector
    /// means that the source is exhausted; `None` means that the read
    /// failed and took nothing.
    fn read_bytes(&mut self, max: usize) -> (r: Option<Vec<u8>>)
        requires
            max > 0,
        ensures
            final(self).can_fail() == old(self).can_fail(),
            !old(self).can_fail() ==> r is Some,
            r is None ==> final(self).rest() == old(self).rest(),
            r is Some ==> r->0@.len() <= max,
            r is Some ==> old(self).rest() == r->0@ + final(self).rest(),
            r is Some ==> (r->0@.len() == 0 <==> old(self).rest().len() == 0),
    ;
}

/// A source over bytes held in memory; its reads never fail.
pub struct SliceSource {
    data: Vec<u8>,
    pos: usize,
}

impl SliceSource {
    #[verifier::type_invariant]
    spec fn inv(&self) -> bool {
        self.pos <= self.data@.len()
    }

    /// A source that gives `data`, from the first byte to the last.
    pub fn new(data: Vec<u8>) -> (r: SliceSource)
        ensures
            r.rest() == data@,
            !r.can_fail(),
    {
        let r = SliceSource { data, pos: 0 };
        assert(r.data@.subrange(0, r.data@.len() as int) =~= r.data@);
        r
    }
}

impl ByteSource for SliceSource {
    closed spec fn rest(&self) -> Seq<u8> {
        self.data@.subrange(self.pos as int, self.data@.len() as int)
    }

    open spec fn can_fail(&self) -> bool {
        false
    }

    fn read_bytes(&mut self, max: usize) -> (r: Option<Vec<u8>>) {
        proof {
            use_type_invariant(&*self);
        }
        let mut out: Vec<u8> = Vec::new();
        let mut pos = self.pos;
        let start = self.pos;
        while out.len() < max && pos < self.data.len()
            invariant
                start <= pos <= self.data@.len(),
                start == old(self).pos,
                self.data@ == old(self).data@,
                self.pos == old(self).pos,
                out@.len() <= max,
                out@ == self.data@.subrange(start as int, pos as int),
            decreases self.data@.len() - pos,
        {
            out.push(self.data[pos]);
            pos = pos + 1;
        }
        self.pos = pos;
        assert(old(self).rest() =~= out@ + self.rest());
        Some(out)
    }
}

} // verus!
