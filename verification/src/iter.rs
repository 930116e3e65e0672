//! The vectorized sequence: a bidirectional, exact-size, fused, single-pass
//! cursor over the full blocks of a region plus the optional trailing
//! partial.

use vstd::prelude::*;
use vstd::arithmetic::div_mod::lemma_fundamental_div_mod;
use vstd::pervasive::unreached;

use crate::block::Block;
use crate::error::Error;
use crate::partial::Partial;
use crate::repr::Repr;
use crate::vectorizer::MutProxy;
use crate::vectorizer::ReadVectorizer;
use crate::vectorizer::WriteVectorizer;
use crate::vectorizer::block_at;
use crate::vectorizer::padded_tail;

verus! {

/// The mathematical state of a vectorized sequence over one region: the
/// region itself, the lane count, the cursor `[left, right)` over block
/// indices, and the trailing partial slot (each block a sequence of
/// elements).
pub struct IterModel<B> {
    pub region: Seq<B>,
    pub lanes: nat,
    pub left: nat,
    pub right: nat,
    pub partial: Option<Seq<B>>,
}

impl<B> IterModel<B> {
    /// Lane count positive, cursor ordered and inside the region, partial of
    /// lane width.
    pub open spec fn wf(self) -> bool {
        &&& self.lanes > 0
        &&& self.left <= self.right
        &&& self.right * self.lanes <= self.region.len()
        &&& (self.partial matches Some(p) ==> p.len() == self.lanes)
    }

    /// How many values the partial slot holds: zero or one.
    pub open spec fn partial_count(self) -> nat {
        if self.partial is Some {
            1nat
        } else {
            0nat
        }
    }

    /// The exact number of yields left: `(right - left) + partial_count`.
    pub open spec fn remaining(self) -> nat {
        (self.right - self.left) as nat + self.partial_count()
    }

    /// The main blocks not yet consumed, in forward order.
    pub open spec fn main_yields(self) -> Seq<Seq<B>> {
        Seq::new(
            (self.right - self.left) as nat,
            |i: int| block_at(self.region, self.lanes, (self.left + i) as nat),
        )
    }

    /// The partial as a sequence of zero or one yields.
    pub open spec fn partial_yields(self) -> Seq<Seq<B>> {
        match self.partial {
            Some(p) => seq![p],
            None => Seq::empty(),
        }
    }

    /// Everything still to be yielded, in forward order: the main blocks,
    /// then the partial, which is always the last forward element.
    pub open spec fn forward_yields(self) -> Seq<Seq<B>> {
        self.main_yields() + self.partial_yields()
    }

    /// Everything still to be yielded, in backward order: the partial first
    /// (still logically last in sequence order), then the main blocks right
    /// to left.
    pub open spec fn backward_yields(self) -> Seq<Seq<B>> {
        self.partial_yields() + self.main_yields().reverse()
    }

    /// What one forward step yields.
    pub open spec fn front(self) -> Option<Seq<B>> {
        if self.left < self.right {
            Some(block_at(self.region, self.lanes, self.left))
        } else {
            self.partial
        }
    }

    /// The state after one forward step.
    pub open spec fn step_front(self) -> IterModel<B> {
        if self.left < self.right {
            IterModel {
                region: self.region,
                lanes: self.lanes,
                left: self.left + 1,
                right: self.right,
                partial: self.partial,
            }
        } else {
            IterModel {
                region: self.region,
                lanes: self.lanes,
                left: self.left,
                right: self.right,
                partial: None,
            }
        }
    }

    /// What one backward step yields.
    pub open spec fn back(self) -> Option<Seq<B>> {
        if self.partial is Some {
            self.partial
        } else if self.left < self.right {
            Some(block_at(self.region, self.lanes, (self.right - 1) as nat))
        } else {
            None
        }
    }

    /// The state after one backward step.
    pub open spec fn step_back(self) -> IterModel<B> {
        if self.partial is Some {
            IterModel {
                region: self.region,
                lanes: self.lanes,
                left: self.left,
                right: self.right,
                partial: None,
            }
        } else if self.left < self.right {
            IterModel {
                region: self.region,
                lanes: self.lanes,
                left: self.left,
                right: (self.right - 1) as nat,
                partial: None,
            }
        } else {
            self
        }
    }

    /// What skip-by-`n` yields: position `n` of the remaining sequence. At
    /// `n` equal to the remaining main blocks that position is the partial;
    /// past it there is nothing.
    pub open spec fn nth_result(self, n: nat) -> Option<Seq<B>> {
        if self.left + n < self.right {
            Some(block_at(self.region, self.lanes, self.left + n))
        } else if self.left + n == self.right {
            self.partial
        } else {
            None
        }
    }

    /// The state after skip-by-`n`: positions up to `n` consumed; at or past
    /// the main-block boundary the partial is consumed as well, without
    /// having been yielded when `n` exceeds the boundary.
    pub open spec fn after_nth(self, n: nat) -> IterModel<B> {
        if self.left + n < self.right {
            IterModel {
                region: self.region,
                lanes: self.lanes,
                left: self.left + n + 1,
                right: self.right,
                partial: self.partial,
            }
        } else {
            IterModel {
                region: self.region,
                lanes: self.lanes,
                left: self.right,
                right: self.right,
                partial: None,
            }
        }
    }

    /// The state after `n` forward steps.
    pub open spec fn advance(self, n: nat) -> IterModel<B>
        decreases n,
    {
        if n == 0 {
            self
        } else {
            self.advance((n - 1) as nat).step_front()
        }
    }
}

/// The vectorized sequence: cursor state `[left, right)` over block indices
/// plus the partial slot. Finite, single-pass and fused; its length is known
/// exactly at every point.
#[derive(Debug)]
pub struct VectorizedIter<V, T> {
    /// The stateless per-block accessor.
    pub vectorizer: V,
    /// Slot for the trailing partial value.
    pub partial: Partial<T>,
    /// First block index not yet consumed from the front.
    pub left: usize,
    /// One past the last block index not yet consumed from the back.
    pub right: usize,
}

impl<V, T> VectorizedIter<V, T> {
    /// The cursor is ordered.
    pub open spec fn cursor_wf(&self) -> bool {
        self.left <= self.right
    }

    /// The exact number of yields left.
    pub open spec fn remaining_spec(&self) -> nat {
        (self.right - self.left) as nat + self.partial.size_spec()
    }

    /// Exact size: lower and upper bound coincide, and equal the number of
    /// subsequent yields.
    pub fn size_hint(&self) -> (r: (usize, Option<usize>))
        requires
            self.cursor_wf(),
            self.remaining_spec() <= usize::MAX,
        ensures
            r.0 == self.remaining_spec(),
            r.1 == Some(r.0),
    {
        let len = self.right - self.left + self.partial.size();
        (len, Some(len))
    }

    /// How many yields are left, by pure arithmetic on the cursor — the
    /// sequence is side-effect-free to read, so nothing is replayed.
    pub fn count(self) -> (r: usize)
        requires
            self.cursor_wf(),
            self.remaining_spec() <= usize::MAX,
        ensures
            r == self.remaining_spec(),
    {
        let (len, _) = self.size_hint();
        len
    }
}

impl<B: Repr> VectorizedIter<ReadVectorizer, Block<B>> {
    /// The mathematical state of this iterator over `region`.
    pub open spec fn model(&self, region: Seq<B>) -> IterModel<B> {
        IterModel {
            region,
            lanes: self.vectorizer.lanes as nat,
            left: self.left as nat,
            right: self.right as nat,
            partial: match self.partial@ {
                Some(b) => Some(b@),
                None => None,
            },
        }
    }

    /// What every access needs of iterator and region together.
    pub open spec fn compat(&self, region: Seq<B>) -> bool {
        &&& self.model(region).wf()
        &&& self.right <= self.vectorizer.blocks
        &&& self.vectorizer.covers::<B>(region)
    }

    /// Forward step: the next main block; after the last main block, the
    /// partial; after that, nothing, and nothing ever again (fused).
    pub fn next(&mut self, region: &Vec<B>) -> (r: Option<Block<B>>)
        requires
            old(self).compat(region@),
        ensures
            final(self).compat(region@),
            final(self).vectorizer == old(self).vectorizer,
            final(self).model(region@) == old(self).model(region@).step_front(),
            r is Some <==> old(self).model(region@).front() is Some,
            r matches Some(b) ==> old(self).model(region@).front() == Some(b@),
    {
        if self.left < self.right {
            let idx = self.left;
            self.left = self.left + 1;
            Some(self.vectorizer.get(region, idx))
        } else {
            self.partial.take_partial()
        }
    }

    /// Backward step: the partial first — it stays logically last in
    /// sequence order — then the main blocks right to left.
    pub fn next_back(&mut self, region: &Vec<B>) -> (r: Option<Block<B>>)
        requires
            old(self).compat(region@),
        ensures
            final(self).compat(region@),
            final(self).vectorizer == old(self).vectorizer,
            final(self).model(region@) == old(self).model(region@).step_back(),
            r is Some <==> old(self).model(region@).back() is Some,
            r matches Some(b) ==> old(self).model(region@).back() == Some(b@),
    {
        match self.partial.take_partial() {
            Some(p) => Some(p),
            None => {
                if self.left < self.right {
                    self.right = self.right - 1;
                    proof {
                        assert(self.right as int * self.vectorizer.lanes as int
                            <= self.vectorizer.blocks as int * self.vectorizer.lanes as int)
                            by (nonlinear_arith)
                            requires
                                self.right as int <= self.vectorizer.blocks as int,
                                self.vectorizer.lanes as int >= 0,
                        ;
                    }
                    Some(self.vectorizer.get(region, self.right))
                } else {
                    None
                }
            },
        }
    }

    /// The last element, by one backward step; everything before it is
    /// discarded by pure arithmetic, nothing is replayed.
    pub fn last(self, region: &Vec<B>) -> (r: Option<Block<B>>)
        requires
            self.compat(region@),
        ensures
            r is Some <==> self.model(region@).back() is Some,
            r matches Some(b) ==> self.model(region@).back() == Some(b@),
    {
        let mut me = self;
        me.next_back(region)
    }


    /// Consumes the whole sequence forward and hands every yielded block
    /// back in order: exactly the forward yield sequence of the model.
    pub fn collect_blocks(self, region: &Vec<B>) -> (r: Vec<Block<B>>)
        requires
            self.compat(region@),
            self.model(region@).remaining() <= usize::MAX,
        ensures
            r@.len() == self.model(region@).remaining(),
            forall|k: int|
                0 <= k < r@.len() ==> r@[k]@ == self.model(region@).forward_yields()[k],
    {
        let ghost m0 = self.model(region@);
        let mut it = self;
        let mut out: Vec<Block<B>> = Vec::new();
        proof {
            crate::laws::lemma_step_front_peels_first(m0);
        }
        loop
            invariant_except_break
                it.compat(region@),
                m0.wf(),
                out@.len() + it.model(region@).remaining() == m0.remaining(),
                m0.remaining() <= usize::MAX,
                it.model(region@).forward_yields() == m0.forward_yields().skip(out@.len() as int),
                forall|k: int| 0 <= k < out@.len() ==> out@[k]@ == m0.forward_yields()[k],
            ensures
                out@.len() == m0.remaining(),
                forall|k: int| 0 <= k < out@.len() ==> out@[k]@ == m0.forward_yields()[k],
            decreases it.model(region@).remaining(),
        {
            let ghost m = it.model(region@);
            proof {
                crate::laws::lemma_step_front_peels_first(m);
                crate::laws::lemma_step_front_peels_first(m0);
            }
            match it.next(region) {
                Some(b) => {
                    proof {
                        assert(m.forward_yields()[0] == b@);
                        assert(m0.forward_yields().skip(out@.len() as int)[0]
                            == m0.forward_yields()[out@.len() as int]);
                        assert(it.model(region@).forward_yields() == m.forward_yields().skip(1));
                        assert(m.forward_yields().skip(1) =~= m0.forward_yields().skip(
                            out@.len() as int + 1,
                        ));
                    }
                    out.push(b);
                },
                None => {
                    break ;
                },
            }
        }
        out
    }

    /// Skip-by-`n`: discards `n` positions and yields the one after, by pure
    /// cursor arithmetic. When the skip count exceeds the remaining main
    /// blocks, the partial is consumed without being yielded.
    pub fn nth(&mut self, n: usize, region: &Vec<B>) -> (r: Option<Block<B>>)
        requires
            old(self).compat(region@),
        ensures
            final(self).compat(region@),
            final(self).vectorizer == old(self).vectorizer,
            final(self).model(region@) == old(self).model(region@).after_nth(n as nat),
            r is Some <==> old(self).model(region@).nth_result(n as nat) is Some,
            r matches Some(b) ==> old(self).model(region@).nth_result(n as nat) == Some(b@),
    {
        let main_len = self.right - self.left;
        if n < main_len {
            let idx = self.left + n;
            self.left = idx + 1;
            Some(self.vectorizer.get(region, idx))
        } else if n == main_len {
            self.left = self.right;
            self.partial.take_partial()
        } else {
            self.left = self.right;
            let _ = self.partial.take_partial();
            None
        }
    }
}

/// Builds the vectorized sequence over a region whose length is an exact
/// multiple of `lanes`; on any other length this is a misuse and fails, since
/// no padding block was supplied to absorb the remainder.
pub fn vectorize<B: Repr>(region: &Vec<B>, lanes: usize) -> (r: Result<
    VectorizedIter<ReadVectorizer, Block<B>>,
    Error,
>)
    requires
        lanes > 0,
    ensures
        match r {
            Ok(it) => {
                &&& region@.len() % lanes as nat == 0
                &&& it.compat(region@)
                &&& it.vectorizer.lanes == lanes
                &&& it.left == 0
                &&& it.right == region@.len() / lanes as nat
                &&& it.partial@ is None
            },
            Err(e) => {
                &&& region@.len() % lanes as nat != 0
                &&& e == (Error::UnalignedWithoutPadding { lanes, len: region@.len() as usize })
            },
        },
{
    match ReadVectorizer::create(region, lanes, None) {
        Ok((vz, n, _partial)) => Ok(
            VectorizedIter { vectorizer: vz, partial: Partial::empty(), left: 0, right: n },
        ),
        Err(e) => Err(e),
    }
}

/// Builds the padded vectorized sequence: the lane count is the padding
/// block's width, and the trailing partial appears exactly when the length
/// does not divide evenly.
pub fn vectorize_pad<B: Repr>(region: &Vec<B>, pad: Block<B>) -> (r: VectorizedIter<
    ReadVectorizer,
    Block<B>,
>)
    requires
        pad@.len() > 0,
    ensures
        r.compat(region@),
        r.vectorizer.lanes == pad@.len(),
        r.left == 0,
        r.right == region@.len() / pad@.len(),
        region@.len() % pad@.len() == 0 ==> r.partial@ is None,
        region@.len() % pad@.len() != 0 ==> (r.partial@ matches Some(q) && q@ == padded_tail(
            region@,
            pad@.len(),
            pad@,
        )),
{
    let lanes = pad.lanes();
    match ReadVectorizer::create(region, lanes, Some(pad)) {
        Ok((vz, n, partial)) => match partial {
            Some(p) => VectorizedIter { vectorizer: vz, partial: Partial::of(p), left: 0, right: n },
            None => VectorizedIter { vectorizer: vz, partial: Partial::empty(), left: 0, right: n },
        },
        Err(_) => unreached(),
    }
}


impl<B: Repr> VectorizedIter<WriteVectorizer, MutProxy<B>> {
    /// The mathematical state of this iterator over `region`; the partial
    /// slot is represented by its local block value.
    pub open spec fn model(&self, region: Seq<B>) -> IterModel<B> {
        IterModel {
            region,
            lanes: self.vectorizer.lanes as nat,
            left: self.left as nat,
            right: self.right as nat,
            partial: match self.partial@ {
                Some(q) => Some(q.data@),
                None => None,
            },
        }
    }

    /// What every access needs of iterator and region together; a stored
    /// partial proxy must be flushable into the region.
    pub open spec fn compat(&self, region: Seq<B>) -> bool {
        &&& self.model(region).wf()
        &&& self.right <= self.vectorizer.blocks
        &&& self.vectorizer.covers::<B>(region)
        &&& (self.partial@ matches Some(q) ==> q.wf() && q.fits(region))
    }

    /// Forward step of the mutable path: the proxy for the next main block,
    /// then the partial proxy, then nothing. Every yielded proxy can be
    /// flushed into the region it was read from.
    pub fn next(&mut self, region: &Vec<B>) -> (r: Option<MutProxy<B>>)
        requires
            old(self).compat(region@),
        ensures
            final(self).compat(region@),
            final(self).vectorizer == old(self).vectorizer,
            final(self).model(region@) == old(self).model(region@).step_front(),
            old(self).left < old(self).right ==> final(self).partial@ == old(self).partial@,
            r is Some <==> old(self).model(region@).front() is Some,
            r matches Some(q) ==> {
                &&& old(self).model(region@).front() == Some(q.data@)
                &&& q.wf()
                &&& q.fits(region@)
            },
            old(self).left < old(self).right ==> (r matches Some(q) && q.start == old(self).left
                * old(self).vectorizer.lanes && q.restore_len == old(self).vectorizer.lanes),
            old(self).left == old(self).right ==> r == old(self).partial@,
    {
        if self.left < self.right {
            let idx = self.left;
            self.left = self.left + 1;
            Some(self.vectorizer.get(region, idx))
        } else {
            self.partial.take_partial()
        }
    }

    /// Backward step of the mutable path: the partial proxy first, then the
    /// proxies of the main blocks right to left.
    pub fn next_back(&mut self, region: &Vec<B>) -> (r: Option<MutProxy<B>>)
        requires
            old(self).compat(region@),
        ensures
            final(self).compat(region@),
            final(self).vectorizer == old(self).vectorizer,
            final(self).model(region@) == old(self).model(region@).step_back(),
            r is Some <==> old(self).model(region@).back() is Some,
            r matches Some(q) ==> {
                &&& old(self).model(region@).back() == Some(q.data@)
                &&& q.wf()
                &&& q.fits(region@)
            },
            old(self).partial@ is Some ==> r == old(self).partial@,
            old(self).partial@ is None && old(self).left < old(self).right ==> (r matches Some(q)
                && q.start == (old(self).right - 1) * old(self).vectorizer.lanes
                && q.restore_len == old(self).vectorizer.lanes),
    {
        match self.partial.take_partial() {
            Some(p) => Some(p),
            None => {
                if self.left < self.right {
                    self.right = self.right - 1;
                    proof {
                        assert(self.right as int * self.vectorizer.lanes as int
                            <= self.vectorizer.blocks as int * self.vectorizer.lanes as int)
                            by (nonlinear_arith)
                            requires
                                self.right as int <= self.vectorizer.blocks as int,
                                self.vectorizer.lanes as int >= 0,
                        ;
                    }
                    Some(self.vectorizer.get(region, self.right))
                } else {
                    None
                }
            },
        }
    }

    /// The last element of the mutable sequence, by one backward step.
    pub fn last(self, region: &Vec<B>) -> (r: Option<MutProxy<B>>)
        requires
            self.compat(region@),
        ensures
            r is Some <==> self.model(region@).back() is Some,
            r matches Some(q) ==> {
                &&& self.model(region@).back() == Some(q.data@)
                &&& q.wf()
                &&& q.fits(region@)
            },
    {
        let mut me = self;
        me.next_back(region)
    }

    /// Skip-by-`n` on the mutable path: the same cursor arithmetic as the
    /// read path; a skip past the main blocks consumes the partial proxy
    /// without yielding it, so its write-back never happens.
    pub fn nth(&mut self, n: usize, region: &Vec<B>) -> (r: Option<MutProxy<B>>)
        requires
            old(self).compat(region@),
        ensures
            final(self).compat(region@),
            final(self).vectorizer == old(self).vectorizer,
            final(self).model(region@) == old(self).model(region@).after_nth(n as nat),
            r is Some <==> old(self).model(region@).nth_result(n as nat) is Some,
            r matches Some(q) ==> {
                &&& old(self).model(region@).nth_result(n as nat) == Some(q.data@)
                &&& q.wf()
                &&& q.fits(region@)
            },
    {
        let main_len = self.right - self.left;
        if n < main_len {
            let idx = self.left + n;
            self.left = idx + 1;
            Some(self.vectorizer.get(region, idx))
        } else if n == main_len {
            self.left = self.right;
            self.partial.take_partial()
        } else {
            self.left = self.right;
            let _ = self.partial.take_partial();
            None
        }
    }
}

/// Builds the mutable vectorized sequence over a region whose length is an
/// exact multiple of `lanes`; on any other length this is a misuse and fails.
/// Yielded proxies are flushed back into the same region by the caller.
pub fn vectorize_mut<B: Repr>(region: &Vec<B>, lanes: usize) -> (r: Result<
    VectorizedIter<WriteVectorizer, MutProxy<B>>,
    Error,
>)
    requires
        lanes > 0,
    ensures
        match r {
            Ok(it) => {
                &&& region@.len() % lanes as nat == 0
                &&& it.compat(region@)
                &&& it.vectorizer.lanes == lanes
                &&& it.left == 0
                &&& it.right == region@.len() / lanes as nat
                &&& it.partial@ is None
            },
            Err(e) => {
                &&& region@.len() % lanes as nat != 0
                &&& e == (Error::UnalignedWithoutPadding { lanes, len: region@.len() as usize })
            },
        },
{
    match WriteVectorizer::create(region, lanes, None) {
        Ok((vz, n, _partial)) => Ok(
            VectorizedIter { vectorizer: vz, partial: Partial::empty(), left: 0, right: n },
        ),
        Err(e) => Err(e),
    }
}

/// Builds the padded mutable vectorized sequence: the partial proxy, when
/// present, writes back only the genuine remainder length.
pub fn vectorize_pad_mut<B: Repr>(region: &Vec<B>, pad: Block<B>) -> (r: VectorizedIter<
    WriteVectorizer,
    MutProxy<B>,
>)
    requires
        pad@.len() > 0,
    ensures
        r.compat(region@),
        r.vectorizer.lanes == pad@.len(),
        r.left == 0,
        r.right == region@.len() / pad@.len(),
        region@.len() % pad@.len() == 0 ==> r.partial@ is None,
        region@.len() % pad@.len() != 0 ==> (r.partial@ matches Some(q) && {
            &&& q.data@ == padded_tail(region@, pad@.len(), pad@)
            &&& q.start == region@.len() - region@.len() % pad@.len()
            &&& q.restore_len == region@.len() % pad@.len()
        }),
{
    let lanes = pad.lanes();
    match WriteVectorizer::create(region, lanes, Some(pad)) {
        Ok((vz, n, partial)) => match partial {
            Some(p) => VectorizedIter { vectorizer: vz, partial: Partial::of(p), left: 0, right: n },
            None => VectorizedIter { vectorizer: vz, partial: Partial::empty(), left: 0, right: n },
        },
        Err(_) => unreached(),
    }
}

impl<A: Repr, C: Repr> VectorizedIter<(ReadVectorizer, ReadVectorizer), (Block<A>, Block<C>)> {
    /// The first side's mathematical state over its region.
    pub open spec fn model_a(&self, ra: Seq<A>) -> IterModel<A> {
        IterModel {
            region: ra,
            lanes: self.vectorizer.0.lanes as nat,
            left: self.left as nat,
            right: self.right as nat,
            partial: match self.partial@ {
                Some(p) => Some(p.0@),
                None => None,
            },
        }
    }

    /// The second side's mathematical state over its region.
    pub open spec fn model_b(&self, rb: Seq<C>) -> IterModel<C> {
        IterModel {
            region: rb,
            lanes: self.vectorizer.1.lanes as nat,
            left: self.left as nat,
            right: self.right as nat,
            partial: match self.partial@ {
                Some(p) => Some(p.1@),
                None => None,
            },
        }
    }

    /// What every access needs of the iterator and both regions together.
    pub open spec fn compat(&self, ra: Seq<A>, rb: Seq<C>) -> bool {
        &&& self.model_a(ra).wf()
        &&& self.model_b(rb).wf()
        &&& self.right <= self.vectorizer.0.blocks
        &&& self.vectorizer.0.covers::<A>(ra)
        &&& self.right <= self.vectorizer.1.blocks
        &&& self.vectorizer.1.covers::<C>(rb)
    }

    /// Forward step of the zipped sequence: the pair of each side's block at
    /// one shared index, the sides always in lockstep.
    pub fn next(&mut self, ra: &Vec<A>, rb: &Vec<C>) -> (r: Option<(Block<A>, Block<C>)>)
        requires
            old(self).compat(ra@, rb@),
        ensures
            final(self).compat(ra@, rb@),
            final(self).vectorizer == old(self).vectorizer,
            final(self).model_a(ra@) == old(self).model_a(ra@).step_front(),
            final(self).model_b(rb@) == old(self).model_b(rb@).step_front(),
            r is Some <==> old(self).model_a(ra@).front() is Some,
            r matches Some(p) ==> {
                &&& old(self).model_a(ra@).front() == Some(p.0@)
                &&& old(self).model_b(rb@).front() == Some(p.1@)
            },
    {
        if self.left < self.right {
            let idx = self.left;
            self.left = self.left + 1;
            Some((self.vectorizer.0.get(ra, idx), self.vectorizer.1.get(rb, idx)))
        } else {
            self.partial.take_partial()
        }
    }

    /// Backward step of the zipped sequence: the partial pair first, then
    /// the block pairs right to left, the sides always in lockstep.
    pub fn next_back(&mut self, ra: &Vec<A>, rb: &Vec<C>) -> (r: Option<(Block<A>, Block<C>)>)
        requires
            old(self).compat(ra@, rb@),
        ensures
            final(self).compat(ra@, rb@),
            final(self).vectorizer == old(self).vectorizer,
            final(self).model_a(ra@) == old(self).model_a(ra@).step_back(),
            final(self).model_b(rb@) == old(self).model_b(rb@).step_back(),
            r is Some <==> old(self).model_a(ra@).back() is Some,
            r matches Some(p) ==> {
                &&& old(self).model_a(ra@).back() == Some(p.0@)
                &&& old(self).model_b(rb@).back() == Some(p.1@)
            },
    {
        match self.partial.take_partial() {
            Some(p) => Some(p),
            None => {
                if self.left < self.right {
                    self.right = self.right - 1;
                    proof {
                        assert(self.right as int * self.vectorizer.0.lanes as int
                            <= self.vectorizer.0.blocks as int * self.vectorizer.0.lanes as int)
                            by (nonlinear_arith)
                            requires
                                self.right as int <= self.vectorizer.0.blocks as int,
                                self.vectorizer.0.lanes as int >= 0,
                        ;
                        assert(self.right as int * self.vectorizer.1.lanes as int
                            <= self.vectorizer.1.blocks as int * self.vectorizer.1.lanes as int)
                            by (nonlinear_arith)
                            requires
                                self.right as int <= self.vectorizer.1.blocks as int,
                                self.vectorizer.1.lanes as int >= 0,
                        ;
                    }
                    Some((self.vectorizer.0.get(ra, self.right), self.vectorizer.1.get(rb, self.right)))
                } else {
                    None
                }
            },
        }
    }
}

impl<A: Repr, C: Repr> VectorizedIter<(WriteVectorizer, ReadVectorizer), (MutProxy<A>, Block<C>)> {
    /// The first (mutable) side's mathematical state over its region.
    pub open spec fn model_a(&self, ra: Seq<A>) -> IterModel<A> {
        IterModel {
            region: ra,
            lanes: self.vectorizer.0.lanes as nat,
            left: self.left as nat,
            right: self.right as nat,
            partial: match self.partial@ {
                Some(p) => Some(p.0.data@),
                None => None,
            },
        }
    }

    /// The second (read-only) side's mathematical state over its region.
    pub open spec fn model_b(&self, rb: Seq<C>) -> IterModel<C> {
        IterModel {
            region: rb,
            lanes: self.vectorizer.1.lanes as nat,
            left: self.left as nat,
            right: self.right as nat,
            partial: match self.partial@ {
                Some(p) => Some(p.1@),
                None => None,
            },
        }
    }

    /// What every access needs of the iterator and both regions together; a
    /// stored partial proxy must be flushable into the first region.
    pub open spec fn compat(&self, ra: Seq<A>, rb: Seq<C>) -> bool {
        &&& self.model_a(ra).wf()
        &&& self.model_b(rb).wf()
        &&& self.right <= self.vectorizer.0.blocks
        &&& self.vectorizer.0.covers::<A>(ra)
        &&& self.right <= self.vectorizer.1.blocks
        &&& self.vectorizer.1.covers::<C>(rb)
        &&& (self.partial@ matches Some(p) ==> p.0.wf() && p.0.fits(ra))
    }

    /// Forward step of the zipped mutable sequence: a write-back proxy into
    /// the first region paired with the second region's block, at one shared
    /// index.
    pub fn next(&mut self, ra: &Vec<A>, rb: &Vec<C>) -> (r: Option<(MutProxy<A>, Block<C>)>)
        requires
            old(self).compat(ra@, rb@),
        ensures
            final(self).compat(ra@, rb@),
            final(self).vectorizer == old(self).vectorizer,
            final(self).model_a(ra@) == old(self).model_a(ra@).step_front(),
            final(self).model_b(rb@) == old(self).model_b(rb@).step_front(),
            r is Some <==> old(self).model_a(ra@).front() is Some,
            r matches Some(p) ==> {
                &&& old(self).model_a(ra@).front() == Some(p.0.data@)
                &&& old(self).model_b(rb@).front() == Some(p.1@)
                &&& p.0.wf()
                &&& p.0.fits(ra@)
            },
    {
        if self.left < self.right {
            let idx = self.left;
            self.left = self.left + 1;
            Some((self.vectorizer.0.get(ra, idx), self.vectorizer.1.get(rb, idx)))
        } else {
            self.partial.take_partial()
        }
    }

    /// Backward step of the zipped mutable sequence: the partial pair first,
    /// then the pairs of the main blocks right to left.
    pub fn next_back(&mut self, ra: &Vec<A>, rb: &Vec<C>) -> (r: Option<(MutProxy<A>, Block<C>)>)
        requires
            old(self).compat(ra@, rb@),
        ensures
            final(self).compat(ra@, rb@),
            final(self).vectorizer == old(self).vectorizer,
            final(self).model_a(ra@) == old(self).model_a(ra@).step_back(),
            final(self).model_b(rb@) == old(self).model_b(rb@).step_back(),
            r is Some <==> old(self).model_a(ra@).back() is Some,
            r matches Some(p) ==> {
                &&& old(self).model_a(ra@).back() == Some(p.0.data@)
                &&& old(self).model_b(rb@).back() == Some(p.1@)
                &&& p.0.wf()
                &&& p.0.fits(ra@)
            },
    {
        match self.partial.take_partial() {
            Some(p) => Some(p),
            None => {
                if self.left < self.right {
                    self.right = self.right - 1;
                    proof {
                        assert(self.right as int * self.vectorizer.0.lanes as int
                            <= self.vectorizer.0.blocks as int * self.vectorizer.0.lanes as int)
                            by (nonlinear_arith)
                            requires
                                self.right as int <= self.vectorizer.0.blocks as int,
                                self.vectorizer.0.lanes as int >= 0,
                        ;
                        assert(self.right as int * self.vectorizer.1.lanes as int
                            <= self.vectorizer.1.blocks as int * self.vectorizer.1.lanes as int)
                            by (nonlinear_arith)
                            requires
                                self.right as int <= self.vectorizer.1.blocks as int,
                                self.vectorizer.1.lanes as int >= 0,
                        ;
                    }
                    Some((self.vectorizer.0.get(ra, self.right), self.vectorizer.1.get(rb, self.right)))
                } else {
                    None
                }
            },
        }
    }
}

/// Builds the zipped vectorized sequence over two regions, both of which
/// must decompose into the same number of full blocks with no remainder.
pub fn vectorize_pair<A: Repr, C: Repr>(ra: &Vec<A>, lanes_a: usize, rb: &Vec<C>, lanes_b: usize) -> (r:
    Result<VectorizedIter<(ReadVectorizer, ReadVectorizer), (Block<A>, Block<C>)>, Error>)
    requires
        lanes_a > 0,
        lanes_b > 0,
    ensures
        match r {
            Ok(it) => {
                &&& ra@.len() % lanes_a as nat == 0
                &&& rb@.len() % lanes_b as nat == 0
                &&& ra@.len() / lanes_a as nat == rb@.len() / lanes_b as nat
                &&& it.compat(ra@, rb@)
                &&& it.vectorizer.0.lanes == lanes_a
                &&& it.vectorizer.1.lanes == lanes_b
                &&& it.left == 0
                &&& it.right == ra@.len() / lanes_a as nat
                &&& it.partial@ is None
            },
            Err(e) => {
                if ra@.len() % lanes_a as nat != 0 {
                    e == (Error::UnalignedWithoutPadding { lanes: lanes_a, len: ra@.len() as usize })
                } else if rb@.len() % lanes_b as nat != 0 {
                    e == (Error::UnalignedWithoutPadding { lanes: lanes_b, len: rb@.len() as usize })
                } else {
                    &&& ra@.len() / lanes_a as nat != rb@.len() / lanes_b as nat
                    &&& e == (Error::BlockCountMismatch {
                        left: (ra@.len() / lanes_a as nat) as usize,
                        right: (rb@.len() / lanes_b as nat) as usize,
                    })
                }
            },
        },
{
    match crate::vectorizer::create_pair(ra, lanes_a, rb, lanes_b, None) {
        Ok((vz, n, _partial)) => Ok(
            VectorizedIter { vectorizer: vz, partial: Partial::empty(), left: 0, right: n },
        ),
        Err(e) => Err(e),
    }
}

/// Builds the zipped, padded, mutable vectorized sequence: proxies into the
/// first region paired with blocks of the second. Both sides must decompose
/// into the same number of full blocks, and a partial can be formed either
/// for both sides or for neither.
pub fn vectorize_pad_pair_mut<A: Repr, C: Repr>(
    ra: &Vec<A>,
    rb: &Vec<C>,
    pad_a: Block<A>,
    pad_b: Block<C>,
) -> (r: Result<
    VectorizedIter<(WriteVectorizer, ReadVectorizer), (MutProxy<A>, Block<C>)>,
    Error,
>)
    requires
        pad_a@.len() > 0,
        pad_b@.len() > 0,
    ensures
        ({
            let rest_a = ra@.len() % pad_a@.len();
            let rest_b = rb@.len() % pad_b@.len();
            let na = ra@.len() / pad_a@.len();
            let nb = rb@.len() / pad_b@.len();
            match r {
                Ok(it) => {
                    &&& na == nb
                    &&& it.compat(ra@, rb@)
                    &&& it.vectorizer.0.lanes == pad_a@.len()
                    &&& it.vectorizer.1.lanes == pad_b@.len()
                    &&& it.left == 0
                    &&& it.right == na
                    &&& (if rest_a == 0 && rest_b == 0 {
                        it.partial@ is None
                    } else {
                        &&& rest_a != 0
                        &&& rest_b != 0
                        &&& it.partial@ matches Some(q)
                        &&& q.0.data@ == padded_tail(ra@, pad_a@.len(), pad_a@)
                        &&& q.0.start == ra@.len() - rest_a
                        &&& q.0.restore_len == rest_a
                        &&& q.1@ == padded_tail(rb@, pad_b@.len(), pad_b@)
                    })
                },
                Err(e) => {
                    if na != nb {
                        e == (Error::BlockCountMismatch { left: na as usize, right: nb as usize })
                    } else {
                        &&& e == Error::PaddingAsymmetry
                        &&& (rest_a == 0) != (rest_b == 0)
                    }
                },
            }
        }),
{
    let lanes_a = pad_a.lanes();
    let lanes_b = pad_b.lanes();
    match crate::vectorizer::create_pair_mut(ra, lanes_a, rb, lanes_b, Some((pad_a, pad_b))) {
        Ok((vz, n, partial)) => match partial {
            Some(q) => Ok(
                VectorizedIter { vectorizer: vz, partial: Partial::of(q), left: 0, right: n },
            ),
            None => Ok(VectorizedIter { vectorizer: vz, partial: Partial::empty(), left: 0, right: n }),
        },
        Err(e) => Err(e),
    }
}


/// Adds `delta` to every lane of one local block value.
fn bump_block(b: &mut Block<u32>, delta: u32)
    requires
        forall|k: int| 0 <= k < old(b)@.len() ==> old(b)@[k] + delta <= u32::MAX,
    ensures
        final(b)@.len() == old(b)@.len(),
        forall|k: int| 0 <= k < old(b)@.len() ==> final(b)@[k] == old(b)@[k] + delta,
{
    let w = b.lanes();
    let mut j: usize = 0;
    while j < w
        invariant
            j <= w,
            w == b@.len(),
            forall|k: int| 0 <= k < w ==> old(b)@[k] + delta <= u32::MAX,
            forall|k: int| 0 <= k < j ==> b@[k] == old(b)@[k] + delta,
            forall|k: int| j <= k < w ==> b@[k] == old(b)@[k],
        decreases w - j,
    {
        let v = b.lane(j);
        b.set_lane(j, v + delta);
        j = j + 1;
    }
}

/// Walks the whole mutable vectorized sequence over `region` — every main
/// block and, when the length does not divide evenly, the zero-padded
/// partial — adds a splatted `delta` to every lane of every yielded proxy,
/// and releases each one: afterwards every element of the region is its old
/// value plus `delta`, the length is unchanged, and the partial's short
/// flush wrote nothing past the region's end.
pub fn add_splat(region: Vec<u32>, lanes: usize, delta: u32) -> (r: Vec<u32>)
    requires
        lanes > 0,
        forall|i: int| 0 <= i < region@.len() ==> region@[i] + delta <= u32::MAX,
    ensures
        r@.len() == region@.len(),
        forall|i: int| 0 <= i < region@.len() ==> r@[i] == region@[i] + delta,
{
    let mut region = region;
    let ghost orig = region@;
    let pad = Block::splat(0u32, lanes);
    let mut it = vectorize_pad_mut(&region, pad);
    loop
        invariant_except_break
            lanes > 0,
            it.compat(region@),
            it.vectorizer.lanes == lanes,
            it.right == orig.len() / lanes as nat,
            region@.len() == orig.len(),
            forall|i: int| 0 <= i < orig.len() ==> orig[i] + delta <= u32::MAX,
            forall|i: int| 0 <= i < it.left * lanes ==> region@[i] == orig[i] + delta,
            it.partial@ matches Some(q) ==> {
                &&& orig.len() % lanes as nat != 0
                &&& q.data@.len() == lanes
                &&& q.start == orig.len() - orig.len() % lanes as nat
                &&& q.restore_len == orig.len() % lanes as nat
                &&& (forall|k: int| 0 <= k < q.restore_len ==> q.data@[k] == orig[q.start + k])
                &&& (forall|k: int| q.restore_len <= k < lanes ==> q.data@[k] == 0u32)
                &&& (forall|i: int| it.left * lanes <= i < orig.len() ==> region@[i] == orig[i])
            },
            it.partial@ is None ==> ((orig.len() % lanes as nat == 0 && forall|i: int|
                it.left * lanes <= i < orig.len() ==> region@[i] == orig[i]) || (
            orig.len() % lanes as nat != 0 && it.left == it.right && forall|i: int|
                0 <= i < orig.len() ==> region@[i] == orig[i] + delta)),
        ensures
            region@.len() == orig.len(),
            forall|i: int| 0 <= i < orig.len() ==> region@[i] == orig[i] + delta,
        decreases (it.right - it.left) as int + it.partial.size_spec(),
    {
        let ghost left0 = it.left as int;
        let ghost region0 = region@;
        match it.next(&region) {
            Some(mut proxy) => {
                proof {
                    lemma_fundamental_div_mod(orig.len() as int, lanes as int);
                    if left0 < it.right as int {
                        assert(left0 * lanes + lanes <= it.right as int * lanes as int)
                            by (nonlinear_arith)
                            requires
                                left0 + 1 <= it.right as int,
                                lanes as int >= 0,
                        ;
                        assert(it.right as int * lanes as int == lanes as int * (orig.len() as int
                            / lanes as int)) by (nonlinear_arith)
                            requires
                                it.right as int == orig.len() as int / lanes as int,
                        ;
                        assert forall|k: int|
                            0 <= k < proxy.data@.len() implies proxy.data@[k] + delta
                            <= u32::MAX by {
                            assert(proxy.data@[k] == region0[left0 * lanes + k]);
                            assert(region0[left0 * lanes + k] == orig[left0 * lanes + k]);
                        }
                    } else {
                        assert forall|k: int|
                            0 <= k < proxy.data@.len() implies proxy.data@[k] + delta
                            <= u32::MAX by {
                            if k < proxy.restore_len {
                                assert(proxy.data@[k] == orig[proxy.start + k]);
                            } else {
                                assert(proxy.data@[k] == 0u32);
                            }
                        }
                    }
                }
                let ghost data0 = proxy.data@;
                bump_block(&mut proxy.data, delta);
                let ghost pstart = proxy.start as int;
                let ghost plen = proxy.restore_len as int;
                proxy.flush(&mut region);
                proof {
                    assert((left0 + 1) * lanes == left0 * lanes + lanes) by (nonlinear_arith);
                    assert(it.right as int * lanes as int == lanes as int * (orig.len() as int
                        / lanes as int)) by (nonlinear_arith)
                        requires
                            it.right as int == orig.len() as int / lanes as int,
                    ;
                    if left0 < it.right as int {
                        assert forall|i: int| 0 <= i < it.left * lanes implies region@[i] == orig[i]
                            + delta by {
                            if pstart <= i < pstart + plen {
                                assert(region@[i] == data0[i - pstart] + delta);
                                assert(data0[i - pstart] == region0[i]);
                                assert(region0[i] == orig[i]);
                            } else {
                                assert(region@[i] == region0[i]);
                            }
                        }
                        assert forall|i: int|
                            it.left * lanes <= i < orig.len() implies region@[i] == orig[i] by {
                            assert(region@[i] == region0[i]);
                        }
                    } else {
                        assert forall|i: int| 0 <= i < orig.len() implies region@[i] == orig[i]
                            + delta by {
                            if pstart <= i < pstart + plen {
                                assert(region@[i] == data0[i - pstart] + delta);
                            } else {
                                assert(region@[i] == region0[i]);
                            }
                        }
                    }
                }
            },
            None => {
                proof {
                    lemma_fundamental_div_mod(orig.len() as int, lanes as int);
                    assert(it.right as int * lanes as int == lanes as int * (orig.len() as int
                        / lanes as int)) by (nonlinear_arith)
                        requires
                            it.right as int == orig.len() as int / lanes as int,
                    ;
                }
                break ;
            },
        }
    }
    region
}

} // verus!


