//! Block decomposition of a region: stateless per-block accessors for
//! reading and writing, and the write-back proxy for the mutable path.

use vstd::prelude::*;
use vstd::arithmetic::div_mod::lemma_fundamental_div_mod;
use vstd::arithmetic::mul::lemma_mul_nonnegative;

use crate::block::Block;
use crate::error::Error;
use crate::repr::Repr;

verus! {

/// The block with index `idx` of a region cut into blocks of `lanes`
/// contiguous elements.
pub open spec fn block_at<B>(region: Seq<B>, lanes: nat, idx: nat) -> Seq<B> {
    region.subrange((idx * lanes) as int, (idx * lanes + lanes) as int)
}

/// A padding block whose first `region.len() % lanes` lanes were overwritten
/// with the trailing remainder of the region; the other lanes keep the
/// padding's own values.
pub open spec fn padded_tail<B>(region: Seq<B>, lanes: nat, pad: Seq<B>) -> Seq<B> {
    let rest = region.len() % lanes;
    let main = region.len() - rest;
    Seq::new(lanes, |i: int| if i < rest { region[main + i] } else { pad[i] })
}

/// The region after the first `len` elements of `data` were copied back over
/// `region[start .. start + len]`; everything outside that range is the old
/// region, unchanged.
pub open spec fn flushed<B>(region: Seq<B>, data: Seq<B>, start: nat, len: nat) -> Seq<B> {
    Seq::new(region.len(), |i: int| if start <= i < start + len { data[i - start] } else { region[i] })
}

/// A stateless, copyable descriptor able to produce the block at any index
/// in `[0, blocks)` of the region it was built for.
///
/// It holds no address: the region is handed to every access, and `covers`
/// restates, at each call, the bound that construction established. Distinct
/// indices read disjoint parts of the region.
#[derive(Clone, Copy, Debug)]
pub struct ReadVectorizer {
    /// The strictly positive lane count blocks are cut by.
    pub lanes: usize,
    /// How many full blocks the region this was built for holds.
    pub blocks: usize,
}

impl ReadVectorizer {
    /// The lane count is strictly positive.
    pub open spec fn wf(&self) -> bool {
        self.lanes > 0
    }

    /// The region is long enough for every block index below `self.blocks`.
    pub open spec fn covers<B>(&self, region: Seq<B>) -> bool {
        self.blocks * self.lanes <= region.len()
    }

    /// Decomposes a region into `region.len() / lanes` full blocks plus an
    /// optional trailing partial.
    ///
    /// If the length divides evenly there is no partial, whether or not a
    /// padding block was supplied. Otherwise the padding block, with its
    /// first `region.len() % lanes` lanes overwritten by the true tail,
    /// becomes the partial; without a padding block the decomposition is a
    /// misuse and fails.
    pub fn create<B: Repr>(region: &Vec<B>, lanes: usize, pad: Option<Block<B>>) -> (r: Result<
        (ReadVectorizer, usize, Option<Block<B>>),
        Error,
    >)
        requires
            lanes > 0,
            pad matches Some(p) ==> p@.len() == lanes,
        ensures
            match r {
                Ok((vz, n, partial)) => {
                    &&& vz.lanes == lanes
                    &&& vz.blocks == n
                    &&& n == region@.len() / lanes as nat
                    &&& vz.wf()
                    &&& vz.covers(region@)
                    &&& (if region@.len() % lanes as nat == 0 {
                        partial is None
                    } else {
                        &&& pad matches Some(p)
                        &&& partial matches Some(q)
                        &&& q@ == padded_tail(region@, lanes as nat, p@)
                    })
                },
                Err(e) => {
                    &&& region@.len() % lanes as nat != 0
                    &&& pad is None
                    &&& e == (Error::UnalignedWithoutPadding { lanes, len: region@.len() as usize })
                },
            },
    {
        let len = region.len();
        let n = len / lanes;
        let rest = len % lanes;
        proof {
            lemma_fundamental_div_mod(len as int, lanes as int);
            lemma_mul_nonnegative(lanes as int, len as int / lanes as int);
            assert(n as int * lanes as int == lanes as int * (len as int / lanes as int));
            assert(n as int * lanes as int <= len as int);
        }
        let main = len - rest;
        let vz = ReadVectorizer { lanes, blocks: n };
        if rest == 0 {
            Ok((vz, n, None))
        } else {
            match pad {
                Some(mut p) => {
                    let ghost pad0 = p@;
                    let mut j: usize = 0;
                    while j < rest
                        invariant
                            j <= rest,
                            rest < lanes,
                            main + rest == region.len(),
                            p@.len() == lanes,
                            pad0.len() == lanes,
                            forall|i: int|
                                0 <= i < lanes ==> p@[i] == (if i < j {
                                    region@[main + i]
                                } else {
                                    pad0[i]
                                }),
                        decreases rest - j,
                    {
                        let v = region[main + j];
                        p.set_lane(j, v);
                        j = j + 1;
                    }
                    proof {
                        assert(p@ =~= padded_tail(region@, lanes as nat, pad0));
                    }
                    Ok((vz, n, Some(p)))
                },
                None => Err(Error::UnalignedWithoutPadding { lanes, len }),
            }
        }
    }

    /// Produces the block at `idx`. The precondition bounds the index once,
    /// at this boundary; everything below is plain checked copying.
    pub fn get<B: Repr>(&self, region: &Vec<B>, idx: usize) -> (r: Block<B>)
        requires
            self.wf(),
            self.covers::<B>(region@),
            idx < self.blocks,
        ensures
            r@ == block_at(region@, self.lanes as nat, idx as nat),
            r@.len() == self.lanes,
    {
        let rlen = region.len();
        proof {
            assert(idx as int * self.lanes as int + self.lanes as int <= self.blocks as int
                * self.lanes as int) by (nonlinear_arith)
                requires
                    idx as int + 1 <= self.blocks as int,
                    self.lanes as int >= 0,
            ;
            assert(idx as int * self.lanes as int + self.lanes as int <= rlen as int);
        }
        let start = idx * self.lanes;
        Block::read_from(region, start, self.lanes)
    }
}

/// A scoped wrapper owning a local block value and the place in the source
/// region it was read from.
///
/// Block values are not views into the region, so mutation is staged: the
/// caller edits `data` freely, and releasing the proxy through [`flush`]
/// copies exactly the first `restore_len` lanes back. For the trailing
/// partial, `restore_len` is deliberately only the genuine remainder length,
/// so padding lanes are never written past the region's end.
///
/// [`flush`]: MutProxy::flush
#[derive(Debug)]
pub struct MutProxy<B> {
    /// The local block value the caller mutates.
    pub data: Block<B>,
    /// Index in the source region where the write-back lands.
    pub start: usize,
    /// How many leading lanes of `data` the write-back copies.
    pub restore_len: usize,
}

impl<B: Repr> MutProxy<B> {
    /// The write-back never reads past the local block.
    pub open spec fn wf(&self) -> bool {
        self.restore_len <= self.data@.len()
    }

    /// The write-back target lies inside the region.
    pub open spec fn fits(&self, region: Seq<B>) -> bool {
        self.start + self.restore_len <= region.len()
    }

    /// Releases the proxy: copies exactly the first `restore_len` lanes of
    /// the local block back into the region, and changes nothing else — no
    /// element outside `[start, start + restore_len)` and not the length.
    pub fn flush(self, region: &mut Vec<B>)
        requires
            self.wf(),
            self.fits(old(region)@),
        ensures
            final(region)@ == flushed(old(region)@, self.data@, self.start as nat, self.restore_len as nat),
    {
        let mut j: usize = 0;
        while j < self.restore_len
            invariant
                j <= self.restore_len,
                self.wf(),
                self.fits(old(region)@),
                region.len() == old(region)@.len(),
                forall|i: int|
                    0 <= i < region@.len() ==> region@[i] == (if self.start <= i < self.start + j {
                        self.data@[i - self.start]
                    } else {
                        old(region)@[i]
                    }),
            decreases self.restore_len - j,
        {
            let v = self.data.lane(j);
            let k = self.start + j;
            region[k] = v;
            j = j + 1;
        }
        proof {
            assert(region@ =~= flushed(
                old(region)@,
                self.data@,
                self.start as nat,
                self.restore_len as nat,
            ));
        }
    }
}

/// The mutable counterpart of [`ReadVectorizer`]: the block at each index
/// comes wrapped in a [`MutProxy`] whose write-back target is the same
/// sub-region the block was read from.
///
/// The caller must hold exclusive access to the region between building this
/// descriptor and the last flush derived from it.
#[derive(Clone, Copy, Debug)]
pub struct WriteVectorizer {
    /// The strictly positive lane count blocks are cut by.
    pub lanes: usize,
    /// How many full blocks the region this was built for holds.
    pub blocks: usize,
}

impl WriteVectorizer {
    /// The lane count is strictly positive.
    pub open spec fn wf(&self) -> bool {
        self.lanes > 0
    }

    /// The region is long enough for every block index below `self.blocks`.
    pub open spec fn covers<B>(&self, region: Seq<B>) -> bool {
        self.blocks * self.lanes <= region.len()
    }

    /// Decomposes a region for mutation: the same alignment and padding
    /// rules as [`ReadVectorizer::create`], but the trailing partial is a
    /// [`MutProxy`] that remembers the original trailing sub-region, with
    /// its write-back shortened to the genuine remainder length.
    pub fn create<B: Repr>(region: &Vec<B>, lanes: usize, pad: Option<Block<B>>) -> (r: Result<
        (WriteVectorizer, usize, Option<MutProxy<B>>),
        Error,
    >)
        requires
            lanes > 0,
            pad matches Some(p) ==> p@.len() == lanes,
        ensures
            match r {
                Ok((vz, n, partial)) => {
                    &&& vz.lanes == lanes
                    &&& vz.blocks == n
                    &&& n == region@.len() / lanes as nat
                    &&& vz.wf()
                    &&& vz.covers(region@)
                    &&& (if region@.len() % lanes as nat == 0 {
                        partial is None
                    } else {
                        &&& pad matches Some(p)
                        &&& partial matches Some(q)
                        &&& q.data@ == padded_tail(region@, lanes as nat, p@)
                        &&& q.start == region@.len() - region@.len() % lanes as nat
                        &&& q.restore_len == region@.len() % lanes as nat
                        &&& q.wf()
                        &&& q.fits(region@)
                    })
                },
                Err(e) => {
                    &&& region@.len() % lanes as nat != 0
                    &&& pad is None
                    &&& e == (Error::UnalignedWithoutPadding { lanes, len: region@.len() as usize })
                },
            },
    {
        let len = region.len();
        let n = len / lanes;
        let rest = len % lanes;
        proof {
            lemma_fundamental_div_mod(len as int, lanes as int);
            lemma_mul_nonnegative(lanes as int, len as int / lanes as int);
            assert(n as int * lanes as int == lanes as int * (len as int / lanes as int));
            assert(n as int * lanes as int <= len as int);
        }
        let main = len - rest;
        let vz = WriteVectorizer { lanes, blocks: n };
        if rest == 0 {
            Ok((vz, n, None))
        } else {
            match pad {
                Some(mut p) => {
                    let ghost pad0 = p@;
                    let mut j: usize = 0;
                    while j < rest
                        invariant
                            j <= rest,
                            rest < lanes,
                            main + rest == region.len(),
                            p@.len() == lanes,
                            pad0.len() == lanes,
                            forall|i: int|
                                0 <= i < lanes ==> p@[i] == (if i < j {
                                    region@[main + i]
                                } else {
                                    pad0[i]
                                }),
                        decreases rest - j,
                    {
                        let v = region[main + j];
                        p.set_lane(j, v);
                        j = j + 1;
                    }
                    proof {
                        assert(p@ =~= padded_tail(region@, lanes as nat, pad0));
                    }
                    Ok((vz, n, Some(MutProxy { data: p, start: main, restore_len: rest })))
                },
                None => Err(Error::UnalignedWithoutPadding { lanes, len }),
            }
        }
    }

    /// Produces the write-back proxy for the block at `idx`: its local value
    /// is a copy of that block, its write-back target the same sub-region.
    pub fn get<B: Repr>(&self, region: &Vec<B>, idx: usize) -> (r: MutProxy<B>)
        requires
            self.wf(),
            self.covers::<B>(region@),
            idx < self.blocks,
        ensures
            r.data@ == block_at(region@, self.lanes as nat, idx as nat),
            r.start == idx * self.lanes,
            r.restore_len == self.lanes,
            r.wf(),
            r.fits(region@),
    {
        let rlen = region.len();
        proof {
            assert(idx as int * self.lanes as int + self.lanes as int <= self.blocks as int
                * self.lanes as int) by (nonlinear_arith)
                requires
                    idx as int + 1 <= self.blocks as int,
                    self.lanes as int >= 0,
            ;
            assert(idx as int * self.lanes as int + self.lanes as int <= rlen as int);
        }
        let start = idx * self.lanes;
        let data = Block::read_from(region, start, self.lanes);
        MutProxy { data, start, restore_len: self.lanes }
    }
}


/// Zips two decompositions into one synchronized one: the joint accessor at
/// any index is the pair of each side's block at that index.
///
/// Failures mirror the order the sides are processed in: the first region's
/// alignment, then the second's, then equal block counts, then padding
/// symmetry — a partial can be formed either for both sides or for neither.
pub fn create_pair<A: Repr, C: Repr>(
    ra: &Vec<A>,
    lanes_a: usize,
    rb: &Vec<C>,
    lanes_b: usize,
    pad: Option<(Block<A>, Block<C>)>,
) -> (r: Result<((ReadVectorizer, ReadVectorizer), usize, Option<(Block<A>, Block<C>)>), Error>)
    requires
        lanes_a > 0,
        lanes_b > 0,
        pad matches Some(p) ==> p.0@.len() == lanes_a && p.1@.len() == lanes_b,
    ensures
        ({
            let rest_a = ra@.len() % lanes_a as nat;
            let rest_b = rb@.len() % lanes_b as nat;
            let na = ra@.len() / lanes_a as nat;
            let nb = rb@.len() / lanes_b as nat;
            match r {
                Ok((vz, n, partial)) => {
                    &&& vz.0.lanes == lanes_a
                    &&& vz.0.blocks == n
                    &&& vz.0.wf()
                    &&& vz.0.covers(ra@)
                    &&& vz.1.lanes == lanes_b
                    &&& vz.1.blocks == n
                    &&& vz.1.wf()
                    &&& vz.1.covers(rb@)
                    &&& n == na
                    &&& n == nb
                    &&& (pad is None ==> rest_a == 0 && rest_b == 0)
                    &&& (if rest_a == 0 && rest_b == 0 {
                        partial is None
                    } else {
                        &&& rest_a != 0
                        &&& rest_b != 0
                        &&& pad matches Some(p)
                        &&& partial matches Some(q)
                        &&& q.0@ == padded_tail(ra@, lanes_a as nat, p.0@)
                        &&& q.1@ == padded_tail(rb@, lanes_b as nat, p.1@)
                    })
                },
                Err(e) => {
                    if pad is None && rest_a != 0 {
                        e == (Error::UnalignedWithoutPadding { lanes: lanes_a, len: ra@.len() as usize })
                    } else if pad is None && rest_b != 0 {
                        e == (Error::UnalignedWithoutPadding { lanes: lanes_b, len: rb@.len() as usize })
                    } else if na != nb {
                        e == (Error::BlockCountMismatch { left: na as usize, right: nb as usize })
                    } else {
                        &&& e == Error::PaddingAsymmetry
                        &&& (rest_a == 0) != (rest_b == 0)
                        &&& pad is Some
                    }
                },
            }
        }),
{
    let (pa, pb) = match pad {
        Some((x, y)) => (Some(x), Some(y)),
        None => (None, None),
    };
    let (av, an, ap) = match ReadVectorizer::create(ra, lanes_a, pa) {
        Ok(t) => t,
        Err(e) => {
            return Err(e);
        },
    };
    let (bv, bn, bp) = match ReadVectorizer::create(rb, lanes_b, pb) {
        Ok(t) => t,
        Err(e) => {
            return Err(e);
        },
    };
    if an != bn {
        return Err(Error::BlockCountMismatch { left: an, right: bn });
    }
    match (ap, bp) {
        (Some(x), Some(y)) => Ok(((av, bv), an, Some((x, y)))),
        (None, None) => Ok(((av, bv), an, None)),
        _ => Err(Error::PaddingAsymmetry),
    }
}

/// Zips a mutable decomposition of the first region with a read-only one of
/// the second, under the same rules as [`create_pair`]; the first side of
/// every yielded pair is a write-back proxy.
pub fn create_pair_mut<A: Repr, C: Repr>(
    ra: &Vec<A>,
    lanes_a: usize,
    rb: &Vec<C>,
    lanes_b: usize,
    pad: Option<(Block<A>, Block<C>)>,
) -> (r: Result<((WriteVectorizer, ReadVectorizer), usize, Option<(MutProxy<A>, Block<C>)>), Error>)
    requires
        lanes_a > 0,
        lanes_b > 0,
        pad matches Some(p) ==> p.0@.len() == lanes_a && p.1@.len() == lanes_b,
    ensures
        ({
            let rest_a = ra@.len() % lanes_a as nat;
            let rest_b = rb@.len() % lanes_b as nat;
            let na = ra@.len() / lanes_a as nat;
            let nb = rb@.len() / lanes_b as nat;
            match r {
                Ok((vz, n, partial)) => {
                    &&& vz.0.lanes == lanes_a
                    &&& vz.0.blocks == n
                    &&& vz.0.wf()
                    &&& vz.0.covers(ra@)
                    &&& vz.1.lanes == lanes_b
                    &&& vz.1.blocks == n
                    &&& vz.1.wf()
                    &&& vz.1.covers(rb@)
                    &&& n == na
                    &&& n == nb
                    &&& (pad is None ==> rest_a == 0 && rest_b == 0)
                    &&& (if rest_a == 0 && rest_b == 0 {
                        partial is None
                    } else {
                        &&& rest_a != 0
                        &&& rest_b != 0
                        &&& pad matches Some(p)
                        &&& partial matches Some(q)
                        &&& q.0.data@ == padded_tail(ra@, lanes_a as nat, p.0@)
                        &&& q.0.start == ra@.len() - rest_a
                        &&& q.0.restore_len == rest_a
                        &&& q.0.wf()
                        &&& q.0.fits(ra@)
                        &&& q.1@ == padded_tail(rb@, lanes_b as nat, p.1@)
                    })
                },
                Err(e) => {
                    if pad is None && rest_a != 0 {
                        e == (Error::UnalignedWithoutPadding { lanes: lanes_a, len: ra@.len() as usize })
                    } else if pad is None && rest_b != 0 {
                        e == (Error::UnalignedWithoutPadding { lanes: lanes_b, len: rb@.len() as usize })
                    } else if na != nb {
                        e == (Error::BlockCountMismatch { left: na as usize, right: nb as usize })
                    } else {
                        &&& e == Error::PaddingAsymmetry
                        &&& (rest_a == 0) != (rest_b == 0)
                        &&& pad is Some
                    }
                },
            }
        }),
{
    let (pa, pb) = match pad {
        Some((x, y)) => (Some(x), Some(y)),
        None => (None, None),
    };
    let (av, an, ap) = match WriteVectorizer::create(ra, lanes_a, pa) {
        Ok(t) => t,
        Err(e) => {
            return Err(e);
        },
    };
    let (bv, bn, bp) = match ReadVectorizer::create(rb, lanes_b, pb) {
        Ok(t) => t,
        Err(e) => {
            return Err(e);
        },
    };
    if an != bn {
        return Err(Error::BlockCountMismatch { left: an, right: bn });
    }
    match (ap, bp) {
        (Some(x), Some(y)) => Ok(((av, bv), an, Some((x, y)))),
        (None, None) => Ok(((av, bv), an, None)),
        _ => Err(Error::PaddingAsymmetry),
    }
}

} // verus!

