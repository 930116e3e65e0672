//! Laws of the vectorized sequence, stated over the mathematical model and
//! proved once and for all.

use vstd::prelude::*;
use vstd::arithmetic::div_mod::lemma_fundamental_div_mod;
use vstd::arithmetic::mul::lemma_mul_inequality;

use crate::iter::IterModel;
use crate::vectorizer::block_at;
use crate::vectorizer::flushed;
use crate::vectorizer::padded_tail;

verus! {

/// Concatenating the main blocks still to be yielded reproduces exactly the
/// region between the cursor's two block boundaries.
pub proof fn lemma_main_yields_flatten<B>(m: IterModel<B>)
    requires
        m.wf(),
    ensures
        m.main_yields().flatten() == m.region.subrange(
            (m.left * m.lanes) as int,
            (m.right * m.lanes) as int,
        ),
    decreases m.right - m.left,
{
    lemma_mul_inequality(m.left as int, m.right as int, m.lanes as int);
    if m.left == m.right {
        assert(m.main_yields().flatten() =~= Seq::<B>::empty());
        assert(m.region.subrange((m.left * m.lanes) as int, (m.right * m.lanes) as int)
            =~= Seq::<B>::empty());
    } else {
        let m2 = IterModel {
            region: m.region,
            lanes: m.lanes,
            left: m.left + 1,
            right: m.right,
            partial: m.partial,
        };
        lemma_mul_inequality(m2.left as int, m.right as int, m.lanes as int);
        assert((m.left + 1) * m.lanes == m.left * m.lanes + m.lanes) by (nonlinear_arith);
        lemma_main_yields_flatten(m2);
        let s = m.main_yields();
        assert(s.first() == block_at(m.region, m.lanes, m.left));
        assert(s.drop_first() =~= m2.main_yields());
        assert(s.flatten() == s.first() + s.drop_first().flatten());
        assert(s.first() + m2.main_yields().flatten() =~= m.region.subrange(
            (m.left * m.lanes) as int,
            (m.right * m.lanes) as int,
        ));
    }
}

/// Law: a region whose length is an exact multiple of the lane count
/// decomposes, without padding, into exactly `len / lanes` full blocks and no
/// partial, and concatenating every yielded block reproduces the original
/// region exactly.
pub proof fn lemma_aligned_reconstruct<B>(m: IterModel<B>)
    requires
        m.wf(),
        m.left == 0,
        m.partial is None,
        m.region.len() % m.lanes == 0,
        m.right == m.region.len() / m.lanes,
    ensures
        m.forward_yields().len() == m.region.len() / m.lanes,
        m.forward_yields().flatten() == m.region,
{
    lemma_main_yields_flatten(m);
    lemma_fundamental_div_mod(m.region.len() as int, m.lanes as int);
    assert(m.right * m.lanes == m.region.len());
    assert(m.forward_yields() =~= m.main_yields());
    assert(m.region.subrange(0, m.region.len() as int) =~= m.region);
}

/// Law: a region whose length is not a multiple of the lane count yields,
/// with padding, exactly `len / lanes` full blocks whose concatenation is the
/// aligned prefix, plus one trailing partial whose first `len % lanes` lanes
/// are the true tail and whose remaining lanes are the padding's untouched
/// values; everything yielded together is the region followed by the
/// padding's own suffix.
pub proof fn lemma_padded_decomposition<B>(region: Seq<B>, lanes: nat, pad: Seq<B>)
    requires
        lanes > 0,
        pad.len() == lanes,
        region.len() % lanes != 0,
    ensures
        padded_tail(region, lanes, pad).len() == lanes,
        padded_tail(region, lanes, pad).subrange(0, (region.len() % lanes) as int) == region.subrange(
            (region.len() - region.len() % lanes) as int,
            region.len() as int,
        ),
        forall|i: int|
            region.len() % lanes <= i < lanes ==> padded_tail(region, lanes, pad)[i] == pad[i],
        ({
            let m = IterModel {
                region,
                lanes,
                left: 0nat,
                right: region.len() / lanes,
                partial: Some(padded_tail(region, lanes, pad)),
            };
            &&& m.forward_yields().len() == region.len() / lanes + 1
            &&& m.forward_yields().flatten() == region + pad.skip((region.len() % lanes) as int)
        }),
{
    let rest = region.len() % lanes;
    let p = padded_tail(region, lanes, pad);
    lemma_fundamental_div_mod(region.len() as int, lanes as int);
    assert(p.len() == lanes);
    assert(p.subrange(0, rest as int) =~= region.subrange(
        (region.len() - rest) as int,
        region.len() as int,
    ));
    let m = IterModel {
        region,
        lanes,
        left: 0nat,
        right: region.len() / lanes,
        partial: Some(p),
    };
    lemma_fundamental_div_mod(region.len() as int, lanes as int);
    assert(m.wf());
    lemma_main_yields_flatten(m);
    let ys = m.main_yields();
    assert(m.forward_yields() =~= ys.push(p));
    ys.push(p).lemma_flatten_and_flatten_alt_are_equivalent();
    assert(ys.push(p).flatten_alt() == ys.push(p).drop_last().flatten_alt() + ys.push(p).last());
    assert(ys.push(p).drop_last() =~= ys);
    ys.lemma_flatten_and_flatten_alt_are_equivalent();
    assert(m.forward_yields().flatten() == ys.flatten() + p);
    assert(m.right * m.lanes + rest == region.len()) by {
        assert(m.right as int * m.lanes as int == m.lanes as int * (m.right as int))
            by (nonlinear_arith);
    };
    assert(ys.flatten() + p =~= region + pad.skip(rest as int));
}

/// Law: a write-back changes exactly the restore window — the length is
/// preserved, every element outside `[start, start + len)` is untouched, and
/// every element inside it is taken verbatim from the local block. In
/// particular the shortened partial flush never writes past the window.
pub proof fn lemma_flush_touches_only_window<B>(region: Seq<B>, data: Seq<B>, start: nat, len: nat)
    requires
        start + len <= region.len(),
        len <= data.len(),
    ensures
        flushed(region, data, start, len).len() == region.len(),
        forall|i: int|
            0 <= i < region.len() && !(start <= i < start + len) ==> flushed(
                region,
                data,
                start,
                len,
            )[i] == region[i],
        forall|i: int|
            start <= i < start + len ==> flushed(region, data, start, len)[i] == data[i - start],
{
}

/// Law: backward consumption yields exactly the reverse of forward
/// consumption — hence the same multiset of blocks — and the partial stays
/// adjacent to the tail end in both directions: it is the last forward yield
/// and the first backward yield.
pub proof fn lemma_backward_is_forward_reversed<B>(m: IterModel<B>)
    requires
        m.wf(),
    ensures
        m.backward_yields() == m.forward_yields().reverse(),
        m.backward_yields().to_multiset() == m.forward_yields().to_multiset(),
        m.partial matches Some(p) ==> m.forward_yields().last() == p
            && m.backward_yields().first() == p,
{
    assert(m.backward_yields() =~= m.forward_yields().reverse());
    m.forward_yields().lemma_reverse_to_multiset();
    assert(m.backward_yields().to_multiset() =~= m.forward_yields().to_multiset());
}

/// The state after `n` forward steps, in closed form: the cursor moves by
/// `n` while main blocks remain, and past them the partial is consumed.
pub proof fn lemma_advance_shape<B>(m: IterModel<B>, n: nat)
    requires
        m.wf(),
    ensures
        m.advance(n).region == m.region,
        m.advance(n).lanes == m.lanes,
        m.advance(n).right == m.right,
        m.advance(n).wf(),
        n <= m.right - m.left ==> m.advance(n).left == m.left + n && m.advance(n).partial
            == m.partial,
        n > m.right - m.left ==> m.advance(n).left == m.right && m.advance(n).partial is None,
    decreases n,
{
    if n > 0 {
        lemma_advance_shape(m, (n - 1) as nat);
    }
}

/// Law: skip-by-`n` yields exactly what `n` plain forward steps would
/// discard and the step after them would yield; for `n` inside the remaining
/// sequence that is element `n` of the forward yields, and past its end it
/// is nothing.
pub proof fn lemma_nth_matches_stepping<B>(m: IterModel<B>, n: nat)
    requires
        m.wf(),
    ensures
        m.nth_result(n) == m.advance(n).front(),
        n < m.remaining() ==> m.nth_result(n) == Some(m.forward_yields()[n as int]),
        n >= m.remaining() ==> m.nth_result(n) is None,
{
    lemma_advance_shape(m, n);
}


/// One forward step peels exactly the first element off the forward yield
/// sequence: the number of yields left always equals that sequence's length,
/// the step yields its head, and the state after the step carries its tail.
pub proof fn lemma_step_front_peels_first<B>(m: IterModel<B>)
    requires
        m.wf(),
    ensures
        m.remaining() == m.forward_yields().len(),
        m.front() is Some <==> m.forward_yields().len() > 0,
        m.forward_yields().len() > 0 ==> m.front() == Some(m.forward_yields()[0])
            && m.step_front().forward_yields() == m.forward_yields().skip(1),
{
    if m.forward_yields().len() > 0 {
        assert(m.step_front().forward_yields() =~= m.forward_yields().skip(1));
    }
}

} // verus!

