use slipstream::Block;
use slipstream::Error;
use slipstream::Repr;
use slipstream::vectorize;
use slipstream::vectorize_pad;
use slipstream::iter::vectorize_mut;
use slipstream::iter::vectorize_pad_mut;
use slipstream::iter::vectorize_pair;
use slipstream::iter::vectorize_pad_pair_mut;
use slipstream::iter::add_splat;

#[test]
fn block_new_checks_length() {
    let three = vec![1u32, 2, 3];
    let b = Block::new(&three, 3).unwrap();
    assert_eq!(b.lanes(), 3);
    assert_eq!(b.lane(0), 1);
    assert_eq!(b.lane(2), 3);

    let err = Block::new(&three, 4).unwrap_err();
    assert_eq!(err, Error::LengthMismatch { expected: 4, got: 3 });
}

#[test]
fn block_splat_and_set_lane() {
    let mut b = Block::splat(5u16, 4);
    assert_eq!(b.lanes(), 4);
    for j in 0..4 {
        assert_eq!(b.lane(j), 5);
    }
    b.set_lane(2, 9);
    assert_eq!(b.lane(2), 9);
    assert_eq!(b.lane(1), 5);
}

#[test]
fn repr_one_is_one() {
    assert_eq!(<u16 as Repr>::one(), 1u16);
    assert_eq!(<i64 as Repr>::one(), 1i64);
    assert_eq!(<usize as Repr>::one(), 1usize);
}

#[test]
fn aligned_reconstructs_exactly() {
    let data: Vec<u32> = (10..18u32).collect();
    let mut it = vectorize(&data, 4).unwrap();
    let mut flat: Vec<u32> = Vec::new();
    let mut blocks: usize = 0;
    while let Some(b) = it.next(&data) {
        blocks += 1;
        for j in 0..b.lanes() {
            flat.push(b.lane(j));
        }
    }
    assert_eq!(blocks, 2);
    assert_eq!(flat, data);
}

#[test]
fn unaligned_without_padding_fails() {
    let data: Vec<u32> = (0..5u32).collect();
    let err = vectorize(&data, 2).unwrap_err();
    assert_eq!(err, Error::UnalignedWithoutPadding { lanes: 2, len: 5 });
    let err = vectorize_mut(&data, 4).unwrap_err();
    assert_eq!(err, Error::UnalignedWithoutPadding { lanes: 4, len: 5 });
}

#[test]
fn unaligned_with_padding_keeps_tail_and_pad() {
    let data: Vec<u32> = (0..11u32).collect();
    let pad = Block::splat(9u32, 4);
    let mut it = vectorize_pad(&data, pad);
    let mut yields: Vec<Vec<u32>> = Vec::new();
    while let Some(b) = it.next(&data) {
        let mut blk = Vec::new();
        for j in 0..b.lanes() {
            blk.push(b.lane(j));
        }
        yields.push(blk);
    }
    // floor(11 / 4) full blocks, then one partial: true tail, then pad values.
    assert_eq!(yields.len(), 3);
    assert_eq!(yields[0], vec![0, 1, 2, 3]);
    assert_eq!(yields[1], vec![4, 5, 6, 7]);
    assert_eq!(yields[2], vec![8, 9, 10, 9]);
}

#[test]
fn aligned_with_padding_has_no_partial() {
    let data: Vec<u32> = (0..8u32).collect();
    let pad = Block::splat(9u32, 4);
    let mut it = vectorize_pad(&data, pad);
    let mut blocks: usize = 0;
    while let Some(_b) = it.next(&data) {
        blocks += 1;
    }
    assert_eq!(blocks, 2);
}

#[test]
fn mutable_path_writes_back_exactly() {
    let mut region: Vec<u32> = (100..105u32).collect();
    let pad = Block::splat(0u32, 4);
    let mut it = vectorize_pad_mut(&region, pad);
    loop {
        match it.next(&region) {
            Some(mut proxy) => {
                for j in 0..proxy.data.lanes() {
                    let v = proxy.data.lane(j);
                    proxy.data.set_lane(j, v + 1);
                }
                proxy.flush(&mut region);
            }
            None => break,
        }
    }
    // Every real element reflects the mutation; the partial's short flush
    // wrote nothing past the end: the length is unchanged.
    assert_eq!(region, vec![101, 102, 103, 104, 105]);
}

#[test]
fn mutable_backward_path_writes_back() {
    let mut region: Vec<u32> = (0..4u32).collect();
    let mut it = vectorize_mut(&region, 2).unwrap();
    loop {
        match it.next_back(&region) {
            Some(mut proxy) => {
                for j in 0..proxy.data.lanes() {
                    let v = proxy.data.lane(j);
                    proxy.data.set_lane(j, v * 10);
                }
                proxy.flush(&mut region);
            }
            None => break,
        }
    }
    assert_eq!(region, vec![0, 10, 20, 30]);
}

#[test]
fn pair_walks_in_lockstep() {
    let left: Vec<u32> = (0..8u32).collect();
    let right: Vec<u16> = (50..54u16).collect();
    let mut it = vectorize_pair(&left, 4, &right, 2).unwrap();
    let mut pairs: usize = 0;
    while let Some((a, b)) = it.next(&left, &right) {
        assert_eq!(a.lanes(), 4);
        assert_eq!(b.lanes(), 2);
        assert_eq!(a.lane(0), (pairs * 4) as u32);
        assert_eq!(b.lane(0), 50 + (pairs * 2) as u16);
        pairs += 1;
    }
    assert_eq!(pairs, 2);
}

#[test]
fn pair_block_count_mismatch_fails() {
    let left: Vec<u32> = (0..4u32).collect();
    let right: Vec<u16> = (0..6u16).collect();
    let err = vectorize_pair(&left, 2, &right, 2).unwrap_err();
    assert_eq!(err, Error::BlockCountMismatch { left: 2, right: 3 });
}

#[test]
fn pair_padding_asymmetry_fails() {
    // Equal block counts, but only the second side has a remainder.
    let left: Vec<u32> = (0..4u32).collect();
    let right: Vec<u16> = (0..5u16).collect();
    let pad_a = Block::splat(0u32, 2);
    let pad_b = Block::splat(0u16, 2);
    let err = vectorize_pad_pair_mut(&left, &right, pad_a, pad_b).unwrap_err();
    assert_eq!(err, Error::PaddingAsymmetry);
}

#[test]
fn pair_unaligned_without_padding_fails() {
    let left: Vec<u32> = (0..5u32).collect();
    let right: Vec<u16> = (0..4u16).collect();
    let err = vectorize_pair(&left, 2, &right, 2).unwrap_err();
    assert_eq!(err, Error::UnalignedWithoutPadding { lanes: 2, len: 5 });
}

#[test]
fn add_splat_updates_every_element() {
    let region: Vec<u32> = (0..33u32).collect();
    let out = add_splat(region.clone(), 4, 1);
    assert_eq!(out.len(), 33);
    for i in 0..33usize {
        assert_eq!(out[i], region[i] + 1);
    }
    // Aligned region: no partial involved.
    let out = add_splat(vec![5u32, 6, 7, 8], 2, 10);
    assert_eq!(out, vec![15, 16, 17, 18]);
}

#[test]
fn pair_backward_yields_partial_first() {
    let left: Vec<u32> = (0..5u32).collect();
    let right: Vec<u16> = (10..15u16).collect();
    let pad_a = Block::splat(7u32, 2);
    let pad_b = Block::splat(8u16, 2);
    let mut it = vectorize_pad_pair_mut(&left, &right, pad_a, pad_b).unwrap();
    let (a, b) = it.next_back(&left, &right).unwrap();
    // The partial pair comes first when walking backward.
    assert_eq!(a.data.lane(0), 4);
    assert_eq!(a.data.lane(1), 7);
    assert_eq!(b.lane(0), 14);
    assert_eq!(b.lane(1), 8);
    let (a, _b) = it.next_back(&left, &right).unwrap();
    assert_eq!(a.data.lane(0), 2);
    drop(a);
    let (a, _b) = it.next_back(&left, &right).unwrap();
    assert_eq!(a.data.lane(0), 0);
    drop(a);
    assert!(it.next_back(&left, &right).is_none());
}

#[test]
fn mutable_nth_skips_writes() {
    let mut region: Vec<u32> = (0..5u32).collect();
    let pad = Block::splat(0u32, 2);
    let mut it = vectorize_pad_mut(&region, pad);
    // Skipping past everything consumes the partial without yielding it,
    // so no write-back ever happens.
    assert!(it.nth(9, &region).is_none());
    assert_eq!(region, vec![0, 1, 2, 3, 4]);

    let mut it = vectorize_pad_mut(&region, Block::splat(0u32, 2));
    // Skip one main block, mutate the second, release it.
    let mut proxy = it.nth(1, &region).unwrap();
    proxy.data.set_lane(0, 100);
    proxy.data.set_lane(1, 101);
    proxy.flush(&mut region);
    assert_eq!(region, vec![0, 1, 100, 101, 4]);
}
