use slipstream::Block;
use slipstream::vectorize;
use slipstream::vectorize_pad;
use slipstream::iter::vectorize_pad_pair_mut;

#[test]
fn iter() {
    let data: Vec<u16> = (0..=10u16).collect();
    let pad = Block::splat(0u16, 8);
    let mut it = vectorize_pad(&data, pad);
    let mut total: u16 = 0;
    while let Some(b) = it.next(&data) {
        let mut j: usize = 0;
        while j < b.lanes() {
            total += b.lane(j);
            j += 1;
        }
    }
    assert_eq!(total, 55);
}

#[test]
fn iter_mut() {
    let data: Vec<u32> = (0..33u32).collect();
    let mut dst: Vec<u32> = vec![0u32; 33];
    let pad_a = Block::splat(0u32, 4);
    let pad_b = Block::splat(0u32, 4);
    let mut it = vectorize_pad_pair_mut(&dst, &data, pad_a, pad_b).unwrap();
    loop {
        match it.next(&dst, &data) {
            Some((mut d, s)) => {
                for j in 0..s.lanes() {
                    d.data.set_lane(j, s.lane(j) + 1);
                }
                d.flush(&mut dst);
            }
            None => break,
        }
    }
    assert_eq!(dst.len(), 33);
    for (l, r) in data.iter().zip(dst.iter()) {
        assert_eq!(*l + 1, *r);
    }
}

fn collect_forward(data: &Vec<u16>, lanes: usize, pad_value: u16) -> Vec<Vec<u16>> {
    let pad = Block::splat(pad_value, lanes);
    let mut it = vectorize_pad(data, pad);
    let mut out = Vec::new();
    while let Some(b) = it.next(data) {
        let mut blk = Vec::new();
        for j in 0..b.lanes() {
            blk.push(b.lane(j));
        }
        out.push(blk);
    }
    out
}

fn collect_backward(data: &Vec<u16>, lanes: usize, pad_value: u16) -> Vec<Vec<u16>> {
    let pad = Block::splat(pad_value, lanes);
    let mut it = vectorize_pad(data, pad);
    let mut out = Vec::new();
    while let Some(b) = it.next_back(data) {
        let mut blk = Vec::new();
        for j in 0..b.lanes() {
            blk.push(b.lane(j));
        }
        out.push(blk);
    }
    out
}

#[test]
fn forward_and_backward_agree() {
    let data: Vec<u16> = (0..7u16).collect();
    let fwd = collect_forward(&data, 2, 99);
    let mut bwd = collect_backward(&data, 2, 99);
    assert_eq!(fwd.len(), 4);
    bwd.reverse();
    assert_eq!(fwd, bwd);
    // The partial is the last forward yield and was the first backward one.
    assert_eq!(fwd[3], vec![6, 99]);
}

#[test]
fn nth_matches_plain_stepping() {
    let data: Vec<u16> = (0..11u16).collect();
    for n in 0..7usize {
        let pad = Block::splat(0u16, 4);
        let mut skipping = vectorize_pad(&data, pad);
        let skipped = skipping.nth(n, &data);

        let pad = Block::splat(0u16, 4);
        let mut stepping = vectorize_pad(&data, pad);
        for _ in 0..n {
            let discarded = stepping.next(&data);
            drop(discarded);
        }
        let stepped = stepping.next(&data);

        match (skipped, stepped) {
            (Some(a), Some(b)) => {
                for j in 0..a.lanes() {
                    assert_eq!(a.lane(j), b.lane(j));
                }
            }
            (None, None) => {}
            _ => panic!("skip-by-{} disagrees with {} plain steps", n, n),
        }
    }
}

#[test]
fn nth_past_the_end_consumes_partial() {
    let data: Vec<u16> = (0..5u16).collect();
    let pad = Block::splat(0u16, 2);
    let mut it = vectorize_pad(&data, pad);
    // 2 main blocks + 1 partial; skipping 5 overshoots everything.
    assert!(it.nth(5, &data).is_none());
    // Fused: exhausted stays exhausted, the partial was consumed silently.
    assert!(it.next(&data).is_none());
    assert!(it.next_back(&data).is_none());
}

#[test]
fn nth_at_boundary_yields_partial() {
    let data: Vec<u16> = (0..5u16).collect();
    let pad = Block::splat(42u16, 2);
    let mut it = vectorize_pad(&data, pad);
    // Skip count equals the number of main blocks: position 2 is the partial.
    let b = it.nth(2, &data).unwrap();
    assert_eq!(b.lane(0), 4);
    assert_eq!(b.lane(1), 42);
    assert!(it.next(&data).is_none());
}

#[test]
fn size_is_exact_at_every_point() {
    let data: Vec<u16> = (0..11u16).collect();
    let pad = Block::splat(0u16, 4);
    let mut it = vectorize_pad(&data, pad);
    let mut expected: usize = 3;
    loop {
        let (lo, hi) = it.size_hint();
        assert_eq!(lo, expected);
        assert_eq!(hi, Some(expected));
        if it.next(&data).is_none() {
            break;
        }
        expected -= 1;
    }
    assert_eq!(expected, 0);
}

#[test]
fn count_and_last() {
    let data: Vec<u16> = (0..11u16).collect();
    let pad = Block::splat(7u16, 4);
    let it = vectorize_pad(&data, pad);
    assert_eq!(it.count(), 3);

    let pad = Block::splat(7u16, 4);
    let it = vectorize_pad(&data, pad);
    let last = it.last(&data).unwrap();
    assert_eq!(last.lane(0), 8);
    assert_eq!(last.lane(1), 9);
    assert_eq!(last.lane(2), 10);
    assert_eq!(last.lane(3), 7);

    let data_even: Vec<u16> = (0..8u16).collect();
    let it = vectorize(&data_even, 4).unwrap();
    let last = it.last(&data_even).unwrap();
    assert_eq!(last.lane(0), 4);
    assert_eq!(last.lane(3), 7);
}

#[test]
fn collect_blocks_returns_everything_in_order() {
    let data: Vec<u16> = (0..11u16).collect();
    let pad = Block::splat(0u16, 4);
    let it = vectorize_pad(&data, pad);
    let blocks = it.collect_blocks(&data);
    assert_eq!(blocks.len(), 3);
    assert_eq!(blocks[0].lane(0), 0);
    assert_eq!(blocks[1].lane(3), 7);
    assert_eq!(blocks[2].lane(2), 10);
    assert_eq!(blocks[2].lane(3), 0);
}
