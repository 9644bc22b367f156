use s3_fuse::download::{plan_blocks, ByteRange, Download, DownloadError, DEFAULT_BLOCK_SIZE};

const MIB: u64 = 1024 * 1024;

fn source(len: usize) -> Vec<u8> {
    (0..len).map(|i| (i * 7 + 3) as u8).collect()
}

#[test]
fn default_block_size_is_64_mib() {
    assert_eq!(DEFAULT_BLOCK_SIZE, 64 * MIB);
}

#[test]
fn plan_of_200_mib_in_64_mib_blocks() {
    let blocks = plan_blocks(200 * MIB, DEFAULT_BLOCK_SIZE);
    assert_eq!(
        blocks,
        vec![
            ByteRange { start: 0, end: 64 * MIB },
            ByteRange { start: 64 * MIB, end: 128 * MIB },
            ByteRange { start: 128 * MIB, end: 192 * MIB },
            ByteRange { start: 192 * MIB, end: 200 * MIB },
        ]
    );
}

#[test]
fn plan_edges() {
    assert_eq!(plan_blocks(0, 4), vec![]);
    assert_eq!(plan_blocks(1, 4), vec![ByteRange { start: 0, end: 1 }]);
    assert_eq!(plan_blocks(4, 4), vec![ByteRange { start: 0, end: 4 }]);
    assert_eq!(
        plan_blocks(5, 4),
        vec![ByteRange { start: 0, end: 4 }, ByteRange { start: 4, end: 5 }]
    );
    assert_eq!(plan_blocks(3, 1).len(), 3);
    assert_eq!(plan_blocks(u64::MAX, u64::MAX), vec![ByteRange { start: 0, end: u64::MAX }]);
}

#[test]
fn plan_covers_the_object_without_gap_or_overlap() {
    for size in 0u64..40 {
        for block_size in 1u64..9 {
            let blocks = plan_blocks(size, block_size);
            let mut at = 0;
            for b in &blocks {
                assert_eq!(b.start, at);
                assert!(b.end > b.start && b.end - b.start <= block_size);
                at = b.end;
            }
            assert_eq!(at, size);
            assert_eq!(blocks.len() as u64, (size + block_size - 1) / block_size);
        }
    }
}

#[test]
fn a_download_cannot_start_without_a_block_size() {
    assert!(Download::new(10, 0).is_none());
    assert!(Download::new(10, 3).is_some());
    assert!(Download::new(0, 3).is_some());
}

#[test]
fn download_in_order_gives_the_source() {
    let src = source(10);
    let mut d = Download::new(10, 4).unwrap();
    assert_eq!(d.block_count(), 3);
    let mut total = 0;
    for i in 0..d.block_count() {
        let r = d.block(i).unwrap();
        total += d.store_block(i, &src[r.start as usize..r.end as usize]).unwrap();
    }
    assert_eq!(total, 10);
    assert_eq!(d.finish(), Ok((src, 10)));
}

#[test]
fn download_in_any_order_gives_the_source() {
    let orders: [&[usize]; 6] = [
        &[3, 2, 1, 0],
        &[1, 3, 0, 2],
        &[2, 0, 3, 1],
        &[0, 0, 1, 1, 2, 2, 3, 3],
        &[3, 0, 3, 1, 2],
        &[1, 2, 3, 0],
    ];
    // The scale of 200 MiB in blocks of 64 MiB: three full blocks and a short one.
    let src = source(200);
    for order in orders {
        let mut d = Download::new(200, 64).unwrap();
        for &i in order {
            let r = d.block(i).unwrap();
            assert_eq!(
                d.store_block(i, &src[r.start as usize..r.end as usize]),
                Ok(r.end - r.start)
            );
        }
        assert_eq!(d.finish(), Ok((src.clone(), 200)));
    }
}

#[test]
fn download_for_many_sizes_and_block_sizes() {
    for size in 0usize..30 {
        for block_size in 1u64..8 {
            let src = source(size);
            let mut d = Download::new(size as u64, block_size).unwrap();
            let n = d.block_count();
            for k in 0..n {
                // odd blocks first, from the back
                let i = if k < n / 2 { n - 1 - 2 * k - (n % 2) } else { 2 * (k - n / 2) };
                let i = if i >= n { k } else { i };
                let r = d.block(i).unwrap();
                d.store_block(i, &src[r.start as usize..r.end as usize]).unwrap();
            }
            for i in 0..n {
                let r = d.block(i).unwrap();
                d.store_block(i, &src[r.start as usize..r.end as usize]).unwrap();
            }
            assert_eq!(d.finish(), Ok((src, size as u64)));
        }
    }
}

#[test]
fn an_empty_object_is_complete_at_once() {
    let d = Download::new(0, 64).unwrap();
    assert_eq!(d.block_count(), 0);
    assert_eq!(d.block(0), None);
    assert_eq!(d.finish(), Ok((vec![], 0)));
}

#[test]
fn blocks_have_their_ranges() {
    let d = Download::new(10, 4).unwrap();
    assert_eq!(d.block(0), Some(ByteRange { start: 0, end: 4 }));
    assert_eq!(d.block(1), Some(ByteRange { start: 4, end: 8 }));
    assert_eq!(d.block(2), Some(ByteRange { start: 8, end: 10 }));
    assert_eq!(d.block(3), None);
}

#[test]
fn a_missing_block_fails_the_download() {
    let src = source(10);
    let mut d = Download::new(10, 4).unwrap();
    d.store_block(0, &src[0..4]).unwrap();
    d.store_block(2, &src[8..10]).unwrap();
    assert_eq!(d.finish(), Err(DownloadError::Incomplete));
}

#[test]
fn a_block_that_does_not_exist_is_refused() {
    let mut d = Download::new(10, 4).unwrap();
    assert_eq!(d.store_block(3, &[1, 2]), Err(DownloadError::NoSuchBlock));
    assert_eq!(d.store_block(usize::MAX, &[]), Err(DownloadError::NoSuchBlock));
}

#[test]
fn a_block_of_the_wrong_length_is_refused_and_changes_nothing() {
    let src = source(10);
    let mut d = Download::new(10, 4).unwrap();
    assert_eq!(d.store_block(0, &[9, 9, 9]), Err(DownloadError::WrongLength));
    assert_eq!(d.store_block(2, &[9, 9, 9, 9]), Err(DownloadError::WrongLength));
    assert_eq!(d.store_block(2, &[]), Err(DownloadError::WrongLength));
    for i in 0..3 {
        let r = d.block(i).unwrap();
        d.store_block(i, &src[r.start as usize..r.end as usize]).unwrap();
    }
    assert_eq!(d.finish(), Ok((src, 10)));
}
