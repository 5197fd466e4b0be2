use monocore::store::constants::DEFAULT_GEAR_TABLE;
use monocore::store::fastcdc::FastCDCChunker;

#[test]
fn test_fastcdc_size_to_mask() {
    let mask_4k = FastCDCChunker::size_to_mask(4096);
    println!("mask_4k: {:064b}", mask_4k);
    assert_eq!(mask_4k, 0b1000_1000_1000_1000_1000_1000_1000_1000_1000_1000_1000_1000_0000_0000_0000_0000);
    assert_eq!(mask_4k & 0xFFFF, 0);

    let mask_8k = FastCDCChunker::size_to_mask(8192);
    println!("mask_8k: {:064b}", mask_8k);
    assert_eq!(mask_8k, 0b1001_0010_0100_1001_0010_0100_1001_0010_0100_1000_0000_0000_0000_0000_0000_0000);
    assert_eq!(mask_8k & 0xFFFF, 0);

    let mask_1 = FastCDCChunker::size_to_mask(1);
    assert_eq!(mask_1, 1u64 << 63);
    assert_eq!(mask_1 & 0xFFFF, 0);

    let mask_2 = FastCDCChunker::size_to_mask(2);
    assert_eq!(mask_2, 0b1000_0000_0000_0000_0000_0000_0000_0000_0000_0000_0000_0000_0000_0000_0000_0000);
    assert_eq!(mask_2 & 0xFFFF, 0);
}

#[test]
fn test_fastcdc_valid_chunk_sizes() {
    FastCDCChunker::new(8192, 4096, 16384, DEFAULT_GEAR_TABLE);
    FastCDCChunker::new(8192, 8192, 8192, DEFAULT_GEAR_TABLE);
    FastCDCChunker::new(1 << 30, 1 << 20, 1 << 48, DEFAULT_GEAR_TABLE);
}

#[test]
fn test_fastcdc_derive_masks() {
    let desired_size: u64 = 4096;
    let mask_d = FastCDCChunker::size_to_mask(desired_size);
    let (mask_s, mask_l) = FastCDCChunker::derive_masks(desired_size);

    let count_bits = |x: u64| x.count_ones();
    let bits_d = count_bits(mask_d);
    let bits_s = count_bits(FastCDCChunker::size_to_mask(desired_size << 2));
    let bits_l = count_bits(FastCDCChunker::size_to_mask(desired_size >> 2));
    println!("mask_d ({:2} bits, {:5}KiB): {:064b}", bits_d, desired_size >> 10, mask_d);
    println!("mask_s ({:2} bits, {:5}KiB): {:064b}", bits_s, desired_size << 2 >> 10, mask_s);
    println!("mask_l ({:2} bits, {:5}KiB): {:064b}", bits_l, desired_size >> 2 >> 10, mask_l);

    assert_eq!(mask_s, FastCDCChunker::size_to_mask(desired_size << 2), "mask_s should be derived from size {} (desired * 4)", desired_size << 2);
    assert_eq!(mask_l, FastCDCChunker::size_to_mask(desired_size >> 2), "mask_l should be derived from size {} (desired / 4)", desired_size >> 2);

    for size in [8192u64, 16384, 32768] {
        let (mask_s, mask_l) = FastCDCChunker::derive_masks(size);
        assert_eq!(mask_s, FastCDCChunker::size_to_mask(size << 2), "size {}: mask_s should be derived from size {}", size, size << 2);
        assert_eq!(mask_l, FastCDCChunker::size_to_mask(size >> 2), "size {}: mask_l should be derived from size {}", size, size >> 2);
    }
}

#[test]
fn test_fastcdc_basic_chunking() {
    let data = b"abcdefghijklmnopqrstuvwxyz".repeat(100);
    let mut gear_table = [0u64; 256];
    for (i, g) in gear_table.iter_mut().enumerate() {
        *g = i as u64;
    }
    let chunker = FastCDCChunker::new(16, 8, 32, gear_table);
    let chunks = chunker.chunk_bytes(&data);
    assert!(!chunks.is_empty(), "Should produce at least one chunk");
    assert_eq!(chunks.iter().map(|c| c.len()).sum::<usize>(), data.len(), "Total chunked data should equal input size");
    assert_eq!(chunks.concat(), data);
    assert!(chunks[..chunks.len() - 1].iter().all(|c| c.len() >= 8 && c.len() <= 32));
}

#[test]
fn test_fastcdc_empty_input() {
    let chunker = FastCDCChunker::default_chunker();
    assert!(chunker.chunk_bytes(b"").is_empty(), "Empty input should produce no chunks");
}

#[test]
fn test_fastcdc_single_byte() {
    let chunker = FastCDCChunker::default_chunker();
    let chunks = chunker.chunk_bytes(b"a");
    assert_eq!(chunks, vec![b"a".to_vec()]);
}

#[test]
fn fastcdc_chunks_respect_bounds() {
    let data: Vec<u8> = (0..100_000u32).map(|i| (i % 251) as u8).collect();
    let chunker = FastCDCChunker::new(1024, 512, 2048, DEFAULT_GEAR_TABLE);
    let sizes: Vec<usize> = chunker.chunk_bytes(&data).iter().map(|c| c.len()).collect();
    assert!(!sizes.is_empty());
    assert_eq!(sizes.iter().sum::<usize>(), data.len());
    assert!(sizes[..sizes.len() - 1].iter().all(|&s| s >= 512));
    assert!(sizes.iter().all(|&s| s <= 2048));
}

#[test]
fn fastcdc_chunk_max_size_is_the_max() {
    let chunker = FastCDCChunker::new(1024, 512, 2048, DEFAULT_GEAR_TABLE);
    assert_eq!(chunker.chunk_max_size(), Some(2048));
}
