use monocore::store::codec::Codec;
use monocore::store::constants::DEFAULT_CHUNK_MAX_SIZE;
use monocore::store::dual::{max_limit, total_block_count, Choice, DualStoreConfig};
use monocore::store::flat::{FetchPlan, FlatLayoutCursor, SeekPos};
use monocore::store::flatfs::{
    block_data, block_path_components, decode_refcount, encode_refcount, get_block_count, new_block_file, DirLevels, FsNode,
};
use monocore::store::quickcdc::QuickCdcChunker;

#[test]
fn codec_numbers_round_trip() {
    assert_eq!(Codec::Raw.to_u64(), 0x55);
    assert_eq!(Codec::DagCbor.to_u64(), 0x71);
    assert_eq!(Codec::DagJson.to_u64(), 0x0129);
    assert_eq!(Codec::DagPb.to_u64(), 0x70);
    assert_eq!(Codec::try_from_u64(0x71), Ok(Codec::DagCbor));
    assert_eq!(Codec::try_from_u64(0x42), Ok(Codec::Unknown(0x42)));
    assert_eq!(Codec::try_from_u64(0x42).unwrap().to_u64(), 0x42);
}

#[test]
fn dual_store_choices() {
    let c = DualStoreConfig::default_config();
    assert_eq!(c.write_to, Choice::A);
    assert_eq!(c.read_from, Choice::A);
    assert_eq!(c.after_first_read(true), Some(Choice::B));
    assert_eq!(c.after_first_read(false), None);
    assert_eq!(c.has_after_first(true), None);
    assert_eq!(c.has_after_first(false), Some(Choice::B));
    assert_eq!(Choice::B.other(), Choice::A);
    assert_eq!(max_limit(Some(3), Some(5)), Some(5));
    assert_eq!(max_limit(None, Some(5)), Some(5));
    assert_eq!(max_limit(Some(3), None), Some(3));
    assert_eq!(max_limit(None, None), None);
    assert_eq!(total_block_count(2, 3), 5);
}

#[test]
fn quickcdc_max_size() {
    assert_eq!(QuickCdcChunker::new(10).chunk_max_size(), Some(10));
    assert_eq!(QuickCdcChunker::default_chunker().chunk_max_size(), Some(DEFAULT_CHUNK_MAX_SIZE));
}

#[test]
fn refcount_bytes_round_trip() {
    assert_eq!(encode_refcount(1), vec![0, 0, 0, 0, 0, 0, 0, 1]);
    assert_eq!(encode_refcount(0x0102), vec![0, 0, 0, 0, 0, 0, 1, 2]);
    assert_eq!(decode_refcount(&encode_refcount(u64::MAX)), Some(u64::MAX));
    assert_eq!(decode_refcount(&[1, 2, 3]), None);
}

#[test]
fn block_files_with_and_without_refcount() {
    let f = new_block_file(b"data", true);
    assert_eq!(f, vec![0, 0, 0, 0, 0, 0, 0, 0, b'd', b'a', b't', b'a']);
    assert_eq!(block_data(&f, true), b"data".to_vec());
    assert_eq!(new_block_file(b"data", false), b"data".to_vec());
    assert_eq!(block_data(b"data", false), b"data".to_vec());
}

#[test]
fn block_paths_follow_the_levels() {
    let d = [0xab, 0xcd, 0xef];
    assert_eq!(block_path_components(&d, DirLevels::Zero), vec!["abcdef".to_string()]);
    assert_eq!(block_path_components(&d, DirLevels::One), vec!["ab".to_string(), "abcdef".to_string()]);
    assert_eq!(
        block_path_components(&d, DirLevels::Two),
        vec!["ab".to_string(), "cd".to_string(), "abcdef".to_string()]
    );
    assert!(matches!(DirLevels::default_levels(), DirLevels::One));
}

#[test]
fn block_count_counts_files_at_the_level_depth() {
    let tree = vec![
        FsNode::Dir(vec![FsNode::File, FsNode::File, FsNode::Other]),
        FsNode::Dir(vec![FsNode::File]),
        FsNode::File,
    ];
    assert_eq!(get_block_count(&tree, DirLevels::Zero), 1);
    assert_eq!(get_block_count(&tree, DirLevels::One), 3);
    assert_eq!(get_block_count(&tree, DirLevels::Two), 0);
}

#[test]
fn flat_cursor_seeks_and_reads() {
    assert!(FlatLayoutCursor::new(vec![usize::MAX, 1]).is_none());
    let mut c = FlatLayoutCursor::new(vec![4, 4, 2]).unwrap();
    assert_eq!(c.seek_target(SeekPos::Start(3)), Ok(3));
    assert_eq!(c.seek_target(SeekPos::Start(10)), Err("Seek from start position out of bounds".to_string()));
    assert_eq!(c.seek_target(SeekPos::End(-1)), Ok(9));
    assert_eq!(c.seek_target(SeekPos::End(0)), Err("Seek from end position out of bounds".to_string()));
    assert_eq!(c.seek_target(SeekPos::Current(-1)), Err("Seek from current position out of bounds".to_string()));
    assert_eq!(c.seek_update(5), FetchPlan::Chunk { index: 1, offset: 1 });
    assert_eq!(c.read_update(0, 3), FetchPlan::Chunk { index: 2, offset: 0 });
    assert_eq!(c.read_update(1, 1), FetchPlan::Leftover);
    assert_eq!(c.read_update(0, 1), FetchPlan::End);
    assert_eq!(c.seek_update(0), FetchPlan::Chunk { index: 0, offset: 0 });
    assert_eq!(c.seek_update(10), FetchPlan::End);
}
