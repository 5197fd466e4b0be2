use monocore::nfs::proto::{CompoundOp, NfsOpcode};
use monocore::nfs::server::{CompoundNeed, CompoundRun};
use monocore::store::fastcdc::FastCDCChunker;
use monocore::store::flatfs::{block_path_components, DirLevels};
use monocore::utils::path::{normalize_path, SupportedPathType};
use monocore::vfs::memoryfs::MemoryFileSystem;

#[test]
fn masks_of_a_power_of_two_differ_by_two_bits() {
    for desired in [8u64, 4096, 8192, 1 << 20] {
        let (mask_s, mask_l) = FastCDCChunker::derive_masks(desired);
        let bits_d = FastCDCChunker::size_to_mask(desired).count_ones();
        assert_eq!(mask_s.count_ones(), bits_d + 2);
        assert_eq!(mask_l.count_ones() + 2, bits_d);
    }
}

#[test]
fn normalizing_a_normalized_path_changes_nothing() {
    for (path, kind) in [
        ("/data/./app/../logs//x/", SupportedPathType::Absolute),
        ("./a/b/../c", SupportedPathType::Relative),
        ("/", SupportedPathType::Any),
        ("a//b/.", SupportedPathType::Any),
    ] {
        let once = normalize_path(path, kind).unwrap();
        let twice = normalize_path(&once, kind).unwrap();
        assert_eq!(once, twice);
    }
}

#[test]
fn rename_leaves_other_paths_alone() {
    let mut fs = MemoryFileSystem::new();
    fs.create_directory("a").unwrap();
    fs.create_directory("b").unwrap();
    fs.create_file("a/x", false).unwrap();
    fs.write_file("a/x", 0, vec![7, 8]).unwrap();
    fs.create_file("a/keep", false).unwrap();
    fs.write_file("a/keep", 0, vec![1]).unwrap();
    fs.create_file("c", false).unwrap();
    fs.rename("a/x", "b/y").unwrap();
    assert!(!fs.path_exists("a/x").unwrap());
    assert_eq!(fs.read_file("b/y", 0, 2).unwrap(), vec![7, 8]);
    assert_eq!(fs.read_file("a/keep", 0, 1).unwrap(), vec![1]);
    assert!(fs.path_exists("c").unwrap());
}

#[test]
fn each_digest_has_its_own_block_file() {
    let a = [0xab, 0xcd, 0x01];
    let b = [0xab, 0xcd, 0x02];
    for levels in [DirLevels::Zero, DirLevels::One, DirLevels::Two] {
        assert_ne!(block_path_components(&a, levels), block_path_components(&b, levels));
        assert_eq!(block_path_components(&a, levels), block_path_components(&a, levels));
    }
}

#[test]
fn operations_get_statuses_zero_one_or_two() {
    let mut run = CompoundRun::new();
    let lookup = CompoundOp { opcode: NfsOpcode::Lookup, data: vec![0, 0, 0, 1, b'a', 0, 0, 0] };
    match run.step(&lookup) {
        CompoundNeed::Answer(r) => {
            assert_eq!(r.status, 1);
            run.answered(r);
        }
        _ => panic!("a lookup without a file handle is answered"),
    }
    let other = CompoundOp { opcode: NfsOpcode::Read, data: vec![] };
    match run.step(&other) {
        CompoundNeed::Answer(r) => {
            assert_eq!(r.status, 2);
            run.answered(r);
        }
        _ => panic!("an unsupported operation is answered"),
    }
    let root = CompoundOp { opcode: NfsOpcode::PutRootFh, data: vec![] };
    assert!(matches!(run.step(&root), CompoundNeed::RootFilehandle));
    run.handle_found(vec![1, 2, 3]);
    let reply = run.reply();
    assert_eq!(reply.results.iter().map(|r| r.status).collect::<Vec<_>>(), vec![1, 2, 0]);
}
