//! The consumed LSM-tree primitive round-trips its contents through a
//! memtable flush and a reopen of the same directory.
use lsm_tree::AbstractTree;

const ITEM_COUNT: usize = 100_000;

fn open_tree(folder: &tempfile::TempDir) -> lsm_tree::AnyTree {
    lsm_tree::Config::new(
        folder.path(),
        lsm_tree::SequenceNumberCounter::default(),
        lsm_tree::SequenceNumberCounter::default(),
    )
    .open()
    .unwrap()
}

fn count_all(tree: &lsm_tree::AnyTree) -> usize {
    tree.iter(u64::MAX, None)
        .map(lsm_tree::Guard::into_inner)
        .filter(Result::is_ok)
        .count()
}

fn count_all_rev(tree: &lsm_tree::AnyTree) -> usize {
    tree.iter(u64::MAX, None)
        .rev()
        .map(lsm_tree::Guard::into_inner)
        .filter(Result::is_ok)
        .count()
}

#[test]
fn tree_reload_empty() {
    let folder = tempfile::tempdir().unwrap();

    {
        let tree = open_tree(&folder);
        assert_eq!(tree.len(u64::MAX, None).unwrap(), 0);
        assert_eq!(count_all(&tree), 0);
        assert_eq!(count_all_rev(&tree), 0);
    }

    {
        let tree = open_tree(&folder);
        assert_eq!(tree.len(u64::MAX, None).unwrap(), 0);
        assert_eq!(count_all(&tree), 0);
        assert_eq!(count_all_rev(&tree), 0);
    }
}

#[test]
fn tree_segment_reload() {
    let folder = tempfile::tempdir().unwrap();

    {
        let tree = open_tree(&folder);

        for x in 0..ITEM_COUNT as u64 {
            let key = x.to_be_bytes();
            let value = x.wrapping_mul(1024).to_be_bytes();
            let _ = tree.insert(key.as_slice(), value.as_slice(), x);
        }

        tree.flush_active_memtable(0).unwrap();

        for x in 0..ITEM_COUNT as u64 {
            let key = (x + ITEM_COUNT as u64).to_be_bytes();
            let value = x.wrapping_mul(1024).to_be_bytes();
            let _ = tree.insert(key.as_slice(), value.as_slice(), x + ITEM_COUNT as u64);
        }

        assert_eq!(tree.len(u64::MAX, None).unwrap(), ITEM_COUNT * 2);
        assert_eq!(count_all(&tree), ITEM_COUNT * 2);
        assert_eq!(count_all_rev(&tree), ITEM_COUNT * 2);

        tree.flush_active_memtable(0).unwrap();
    }

    {
        let tree = open_tree(&folder);
        assert_eq!(tree.len(u64::MAX, None).unwrap(), ITEM_COUNT * 2);
        assert_eq!(count_all(&tree), ITEM_COUNT * 2);
        assert_eq!(count_all_rev(&tree), ITEM_COUNT * 2);
    }
}
