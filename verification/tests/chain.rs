use columned::chain::{sorted_insert, Chain, IndexAndAlign, MAX_CHAIN_LENGTH};
use columned::{ChainNode, GuardedBuilder};

type Three<'x> = Chain<'x, u16, Chain<'x, u64, Chain<'x, u8, ()>>>;
type EqualAligns<'x> = Chain<'x, u32, Chain<'x, u8, Chain<'x, u32, ()>>>;

fn entry(index: usize, align: usize) -> IndexAndAlign {
    IndexAndAlign { index, align }
}

#[test]
fn sorted_insert_places_after_larger_or_equal_alignments() {
    let unused = entry(usize::MAX, 0);
    let data = [entry(0, 8), entry(1, 4), entry(2, 2), unused, unused];
    let r = sorted_insert(3, entry(3, 4), data);
    assert_eq!(r, [entry(0, 8), entry(1, 4), entry(3, 4), entry(2, 2), unused]);
    let r = sorted_insert(3, entry(3, 16), data);
    assert_eq!(r, [entry(3, 16), entry(0, 8), entry(1, 4), entry(2, 2), unused]);
    let r = sorted_insert(3, entry(3, 1), data);
    assert_eq!(r, [entry(0, 8), entry(1, 4), entry(2, 2), entry(3, 1), unused]);
    let r = sorted_insert(0, entry(0, 2), [unused; 2]);
    assert_eq!(r, [entry(0, 2), unused]);
}

#[test]
fn chain_of_no_link() {
    assert_eq!(<() as ChainNode>::index(), usize::MAX);
    assert_eq!(<() as ChainNode>::max_alignment(), 1);
    assert_eq!(<() as ChainNode>::sorted_indices_and_aligns(), [entry(usize::MAX, 0); MAX_CHAIN_LENGTH]);
}

#[test]
fn chain_indices_alignment_and_table() {
    let mut a: GuardedBuilder<[u8]> = GuardedBuilder::new_slice(3);
    let mut b: GuardedBuilder<[u64]> = GuardedBuilder::new_slice(2);
    let mut c: GuardedBuilder<[u16]> = GuardedBuilder::new_slice(5);
    {
        let mut chain = Chain::new(&mut c, Chain::new(&mut b, Chain::new(&mut a, ())));
        assert_eq!(Three::index(), 2);
        assert_eq!(Three::max_alignment(), std::mem::align_of::<u64>());
        let table = Three::sorted_indices_and_aligns();
        let au64 = std::mem::align_of::<u64>();
        let au16 = std::mem::align_of::<u16>();
        assert_eq!(table[0], entry(1, au64));
        assert_eq!(table[1], entry(2, au16));
        assert_eq!(table[2], entry(0, 1));
        assert!(table[3..].iter().all(|e| *e == entry(usize::MAX, 0)));

        let mut sizes = [0usize; 4];
        chain.populate_sizes(&mut sizes);
        assert_eq!(sizes, [3, 16, 10, 0]);
        chain.distribute_pointers(&[100, 200, 300]);
    }
    assert_eq!(a.allocated_at(), Some(100));
    assert_eq!(b.allocated_at(), Some(200));
    assert_eq!(c.allocated_at(), Some(300));
}

#[test]
fn equal_alignments_keep_chain_order() {
    let table = EqualAligns::sorted_indices_and_aligns();
    let au32 = std::mem::align_of::<u32>();
    assert_eq!(table[0], entry(0, au32));
    assert_eq!(table[1], entry(2, au32));
    assert_eq!(table[2], entry(1, 1));
    assert_eq!(EqualAligns::index(), 2);
}
