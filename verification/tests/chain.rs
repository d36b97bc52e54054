use xchain::blockcfg::{Block, BlockHash, GenesisData, Header};
use xchain::blockchain::Blockchain;
use xchain::storage::{restore_chain_state, Storage};

const G: BlockHash = 100;

fn block(hash: BlockHash, parent: BlockHash, date: u64) -> Block {
    Block { header: Header { hash, parent, date } }
}

fn fresh_chain() -> Blockchain {
    Blockchain::from_storage(GenesisData { genesis_prev: G }, Storage::new(G))
}

#[test]
fn boot_over_empty_storage_sits_at_genesis() {
    let bc = fresh_chain();
    assert_eq!(bc.get_chain_length(), 0);
    assert_eq!(bc.get_genesis_hash(), G);
    assert!(bc.block_exists(G));
    assert!(!bc.block_exists(1));
}

#[test]
fn end_to_end_scenario() {
    let mut bc = fresh_chain();

    // deliver B1 with parent G, length 1: the tip becomes B1
    bc.handle_incoming_block(block(1, G, 10));
    assert_eq!(bc.get_tip(), (1, 10));
    assert_eq!(bc.get_chain_length(), 1);

    // deliver B2 with parent G, length 1: a tie never switches, but B2
    // is stored non-canonically
    bc.handle_incoming_block(block(2, G, 11));
    assert_eq!(bc.get_tip(), (1, 10));
    assert_eq!(bc.get_chain_length(), 1);
    assert!(bc.block_exists(2));

    // deliver B3 with parent B2: the chain G -> B2 -> B3 has length 2,
    // strictly longer, so the tip switches to B3
    bc.handle_incoming_block(block(3, 2, 12));
    assert_eq!(bc.get_tip(), (3, 12));
    assert_eq!(bc.get_chain_length(), 2);

    // a child of B1 arriving before its parent B4 is buffered, not
    // connected; once B4 arrives, the child connects automatically
    bc.handle_incoming_block(block(5, 4, 14));
    assert!(!bc.block_exists(5));
    bc.handle_incoming_block(block(4, 1, 13));
    assert!(bc.block_exists(4));
    assert!(bc.block_exists(5));
    // G -> B1 -> B4 -> B5 has length 3: the tip follows the cascade
    assert_eq!(bc.get_tip(), (5, 14));
    assert_eq!(bc.get_chain_length(), 3);
}

#[test]
fn delivery_order_does_not_change_the_final_tip() {
    let orders: [[u64; 4]; 4] = [[1, 2, 3, 4], [4, 3, 2, 1], [3, 1, 4, 2], [2, 4, 1, 3]];
    for order in orders.iter() {
        let mut bc = fresh_chain();
        for &h in order.iter() {
            // the chain is 1 <- 2 <- 3 <- 4, rooted at G
            let parent = if h == 1 { G } else { h - 1 };
            bc.handle_incoming_block(block(h, parent, h));
        }
        assert_eq!(bc.get_tip(), (4, 4));
        assert_eq!(bc.get_chain_length(), 4);
        for h in 1..5u64 {
            assert!(bc.block_exists(h));
        }
    }
}

#[test]
fn delivering_a_block_twice_changes_nothing() {
    let mut bc = fresh_chain();
    bc.handle_incoming_block(block(1, G, 10));
    bc.handle_incoming_block(block(2, 1, 11));
    assert_eq!(bc.get_tip(), (2, 11));

    // re-deliver the tip and a non-tip block: no change anywhere
    bc.handle_incoming_block(block(2, 1, 11));
    bc.handle_incoming_block(block(1, G, 10));
    assert_eq!(bc.get_tip(), (2, 11));
    assert_eq!(bc.get_chain_length(), 2);
    assert!(bc.take_solicitations().is_empty());
}

#[test]
fn tip_length_never_decreases() {
    let mut bc = fresh_chain();
    bc.handle_incoming_block(block(1, G, 1));
    bc.handle_incoming_block(block(2, 1, 2));
    assert_eq!(bc.get_chain_length(), 2);

    // a shorter fork arrives afterwards: stored, but the tip stands
    bc.handle_incoming_block(block(7, G, 3));
    assert_eq!(bc.get_tip(), (2, 2));
    assert_eq!(bc.get_chain_length(), 2);
    assert!(bc.block_exists(7));

    // an equally long fork arrives: still no switch
    bc.handle_incoming_block(block(8, 7, 4));
    assert_eq!(bc.get_tip(), (2, 2));
    assert_eq!(bc.get_chain_length(), 2);
}

#[test]
fn orphan_is_buffered_and_parent_solicited_once() {
    let mut bc = fresh_chain();
    bc.handle_incoming_block(block(2, 1, 12));
    assert!(!bc.block_exists(2));
    // the same orphan again, and a sibling orphan: the missing parent
    // is solicited on its first sighting only
    bc.handle_incoming_block(block(2, 1, 12));
    bc.handle_incoming_block(block(3, 1, 13));
    assert_eq!(bc.take_solicitations(), vec![1]);
    assert!(bc.take_solicitations().is_empty());

    // the parent arrives: both children connect, exactly once each
    bc.handle_incoming_block(block(1, G, 11));
    assert!(bc.block_exists(1));
    assert!(bc.block_exists(2));
    assert!(bc.block_exists(3));
    // chains G->1->2 and G->1->3 tie at length 2; the first child wins
    assert_eq!(bc.get_chain_length(), 2);
    assert_eq!(bc.get_tip(), (2, 12));
}

#[test]
fn orphan_chain_resolves_through_cascade() {
    let mut bc = fresh_chain();
    // a whole chain arrives child-first: everything waits on block 1
    bc.handle_incoming_block(block(4, 3, 4));
    bc.handle_incoming_block(block(3, 2, 3));
    bc.handle_incoming_block(block(2, 1, 2));
    assert_eq!(bc.get_chain_length(), 0);
    assert_eq!(bc.take_solicitations(), vec![3, 2, 1]);
    bc.handle_incoming_block(block(1, G, 1));
    assert_eq!(bc.get_tip(), (4, 4));
    assert_eq!(bc.get_chain_length(), 4);
}

#[test]
fn boot_reads_the_persisted_tip_tag() {
    let mut s = Storage::new(G);
    s.block_write(block(1, G, 10));
    s.block_write(block(2, 1, 11));
    s.tag_write(2);
    let bc = Blockchain::from_storage(GenesisData { genesis_prev: G }, s);
    assert_eq!(bc.get_tip(), (2, 11));
    assert_eq!(bc.get_chain_length(), 2);
    assert!(bc.block_exists(1));
}

#[test]
fn stored_blocks_survive_and_read_back() {
    let mut bc = fresh_chain();
    let b1 = block(1, G, 10);
    bc.handle_incoming_block(b1);
    let stored = bc.get_storage().block_read(1);
    assert_eq!(stored, Some(b1));
    assert_eq!(bc.get_storage().block_read(9), None);
    assert_eq!(bc.get_storage().tag_read(), Some(1));
}

#[test]
fn restore_walks_ancestry_exactly() {
    let mut s = Storage::new(G);
    s.block_write(block(1, G, 10));
    s.block_write(block(2, 1, 11));
    let gd = GenesisData { genesis_prev: G };

    let cs = restore_chain_state(&s, &gd, 2).unwrap();
    assert_eq!(cs.last_block, 2);
    assert_eq!(cs.last_date, Some(11));
    assert_eq!(cs.chain_length, 2);

    let root = restore_chain_state(&s, &gd, G).unwrap();
    assert_eq!(root.last_block, G);
    assert_eq!(root.last_date, None);
    assert_eq!(root.chain_length, 0);

    // an unknown block has no restorable ancestry
    assert!(restore_chain_state(&s, &gd, 9).is_err());
}
