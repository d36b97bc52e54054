//! The chain manager: turns a stream of incoming blocks into a single
//! canonical tip.
//!
//! Fork choice is by chain length alone, and strictly: a candidate chain
//! replaces the tip exactly when it is longer than the current one, so a
//! tie never causes a switch and the tip's length never decreases. A
//! block whose parent is not yet on hand is buffered under the missing
//! parent's hash, and a solicitation for that parent is emitted on its
//! first sighting; when the parent connects, the buffered children are
//! connected through the same procedure, cascading through an explicit
//! work queue. Every connected block is persisted whether or not it
//! becomes canonical, so a non-canonical fork stays available for a later
//! reorganisation.

use vstd::prelude::*;
use std::collections::HashMap;
use crate::blockcfg::{Block, BlockDate, BlockHash, ChainState, GenesisData};
use crate::storage::{
    height_fuel, height_of, lemma_height_fuel_mono, restore_chain_state, Storage,
};

verus! {

broadcast use vstd::std_specs::hash::group_hash_axioms;

/// Whether the buffered children list `l` holds a block of hash `h`.
pub open spec fn orphan_list_has(l: Seq<Block>, h: BlockHash) -> bool {
    exists|i: int| 0 <= i < l.len() && l[i].header.hash == h
}

/// What connecting block `b` does to the tip when the chain ending at
/// `b` has length `new_len` and `b`'s stored date is `date`: a switch
/// exactly when `b` is not already the tip and the candidate chain is
/// strictly longer.
pub open spec fn connect_decision(
    pre: ChainState,
    new_len: nat,
    b: Block,
    date: BlockDate,
) -> ChainState {
    if b.header.hash == pre.last_block {
        pre
    } else if new_len > pre.chain_length {
        ChainState {
            last_block: b.header.hash,
            last_date: Some(date),
            chain_length: new_len as u64,
        }
    } else {
        pre
    }
}

/// Whether that connection switches the tip.
pub open spec fn connect_switches(pre: ChainState, new_len: nat, b: Block) -> bool {
    b.header.hash != pre.last_block && new_len > pre.chain_length
}

/// Exactly what connecting the single block `b` (no cascade) does to the
/// store and the tip: a block that already is the tip is left alone;
/// otherwise it is persisted append-only, and the tip and the persisted
/// tip tag move to it iff the chain ending at it is strictly longer.
pub open spec fn connect_step_exact(pre: Blockchain, post: Blockchain, b: Block) -> bool {
    &&& post.store().blocks() == (if b.header.hash == pre.chain().last_block
        || pre.store().has_block(b.header.hash) {
        pre.store().blocks()
    } else {
        pre.store().blocks().insert(b.header.hash, b)
    })
    &&& (b.header.hash == pre.chain().last_block ==> post.chain() == pre.chain()
        && post.store().tag() == pre.store().tag())
    &&& (b.header.hash != pre.chain().last_block ==> {
        let new_len = post.store().height(b.header.hash)->Some_0;
        let date = post.store().blocks()[b.header.hash].header.date;
        &&& post.chain() == connect_decision(pre.chain(), new_len, b, date)
        &&& post.store().tag() == (if connect_switches(pre.chain(), new_len, b) {
            Some(b.header.hash)
        } else {
            pre.store().tag()
        })
    })
}

/// The chain manager's state: the genesis configuration, the block
/// store, the summary of the canonical chain, the buffer of blocks whose
/// parent has not arrived yet (keyed by the missing parent's hash), and
/// the solicitations emitted for missing parents and not yet taken by
/// the network worker.
pub struct Blockchain {
    genesis_data: GenesisData,
    storage: Storage,
    chain_state: ChainState,
    unconnected_blocks: HashMap<BlockHash, Vec<Block>>,
    solicited: Vec<BlockHash>,
}

impl Blockchain {
    /// The genesis hash every chain is rooted at.
    pub closed spec fn genesis(&self) -> BlockHash {
        self.genesis_data.genesis_prev
    }

    /// The block store.
    pub closed spec fn store(&self) -> Storage {
        self.storage
    }

    /// The current canonical chain summary.
    pub closed spec fn chain(&self) -> ChainState {
        self.chain_state
    }

    /// The orphan buffer: children waiting, keyed by missing parent.
    pub closed spec fn orphans(&self) -> Map<BlockHash, Vec<Block>> {
        self.unconnected_blocks@
    }

    /// Solicitations emitted and not yet taken, oldest first.
    pub closed spec fn solicitations(&self) -> Seq<BlockHash> {
        self.solicited@
    }

    /// The storage-facing invariant: the store is well formed and rooted
    /// at this manager's genesis; the tip names a present block whose
    /// height is exactly `chain_length`, with its stored date (`None`
    /// exactly at the genesis root); and no stored block is higher than
    /// the tip — the tip is a longest stored chain.
    pub open spec fn chain_wf(&self) -> bool {
        &&& self.store().wf()
        &&& self.store().genesis() == self.genesis()
        &&& self.store().block_present(self.chain().last_block)
        &&& self.store().height(self.chain().last_block) == Some(self.chain().chain_length as nat)
        &&& if self.chain().last_block == self.genesis() {
            self.chain().last_date is None
        } else {
            &&& self.store().has_block(self.chain().last_block)
            &&& self.chain().last_date == Some(
                self.store().blocks()[self.chain().last_block].header.date,
            )
        }
        &&& forall|h: BlockHash|
            #[trigger] self.store().has_block(h) ==> self.store().height(h)->Some_0
                <= self.chain().chain_length
    }

    /// One orphan list is structurally sound: nonempty (an entry exists
    /// only while someone waits), every child actually declares `p` as
    /// its parent, and no child hash repeats (a duplicate orphan for the
    /// same parent is kept once).
    pub open spec fn orphan_list_wf(&self, p: BlockHash) -> bool {
        let l = self.orphans()[p]@;
        &&& l.len() >= 1
        &&& forall|i: int| 0 <= i < l.len() ==> (#[trigger] l[i]).header.parent == p
        &&& forall|i: int, j: int|
            0 <= i < j < l.len() ==> l[i].header.hash != l[j].header.hash
    }

    /// The orphan buffer is structurally sound, and only waits on blocks
    /// that are genuinely missing: a buffered key never names a present
    /// block (once the block arrives, its children are taken out and
    /// connected).
    pub open spec fn orphans_wf(&self) -> bool {
        &&& forall|p: BlockHash|
            #[trigger] self.orphans().contains_key(p) ==> self.orphan_list_wf(p)
        &&& forall|p: BlockHash|
            #[trigger] self.orphans().contains_key(p) ==> !self.store().block_present(p)
    }

    pub open spec fn wf(&self) -> bool {
        self.chain_wf() && self.orphans_wf()
    }

    /// Return the current tip hash and date.
    pub fn get_tip(&self) -> (r: (BlockHash, BlockDate))
        requires
            self.chain().last_date is Some,
        ensures
            r.0 == self.chain().last_block,
            r.1 == self.chain().last_date->Some_0,
    {
        let date = match self.chain_state.last_date {
            Some(d) => d,
            None => 0,  // unreachable under the precondition
        };
        (self.chain_state.last_block, date)
    }

    /// The current canonical chain length (blocks from genesis to the
    /// tip, inclusive).
    pub fn get_chain_length(&self) -> (r: u64)
        ensures
            r == self.chain().chain_length,
    {
        self.chain_state.chain_length
    }

    pub fn get_storage(&self) -> (r: &Storage)
        ensures
            *r == self.store(),
    {
        &self.storage
    }

    pub fn get_genesis_hash(&self) -> (r: BlockHash)
        ensures
            r == self.genesis(),
    {
        self.genesis_data.genesis_prev
    }

    /// Whether `block_hash` names a block whose whole ancestry is on
    /// hand: a stored block (whose ancestors are stored too, by the
    /// storage invariant), or the genesis root itself.
    pub fn block_exists(&self, block_hash: BlockHash) -> (r: bool)
        requires
            self.chain_wf(),
        ensures
            r == self.store().block_present(block_hash),
    {
        block_hash == self.storage.genesis_hash() || self.storage.contains(block_hash)
    }

    /// Request a missing block from the network: the request queues up
    /// for the network worker, which takes and performs it.
    fn sollicit_block(&mut self, block_hash: BlockHash)
        ensures
            final(self).solicitations() == old(self).solicitations().push(block_hash),
            final(self).store() == old(self).store(),
            final(self).chain() == old(self).chain(),
            final(self).orphans() == old(self).orphans(),
            final(self).genesis() == old(self).genesis(),
    {
        self.solicited.push(block_hash);
    }

    /// Hand the solicitations emitted so far to the network worker, in
    /// emission order, leaving none pending.
    pub fn take_solicitations(&mut self) -> (r: Vec<BlockHash>)
        ensures
            r@ == old(self).solicitations(),
            final(self).solicitations() == Seq::<BlockHash>::empty(),
            final(self).store() == old(self).store(),
            final(self).chain() == old(self).chain(),
            final(self).orphans() == old(self).orphans(),
            final(self).genesis() == old(self).genesis(),
    {
        let mut taken: Vec<BlockHash> = Vec::new();
        core::mem::swap(&mut self.solicited, &mut taken);
        taken
    }

    /// Remove and return the children buffered under `h`, if any.
    fn take_children(&mut self, h: BlockHash) -> (r: Vec<Block>)
        ensures
            final(self).store() == old(self).store(),
            final(self).chain() == old(self).chain(),
            final(self).solicitations() == old(self).solicitations(),
            final(self).genesis() == old(self).genesis(),
            old(self).orphans().contains_key(h) ==> r@ == old(self).orphans()[h]@
                && final(self).orphans() == old(self).orphans().remove(h),
            !old(self).orphans().contains_key(h) ==> r@ == Seq::<Block>::empty()
                && final(self).orphans() == old(self).orphans(),
    {
        match self.unconnected_blocks.remove(&h) {
            Some(children) => children,
            None => Vec::new(),
        }
    }

    /// Buffer `b` under its missing parent `parent`, keeping at most one
    /// child per hash: a repeated orphan changes nothing.
    fn buffer_orphan(&mut self, parent: BlockHash, b: Block)
        requires
            b.header.parent == parent,
            forall|p: BlockHash|
                #[trigger] old(self).orphans().contains_key(p) ==> old(self).orphan_list_wf(p),
        ensures
            final(self).store() == old(self).store(),
            final(self).chain() == old(self).chain(),
            final(self).solicitations() == old(self).solicitations(),
            final(self).genesis() == old(self).genesis(),
            final(self).orphans().dom() == old(self).orphans().dom().insert(parent),
            forall|q: BlockHash|
                q != parent && #[trigger] old(self).orphans().contains_key(q)
                    ==> final(self).orphans()[q] == old(self).orphans()[q],
            final(self).orphans()[parent]@ == if old(self).orphans().contains_key(parent) {
                if orphan_list_has(old(self).orphans()[parent]@, b.header.hash) {
                    old(self).orphans()[parent]@
                } else {
                    old(self).orphans()[parent]@.push(b)
                }
            } else {
                seq![b]
            },
            forall|p: BlockHash|
                #[trigger] final(self).orphans().contains_key(p) ==> final(self).orphan_list_wf(p),
    {
        let ghost pre = self.unconnected_blocks@;
        let mut children = match self.unconnected_blocks.remove(&parent) {
            Some(children) => children,
            None => Vec::new(),
        };
        let n = children.len();
        let mut i: usize = 0;
        let mut found = false;
        while i < n
            invariant
                i <= n,
                n == children@.len(),
                found <==> orphan_list_has(children@.take(i as int), b.header.hash),
            decreases n - i,
        {
            let hit = children[i].header.compute_hash() == b.header.compute_hash();
            if hit {
                found = true;
            }
            proof {
                let t0 = children@.take(i as int);
                let t1 = children@.take(i + 1);
                assert(t1 == t0.push(children@[i as int]));
                if hit {
                    assert(t1[i as int].header.hash == b.header.hash);
                    assert(orphan_list_has(t1, b.header.hash));
                } else {
                    if orphan_list_has(t0, b.header.hash) {
                        let w = choose|w: int|
                            0 <= w < t0.len() && t0[w].header.hash == b.header.hash;
                        assert(t1[w].header.hash == b.header.hash);
                        assert(orphan_list_has(t1, b.header.hash));
                    }
                    if orphan_list_has(t1, b.header.hash) {
                        let w = choose|w: int|
                            0 <= w < t1.len() && t1[w].header.hash == b.header.hash;
                        if w == i {
                            assert(false);
                        } else {
                            assert(t0[w] == t1[w]);
                            assert(orphan_list_has(t0, b.header.hash));
                        }
                    }
                }
            }
            i = i + 1;
        }
        proof {
            assert(children@.take(n as int) == children@);
        }
        if !found {
            children.push(b);
        }
        self.unconnected_blocks.insert(parent, children);
        proof {
            assert(self.unconnected_blocks@.dom() =~= pre.dom().insert(parent));
            if !pre.contains_key(parent) {
                assert(children@.len() >= 1);
            }
            assert forall|p: BlockHash| #[trigger] self.unconnected_blocks@.contains_key(
                p,
            ) implies self.orphan_list_wf(p) by {
                if p != parent {
                    assert(pre.contains_key(p));
                    assert(old(self).orphan_list_wf(p));
                    assert(self.unconnected_blocks@[p] == pre[p]);
                } else {
                    let l0 = if pre.contains_key(parent) {
                        pre[parent]@
                    } else {
                        Seq::<Block>::empty()
                    };
                    if pre.contains_key(parent) {
                        assert(old(self).orphan_list_wf(parent));
                    }
                    if !found && pre.contains_key(parent) {
                        assert forall|x: int, y: int|
                            0 <= x < y < self.unconnected_blocks@[p]@.len() implies self.unconnected_blocks@[p]@[x].header.hash
                            != self.unconnected_blocks@[p]@[y].header.hash by {
                            let l = self.unconnected_blocks@[p]@;
                            if y == l.len() - 1 {
                                assert(!orphan_list_has(l0, b.header.hash));
                                assert(l[x] == l0[x]);
                            }
                        }
                    }
                }
            }
        }
    }

    /// Connect one block whose ancestry is on hand: persist it (append
    /// only), ask the restore collaborator for the chain state ending at
    /// it, and adopt that state exactly when it is strictly longer than
    /// the current tip's — a tie or a shorter fork is discarded, though
    /// the block stays stored. A block that already is the tip is left
    /// entirely alone.
    fn connect_step(&mut self, b: Block)
        requires
            old(self).chain_wf(),
            old(self).store().block_present(b.header.parent),
        ensures
            final(self).chain_wf(),
            final(self).genesis() == old(self).genesis(),
            final(self).orphans() == old(self).orphans(),
            final(self).solicitations() == old(self).solicitations(),
            final(self).store().block_present(b.header.hash),
            forall|x: BlockHash|
                #[trigger] old(self).store().height(x) is Some ==> final(self).store().height(x)
                    == old(self).store().height(x),
            connect_step_exact(*old(self), *final(self), b),
            final(self).store().genesis() == old(self).store().genesis(),
            final(self).chain().chain_length >= old(self).chain().chain_length,
            final(self).chain() == old(self).chain() || final(self).chain().chain_length > old(self).chain().chain_length,
    {
        let block_hash = b.get_header().compute_hash();
        if block_hash != self.chain_state.last_block {
            let ghost pre_store = self.storage;
            self.storage.block_write(b);
            match restore_chain_state(&self.storage, &self.genesis_data, block_hash) {
                Ok(new_chain_state) => {
                    proof {
                        if block_hash == self.genesis_data.genesis_prev {
                            assert(self.storage.height(block_hash) == Some(0nat));
                        }
                    }
                    if new_chain_state.chain_length > self.chain_state.chain_length {
                        self.chain_state = new_chain_state;
                        self.storage.tag_write(block_hash);
                        proof {
                            let post = self.storage;
                            let new_len = post.height(block_hash)->Some_0;
                            assert forall|x: BlockHash| #[trigger] post.has_block(
                                x,
                            ) implies post.height(x)->Some_0 <= self.chain_state.chain_length by {
                                if x == b.header.hash {
                                } else {
                                    assert(pre_store.has_block(x));
                                    assert(pre_store.height(x) is Some);
                                    assert(post.height(x) == pre_store.height(x));
                                    assert(pre_store.height(x)->Some_0
                                        <= old(self).chain().chain_length);
                                }
                            }
                        }
                    } else {
                        proof {
                            let post = self.storage;
                            assert(pre_store.height(old(self).chain().last_block) is Some);
                            assert(post.height(old(self).chain().last_block) == pre_store.height(
                                old(self).chain().last_block,
                            ));
                            if old(self).chain().last_block != self.genesis_data.genesis_prev {
                                assert(post.blocks()[old(self).chain().last_block]
                                    == pre_store.blocks()[old(self).chain().last_block]);
                            }
                            assert forall|x: BlockHash| #[trigger] post.has_block(
                                x,
                            ) implies post.height(x)->Some_0 <= self.chain_state.chain_length by {
                                if x == b.header.hash {
                                } else {
                                    assert(pre_store.has_block(x));
                                    assert(pre_store.height(x) is Some);
                                    assert(post.height(x) == pre_store.height(x));
                                }
                            }
                        }
                    }
                },
                Err(_) => {
                    proof {
                        // the block's ancestry was just persisted in full, so
                        // the restore cannot fail on it
                        assert(self.storage.height(block_hash) is Some);
                        assert(false);
                    }
                },
            }
        }
    }

    /// Connect a block whose ancestors are on hand, then connect every
    /// buffered descendant this unblocks, through an explicit work
    /// queue: each newly connected block frees the children buffered
    /// under its hash, and each child is evaluated independently by the
    /// same single-block procedure.
    fn handle_connected_block(&mut self, block_hash: BlockHash, block: Block)
        requires
            old(self).wf(),
            block_hash == block.header.hash,
            old(self).store().block_present(block.header.parent),
        ensures
            final(self).wf(),
            final(self).genesis() == old(self).genesis(),
            final(self).store().genesis() == old(self).store().genesis(),
            final(self).solicitations() == old(self).solicitations(),
            final(self).store().block_present(block_hash),
            forall|h: BlockHash|
                #[trigger] old(self).store().has_block(h) ==> final(self).store().has_block(h)
                    && final(self).store().blocks()[h] == old(self).store().blocks()[h],
            forall|x: BlockHash|
                #[trigger] old(self).store().height(x) is Some ==> final(self).store().height(x)
                    == old(self).store().height(x),
            final(self).chain().chain_length >= old(self).chain().chain_length,
            final(self).chain() == old(self).chain() || final(self).chain().chain_length > old(self).chain().chain_length,
            forall|p: BlockHash|
                #[trigger] final(self).orphans().contains_key(p) ==> old(self).orphans().contains_key(p) && final(self).orphans()[p] == old(self).orphans()[p],
            !old(self).orphans().contains_key(block_hash) ==> final(self).orphans() == old(self).orphans() && connect_step_exact(*old(self), *final(self), block),
            old(self).store().has_block(block_hash) && old(self).store().blocks()[block_hash]
                == block ==> {
                &&& final(self).store().blocks() == old(self).store().blocks()
                &&& final(self).store().tag() == old(self).store().tag()
                &&& final(self).chain() == old(self).chain()
                &&& final(self).orphans() == old(self).orphans()
            },
            // resolution is complete: every child that was waiting on
            // this block ends up connected
            old(self).orphans().contains_key(block_hash) ==> forall|i: int|
                0 <= i < old(self).orphans()[block_hash]@.len() ==> final(self).store().block_present(
                    (#[trigger] old(self).orphans()[block_hash]@[i]).header.hash,
                ),
    {
        self.connect_step(block);
        let mut queue: Vec<Block> = self.take_children(block_hash);
        let ghost mid = *self;
        let ghost kids0 = queue@;
        proof {
            if old(self).store().has_block(block_hash) && old(self).store().blocks()[block_hash]
                == block {
                // a connected block is never an orphan key, so nothing was
                // buffered under it and the step left everything alone
                assert(!old(self).orphans().contains_key(block_hash));
                assert(old(self).store().height(block_hash)->Some_0
                    <= old(self).chain().chain_length);
            }
        }
        while queue.len() > 0
            invariant
                self.chain_wf(),
                self.orphans_wf(),
                self.genesis() == old(self).genesis(),
                self.store().genesis() == old(self).store().genesis(),
                self.solicitations() == old(self).solicitations(),
                self.store().block_present(block_hash),
                forall|i: int|
                    0 <= i < queue@.len() ==> self.store().block_present(
                        (#[trigger] queue@[i]).header.parent,
                    ),
                forall|h: BlockHash|
                    #[trigger] old(self).store().has_block(h) ==> self.store().has_block(h)
                        && self.store().blocks()[h] == old(self).store().blocks()[h],
                forall|x: BlockHash|
                    #[trigger] old(self).store().height(x) is Some ==> self.store().height(x)
                        == old(self).store().height(x),
                self.chain().chain_length >= old(self).chain().chain_length,
                self.chain() == old(self).chain() || self.chain().chain_length > old(self).chain().chain_length,
                forall|p: BlockHash|
                    #[trigger] self.orphans().contains_key(p) ==> old(self).orphans().contains_key(p) && self.orphans()[p] == old(self).orphans()[p],
                !old(self).orphans().contains_key(block_hash) ==> *self == mid && queue@.len()
                    == 0,
                forall|i: int|
                    0 <= i < kids0.len() ==> self.store().block_present(
                        (#[trigger] kids0[i]).header.hash,
                    ) || exists|j: int| 0 <= j < queue@.len() && queue@[j] == kids0[i],
            decreases self.orphans().dom().len(), queue@.len(),
        {
            let ghost queue_start = queue@;
            let b = queue.remove(0);
            let ghost pre_iter = *self;
            self.connect_step(b);
            let child_hash = b.get_header().compute_hash();
            let mut more = self.take_children(child_hash);
            proof {
                let post_step = *self;
                if pre_iter.orphans().contains_key(child_hash) {
                    assert(post_step.orphans().dom().remove(child_hash) =~= self.orphans().dom());
                }
                assert forall|p: BlockHash| #[trigger] self.orphans().contains_key(p) implies !self.store().block_present(
                    p,
                ) && self.orphan_list_wf(p) by {
                    assert(pre_iter.orphans().contains_key(p));
                    assert(pre_iter.orphan_list_wf(p));
                    assert(p != b.header.hash);
                    assert(!pre_iter.store().block_present(p));
                }
                assert forall|i: int| 0 <= i < more@.len() implies (#[trigger] more@[i]).header.parent
                    == child_hash by {
                    if pre_iter.orphans().contains_key(child_hash) {
                        assert(pre_iter.orphan_list_wf(child_hash));
                    }
                }
            }
            let ghost more0 = more@;
            queue.append(&mut more);
            proof {
                assert forall|x: BlockHash| pre_iter.store().block_present(
                    x,
                ) implies self.store().block_present(x) by {}
                assert(queue_start.remove(0) =~= queue_start.drop_first());
                assert(queue@ == queue_start.drop_first() + more0);
                assert forall|i: int| 0 <= i < kids0.len() implies self.store().block_present(
                    (#[trigger] kids0[i]).header.hash,
                ) || exists|j: int| 0 <= j < queue@.len() && queue@[j] == kids0[i] by {
                    if pre_iter.store().block_present(kids0[i].header.hash) {
                    } else {
                        let j0 = choose|j0: int|
                            0 <= j0 < queue_start.len() && queue_start[j0] == kids0[i];
                        if j0 == 0 {
                            assert(b == kids0[i]);
                            assert(self.store().block_present(b.header.hash));
                        } else {
                            assert(queue@[j0 - 1] == queue_start[j0]);
                        }
                    }
                }
            }
        }
        proof {
            if !old(self).orphans().contains_key(block_hash) {
                assert(*self == mid);
            }
            if old(self).orphans().contains_key(block_hash) {
                assert(kids0 == old(self).orphans()[block_hash]@);
            }
        }
    }

    /// Whether any orphans are buffered waiting on `h`.
    fn has_orphans_for(&self, h: BlockHash) -> (r: bool)
        ensures
            r == self.orphans().contains_key(h),
    {
        self.unconnected_blocks.contains_key(&h)
    }

    /// Handle an incoming block, from the network or from this node's
    /// own leadership task: the sole mutation entry point. A block whose
    /// parent is on hand is connected, cascading through any buffered
    /// descendants it unblocks; a block whose parent is missing is
    /// buffered under that parent's hash, and a solicitation for the
    /// parent is emitted on the first sighting of that missing parent
    /// only. A block already handled changes nothing when it comes
    /// again.
    pub fn handle_incoming_block(&mut self, block: Block)
        requires
            old(self).wf(),
        ensures
            final(self).wf(),
            final(self).genesis() == old(self).genesis(),
            // the canonical chain never shrinks, and the tip moves only
            // to a strictly longer chain
            final(self).chain().chain_length >= old(self).chain().chain_length,
            final(self).chain() == old(self).chain() || final(self).chain().chain_length > old(self).chain().chain_length,
            // storage is append-only
            forall|h: BlockHash|
                #[trigger] old(self).store().has_block(h) ==> final(self).store().has_block(h)
                    && final(self).store().blocks()[h] == old(self).store().blocks()[h],
            // parent on hand: the block gets connected, orphans only
            // resolve, nothing is solicited; with nothing buffered under
            // it, the whole effect is the single connection step
            old(self).store().block_present(block.header.parent) ==> {
                &&& final(self).store().block_present(block.header.hash)
                &&& final(self).solicitations() == old(self).solicitations()
                &&& forall|p: BlockHash|
                    #[trigger] final(self).orphans().contains_key(p) ==> old(self).orphans().contains_key(p) && final(self).orphans()[p] == old(self).orphans()[p]
                &&& (!old(self).orphans().contains_key(block.header.hash) ==> final(self).orphans() == old(self).orphans() && connect_step_exact(
                    *old(self),
                    *final(self),
                    block,
                ))
            },
            // parent missing: nothing connects; the block is buffered
            // under its parent, once per child hash, and the parent is
            // solicited exactly on its first sighting
            !old(self).store().block_present(block.header.parent) ==> {
                &&& final(self).store().blocks() == old(self).store().blocks()
                &&& final(self).store().tag() == old(self).store().tag()
                &&& final(self).chain() == old(self).chain()
                &&& final(self).orphans().dom() == old(self).orphans().dom().insert(
                    block.header.parent,
                )
                &&& forall|q: BlockHash|
                    q != block.header.parent && #[trigger] old(self).orphans().contains_key(q)
                        ==> final(self).orphans()[q] == old(self).orphans()[q]
                &&& final(self).orphans()[block.header.parent]@ == (if old(self).orphans().contains_key(block.header.parent) {
                    if orphan_list_has(
                        old(self).orphans()[block.header.parent]@,
                        block.header.hash,
                    ) {
                        old(self).orphans()[block.header.parent]@
                    } else {
                        old(self).orphans()[block.header.parent]@.push(block)
                    }
                } else {
                    seq![block]
                })
                &&& final(self).solicitations() == (if old(self).orphans().contains_key(
                    block.header.parent,
                ) {
                    old(self).solicitations()
                } else {
                    old(self).solicitations().push(block.header.parent)
                })
            },
            // resolution is complete: when the block connects, every
            // child that was waiting on it ends up connected too
            old(self).store().block_present(block.header.parent) && old(self).orphans().contains_key(block.header.hash) ==> forall|i: int|
                0 <= i < old(self).orphans()[block.header.hash]@.len() ==> final(self).store().block_present(
                    (#[trigger] old(self).orphans()[block.header.hash]@[i]).header.hash,
                ),
            // re-delivery of a connected block is a no-op
            old(self).store().has_block(block.header.hash) && old(self).store().blocks()[block.header.hash]
                == block ==> {
                &&& final(self).store().blocks() == old(self).store().blocks()
                &&& final(self).store().tag() == old(self).store().tag()
                &&& final(self).chain() == old(self).chain()
                &&& final(self).orphans() == old(self).orphans()
                &&& final(self).solicitations() == old(self).solicitations()
            },
    {
        let block_hash = block.get_header().compute_hash();
        let parent_hash = block.get_header().get_previous_header();
        if self.block_exists(parent_hash) {
            self.handle_connected_block(block_hash, block);
            proof {
                if old(self).store().has_block(block.header.hash)
                    && old(self).store().blocks()[block.header.hash] == block {
                    assert(old(self).store().block_present(block.header.parent));
                }
            }
        } else {
            if !self.has_orphans_for(parent_hash) {
                self.sollicit_block(parent_hash);
            }
            self.buffer_orphan(parent_hash, block);
            proof {
                if old(self).store().has_block(block.header.hash)
                    && old(self).store().blocks()[block.header.hash] == block {
                    // a stored block's parent is present, so this branch
                    // cannot be the one taken for a re-delivery
                    assert(false);
                }
                assert forall|p: BlockHash| #[trigger] self.orphans().contains_key(
                    p,
                ) implies !self.store().block_present(p) by {
                    if p != block.header.parent {
                        assert(old(self).orphans().dom().contains(p));
                        assert(old(self).orphans().contains_key(p));
                    }
                }
            }
        }
    }

    /// The hash the boot tip is read from: the persisted tip tag, or the
    /// genesis hash when no tag was ever written.
    pub open spec fn boot_tip(storage: Storage) -> BlockHash {
        match storage.tag() {
            Some(t) => t,
            None => storage.genesis(),
        }
    }

    /// Open the chain manager over a store: read the persisted tip tag,
    /// falling back to the genesis hash if absent, and rebuild the chain
    /// state ending at that tip by replaying its ancestry. The store
    /// must be well formed and must hold no chain longer than the tagged
    /// tip's — which holds of every store this manager writes, since the
    /// tag moves with the longest chain seen.
    pub fn from_storage(genesis_data: GenesisData, storage: Storage) -> (r: Blockchain)
        requires
            storage.wf(),
            storage.genesis() == genesis_data.genesis_prev,
            forall|h: BlockHash|
                #[trigger] storage.has_block(h) ==> storage.height(h)->Some_0 <= storage.height(
                    Self::boot_tip(storage),
                )->Some_0,
        ensures
            r.wf(),
            r.genesis() == genesis_data.genesis_prev,
            r.store() == storage,
            r.chain().last_block == Self::boot_tip(storage),
            Some(r.chain().chain_length as nat) == storage.height(Self::boot_tip(storage)),
            r.orphans() == Map::<BlockHash, Vec<Block>>::empty(),
            r.solicitations() == Seq::<BlockHash>::empty(),
    {
        let tip = match storage.tag_read() {
            Some(t) => t,
            None => genesis_data.genesis_prev,
        };
        proof {
            if tip == storage.genesis() {
                assert(storage.height(tip) == Some(0nat));
            } else {
                assert(storage.has_block(tip));
                assert(storage.height(tip) is Some);
            }
        }
        let chain_state = match restore_chain_state(&storage, &genesis_data, tip) {
            Ok(cs) => cs,
            Err(_) => {
                // the tagged tip is present in a well-formed store, so its
                // ancestry is restorable
                proof {
                    assert(false);
                }
                ChainState { last_block: tip, last_date: None, chain_length: 0 }
            },
        };
        let r = Blockchain {
            genesis_data,
            storage,
            chain_state,
            unconnected_blocks: HashMap::new(),
            solicited: Vec::new(),
        };
        proof {
            assert(r.orphans() =~= Map::<BlockHash, Vec<Block>>::empty());
        }
        r
    }
}

/// The fork-choice outcome does not depend on arrival order: in every
/// reachable manager state the canonical tip is a longest stored chain —
/// no stored block sits higher than the tip, and the tip's own height is
/// exactly the canonical chain length. Once a set of blocks has been
/// fully connected (every delivery whose parent was on hand, including
/// the cascaded orphans), the tip's length therefore equals the length
/// of the longest chain among them, in whatever order they arrived.
pub proof fn lemma_tip_is_longest_chain(bc: &Blockchain)
    requires
        bc.wf(),
    ensures
        bc.store().height(bc.chain().last_block) == Some(bc.chain().chain_length as nat),
        forall|h: BlockHash|
            #[trigger] bc.store().has_block(h) ==> bc.store().height(h) is Some && bc.store().height(
                h,
            )->Some_0 <= bc.chain().chain_length,
{
}

/// Whether the store `m` holds exactly the linear chain `c`: the blocks
/// of `c` link parent to child from `genesis` up, each is stored under
/// its hash, and nothing else is stored.
pub open spec fn stored_chain(m: Map<BlockHash, Block>, genesis: BlockHash, c: Seq<Block>) -> bool {
    &&& forall|i: int| 0 <= i < c.len() ==> (#[trigger] c[i]).header.hash != genesis
    &&& forall|i: int|
        0 <= i < c.len() ==> m.contains_key((#[trigger] c[i]).header.hash)
            && m[c[i].header.hash] == c[i]
    &&& forall|i: int|
        0 <= i < c.len() ==> (#[trigger] c[i]).header.parent == (if i == 0 {
            genesis
        } else {
            c[i - 1].header.hash
        })
    &&& forall|k: BlockHash|
        #[trigger] m.contains_key(k) ==> exists|i: int| 0 <= i < c.len() && c[i].header.hash == k
}

/// Walking a stored linear chain measures each link's depth exactly.
proof fn lemma_stored_chain_heights(
    m: Map<BlockHash, Block>,
    genesis: BlockHash,
    c: Seq<Block>,
    i: int,
    fuel: nat,
)
    requires
        stored_chain(m, genesis, c),
        0 <= i < c.len(),
        fuel >= i + 1,
    ensures
        height_fuel(m, genesis, c[i].header.hash, fuel) == Some((i + 1) as nat),
    decreases i,
{
    if i == 0 {
        assert(height_fuel(m, genesis, genesis, (fuel - 1) as nat) == Some(0nat));
    } else {
        lemma_stored_chain_heights(m, genesis, c, i - 1, (fuel - 1) as nat);
    }
}

/// Orphan resolution is order-independent: once a linear chain of N
/// blocks has been fully connected — in whatever order its blocks
/// arrived, parent-before-child or not — the canonical tip is the
/// chain's deepest block and the canonical length is N, the same outcome
/// strict parent-before-child delivery produces.
pub proof fn lemma_delivered_chain_determines_the_tip(bc: &Blockchain, c: Seq<Block>)
    requires
        bc.wf(),
        stored_chain(bc.store().blocks(), bc.genesis(), c),
        c.len() > 0,
    ensures
        bc.chain().chain_length == c.len(),
        bc.chain().last_block == c[c.len() - 1].header.hash,
{
    let m = bc.store().blocks();
    let g = bc.genesis();
    let fuel0 = m.dom().len();
    // every link of the chain sits at its own depth, whatever fuel the
    // store's walk uses: a walk that ends agrees at every larger fuel
    assert forall|i: int| 0 <= i < c.len() implies height_of(m, g, (#[trigger] c[i]).header.hash)
        == Some((i + 1) as nat) by {
        let h = c[i].header.hash;
        let fuel1 = (i + 1) as nat;
        let big = if fuel0 >= fuel1 {
            fuel0
        } else {
            fuel1
        };
        lemma_stored_chain_heights(m, g, c, i, fuel1);
        lemma_height_fuel_mono(m, g, h, fuel1, big);
        assert(bc.store().has_block(h));
        assert(height_of(m, g, h) is Some);
        lemma_height_fuel_mono(m, g, h, fuel0, big);
    }
    // the deepest link bounds the tip from below ...
    let n = c.len() as int;
    assert(bc.store().has_block(c[n - 1].header.hash));
    assert(bc.chain().chain_length >= n);
    // ... and the tip is one of the links, so it is that deepest one
    let last = bc.chain().last_block;
    if last == g {
        assert(height_of(m, g, last) == Some(0nat));
        assert(false);
    }
    assert(bc.store().has_block(last));
    let i = choose|i: int| 0 <= i < c.len() && c[i].header.hash == last;
    assert(height_of(m, g, last) == Some((i + 1) as nat));
    assert(bc.chain().chain_length == i + 1);
}

} // verus!
