//! The block store the chain manager persists into, and the chain-state
//! restore function that replays ancestry out of it.
//!
//! The store keeps every block ever connected, keyed by its content hash,
//! together with a single tip tag naming the canonical tip. Its
//! well-formedness carries the load-bearing storage invariant of the
//! node: a stored block's ancestors up to genesis are stored too, so a
//! membership check can stand in for "ancestor chain complete" without
//! walking ancestors.

use vstd::prelude::*;
use std::collections::HashMap;
use crate::blockcfg::{Block, BlockHash, ChainState, GenesisData};
use crate::intercom::Error;

verus! {

broadcast use vstd::std_specs::hash::group_hash_axioms;

/// The number of blocks from genesis to `h` inclusive, following parent
/// pointers through `m`, with at most `fuel` lookups: `None` when the
/// ancestry does not reach `genesis` within `fuel` steps (a missing
/// ancestor, or a cycle).
pub open spec fn height_fuel(
    m: Map<BlockHash, Block>,
    genesis: BlockHash,
    h: BlockHash,
    fuel: nat,
) -> Option<nat>
    decreases fuel,
{
    if h == genesis {
        Some(0)
    } else if fuel == 0 {
        None
    } else if m.contains_key(h) {
        match height_fuel(m, genesis, m[h].header.parent, (fuel - 1) as nat) {
            Some(n) => Some((n + 1) as nat),
            None => None,
        }
    } else {
        None
    }
}

/// The chain length of `h` in `m`: `m.dom().len()` lookups always suffice
/// for an ancestry that reaches genesis at all, since it visits distinct
/// stored blocks.
pub open spec fn height_of(m: Map<BlockHash, Block>, genesis: BlockHash, h: BlockHash) -> Option<
    nat,
> {
    height_fuel(m, genesis, h, m.dom().len())
}

/// More fuel never changes a walk that already reaches genesis.
pub proof fn lemma_height_fuel_mono(
    m: Map<BlockHash, Block>,
    genesis: BlockHash,
    h: BlockHash,
    fuel1: nat,
    fuel2: nat,
)
    requires
        fuel1 <= fuel2,
        height_fuel(m, genesis, h, fuel1) is Some,
    ensures
        height_fuel(m, genesis, h, fuel2) == height_fuel(m, genesis, h, fuel1),
    decreases fuel1,
{
    if h == genesis {
    } else {
        lemma_height_fuel_mono(
            m,
            genesis,
            m[h].header.parent,
            (fuel1 - 1) as nat,
            (fuel2 - 1) as nat,
        );
    }
}

/// A walk that reaches genesis never looks up a key absent from `m`, so
/// adding a fresh key leaves it unchanged.
pub proof fn lemma_height_fuel_insert(
    m: Map<BlockHash, Block>,
    genesis: BlockHash,
    k: BlockHash,
    b: Block,
    h: BlockHash,
    fuel: nat,
)
    requires
        !m.contains_key(k),
        height_fuel(m, genesis, h, fuel) is Some,
    ensures
        height_fuel(m.insert(k, b), genesis, h, fuel) == height_fuel(m, genesis, h, fuel),
    decreases fuel,
{
    if h == genesis {
    } else {
        lemma_height_fuel_insert(m, genesis, k, b, m[h].header.parent, (fuel - 1) as nat);
    }
}

/// The store of the overall blockchain: every connected block, keyed by
/// its content hash, plus the persisted tip tag.
pub struct Storage {
    genesis: BlockHash,
    blocks: HashMap<BlockHash, Block>,
    tip_tag: Option<BlockHash>,
}

impl Storage {
    /// The hash the stored chains are rooted at.
    pub closed spec fn genesis(&self) -> BlockHash {
        self.genesis
    }

    /// Everything stored, by content hash.
    pub closed spec fn blocks(&self) -> Map<BlockHash, Block> {
        self.blocks@
    }

    /// The persisted tip tag, if one was ever written.
    pub closed spec fn tag(&self) -> Option<BlockHash> {
        self.tip_tag
    }

    pub open spec fn has_block(&self, h: BlockHash) -> bool {
        self.blocks().contains_key(h)
    }

    /// Whether `h` names a block whose full ancestry is on hand: either a
    /// stored block, or the genesis hash itself (the root every chain
    /// ends at, present by definition).
    pub open spec fn block_present(&self, h: BlockHash) -> bool {
        h == self.genesis() || self.has_block(h)
    }

    pub open spec fn height(&self, h: BlockHash) -> Option<nat> {
        height_of(self.blocks(), self.genesis(), h)
    }

    /// Every stored block sits under its own hash, its parent's ancestry
    /// is stored up to genesis, and the tip tag, if set, names a present
    /// block.
    pub open spec fn wf(&self) -> bool {
        &&& forall|h: BlockHash|
            #[trigger] self.has_block(h) ==> self.blocks()[h].header.hash == h
        &&& forall|h: BlockHash|
            #[trigger] self.has_block(h) ==> self.block_present(self.blocks()[h].header.parent)
        &&& forall|h: BlockHash| #[trigger] self.has_block(h) ==> self.height(h) is Some
        &&& match self.tag() {
            Some(t) => self.block_present(t),
            None => true,
        }
    }

    /// Open an empty store rooted at `genesis`: nothing written yet, no
    /// tip tag.
    pub fn new(genesis: BlockHash) -> (r: Storage)
        ensures
            r.wf(),
            r.genesis() == genesis,
            r.blocks() == Map::<BlockHash, Block>::empty(),
            r.tag() == Option::<BlockHash>::None,
    {
        let r = Storage { genesis, blocks: HashMap::new(), tip_tag: None };
        proof {
            assert(r.blocks() =~= Map::<BlockHash, Block>::empty());
        }
        r
    }

    pub fn genesis_hash(&self) -> (r: BlockHash)
        ensures
            r == self.genesis(),
    {
        self.genesis
    }

    /// Whether a block is stored under `h`.
    pub fn contains(&self, h: BlockHash) -> (r: bool)
        ensures
            r == self.has_block(h),
    {
        self.blocks.contains_key(&h)
    }

    /// Read a stored block back.
    pub fn block_read(&self, h: BlockHash) -> (r: Option<Block>)
        ensures
            match r {
                Some(b) => self.has_block(h) && b == self.blocks()[h],
                None => !self.has_block(h),
            },
    {
        match self.blocks.get(&h) {
            Some(b) => Some(*b),
            None => None,
        }
    }

    /// Write a block, keyed by its own hash. The store is append-only: a
    /// hash already written is left as it stands, so a rewrite of the
    /// same block changes nothing. Heights of blocks already reachable
    /// are untouched, and the written block's ancestry reaches genesis.
    pub fn block_write(&mut self, b: Block)
        requires
            old(self).wf(),
            old(self).block_present(b.header.parent),
        ensures
            final(self).wf(),
            final(self).genesis() == old(self).genesis(),
            final(self).tag() == old(self).tag(),
            final(self).blocks() == if old(self).has_block(b.header.hash) {
                old(self).blocks()
            } else {
                old(self).blocks().insert(b.header.hash, b)
            },
            forall|x: BlockHash|
                #[trigger] old(self).height(x) is Some ==> final(self).height(x) == old(
                    self,
                ).height(x),
            final(self).block_present(b.header.hash),
            final(self).height(b.header.hash) is Some,
            !old(self).has_block(b.header.hash) && b.header.hash != old(self).genesis()
                ==> final(self).height(b.header.hash) == Some(
                (old(self).height(b.header.parent)->Some_0 + 1) as nat,
            ),
    {
        let h = b.header.compute_hash();
        if !self.blocks.contains_key(&h) {
            let ghost m = self.blocks@;
            let ghost g = self.genesis;
            self.blocks.insert(h, b);
            proof {
                let m2 = self.blocks@;
                assert(m2 == m.insert(h, b));
                assert(m2.dom() =~= m.dom().insert(h));
                assert(m2.dom().len() == m.dom().len() + 1);
                let fuel = m.dom().len();
                let fuel2 = m2.dom().len();
                // heights of blocks reachable before are unchanged
                assert forall|x: BlockHash| #[trigger] height_of(m, g, x) is Some implies height_of(
                    m2,
                    g,
                    x,
                ) == height_of(m, g, x) by {
                    lemma_height_fuel_insert(m, g, h, b, x, fuel);
                    lemma_height_fuel_mono(m2, g, x, fuel, fuel2);
                }
                // the new block's ancestry reaches genesis through its parent
                if h != g {
                    if b.header.parent == g {
                        assert(height_fuel(m, g, b.header.parent, fuel) == Some(0nat));
                    } else {
                        assert(old(self).has_block(b.header.parent));
                        assert(height_of(m, g, b.header.parent) is Some);
                    }
                    lemma_height_fuel_insert(m, g, h, b, b.header.parent, fuel);
                    assert(height_fuel(m2, g, b.header.parent, fuel) is Some);
                    assert(height_fuel(m2, g, h, fuel2) == Some(
                        (height_fuel(m2, g, b.header.parent, fuel)->Some_0 + 1) as nat,
                    ));
                }
                // well-formedness of the grown store
                assert forall|x: BlockHash| #[trigger] self.has_block(x) implies self.height(
                    x,
                ) is Some by {
                    if x != h {
                        assert(old(self).has_block(x));
                        assert(old(self).height(x) is Some);
                        lemma_height_fuel_insert(m, g, h, b, x, fuel);
                        lemma_height_fuel_mono(m2, g, x, fuel, fuel2);
                    }
                }
                assert forall|x: BlockHash| #[trigger] self.has_block(x) implies self.blocks()[x].header.hash
                    == x by {
                    if x != h {
                        assert(old(self).has_block(x));
                    }
                }
                assert forall|x: BlockHash| #[trigger] self.has_block(x) implies self.block_present(
                    self.blocks()[x].header.parent,
                ) by {
                    if x != h {
                        assert(old(self).has_block(x));
                        assert(old(self).block_present(old(self).blocks()[x].header.parent));
                    } else {
                        assert(old(self).block_present(b.header.parent));
                    }
                }
            }
        }
    }

    /// Read the persisted tip tag, if any.
    pub fn tag_read(&self) -> (r: Option<BlockHash>)
        ensures
            r == self.tag(),
    {
        self.tip_tag
    }

    /// Durably point the tip tag at `h`.
    pub fn tag_write(&mut self, h: BlockHash)
        requires
            old(self).wf(),
            old(self).block_present(h),
        ensures
            final(self).wf(),
            final(self).genesis() == old(self).genesis(),
            final(self).blocks() == old(self).blocks(),
            final(self).tag() == Some(h),
    {
        self.tip_tag = Some(h);
        proof {
            assert forall|x: BlockHash| #[trigger] self.has_block(x) implies self.blocks()[x].header.hash
                == x && self.block_present(self.blocks()[x].header.parent) && self.height(
                x,
            ) is Some by {
                assert(old(self).has_block(x));
                assert(old(self).height(x) is Some);
            }
        }
    }
}

/// Recompute the chain state ending at `target` by replaying parent
/// pointers from `target` back to genesis: the pure, possibly expensive,
/// restore collaborator of the chain manager. It succeeds exactly when
/// `target`'s ancestry is on hand all the way down, and fails (missing
/// ancestor, or an ancestry that never reaches genesis) otherwise.
pub fn restore_chain_state(
    storage: &Storage,
    genesis_data: &GenesisData,
    target: BlockHash,
) -> (r: Result<ChainState, Error>)
    requires
        genesis_data.genesis_prev == storage.genesis(),
    ensures
        r is Ok <==> storage.height(target) is Some,
        r is Ok ==> storage.height(target)->Some_0 <= u64::MAX,
        r is Ok ==> r->Ok_0 == (ChainState {
            last_block: target,
            last_date: if target == storage.genesis() {
                None
            } else {
                Some(storage.blocks()[target].header.date)
            },
            chain_length: storage.height(target)->Some_0 as u64,
        }),
{
    let ghost m = storage.blocks();
    let ghost g = storage.genesis();
    if target == storage.genesis_hash() {
        return Ok(ChainState { last_block: target, last_date: None, chain_length: 0 });
    }
    let target_block = match storage.block_read(target) {
        Some(b) => b,
        None => {
            return Err(Error::from_error("restoring chain state: unknown block".to_owned()));
        },
    };
    let fuel0 = storage.blocks.len();
    proof {
        assert(fuel0 == m.dom().len());
    }
    let mut cur = target;
    let mut fuel_left = fuel0;
    let mut n: u64 = 0;
    while cur != genesis_data.genesis_prev
        invariant
            genesis_data.genesis_prev == g,
            g == storage.genesis(),
            m == storage.blocks(),
            n + fuel_left == fuel0,
            fuel0 == m.dom().len(),
            match height_fuel(m, g, cur, fuel_left as nat) {
                Some(k) => height_of(m, g, target) == Some((k + n) as nat),
                None => height_of(m, g, target) is None,
            },
        decreases fuel_left,
    {
        if fuel_left == 0 {
            return Err(Error::from_error("restoring chain state: broken ancestry".to_owned()));
        }
        match storage.block_read(cur) {
            Some(b) => {
                cur = b.header.get_previous_header();
                fuel_left = fuel_left - 1;
                n = n + 1;
            },
            None => {
                return Err(
                    Error::from_error("restoring chain state: missing ancestor".to_owned()),
                );
            },
        }
    }
    proof {
        assert(height_fuel(m, g, cur, fuel_left as nat) == Some(0nat));
        assert(height_of(m, g, target) == Some(n as nat));
    }
    Ok(
        ChainState {
            last_block: target,
            last_date: Some(target_block.header.date),
            chain_length: n,
        },
    )
}

} // verus!
