//! Application services: the block use cases, each run against the stores
//! it holds.

use vstd::prelude::*;
use crate::block::{same_block, Block};
use crate::commands::CreateBlockCommand;
use crate::commands::RepositoryError;
use crate::session::Timestamp;
use crate::ids::{encode_ulid, ulid_encode};
use crate::store::{blocks_without, edges_except, first_block_with, BlockStore, EdgeStore};

verus! {

/// A request to delete a block and its links.
#[derive(Debug, Clone, Copy)]
pub struct DeleteBlockCommand {
    pub id: u128,
}

/// A request to change a block: each field given replaces the block's own.
#[derive(Debug, Clone)]
pub struct UpdateBlockCommand {
    pub id: u128,
    pub title: Option<String>,
    pub content: Option<String>,
    pub tags: Option<Vec<String>>,
}

/// A request for one block.
#[derive(Debug, Clone, Copy)]
pub struct GetBlockQuery {
    pub id: u128,
}

/// The block `b` after the update `cmd`, made at time `t`.
pub open spec fn updated_block(b: Block, cmd: UpdateBlockCommand, t: Option<Timestamp>) -> Block {
    Block {
        id: b.id,
        block_type: b.block_type,
        title: match cmd.title {
            Some(t) => t,
            None => b.title,
        },
        content: match cmd.content {
            Some(c) => c,
            None => b.content,
        },
        tags: match cmd.tags {
            Some(ts) => ts,
            None => b.tags,
        },
        metadata: b.metadata,
        created_at: b.created_at,
        updated_at: t,
    }
}

/// `new` is the store `old` after the update `cmd` made at time `t`, the
/// first block with the identifier asked for standing at `k`: every block
/// with that identifier becomes the updated first one, the others stay.
pub open spec fn updated_in(old: Seq<Block>, new: Seq<Block>, cmd: UpdateBlockCommand, k: int, t: Option<Timestamp>) -> bool {
    &&& new.len() == old.len()
    &&& forall|j: int|
        0 <= j < old.len() ==> if old[j].id == cmd.id {
            same_block(#[trigger] new[j], updated_block(old[k], cmd, t))
        } else {
            new[j] == old[j]
        }
}

/// The service that creates blocks.
pub struct CreateBlockUseCase {
    pub block_repo: BlockStore,
}

impl CreateBlockUseCase {
    /// A service over the given store.
    pub fn new(block_repo: BlockStore) -> (u: CreateBlockUseCase)
        ensures
            u.block_repo == block_repo,
    {
        CreateBlockUseCase { block_repo }
    }

    /// Stores a new block of the command's kind, title, content and tags,
    /// without metadata, and returns its identifier.
    pub fn execute(&mut self, cmd: CreateBlockCommand) -> (id: u128)
        ensures
            final(self).block_repo.blocks@.len() == old(self).block_repo.blocks@.len() + 1,
            final(self).block_repo.blocks@.drop_last() == old(self).block_repo.blocks@,
            final(self).block_repo.blocks@.last().id == id,
            final(self).block_repo.blocks@.last().block_type == cmd.block_type,
            final(self).block_repo.blocks@.last().title@ == cmd.title@,
            final(self).block_repo.blocks@.last().content@ == cmd.content@,
            final(self).block_repo.blocks@.last().tags@ == cmd.tags@,
            final(self).block_repo.blocks@.last().metadata@.len() == 0,
    {
        let mut block = Block::new(cmd.block_type, cmd.title.as_str());
        block.content = cmd.content;
        block.tags = cmd.tags;
        let id = block.id;
        self.block_repo.create(block);
        assert(self.block_repo.blocks@.drop_last() =~= old(self).block_repo.blocks@);
        id
    }
}

/// The service that deletes a block together with its links.
pub struct DeleteBlockUseCase {
    pub block_repo: BlockStore,
    pub edge_repo: EdgeStore,
}

impl DeleteBlockUseCase {
    /// A service over the given stores.
    pub fn new(block_repo: BlockStore, edge_repo: EdgeStore) -> (u: DeleteBlockUseCase)
        ensures
            u.block_repo == block_repo,
            u.edge_repo == edge_repo,
    {
        DeleteBlockUseCase { block_repo, edge_repo }
    }

    /// Removes the links from or to the block, then the block itself.
    pub fn execute(&mut self, cmd: DeleteBlockCommand)
        ensures
            final(self).edge_repo.edges@ == edges_except(
                old(self).edge_repo.edges@,
                |e: crate::block::Edge| e.from == cmd.id || e.to == cmd.id,
            ),
            final(self).block_repo.blocks@ == blocks_without(old(self).block_repo.blocks@, cmd.id),
    {
        self.edge_repo.delete_for_block(cmd.id);
        self.block_repo.delete(cmd.id);
    }
}

/// The service that changes blocks.
pub struct UpdateBlockUseCase {
    pub block_repo: BlockStore,
}

impl UpdateBlockUseCase {
    /// A service over the given store.
    pub fn new(block_repo: BlockStore) -> (u: UpdateBlockUseCase)
        ensures
            u.block_repo == block_repo,
    {
        UpdateBlockUseCase { block_repo }
    }

    /// Replaces the title, content and tags that the command gives in the
    /// block it names and marks it as changed at the time read from the
    /// clock (every stored block with that identifier becomes the updated
    /// first one); a block that is not stored is refused with
    /// `BlockNotFound` and nothing changes.
    pub fn execute(&mut self, cmd: UpdateBlockCommand) -> (r: Result<(), RepositoryError>)
        ensures
            match first_block_with(old(self).block_repo.blocks@, cmd.id) {
                None => r matches Err(e) && e matches RepositoryError::BlockNotFound(m) && m@ == ulid_encode(cmd.id)
                    && final(self).block_repo.blocks@ == old(self).block_repo.blocks@,
                Some(k) => r is Ok && updated_in(
                    old(self).block_repo.blocks@,
                    final(self).block_repo.blocks@,
                    cmd,
                    k,
                    final(self).block_repo.blocks@[k].updated_at,
                ) && (final(self).block_repo.blocks@[k].updated_at matches Some(x) ==> x.secs >= 0 && x.nanos
                    < 1_000_000_000),
            },
    {
        let k = match self.block_repo.position_of(cmd.id) {
            Some(k) => k,
            None => {
                return Err(RepositoryError::BlockNotFound(encode_ulid(cmd.id)));
            },
        };
        let mut block = self.block_repo.blocks[k].copy_block();
        let ghost orig = old(self).block_repo.blocks@[k as int];
        match cmd.title {
            Some(t) => {
                block.title = t;
            },
            None => {},
        }
        match cmd.content {
            Some(c) => {
                block.content = c;
            },
            None => {},
        }
        match cmd.tags {
            Some(ts) => {
                block.tags = ts;
            },
            None => {},
        }
        block.touch();
        let ghost t = block.updated_at;
        assert(same_block(block, updated_block(orig, cmd, t)));
        self.block_repo.update(block);
        assert(updated_in(old(self).block_repo.blocks@, self.block_repo.blocks@, cmd, k as int, t));
        Ok(())
    }
}

/// The service that reads blocks.
pub struct GetBlockUseCase {
    pub block_repo: BlockStore,
}

impl GetBlockUseCase {
    /// A service over the given store.
    pub fn new(block_repo: BlockStore) -> (u: GetBlockUseCase)
        ensures
            u.block_repo == block_repo,
    {
        GetBlockUseCase { block_repo }
    }

    /// The first stored block with the requested identifier, if any.
    pub fn execute(&self, query: GetBlockQuery) -> (r: Option<Block>)
        ensures
            match r {
                Some(b) => first_block_with(self.block_repo.blocks@, query.id) matches Some(k) && same_block(
                    b,
                    self.block_repo.blocks@[k],
                ),
                None => first_block_with(self.block_repo.blocks@, query.id) is None,
            },
    {
        self.block_repo.get(query.id)
    }
}

} // verus!
