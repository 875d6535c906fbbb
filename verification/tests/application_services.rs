use pkm_ai::application::{
    CreateBlockUseCase, DeleteBlockCommand, DeleteBlockUseCase, GetBlockQuery, GetBlockUseCase, UpdateBlockCommand,
    UpdateBlockUseCase,
};
use pkm_ai::block::{Block, Edge};
use pkm_ai::commands::{CreateBlockCommand, LinkBlocksCommand, RepositoryError};
use pkm_ai::model::{BlockType, LinkType};
use pkm_ai::store::{BlockStore, EdgeStore};

/// The ULID text of an identifier, as the `ulid` crate writes it.
fn encode_ulid(v: u128) -> String {
    ulid::Ulid(v).to_string()
}

#[test]
fn create_use_case_stores_the_block() {
    let mut uc = CreateBlockUseCase::new(BlockStore::new());
    let id = uc.execute(CreateBlockCommand {
        block_type: BlockType::Task,
        title: "Write tests".to_string(),
        content: "for the services".to_string(),
        tags: vec!["work".to_string()],
    });
    assert_eq!(uc.block_repo.blocks.len(), 1);
    let b = &uc.block_repo.blocks[0];
    assert_eq!(b.id, id);
    assert_eq!(b.block_type, BlockType::Task);
    assert_eq!(b.title, "Write tests");
    assert_eq!(b.content, "for the services");
    assert_eq!(b.tags, vec!["work".to_string()]);
}

#[test]
fn delete_use_case_removes_block_and_links() {
    let a = Block::new(BlockType::Permanent, "A");
    let b = Block::new(BlockType::Permanent, "B");
    let c = Block::new(BlockType::Permanent, "C");
    let (ida, idb, idc) = (a.id, b.id, c.id);
    let mut blocks = BlockStore::new();
    blocks.create(a);
    blocks.create(b);
    blocks.create(c);
    let mut edges = EdgeStore::new();
    edges.create(Edge::new(ida, idb, LinkType::Related));
    edges.create(Edge::new(idc, ida, LinkType::Next));
    edges.create(Edge::new(idb, idc, LinkType::Next));
    let mut uc = DeleteBlockUseCase::new(blocks, edges);
    uc.execute(DeleteBlockCommand { id: ida });
    assert_eq!(uc.block_repo.blocks.len(), 2);
    assert!(uc.block_repo.blocks.iter().all(|x| x.id != ida));
    assert_eq!(uc.edge_repo.edges.len(), 1);
    assert_eq!(uc.edge_repo.edges[0].from, idb);
    assert_eq!(uc.edge_repo.edges[0].to, idc);
}

#[test]
fn update_use_case_replaces_given_fields() {
    let b = Block::new(BlockType::Fleeting, "Old title").with_content("old body");
    let id = b.id;
    let mut blocks = BlockStore::new();
    blocks.create(b);
    let mut uc = UpdateBlockUseCase::new(blocks);
    let r = uc.execute(UpdateBlockCommand {
        id,
        title: Some("New title".to_string()),
        content: None,
        tags: Some(vec!["x".to_string(), "y".to_string()]),
    });
    assert!(r.is_ok());
    let b = &uc.block_repo.blocks[0];
    assert_eq!(b.title, "New title");
    assert_eq!(b.content, "old body");
    assert_eq!(b.tags, vec!["x".to_string(), "y".to_string()]);
    assert_eq!(b.block_type, BlockType::Fleeting);
    // The block is marked as changed now, after it was made.
    let (c, u) = (b.created_at.unwrap(), b.updated_at.unwrap());
    assert!((u.secs, u.nanos) >= (c.secs, c.nanos));
}

#[test]
fn update_use_case_refuses_unknown_block() {
    let mut uc = UpdateBlockUseCase::new(BlockStore::new());
    let id: u128 = 42;
    let r = uc.execute(UpdateBlockCommand { id, title: Some("t".to_string()), content: None, tags: None });
    match r {
        Err(RepositoryError::BlockNotFound(m)) => assert_eq!(m, encode_ulid(id)),
        _ => panic!("expected BlockNotFound"),
    }
    assert!(uc.block_repo.blocks.is_empty());
}

#[test]
fn get_use_case_reads_back_a_stored_block() {
    let b = Block::new(BlockType::Hub, "Hub");
    let id = b.id;
    let mut blocks = BlockStore::new();
    blocks.create(b);
    let uc = GetBlockUseCase::new(blocks);
    let got = uc.execute(GetBlockQuery { id }).expect("stored block");
    assert_eq!(got.title, "Hub");
    assert!(uc.execute(GetBlockQuery { id: id.wrapping_add(1) }).is_none());
}

struct FixedGraph {
    cycle: Result<bool, ()>,
}

impl pkm_ai::commands::GraphQueryPort for FixedGraph {
    // The relations are read by the verifier only; this store answers
    // anything, so every answer is one it may give.
    fn cycle_answer(&self, _from: u128, _to: u128, _r: Result<bool, RepositoryError>) -> bool {
        true
    }

    fn spine_answer(
        &self,
        _root: u128,
        _max_depth: u32,
        _r: Result<Option<pkm_ai::toc::TraversalNode>, RepositoryError>,
    ) -> bool {
        true
    }

    fn would_create_cycle(&self, _from: u128, _to: u128) -> Result<bool, RepositoryError> {
        match self.cycle {
            Ok(b) => Ok(b),
            Err(()) => Err(RepositoryError::Database("unreachable store".to_string())),
        }
    }

    fn traverse_spine(&self, _root: u128, _max_depth: u32) -> Result<Option<pkm_ai::toc::TraversalNode>, RepositoryError> {
        Ok(None)
    }
}

fn link_use_case(cycle: Result<bool, ()>) -> pkm_ai::commands::LinkBlocksUseCase<FixedGraph> {
    pkm_ai::commands::LinkBlocksUseCase::new(EdgeStore::new(), std::sync::Arc::new(FixedGraph { cycle }))
}

#[test]
fn link_use_case_stores_a_link_without_a_cycle() {
    let mut uc = link_use_case(Ok(false));
    let id = uc.execute(LinkBlocksCommand { from_id: 1, to_id: 2, link_type: LinkType::Next }).unwrap();
    assert_eq!(uc.edge_repo.edges.len(), 1);
    let e = &uc.edge_repo.edges[0];
    assert_eq!((e.id, e.from, e.to, e.link_type), (id, 1, 2, LinkType::Next));
}

#[test]
fn link_use_case_refuses_a_structural_cycle() {
    let mut uc = link_use_case(Ok(true));
    match uc.execute(LinkBlocksCommand { from_id: 1, to_id: 2, link_type: LinkType::SectionOf }) {
        Err(RepositoryError::ValidationError(m)) => assert_eq!(
            m,
            format!("Adding sectionof edge from {} to {} would create a cycle", encode_ulid(1), encode_ulid(2))
        ),
        other => panic!("expected a refusal, got {:?}", other),
    }
    assert!(uc.edge_repo.edges.is_empty());
    // A non-structural link is not checked.
    assert!(uc.execute(LinkBlocksCommand { from_id: 1, to_id: 2, link_type: LinkType::Related }).is_ok());
    assert_eq!(uc.edge_repo.edges.len(), 1);
}

#[test]
fn link_use_case_passes_on_a_store_error() {
    let mut uc = link_use_case(Err(()));
    assert!(matches!(
        uc.execute(LinkBlocksCommand { from_id: 1, to_id: 2, link_type: LinkType::Parent }),
        Err(RepositoryError::Database(_))
    ));
    assert!(uc.edge_repo.edges.is_empty());
}

#[test]
fn traverse_use_case_gives_the_store_answer() {
    let uc = pkm_ai::commands::TraverseSpineUseCase::new(std::sync::Arc::new(FixedGraph { cycle: Ok(false) }));
    let r = uc.execute(pkm_ai::commands::TraverseSpineQuery { root_id: 7, max_depth: 3 });
    assert!(matches!(r, Ok(None)));
}
