//! The per-block enrichment pass: after assembly, every block derives its
//! inline elements from its content; List blocks derive their items and
//! Table blocks their table, by canonical kind.

use vstd::prelude::*;
use crate::ast::{
    Block, blocks_view, clone_attrs, clone_type, lemma_blocks_view_index, lemma_blocks_view_push,
};
use crate::inline::inline_spec;
use crate::list::list_items_spec;
use crate::model::{BlockV, TypeV, canonical_spec};
use crate::table::table_spec;

verus! {

/// A block after enrichment: the structural fields stay, the derived
/// fields are recomputed from content and attributes.
pub open spec fn enrich_block(b: BlockV) -> BlockV
    decreases b, 0nat,
{
    BlockV {
        inline_elements: inline_spec(b.content),
        list_items: if canonical_spec(b.block_type) == TypeV::List {
            list_items_spec(b.content, b.attributes)
        } else {
            Seq::empty()
        },
        table: if canonical_spec(b.block_type) == TypeV::Table {
            table_spec(b.content, b.attributes)
        } else {
            None
        },
        children: enrich_blocks(b.children),
        ..b
    }
}

/// A block sequence after enrichment, element by element.
pub open spec fn enrich_blocks(s: Seq<BlockV>) -> Seq<BlockV>
    decreases s, s.len(),
{
    if s.len() == 0 {
        Seq::empty()
    } else {
        seq![enrich_block(s[0])] + enrich_blocks(s.drop_first())
    }
}

pub proof fn lemma_enrich_blocks_index(s: Seq<BlockV>)
    ensures
        enrich_blocks(s).len() == s.len(),
        forall|i: int|
            0 <= i < s.len() ==> enrich_blocks(s)[i] == enrich_block(#[trigger] s[i]),
    decreases s.len(),
{
    if s.len() > 0 {
        lemma_enrich_blocks_index(s.drop_first());
        assert forall|i: int| 0 <= i < s.len() implies enrich_blocks(s)[i] == enrich_block(
            s[i],
        ) by {
            if i > 0 {
                assert(s.drop_first()[i - 1] == s[i]);
                assert(enrich_blocks(s)[i] == enrich_blocks(s.drop_first())[i - 1]);
            }
        }
    }
}

/// The enriched copy of one block: structure and text are copied, the
/// derived fields are computed, children are enriched recursively.
#[verifier::loop_isolation(false)]
pub fn enriched_block(b: &Block) -> (r: Block)
    ensures
        r@ == enrich_block(b@),
    decreases *b,
{
    let mut children: Vec<Block> = Vec::new();
    let mut i: usize = 0;
    proof {
        lemma_blocks_view_index(b.children@);
        lemma_enrich_blocks_index(blocks_view(b.children@));
    }
    while i < b.children.len()
        invariant
            i <= b.children@.len(),
            children@.len() == i,
            forall|j: int|
                0 <= j < i ==> blocks_view(children@)[j] == enrich_block(
                    blocks_view(b.children@)[j],
                ),
            blocks_view(children@).len() == i,
        decreases b.children@.len() - i,
    {
        let ghost snap = children@;
        let c = enriched_block(&b.children[i]);
        children.push(c);
        proof {
            lemma_blocks_view_push(snap, c);
            lemma_blocks_view_index(children@);
        }
        i = i + 1;
    }
    let mut nb = Block {
        block_type: clone_type(&b.block_type),
        level: b.level,
        attributes: clone_attrs(&b.attributes),
        content: b.content.clone(),
        children,
        line_number: b.line_number,
        inline_elements: Vec::new(),
        list_items: Vec::new(),
        table: None,
    };
    proof {
        assert(blocks_view(nb.children@) =~= enrich_blocks(blocks_view(b.children@)));
    }
    let res_inline = nb.parse_inline_elements();
    let canon = nb.block_type.canonical();
    let is_list = match canon {
        crate::ast::BlockType::List => true,
        _ => false,
    };
    let is_table = match canon {
        crate::ast::BlockType::Table => true,
        _ => false,
    };
    if is_list {
        let res_list = nb.parse_list_items();
        proof {
            if nb@.content.len() == 0 {
                assert(crate::text::lines_spec(nb@.content).len() == 0);
                assert(crate::list::list_items_spec(nb@.content, nb@.attributes) =~= Seq::<
                    crate::model::ItemV,
                >::empty());
            }
        }
    }
    if is_table {
        let res_table = nb.parse_table();
    }
    proof {
        assert(nb@ =~= enrich_block(b@));
    }
    nb
}

/// The enriched copies of a block sequence.
pub fn enriched_blocks(bs: &Vec<Block>) -> (r: Vec<Block>)
    ensures
        blocks_view(r@) == enrich_blocks(blocks_view(bs@)),
{
    let mut out: Vec<Block> = Vec::new();
    let mut i: usize = 0;
    proof {
        lemma_blocks_view_index(bs@);
        lemma_enrich_blocks_index(blocks_view(bs@));
    }
    while i < bs.len()
        invariant
            i <= bs@.len(),
            out@.len() == i,
            blocks_view(bs@).len() == bs@.len(),
            blocks_view(out@).len() == i,
            forall|j: int|
                0 <= j < bs@.len() ==> blocks_view(bs@)[j] == crate::ast::block_view(
                    #[trigger] bs@[j],
                ),
            forall|j: int|
                0 <= j < i ==> blocks_view(out@)[j] == enrich_block(blocks_view(bs@)[j]),
            forall|j: int|
                0 <= j < blocks_view(bs@).len() ==> enrich_blocks(blocks_view(bs@))[j]
                    == enrich_block(#[trigger] blocks_view(bs@)[j]),
            enrich_blocks(blocks_view(bs@)).len() == bs@.len(),
        decreases bs@.len() - i,
    {
        let ghost snap = out@;
        let c = enriched_block(&bs[i]);
        out.push(c);
        proof {
            lemma_blocks_view_push(snap, c);
            lemma_blocks_view_index(out@);
        }
        i = i + 1;
    }
    proof {
        assert(blocks_view(out@) =~= enrich_blocks(blocks_view(bs@)));
    }
    out
}

} // verus!
