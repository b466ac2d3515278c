//! Nested blocks that stand side by side in one body: where they are found
//! and what is left of the body without them.

use crate::block::{
    block_range, closing_brace, depth, first_brace, is_brace, lemma_block_range,
    lemma_closing_brace, lemma_depth_split, lemma_first_brace, subgraph_keyword,
    subgraph_positions,
};
use crate::dot_graph::{
    extract, parse_children, parse_graph, remove_span, remove_spans, span_text,
    strip_closing_brace, GraphView,
};
use crate::graph_type::GraphType;
use crate::parsing_error::Failure;
use crate::text::{find, lemma_find, lemma_find_is, occurs_at, starts_with};
use vstd::prelude::*;

verus! {

/// No character of `s` is a brace.
pub open spec fn no_brace(s: Seq<char>) -> bool {
    forall|i: int| 0 <= i < s.len() ==> !is_brace(#[trigger] s[i])
}

/// `b` is one nested block and no more: it begins with the keyword, and
/// its first block ends with its last character.
pub open spec fn is_nested_block(b: Seq<char>) -> bool {
    &&& starts_with(b, subgraph_keyword())
    &&& block_range(b) matches Ok((_, end)) && end == b.len() - 1
}

/// The blocks `blocks` stand side by side between the texts `gaps`: there
/// is a gap before each block and one after the last; each block is one
/// nested block; no gap before a block holds a brace, and the keyword
/// stands in no gap, nor across the end of one.
pub open spec fn side_by_side(gaps: Seq<Seq<char>>, blocks: Seq<Seq<char>>) -> bool {
    &&& gaps.len() == blocks.len() + 1
    &&& forall|i: int|
        0 <= i < blocks.len() ==> is_nested_block(#[trigger] blocks[i]) && no_brace(gaps[i])
            && find(gaps[i] + blocks[i], subgraph_keyword()) == Some(gaps[i].len() as int)
    &&& find(gaps.last(), subgraph_keyword()) is None
}

/// The body made of the gaps and the blocks in turn.
pub open spec fn laid_out(gaps: Seq<Seq<char>>, blocks: Seq<Seq<char>>) -> Seq<char>
    decreases blocks.len(),
{
    if gaps.len() == 0 {
        Seq::empty()
    } else if blocks.len() == 0 {
        gaps[0]
    } else {
        gaps[0] + blocks[0] + laid_out(gaps.drop_first(), blocks.drop_first())
    }
}

/// The gaps one after another.
pub open spec fn gaps_text(gaps: Seq<Seq<char>>) -> Seq<char>
    decreases gaps.len(),
{
    if gaps.len() == 0 {
        Seq::empty()
    } else {
        gaps[0] + gaps_text(gaps.drop_first())
    }
}

/// Where the blocks stand in the body made of the gaps and the blocks,
/// counted from `base` characters before its beginning.
pub open spec fn block_spans(gaps: Seq<Seq<char>>, blocks: Seq<Seq<char>>, base: int) -> Seq<
    (int, int),
>
    decreases blocks.len(),
{
    if gaps.len() == 0 || blocks.len() == 0 {
        Seq::empty()
    } else {
        seq![(base + gaps[0].len(), base + gaps[0].len() + blocks[0].len() - 1)] + block_spans(
            gaps.drop_first(),
            blocks.drop_first(),
            base + gaps[0].len() + blocks[0].len(),
        )
    }
}

/// What stands behind a text does not change where a pattern is first
/// found in it.
pub proof fn lemma_find_in_prefix(x: Seq<char>, y: Seq<char>, pat: Seq<char>)
    requires
        find(x, pat) is Some,
    ensures
        find(x + y, pat) == find(x, pat),
{
    lemma_find(x, pat);
    let p = find(x, pat).unwrap();
    assert((x + y).subrange(p, p + pat.len()) =~= x.subrange(p, p + pat.len()));
    assert forall|j: int| 0 <= j < p implies !occurs_at(x + y, pat, j) by {
        assert(!occurs_at(x, pat, j));
        assert((x + y).subrange(j, j + pat.len()) =~= x.subrange(j, j + pat.len()));
    }
    lemma_find_is(x + y, pat, p);
}

/// The nesting over a stretch of `b` is the same where `b` stands between
/// two other texts.
proof fn lemma_depth_inside(g: Seq<char>, b: Seq<char>, rest: Seq<char>, i: int, j: int)
    requires
        0 <= i <= j <= b.len(),
    ensures
        depth(g + b + rest, g.len() + i, g.len() + j) == depth(b, i, j),
    decreases j - i,
{
    if i < j {
        lemma_depth_inside(g, b, rest, i, j - 1);
        assert((g + b + rest)[g.len() + j - 1] == b[j - 1]);
    }
}

/// The first block of a text that begins with a gap without braces and a
/// block is that block, whatever follows it.
pub proof fn lemma_block_after_gap(g: Seq<char>, b: Seq<char>, rest: Seq<char>)
    requires
        no_brace(g),
        block_range(b) is Ok,
    ensures
        block_range(g + b + rest) == Ok::<_, Failure>(
            (g.len() + block_range(b)->Ok_0.0, g.len() + block_range(b)->Ok_0.1),
        ),
{
    let t = g + b + rest;
    let (a, e) = block_range(b)->Ok_0;
    lemma_block_range(b);
    lemma_first_brace(b, 0);
    lemma_closing_brace(b, a + 1, 1);
    lemma_first_brace(t, 0);
    assert(t[g.len() + a] == b[a]);
    assert forall|j: int| 0 <= j < g.len() + a implies !is_brace(#[trigger] t[j]) by {
        if j < g.len() {
            assert(t[j] == g[j]);
        } else {
            assert(t[j] == b[j - g.len()]);
        }
    }
    assert(first_brace(t, 0) == Some(g.len() + a));
    let from = g.len() + a + 1;
    lemma_closing_brace(t, from, 1);
    assert forall|k: int| a + 1 <= k <= b.len() implies depth(t, from, g.len() + k)
        == #[trigger] depth(b, a + 1, k) by {
        lemma_depth_inside(g, b, rest, a + 1, k);
    }
    assert(depth(t, from, g.len() + e + 1) == depth(b, a + 1, e + 1));
    match closing_brace(t, from, 1) {
        Some(end) => {
            if end < g.len() + e {
                let k = end + 1 - g.len();
                assert(depth(t, from, g.len() + k) == depth(b, a + 1, k));
                assert(1 + depth(b, a + 1, k) > 0);
            } else if end > g.len() + e {
                assert(1 + depth(t, from, g.len() + e + 1) > 0);
            }
        },
        None => {
            assert(1 + depth(t, from, g.len() + e + 1) > 0);
        },
    }
}

/// Taking out a first block and then others behind it is taking out the
/// others and then the first.
proof fn lemma_remove_first_last(body: Seq<char>, first: (int, int), rest: Seq<(int, int)>)
    ensures
        remove_spans(body, seq![first] + rest) == remove_span(remove_spans(body, rest), first),
    decreases rest.len(),
{
    let all = seq![first] + rest;
    if rest.len() == 0 {
        assert(all.drop_last() =~= Seq::empty());
        assert(all.last() == first);
        assert(remove_spans(remove_span(body, first), all.drop_last()) == remove_span(body, first));
        assert(remove_spans(body, rest) == body);
    } else {
        assert(all.last() == rest.last());
        assert(all.drop_last() =~= seq![first] + rest.drop_last());
        lemma_remove_first_last(remove_span(body, rest.last()), first, rest.drop_last());
    }
}

/// Blocks that stand side by side are found each at its place.
pub proof fn lemma_positions_of_blocks(gaps: Seq<Seq<char>>, blocks: Seq<Seq<char>>, base: int)
    requires
        side_by_side(gaps, blocks),
    ensures
        subgraph_positions(laid_out(gaps, blocks), base) == Ok::<_, Failure>(
            block_spans(gaps, blocks, base),
        ),
        block_spans(gaps, blocks, base).len() == blocks.len(),
    decreases blocks.len(),
{
    if blocks.len() == 0 {
        assert(gaps.last() == gaps[0]);
    } else {
        let g = gaps[0];
        let b = blocks[0];
        let tail = laid_out(gaps.drop_first(), blocks.drop_first());
        let text = g + b + tail;
        assert(is_nested_block(blocks[0]));
        lemma_side_by_side_rest(gaps, blocks);
        lemma_positions_of_blocks(gaps.drop_first(), blocks.drop_first(), base + g.len() + b.len());
        assert(text =~= (g + b) + tail);
        lemma_find_in_prefix(g + b, tail, subgraph_keyword());
        lemma_block_after_gap(g, b, tail);
        let end = g.len() + b.len() - 1;
        assert(text.subrange(end + 1, text.len() as int) =~= tail);
    }
}

/// What follows the first of several blocks that stand side by side is
/// again made of blocks that stand side by side.
proof fn lemma_side_by_side_rest(gaps: Seq<Seq<char>>, blocks: Seq<Seq<char>>)
    requires
        side_by_side(gaps, blocks),
        blocks.len() > 0,
    ensures
        side_by_side(gaps.drop_first(), blocks.drop_first()),
{
    let gaps1 = gaps.drop_first();
    let blocks1 = blocks.drop_first();
    assert(gaps1.last() == gaps.last());
    assert forall|i: int| 0 <= i < blocks1.len() implies is_nested_block(#[trigger] blocks1[i])
        && no_brace(gaps1[i]) && find(gaps1[i] + blocks1[i], subgraph_keyword()) == Some(
        gaps1[i].len() as int,
    ) by {
        assert(blocks1[i] == blocks[i + 1]);
        assert(gaps1[i] == gaps[i + 1]);
        assert(is_nested_block(blocks[i + 1]));
    }
}

/// A body made of blocks side by side, behind any text, is left as that
/// text and the gaps when the blocks are taken out; and the text at the
/// place of each block is the block.
proof fn lemma_blocks_removed(prefix: Seq<char>, gaps: Seq<Seq<char>>, blocks: Seq<Seq<char>>)
    requires
        side_by_side(gaps, blocks),
    ensures
        remove_spans(
            prefix + laid_out(gaps, blocks),
            block_spans(gaps, blocks, prefix.len() as int),
        ) == prefix + gaps_text(gaps),
        forall|i: int|
            0 <= i < blocks.len() ==> span_text(
                prefix + laid_out(gaps, blocks),
                #[trigger] block_spans(gaps, blocks, prefix.len() as int)[i],
            ) == blocks[i],
    decreases blocks.len(),
{
    let body = prefix + laid_out(gaps, blocks);
    if blocks.len() == 0 {
        assert(gaps.drop_first() =~= Seq::empty());
        assert(gaps_text(gaps.drop_first()) =~= Seq::empty());
        assert(gaps_text(gaps) =~= gaps[0]);
    } else {
        let g = gaps[0];
        let b = blocks[0];
        let gaps1 = gaps.drop_first();
        let blocks1 = blocks.drop_first();
        let tail = laid_out(gaps1, blocks1);
        let longer = prefix + g + b;
        let first: (int, int) = (
            (prefix.len() + g.len()) as int,
            prefix.len() + g.len() + b.len() - 1,
        );
        let rest = block_spans(gaps1, blocks1, longer.len() as int);
        assert(is_nested_block(blocks[0]));
        lemma_block_range(b);
        lemma_side_by_side_rest(gaps, blocks);
        lemma_blocks_removed(longer, gaps1, blocks1);
        lemma_positions_of_blocks(gaps1, blocks1, longer.len() as int);
        assert(body =~= longer + tail);
        assert(block_spans(gaps, blocks, prefix.len() as int) == seq![first] + rest);
        lemma_remove_first_last(body, first, rest);
        let left = longer + gaps_text(gaps1);
        assert(remove_span(left, first) =~= prefix + gaps_text(gaps));
        let found = seq![first] + rest;
        assert forall|i: int| 0 <= i < blocks.len() implies span_text(body, #[trigger] found[i])
            == blocks[i] by {
            if i == 0 {
                assert(body.subrange(first.0, first.1 + 1) =~= b);
            } else {
                assert(found[i] == rest[i - 1]);
                assert(blocks[i] == blocks1[i - 1]);
            }
        }
    }
}

/// The graphs read from the blocks of a body are as many as the blocks,
/// and each is the graph that the text of its block stands for.
pub proof fn lemma_children_of_blocks(body: Seq<char>, found: Seq<(int, int)>, family: GraphType)
    requires
        parse_children(body, found, family) is Ok,
    ensures
        parse_children(body, found, family)->Ok_0.len() == found.len(),
        forall|i: int|
            0 <= i < found.len() ==> parse_graph(span_text(body, #[trigger] found[i]), Some(family))
                == Ok::<_, Failure>(
                parse_children(body, found, family)->Ok_0[i],
            ),
    decreases found.len(),
{
    if found.len() > 0 {
        lemma_children_of_blocks(body, found.drop_last(), family);
        let children = parse_children(body, found, family)->Ok_0;
        let before = parse_children(body, found.drop_last(), family)->Ok_0;
        assert forall|i: int| 0 <= i < found.len() implies parse_graph(
            span_text(body, #[trigger] found[i]),
            Some(family),
        ) == Ok::<_, Failure>(children[i]) by {
            if i < found.len() - 1 {
                assert(found.drop_last()[i] == found[i]);
                assert(children[i] == before[i]);
            }
        }
    }
}

/// From a body in which `n` nested blocks stand side by side, exactly `n`
/// graphs are read, each from the text of its block, and what is left of
/// the body holds nothing of the blocks: it is the gaps one after another,
/// without the closing brace at the end.
pub proof fn lemma_extract_side_by_side(
    gaps: Seq<Seq<char>>,
    blocks: Seq<Seq<char>>,
    family: GraphType,
)
    requires
        side_by_side(gaps, blocks),
    ensures
        match extract(laid_out(gaps, blocks), family) {
            Ok((children, rest)) => {
                &&& children.len() == blocks.len()
                &&& forall|i: int|
                    0 <= i < blocks.len() ==> parse_graph(#[trigger] blocks[i], Some(family))
                        == Ok::<_, Failure>(children[i])
                &&& rest == strip_closing_brace(gaps_text(gaps))
            },
            Err(e) => exists|i: int|
                0 <= i < blocks.len() && parse_graph(#[trigger] blocks[i], Some(family)) == Err::<
                    GraphView,
                    _,
                >(e),
        },
{
    let body = laid_out(gaps, blocks);
    let found = block_spans(gaps, blocks, 0);
    lemma_positions_of_blocks(gaps, blocks, 0);
    lemma_blocks_removed(Seq::empty(), gaps, blocks);
    assert(Seq::<char>::empty() + body =~= body);
    assert(Seq::<char>::empty() + gaps_text(gaps) =~= gaps_text(gaps));
    match parse_children(body, found, family) {
        Ok(children) => {
            lemma_children_of_blocks(body, found, family);
            assert forall|i: int| 0 <= i < blocks.len() implies parse_graph(
                #[trigger] blocks[i],
                Some(family),
            ) == Ok::<_, Failure>(children[i]) by {
                assert(span_text(body, found[i]) == blocks[i]);
            }
        },
        Err(e) => {
            lemma_child_failure(body, found, family);
            let i = choose|i: int|
                0 <= i < found.len() && parse_graph(
                    span_text(body, #[trigger] found[i]),
                    Some(family),
                ) == Err::<GraphView, _>(e);
            assert(span_text(body, found[i]) == blocks[i]);
        },
    }
}

/// Where the blocks of a body are refused, the failure is that of one of
/// them.
pub proof fn lemma_child_failure(body: Seq<char>, found: Seq<(int, int)>, family: GraphType)
    requires
        parse_children(body, found, family) is Err,
    ensures
        exists|i: int|
            0 <= i < found.len() && parse_graph(span_text(body, #[trigger] found[i]), Some(family))
                == Err::<GraphView, _>(parse_children(body, found, family)->Err_0),
    decreases found.len(),
{
    if found.len() > 0 {
        match parse_children(body, found.drop_last(), family) {
            Err(e) => {
                lemma_child_failure(body, found.drop_last(), family);
                let i = choose|i: int|
                    0 <= i < found.drop_last().len() && parse_graph(
                        span_text(body, #[trigger] found.drop_last()[i]),
                        Some(family),
                    ) == Err::<GraphView, _>(e);
                assert(found.drop_last()[i] == found[i]);
            },
            Ok(_) => {
                assert(found[found.len() - 1] == found.last());
            },
        }
    }
}

} // verus!
