//! The block graph walker.
//!
//! Committed change arrives in immutable blocks; each block names its parent
//! blocks, so provenance forms a finite directed acyclic graph in which
//! diamond shapes are expected. The walker expands a frontier breadth-first
//! with a FIFO queue and a visited set keyed by block identifier, so every
//! reachable block is reported exactly once however many paths lead to it,
//! in breadth-first order: frontier blocks first, then blocks in the order
//! a record first named them as a parent. A block named in the frontier or
//! as a parent but absent from the graph is skipped silently and stops its
//! branch.

use vstd::prelude::*;

use crate::conflict::seq_contains_str;
use crate::conflict::vec_contains;
use crate::str_views;

verus! {

/// One block of the provenance graph, as the engine reports it.
pub struct BlockInfo {
    pub id: String,
    /// The block's free-form metadata, serialized to JSON text.
    pub info_json: Option<String>,
    /// Identifiers of the content packs the block references.
    pub packs: Option<Vec<String>>,
    /// Identifiers of the parent blocks; an origin block has none.
    pub parents: Option<Vec<String>>,
}

/// The display classification of a block.
#[derive(Clone, Copy, Debug, PartialEq, Eq, Structural)]
pub enum BlockRole {
    /// A current head of the graph: a member of the anchor set.
    Anchor,
    /// A block without parents.
    Origin,
    /// Every other block.
    Intermediate,
}

/// One line of the provenance report.
pub struct BlockRecord {
    pub role: BlockRole,
    pub block: BlockInfo,
}

/// Whether the graph holds a block with the given identifier.
pub open spec fn g_has(g: Seq<BlockInfo>, id: Seq<char>) -> bool {
    exists|j: int| 0 <= j < g.len() && (#[trigger] g[j]).id@ == id
}

/// The index of the block with the given identifier.
pub open spec fn g_index(g: Seq<BlockInfo>, id: Seq<char>) -> int {
    choose|j: int| 0 <= j < g.len() && (#[trigger] g[j]).id@ == id
}

/// A well-formed graph: block identifiers are distinct.
pub open spec fn graph_wf(g: Seq<BlockInfo>) -> bool {
    forall|i: int, j: int| 0 <= i < j < g.len() ==> (#[trigger] g[i]).id@ != (#[trigger] g[j]).id@
}

/// The parent identifiers of the block with this identifier; empty when the
/// block is absent or an origin.
pub open spec fn parent_ids(g: Seq<BlockInfo>, id: Seq<char>) -> Seq<Seq<char>> {
    if g_has(g, id) {
        match g[g_index(g, id)].parents {
            Option::Some(ps) => str_views(ps@),
            Option::None => Seq::<Seq<char>>::empty(),
        }
    } else {
        Seq::<Seq<char>>::empty()
    }
}

/// A parent walk: it starts at a frontier identifier, and each further
/// identifier is a parent of the present block before it.
pub open spec fn is_walk(g: Seq<BlockInfo>, f: Seq<Seq<char>>, path: Seq<Seq<char>>) -> bool {
    &&& path.len() > 0
    &&& f.contains(path[0])
    &&& forall|i: int|
        0 < i < path.len() ==> g_has(g, #[trigger] path[i - 1]) && parent_ids(
            g,
            path[i - 1],
        ).contains(path[i])
}

/// `id` lies in the frontier or on a parent walk from it.
pub open spec fn reachable(g: Seq<BlockInfo>, f: Seq<Seq<char>>, id: Seq<char>) -> bool {
    exists|path: Seq<Seq<char>>| #[trigger] is_walk(g, f, path) && path.last() == id
}

/// Every frontier identifier is reachable.
proof fn lemma_reach_base(g: Seq<BlockInfo>, f: Seq<Seq<char>>, x: Seq<char>)
    requires
        f.contains(x),
    ensures
        reachable(g, f, x),
{
    let path = seq![x];
    assert(path[0] == x);
    assert(path.last() == x);
    assert(is_walk(g, f, path));
}

/// A parent of a reachable, present block is reachable.
proof fn lemma_reach_step(g: Seq<BlockInfo>, f: Seq<Seq<char>>, c: Seq<char>, p: Seq<char>)
    requires
        reachable(g, f, c),
        g_has(g, c),
        parent_ids(g, c).contains(p),
    ensures
        reachable(g, f, p),
{
    let path = choose|path: Seq<Seq<char>>| #[trigger] is_walk(g, f, path) && path.last() == c;
    let path2 = path.push(p);
    assert(path2[0] == path[0]);
    assert forall|i: int|
        0 < i < path2.len() implies g_has(g, #[trigger] path2[i - 1]) && parent_ids(
        g,
        path2[i - 1],
    ).contains(path2[i]) by {
        if i < path.len() {
            assert(path2[i - 1] == path[i - 1]);
            assert(path2[i] == path[i]);
        } else {
            assert(path2[i - 1] == path.last());
            assert(path2[i] == p);
        }
    }
    assert(is_walk(g, f, path2));
    assert(path2.last() == p);
}

/// Two optional strings hold the same text.
pub open spec fn opt_str_match(a: Option<String>, b: Option<String>) -> bool {
    match (a, b) {
        (Option::Some(x), Option::Some(y)) => x@ == y@,
        (Option::None, Option::None) => true,
        _ => false,
    }
}

/// Two optional string vectors hold the same contents.
pub open spec fn opt_vec_match(a: Option<Vec<String>>, b: Option<Vec<String>>) -> bool {
    match (a, b) {
        (Option::Some(x), Option::Some(y)) => str_views(x@) == str_views(y@),
        (Option::None, Option::None) => true,
        _ => false,
    }
}

/// The record's block reproduces `b` faithfully.
pub open spec fn block_matches(a: BlockInfo, b: BlockInfo) -> bool {
    &&& a.id@ == b.id@
    &&& opt_str_match(a.info_json, b.info_json)
    &&& opt_vec_match(a.packs, b.packs)
    &&& opt_vec_match(a.parents, b.parents)
}

/// The classification of block `b` under the given anchor set: an anchor if
/// it is a member, an origin if it has no parents, intermediate otherwise.
pub open spec fn spec_role(anchors: Seq<String>, b: BlockInfo) -> BlockRole {
    if seq_contains_str(anchors, b.id@) {
        BlockRole::Anchor
    } else if b.parents is None {
        BlockRole::Origin
    } else {
        BlockRole::Intermediate
    }
}

/// The record reports block `b` with its fields and its classification.
pub open spec fn record_matches(anchors: Seq<String>, b: BlockInfo, rec: BlockRecord) -> bool {
    &&& block_matches(rec.block, b)
    &&& rec.role == spec_role(anchors, b)
}

/// Record `rec` lists `id` among its parents.
pub open spec fn rec_mentions(rec: BlockRecord, id: Seq<char>) -> bool {
    rec.block.parents matches Some(ps) && seq_contains_str(ps@, id)
}

/// The index of the first record that lists `id` among its parents; the
/// report's length when none does.
pub open spec fn first_mention(out: Seq<BlockRecord>, id: Seq<char>) -> int
    decreases out.len(),
{
    if out.len() == 0 {
        0
    } else if rec_mentions(out[0], id) {
        0
    } else {
        1 + first_mention(out.drop_first(), id)
    }
}

proof fn lemma_first_mention_bounds(out: Seq<BlockRecord>, id: Seq<char>)
    ensures
        0 <= first_mention(out, id) <= out.len(),
        first_mention(out, id) < out.len() ==> rec_mentions(out[first_mention(out, id)], id),
        forall|k: int| 0 <= k < first_mention(out, id) ==> !rec_mentions(#[trigger] out[k], id),
    decreases out.len(),
{
    if out.len() > 0 && !rec_mentions(out[0], id) {
        lemma_first_mention_bounds(out.drop_first(), id);
        let fm = first_mention(out.drop_first(), id);
        if fm < out.drop_first().len() {
            assert(out.drop_first()[fm] == out[fm + 1]);
        }
        assert forall|k: int| 0 <= k < first_mention(out, id) implies !rec_mentions(
            #[trigger] out[k],
            id,
        ) by {
            if k > 0 {
                assert(out.drop_first()[k - 1] == out[k]);
            }
        }
    }
}

proof fn lemma_first_mention_push(out: Seq<BlockRecord>, rec: BlockRecord, id: Seq<char>)
    ensures
        first_mention(out.push(rec), id) == (if first_mention(out, id) < out.len() {
            first_mention(out, id)
        } else if rec_mentions(rec, id) {
            out.len() as int
        } else {
            out.len() as int + 1
        }),
    decreases out.len(),
{
    lemma_first_mention_bounds(out, id);
    if out.len() == 0 {
        assert(out.push(rec)[0] == rec);
        assert(out.push(rec).drop_first() =~= Seq::<BlockRecord>::empty());
        assert(first_mention(Seq::<BlockRecord>::empty(), id) == 0);
    } else {
        assert(out.push(rec)[0] == out[0]);
        if !rec_mentions(out[0], id) {
            assert(out.push(rec).drop_first() =~= out.drop_first().push(rec));
            lemma_first_mention_push(out.drop_first(), rec, id);
        }
    }
}

/// In a well-formed graph, `g_index` is the one index holding the block
/// with the given identifier.
pub proof fn lemma_g_index_unique(g: Seq<BlockInfo>, k: int)
    requires
        graph_wf(g),
        0 <= k < g.len(),
    ensures
        g_index(g, g[k].id@) == k,
{
    assert(g_has(g, g[k].id@));
    let j = g_index(g, g[k].id@);
    assert(0 <= j < g.len() && g[j].id@ == g[k].id@);
}

/// Every parent identifier named anywhere in the graph.
spec fn all_parent_ids(g: Seq<BlockInfo>) -> Set<Seq<char>>
    decreases g.len(),
{
    if g.len() == 0 {
        Set::<Seq<char>>::empty()
    } else {
        all_parent_ids(g.drop_last()).union(
            match g.last().parents {
                Option::Some(ps) => str_views(ps@).to_set(),
                Option::None => Set::<Seq<char>>::empty(),
            },
        )
    }
}

proof fn lemma_all_parent_ids_finite(g: Seq<BlockInfo>)
    ensures
        all_parent_ids(g).finite(),
    decreases g.len(),
{
    broadcast use vstd::seq_lib::seq_to_set_is_finite;

    if g.len() > 0 {
        lemma_all_parent_ids_finite(g.drop_last());
    }
}

proof fn lemma_parents_in_universe(g: Seq<BlockInfo>, k: int)
    requires
        0 <= k < g.len(),
    ensures
        g[k].parents matches Some(ps) ==> str_views(ps@).to_set().subset_of(all_parent_ids(g)),
    decreases g.len(),
{
    if k + 1 < g.len() {
        lemma_parents_in_universe(g.drop_last(), k);
        assert(g.drop_last()[k] == g[k]);
    }
}

/// The breadth-first rank of an identifier: frontier members rank first,
/// then identifiers in the order a record first names them as a parent.
pub open spec fn bfs_key(f: Seq<Seq<char>>, out: Seq<BlockRecord>, id: Seq<char>) -> int {
    if f.contains(id) {
        -1int
    } else {
        first_mention(out, id)
    }
}

/// The queue entry at `q` repeats a visited identifier or an earlier entry,
/// so the walk will skip it when it is popped.
spec fn stale_at(visited: Seq<String>, queue: Seq<String>, q: int) -> bool {
    ||| seq_contains_str(visited, (queue[q])@)
    ||| exists|p: int| 0 <= p < q && ((#[trigger] queue[p])@ == (queue[q])@)
}

/// The breadth-first rank discipline: records carry non-decreasing ranks,
/// each non-frontier record was first mentioned strictly earlier, and every
/// fresh queue entry ranks at least as high as every record and no higher
/// than the fresh entries behind it.
#[verifier::opaque]
spec fn rank_inv(
    f: Seq<Seq<char>>,
    out: Seq<BlockRecord>,
    visited: Seq<String>,
    queue: Seq<String>,
) -> bool {
    &&& forall|i: int|
        0 <= i < out.len() ==> (f.contains((#[trigger] out[i]).block.id@) || 0 <= first_mention(
            out,
            out[i].block.id@,
        ) < i)
    &&& forall|i: int, j: int|
        0 <= i < j < out.len() ==> bfs_key(f, out, (#[trigger] out[i]).block.id@) <= bfs_key(
            f,
            out,
            (#[trigger] out[j]).block.id@,
        )
    &&& forall|q: int|
        0 <= q < queue.len() && !stale_at(visited, queue, q) ==> bfs_key(f, out, (
        #[trigger] queue[q])@) < out.len()
    &&& forall|p: int, q: int|
        0 <= p < q < queue.len() && !stale_at(visited, queue, p) && !stale_at(visited, queue, q)
            ==> bfs_key(f, out, (#[trigger] queue[p])@) <= bfs_key(f, out, (#[trigger] queue[q])@)
    &&& forall|i: int, q: int|
        0 <= i < out.len() && 0 <= q < queue.len() && !stale_at(visited, queue, q) ==> bfs_key(
            f,
            out,
            (#[trigger] out[i]).block.id@,
        ) <= bfs_key(f, out, (#[trigger] queue[q])@)
}

/// A faithful record's parent mentions are parents of its block.
proof fn lemma_mention_in_parent_ids(
    g: Seq<BlockInfo>,
    anchors: Seq<String>,
    rec: BlockRecord,
    x: Seq<char>,
)
    requires
        g_has(g, rec.block.id@),
        record_matches(anchors, g[g_index(g, rec.block.id@)], rec),
        rec_mentions(rec, x),
    ensures
        parent_ids(g, rec.block.id@).contains(x),
{
    let bid = rec.block.id@;
    let blk = g[g_index(g, bid)];
    match rec.block.parents {
        Option::Some(psr) => {
            match blk.parents {
                Option::Some(psb) => {
                    let t = choose|t: int| 0 <= t < psr@.len() && (psr@[t])@ == x;
                    assert(str_views(psr@)[t] == x);
                    assert(str_views(psb@)[t] == x);
                    assert(parent_ids(g, bid).contains(x));
                },
                Option::None => {
                    assert(false);
                },
            }
        },
        Option::None => {
            assert(false);
        },
    }
}

/// Popping a visited head keeps the rank discipline: every fresh entry of
/// the shortened queue was fresh one position up with the same rank.
proof fn lemma_rank_pop(
    f: Seq<Seq<char>>,
    out: Seq<BlockRecord>,
    visited: Seq<String>,
    visited_old: Seq<String>,
    oq: Seq<String>,
    queue: Seq<String>,
)
    requires
        oq.len() > 0,
        queue == oq.subrange(1, oq.len() as int),
        seq_contains_str(visited, (oq[0])@),
        forall|x: Seq<char>| seq_contains_str(visited_old, x) ==> seq_contains_str(visited, x),
        rank_inv(f, out, visited_old, oq),
    ensures
        rank_inv(f, out, visited, queue),
{
    reveal(rank_inv);
    assert forall|q: int|
        0 <= q < queue.len() && !stale_at(visited, queue, q) implies !stale_at(
        visited_old,
        oq,
        q + 1,
    ) && (#[trigger] queue[q])@ == (oq[q + 1])@ by {
        if seq_contains_str(visited_old, (oq[q + 1])@) {
            assert(stale_at(visited, queue, q));
        }
        if exists|p: int| 0 <= p < q + 1 && ((#[trigger] oq[p])@ == (oq[q + 1])@) {
            let p = choose|p: int| 0 <= p < q + 1 && ((#[trigger] oq[p])@ == (oq[q + 1])@);
            if p == 0 {
                assert(seq_contains_str(visited, (queue[q])@));
                assert(stale_at(visited, queue, q));
            } else {
                assert((queue[p - 1])@ == (queue[q])@);
                assert(stale_at(visited, queue, q));
            }
        }
    }
    assert forall|q: int|
        0 <= q < queue.len() && !stale_at(visited, queue, q) implies bfs_key(f, out, (
        #[trigger] queue[q])@) < out.len() by {
        assert(!stale_at(visited_old, oq, q + 1));
        assert(bfs_key(f, out, (oq[q + 1])@) < out.len());
    }
    assert forall|p: int, q: int|
        0 <= p < q < queue.len() && !stale_at(visited, queue, p) && !stale_at(
            visited,
            queue,
            q,
        ) implies bfs_key(f, out, (#[trigger] queue[p])@) <= bfs_key(f, out, (
    #[trigger] queue[q])@) by {
        assert(!stale_at(visited_old, oq, p + 1));
        assert(!stale_at(visited_old, oq, q + 1));
        assert(bfs_key(f, out, (oq[p + 1])@) <= bfs_key(f, out, (oq[q + 1])@));
    }
    assert forall|i: int, q: int|
        0 <= i < out.len() && 0 <= q < queue.len() && !stale_at(visited, queue, q) implies bfs_key(
            f,
            out,
            (#[trigger] out[i]).block.id@,
        ) <= bfs_key(f, out, (#[trigger] queue[q])@) by {
        assert(!stale_at(visited_old, oq, q + 1));
        assert(bfs_key(f, out, (out[i]).block.id@) <= bfs_key(f, out, (oq[q + 1])@));
    }
}

/// Visiting a fresh head keeps the rank discipline: the new record takes the
/// head's rank, which every earlier record bounds from below and every fresh
/// queue entry from above, and the parents it pushes rank highest of all —
/// any pushed identifier ranked lower was already covered, so its new copy
/// is stale.
proof fn lemma_rank_visit(
    g: Seq<BlockInfo>,
    anchors: Seq<String>,
    f: Seq<Seq<char>>,
    oout: Seq<BlockRecord>,
    rec: BlockRecord,
    visited_old: Seq<String>,
    visited: Seq<String>,
    oq: Seq<String>,
    oq2: Seq<String>,
    queue: Seq<String>,
    out: Seq<BlockRecord>,
)
    requires
        oq.len() > 0,
        oq2 == oq.subrange(1, oq.len() as int),
        out == oout.push(rec),
        rec.block.id@ == (oq[0])@,
        rec.block.parents matches Some(ps) ==> queue == oq2 + ps@,
        rec.block.parents is None ==> queue == oq2,
        !seq_contains_str(visited_old, (oq[0])@),
        seq_contains_str(visited, (oq[0])@),
        forall|x: Seq<char>| seq_contains_str(visited_old, x) ==> seq_contains_str(visited, x),
        forall|i: int|
            0 <= i < oout.len() ==> seq_contains_str(visited_old, (
            #[trigger] oout[i]).block.id@) && g_has(g, oout[i].block.id@) && record_matches(
                anchors,
                g[g_index(g, oout[i].block.id@)],
                oout[i],
            ),
        forall|i: int, p: int|
            #![trigger parent_ids(g, visited_old[i]@)[p]]
            0 <= i < visited_old.len() && g_has(g, (visited_old[i])@) && 0 <= p < parent_ids(
                g,
                visited_old[i]@,
            ).len() ==> seq_contains_str(visited_old, parent_ids(g, visited_old[i]@)[p])
                || seq_contains_str(oq, parent_ids(g, visited_old[i]@)[p]),
        forall|x: Seq<char>|
            f.contains(x) ==> seq_contains_str(visited_old, x) || seq_contains_str(oq, x),
        rank_inv(f, oout, visited_old, oq),
    ensures
        rank_inv(f, out, visited, queue),
{
    reveal(rank_inv);
    let L = oout.len() as int;
    assert(!stale_at(visited_old, oq, 0));
    let key_h = bfs_key(f, oout, (oq[0])@);
    assert(key_h < L);
    lemma_first_mention_bounds(oout, (oq[0])@);
    // Ranks established before the new record survive it.
    assert forall|z: Seq<char>|
        f.contains(z) || first_mention(oout, z) < L implies #[trigger] bfs_key(f, out, z)
            == bfs_key(f, oout, z) by {
        if !f.contains(z) {
            lemma_first_mention_push(oout, rec, z);
        }
    }
    assert(bfs_key(f, out, rec.block.id@) == key_h);
    // Each record's identifier was first mentioned strictly earlier.
    assert forall|i: int|
        0 <= i < out.len() implies (f.contains((#[trigger] out[i]).block.id@) || 0
            <= first_mention(out, out[i].block.id@) < i) by {
        lemma_first_mention_bounds(oout, out[i].block.id@);
        lemma_first_mention_push(oout, rec, out[i].block.id@);
        if i < L {
            assert(out[i] == oout[i]);
        } else {
            assert(out[i] == rec);
        }
    }
    // Record ranks stay sorted; the new record's rank tops them.
    assert forall|i: int, j: int|
        0 <= i < j < out.len() implies bfs_key(f, out, (#[trigger] out[i]).block.id@) <= bfs_key(
            f,
            out,
            (#[trigger] out[j]).block.id@,
        ) by {
        assert(out[i] == oout[i]);
        if j < L {
            assert(out[j] == oout[j]);
            assert(bfs_key(f, oout, (oout[i]).block.id@) <= bfs_key(f, oout, (
            oout[j]).block.id@));
        } else {
            assert(out[j] == rec);
            assert(bfs_key(f, oout, (oout[i]).block.id@) <= bfs_key(f, oout, (oq[0])@));
        }
    }
    // A fresh entry of the shortened old queue was fresh one position up.
    assert forall|q: int|
        0 <= q < oq2.len() && q < queue.len() && !stale_at(visited, queue, q) implies !stale_at(
        visited_old,
        oq,
        q + 1,
    ) && (#[trigger] queue[q])@ == (oq[q + 1])@ by {
        assert((queue[q])@ == (oq2[q])@);
        if seq_contains_str(visited_old, (oq[q + 1])@) {
            assert(stale_at(visited, queue, q));
        }
        if exists|p: int| 0 <= p < q + 1 && ((#[trigger] oq[p])@ == (oq[q + 1])@) {
            let p = choose|p: int| 0 <= p < q + 1 && ((#[trigger] oq[p])@ == (oq[q + 1])@);
            if p == 0 {
                assert(seq_contains_str(visited, (queue[q])@));
                assert(stale_at(visited, queue, q));
            } else {
                assert((queue[p - 1])@ == (queue[q])@);
                assert(stale_at(visited, queue, q));
            }
        }
    }
    // A fresh pushed parent ranks exactly at the new record: were it ranked
    // lower, it would already be covered, and its new copy stale.
    assert forall|q: int|
        oq2.len() <= q < queue.len() && !stale_at(visited, queue, q) implies bfs_key(
            f,
            out,
            (#[trigger] queue[q])@,
        ) == L by {
        match rec.block.parents {
            Option::Some(ps2) => {
                let x = (queue[q])@;
                assert(x == (ps2@[q - oq2.len()])@);
                assert(rec_mentions(rec, x));
                lemma_first_mention_bounds(oout, x);
                lemma_first_mention_push(oout, rec, x);
                if f.contains(x) || first_mention(oout, x) < L {
                    // covered already: visited, or somewhere in the old queue
                    if !f.contains(x) {
                        let j = first_mention(oout, x);
                        assert(rec_mentions(oout[j], x));
                        lemma_mention_in_parent_ids(g, anchors, oout[j], x);
                        let bid = (oout[j]).block.id@;
                        let iv = choose|iv: int|
                            0 <= iv < visited_old.len() && (visited_old[iv])@ == bid;
                        assert(parent_ids(g, (visited_old[iv])@).contains(x));
                        let pp = choose|pp: int|
                            0 <= pp < parent_ids(g, (visited_old[iv])@).len() && parent_ids(
                                g,
                                (visited_old[iv])@,
                            )[pp] == x;
                        assert(seq_contains_str(visited_old, parent_ids(g, visited_old[iv]@)[pp])
                            || seq_contains_str(oq, parent_ids(g, visited_old[iv]@)[pp]));
                    }
                    assert(seq_contains_str(visited_old, x) || seq_contains_str(oq, x));
                    if seq_contains_str(visited_old, x) {
                        assert(seq_contains_str(visited, x));
                        assert(stale_at(visited, queue, q));
                    } else {
                        let k = choose|k: int| 0 <= k < oq.len() && (oq[k])@ == x;
                        if k == 0 {
                            assert(seq_contains_str(visited, x));
                            assert(stale_at(visited, queue, q));
                        } else {
                            assert((queue[k - 1])@ == (oq2[k - 1])@);
                            assert((queue[k - 1])@ == x);
                            assert(stale_at(visited, queue, q));
                        }
                    }
                } else {
                    assert(first_mention(oout, x) == L);
                    assert(first_mention(out, x) == L);
                }
            },
            Option::None => {
                assert(queue.len() == oq2.len());
            },
        }
    }
    // Fresh entries rank below the report's new length.
    assert forall|q: int|
        0 <= q < queue.len() && !stale_at(visited, queue, q) implies bfs_key(f, out, (
        #[trigger] queue[q])@) < out.len() by {
        if q < oq2.len() {
            assert(!stale_at(visited_old, oq, q + 1));
            assert(bfs_key(f, oout, (oq[q + 1])@) < L);
        } else {
            assert(bfs_key(f, out, (queue[q])@) == L);
        }
    }
    // Fresh entries stay sorted by rank.
    assert forall|p: int, q: int|
        0 <= p < q < queue.len() && !stale_at(visited, queue, p) && !stale_at(
            visited,
            queue,
            q,
        ) implies bfs_key(f, out, (#[trigger] queue[p])@) <= bfs_key(f, out, (
    #[trigger] queue[q])@) by {
        if q < oq2.len() {
            assert(!stale_at(visited_old, oq, p + 1));
            assert(!stale_at(visited_old, oq, q + 1));
            assert(bfs_key(f, oout, (oq[p + 1])@) <= bfs_key(f, oout, (oq[q + 1])@));
        } else if p < oq2.len() {
            assert(!stale_at(visited_old, oq, p + 1));
            assert(bfs_key(f, oout, (oq[p + 1])@) < L);
            assert(bfs_key(f, out, (queue[q])@) == L);
        } else {
            assert(bfs_key(f, out, (queue[p])@) == L);
            assert(bfs_key(f, out, (queue[q])@) == L);
        }
    }
    // Every record ranks at or below every fresh entry.
    assert forall|i: int, q: int|
        0 <= i < out.len() && 0 <= q < queue.len() && !stale_at(visited, queue, q) implies bfs_key(
            f,
            out,
            (#[trigger] out[i]).block.id@,
        ) <= bfs_key(f, out, (#[trigger] queue[q])@) by {
        if q < oq2.len() {
            assert(!stale_at(visited_old, oq, q + 1));
            if i < L {
                assert(out[i] == oout[i]);
                assert(bfs_key(f, oout, (oout[i]).block.id@) <= bfs_key(f, oout, (oq[q + 1])@));
            } else {
                assert(out[i] == rec);
                assert(bfs_key(f, oout, (oq[0])@) <= bfs_key(f, oout, (oq[q + 1])@));
            }
        } else {
            assert(bfs_key(f, out, (queue[q])@) == L);
            if i < L {
                assert(out[i] == oout[i]);
                lemma_first_mention_bounds(oout, (oout[i]).block.id@);
            } else {
                assert(out[i] == rec);
            }
        }
    }
}

/// A visited set that contains the frontier and is closed under the parent
/// step of its present members contains the last identifier of every walk.
proof fn lemma_closed_walk_covers(
    g: Seq<BlockInfo>,
    f: Seq<Seq<char>>,
    vis: Seq<String>,
    path: Seq<Seq<char>>,
)
    requires
        forall|x: Seq<char>| f.contains(x) ==> seq_contains_str(vis, x),
        forall|i: int, p: int|
            #![trigger parent_ids(g, vis[i]@)[p]]
            0 <= i < vis.len() && g_has(g, (vis[i])@) && 0 <= p < parent_ids(g, vis[i]@).len()
                ==> seq_contains_str(vis, parent_ids(g, vis[i]@)[p]),
        is_walk(g, f, path),
    ensures
        seq_contains_str(vis, path.last()),
    decreases path.len(),
{
    if path.len() == 1 {
        assert(path.last() == path[0]);
    } else {
        let prefix = path.drop_last();
        assert forall|i: int|
            0 < i < prefix.len() implies g_has(g, #[trigger] prefix[i - 1]) && parent_ids(
            g,
            prefix[i - 1],
        ).contains(prefix[i]) by {
            assert(prefix[i - 1] == path[i - 1]);
            assert(prefix[i] == path[i]);
        }
        assert(prefix[0] == path[0]);
        assert(is_walk(g, f, prefix));
        lemma_closed_walk_covers(g, f, vis, prefix);
        let c = prefix.last();
        assert(g_has(g, c) && parent_ids(g, c).contains(path.last()));
        let k = choose|k: int| 0 <= k < vis.len() && (vis[k])@ == c;
        let p = choose|p: int|
            0 <= p < parent_ids(g, c).len() && parent_ids(g, c)[p] == path.last();
        assert(parent_ids(g, vis[k]@)[p] == path.last());
        assert(seq_contains_str(vis, parent_ids(g, vis[k]@)[p]));
    }
}

fn find_block(g: &Vec<BlockInfo>, id: &String) -> (r: Option<usize>)
    ensures
        r matches Some(k) ==> 0 <= k < g@.len() && g@[k as int].id@ == id@,
        r is None ==> !g_has(g@, id@),
{
    let mut i: usize = 0;
    while i < g.len()
        invariant
            0 <= i <= g@.len(),
            forall|j: int| 0 <= j < i ==> (#[trigger] g@[j]).id@ != id@,
        decreases g.len() - i,
    {
        if g[i].id == *id {
            return Some(i);
        }
        i = i + 1;
    }
    None
}

pub(crate) fn clone_string_vec(v: &Vec<String>) -> (r: Vec<String>)
    ensures
        r@ == v@,
{
    let mut r: Vec<String> = Vec::new();
    let mut i: usize = 0;
    while i < v.len()
        invariant
            0 <= i <= v@.len(),
            r@ =~= v@.subrange(0, i as int),
        decreases v.len() - i,
    {
        r.push(v[i].clone());
        i = i + 1;
    }
    proof {
        assert(r@ =~= v@);
    }
    r
}

fn clone_opt_string(v: &Option<String>) -> (r: Option<String>)
    ensures
        opt_str_match(r, *v),
{
    match v {
        Option::Some(s) => Some(s.clone()),
        Option::None => None,
    }
}

fn clone_opt_vec(v: &Option<Vec<String>>) -> (r: Option<Vec<String>>)
    ensures
        opt_vec_match(r, *v),
        r matches Some(x) ==> ((*v) matches Some(y) && x@ == y@),
{
    match v {
        Option::Some(s) => Some(clone_string_vec(s)),
        Option::None => None,
    }
}

fn clone_block(b: &BlockInfo) -> (r: BlockInfo)
    ensures
        block_matches(r, *b),
        r.parents matches Some(x) ==> (b.parents matches Some(y) && x@ == y@),
{
    BlockInfo {
        id: b.id.clone(),
        info_json: clone_opt_string(&b.info_json),
        packs: clone_opt_vec(&b.packs),
        parents: clone_opt_vec(&b.parents),
    }
}

pub(crate) fn push_all(q: &mut Vec<String>, items: &Vec<String>)
    ensures
        final(q)@ == old(q)@ + items@,
{
    let mut i: usize = 0;
    while i < items.len()
        invariant
            0 <= i <= items@.len(),
            q@ =~= old(q)@ + items@.subrange(0, i as int),
        decreases items.len() - i,
    {
        q.push(items[i].clone());
        i = i + 1;
    }
    proof {
        assert(q@ =~= old(q)@ + items@);
    }
}

/// Walks the provenance graph breadth-first from `frontier`.
///
/// Every block of the graph that is reachable from the frontier appears in
/// the report exactly once — diamond shapes neither duplicate output nor
/// loop — with its metadata, pack references, parent set and classification.
/// Identifiers that name no block are skipped silently.
#[verifier::rlimit(100)]
pub fn walk_blocks(g: &Vec<BlockInfo>, frontier: &Vec<String>, anchors: &Vec<String>) -> (out: Vec<
    BlockRecord,
>)
    requires
        graph_wf(g@),
    ensures
        forall|i: int, j: int|
            0 <= i < j < out@.len() ==> (#[trigger] out@[i]).block.id@ != (
            #[trigger] out@[j]).block.id@,
        forall|i: int|
            0 <= i < out@.len() ==> reachable(g@, str_views(frontier@), (
            #[trigger] out@[i]).block.id@) && g_has(g@, out@[i].block.id@) && record_matches(
                anchors@,
                g@[g_index(g@, out@[i].block.id@)],
                out@[i],
            ),
        forall|id: Seq<char>|
            reachable(g@, str_views(frontier@), id) && #[trigger] g_has(g@, id) ==> exists|i: int|
                0 <= i < out@.len() && (#[trigger] out@[i]).block.id@ == id,
        forall|i: int|
            0 <= i < out@.len() ==> (str_views(frontier@).contains((#[trigger] out@[i]).block.id@)
                || 0 <= first_mention(out@, out@[i].block.id@) < i),
        forall|i: int, j: int|
            0 <= i < j < out@.len() ==> bfs_key(str_views(frontier@), out@, (
            #[trigger] out@[i]).block.id@) <= bfs_key(str_views(frontier@), out@, (
            #[trigger] out@[j]).block.id@),
{
    let ghost f = str_views(frontier@);
    let ghost uni = f.to_set().union(all_parent_ids(g@));
    proof {
        broadcast use vstd::seq_lib::seq_to_set_is_finite;

        lemma_all_parent_ids_finite(g@);
        assert(uni.finite());
        assert forall|i: int| 0 <= i < frontier@.len() implies uni.contains(
            (#[trigger] frontier@[i])@,
        ) && reachable(g@, f, (frontier@[i])@) by {
            assert(f[i] == (frontier@[i])@);
            assert(f.contains((frontier@[i])@));
            assert(f.to_set().contains((frontier@[i])@));
            lemma_reach_base(g@, f, (frontier@[i])@);
        }
    }
    let mut queue: Vec<String> = clone_string_vec(frontier);
    let mut visited: Vec<String> = Vec::new();
    let mut out: Vec<BlockRecord> = Vec::new();
    proof {
        // Every initial queue entry is a frontier member, so it ranks first.
        assert forall|q: int| 0 <= q < queue@.len() implies f.contains(
            (#[trigger] queue@[q])@,
        ) by {
            assert(f[q] == (queue@[q])@);
        }
        assert(rank_inv(f, out@, visited@, queue@)) by {
            reveal(rank_inv);
        }
    }
    while queue.len() > 0
        invariant
            graph_wf(g@),
            f == str_views(frontier@),
            uni == f.to_set().union(all_parent_ids(g@)),
            uni.finite(),
            visited@.len() <= uni.len(),
            forall|i: int| 0 <= i < queue@.len() ==> uni.contains((#[trigger] queue@[i])@),
            forall|i: int| 0 <= i < visited@.len() ==> uni.contains((#[trigger] visited@[i])@),
            forall|i: int, j: int|
                0 <= i < j < visited@.len() ==> (#[trigger] visited@[i])@ != (
                #[trigger] visited@[j])@,
            forall|i: int| 0 <= i < queue@.len() ==> reachable(g@, f, (#[trigger] queue@[i])@),
            forall|i: int| 0 <= i < visited@.len() ==> reachable(g@, f, (#[trigger] visited@[i])@),
            forall|x: Seq<char>|
                f.contains(x) ==> seq_contains_str(visited@, x) || seq_contains_str(queue@, x),
            forall|i: int, p: int|
                #![trigger parent_ids(g@, visited@[i]@)[p]]
                0 <= i < visited@.len() && g_has(g@, (visited@[i])@) && 0 <= p < parent_ids(
                    g@,
                    visited@[i]@,
                ).len() ==> seq_contains_str(visited@, parent_ids(g@, visited@[i]@)[p])
                    || seq_contains_str(queue@, parent_ids(g@, visited@[i]@)[p]),
            forall|i: int, j: int|
                0 <= i < j < out@.len() ==> (#[trigger] out@[i]).block.id@ != (
                #[trigger] out@[j]).block.id@,
            forall|i: int|
                0 <= i < out@.len() ==> seq_contains_str(visited@, (#[trigger] out@[i]).block.id@)
                    && g_has(g@, out@[i].block.id@) && record_matches(
                    anchors@,
                    g@[g_index(g@, out@[i].block.id@)],
                    out@[i],
                ),
            forall|i: int|
                0 <= i < visited@.len() && g_has(g@, (#[trigger] visited@[i])@) ==> exists|k: int|
                    0 <= k < out@.len() && (#[trigger] out@[k]).block.id@ == visited@[i]@,
            rank_inv(f, out@, visited@, queue@),
        decreases uni.len() - visited@.len(), queue@.len(),
    {
        let ghost oq = queue@;
        let id = queue.remove(0);
        proof {
            assert(id == oq[0]);
            assert(queue@ =~= oq.subrange(1, oq.len() as int));
            assert(uni.contains(id@));
            assert(reachable(g@, f, id@));
        }
        if vec_contains(&visited, &id) {
            proof {
                assert forall|x: Seq<char>| seq_contains_str(oq, x) implies seq_contains_str(
                    visited@,
                    x,
                ) || seq_contains_str(queue@, x) by {
                    let k = choose|k: int| 0 <= k < oq.len() && (oq[k])@ == x;
                    if k == 0 {
                        assert((oq[0])@ == id@);
                    } else {
                        assert((queue@[k - 1])@ == x);
                    }
                }
                // The pop shifts the queue; the popped identifier is
                // already visited, so the rank discipline carries over.
                lemma_rank_pop(f, out@, visited@, visited@, oq, queue@);
            }
        } else {
            let ghost ov = visited@;
            let ghost oq2 = queue@;
            let ghost oout = out@;
            match find_block(g, &id) {
                Option::Some(bi) => {
                    proof {
                        lemma_g_index_unique(g@, bi as int);
                        assert(g_index(g@, id@) == bi as int);
                        assert(g_has(g@, id@));
                    }
                    match &g[bi].parents {
                        Option::Some(ps) => {
                            proof {
                                lemma_parents_in_universe(g@, bi as int);
                                assert(parent_ids(g@, id@) =~= str_views(ps@));
                                assert forall|p: int|
                                    0 <= p < ps@.len() implies uni.contains((#[trigger] ps@[p])@)
                                    && reachable(g@, f, (ps@[p])@) by {
                                    assert(str_views(ps@)[p] == (ps@[p])@);
                                    assert(str_views(ps@).contains((ps@[p])@));
                                    assert(str_views(ps@).to_set().contains((ps@[p])@));
                                    assert(all_parent_ids(g@).contains((ps@[p])@));
                                    assert(parent_ids(g@, id@).contains((ps@[p])@));
                                    lemma_reach_step(g@, f, id@, (ps@[p])@);
                                }
                            }
                            push_all(&mut queue, ps);
                        },
                        Option::None => {},
                    }
                    let in_anchors = vec_contains(anchors, &id);
                    let role = if in_anchors {
                        BlockRole::Anchor
                    } else {
                        match &g[bi].parents {
                            Option::Some(_) => BlockRole::Intermediate,
                            Option::None => BlockRole::Origin,
                        }
                    };
                    let rec = BlockRecord { role, block: clone_block(&g[bi]) };
                    proof {
                        assert(record_matches(anchors@, g@[bi as int], rec));
                    }
                    out.push(rec);
                    visited.push(id);
                    proof {
                        // Rank bookkeeping: the new record takes the rank
                        // its identifier had at the head of the queue, and
                        // its parents join at the highest rank.
                        let rec2 = out@[oout.len() as int];
                        assert(out@ == oout.push(rec2));
                        assert(rec2.block.id@ == (oq[0])@);
                        assert(oq2 =~= oq.subrange(1, oq.len() as int));
                        match rec2.block.parents {
                            Option::Some(ps2) => {
                                assert(queue@ =~= oq2 + ps2@);
                            },
                            Option::None => {
                                assert(queue@ =~= oq2);
                            },
                        }
                        assert((visited@[visited@.len() - 1])@ == id@);
                        assert(seq_contains_str(visited@, (oq[0])@));
                        assert forall|x: Seq<char>| seq_contains_str(ov, x) implies seq_contains_str(
                            visited@,
                            x,
                        ) by {
                            let k = choose|k: int| 0 <= k < ov.len() && (ov[k])@ == x;
                            assert((visited@[k])@ == x);
                        }
                        lemma_rank_visit(
                            g@,
                            anchors@,
                            f,
                            oout,
                            rec2,
                            ov,
                            visited@,
                            oq,
                            oq2,
                            queue@,
                            out@,
                        );
                        // Every graph member of the visited set has its record.
                        assert forall|i: int|
                            0 <= i < visited@.len() && g_has(g@, (#[trigger] visited@[i])@)
                            implies exists|k: int|
                            0 <= k < out@.len() && (#[trigger] out@[k]).block.id@
                                == visited@[i]@ by {
                            if i < ov.len() {
                                assert((visited@[i])@ == (ov[i])@);
                                let k = choose|k: int|
                                    0 <= k < oout.len() && (#[trigger] oout[k]).block.id@ == (
                                    ov[i])@;
                                assert((out@[k]).block.id@ == visited@[i]@);
                            } else {
                                assert((out@[oout.len() as int]).block.id@ == visited@[i]@);
                            }
                        }
                    }
                },
                Option::None => {
                    visited.push(id);
                    proof {
                        assert forall|i: int|
                            0 <= i < visited@.len() && g_has(g@, (#[trigger] visited@[i])@)
                            implies exists|k: int|
                            0 <= k < out@.len() && (#[trigger] out@[k]).block.id@
                                == visited@[i]@ by {
                            if i < ov.len() {
                                assert((visited@[i])@ == (ov[i])@);
                            } else {
                                assert(!g_has(g@, id@));
                            }
                        }
                        assert((visited@[visited@.len() - 1])@ == id@);
                        assert(seq_contains_str(visited@, (oq[0])@));
                        assert forall|x: Seq<char>| seq_contains_str(ov, x) implies seq_contains_str(
                            visited@,
                            x,
                        ) by {
                            let k = choose|k: int| 0 <= k < ov.len() && (ov[k])@ == x;
                            assert((visited@[k])@ == x);
                        }
                        lemma_rank_pop(f, out@, visited@, ov, oq, queue@);
                    }
                },
            }
            proof {
                // The popped identifier now sits in the visited set; everything
                // the old queue covered is still covered.
                assert((visited@[visited@.len() - 1])@ == id@);
                assert(seq_contains_str(visited@, id@));
                assert forall|x: Seq<char>| seq_contains_str(oq2, x) implies seq_contains_str(
                    queue@,
                    x,
                ) by {
                    let k = choose|k: int| 0 <= k < oq2.len() && (oq2[k])@ == x;
                    assert((queue@[k])@ == x);
                }
                assert forall|x: Seq<char>| seq_contains_str(ov, x) implies seq_contains_str(
                    visited@,
                    x,
                ) by {
                    let k = choose|k: int| 0 <= k < ov.len() && (ov[k])@ == x;
                    assert((visited@[k])@ == x);
                }
                assert forall|x: Seq<char>| seq_contains_str(oq, x) implies seq_contains_str(
                    visited@,
                    x,
                ) || seq_contains_str(queue@, x) by {
                    let k = choose|k: int| 0 <= k < oq.len() && (oq[k])@ == x;
                    if k == 0 {
                        assert((oq[0])@ == id@);
                    } else {
                        assert((oq2[k - 1])@ == x);
                        assert(seq_contains_str(oq2, x));
                    }
                }
                // The new visited member's parents sit in the queue.
                if g_has(g@, id@) {
                    let bi2 = g_index(g@, id@);
                    match g@[bi2].parents {
                        Option::Some(ps) => {
                            assert forall|p: int|
                                0 <= p < parent_ids(g@, id@).len() implies seq_contains_str(
                                queue@,
                                parent_ids(g@, id@)[p],
                            ) by {
                                assert(parent_ids(g@, id@) =~= str_views(ps@));
                                assert((queue@[oq2.len() + p])@ == (ps@[p])@);
                            }
                        },
                        Option::None => {
                            assert(parent_ids(g@, id@) =~= Seq::<Seq<char>>::empty());
                        },
                    }
                }
                // The parent-closure of every visited member still holds.
                assert forall|i: int, p: int|
                    #![trigger parent_ids(g@, visited@[i]@)[p]]
                    0 <= i < visited@.len() && g_has(g@, (visited@[i])@) && 0 <= p < parent_ids(
                        g@,
                        visited@[i]@,
                    ).len() implies seq_contains_str(visited@, parent_ids(g@, visited@[i]@)[p])
                    || seq_contains_str(queue@, parent_ids(g@, visited@[i]@)[p]) by {
                    if i < ov.len() {
                        assert((visited@[i])@ == (ov[i])@);
                        assert(seq_contains_str(ov, parent_ids(g@, ov[i]@)[p])
                            || seq_contains_str(oq, parent_ids(g@, ov[i]@)[p]));
                    }
                }
                // Cardinality: the visited views stay distinct inside the
                // finite universe.
                assert(str_views(visited@).no_duplicates());
                assert forall|x: Seq<char>|
                    str_views(visited@).to_set().contains(x) implies uni.contains(x) by {
                    let k = choose|k: int|
                        0 <= k < str_views(visited@).len() && str_views(visited@)[k] == x;
                    assert(uni.contains((visited@[k])@));
                }
                assert(str_views(visited@).to_set().subset_of(uni));
                str_views(visited@).unique_seq_to_set();
                vstd::set_lib::lemma_len_subset(str_views(visited@).to_set(), uni);
                assert(str_views(visited@).len() == visited@.len());
                assert(visited@.len() <= uni.len());
            }
        }
    }
    proof {
        // The queue is drained: the visited set contains the frontier and is
        // closed under parent steps, so it covers everything reachable.
        assert forall|id: Seq<char>|
            reachable(g@, f, id) && #[trigger] g_has(g@, id) implies exists|i: int|
            0 <= i < out@.len() && (#[trigger] out@[i]).block.id@ == id by {
            assert forall|i: int, p: int|
                #![trigger parent_ids(g@, visited@[i]@)[p]]
                0 <= i < visited@.len() && g_has(g@, (visited@[i])@) && 0 <= p < parent_ids(
                    g@,
                    visited@[i]@,
                ).len() implies seq_contains_str(visited@, parent_ids(g@, visited@[i]@)[p]) by {
                assert(!seq_contains_str(queue@, parent_ids(g@, visited@[i]@)[p]));
            }
            let path = choose|path: Seq<Seq<char>>|
                #[trigger] is_walk(g@, f, path) && path.last() == id;
            lemma_closed_walk_covers(g@, f, visited@, path);
            let k = choose|k: int| 0 <= k < visited@.len() && (visited@[k])@ == id;
            assert(g_has(g@, (visited@[k])@));
        }
        assert forall|i: int| 0 <= i < out@.len() implies reachable(
            g@,
            str_views(frontier@),
            (#[trigger] out@[i]).block.id@,
        ) by {
            let k = choose|k: int| 0 <= k < visited@.len() && (visited@[k])@ == out@[i].block.id@;
            assert(reachable(g@, f, (visited@[k])@));
        }
        // The rank discipline yields the breadth-first order of the report.
        reveal(rank_inv);
    }
    out
}

} // verus!
