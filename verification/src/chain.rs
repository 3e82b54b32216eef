//! The revision chain walker.
//!
//! An object's revisions form a chain: each revision points to at most one
//! parent, and parents are strictly older. Starting from the current winner,
//! the walker emits each revision before asking for its parent and stops at
//! the origin revision, so the output runs newest first.

use vstd::prelude::*;

use crate::errors::ToolError;
use crate::str_views;

verus! {

/// One revision of an object: its identifier and its parent's, if any.
pub struct RevisionLink {
    pub id: String,
    pub parent: Option<String>,
}

/// Whether the table has an entry with the given identifier.
pub open spec fn has_id(t: Seq<RevisionLink>, id: Seq<char>) -> bool {
    exists|j: int| 0 <= j < t.len() && (#[trigger] t[j]).id@ == id
}

/// The index of the entry with the given identifier.
pub open spec fn index_of_id(t: Seq<RevisionLink>, id: Seq<char>) -> int {
    choose|j: int| 0 <= j < t.len() && (#[trigger] t[j]).id@ == id
}

/// A well-formed revision table: identifiers are distinct, and every parent
/// reference names an entry further down the table (revisions are listed
/// newest first, parents are strictly older, so chains are acyclic).
pub open spec fn table_wf(t: Seq<RevisionLink>) -> bool {
    &&& forall|i: int, j: int|
        0 <= i < j < t.len() ==> (#[trigger] t[i]).id@ != (#[trigger] t[j]).id@
    &&& forall|i: int|
        0 <= i < t.len() ==> ((#[trigger] t[i]).parent matches Some(p) ==> exists|j: int|
            i < j < t.len() && (#[trigger] t[j]).id@ == p@)
}

/// In a table with distinct identifiers, `index_of_id` is the one index
/// holding the identifier.
pub proof fn lemma_index_unique(t: Seq<RevisionLink>, k: int, id: Seq<char>)
    requires
        forall|i: int, j: int|
            0 <= i < j < t.len() ==> (#[trigger] t[i]).id@ != (#[trigger] t[j]).id@,
        0 <= k < t.len(),
        t[k].id@ == id,
    ensures
        index_of_id(t, id) == k,
{
    assert(has_id(t, id));
    let j = index_of_id(t, id);
    assert(0 <= j < t.len() && t[j].id@ == id);
}

/// The revision identifiers emitted from entry `idx` on: the entry itself,
/// then its parent's chain.
pub open spec fn spec_history_from(t: Seq<RevisionLink>, idx: int) -> Seq<Seq<char>>
    decreases t.len() - idx,
{
    if 0 <= idx < t.len() {
        let tail = match t[idx].parent {
            Option::None => Seq::<Seq<char>>::empty(),
            Option::Some(p) => {
                let j = index_of_id(t, p@);
                if idx < j < t.len() {
                    spec_history_from(t, j)
                } else {
                    Seq::<Seq<char>>::empty()
                }
            },
        };
        seq![t[idx].id@] + tail
    } else {
        Seq::<Seq<char>>::empty()
    }
}

fn find_link(t: &Vec<RevisionLink>, id: &String) -> (r: Option<usize>)
    ensures
        r matches Some(k) ==> 0 <= k < t@.len() && t@[k as int].id@ == id@,
        r is None ==> !has_id(t@, id@),
{
    let mut i: usize = 0;
    while i < t.len()
        invariant
            0 <= i <= t@.len(),
            forall|j: int| 0 <= j < i ==> (#[trigger] t@[j]).id@ != id@,
        decreases t.len() - i,
    {
        if t[i].id == *id {
            return Some(i);
        }
        i = i + 1;
    }
    None
}

/// Walks one object's revision chain in a well-formed table, newest first:
/// the starting revision, then each parent in turn, ending at the origin.
/// An identifier absent from the table is refused with `UnknownObject`.
pub fn chain_history(table: &Vec<RevisionLink>, start: &String) -> (r: Result<
    Vec<String>,
    ToolError,
>)
    requires
        table_wf(table@),
    ensures
        r is Ok <==> has_id(table@, start@),
        r matches Ok(v) ==> str_views(v@) == spec_history_from(
            table@,
            index_of_id(table@, start@),
        ),
        r matches Err(e) ==> e is UnknownObject,
{
    let start_idx = match find_link(table, start) {
        Option::Some(k) => k,
        Option::None => {
            return Err(ToolError::UnknownObject(start.clone()));
        },
    };
    proof {
        lemma_index_unique(table@, start_idx as int, start@);
    }
    let mut out: Vec<String> = Vec::new();
    let mut cur: usize = start_idx;
    loop
        invariant_except_break
            spec_history_from(table@, start_idx as int) =~= str_views(out@) + spec_history_from(
                table@,
                cur as int,
            ),
        invariant
            table_wf(table@),
            0 <= cur < table@.len(),
            start_idx < table@.len(),
        ensures
            str_views(out@) == spec_history_from(table@, start_idx as int),
        decreases table@.len() - cur,
    {
        let ghost prev_out = out@;
        let ghost prev_cur = cur as int;
        out.push(table[cur].id.clone());
        proof {
            assert(str_views(out@) =~= str_views(prev_out).push(table@[prev_cur].id@));
        }
        match &table[cur].parent {
            Option::None => {
                proof {
                    assert(spec_history_from(table@, prev_cur) =~= seq![table@[prev_cur].id@]);
                    assert(str_views(prev_out) + spec_history_from(table@, prev_cur)
                        =~= str_views(out@));
                }
                break ;
            },
            Option::Some(p) => {
                let next = match find_link(table, p) {
                    Option::Some(j) => j,
                    Option::None => {
                        proof {
                            // A well-formed table holds every referenced parent.
                            assert(table@[prev_cur].parent matches Some(q) && has_id(table@, q@));
                            assert(false);
                        }
                        break ;
                    },
                };
                proof {
                    lemma_index_unique(table@, next as int, p@);
                    // The parent sits strictly further down the table.
                    assert(table@[prev_cur].parent matches Some(q) && exists|j: int|
                        prev_cur < j < table@.len() && (#[trigger] table@[j]).id@ == q@);
                    let w = choose|j: int|
                        prev_cur < j < table@.len() && (#[trigger] table@[j]).id@ == p@;
                    lemma_index_unique(table@, w, p@);
                    assert(next as int == w);
                    assert(spec_history_from(table@, prev_cur) =~= seq![table@[prev_cur].id@]
                        + spec_history_from(table@, next as int));
                    assert(spec_history_from(table@, start_idx as int) =~= str_views(out@)
                        + spec_history_from(table@, next as int));
                }
                cur = next;
            },
        }
    }
    Ok(out)
}

/// One link's place in a linear chain: its parent is exactly the next entry,
/// and the last entry has none.
pub open spec fn link_is_linear(t: Seq<RevisionLink>, i: int) -> bool {
    if i + 1 < t.len() {
        t[i].parent matches Some(p) && p@ == t[i + 1].id@
    } else {
        t[i].parent is None
    }
}

/// A table of sequential revisions with no branching, newest first.
pub open spec fn is_linear_chain(t: Seq<RevisionLink>) -> bool {
    forall|i: int| 0 <= i < t.len() ==> link_is_linear(t, i)
}

/// Law: on a well-formed table of N sequential revisions with no branching,
/// the walk from entry `idx` emits exactly the identifiers of entries
/// `idx..N`, in table order — from the newest entry, all N of them, newest
/// first, ending at the origin revision.
pub proof fn lemma_linear_chain_history(t: Seq<RevisionLink>, idx: int)
    requires
        table_wf(t),
        is_linear_chain(t),
        0 <= idx < t.len(),
    ensures
        spec_history_from(t, idx).len() == t.len() - idx,
        forall|m: int| 0 <= m < t.len() - idx ==> spec_history_from(t, idx)[m] == t[idx + m].id@,
    decreases t.len() - idx,
{
    assert(link_is_linear(t, idx));
    if idx + 1 < t.len() {
        match t[idx].parent {
            Option::Some(p) => {
                lemma_index_unique(t, idx + 1, p@);
                lemma_linear_chain_history(t, idx + 1);
                assert(spec_history_from(t, idx) =~= seq![t[idx].id@] + spec_history_from(
                    t,
                    idx + 1,
                ));
            },
            Option::None => {
                assert(false);
            },
        }
    } else {
        assert(spec_history_from(t, idx) =~= seq![t[idx].id@]);
    }
}

} // verus!
