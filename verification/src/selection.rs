//! Choosing which extractor's primary root filesystem becomes the output.

use vstd::prelude::*;

verus! {

/// Which extractor's primary result was kept, and how it was chosen.
pub enum BestExtractor {
    /// Several extractors found a primary root filesystem; this one won.
    Best(&'static str),
    /// Exactly one extractor found a primary root filesystem.
    Only(&'static str),
    /// The extractors found identical filesystems.
    Identical(&'static str),
    /// No extractor found a primary root filesystem.
    NoResult,
}

/// What the choice reads of one extraction result: its rank among the
/// filesystems that its extractor found (0 is the primary), the extractor's
/// name, and the number of file nodes in the archive.
#[derive(Clone, Copy)]
pub struct ExtractionSummary {
    pub index: usize,
    pub extractor: &'static str,
    pub file_node_count: usize,
}

/// Whether an extractor name is the one preferred on ties.
pub open spec fn is_unblob(name: &str) -> bool {
    name@ == "unblob"@
}

/// `a` beats `b`: more file nodes, or as many and `a` is unblob's while `b`
/// is not.
pub open spec fn ranks_above(a: ExtractionSummary, b: ExtractionSummary) -> bool {
    ||| a.file_node_count > b.file_node_count
    ||| (a.file_node_count == b.file_node_count && is_unblob(a.extractor) && !is_unblob(b.extractor))
}

/// A primary result (index 0).
pub open spec fn is_primary(r: ExtractionSummary) -> bool {
    r.index == 0
}

/// Position `j` holds the winning primary result: nothing primary ranks
/// above it, and it ranks above every primary result before it.
pub open spec fn is_best_position(rs: Seq<ExtractionSummary>, j: int) -> bool {
    &&& 0 <= j < rs.len()
    &&& is_primary(rs[j])
    &&& forall|i: int|
        0 <= i < rs.len() && is_primary(#[trigger] rs[i]) ==> !ranks_above(rs[i], rs[j]) && (i < j
            ==> ranks_above(rs[j], rs[i]))
}

/// The number of primary results.
pub open spec fn primary_count(rs: Seq<ExtractionSummary>) -> nat
    decreases rs.len(),
{
    if rs.len() == 0 {
        0
    } else {
        primary_count(rs.drop_last()) + if is_primary(rs.last()) {
            1nat
        } else {
            0nat
        }
    }
}

/// The winning position, if there is a primary result.
pub open spec fn best_position(rs: Seq<ExtractionSummary>) -> int {
    choose|j: int| is_best_position(rs, j)
}

/// The choice reported for the results `rs`.
pub open spec fn best_extractor_spec(rs: Seq<ExtractionSummary>) -> BestExtractor {
    if primary_count(rs) == 0 {
        BestExtractor::NoResult
    } else if primary_count(rs) == 1 {
        BestExtractor::Only(rs[best_position(rs)].extractor)
    } else {
        BestExtractor::Best(rs[best_position(rs)].extractor)
    }
}

fn name_is_unblob(name: &str) -> (r: bool)
    ensures
        r == is_unblob(name),
{
    name.to_owned() == "unblob".to_owned()
}

/// No result is primary exactly when the primary count is zero.
pub proof fn lemma_primary_count_zero(rs: Seq<ExtractionSummary>)
    ensures
        primary_count(rs) == 0 <==> forall|i: int| 0 <= i < rs.len() ==> !is_primary(#[trigger] rs[i]),
    decreases rs.len(),
{
    if rs.len() > 0 {
        let init = rs.drop_last();
        lemma_primary_count_zero(init);
        if primary_count(rs) == 0 {
            assert forall|i: int| 0 <= i < rs.len() implies !is_primary(#[trigger] rs[i]) by {
                if i < rs.len() - 1 {
                    assert(init[i] == rs[i]);
                }
            }
        }
        if forall|i: int| 0 <= i < rs.len() ==> !is_primary(#[trigger] rs[i]) {
            assert forall|i: int| 0 <= i < init.len() implies !is_primary(#[trigger] init[i]) by {
                assert(init[i] == rs[i]);
            }
            assert(!is_primary(rs[rs.len() - 1]));
        }
    }
}

/// At most one position wins.
pub proof fn lemma_best_position_unique(rs: Seq<ExtractionSummary>, j1: int, j2: int)
    requires
        is_best_position(rs, j1),
        is_best_position(rs, j2),
    ensures
        j1 == j2,
{
    if j1 < j2 {
        assert(is_primary(rs[j1]));
    } else if j2 < j1 {
        assert(is_primary(rs[j2]));
    }
}

/// Appending a result to results whose winner is `j`: the new result wins
/// if it is primary and ranks above `j`; otherwise `j` still wins.
pub proof fn lemma_best_position_extend(rs: Seq<ExtractionSummary>, j: int)
    requires
        rs.len() > 0,
        is_best_position(rs.drop_last(), j),
    ensures
        is_primary(rs.last()) && ranks_above(rs.last(), rs[j]) ==> is_best_position(
            rs,
            rs.len() - 1,
        ),
        !(is_primary(rs.last()) && ranks_above(rs.last(), rs[j])) ==> is_best_position(rs, j),
{
    let init = rs.drop_last();
    let n = rs.len() - 1;
    assert(init[j] == rs[j]);
    if is_primary(rs[n]) && ranks_above(rs[n], rs[j]) {
        assert forall|i: int| 0 <= i < rs.len() && is_primary(#[trigger] rs[i]) implies !ranks_above(
            rs[i],
            rs[n],
        ) && (i < n ==> ranks_above(rs[n], rs[i])) by {
            if i < n {
                assert(init[i] == rs[i]);
            }
        }
    } else {
        assert forall|i: int| 0 <= i < rs.len() && is_primary(#[trigger] rs[i]) implies !ranks_above(
            rs[i],
            rs[j],
        ) && (i < j ==> ranks_above(rs[j], rs[i])) by {
            if i < n {
                assert(init[i] == rs[i]);
            }
        }
    }
}

/// Appending a result to results with no primary one: the new result wins
/// if it is primary; otherwise there is still no primary result.
pub proof fn lemma_best_position_first(rs: Seq<ExtractionSummary>)
    requires
        rs.len() > 0,
        primary_count(rs.drop_last()) == 0,
    ensures
        is_primary(rs.last()) ==> is_best_position(rs, rs.len() - 1),
        !is_primary(rs.last()) ==> primary_count(rs) == 0,
{
    let init = rs.drop_last();
    let n = rs.len() - 1;
    lemma_primary_count_zero(init);
    assert forall|i: int| 0 <= i < rs.len() && is_primary(#[trigger] rs[i]) implies !ranks_above(
        rs[i],
        rs[n],
    ) && (i < n ==> ranks_above(rs[n], rs[i])) by {
        if i < n {
            assert(init[i] == rs[i]);
        }
    }
}

/// A winning position exists exactly when some result is primary.
pub proof fn lemma_best_position_exists(rs: Seq<ExtractionSummary>)
    ensures
        (exists|j: int| is_best_position(rs, j)) <==> primary_count(rs) > 0,
    decreases rs.len(),
{
    lemma_primary_count_zero(rs);
    if rs.len() > 0 {
        let init = rs.drop_last();
        lemma_best_position_exists(init);
        if exists|j: int| is_best_position(init, j) {
            let j = choose|j: int| is_best_position(init, j);
            lemma_best_position_extend(rs, j);
        } else {
            lemma_best_position_first(rs);
        }
    }
}

/// The position of the winning primary result: the first of those with the
/// most file nodes, unblob's preferred among equals; `None` when no result
/// is primary.
pub fn best_result(results: &Vec<ExtractionSummary>) -> (best: Option<usize>)
    ensures
        match best {
            Some(j) => is_best_position(results@, j as int),
            None => primary_count(results@) == 0,
        },
        best is None <==> forall|i: int| 0 <= i < results.len() ==> (#[trigger] results[i]).index != 0,
        best matches Some(j) ==> {
            &&& j < results.len()
            &&& results[j as int].index == 0
            &&& forall|i: int|
                0 <= i < results.len() && (#[trigger] results[i]).index == 0 ==> {
                    &&& results[i].file_node_count <= results[j as int].file_node_count
                    &&& results[i].file_node_count == results[j as int].file_node_count
                        && results[i].extractor@ == "unblob"@ ==> results[j as int].extractor@
                        == "unblob"@
                    &&& i < j ==> (results[i].file_node_count < results[j as int].file_node_count
                        || (results[i].file_node_count == results[j as int].file_node_count
                        && results[i].extractor@ != "unblob"@ && results[j as int].extractor@
                        == "unblob"@))
                }
        },
{
    let mut best: Option<usize> = None;
    let mut best_unblob = false;
    for i in 0..results.len()
        invariant
            match best {
                Some(j) => j < i && is_best_position(results@.take(i as int), j as int)
                    && best_unblob == is_unblob(results@[j as int].extractor),
                None => primary_count(results@.take(i as int)) == 0,
            },
    {
        let ghost prefix = results@.take(i + 1);
        proof {
            assert(prefix.drop_last() =~= results@.take(i as int));
            assert(prefix.last() == results@[i as int]);
            match best {
                Some(j) => {
                    lemma_best_position_extend(prefix, j as int);
                    assert(prefix[j as int] == results@[j as int]);
                },
                None => {
                    lemma_best_position_first(prefix);
                },
            }
        }
        let r = results[i];
        if r.index == 0 {
            let unblob = name_is_unblob(r.extractor);
            match best {
                Some(j) => {
                    let b = results[j];
                    if r.file_node_count > b.file_node_count || (r.file_node_count
                        == b.file_node_count && unblob && !best_unblob) {
                        best = Some(i);
                        best_unblob = unblob;
                    }
                },
                None => {
                    best = Some(i);
                    best_unblob = unblob;
                },
            }
        }
        proof {
            if let Some(j) = best {
                assert(prefix[j as int] == results@[j as int]);
            }
        }
    }
    assert(results@.take(results.len() as int) =~= results@);
    proof {
        lemma_primary_count_zero(results@);
        if let Some(j) = best {
            assert forall|i: int| 0 <= i < results.len() && (#[trigger] results[i]).index == 0 implies {
                &&& results[i].file_node_count <= results[j as int].file_node_count
                &&& results[i].file_node_count == results[j as int].file_node_count
                    && results[i].extractor@ == "unblob"@ ==> results[j as int].extractor@ == "unblob"@
                &&& i < j ==> (results[i].file_node_count < results[j as int].file_node_count || (
                results[i].file_node_count == results[j as int].file_node_count
                    && results[i].extractor@ != "unblob"@ && results[j as int].extractor@
                    == "unblob"@))
            } by {
                assert(is_primary(results@[i]));
            }
        }
    }
    best
}

/// Which extractor's primary result is kept: none when no result is
/// primary, `Only` when exactly one is, and otherwise `Best` with the
/// winner of `best_result`.
pub fn best_extractor(results: &Vec<ExtractionSummary>) -> (choice: BestExtractor)
    ensures
        choice == best_extractor_spec(results@),
{
    let mut primaries: usize = 0;
    for i in 0..results.len()
        invariant
            primaries == primary_count(results@.take(i as int)),
            primaries <= i,
    {
        proof {
            assert(results@.take(i + 1).drop_last() =~= results@.take(i as int));
        }
        if results[i].index == 0 {
            primaries = primaries + 1;
        }
    }
    assert(results@.take(results.len() as int) =~= results@);
    match best_result(results) {
        None => BestExtractor::NoResult,
        Some(j) => {
            proof {
                assert(is_best_position(results@, j as int));
                lemma_best_position_unique(results@, j as int, best_position(results@));
                assert(primary_count(results@) > 0) by {
                    lemma_best_position_exists(results@);
                }
            }
            if primaries == 1 {
                BestExtractor::Only(results[j].extractor)
            } else {
                BestExtractor::Best(results[j].extractor)
            }
        },
    }
}

} // verus!
