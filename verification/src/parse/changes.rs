//! How the methods of the parser change its lists of nodes and errors.

use crate::ast::{ast_views, Ast, AstView};
use crate::error::{error_views, ErrorView, VeloError};
use vstd::prelude::*;

verus! {

/// `after` is `before` with one node added at the end, whose view is `node`.
pub open spec fn appended(before: Seq<Ast>, after: Seq<Ast>, node: AstView) -> bool {
    after.len() == before.len() + 1 && after.drop_last() == before && after.last()@ == node
}

/// How a list of errors grows when at most one error is recorded.
pub open spec fn recorded(before: Seq<VeloError>, after: Seq<VeloError>, e: Option<ErrorView>) -> bool {
    match e {
        Some(e) => after.len() == before.len() + 1 && after.drop_last() == before && after.last()@
            == e,
        None => after == before,
    }
}

/// `after` is `before` with errors added at the end whose views are `added`.
pub open spec fn extended(before: Seq<VeloError>, after: Seq<VeloError>, added: Seq<ErrorView>) -> bool {
    &&& after.len() == before.len() + added.len()
    &&& after.take(before.len() as int) == before
    &&& error_views(after.skip(before.len() as int)) == added
}

/// What `appended` says of the views.
pub proof fn lemma_appended(before: Seq<Ast>, after: Seq<Ast>, node: AstView)
    requires
        appended(before, after, node),
    ensures
        ast_views(after) == ast_views(before).push(node),
{
    assert(ast_views(after) =~= ast_views(before).push(node)) by {
        assert forall|i: int| 0 <= i < before.len() implies ast_views(after)[i] == ast_views(
            before,
        )[i] by {
            assert(after.drop_last()[i] == before[i]);
        }
    }
}

/// What `recorded` says of the views.
pub proof fn lemma_recorded(before: Seq<VeloError>, after: Seq<VeloError>, e: ErrorView)
    requires
        recorded(before, after, Some(e)),
    ensures
        error_views(after) == error_views(before).push(e),
{
    assert(error_views(after) =~= error_views(before).push(e)) by {
        assert forall|i: int| 0 <= i < before.len() implies error_views(after)[i] == error_views(
            before,
        )[i] by {
            assert(after.drop_last()[i] == before[i]);
        }
    }
}

/// What `extended` says of the views.
pub proof fn lemma_extended(before: Seq<VeloError>, after: Seq<VeloError>, added: Seq<ErrorView>)
    requires
        extended(before, after, added),
    ensures
        error_views(after) == error_views(before) + added,
{
    let n = before.len() as int;
    assert(error_views(after) =~= error_views(before) + added) by {
        assert forall|i: int| 0 <= i < after.len() implies error_views(after)[i] == (error_views(
            before,
        ) + added)[i] by {
            if i < n {
                assert(after.take(n)[i] == before[i]);
            } else {
                assert(error_views(after.skip(n))[i - n] == added[i - n]);
                assert(after.skip(n)[i - n] == after[i]);
            }
        }
    }
}

} // verus!
