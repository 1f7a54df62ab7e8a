//! The tokenizer context of one indexed table.

use vstd::prelude::*;
use crate::status::{check, SQLITE_ERROR, SQLITE_OK};

verus! {

/// The state that one indexed table keeps for its tokenizer: the one analyzer
/// that was built for the table, owned by the context alone.
pub struct TokenizerContext<A> {
    analyzer: A,
}

impl<A> TokenizerContext<A> {
    /// The context that owns `analyzer`.
    pub closed spec fn owning(analyzer: A) -> Self {
        TokenizerContext { analyzer }
    }

    /// The analyzer that the context owns.
    pub closed spec fn spec_analyzer(self) -> A {
        self.analyzer
    }

    /// The analyzer that the context owns, for the length of one call.
    pub fn analyzer(&self) -> (analyzer: &A)
        ensures
            *analyzer == self.spec_analyzer(),
    {
        &self.analyzer
    }
}

/// Makes the context of a table from what building its analyzer gave.
///
/// Where an analyzer was built, the new context owns it. Where none was
/// built, there is no context, and the analyzer's error text is the error.
pub fn create<A>(built: Option<A>, error_text: String) -> (created: Result<
    TokenizerContext<A>,
    String,
>)
    ensures
        built matches Some(analyzer) ==> created == Ok::<TokenizerContext<A>, String>(
            TokenizerContext::owning(analyzer),
        ) && created->Ok_0.spec_analyzer() == analyzer,
        built is None ==> created == Err::<TokenizerContext<A>, String>(error_text),
{
    match check(built, error_text) {
        Ok(analyzer) => Ok(TokenizerContext { analyzer }),
        Err(text) => Err(text),
    }
}

/// The status that the engine is given for an attempt to create a context.
pub fn create_status<A>(created: &Result<TokenizerContext<A>, String>) -> (status: i32)
    ensures
        status == if created is Ok {
            SQLITE_OK
        } else {
            SQLITE_ERROR
        },
{
    match created {
        Ok(_) => SQLITE_OK,
        Err(_) => SQLITE_ERROR,
    }
}

/// Ends a context and hands out its analyzer, which the caller releases. The
/// context is consumed, so no analyzer is handed out twice.
pub fn delete<A>(context: TokenizerContext<A>) -> (analyzer: A)
    ensures
        analyzer == context.spec_analyzer(),
{
    context.analyzer
}

/// Contexts and analyzers correspond one to one: deleting the context that
/// was created for an analyzer hands out that analyzer and no other, and a
/// context is the one that was created for the analyzer it hands out. So as
/// many analyzers are released as were built, each of them once.
pub proof fn lemma_one_analyzer_per_context<A>(analyzer: A, context: TokenizerContext<A>)
    ensures
        TokenizerContext::owning(analyzer).spec_analyzer() == analyzer,
        TokenizerContext::owning(context.spec_analyzer()) == context,
{
}

} // verus!
