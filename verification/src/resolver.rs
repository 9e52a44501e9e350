//! The callback interface of the template engine.
//!
//! The engine itself never interprets a function name: every call found in a
//! template is handed to a caller-supplied [`Resolver`], together with an
//! opaque context value that the engine passes through unchanged.

use vstd::prelude::*;

verus! {

/// Relates an executable resolver result to its mathematical model: the
/// payloads agree on success, and the error views agree on failure.
pub open spec fn result_matches<E: View>(
    r: Result<String, E>,
    m: Result<Seq<char>, <E as View>::V>,
) -> bool {
    match (r, m) {
        (Result::Ok(s), Result::Ok(t)) => s@ == t,
        (Result::Err(a), Result::Err(b)) => a@ == b,
        _ => false,
    }
}

/// A caller-supplied mapping from a function name and its ordered argument
/// list, plus caller-owned context, to a substitution string or an error.
///
/// A resolver may be partial (it may fail on unknown names or wrong arity)
/// and it may be effectful: `deterministic_at` marks the calls whose answer
/// is a function of the call alone, and only for those does `model` pin the
/// result of `resolve`.
pub trait Resolver: Sized {
    /// Opaque caller-owned data handed unchanged to every invocation.
    type Ctx;

    /// The caller-chosen error type.
    type E: View;

    /// The mathematical model of this resolver: what `resolve` returns
    /// wherever `deterministic_at` holds.  Unless a resolver declares
    /// otherwise, nothing is modelled.
    open spec fn model(
        &self,
        name: Seq<char>,
        args: Seq<Seq<char>>,
        ctx: Self::Ctx,
    ) -> Result<Seq<char>, <Self::E as View>::V> {
        arbitrary()
    }

    /// The calls whose answer is a function of the call alone.  Unless a
    /// resolver declares otherwise, none is.
    open spec fn deterministic_at(
        &self,
        name: Seq<char>,
        args: Seq<Seq<char>>,
        ctx: Self::Ctx,
    ) -> bool {
        false
    }

    /// Resolves one call.  Argument order is significant.
    fn resolve(&self, name: &String, args: &Vec<String>, ctx: &Self::Ctx) -> (r: Result<
        String,
        Self::E,
    >)
        ensures
            self.deterministic_at(name@, args.deep_view(), *ctx) ==> result_matches(
                r,
                self.model(name@, args.deep_view(), *ctx),
            ),
    ;
}

} // verus!
