//! Where recognized text can be refined before it is handed on.

use vstd::prelude::*;

verus! {

/// Refines recognized text: grammar, punctuation, formatting.
pub trait Corrector: Send + Sync {
    /// The refined text. It has to be cheap enough to run on every utterance.
    fn refine(&self, text: &str) -> String;
}

/// Leaves text as it is.
pub struct PassThrough;

impl Corrector for PassThrough {
    fn refine(&self, text: &str) -> (r: String)
        ensures
            r@ == text@,
    {
        text.to_owned()
    }
}

/// Passing text through gives it back as it is.
pub proof fn law_text_passes_through(p: &PassThrough, text: &str, r: String)
    requires
        call_ensures(PassThrough::refine, (p, text), r),
    ensures
        r@ == text@,
{
}

}
