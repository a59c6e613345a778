//! A value that must never appear in logs or error chains.

use vstd::prelude::*;

verus! {

/// A secret string; its debug text is a placeholder, never the content.
pub struct Sensitive {
    value: String,
}

impl View for Sensitive {
    type V = Seq<char>;

    closed spec fn view(&self) -> Seq<char> {
        self.value@
    }
}

impl Clone for Sensitive {
    fn clone(&self) -> (r: Self)
        ensures
            r@ == self@,
    {
        Sensitive { value: self.value.clone() }
    }
}

impl Sensitive {
    pub fn new(value: String) -> (r: Self)
        ensures
            r@ == value@,
    {
        Sensitive { value }
    }

    pub fn expose(&self) -> (r: &str)
        ensures
            r@ == self@,
    {
        self.value.as_str()
    }

    /// What a debug print shows: a placeholder, whatever the content.
    pub fn debug_text(&self) -> (r: &'static str)
        ensures
            r@ == "[redacted]"@,
    {
        "[redacted]"
    }
}

} // verus!
