use vstd::prelude::*;

use crate::strutil::str_chars;

verus! {

/// A piece of source text together with the name it was loaded under,
/// and its characters decoded once for the lexer.
#[derive(Debug, Clone)]
pub struct NamedSource {
    pub name: String,
    pub bytes: String,
    pub chars: Vec<char>,
}

impl NamedSource {
    /// The invariant every `NamedSource` satisfies: the decoded characters
    /// are exactly the characters of the text.
    pub open spec fn wf(self) -> bool {
        self.chars@ == self.bytes@
    }

    pub fn new(name: String, bytes: String) -> (s: NamedSource)
        ensures
            s.wf(),
            s.name@ == name@,
            s.bytes@ == bytes@,
    {
        let chars = str_chars(bytes.as_str());
        NamedSource { name, bytes, chars }
    }
}

} // verus!
