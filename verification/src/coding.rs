//! Shader source text.

use vstd::prelude::*;

verus! {

/// What `str::replace` returns for a text, a pattern and its replacement.
pub uninterp spec fn replaced(content: Seq<char>, from: Seq<char>, to: Seq<char>) -> Seq<char>;

/// Calls `str::replace`, which rewrites every non-overlapping match of `from`
/// in `content` with `to`. The result is named by [`replaced`].
#[verifier::external_body]
fn replace_text(content: &str, from: &str, to: &str) -> (text: String)
    ensures
        text@ == replaced(content@, from@, to@),
{
    content.replace(from, to)
}

/// Shader source code, held as text.
///
/// The text is not parsed or checked here: the device's compiler does that when
/// a pipeline is built. Until then it may hold tokens that are not valid source
/// and are meant to be substituted with [`Shader::replace`].
#[derive(Debug)]
pub struct Shader {
    content: String,
}

impl View for Shader {
    type V = Seq<char>;

    closed spec fn view(&self) -> Seq<char> {
        self.content@
    }
}

impl Shader {
    /// A shader holding exactly `content`.
    pub fn from_content(content: &str) -> (shader: Self)
        ensures
            shader@ == content@,
    {
        Shader { content: content.to_owned() }
    }

    /// Substitutes `to` for every occurrence of `from` in the source.
    pub fn replace(&mut self, from: &str, to: &str)
        ensures
            final(self)@ == replaced(old(self)@, from@, to@),
    {
        self.content = replace_text(self.content.as_str(), from, to);
    }

    /// The source text.
    pub fn get_content(&self) -> (content: &str)
        ensures
            content@ == self@,
    {
        self.content.as_str()
    }

    /// Whether two shaders hold the same source text.
    pub fn same_source(&self, other: &Shader) -> (same: bool)
        ensures
            same == (self@ == other@),
    {
        self.content == other.content
    }
}

} // verus!
