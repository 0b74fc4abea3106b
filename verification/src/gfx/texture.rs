//! Which texture a renderable wears.

use vstd::prelude::*;
use vstd::string::*;

verus! {

/// The kind of texture.
#[derive(Debug, Clone, PartialEq, Eq)]
pub enum TextureKind {
    /// No texture. Equivalent to `TextureKind::Regular("")`.
    Blank,
    /// A regular texture.
    Regular(String),
}

impl TextureKind {
    /// The name of the texture; the blank texture has the empty name.
    pub open spec fn name(&self) -> Seq<char> {
        match self {
            TextureKind::Blank => Seq::empty(),
            TextureKind::Regular(texture) => texture@,
        }
    }

    /// Create a new blank texture.
    pub fn none() -> (kind: Self)
        ensures
            kind is Blank,
    {
        TextureKind::Blank
    }

    /// Create a new regular texture.
    pub fn regular(texture: &str) -> (kind: Self)
        ensures
            kind matches TextureKind::Regular(name) && name@ == texture@,
    {
        TextureKind::Regular(String::from_str(texture))
    }

    /// Get the texture.
    pub fn get(&self) -> (texture: &str)
        ensures
            texture@ == self.name(),
    {
        match self {
            TextureKind::Blank => {
                proof {
                    reveal_strlit("");
                }
                assert(""@ =~= Seq::<char>::empty());
                ""
            },
            TextureKind::Regular(texture) => texture.as_str(),
        }
    }
}

impl Default for TextureKind {
    fn default() -> (kind: Self)
        ensures
            kind is Blank,
    {
        TextureKind::Blank
    }
}

} // verus!
