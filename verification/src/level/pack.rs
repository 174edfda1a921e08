use vstd::prelude::*;

verus! {

/// The general difficulty of a pack of levels.
#[derive(Clone, Copy, Debug, PartialEq, Eq, Structural)]
pub enum Difficulty {
    Easy,
    Medium,
    Hard,
}

impl Difficulty {
    /// Human-readable name of the difficulty.
    pub fn name(&self) -> (r: &'static str)
        ensures
            match self {
                Difficulty::Easy => r@ == "Easy"@,
                Difficulty::Medium => r@ == "Medium"@,
                Difficulty::Hard => r@ == "Hard"@,
            },
    {
        match self {
            Difficulty::Easy => "Easy",
            Difficulty::Medium => "Medium",
            Difficulty::Hard => "Hard",
        }
    }
}

/// A level defined in a pack: a name and the raw grid of the puzzle's
/// elements, to be handed to the level parser.
#[derive(Clone, Debug)]
pub struct PackLevel {
    /// name of the level
    pub title: String,
    /// grid of the puzzle's elements
    pub data: String,
}

/// An ordered collection of levels with shared metadata. The driver loads a
/// pack from a structured document, hands each level's text to the parser,
/// and keys save data by `slug`.
#[derive(Clone, Debug)]
pub struct Pack {
    /// name of the pack
    pub title: String,
    /// id used for save data; changing this breaks saves
    pub slug: String,
    pub description: String,
    /// who compiled the levels in the pack, often just the designer
    pub author: String,
    pub license: String,
    /// initial year the pack was released
    pub year: i32,
    pub levels: Vec<PackLevel>,
    pub version: String,
    /// file path of where the pack is located, if it came from one
    pub file: Option<String>,
    /// the general difficulty level of the pack
    pub difficulty: Difficulty,
}

impl Pack {
    /// The level at `index`, or `None` past the end of the pack.
    pub fn get(&self, index: usize) -> (r: Option<&PackLevel>)
        ensures
            match r {
                Some(l) => index < self.levels@.len() && *l == self.levels@[index as int],
                None => index >= self.levels@.len(),
            },
    {
        if index < self.levels.len() {
            Some(&self.levels[index])
        } else {
            None
        }
    }
}

} // verus!
