//! The games whose files the library knows.

use vstd::prelude::*;

verus! {

/// A game, in order of release.
#[derive(Debug, Copy, Clone, PartialEq, Eq, PartialOrd, Ord, Hash, Structural)]
pub enum Game {
    Th06,
    Th07,
    Th08,
    Th09,
    Th095,
    Th10,
    Alcostg,
    Th11,
    Th12,
    Th125,
    Th128,
    Th13,
    Th14,
    Th143,
    Th15,
    Th16,
    Th165,
    Th17,
    Th18,
}

impl Game {
    /// The place of the game in the order of release.
    pub open spec fn rank(self) -> int {
        match self {
            Game::Th06 => 0,
            Game::Th07 => 1,
            Game::Th08 => 2,
            Game::Th09 => 3,
            Game::Th095 => 4,
            Game::Th10 => 5,
            Game::Alcostg => 6,
            Game::Th11 => 7,
            Game::Th12 => 8,
            Game::Th125 => 9,
            Game::Th128 => 10,
            Game::Th13 => 11,
            Game::Th14 => 12,
            Game::Th143 => 13,
            Game::Th15 => 14,
            Game::Th16 => 15,
            Game::Th165 => 16,
            Game::Th17 => 17,
            Game::Th18 => 18,
        }
    }

    fn index(self) -> (r: u8)
        ensures
            r == self.rank(),
    {
        match self {
            Game::Th06 => 0,
            Game::Th07 => 1,
            Game::Th08 => 2,
            Game::Th09 => 3,
            Game::Th095 => 4,
            Game::Th10 => 5,
            Game::Alcostg => 6,
            Game::Th11 => 7,
            Game::Th12 => 8,
            Game::Th125 => 9,
            Game::Th128 => 10,
            Game::Th13 => 11,
            Game::Th14 => 12,
            Game::Th143 => 13,
            Game::Th15 => 14,
            Game::Th16 => 15,
            Game::Th165 => 16,
            Game::Th17 => 17,
            Game::Th18 => 18,
        }
    }

    /// Tell whether the game is another one or came out after it.
    pub fn since(self, other: Game) -> (r: bool)
        ensures
            r == (self.rank() >= other.rank()),
    {
        self.index() >= other.index()
    }
}

/// A language of instructions.  A file can hold scripts in more than one.
#[derive(Debug, Copy, Clone, PartialEq, Eq, PartialOrd, Ord, Hash, Structural)]
pub enum LanguageKey {
    Anm,
    Std,
    Msg,
    Mission,
    Ecl,
    Timeline,
    End,
}

impl LanguageKey {
    pub open spec fn descr_spec(self) -> Seq<char> {
        match self {
            LanguageKey::Anm => "ANM"@,
            LanguageKey::Std => "STD"@,
            LanguageKey::Msg => "MSG"@,
            LanguageKey::Mission => "mission MSG"@,
            LanguageKey::Ecl => "ECL"@,
            LanguageKey::Timeline => "timeline"@,
            LanguageKey::End => "ending"@,
        }
    }

    /// The name of the language, for use in a sentence.
    pub fn descr(self) -> (r: &'static str)
        ensures
            r@ == self.descr_spec(),
    {
        match self {
            LanguageKey::Anm => "ANM",
            LanguageKey::Std => "STD",
            LanguageKey::Msg => "MSG",
            LanguageKey::Mission => "mission MSG",
            LanguageKey::Ecl => "ECL",
            LanguageKey::Timeline => "timeline",
            LanguageKey::End => "ending",
        }
    }
}

} // verus!
