//! IPA phoneme identifiers.

use vstd::prelude::*;

verus! {

/// IPA phoneme identifiers.
#[derive(Clone, Copy, PartialEq, Eq, Structural, Hash, Debug)]
pub enum Phoneme {
    Vowel(Vowel),
    Consonant(Consonant),
    Space,
}

/// IPA vowel inventory (subset, expandable).
#[derive(Clone, Copy, PartialEq, Eq, Structural, Hash, Debug)]
pub enum Vowel {
    /// Open back unrounded vowel
    OpenBackUnrounded,
    /// Close front unrounded vowel
    CloseFrontUnrounded,
}

/// IPA consonant inventory (placeholder).
#[derive(Clone, Copy, PartialEq, Eq, Structural, Hash, Debug)]
pub enum Consonant {
    /// Reserved marker while the consonant inventory is unpopulated;
    /// no schedule ever produces it.
    Unpopulated,
}

/// The canonical symbol of a phoneme.
pub open spec fn spec_ipa(p: Phoneme) -> Seq<char> {
    match p {
        Phoneme::Vowel(v) => spec_vowel_ipa(v),
        Phoneme::Consonant(_) => ""@,
        Phoneme::Space => " "@,
    }
}

/// The canonical symbol of a vowel.
pub open spec fn spec_vowel_ipa(v: Vowel) -> Seq<char> {
    match v {
        Vowel::OpenBackUnrounded => "\u{0251}"@,
        Vowel::CloseFrontUnrounded => "i"@,
    }
}

impl Phoneme {
    /// Canonical IPA symbol.
    pub fn ipa(&self) -> (r: &'static str)
        ensures
            r@ == spec_ipa(*self),
    {
        match self {
            Phoneme::Vowel(v) => v.ipa(),
            Phoneme::Consonant(c) => c.ipa(),
            Phoneme::Space => " ",
        }
    }
}

impl Vowel {
    /// Canonical IPA symbol.
    pub fn ipa(&self) -> (r: &'static str)
        ensures
            r@ == spec_vowel_ipa(*self),
    {
        match self {
            Vowel::OpenBackUnrounded => "\u{0251}",
            Vowel::CloseFrontUnrounded => "i",
        }
    }
}

impl Consonant {
    /// Canonical IPA symbol. The inventory is unpopulated, so there is none.
    pub fn ipa(&self) -> (r: &'static str)
        ensures
            r@ == ""@,
    {
        match *self {
            Consonant::Unpopulated => "",
        }
    }
}

} // verus!
