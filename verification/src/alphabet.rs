//! Hardcoded Latin script: the 26 uppercase letters 'A'..'Z'.

use vstd::prelude::*;

verus! {

/// The size of the alphabet.
pub const LETTER_COUNT: usize = 26;

/// The letter of the alphabet standing at the given index.
pub open spec fn spec_letter_at(index: int) -> char {
    (('A' as int) + index) as char
}

/// Whether the given character is a letter of the alphabet.
pub open spec fn spec_contains(value: char) -> bool {
    'A' <= value <= 'Z'
}

/// The index of the given letter in the alphabet.
pub open spec fn spec_index_of(letter: char) -> int {
    (letter as int) - ('A' as int)
}

/// Returns the letter at the given index in the alphabet.
pub fn letter_at(index: usize) -> (letter: char)
    requires
        index < LETTER_COUNT,
    ensures
        letter == spec_letter_at(index as int),
        spec_contains(letter),
        spec_index_of(letter) == index as int,
{
    ((65 + index) as u8) as char
}

/// Returns the index in the alphabet for the given letter in a [Some], or [None] if given letter
/// does not belong to the alphabet.
pub fn index_of(letter: char) -> (index: Option<usize>)
    ensures
        index is Some <==> spec_contains(letter),
        index is Some ==> index->Some_0 as int == spec_index_of(letter)
            && index->Some_0 < LETTER_COUNT,
{
    if 'A' <= letter && letter <= 'Z' {
        Some(letter as usize - 'A' as usize)
    } else {
        None
    }
}

/// Returns `true` iff the given letter is part of the alphabet.
pub fn contains(value: char) -> (result: bool)
    ensures
        result == spec_contains(value),
{
    'A' <= value && value <= 'Z'
}

/// Returns the size of the alphabet.
pub fn letter_count() -> (count: usize)
    ensures
        count == LETTER_COUNT,
{
    LETTER_COUNT
}

/// Returns the size of the alphabet.
pub fn number_of_letters() -> (count: usize)
    ensures
        count == LETTER_COUNT,
{
    LETTER_COUNT
}

/// Indexing and looking a letter up are mutually inverse.
pub proof fn lemma_letter_index_bijection()
    ensures
        forall|index: int|
            0 <= index < LETTER_COUNT ==> spec_index_of(#[trigger] spec_letter_at(index)) == index,
        forall|letter: char|
            #[trigger] spec_contains(letter) ==> spec_letter_at(spec_index_of(letter)) == letter,
        forall|letter: char|
            spec_contains(letter) ==> 0 <= #[trigger] spec_index_of(letter) < LETTER_COUNT,
{
}

} // verus!
