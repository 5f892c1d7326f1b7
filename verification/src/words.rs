//! Random filler text: lower-case words of three to seven letters.

use vstd::prelude::*;

verus! {

/// The thread-local generator of the `rand` crate. Nothing inside it is
/// visible to the proofs.
#[verifier::external_type_specification]
#[verifier::external_body]
pub struct ExThreadRng(rand::rngs::ThreadRng);

/// Calls `rand::rng`, which hands out the handle to the current thread's
/// generator. Nothing is claimed of the handle. (The crate panics where the
/// operating system gives it no seed; no argument decides that.)
#[verifier::external_body]
fn thread_generator() -> (generator: rand::rngs::ThreadRng) {
    rand::rng()
}

/// Calls `rand::Rng::random_range` with the inclusive range `low..=high`.
/// The crate documents that the value lies in the range that was given and
/// that an empty range panics, so `low <= high` is required and the only
/// claim is that the draw lies between the two bounds. (The generator also
/// panics where it is due for a new seed and the operating system gives it
/// none; no argument decides that.)
#[verifier::external_body]
fn draw_between(generator: &mut rand::rngs::ThreadRng, low: usize, high: usize) -> (drawn: usize)
    requires
        low <= high,
    ensures
        low <= drawn <= high,
{
    rand::Rng::random_range(generator, low..=high)
}

/// The shortest word that is ever produced.
pub const MIN_WORD_LENGTH: usize = 3;

/// The longest word that is ever produced.
pub const MAX_WORD_LENGTH: usize = 7;

/// The letters that words are made of, in index order.
pub open spec fn alphabet() -> Seq<char> {
    seq![
        'a', 'b', 'c', 'd', 'e', 'f', 'g', 'h', 'i', 'j', 'k', 'l', 'm',
        'n', 'o', 'p', 'q', 'r', 's', 't', 'u', 'v', 'w', 'x', 'y', 'z',
    ]
}

/// A word: three to seven letters of the alphabet.
pub open spec fn is_word(word: Seq<char>) -> bool {
    &&& MIN_WORD_LENGTH <= word.len() <= MAX_WORD_LENGTH
    &&& forall|i: int| 0 <= i < word.len() ==> alphabet().contains(#[trigger] word[i])
}

/// A run of words: each of them is a word.
pub open spec fn are_words(words: Seq<Seq<char>>) -> bool {
    forall|i: int| 0 <= i < words.len() ==> is_word(#[trigger] words[i])
}

/// The words of `words`, in order, with one space between neighbours.
pub open spec fn joined(words: Seq<Seq<char>>) -> Seq<char>
    decreases words.len(),
{
    if words.len() == 0 {
        Seq::empty()
    } else if words.len() == 1 {
        words[0]
    } else {
        joined(words.drop_last()) + seq![' '] + words.last()
    }
}

/// The letter at position `index` of the alphabet.
pub fn letter_at(index: usize) -> (letter: char)
    requires
        index < 26,
    ensures
        letter == alphabet()[index as int],
{
    let letters: [char; 26] = [
        'a', 'b', 'c', 'd', 'e', 'f', 'g', 'h', 'i', 'j', 'k', 'l', 'm',
        'n', 'o', 'p', 'q', 'r', 's', 't', 'u', 'v', 'w', 'x', 'y', 'z',
    ];
    letters[index]
}

/// Spells the word whose letters have the given alphabet positions.
pub fn spell(positions: &Vec<usize>) -> (word: String)
    requires
        forall|i: int| 0 <= i < positions.len() ==> positions[i] < 26,
    ensures
        word@.len() == positions.len(),
        forall|i: int| 0 <= i < positions.len() ==> word@[i] == alphabet()[positions[i] as int],
{
    let mut word = String::new();
    let mut i: usize = 0;
    while i < positions.len()
        invariant
            i <= positions.len(),
            word@.len() == i,
            forall|k: int| 0 <= k < positions.len() ==> positions[k] < 26,
            forall|k: int| 0 <= k < i ==> word@[k] == alphabet()[positions[k] as int],
        decreases positions.len() - i,
    {
        word.push(letter_at(positions[i]));
        i += 1;
    }
    word
}

/// Joins `words` with single spaces.
pub fn join_words(words: &Vec<String>) -> (text: String)
    ensures
        text@ == joined(words.deep_view()),
{
    let mut text = String::new();
    let mut i: usize = 0;
    while i < words.len()
        invariant
            i <= words.len(),
            text@ == joined(words.deep_view().take(i as int)),
        decreases words.len() - i,
    {
        proof {
            let before = words.deep_view().take(i as int);
            let after = words.deep_view().take(i + 1);
            assert(after.drop_last() == before);
            assert(after.last() == words[i as int]@);
            if i == 0 {
                assert(joined(before) == Seq::<char>::empty());
            }
        }
        if i > 0 {
            text.push(' ');
        }
        text.append(words[i].as_str());
        i += 1;
    }
    proof {
        assert(words.deep_view().take(words.len() as int) == words.deep_view());
    }
    text
}

/// Draws one word: its length first, between three and seven, then each of
/// its letters.
pub fn random_word(generator: &mut rand::rngs::ThreadRng) -> (word: String)
    ensures
        is_word(word@),
{
    let length = draw_between(generator, MIN_WORD_LENGTH, MAX_WORD_LENGTH);
    let mut positions: Vec<usize> = Vec::new();
    let mut i: usize = 0;
    while i < length
        invariant
            i <= length,
            positions.len() == i,
            forall|k: int| 0 <= k < i ==> positions[k] < 26,
        decreases length - i,
    {
        let position = draw_between(generator, 0, 25);
        positions.push(position);
        i += 1;
    }
    let word = spell(&positions);
    proof {
        assert forall|k: int| 0 <= k < word@.len() implies alphabet().contains(#[trigger] word@[k]) by {
            assert(word@[k] == alphabet()[positions[k] as int]);
        }
    }
    word
}

/// `num_words` random words separated by single spaces; the empty string
/// when `num_words` is zero or negative.
pub fn random_words(num_words: i32) -> (text: String)
    ensures
        exists|words: Seq<Seq<char>>|
            {
                &&& words.len() == if num_words > 0 { num_words as int } else { 0 }
                &&& #[trigger] are_words(words)
                &&& text@ == joined(words)
            },
{
    let mut generator = thread_generator();
    let mut words: Vec<String> = Vec::new();
    let mut made: i32 = 0;
    while made < num_words
        invariant
            0 <= made,
            made == 0 || made <= num_words,
            words.len() == made,
            forall|i: int| 0 <= i < words.len() ==> is_word(#[trigger] words[i]@),
        decreases num_words - made,
    {
        let word = random_word(&mut generator);
        words.push(word);
        made += 1;
    }
    let text = join_words(&words);
    proof {
        let chosen = words.deep_view();
        assert(chosen.len() == words.len());
        assert forall|i: int| 0 <= i < chosen.len() implies is_word(#[trigger] chosen[i]) by {
            assert(chosen[i] == words[i]@);
        }
        assert(are_words(chosen));
    }
    text
}

} // verus!
