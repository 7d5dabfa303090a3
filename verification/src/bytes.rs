//! Small verified helpers on byte strings.
use vstd::prelude::*;

verus! {

/// The bytes of a word written in ASCII characters.
pub open spec fn ascii(word: Seq<char>) -> Seq<u8> {
    word.map_values(|c: char| c as u8)
}

/// Tells whether a byte string spells the given ASCII word.
pub fn is_word(bytes: &[u8], word: &[char]) -> (r: bool)
    requires
        forall|j: int| 0 <= j < word@.len() ==> (word@[j] as u32) < 128,
    ensures
        r == (bytes@ == ascii(word@)),
{
    if bytes.len() != word.len() {
        return false;
    }
    let n = bytes.len();
    let mut i: usize = 0;
    while i < n
        invariant
            n == bytes@.len(),
            n == word@.len(),
            i <= n,
            forall|j: int| 0 <= j < word@.len() ==> (word@[j] as u32) < 128,
            forall|j: int| 0 <= j < i ==> bytes@[j] == word@[j] as u8,
        decreases n - i,
    {
        let c = word[i];
        if bytes[i] != c as u8 {
            return false;
        }
        i += 1;
    }
    assert(bytes@ =~= ascii(word@));
    true
}

} // verus!
