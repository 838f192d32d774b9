//! Text-vs-binary classifier: a cheap heuristic used when scanning the binary
//! directory, so that native binaries that are not launcher scripts are
//! skipped.  Only the first 1024 bytes of a file decide the outcome.

use vstd::prelude::*;

verus! {

/// How many leading bytes of a file take part in the classification.
pub const CLASSIFY_WINDOW: usize = 1024;

/// A byte sequence counts as text when no null byte occurs among its first
/// 1024 bytes.  A null byte later than that does not matter, and an empty
/// sequence is text.
pub open spec fn is_text_bytes(head: Seq<u8>) -> bool {
    forall|i: int| 0 <= i < head.len() && i < CLASSIFY_WINDOW ==> head[i] != 0
}

/// Classifies the given file head as binary: true exactly when a null byte
/// occurs among the first 1024 bytes.
pub fn is_binary(head: &[u8]) -> (r: bool)
    ensures
        r == !is_text_bytes(head@),
{
    let n: usize = if head.len() < CLASSIFY_WINDOW {
        head.len()
    } else {
        CLASSIFY_WINDOW
    };
    let mut i: usize = 0;
    while i < n
        invariant
            n <= head@.len(),
            n == if head@.len() < CLASSIFY_WINDOW { head@.len() as int } else { CLASSIFY_WINDOW as int },
            i <= n,
            forall|j: int| 0 <= j < i ==> head@[j] != 0,
        decreases n - i,
    {
        if head[i] == 0 {
            return true;
        }
        i += 1;
    }
    false
}

/// Classifies the given file head as text: the complement of [`is_binary`].
pub fn is_text(head: &[u8]) -> (r: bool)
    ensures
        r == is_text_bytes(head@),
{
    !is_binary(head)
}

/// Classifier correctness: a zero-byte file is text; a file whose first bytes
/// include a null byte is binary; a null byte at position 1024 or later is
/// invisible to the classifier.
pub proof fn lemma_classifier_correct(head: Seq<u8>)
    ensures
        head.len() == 0 ==> is_text_bytes(head),
        (exists|i: int| 0 <= i < head.len() && i < CLASSIFY_WINDOW && head[i] == 0)
            ==> !is_text_bytes(head),
        (forall|i: int| 0 <= i < head.len() && i < CLASSIFY_WINDOW ==> head[i] != 0)
            ==> is_text_bytes(head),
{
}

} // verus!
