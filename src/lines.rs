use vstd::prelude::*;
use vstd::string::StringSliceAdditionalSpecFns;

verus! {

/// The number of newline bytes in `b`.
pub open spec fn newline_count(b: Seq<u8>) -> nat
    decreases b.len(),
{
    if b.len() == 0 {
        0
    } else {
        newline_count(b.drop_last()) + if b.last() == 10u8 { 1nat } else { 0nat }
    }
}

/// The number of lines of a text given as its UTF-8 bytes: one per line
/// terminator, plus one for a last line that has none. An empty text has none.
pub open spec fn line_count(b: Seq<u8>) -> nat {
    if b.len() == 0 {
        0
    } else if b.last() == 10u8 {
        newline_count(b)
    } else {
        newline_count(b) + 1
    }
}

proof fn lemma_newline_count_bound(b: Seq<u8>)
    ensures
        newline_count(b) <= b.len(),
    decreases b.len(),
{
    if b.len() > 0 {
        lemma_newline_count_bound(b.drop_last());
    }
}

/// Counts the lines of `contents`. A `\r\n` ends a line as a bare `\n` does,
/// so only the `\n` bytes need counting; a byte of value 10 in UTF-8 is
/// always that character.
pub fn count_lines(contents: &str) -> (r: usize)
    ensures
        r == line_count(contents.spec_bytes()),
{
    let bytes = contents.as_bytes();
    let n = bytes.len();
    let mut count: usize = 0;
    let mut i: usize = 0;
    while i < n
        invariant
            n == bytes@.len(),
            bytes@ == contents.spec_bytes(),
            i <= n,
            count == newline_count(bytes@.subrange(0, i as int)),
        decreases n - i,
    {
        proof {
            let next = bytes@.subrange(0, i + 1);
            assert(next.drop_last() == bytes@.subrange(0, i as int));
            lemma_newline_count_bound(bytes@.subrange(0, i as int));
        }
        if bytes[i] == 10u8 {
            count = count + 1;
        }
        i = i + 1;
    }
    proof {
        assert(bytes@.subrange(0, n as int) == bytes@);
    }
    if n > 0 && bytes[n - 1] != 10u8 {
        proof {
            lemma_newline_count_bound(bytes@.drop_last());
        }
        count = count + 1;
    }
    count
}

} // verus!
