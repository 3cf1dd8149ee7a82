//! Mapping of byte offsets in a source text to 1-based line and column numbers.
use vstd::prelude::*;
use vstd::string::StringSliceAdditionalSpecFns;

verus! {

/// The number of newline bytes in `b`.
pub open spec fn count_newlines(b: Seq<u8>) -> nat
    decreases b.len(),
{
    if b.len() == 0 {
        0
    } else {
        count_newlines(b.drop_last()) + if b.last() == 10u8 { 1nat } else { 0nat }
    }
}

/// The offset just past the last newline of `b`, or 0 when it has none.
pub open spec fn line_start(b: Seq<u8>) -> nat
    decreases b.len(),
{
    if b.len() == 0 {
        0
    } else if b.last() == 10u8 {
        b.len()
    } else {
        line_start(b.drop_last())
    }
}

/// The offset clamped to the length of the text.
pub open spec fn clamp(offset: nat, len: nat) -> nat {
    if offset <= len { offset } else { len }
}

/// The 1-based line of a byte offset of `b`.
pub open spec fn line_of(b: Seq<u8>, offset: nat) -> nat {
    1 + count_newlines(b.subrange(0, clamp(offset, b.len()) as int))
}

/// The 1-based column, in bytes, of a byte offset of `b`.
pub open spec fn col_of(b: Seq<u8>, offset: nat) -> nat {
    let k = clamp(offset, b.len());
    (k - line_start(b.subrange(0, k as int))) as nat + 1
}

proof fn lemma_bounds(b: Seq<u8>)
    ensures
        count_newlines(b) <= b.len(),
        line_start(b) <= b.len(),
    decreases b.len(),
{
    if b.len() > 0 {
        lemma_bounds(b.drop_last());
    }
}

/// The 1-based line and byte column of `offset` in `source`; an offset past
/// the end is taken as the end.
pub fn byte_offset_to_line_col(source: &str, offset: u32) -> (r: (u32, u32))
    requires
        source.spec_bytes().len() < u32::MAX,
    ensures
        r.0 as nat == line_of(source.spec_bytes(), offset as nat),
        r.1 as nat == col_of(source.spec_bytes(), offset as nat),
{
    let bytes = source.as_bytes();
    let k: usize = if (offset as usize) <= bytes.len() { offset as usize } else { bytes.len() };
    let mut line: u32 = 1;
    let mut start: usize = 0;
    let mut i: usize = 0;
    while i < k
        invariant
            bytes@ == source.spec_bytes(),
            k <= bytes@.len(),
            bytes@.len() < u32::MAX,
            i <= k,
            line as nat == 1 + count_newlines(bytes@.subrange(0, i as int)),
            start as nat == line_start(bytes@.subrange(0, i as int)),
        decreases k - i,
    {
        proof {
            let pre = bytes@.subrange(0, i as int + 1);
            assert(pre.drop_last() == bytes@.subrange(0, i as int));
            lemma_bounds(bytes@.subrange(0, i as int));
        }
        if bytes[i] == 10u8 {
            line = line + 1;
            start = i + 1;
        }
        i = i + 1;
    }
    proof {
        lemma_bounds(bytes@.subrange(0, k as int));
    }
    let col = (k - start) as u32 + 1;
    (line, col)
}

} // verus!
