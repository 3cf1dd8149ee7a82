//! Byte-range edits of a source text and their application.
use vstd::prelude::*;
use vstd::string::StringSliceAdditionalSpecFns;

verus! {

/// A replacement of the source bytes `[start, end)` by `replacement`.
pub struct Edit {
    pub start: u32,
    pub end: u32,
    pub replacement: String,
}

/// The UTF-8 bytes that an edit puts in place of its range.
pub open spec fn rep_bytes(e: Edit) -> Seq<u8> {
    vstd::utf8::encode_utf8(e.replacement@)
}

/// Whether the edits lie within a text of `len` bytes, each range well formed
/// and each one after the end of the one before.
pub open spec fn edits_in_order(len: nat, edits: Seq<Edit>) -> bool {
    &&& forall|i: int| 0 <= i < edits.len() ==> #[trigger] edits[i].start <= edits[i].end
    &&& forall|i: int| 0 <= i < edits.len() ==> #[trigger] edits[i].end <= len
    &&& forall|i: int, j: int| 0 <= i < j < edits.len() ==> #[trigger] edits[i].end
        <= #[trigger] edits[j].start
}

/// The text from byte `pos` on, with `edits` (which begin at or after `pos`) applied.
pub open spec fn splice_from(src: Seq<u8>, edits: Seq<Edit>, pos: int) -> Seq<u8>
    decreases edits.len(),
{
    if edits.len() == 0 {
        src.subrange(pos, src.len() as int)
    } else {
        src.subrange(pos, edits[0].start as int) + rep_bytes(edits[0]) + splice_from(
            src,
            edits.drop_first(),
            edits[0].end as int,
        )
    }
}

/// The text with every edit applied.
pub open spec fn splice(src: Seq<u8>, edits: Seq<Edit>) -> Seq<u8> {
    splice_from(src, edits, 0)
}

/// How much the edits change the length of the text.
pub open spec fn length_change(edits: Seq<Edit>) -> int
    decreases edits.len(),
{
    if edits.len() == 0 {
        0
    } else {
        rep_bytes(edits[0]).len() - (edits[0].end - edits[0].start) + length_change(
            edits.drop_first(),
        )
    }
}

/// Whether `edits` are in order within a text of `len` bytes.
pub fn check_edits(len: usize, edits: &Vec<Edit>) -> (r: bool)
    ensures
        r == edits_in_order(len as nat, edits@),
{
    let mut i: usize = 0;
    let mut prev_end: u32 = 0;
    while i < edits.len()
        invariant
            i <= edits@.len(),
            edits_in_order(len as nat, edits@.subrange(0, i as int)),
            i > 0 ==> prev_end == edits@[i - 1].end,
            i == 0 ==> prev_end == 0,
        decreases edits@.len() - i,
    {
        let e = &edits[i];
        if e.start > e.end || (e.end as usize) > len || (i > 0 && e.start < prev_end) {
            proof {
                let sub = edits@.subrange(0, i as int + 1);
                if i > 0 && e.start < prev_end {
                    assert(sub[i - 1].end > sub[i as int].start);
                } else {
                    assert(sub[i as int] == edits@[i as int]);
                }
                if edits_in_order(len as nat, edits@) {
                    lemma_prefix_in_order(len as nat, edits@, i as int + 1);
                }
            }
            return false;
        }
        proof {
            let sub = edits@.subrange(0, i as int + 1);
            let old_sub = edits@.subrange(0, i as int);
            assert forall|a: int, b: int| 0 <= a < b < sub.len() implies #[trigger] sub[a].end
                <= #[trigger] sub[b].start by {
                if b < i {
                    assert(sub[a] == old_sub[a] && sub[b] == old_sub[b]);
                } else {
                    assert(i > 0);
                    assert(old_sub[a].start <= old_sub[a].end);
                    if a < i - 1 {
                        assert(old_sub[a].end <= old_sub[i - 1].start);
                    }
                }
            }
            assert forall|a: int| 0 <= a < sub.len() implies #[trigger] sub[a].start
                <= sub[a].end && sub[a].end <= len by {
                if a < i {
                    assert(sub[a] == old_sub[a]);
                }
            }
        }
        prev_end = e.end;
        i = i + 1;
    }
    assert(edits@.subrange(0, edits@.len() as int) == edits@);
    true
}

proof fn lemma_prefix_in_order(len: nat, edits: Seq<Edit>, k: int)
    requires
        0 <= k <= edits.len(),
        edits_in_order(len, edits),
    ensures
        edits_in_order(len, edits.subrange(0, k)),
{
    let sub = edits.subrange(0, k);
    assert forall|a: int, b: int| 0 <= a < b < sub.len() implies #[trigger] sub[a].end
        <= #[trigger] sub[b].start by {
        assert(edits[a].end <= edits[b].start);
    }
    assert forall|a: int| 0 <= a < sub.len() implies #[trigger] sub[a].start <= sub[a].end
        && sub[a].end <= len by {
        assert(sub[a] == edits[a]);
    }
}

proof fn lemma_suffix_in_order(len: nat, edits: Seq<Edit>, k: int)
    requires
        0 <= k <= edits.len(),
        edits_in_order(len, edits),
    ensures
        edits_in_order(len, edits.subrange(k, edits.len() as int)),
{
    let sub = edits.subrange(k, edits.len() as int);
    assert forall|a: int, b: int| 0 <= a < b < sub.len() implies #[trigger] sub[a].end
        <= #[trigger] sub[b].start by {
        assert(edits[a + k].end <= edits[b + k].start);
    }
    assert forall|a: int| 0 <= a < sub.len() implies #[trigger] sub[a].start <= sub[a].end
        && sub[a].end <= len by {
        assert(sub[a] == edits[a + k]);
    }
}

/// Applies edits that are in order to `src`.
pub fn apply_edits(src: &[u8], edits: &Vec<Edit>) -> (r: Vec<u8>)
    requires
        edits_in_order(src@.len(), edits@),
    ensures
        r@ == splice(src@, edits@),
{
    let mut out: Vec<u8> = Vec::new();
    let mut pos: usize = 0;
    let mut i: usize = 0;
    assert(edits@.subrange(0, edits@.len() as int) == edits@);
    assert(out@ + splice(src@, edits@) == splice(src@, edits@));
    while i < edits.len()
        invariant
            i <= edits@.len(),
            edits_in_order(src@.len(), edits@),
            pos <= src@.len(),
            i > 0 ==> pos == edits@[i - 1].end,
            i == 0 ==> pos == 0,
            out@ + splice_from(src@, edits@.subrange(i as int, edits@.len() as int), pos as int)
                == splice(src@, edits@),
        decreases edits@.len() - i,
    {
        let e = &edits[i];
        proof {
            let rest = edits@.subrange(i as int, edits@.len() as int);
            assert(rest[0] == edits@[i as int]);
            assert(rest.drop_first() == edits@.subrange(i as int + 1, edits@.len() as int));
            if i > 0 {
                assert(edits@[i - 1].end <= edits@[i as int].start);
            }
        }
        let ghost before = out@;
        let mut p: usize = pos;
        while p < e.start as usize
            invariant
                pos <= p <= e.start <= src@.len(),
                out@ == before + src@.subrange(pos as int, p as int),
            decreases e.start - p,
        {
            out.push(src[p]);
            p = p + 1;
            proof {
                assert(src@.subrange(pos as int, p as int) == src@.subrange(pos as int, p - 1)
                    + seq![src@[p - 1]]);
            }
        }
        let rb = e.replacement.as_str().as_bytes();
        let ghost mid = out@;
        let mut q: usize = 0;
        while q < rb.len()
            invariant
                q <= rb@.len(),
                out@ == mid + rb@.subrange(0, q as int),
            decreases rb@.len() - q,
        {
            out.push(rb[q]);
            q = q + 1;
            proof {
                assert(rb@.subrange(0, q as int) == rb@.subrange(0, q - 1) + seq![rb@[q - 1]]);
            }
        }
        proof {
            assert(rb@.subrange(0, rb@.len() as int) == rb@);
            assert(rb@ == rep_bytes(edits@[i as int]));
            let rest = edits@.subrange(i as int, edits@.len() as int);
            let tail = splice_from(src@, rest.drop_first(), edits@[i as int].end as int);
            assert(out@ + tail =~= before + splice_from(src@, rest, pos as int));
        }
        pos = e.end as usize;
        i = i + 1;
    }
    let ghost before = out@;
    let mut p: usize = pos;
    while p < src.len()
        invariant
            pos <= p <= src@.len(),
            out@ == before + src@.subrange(pos as int, p as int),
        decreases src@.len() - p,
    {
        out.push(src[p]);
        p = p + 1;
        proof {
            assert(src@.subrange(pos as int, p as int) == src@.subrange(pos as int, p - 1)
                + seq![src@[p - 1]]);
        }
    }
    proof {
        assert(edits@.subrange(i as int, edits@.len() as int).len() == 0);
    }
    out
}

proof fn lemma_splice_from_len(src: Seq<u8>, edits: Seq<Edit>, pos: int)
    requires
        0 <= pos,
        edits_in_order(src.len(), edits),
        edits.len() > 0 ==> pos <= edits[0].start,
        edits.len() == 0 ==> pos <= src.len(),
    ensures
        splice_from(src, edits, pos).len() == src.len() - pos + length_change(edits),
    decreases edits.len(),
{
    if edits.len() > 0 {
        lemma_suffix_in_order(src.len(), edits, 1);
        assert(edits.drop_first() == edits.subrange(1, edits.len() as int));
        if edits.len() > 1 {
            assert(edits[0].end <= edits[1].start);
        }
        lemma_splice_from_len(src, edits.drop_first(), edits[0].end as int);
    }
}

/// Applying edits in order changes the length of the text by exactly the sum,
/// over the edits, of the replacement's length less the length of the range it
/// replaces.
pub proof fn lemma_splice_length(src: Seq<u8>, edits: Seq<Edit>)
    requires
        edits_in_order(src.len(), edits),
    ensures
        splice(src, edits).len() == src.len() + length_change(edits),
{
    lemma_splice_from_len(src, edits, 0);
}

/// How much the edits that end at or before byte `p` change the length of the text.
pub open spec fn shift_before(edits: Seq<Edit>, p: int) -> int
    decreases edits.len(),
{
    if edits.len() == 0 {
        0
    } else {
        (if edits[0].end <= p {
            rep_bytes(edits[0]).len() - (edits[0].end - edits[0].start)
        } else {
            0
        }) + shift_before(edits.drop_first(), p)
    }
}

/// Whether byte `p` lies in the range of no edit.
pub open spec fn outside_edits(edits: Seq<Edit>, p: int) -> bool {
    forall|i: int| 0 <= i < edits.len() ==> !(#[trigger] edits[i].start <= p && p < edits[i].end)
}

proof fn lemma_splice_from_keeps(src: Seq<u8>, edits: Seq<Edit>, pos: int, p: int)
    requires
        0 <= pos <= p < src.len(),
        edits_in_order(src.len(), edits),
        edits.len() > 0 ==> pos <= edits[0].start,
        outside_edits(edits, p),
    ensures
        0 <= p - pos + shift_before(edits, p) < splice_from(src, edits, pos).len(),
        splice_from(src, edits, pos)[p - pos + shift_before(edits, p)] == src[p],
    decreases edits.len(),
{
    if edits.len() > 0 {
        let e0 = edits[0];
        let rest = edits.drop_first();
        lemma_suffix_in_order(src.len(), edits, 1);
        assert(rest == edits.subrange(1, edits.len() as int));
        assert(!(e0.start <= p && p < e0.end));
        if rest.len() > 0 {
            assert(e0.end <= rest[0].start);
        }
        assert(outside_edits(rest, p)) by {
            assert forall|i: int| 0 <= i < rest.len() implies !(#[trigger] rest[i].start <= p && p
                < rest[i].end) by {
                assert(rest[i] == edits[i + 1]);
            }
        }
        let head = src.subrange(pos, e0.start as int) + rep_bytes(e0);
        if p < e0.start {
            assert forall|i: int| 0 <= i < rest.len() implies p < #[trigger] rest[i].end by {
                assert(rest[i] == edits[i + 1]);
                assert(edits[0].end <= edits[i + 1].start);
                assert(edits[i + 1].start <= edits[i + 1].end);
                assert(edits[0].start <= edits[0].end);
            }
            lemma_shift_zero(rest, p);
            lemma_splice_from_len(src, rest, e0.end as int);
        } else {
            lemma_splice_from_keeps(src, rest, e0.end as int, p);
            assert(splice_from(src, edits, pos) == head + splice_from(src, rest, e0.end as int));
        }
    }
}

proof fn lemma_shift_zero(edits: Seq<Edit>, p: int)
    requires
        forall|i: int| 0 <= i < edits.len() ==> p < #[trigger] edits[i].end,
    ensures
        shift_before(edits, p) == 0,
    decreases edits.len(),
{
    if edits.len() > 0 {
        assert forall|i: int| 0 <= i < edits.drop_first().len() implies p < #[trigger] edits.drop_first()[i].end by {
            assert(edits.drop_first()[i] == edits[i + 1]);
        }
        lemma_shift_zero(edits.drop_first(), p);
    }
}

/// Applying edits in order leaves every byte outside their ranges as it was:
/// byte `p` of the text stands in the result at `p` moved by the length
/// change of the edits before it.
pub proof fn lemma_splice_locality(src: Seq<u8>, edits: Seq<Edit>, p: int)
    requires
        edits_in_order(src.len(), edits),
        0 <= p < src.len(),
        outside_edits(edits, p),
    ensures
        0 <= p + shift_before(edits, p) < splice(src, edits).len(),
        splice(src, edits)[p + shift_before(edits, p)] == src[p],
{
    lemma_splice_from_keeps(src, edits, 0, p);
}

} // verus!
