//! What holds of every conversion, proved from the contracts of the
//! functions that perform it.

use crate::elf::{is_conversion_of, is_elf_conversion};
use crate::error::UtilError;
use crate::image::{
    first_fault, gap_zeroed, holds_segment, is_image_of, layout_fault, lemma_sound_prefix, zeros,
};
use crate::segment::{eligible_of, lemma_eligible_of_push, Segment};
use vstd::prelude::*;

verus! {

/// Two outcomes are the same: the same error, or the same bytes at the same
/// address.
pub open spec fn same_result(
    a: Result<(Vec<u8>, u32), UtilError>,
    b: Result<(Vec<u8>, u32), UtilError>,
) -> bool {
    match (a, b) {
        (Ok((image_a, base_a)), Ok((image_b, base_b))) => image_a@ == image_b@ && base_a == base_b,
        (Err(e), Err(f)) => e == f,
        _ => false,
    }
}

/// Every eligible segment of the table is found in the image, byte for
/// byte, at its physical address relative to the base address.
pub proof fn lemma_image_contains_segment(
    r: Result<(Vec<u8>, u32), UtilError>,
    header_size: u16,
    table: Seq<Segment>,
    file: Seq<u8>,
    i: int,
)
    requires
        is_conversion_of(r, header_size, table, file),
        r is Ok,
        0 <= i < table.len(),
        table[i].eligible(header_size),
    ensures
        ({
            let (image, base) = r->Ok_0;
            let s = table[i];
            &&& 0 <= s.physical_address - base
            &&& s.end_address() - base <= image@.len()
            &&& s.file_end() <= file.len()
            &&& image@.subrange(s.physical_address - base, s.end_address() - base)
                == file.subrange(s.file_offset as int, s.file_end())
        }),
{
    let (image, base) = r->Ok_0;
    let chosen = eligible_of(table, header_size);
    table.lemma_filter_contains(|s: Segment| s.eligible(header_size), i);
    let k = choose|k: int| 0 <= k < chosen.len() && chosen[k] == table[i];
    lemma_sound_prefix(chosen, chosen.len() as int, file.len() as int);
    assert(holds_segment(image@, base as int, chosen, file, k));
    assert(crate::image::segment_fault(chosen, k, file.len() as int) is None);
    assert(chosen[k].physical_address >= chosen[0].physical_address);
    if k < chosen.len() - 1 {
        assert(chosen[k].end_address() <= chosen[chosen.len() - 1].physical_address);
    }
}

/// Between two eligible segments that follow each other with a gap, every
/// byte of the image is zero.
pub proof fn lemma_gap_is_zero(
    r: Result<(Vec<u8>, u32), UtilError>,
    header_size: u16,
    table: Seq<Segment>,
    file: Seq<u8>,
    k: int,
    address: int,
)
    requires
        is_conversion_of(r, header_size, table, file),
        r is Ok,
        1 <= k < eligible_of(table, header_size).len(),
        eligible_of(table, header_size)[k - 1].end_address() <= address < eligible_of(
            table,
            header_size,
        )[k].physical_address,
    ensures
        ({
            let (image, base) = r->Ok_0;
            &&& 0 <= address - base < image@.len()
            &&& image@[address - base] == 0
        }),
{
    let (image, base) = r->Ok_0;
    let chosen = eligible_of(table, header_size);
    lemma_sound_prefix(chosen, chosen.len() as int, file.len() as int);
    assert(gap_zeroed(image@, base as int, chosen, k));
    assert(chosen[k - 1].physical_address >= chosen[0].physical_address);
    assert(crate::image::segment_fault(chosen, k, file.len() as int) is None);
    if k < chosen.len() - 1 {
        assert(chosen[k].end_address() <= chosen[chosen.len() - 1].physical_address);
    }
    let from = chosen[k - 1].end_address();
    let to = chosen[k].physical_address as int;
    assert(image@.subrange(from - base, to - base)[address - from] == zeros(to - from)[address
        - from]);
}

/// The eligible segments of a table start with the first entry that is
/// eligible.
pub proof fn lemma_first_eligible(table: Seq<Segment>, header_size: u16, first: int)
    requires
        0 <= first < table.len(),
        table[first].eligible(header_size),
        forall|i: int| 0 <= i < first ==> !(#[trigger] table[i]).eligible(header_size),
    ensures
        eligible_of(table, header_size).len() > 0,
        eligible_of(table, header_size)[0] == table[first],
    decreases table.len(),
{
    let front = table.drop_last();
    assert(front.push(table.last()) =~= table);
    lemma_eligible_of_push(front, table.last(), header_size);
    if first < table.len() - 1 {
        lemma_first_eligible(front, header_size, first);
    } else {
        lemma_none_eligible(front, header_size);
    }
}

/// A table without an eligible entry yields no segment.
pub proof fn lemma_none_eligible(table: Seq<Segment>, header_size: u16)
    requires
        forall|i: int| 0 <= i < table.len() ==> !(#[trigger] table[i]).eligible(header_size),
    ensures
        eligible_of(table, header_size).len() == 0,
    decreases table.len(),
{
    if table.len() > 0 {
        let front = table.drop_last();
        assert(front.push(table.last()) =~= table);
        lemma_eligible_of_push(front, table.last(), header_size);
        lemma_none_eligible(front, header_size);
    } else {
        reveal(Seq::filter);
    }
}

/// The base address is the physical address of the first eligible segment
/// in file order.
pub proof fn lemma_base_is_first_eligible_address(
    r: Result<(Vec<u8>, u32), UtilError>,
    header_size: u16,
    table: Seq<Segment>,
    file: Seq<u8>,
    first: int,
)
    requires
        is_conversion_of(r, header_size, table, file),
        r is Ok,
        0 <= first < table.len(),
        table[first].eligible(header_size),
        forall|i: int| 0 <= i < first ==> !(#[trigger] table[i]).eligible(header_size),
    ensures
        (r->Ok_0).1 == table[first].physical_address,
{
    lemma_first_eligible(table, header_size, first);
}

/// A file without an eligible segment is refused: there is no empty image.
pub proof fn lemma_nothing_to_flash(
    r: Result<(Vec<u8>, u32), UtilError>,
    header_size: u16,
    table: Seq<Segment>,
    file: Seq<u8>,
)
    requires
        is_conversion_of(r, header_size, table, file),
        forall|i: int| 0 <= i < table.len() ==> !(#[trigger] table[i]).eligible(header_size),
    ensures
        r == Err::<(Vec<u8>, u32), UtilError>(UtilError::NoLoadableSegments),
{
    lemma_none_eligible(table, header_size);
}

/// An image is never empty.
pub proof fn lemma_image_is_not_empty(
    r: Result<(Vec<u8>, u32), UtilError>,
    header_size: u16,
    table: Seq<Segment>,
    file: Seq<u8>,
)
    requires
        is_conversion_of(r, header_size, table, file),
        r is Ok,
    ensures
        (r->Ok_0).0@.len() > 0,
{
    let chosen = eligible_of(table, header_size);
    let n = chosen.len() as int;
    lemma_sound_prefix(chosen, n, file.len() as int);
    table.lemma_filter_pred(|s: Segment| s.eligible(header_size), n - 1);
    assert(chosen[n - 1].physical_address >= chosen[0].physical_address);
}

/// A segment that is not eligible contributes nothing: the outcome is that
/// of the table without it.
pub proof fn lemma_ineligible_segment_is_ignored(
    r: Result<(Vec<u8>, u32), UtilError>,
    header_size: u16,
    table: Seq<Segment>,
    file: Seq<u8>,
    i: int,
)
    requires
        0 <= i < table.len(),
        !table[i].eligible(header_size),
    ensures
        eligible_of(table.remove(i), header_size) == eligible_of(table, header_size),
        is_conversion_of(r, header_size, table.remove(i), file) == is_conversion_of(
            r,
            header_size,
            table,
            file,
        ),
{
    let keep = |s: Segment| s.eligible(header_size);
    let before = table.take(i);
    let one = seq![table[i]];
    let after = table.skip(i + 1);
    assert(table =~= before + one + after);
    assert(table.remove(i) =~= before + after);
    Seq::filter_distributes_over_add(before + one, after, keep);
    Seq::filter_distributes_over_add(before, one, keep);
    Seq::filter_distributes_over_add(before, after, keep);
    lemma_none_eligible(one, header_size);
    assert(one.filter(keep) =~= Seq::<Segment>::empty());
    assert(before.filter(keep) + one.filter(keep) =~= before.filter(keep));
}

/// Two images of the same segments over the same file agree on every byte
/// below the end of segment `k`.
proof fn lemma_images_agree(
    a: Seq<u8>,
    b: Seq<u8>,
    base: u32,
    segments: Seq<Segment>,
    file: Seq<u8>,
    k: int,
    x: int,
)
    requires
        is_image_of(a, base, segments, file),
        is_image_of(b, base, segments, file),
        layout_fault(segments, file.len() as int) is None,
        0 <= k < segments.len(),
        0 <= x < segments[k].end_address() - base,
    ensures
        x < a.len(),
        x < b.len(),
        a[x] == b[x],
    decreases k,
{
    let n = segments.len() as int;
    lemma_sound_prefix(segments, n, file.len() as int);
    assert(first_fault(segments, n, file.len() as int) is None);
    assert(crate::image::segment_fault(segments, k, file.len() as int) is None);
    let s = segments[k];
    if k < n - 1 {
        assert(s.end_address() <= segments[n - 1].physical_address);
    }
    assert(segments[n - 1].physical_address >= segments[0].physical_address);
    assert(s.physical_address >= segments[0].physical_address);
    let from = s.physical_address - base;
    let to = s.end_address() - base;
    if x >= from {
        assert(holds_segment(a, base as int, segments, file, k));
        assert(holds_segment(b, base as int, segments, file, k));
        assert(a.subrange(from, to)[x - from] == b.subrange(from, to)[x - from]);
    } else {
        assert(k > 0);
        let gap_from = segments[k - 1].end_address() - base;
        if x >= gap_from {
            assert(gap_zeroed(a, base as int, segments, k));
            assert(gap_zeroed(b, base as int, segments, k));
            assert(a.subrange(gap_from, from)[x - gap_from] == b.subrange(gap_from, from)[x
                - gap_from]);
        } else {
            lemma_images_agree(a, b, base, segments, file, k - 1, x);
        }
    }
}

/// The contract leaves no choice: two outcomes of converting the same table
/// over the same file are the same.
pub proof fn lemma_conversion_is_unique(
    first: Result<(Vec<u8>, u32), UtilError>,
    second: Result<(Vec<u8>, u32), UtilError>,
    header_size: u16,
    table: Seq<Segment>,
    file: Seq<u8>,
)
    requires
        is_conversion_of(first, header_size, table, file),
        is_conversion_of(second, header_size, table, file),
    ensures
        same_result(first, second),
{
    if first is Ok {
        let (a, base_a) = first->Ok_0;
        let (b, base_b) = second->Ok_0;
        let chosen = eligible_of(table, header_size);
        let last = chosen.len() - 1;
        assert(a@.len() == b@.len());
        assert forall|x: int| 0 <= x < a@.len() implies a@[x] == b@[x] by {
            lemma_images_agree(a@, b@, base_a, chosen, file, last, x);
        }
        assert(a@ =~= b@);
    }
}

/// Converting the same bytes twice gives the same outcome.
pub proof fn lemma_elf_conversion_is_deterministic(
    first: Result<(Vec<u8>, u32), UtilError>,
    second: Result<(Vec<u8>, u32), UtilError>,
    bytes: Seq<u8>,
)
    requires
        is_elf_conversion(first, bytes),
        is_elf_conversion(second, bytes),
    ensures
        same_result(first, second),
{
    match crate::elf::parsed_layout(bytes) {
        Some((header_size, table)) => {
            lemma_conversion_is_unique(first, second, header_size, table, bytes);
        },
        None => {},
    }
}

} // verus!
