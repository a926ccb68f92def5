//! Lays segments out as one contiguous image, zero-filling the gaps.

use crate::error::UtilError;
use crate::segment::Segment;
use vstd::prelude::*;
use vstd::slice::slice_subrange;

verus! {

/// `n` zero bytes.
pub open spec fn zeros(n: int) -> Seq<u8> {
    Seq::new(n as nat, |i: int| 0u8)
}

/// What is wrong with segment `k`, given that the segments before it are
/// sound: it starts before its predecessor ends, it does not fit a 32-bit
/// image that starts at the first segment, or its data is not in the file.
pub open spec fn segment_fault(segments: Seq<Segment>, k: int, file_len: int) -> Option<UtilError> {
    let s = segments[k];
    let base = segments[0].physical_address;
    if k > 0 && s.physical_address < segments[k - 1].end_address() {
        Some(
            UtilError::NegativeGap {
                index: k as usize,
                previous_end: segments[k - 1].end_address() as u64,
                address: s.physical_address,
            },
        )
    } else if base > u32::MAX || s.end_address() - base > u32::MAX {
        Some(
            UtilError::AddressOverflow {
                index: k as usize,
                address: s.physical_address,
                size: s.file_size,
            },
        )
    } else if s.file_end() > file_len {
        Some(UtilError::MalformedElf)
    } else {
        None
    }
}

/// The fault of the first unsound segment among the first `n`, if any.
pub open spec fn first_fault(segments: Seq<Segment>, n: int, file_len: int) -> Option<UtilError>
    decreases n,
{
    if n <= 0 {
        None
    } else {
        match first_fault(segments, n - 1, file_len) {
            Some(e) => Some(e),
            None => segment_fault(segments, n - 1, file_len),
        }
    }
}

/// Why `segments` cannot be laid out over a file of `file_len` bytes, or
/// `None` if they can.
pub open spec fn layout_fault(segments: Seq<Segment>, file_len: int) -> Option<UtilError> {
    if segments.len() == 0 {
        Some(UtilError::NoLoadableSegments)
    } else {
        first_fault(segments, segments.len() as int, file_len)
    }
}

/// The image holds the data of segment `k` at the segment's address.
pub open spec fn holds_segment(
    image: Seq<u8>,
    base: int,
    segments: Seq<Segment>,
    file: Seq<u8>,
    k: int,
) -> bool {
    let s = segments[k];
    image.subrange(s.physical_address - base, s.end_address() - base) == file.subrange(
        s.file_offset as int,
        s.file_end(),
    )
}

/// The image is zero between segment `k` and the one before it.
pub open spec fn gap_zeroed(image: Seq<u8>, base: int, segments: Seq<Segment>, k: int) -> bool {
    k > 0 ==> {
        let from = segments[k - 1].end_address();
        let to = segments[k].physical_address as int;
        image.subrange(from - base, to - base) == zeros(to - from)
    }
}

/// `image`, loaded at `base`, is the flat image of `segments` over `file`:
/// it starts at the first segment, ends with the last, carries every
/// segment's data at its address and zeros in between.
pub open spec fn is_image_of(image: Seq<u8>, base: u32, segments: Seq<Segment>, file: Seq<u8>) -> bool {
    &&& segments.len() > 0
    &&& base == segments[0].physical_address
    &&& image.len() == segments.last().end_address() - base
    &&& forall|k: int|
        0 <= k < segments.len() ==> #[trigger] holds_segment(image, base as int, segments, file, k)
    &&& forall|k: int|
        0 <= k < segments.len() ==> #[trigger] gap_zeroed(image, base as int, segments, k)
}

/// The first `n` segments are sound: in ascending order without overlap,
/// within 32 bits of the first, and backed by the file.
pub proof fn lemma_sound_prefix(segments: Seq<Segment>, n: int, file_len: int)
    requires
        0 <= n <= segments.len(),
        first_fault(segments, n, file_len) is None,
    ensures
        forall|k: int| 0 <= k < n ==> (#[trigger] segment_fault(segments, k, file_len)) is None,
        forall|k: int|
            0 <= k < n ==> segments[0].physical_address <= (#[trigger] segments[k]).physical_address,
        forall|j: int, k: int|
            0 <= j < k < n ==> (#[trigger] segments[j]).end_address() <= (
            #[trigger] segments[k]).physical_address,
    decreases n,
{
    if n > 0 {
        lemma_sound_prefix(segments, n - 1, file_len);
        assert(segment_fault(segments, n - 1, file_len) is None);
        if n - 1 > 0 {
            assert(segment_fault(segments, n - 2, file_len) is None);
            assert(segments[n - 2].end_address() <= segments[n - 1].physical_address);
            assert forall|j: int| 0 <= j < n - 1 implies (#[trigger] segments[j]).end_address()
                <= segments[n - 1].physical_address by {
                if j < n - 2 {
                    assert(segments[j].end_address() <= segments[n - 2].physical_address);
                }
            }
        }
    }
}

/// Once a segment is unsound, its fault is the fault of every longer prefix.
pub proof fn lemma_fault_persists(segments: Seq<Segment>, k: int, n: int, file_len: int)
    requires
        0 <= k < n,
        first_fault(segments, k, file_len) is None,
        segment_fault(segments, k, file_len) is Some,
    ensures
        first_fault(segments, n, file_len) == segment_fault(segments, k, file_len),
    decreases n,
{
    if n > k + 1 {
        lemma_fault_persists(segments, k, n - 1, file_len);
    }
}

/// Concatenates the segments' data in the order given, at their physical
/// addresses relative to the first segment, with zeros wherever no segment
/// lies. Refuses segments that overlap or go backwards, an image that does
/// not fit 32 bits, and data that the file does not hold.
pub fn assemble_image(segments: &[Segment], file: &[u8]) -> (r: Result<(Vec<u8>, u32), UtilError>)
    ensures
        match r {
            Ok((image, base)) => layout_fault(segments@, file@.len() as int) is None && is_image_of(
                image@,
                base,
                segments@,
                file@,
            ),
            Err(e) => layout_fault(segments@, file@.len() as int) == Some(e),
        },
{
    let count = segments.len();
    if count == 0 {
        return Err(UtilError::NoLoadableSegments);
    }
    let base: u64 = segments[0].physical_address;
    let file_len: usize = file.len();
    let mut image: Vec<u8> = Vec::new();
    let mut last_address: u64 = base;
    let mut i: usize = 0;
    while i < count
        invariant
            count == segments.len(),
            file_len == file@.len(),
            0 < count,
            i <= count,
            base == segments[0].physical_address,
            first_fault(segments@, i as int, file_len as int) is None,
            i == 0 ==> last_address == base,
            i > 0 ==> last_address == segments[i - 1].end_address(),
            i > 0 ==> base <= u32::MAX,
            base <= last_address,
            last_address - base <= u32::MAX,
            image@.len() == last_address - base,
            forall|k: int|
                0 <= k < i ==> #[trigger] holds_segment(image@, base as int, segments@, file@, k),
            forall|k: int| 0 <= k < i ==> #[trigger] gap_zeroed(image@, base as int, segments@, k),
        decreases count - i,
    {
        let s = segments[i];
        proof {
            lemma_sound_prefix(segments@, i as int, file_len as int);
        }
        if s.physical_address < last_address {
            proof {
                lemma_fault_persists(segments@, i as int, count as int, file_len as int);
            }
            return Err(
                UtilError::NegativeGap {
                    index: i,
                    previous_end: last_address,
                    address: s.physical_address,
                },
            );
        }
        let offset: u64 = s.physical_address - base;
        if base > u32::MAX as u64 || offset > u32::MAX as u64 || s.file_size > u32::MAX as u64
            - offset {
            proof {
                lemma_fault_persists(segments@, i as int, count as int, file_len as int);
            }
            return Err(
                UtilError::AddressOverflow {
                    index: i,
                    address: s.physical_address,
                    size: s.file_size,
                },
            );
        }
        if s.file_offset > file_len as u64 || s.file_size > file_len as u64 - s.file_offset {
            proof {
                lemma_fault_persists(segments@, i as int, count as int, file_len as int);
            }
            return Err(UtilError::MalformedElf);
        }
        assert(segment_fault(segments@, i as int, file_len as int) is None);
        let gap: usize = (s.physical_address - last_address) as usize;
        let ghost before = image@;
        image.resize(image.len() + gap, 0u8);
        let ghost padded = image@;
        let start: usize = s.file_offset as usize;
        let end: usize = start + s.file_size as usize;
        image.extend_from_slice(slice_subrange(file, start, end));
        proof {
            let data = file@.subrange(start as int, end as int);
            assert(padded =~= before + zeros(gap as int));
            assert(image@ =~= padded + data);
            assert forall|k: int| 0 <= k < i + 1 implies #[trigger] holds_segment(
                image@,
                base as int,
                segments@,
                file@,
                k,
            ) by {
                if k < i {
                    assert(holds_segment(before, base as int, segments@, file@, k));
                    assert(segments@[k].end_address() <= last_address);
                    assert(image@.subrange(
                        segments@[k].physical_address - base,
                        segments@[k].end_address() - base,
                    ) =~= before.subrange(
                        segments@[k].physical_address - base,
                        segments@[k].end_address() - base,
                    ));
                } else {
                    assert(image@.subrange(s.physical_address - base, s.end_address() - base)
                        =~= data);
                }
            }
            assert forall|k: int| 0 <= k < i + 1 implies #[trigger] gap_zeroed(
                image@,
                base as int,
                segments@,
                k,
            ) by {
                if k < i {
                    assert(gap_zeroed(before, base as int, segments@, k));
                    if k > 0 {
                        assert(segments@[k].end_address() <= last_address);
                        assert(image@.subrange(
                            segments@[k - 1].end_address() - base,
                            segments@[k].physical_address - base,
                        ) =~= before.subrange(
                            segments@[k - 1].end_address() - base,
                            segments@[k].physical_address - base,
                        ));
                    }
                } else if k > 0 {
                    assert(image@.subrange(last_address - base, s.physical_address - base)
                        =~= zeros(gap as int));
                }
            }
        }
        last_address = s.physical_address + s.file_size;
        i += 1;
    }
    proof {
        assert(segments@.last() == segments@[count - 1]);
    }
    Ok((image, base as u32))
}

} // verus!
