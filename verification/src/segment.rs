//! Program-header records and the rule that selects the ones to flash.

use vstd::prelude::*;

verus! {

/// Segment type of a loadable segment.
pub const PT_LOAD: u32 = 1;

/// Permission bit of a readable segment.
pub const PF_R: u32 = 4;

/// One entry of an ELF program header table, reduced to what flashing needs.
#[derive(Clone, Copy, Debug, PartialEq, Eq, Structural)]
pub struct Segment {
    /// Segment type (`p_type`).
    pub segment_type: u32,
    /// Permission flags (`p_flags`).
    pub flags: u32,
    /// Byte offset of the segment's data in the file (`p_offset`).
    pub file_offset: u64,
    /// Address the data occupies in the target's memory (`p_paddr`).
    pub physical_address: u64,
    /// Number of bytes of data present in the file (`p_filesz`).
    pub file_size: u64,
}

impl Segment {
    /// The segment is of load type.
    pub open spec fn loadable(self) -> bool {
        self.segment_type == PT_LOAD
    }

    /// The segment's flags grant read permission.
    pub open spec fn readable(self) -> bool {
        self.flags & PF_R != 0
    }

    /// A segment is flashed iff it is loadable, readable, has data in the
    /// file, and that data does not start inside the ELF header.
    pub open spec fn eligible(self, header_size: u16) -> bool {
        &&& self.loadable()
        &&& self.file_size > 0
        &&& self.file_offset >= header_size
        &&& self.readable()
    }

    /// First address past the segment's data, as a mathematical integer.
    pub open spec fn end_address(self) -> int {
        self.physical_address + self.file_size
    }

    /// First file offset past the segment's data, as a mathematical integer.
    pub open spec fn file_end(self) -> int {
        self.file_offset + self.file_size
    }

    pub fn is_loadable(&self) -> (b: bool)
        ensures
            b == self.loadable(),
    {
        self.segment_type == PT_LOAD
    }

    pub fn is_readable(&self) -> (b: bool)
        ensures
            b == self.readable(),
    {
        self.flags & PF_R != 0
    }

    pub fn is_eligible(&self, header_size: u16) -> (b: bool)
        ensures
            b == self.eligible(header_size),
    {
        self.is_loadable() && self.file_size > 0 && self.file_offset >= header_size as u64
            && self.is_readable()
    }
}

/// The eligible segments of `segments`, in the order of the table.
pub open spec fn eligible_of(segments: Seq<Segment>, header_size: u16) -> Seq<Segment> {
    segments.filter(|s: Segment| s.eligible(header_size))
}

/// Selects the eligible segments, keeping the order of the program header
/// table.
pub fn eligible_segments(segments: &[Segment], header_size: u16) -> (selected: Vec<Segment>)
    ensures
        selected@ == eligible_of(segments@, header_size),
{
    let mut selected: Vec<Segment> = Vec::new();
    let mut i: usize = 0;
    proof {
        assert(segments@.take(0) =~= Seq::<Segment>::empty());
    }
    while i < segments.len()
        invariant
            i <= segments.len(),
            selected@ == eligible_of(segments@.take(i as int), header_size),
        decreases segments.len() - i,
    {
        let s = segments[i];
        proof {
            lemma_eligible_of_push(segments@.take(i as int), s, header_size);
            assert(segments@.take(i as int).push(s) =~= segments@.take(i + 1));
        }
        if s.is_eligible(header_size) {
            selected.push(s);
        }
        i += 1;
    }
    proof {
        assert(segments@.take(i as int) =~= segments@);
    }
    selected
}

/// Selecting from a table with one more entry either appends that entry or
/// changes nothing.
pub proof fn lemma_eligible_of_push(segments: Seq<Segment>, s: Segment, header_size: u16)
    ensures
        eligible_of(segments.push(s), header_size) == if s.eligible(header_size) {
            eligible_of(segments, header_size).push(s)
        } else {
            eligible_of(segments, header_size)
        },
{
    reveal(Seq::filter);
    assert(segments.push(s).drop_last() =~= segments);
}

} // verus!
