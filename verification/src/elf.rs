//! From the bytes of an ELF file to the image that is flashed.

use crate::error::UtilError;
use crate::image::{assemble_image, is_image_of, layout_fault};
use crate::segment::{eligible_of, eligible_segments, Segment};
use vstd::prelude::*;

verus! {

#[verifier::external_type_specification]
#[verifier::external_body]
pub struct ExElfParseError(goblin::error::Error);

/// What `goblin::elf::Elf::parse` makes of a file: `None` where it refuses
/// the bytes, else the header size (`e_ehsize`) and the program header table
/// in file order.
pub uninterp spec fn parsed_layout(bytes: Seq<u8>) -> Option<(u16, Seq<Segment>)>;

/// Calls `goblin::elf::Elf::parse` and copies out the ELF header's size and,
/// entry by entry, five fields of each program header (goblin has widened
/// those of a 32-bit file to 64 bits). Nothing of the parser is proved.
/// Assumed: the call returns, and its outcome depends on the bytes alone, so
/// that it is the one that `parsed_layout` names for them.
#[verifier::external_body]
fn parse_layout(bytes: &[u8]) -> (r: Result<(u16, Vec<Segment>), goblin::error::Error>)
    ensures
        match r {
            Ok((header_size, table)) => parsed_layout(bytes@) == Some((header_size, table@)),
            Err(_) => parsed_layout(bytes@) is None,
        },
{
    let elf = goblin::elf::Elf::parse(bytes)?;
    let mut table: Vec<Segment> = Vec::new();
    for ph in elf.program_headers.iter() {
        table.push(
            Segment {
                segment_type: ph.p_type,
                flags: ph.p_flags,
                file_offset: ph.p_offset,
                physical_address: ph.p_paddr,
                file_size: ph.p_filesz,
            },
        );
    }
    Ok((elf.header.e_ehsize, table))
}

/// `r` is the outcome of flashing the program header table `table` of a file
/// `file` whose ELF header is `header_size` bytes long: the flat image of the
/// eligible segments, or the reason why there is none.
pub open spec fn is_conversion_of(
    r: Result<(Vec<u8>, u32), UtilError>,
    header_size: u16,
    table: Seq<Segment>,
    file: Seq<u8>,
) -> bool {
    let chosen = eligible_of(table, header_size);
    match r {
        Ok((image, base)) => layout_fault(chosen, file.len() as int) is None && is_image_of(
            image@,
            base,
            chosen,
            file,
        ),
        Err(e) => layout_fault(chosen, file.len() as int) == Some(e),
    }
}

/// Builds the image from a program header table that has been read already:
/// selects the eligible segments and lays them out.
pub fn flash_image(header_size: u16, table: &[Segment], file: &[u8]) -> (r: Result<
    (Vec<u8>, u32),
    UtilError,
>)
    ensures
        is_conversion_of(r, header_size, table@, file@),
{
    let chosen = eligible_segments(table, header_size);
    assemble_image(chosen.as_slice(), file)
}

/// `r` is the outcome of converting the ELF file `bytes`: `MalformedElf`
/// where the file does not parse, else the outcome for its program header
/// table.
pub open spec fn is_elf_conversion(r: Result<(Vec<u8>, u32), UtilError>, bytes: Seq<u8>) -> bool {
    match parsed_layout(bytes) {
        Some((header_size, table)) => is_conversion_of(r, header_size, table, bytes),
        None => r == Err::<(Vec<u8>, u32), UtilError>(UtilError::MalformedElf),
    }
}

/// Returns a contiguous image, with zeros between segments that do not
/// touch, and its start address, from the bytes of an ELF file.
pub fn elf_to_bin(bytes: &[u8]) -> (r: Result<(Vec<u8>, u32), UtilError>)
    ensures
        is_elf_conversion(r, bytes@),
{
    match parse_layout(bytes) {
        Ok((header_size, table)) => flash_image(header_size, table.as_slice(), bytes),
        Err(_) => Err(UtilError::MalformedElf),
    }
}

} // verus!
