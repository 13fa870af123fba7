//! What the shader compiler hands back.
//!
//! The compiler returns an object file. Its section `.amdil_disassembly`
//! holds the listing of the intermediate program, its section `.text` the
//! machine code. This module takes from the object file what a caller asked
//! the compiler for.

use object::{Object, ObjectSection};
use vstd::prelude::*;

verus! {

/// Why a section could not be taken from an object file.
#[derive(Debug, Clone, Copy, PartialEq, Eq, Structural, Hash)]
pub enum SectionError {
    /// The bytes are no object file.
    InvalidObject,
    /// The object file has no section of the name.
    NoSection,
    /// The section has no contents that can be read.
    NoData,
}

/// What the compiler was asked for.
#[derive(Debug, Clone, Copy, PartialEq, Eq, Structural, Hash)]
pub enum Target {
    /// Machine code.
    Rdna2,
    /// The listing of the intermediate program.
    AmdilText,
}

/// Why nothing could be taken from what the compiler returned.
#[derive(Debug, Clone, Copy, PartialEq, Eq, Structural, Hash)]
pub enum CompileOutputError {
    /// The listing, which every object file of the compiler has, is not to
    /// be had.
    Listing(SectionError),
    /// What was asked for is not to be had.
    Payload(SectionError),
}

/// What was taken from an object file of the compiler.
#[derive(Debug, Clone, PartialEq, Eq)]
pub struct CompileOutput {
    /// The listing of the intermediate program.
    pub listing: Vec<u8>,
    /// What was asked for.
    pub payload: Vec<u8>,
}

/// The name of the section that holds the listing.
pub const LISTING_SECTION: &'static str = ".amdil_disassembly";

/// The name of the section that holds machine code.
pub const CODE_SECTION: &'static str = ".text";

/// The contents of the section of the given name in an object file, as the
/// `object` crate reads them.
pub uninterp spec fn object_section(file: Seq<u8>, name: Seq<char>) -> Result<Seq<u8>, SectionError>;

/// The view of what was found of a section.
pub open spec fn section_view(found: Result<Vec<u8>, SectionError>) -> Result<
    Seq<u8>,
    SectionError,
> {
    match found {
        Ok(data) => Ok(data@),
        Err(e) => Err(e),
    }
}

/// Calls `object::File::parse` on the bytes, `Object::section_by_name` on
/// the file and `ObjectSection::data` on the section, and copies the data
/// out. The contract claims that the outcome is a function of the bytes and
/// the name alone: which of the three calls failed, or the data.
#[verifier::external_body]
fn read_section(file: &[u8], name: &str) -> (found: Result<Vec<u8>, SectionError>)
    ensures
        section_view(found) == object_section(file@, name@),
{
    let parsed = match object::File::parse(file) {
        Ok(parsed) => parsed,
        Err(_) => return Err(SectionError::InvalidObject),
    };
    let section = match parsed.section_by_name(name) {
        Some(section) => section,
        None => return Err(SectionError::NoSection),
    };
    match section.data() {
        Ok(data) => Ok(data.to_vec()),
        Err(_) => Err(SectionError::NoData),
    }
}

impl Target {
    /// The name of the section that holds what was asked for.
    pub open spec fn section(self) -> Seq<char> {
        match self {
            Target::Rdna2 => CODE_SECTION@,
            Target::AmdilText => LISTING_SECTION@,
        }
    }

    /// The name of the section that holds what was asked for.
    pub fn section_name(self) -> (name: &'static str)
        ensures
            name@ == self.section(),
    {
        match self {
            Target::Rdna2 => CODE_SECTION,
            Target::AmdilText => LISTING_SECTION,
        }
    }
}

/// What two sections come to together: the fault of the listing before
/// that of the payload.
pub open spec fn combined(
    listing: Result<Seq<u8>, SectionError>,
    payload: Result<Seq<u8>, SectionError>,
) -> Result<(Seq<u8>, Seq<u8>), CompileOutputError> {
    match listing {
        Err(e) => Err(CompileOutputError::Listing(e)),
        Ok(l) => match payload {
            Err(e) => Err(CompileOutputError::Payload(e)),
            Ok(p) => Ok((l, p)),
        },
    }
}

/// The view of what was taken from an object file.
pub open spec fn output_view(output: Result<CompileOutput, CompileOutputError>) -> Result<
    (Seq<u8>, Seq<u8>),
    CompileOutputError,
> {
    match output {
        Ok(o) => Ok((o.listing@, o.payload@)),
        Err(e) => Err(e),
    }
}

/// Puts the listing and the payload together. Where both are missing, the
/// listing is the one reported.
pub fn combine(
    listing: Result<Vec<u8>, SectionError>,
    payload: Result<Vec<u8>, SectionError>,
) -> (output: Result<CompileOutput, CompileOutputError>)
    ensures
        output_view(output) == combined(section_view(listing), section_view(payload)),
{
    match listing {
        Err(e) => Err(CompileOutputError::Listing(e)),
        Ok(listing) => match payload {
            Err(e) => Err(CompileOutputError::Payload(e)),
            Ok(payload) => Ok(CompileOutput { listing, payload }),
        },
    }
}

/// Takes from an object file of the compiler its listing and what was
/// asked for.
pub fn inspect_compiled_shader(elf: &[u8], target: Target) -> (output: Result<
    CompileOutput,
    CompileOutputError,
>)
    ensures
        output_view(output) == combined(
            object_section(elf@, LISTING_SECTION@),
            object_section(elf@, target.section()),
        ),
{
    let listing = read_section(elf, LISTING_SECTION);
    let payload = read_section(elf, target.section_name());
    combine(listing, payload)
}

} // verus!
