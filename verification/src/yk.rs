//! The GSFX shader container.
//!
//! A container starts with a header of 64 bytes: the tag `GSFX`, three
//! 32-bit words (two of unknown meaning and the declared length of the
//! container), a 16-bit name checksum, a name of 30 bytes, and the start and
//! length of the vertex-stage block and of the fragment-stage block, counted
//! from the start of the container. A stage block starts with a header of 32
//! bytes: the tag `GSVS` or `GSPS`, five 32-bit words that are not used
//! here, and the start and length of the stage's bytecode, counted from the
//! start of the block. All integers are little-endian.

use vstd::prelude::*;
use vstd::slice::slice_subrange;

verus! {

/// The bytecode of a vertex stage, borrowed from the container.
#[derive(Debug, Clone, Copy)]
pub struct GSVS<'a> {
    pub dxbc: &'a [u8],
}

/// The bytecode of a fragment stage, borrowed from the container.
#[derive(Debug, Clone, Copy)]
pub struct GSPS<'a> {
    pub dxbc: &'a [u8],
}

/// A block of the container format.
#[derive(Debug, Clone, Copy, PartialEq, Eq, Structural, Hash)]
pub enum Block {
    /// The container itself, tagged `GSFX`.
    Container,
    /// The vertex-stage block, tagged `GSVS`.
    Vertex,
    /// The fragment-stage block, tagged `GSPS`.
    Fragment,
}

/// Why a container is malformed.
#[derive(Debug, Clone, Copy, PartialEq, Eq, Structural, Hash)]
pub enum YkGfxError {
    /// The block does not start with its tag.
    BadMagic(Block),
    /// The block starts with its tag and ends before its header does.
    Truncated(Block),
    /// A range that the header of the block declares reaches beyond the
    /// block.
    OutOfRange(Block),
}

/// The length of the header of a container.
pub const GSFX_HEADER_LEN: usize = 64;

/// The length of the header of a stage block.
pub const STAGE_HEADER_LEN: usize = 32;

impl Block {
    /// The four bytes that a block of this kind starts with.
    pub open spec fn tag(self) -> Seq<u8> {
        match self {
            Block::Container => seq![0x47u8, 0x53u8, 0x46u8, 0x58u8],
            Block::Vertex => seq![0x47u8, 0x53u8, 0x56u8, 0x53u8],
            Block::Fragment => seq![0x47u8, 0x53u8, 0x50u8, 0x53u8],
        }
    }

    fn third(self) -> (b: u8)
        ensures
            b == self.tag()[2],
    {
        match self {
            Block::Container => 0x46,
            Block::Vertex => 0x56,
            Block::Fragment => 0x50,
        }
    }

    fn fourth(self) -> (b: u8)
        ensures
            b == self.tag()[3],
    {
        match self {
            Block::Container => 0x58,
            Block::Vertex => 0x53,
            Block::Fragment => 0x53,
        }
    }
}

/// The 32-bit little-endian integer that starts at `at`.
pub open spec fn le_u32(bytes: Seq<u8>, at: int) -> int {
    bytes[at] + 0x100 * bytes[at + 1] + 0x1_0000 * bytes[at + 2] + 0x100_0000 * bytes[at + 3]
}

/// The bytes start with the tag of the block.
pub open spec fn has_tag(bytes: Seq<u8>, block: Block) -> bool {
    bytes.len() >= 4 && bytes.subrange(0, 4) == block.tag()
}

/// Where the bytecode starts in a stage block, as its header declares.
pub open spec fn bytecode_start(block: Seq<u8>) -> int {
    le_u32(block, 24)
}

/// How long the bytecode of a stage block is, as its header declares.
pub open spec fn bytecode_len(block: Seq<u8>) -> int {
    le_u32(block, 28)
}

/// What is wrong with a stage block, if anything.
pub open spec fn stage_error(bytes: Seq<u8>, block: Block) -> Option<YkGfxError> {
    if !has_tag(bytes, block) {
        Some(YkGfxError::BadMagic(block))
    } else if bytes.len() < STAGE_HEADER_LEN {
        Some(YkGfxError::Truncated(block))
    } else if bytecode_start(bytes) + bytecode_len(bytes) > bytes.len() {
        Some(YkGfxError::OutOfRange(block))
    } else {
        None
    }
}

/// The bytecode that a stage block holds.
pub open spec fn stage_bytecode(bytes: Seq<u8>) -> Seq<u8> {
    bytes.subrange(bytecode_start(bytes), bytecode_start(bytes) + bytecode_len(bytes))
}

/// The length of the container, as its header declares. Nothing is decided
/// by it.
pub open spec fn declared_len(bytes: Seq<u8>) -> int {
    le_u32(bytes, 12)
}

/// Where the vertex-stage block starts, as the header declares.
pub open spec fn vertex_start(bytes: Seq<u8>) -> int {
    le_u32(bytes, 48)
}

/// How long the vertex-stage block is, as the header declares.
pub open spec fn vertex_len(bytes: Seq<u8>) -> int {
    le_u32(bytes, 52)
}

/// Where the fragment-stage block starts, as the header declares.
pub open spec fn fragment_start(bytes: Seq<u8>) -> int {
    le_u32(bytes, 56)
}

/// How long the fragment-stage block is, as the header declares.
pub open spec fn fragment_len(bytes: Seq<u8>) -> int {
    le_u32(bytes, 60)
}

/// The vertex-stage block of a container.
pub open spec fn vertex_block(bytes: Seq<u8>) -> Seq<u8> {
    bytes.subrange(vertex_start(bytes), vertex_start(bytes) + vertex_len(bytes))
}

/// The fragment-stage block of a container.
pub open spec fn fragment_block(bytes: Seq<u8>) -> Seq<u8> {
    bytes.subrange(fragment_start(bytes), fragment_start(bytes) + fragment_len(bytes))
}

/// What is wrong with a container, if anything: the first fault met when
/// reading the header, then the vertex-stage block, then the fragment-stage
/// block.
pub open spec fn container_error(bytes: Seq<u8>) -> Option<YkGfxError> {
    if !has_tag(bytes, Block::Container) {
        Some(YkGfxError::BadMagic(Block::Container))
    } else if bytes.len() < GSFX_HEADER_LEN {
        Some(YkGfxError::Truncated(Block::Container))
    } else if vertex_start(bytes) + vertex_len(bytes) > bytes.len() {
        Some(YkGfxError::OutOfRange(Block::Container))
    } else if stage_error(vertex_block(bytes), Block::Vertex) is Some {
        stage_error(vertex_block(bytes), Block::Vertex)
    } else if fragment_start(bytes) + fragment_len(bytes) > bytes.len() {
        Some(YkGfxError::OutOfRange(Block::Container))
    } else {
        stage_error(fragment_block(bytes), Block::Fragment)
    }
}

fn read_u32(bytes: &[u8], at: usize) -> (v: u32)
    requires
        at + 4 <= bytes@.len(),
    ensures
        v == le_u32(bytes@, at as int),
{
    let b0: u32 = bytes[at] as u32;
    let b1: u32 = bytes[at + 1] as u32;
    let b2: u32 = bytes[at + 2] as u32;
    let b3: u32 = bytes[at + 3] as u32;
    b0 + 0x100 * b1 + 0x1_0000 * b2 + 0x100_0000 * b3
}

fn starts_with_tag(bytes: &[u8], block: Block) -> (b: bool)
    ensures
        b == has_tag(bytes@, block),
{
    if bytes.len() < 4 {
        return false;
    }
    let found = bytes[0] == 0x47 && bytes[1] == 0x53 && bytes[2] == block.third() && bytes[3]
        == block.fourth();
    proof {
        let head = bytes@.subrange(0, 4);
        let tag = block.tag();
        assert(head[0] == bytes@[0] && head[1] == bytes@[1] && head[2] == bytes@[2] && head[3]
            == bytes@[3]);
        assert(tag[0] == 0x47 && tag[1] == 0x53);
        if found {
            assert(head =~= tag);
        }
    }
    found
}

/// The part of `bytes` that starts at `start` and is `len` long, if it lies
/// within `bytes`.
fn range<'a>(bytes: &'a [u8], start: u32, len: u32) -> (part: Option<&'a [u8]>)
    ensures
        part is Some <==> start + len <= bytes@.len(),
        part matches Some(p) ==> p@ == bytes@.subrange(start as int, start + len),
{
    let end: u64 = start as u64 + len as u64;
    if end > bytes.len() as u64 {
        None
    } else {
        Some(slice_subrange(bytes, start as usize, end as usize))
    }
}

/// Reads a stage block: what follows its header, and its bytecode.
fn parse_stage<'a>(overall: &'a [u8], block: Block) -> (r: Result<(&'a [u8], &'a [u8]), YkGfxError>)
    ensures
        match r {
            Ok((rest, dxbc)) => {
                &&& stage_error(overall@, block) is None
                &&& rest@ == overall@.skip(STAGE_HEADER_LEN as int)
                &&& dxbc@ == stage_bytecode(overall@)
            },
            Err(e) => stage_error(overall@, block) == Some(e),
        },
{
    if !starts_with_tag(overall, block) {
        return Err(YkGfxError::BadMagic(block));
    }
    if overall.len() < STAGE_HEADER_LEN {
        return Err(YkGfxError::Truncated(block));
    }
    let start = read_u32(overall, 24);
    let len = read_u32(overall, 28);
    match range(overall, start, len) {
        None => Err(YkGfxError::OutOfRange(block)),
        Some(dxbc) => {
            let rest = slice_subrange(overall, STAGE_HEADER_LEN, overall.len());
            Ok((rest, dxbc))
        },
    }
}

/// Reads a vertex-stage block. Returns what follows the header of the block,
/// and the bytecode of the stage.
pub fn parse_gsvs<'a>(overall: &'a [u8]) -> (r: Result<(&'a [u8], GSVS<'a>), YkGfxError>)
    ensures
        match r {
            Ok((rest, gsvs)) => {
                &&& stage_error(overall@, Block::Vertex) is None
                &&& rest@ == overall@.skip(STAGE_HEADER_LEN as int)
                &&& gsvs.dxbc@ == stage_bytecode(overall@)
            },
            Err(e) => stage_error(overall@, Block::Vertex) == Some(e),
        },
{
    match parse_stage(overall, Block::Vertex) {
        Ok((rest, dxbc)) => Ok((rest, GSVS { dxbc })),
        Err(e) => Err(e),
    }
}

/// Reads a fragment-stage block. Returns what follows the header of the
/// block, and the bytecode of the stage.
pub fn parse_gsps<'a>(overall: &'a [u8]) -> (r: Result<(&'a [u8], GSPS<'a>), YkGfxError>)
    ensures
        match r {
            Ok((rest, gsps)) => {
                &&& stage_error(overall@, Block::Fragment) is None
                &&& rest@ == overall@.skip(STAGE_HEADER_LEN as int)
                &&& gsps.dxbc@ == stage_bytecode(overall@)
            },
            Err(e) => stage_error(overall@, Block::Fragment) == Some(e),
        },
{
    match parse_stage(overall, Block::Fragment) {
        Ok((rest, dxbc)) => Ok((rest, GSPS { dxbc })),
        Err(e) => Err(e),
    }
}

/// Reads a container. Returns what follows the header of the container, and
/// the bytecode of both stages.
pub fn parse_gsfx<'a>(overall: &'a [u8]) -> (r: Result<
    (&'a [u8], (GSVS<'a>, GSPS<'a>)),
    YkGfxError,
>)
    ensures
        match r {
            Ok((rest, (gsvs, gsps))) => {
                &&& container_error(overall@) is None
                &&& rest@ == overall@.skip(GSFX_HEADER_LEN as int)
                &&& gsvs.dxbc@ == stage_bytecode(vertex_block(overall@))
                &&& gsps.dxbc@ == stage_bytecode(fragment_block(overall@))
            },
            Err(e) => container_error(overall@) == Some(e),
        },
{
    if !starts_with_tag(overall, Block::Container) {
        return Err(YkGfxError::BadMagic(Block::Container));
    }
    if overall.len() < GSFX_HEADER_LEN {
        return Err(YkGfxError::Truncated(Block::Container));
    }
    let vs_start = read_u32(overall, 48);
    let vs_length = read_u32(overall, 52);
    let fs_start = read_u32(overall, 56);
    let fs_length = read_u32(overall, 60);
    let vertex = match range(overall, vs_start, vs_length) {
        None => { return Err(YkGfxError::OutOfRange(Block::Container)); },
        Some(part) => part,
    };
    let gsvs = match parse_gsvs(vertex) {
        Err(e) => { return Err(e); },
        Ok((_, gsvs)) => gsvs,
    };
    let fragment = match range(overall, fs_start, fs_length) {
        None => { return Err(YkGfxError::OutOfRange(Block::Container)); },
        Some(part) => part,
    };
    let gsps = match parse_gsps(fragment) {
        Err(e) => { return Err(e); },
        Ok((_, gsps)) => gsps,
    };
    let rest = slice_subrange(overall, GSFX_HEADER_LEN, overall.len());
    Ok((rest, (gsvs, gsps)))
}

} // verus!
