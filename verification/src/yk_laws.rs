//! What holds of every container.

use crate::yk::{
    bytecode_len, bytecode_start, container_error, declared_len, fragment_block, fragment_len,
    fragment_start, has_tag, le_u32, stage_bytecode, stage_error, vertex_block, vertex_len,
    vertex_start, Block, YkGfxError,
};
use vstd::prelude::*;

verus! {

/// The four bytes of a 32-bit integer, little-endian.
#[verifier::opaque]
pub open spec fn u32_le(v: u32) -> Seq<u8> {
    seq![
        (v % 0x100) as u8,
        ((v / 0x100) % 0x100) as u8,
        ((v / 0x1_0000) % 0x100) as u8,
        (v / 0x100_0000) as u8,
    ]
}

/// The header of a stage block whose bytecode starts at `start` and is
/// `len` long. `words` are the twenty bytes between the tag and these two.
pub open spec fn stage_header(block: Block, words: Seq<u8>, start: u32, len: u32) -> Seq<u8> {
    block.tag() + words + u32_le(start) + u32_le(len)
}

/// A stage block that holds `bytecode` between the bytes `lead` and `trail`.
pub open spec fn stage_block(
    block: Block,
    words: Seq<u8>,
    lead: Seq<u8>,
    bytecode: Seq<u8>,
    trail: Seq<u8>,
) -> Seq<u8> {
    stage_header(block, words, (32 + lead.len()) as u32, bytecode.len() as u32) + (lead + bytecode
        + trail)
}

/// The header of a container. `words` are the 44 bytes between the tag and
/// the four integers that place the stage blocks.
pub open spec fn container_header(
    words: Seq<u8>,
    vs_start: u32,
    vs_len: u32,
    fs_start: u32,
    fs_len: u32,
) -> Seq<u8> {
    Block::Container.tag() + words + u32_le(vs_start) + u32_le(vs_len) + u32_le(fs_start) + u32_le(
        fs_len,
    )
}

/// A container that holds the block `vertex` and the block `fragment`, in
/// this order, between the bytes `lead`, `mid` and `trail`.
pub open spec fn container(
    words: Seq<u8>,
    lead: Seq<u8>,
    vertex: Seq<u8>,
    mid: Seq<u8>,
    fragment: Seq<u8>,
    trail: Seq<u8>,
) -> Seq<u8> {
    container_header(
        words,
        (64 + lead.len()) as u32,
        vertex.len() as u32,
        (64 + lead.len() + vertex.len() + mid.len()) as u32,
        fragment.len() as u32,
    ) + (lead + vertex + mid + fragment + trail)
}

/// An integer is read back from its four bytes, wherever they stand.
pub proof fn lemma_read_back(pre: Seq<u8>, v: u32, post: Seq<u8>)
    ensures
        u32_le(v).len() == 4,
        le_u32(pre + u32_le(v) + post, pre.len() as int) == v,
{
    reveal(u32_le);
    let all = pre + u32_le(v) + post;
    let n = pre.len() as int;
    assert(all[n] == u32_le(v)[0]);
    assert(all[n + 1] == u32_le(v)[1]);
    assert(all[n + 2] == u32_le(v)[2]);
    assert(all[n + 3] == u32_le(v)[3]);
}

/// A stage block that was built around some bytecode is well-formed, and
/// its bytecode is the bytecode it was built around.
pub proof fn lemma_stage_round_trip(
    block: Block,
    words: Seq<u8>,
    lead: Seq<u8>,
    bytecode: Seq<u8>,
    trail: Seq<u8>,
)
    requires
        words.len() == 20,
        32 + lead.len() + bytecode.len() <= u32::MAX,
    ensures
        stage_error(stage_block(block, words, lead, bytecode, trail), block) is None,
        stage_bytecode(stage_block(block, words, lead, bytecode, trail)) == bytecode,
        stage_block(block, words, lead, bytecode, trail).len() == 32 + lead.len()
            + bytecode.len() + trail.len(),
{
    let start = (32 + lead.len()) as u32;
    let len = bytecode.len() as u32;
    let b = stage_block(block, words, lead, bytecode, trail);
    let body = lead + bytecode + trail;
    assert(b.subrange(0, 4) =~= block.tag());
    assert(b =~= (block.tag() + words) + u32_le(start) + (u32_le(len) + body));
    lemma_read_back(block.tag() + words, start, u32_le(len) + body);
    assert(b =~= (block.tag() + words + u32_le(start)) + u32_le(len) + body);
    lemma_read_back(block.tag() + words + u32_le(start), len, body);
    assert(bytecode_start(b) == start);
    assert(bytecode_len(b) == len);
    assert(stage_bytecode(b) =~= bytecode);
}

/// The four integers of a container header are read back, and so are the
/// bytes before them.
proof fn lemma_container_header(
    words: Seq<u8>,
    vs: u32,
    vl: u32,
    fs: u32,
    fl: u32,
    body: Seq<u8>,
)
    requires
        words.len() == 44,
    ensures
        ({
            let c = container_header(words, vs, vl, fs, fl) + body;
            &&& c.len() == 64 + body.len()
            &&& has_tag(c, Block::Container)
            &&& vertex_start(c) == vs
            &&& vertex_len(c) == vl
            &&& fragment_start(c) == fs
            &&& fragment_len(c) == fl
            &&& forall|i: int| 0 <= i < body.len() ==> c[64 + i] == body[i]
        }),
{
    let tag = Block::Container.tag();
    let h = container_header(words, vs, vl, fs, fl);
    let c = h + body;
    let pre = tag + words;
    lemma_read_back(pre, vs, body);
    lemma_read_back(pre, vl, body);
    lemma_read_back(pre, fs, body);
    lemma_read_back(pre, fl, body);
    assert(pre.len() == 48);
    assert(h.len() == 64);
    assert(c.subrange(0, 4) =~= tag);
    assert(le_u32(c, 48) == vs) by {
        assert(c =~= pre + u32_le(vs) + (u32_le(vl) + u32_le(fs) + u32_le(fl) + body));
        lemma_read_back(pre, vs, u32_le(vl) + u32_le(fs) + u32_le(fl) + body);
    }
    assert(le_u32(c, 52) == vl) by {
        assert(c =~= (pre + u32_le(vs)) + u32_le(vl) + (u32_le(fs) + u32_le(fl) + body));
        lemma_read_back(pre + u32_le(vs), vl, u32_le(fs) + u32_le(fl) + body);
    }
    assert(le_u32(c, 56) == fs) by {
        assert(c =~= (pre + u32_le(vs) + u32_le(vl)) + u32_le(fs) + (u32_le(fl) + body));
        lemma_read_back(pre + u32_le(vs) + u32_le(vl), fs, u32_le(fl) + body);
    }
    assert(le_u32(c, 60) == fl) by {
        assert(c =~= (pre + u32_le(vs) + u32_le(vl) + u32_le(fs)) + u32_le(fl) + body);
        lemma_read_back(pre + u32_le(vs) + u32_le(vl) + u32_le(fs), fl, body);
    }
}

/// A container that was built around two well-formed stage blocks is
/// well-formed, and its stage blocks are the blocks it was built around.
pub proof fn lemma_container_round_trip(
    words: Seq<u8>,
    lead: Seq<u8>,
    vertex: Seq<u8>,
    mid: Seq<u8>,
    fragment: Seq<u8>,
    trail: Seq<u8>,
)
    requires
        words.len() == 44,
        64 + lead.len() + vertex.len() + mid.len() + fragment.len() <= u32::MAX,
        stage_error(vertex, Block::Vertex) is None,
        stage_error(fragment, Block::Fragment) is None,
    ensures
        container_error(container(words, lead, vertex, mid, fragment, trail)) is None,
        vertex_block(container(words, lead, vertex, mid, fragment, trail)) == vertex,
        fragment_block(container(words, lead, vertex, mid, fragment, trail)) == fragment,
{
    let vs = (64 + lead.len()) as u32;
    let vl = vertex.len() as u32;
    let fs = (64 + lead.len() + vertex.len() + mid.len()) as u32;
    let fl = fragment.len() as u32;
    let c = container(words, lead, vertex, mid, fragment, trail);
    let body = lead + vertex + mid + fragment + trail;
    lemma_container_header(words, vs, vl, fs, fl, body);
    assert(vertex_block(c) =~= vertex) by {
        assert forall|i: int| 0 <= i < vertex.len() implies c.subrange(vs as int, vs + vl)[i]
            == vertex[i] by {
            assert(c[64 + (lead.len() + i)] == body[lead.len() + i]);
        }
    }
    assert(fragment_block(c) =~= fragment) by {
        assert forall|i: int| 0 <= i < fragment.len() implies c.subrange(fs as int, fs + fl)[i]
            == fragment[i] by {
            let k = lead.len() + vertex.len() + mid.len() + i;
            assert(c[64 + k] == body[k]);
        }
    }
}

/// Round trip: a container that was built around the bytecode of a vertex
/// stage and of a fragment stage is well-formed, and reading it gives back
/// exactly the two pieces of bytecode.
pub proof fn lemma_round_trip(
    words: Seq<u8>,
    lead: Seq<u8>,
    vertex_words: Seq<u8>,
    vertex_lead: Seq<u8>,
    vertex_bytecode: Seq<u8>,
    vertex_trail: Seq<u8>,
    mid: Seq<u8>,
    fragment_words: Seq<u8>,
    fragment_lead: Seq<u8>,
    fragment_bytecode: Seq<u8>,
    fragment_trail: Seq<u8>,
    trail: Seq<u8>,
)
    requires
        words.len() == 44,
        vertex_words.len() == 20,
        fragment_words.len() == 20,
        128 + lead.len() + vertex_lead.len() + vertex_bytecode.len() + vertex_trail.len()
            + mid.len() + fragment_lead.len() + fragment_bytecode.len() + fragment_trail.len()
            <= u32::MAX,
    ensures
        ({
            let vertex = stage_block(
                Block::Vertex,
                vertex_words,
                vertex_lead,
                vertex_bytecode,
                vertex_trail,
            );
            let fragment = stage_block(
                Block::Fragment,
                fragment_words,
                fragment_lead,
                fragment_bytecode,
                fragment_trail,
            );
            let c = container(words, lead, vertex, mid, fragment, trail);
            &&& container_error(c) is None
            &&& stage_bytecode(vertex_block(c)) == vertex_bytecode
            &&& stage_bytecode(fragment_block(c)) == fragment_bytecode
        }),
{
    let vertex = stage_block(Block::Vertex, vertex_words, vertex_lead, vertex_bytecode, vertex_trail);
    let fragment = stage_block(
        Block::Fragment,
        fragment_words,
        fragment_lead,
        fragment_bytecode,
        fragment_trail,
    );
    lemma_stage_round_trip(Block::Vertex, vertex_words, vertex_lead, vertex_bytecode, vertex_trail);
    lemma_stage_round_trip(
        Block::Fragment,
        fragment_words,
        fragment_lead,
        fragment_bytecode,
        fragment_trail,
    );
    lemma_container_round_trip(words, lead, vertex, mid, fragment, trail);
}

/// How many bytes the header of a container refers to: its own 64, and
/// what it declares of the two stage blocks.
pub open spec fn extent(bytes: Seq<u8>) -> int {
    let vertex_end = vertex_start(bytes) + vertex_len(bytes);
    let fragment_end = fragment_start(bytes) + fragment_len(bytes);
    if vertex_end >= fragment_end && vertex_end >= 64 {
        vertex_end
    } else if fragment_end >= 64 {
        fragment_end
    } else {
        64
    }
}

/// A well-formed container that is cut short is malformed exactly if the
/// cut takes away a byte that the header refers to.
pub proof fn lemma_cut_short(bytes: Seq<u8>, n: int)
    requires
        container_error(bytes) is None,
        0 <= n <= bytes.len(),
    ensures
        container_error(bytes.take(n)) is Some <==> n < extent(bytes),
{
    let cut = bytes.take(n);
    if n >= 4 {
        assert(cut.subrange(0, 4) =~= bytes.subrange(0, 4));
    }
    if n >= 64 {
        assert(vertex_start(cut) == vertex_start(bytes));
        assert(vertex_len(cut) == vertex_len(bytes));
        assert(fragment_start(cut) == fragment_start(bytes));
        assert(fragment_len(cut) == fragment_len(bytes));
        if vertex_start(bytes) + vertex_len(bytes) <= n {
            assert(vertex_block(cut) =~= vertex_block(bytes));
            if fragment_start(bytes) + fragment_len(bytes) <= n {
                assert(fragment_block(cut) =~= fragment_block(bytes));
            }
        }
    }
}

/// A well-formed container whose declared length does not reach beyond
/// what its header refers to is malformed when it is cut short of its
/// declared length.
pub proof fn lemma_truncated_is_malformed(bytes: Seq<u8>, n: int)
    requires
        container_error(bytes) is None,
        declared_len(bytes) <= extent(bytes),
        0 <= n < declared_len(bytes),
    ensures
        container_error(bytes.take(n)) is Some,
{
    lemma_cut_short(bytes, n);
}

/// A block whose bytes differ from its tag in one place does not start
/// with its tag.
proof fn lemma_tag_broken(bytes: Seq<u8>, start: int, len: int, at: int, block: Block)
    requires
        0 <= start,
        0 <= len,
        start + len <= bytes.len(),
        start <= at < start + 4,
        at < bytes.len(),
        bytes[at] != block.tag()[at - start],
    ensures
        !has_tag(bytes.subrange(start, start + len), block),
{
    let part = bytes.subrange(start, start + len);
    if part.len() >= 4 {
        assert(part.subrange(0, 4)[at - start] == bytes[at]);
    }
}

/// A byte of a tag cannot lie in the header field that says where the
/// tagged block starts: changing the byte leaves that field as it is.
proof fn lemma_start_kept(bytes: Seq<u8>, at: int, value: u8, field: int)
    requires
        0 <= field,
        field + 4 <= 0x46,
        field + 4 <= bytes.len(),
        0 <= at < bytes.len(),
        le_u32(bytes, field) <= at,
        bytes[at] >= 0x46,
    ensures
        le_u32(bytes.update(at, value), field) == le_u32(bytes, field),
{
    if field <= at < field + 4 {
        assert(le_u32(bytes, field) >= bytes[at]);
    }
}

/// A stage block that differs from its tag in one place is malformed.
proof fn lemma_stage_tag_broken(bytes: Seq<u8>, start: int, len: int, at: int, block: Block)
    requires
        0 <= start,
        0 <= len,
        start + len <= bytes.len(),
        start <= at < start + 4,
        at < bytes.len(),
        bytes[at] != block.tag()[at - start],
    ensures
        stage_error(bytes.subrange(start, start + len), block) is Some,
{
    lemma_tag_broken(bytes, start, len, at, block);
}

/// The byte of a well-formed block at a place in its tag is a byte of the
/// tag, and no byte of a tag is less than `0x46`.
proof fn lemma_tag_byte(bytes: Seq<u8>, start: int, len: int, at: int, block: Block)
    requires
        0 <= start,
        0 <= len,
        start + len <= bytes.len(),
        start <= at < start + 4,
        has_tag(bytes.subrange(start, start + len), block),
    ensures
        at < start + len,
        bytes[at] == block.tag()[at - start],
        bytes[at] >= 0x46,
{
    let part = bytes.subrange(start, start + len);
    let tag = block.tag();
    assert(part.subrange(0, 4)[at - start] == bytes[at]);
    assert(tag[0] >= 0x46 && tag[1] >= 0x46 && tag[2] >= 0x46 && tag[3] >= 0x46);
}

/// A container in which one byte of the tag of its vertex-stage block was
/// changed is malformed.
proof fn lemma_corrupt_vertex_magic(bytes: Seq<u8>, at: int, value: u8)
    requires
        container_error(bytes) is None,
        0 <= at < bytes.len(),
        value != bytes[at],
        vertex_start(bytes) <= at < vertex_start(bytes) + 4,
    ensures
        container_error(bytes.update(at, value)) is Some,
{
    let changed = bytes.update(at, value);
    let vs = vertex_start(bytes);
    lemma_tag_byte(bytes, vs, vertex_len(bytes), at, Block::Vertex);
    lemma_start_kept(bytes, at, value, 48);
    assert(vertex_start(changed) == vs);
    if vs + vertex_len(changed) <= changed.len() {
        lemma_stage_tag_broken(changed, vs, vertex_len(changed), at, Block::Vertex);
        assert(stage_error(vertex_block(changed), Block::Vertex) is Some);
    }
}

/// A container in which one byte of the tag of its fragment-stage block was
/// changed is malformed.
proof fn lemma_corrupt_fragment_magic(bytes: Seq<u8>, at: int, value: u8)
    requires
        container_error(bytes) is None,
        0 <= at < bytes.len(),
        value != bytes[at],
        fragment_start(bytes) <= at < fragment_start(bytes) + 4,
    ensures
        container_error(bytes.update(at, value)) is Some,
{
    let changed = bytes.update(at, value);
    let fs = fragment_start(bytes);
    lemma_tag_byte(bytes, fs, fragment_len(bytes), at, Block::Fragment);
    lemma_start_kept(bytes, at, value, 56);
    assert(fragment_start(changed) == fs);
    if fs + fragment_len(changed) <= changed.len() {
        lemma_stage_tag_broken(changed, fs, fragment_len(changed), at, Block::Fragment);
        assert(stage_error(fragment_block(changed), Block::Fragment) is Some);
    }
}

/// A container in which one byte of a tag was changed is malformed: be it
/// the tag of the container, of its vertex-stage block or of its
/// fragment-stage block.
pub proof fn lemma_corrupt_magic_is_malformed(bytes: Seq<u8>, at: int, value: u8)
    requires
        container_error(bytes) is None,
        0 <= at < bytes.len(),
        value != bytes[at],
        0 <= at < 4 || vertex_start(bytes) <= at < vertex_start(bytes) + 4 || fragment_start(bytes)
            <= at < fragment_start(bytes) + 4,
    ensures
        container_error(bytes.update(at, value)) is Some,
{
    if at < 4 {
        let changed = bytes.update(at, value);
        assert(bytes.subrange(0, 4)[at] == bytes[at]);
        assert(changed.subrange(0, 4)[at] == value);
        assert(!has_tag(changed, Block::Container));
    } else if vertex_start(bytes) <= at < vertex_start(bytes) + 4 {
        lemma_corrupt_vertex_magic(bytes, at, value);
    } else {
        lemma_corrupt_fragment_magic(bytes, at, value);
    }
}

} // verus!
