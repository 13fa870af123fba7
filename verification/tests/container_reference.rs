use nom::bytes::complete::{tag, take};
use nom::number::complete::{le_u16, le_u32};
use nom::sequence::tuple;
use nom::IResult;
use yk_fxo_disasm::yk::{parse_gsfx, parse_gsps, parse_gsvs};

// The container format written down with parser combinators. Slices that
// reach beyond their input are reported as `None` in place of a panic.

fn reference_stage<'a>(magic: &'static [u8], overall: &'a [u8]) -> Option<(&'a [u8], &'a [u8])> {
    let header: IResult<&[u8], (&[u8], u32, u32, u32)> =
        tuple((tag(magic), le_u32, le_u32, le_u32))(overall);
    let (input, _) = header.ok()?;
    let fields: IResult<&[u8], (u32, u32, u32, u32)> =
        tuple((le_u32, le_u32, le_u32, le_u32))(input);
    let (input, (_, _, offset, len)) = fields.ok()?;
    let start = offset as usize;
    let end = start.checked_add(len as usize)?;
    Some((input, overall.get(start..end)?))
}

fn reference_container(overall: &[u8]) -> Option<(&[u8], &[u8], &[u8])> {
    let header: IResult<&[u8], (&[u8], u32, u32, u32)> =
        tuple((tag(&b"GSFX"[..]), le_u32, le_u32, le_u32))(overall);
    let (input, _) = header.ok()?;
    let name: IResult<&[u8], (u16, &[u8])> = tuple((le_u16, take(30usize)))(input);
    let (input, _) = name.ok()?;
    let vs: IResult<&[u8], (u32, u32)> = tuple((le_u32, le_u32))(input);
    let (input, (vs_start, vs_len)) = vs.ok()?;
    let fs: IResult<&[u8], (u32, u32)> = tuple((le_u32, le_u32))(input);
    let (input, (fs_start, fs_len)) = fs.ok()?;
    let vs_end = (vs_start as usize).checked_add(vs_len as usize)?;
    let (_, vertex) = reference_stage(b"GSVS", overall.get(vs_start as usize..vs_end)?)?;
    let fs_end = (fs_start as usize).checked_add(fs_len as usize)?;
    let (_, fragment) = reference_stage(b"GSPS", overall.get(fs_start as usize..fs_end)?)?;
    Some((input, vertex, fragment))
}

fn ours(overall: &[u8]) -> Option<(&[u8], &[u8], &[u8])> {
    parse_gsfx(overall).ok().map(|(rest, (v, f))| (rest, v.dxbc, f.dxbc))
}

/// A small generator of bytes, the same on every run.
fn next(state: &mut u64) -> u64 {
    *state = state.wrapping_mul(6364136223846793005).wrapping_add(1442695040888963407);
    *state >> 33
}

fn sample() -> Vec<u8> {
    let mut b = Vec::new();
    b.extend_from_slice(b"GSFX");
    b.extend_from_slice(&[0; 44]);
    for v in [64u32, 40, 104, 40] {
        b.extend_from_slice(&v.to_le_bytes());
    }
    for magic in [b"GSVS", b"GSPS"] {
        b.extend_from_slice(magic);
        b.extend_from_slice(&[0; 20]);
        b.extend_from_slice(&32u32.to_le_bytes());
        b.extend_from_slice(&4u32.to_le_bytes());
        b.extend_from_slice(&[0xDE, 0xAD, 0xBE, 0xEF, 0, 0, 0, 0]);
    }
    b
}

#[test]
fn agrees_with_the_combinators_on_a_well_formed_container() {
    let bytes = sample();
    let expected = reference_container(&bytes);
    assert!(expected.is_some());
    assert_eq!(ours(&bytes), expected);
}

#[test]
fn agrees_with_the_combinators_on_every_cut() {
    let bytes = sample();
    for n in 0..=bytes.len() {
        assert_eq!(ours(&bytes[..n]), reference_container(&bytes[..n]), "cut at {}", n);
    }
}

#[test]
fn agrees_with_the_combinators_when_one_byte_changes() {
    let bytes = sample();
    for at in 0..bytes.len() {
        for value in [0u8, 1, 4, 32, 36, 0x47, 0x53, 0xFF] {
            let mut changed = bytes.clone();
            changed[at] = value;
            assert_eq!(ours(&changed), reference_container(&changed), "byte {} := {}", at, value);
        }
    }
}

#[test]
fn agrees_with_the_combinators_when_bytes_change_at_random() {
    let bytes = sample();
    let mut state = 0x5EED_u64;
    for _ in 0..4000 {
        let mut changed = bytes.clone();
        let changes = 1 + next(&mut state) % 3;
        for _ in 0..changes {
            // Mostly within the fields that place the blocks.
            let at = if next(&mut state) % 2 == 0 {
                48 + (next(&mut state) % 16) as usize
            } else {
                (next(&mut state) as usize) % changed.len()
            };
            changed[at] = (next(&mut state) % 160) as u8;
        }
        assert_eq!(ours(&changed), reference_container(&changed));
    }
}

#[test]
fn agrees_with_the_combinators_on_single_stage_blocks() {
    let bytes = sample();
    for (start, vertex) in [(64usize, true), (104, false)] {
        let block = &bytes[start..start + 40];
        for n in 0..=block.len() {
            let cut = &block[..n];
            if vertex {
                let got = parse_gsvs(cut).ok().map(|(rest, g)| (rest, g.dxbc));
                assert_eq!(got, reference_stage(b"GSVS", cut));
            } else {
                let got = parse_gsps(cut).ok().map(|(rest, g)| (rest, g.dxbc));
                assert_eq!(got, reference_stage(b"GSPS", cut));
            }
        }
    }
}
