//! The chunk grammar: reading the signature, IHDR, PLTE and IDAT chunks of a
//! buffered PNG, and writing chunks with their CRC.
use vstd::prelude::*;
use crate::crc::{CrcTable, crc_of};
use crate::header::{PNGInfo, ParseError};

verus! {

pub const SIGNATURE_LENGTH: usize = 8;
/// Length field, type tag and CRC around a chunk's payload.
pub const CHUNK_OVERHEAD: usize = 12;
pub const IHDR_DATA_LENGTH: usize = 13;
/// Offset of the first chunk after the signature and IHDR.
pub const FIRST_CHUNK_AFTER_IHDR: usize = 33;

/// Chunk type tags, read as big-endian numbers.
pub const IHDR_TAG: u32 = 0x4948_4452;
pub const PLTE_TAG: u32 = 0x504c_5445;
pub const IDAT_TAG: u32 = 0x4944_4154;
pub const IEND_TAG: u32 = 0x4945_4e44;

/// Largest payload a written chunk may carry.
pub const MAX_CHUNK_DATA: usize = 0x7fff_ffff;

pub open spec fn png_signature() -> Seq<u8> {
    seq![0x89u8, 0x50u8, 0x4eu8, 0x47u8, 0x0du8, 0x0au8, 0x1au8, 0x0au8]
}

/// The big-endian number held in `s[off..off + 4]`.
pub open spec fn be32(s: Seq<u8>, off: int) -> nat {
    (s[off] * 0x100_0000 + s[off + 1] * 0x1_0000 + s[off + 2] * 0x100 + s[off + 3]) as nat
}

/// The four big-endian bytes of `v`.
pub open spec fn be32_bytes(v: u32) -> Seq<u8> {
    seq![(v / 0x100_0000) as u8, ((v / 0x1_0000) % 0x100) as u8, ((v / 0x100) % 0x100) as u8, (v % 0x100) as u8]
}

/// Length field of the chunk at `start`.
pub open spec fn chunk_len(raw: Seq<u8>, start: int) -> nat {
    be32(raw, start)
}

/// Type tag of the chunk at `start`.
pub open spec fn chunk_tag(raw: Seq<u8>, start: int) -> nat {
    be32(raw, start + 4)
}

/// The whole chunk at `start`, CRC included, lies inside the buffer.
pub open spec fn chunk_fits(raw: Seq<u8>, start: int) -> bool {
    start + 12 <= raw.len() && start + 12 + chunk_len(raw, start) <= raw.len()
}

pub open spec fn chunk_payload(raw: Seq<u8>, start: int) -> Seq<u8> {
    raw.subrange(start + 8, start + 8 + chunk_len(raw, start))
}

pub open spec fn next_chunk(raw: Seq<u8>, start: int) -> int {
    start + 12 + chunk_len(raw, start)
}

/// The header read from the signature and the IHDR chunk that must follow it.
pub open spec fn ihdr_of(raw: Seq<u8>) -> Result<PNGInfo, ParseError> {
    if raw.len() < 8 || raw.subrange(0, 8) != png_signature() {
        Err(ParseError::SIGNATURE)
    } else if raw.len() < 33 || chunk_len(raw, 8) != 13 {
        Err(ParseError::LENGTH)
    } else if chunk_tag(raw, 8) != IHDR_TAG {
        Err(ParseError::TYPE)
    } else {
        Ok(
            PNGInfo {
                width: be32(raw, 16) as usize,
                height: be32(raw, 20) as usize,
                bit_depth: raw[24],
                color_type: raw[25],
                compression_method: raw[26],
                filter_method: raw[27],
                interlace_method: raw[28],
            },
        )
    }
}

/// Searches the chunks from `start` on for PLTE, which must come before any IDAT or IEND.
pub open spec fn plte_scan(raw: Seq<u8>, start: int) -> Result<Seq<u8>, ParseError>
    decreases raw.len() - start,
{
    if start < 0 || start >= raw.len() {
        Err(ParseError::MISSING)
    } else if !chunk_fits(raw, start) {
        Err(ParseError::LENGTH)
    } else if chunk_tag(raw, start) == IDAT_TAG || chunk_tag(raw, start) == IEND_TAG {
        Err(ParseError::MISSING)
    } else if chunk_tag(raw, start) == PLTE_TAG {
        if chunk_len(raw, start) % 3 != 0 {
            Err(ParseError::LENGTH)
        } else {
            Ok(chunk_payload(raw, start))
        }
    } else {
        plte_scan(raw, next_chunk(raw, start))
    }
}

/// The palette of a buffer: the PLTE chunk after IHDR.
pub open spec fn plte_of(raw: Seq<u8>) -> Result<Seq<u8>, ParseError> {
    plte_scan(raw, 33)
}

/// `acc` followed by what `r` holds, or `r`'s error.
pub open spec fn prepend(acc: Seq<u8>, r: Result<Seq<u8>, ParseError>) -> Result<Seq<u8>, ParseError> {
    match r {
        Ok(d) => Ok(acc + d),
        Err(e) => Err(e),
    }
}

/// The IDAT payloads from `start` on, in order, up to IEND or the end of the buffer.
pub open spec fn idat_scan(raw: Seq<u8>, start: int) -> Result<Seq<u8>, ParseError>
    decreases raw.len() - start,
{
    if start < 0 || start >= raw.len() {
        Ok(Seq::empty())
    } else if !chunk_fits(raw, start) {
        Err(ParseError::LENGTH)
    } else if chunk_tag(raw, start) == IEND_TAG {
        Ok(Seq::empty())
    } else if chunk_tag(raw, start) == IDAT_TAG {
        prepend(chunk_payload(raw, start), idat_scan(raw, next_chunk(raw, start)))
    } else {
        idat_scan(raw, next_chunk(raw, start))
    }
}

/// The compressed pixel stream of a buffer: every IDAT payload after IHDR, concatenated.
pub open spec fn idat_of(raw: Seq<u8>) -> Result<Seq<u8>, ParseError> {
    match idat_scan(raw, 33) {
        Ok(d) => if d.len() == 0 {
            Err(ParseError::MISSING)
        } else {
            Ok(d)
        },
        Err(e) => Err(e),
    }
}

/// A chunk as written: length, tag, payload, and the CRC of tag and payload.
pub open spec fn chunk_bytes(tag: u32, data: Seq<u8>) -> Seq<u8> {
    be32_bytes(data.len() as u32) + be32_bytes(tag) + data + be32_bytes(crc_of(be32_bytes(tag) + data))
}

/// The 13-byte IHDR payload of a header.
pub open spec fn ihdr_payload(info: PNGInfo) -> Seq<u8> {
    be32_bytes(info.width as u32) + be32_bytes(info.height as u32) + seq![
        info.bit_depth,
        info.color_type,
        info.compression_method,
        info.filter_method,
        info.interlace_method,
    ]
}

/// A PNG made of the signature, IHDR, one IDAT holding `compressed`, and IEND.
pub open spec fn png_bytes(info: PNGInfo, compressed: Seq<u8>) -> Seq<u8> {
    png_signature() + chunk_bytes(IHDR_TAG, ihdr_payload(info)) + chunk_bytes(IDAT_TAG, compressed)
        + chunk_bytes(IEND_TAG, Seq::empty())
}

/// As `png_bytes`, with a PLTE chunk holding `palette` before the IDAT.
pub open spec fn indexed_png_bytes(info: PNGInfo, compressed: Seq<u8>, palette: Seq<u8>) -> Seq<u8> {
    png_signature() + chunk_bytes(IHDR_TAG, ihdr_payload(info)) + chunk_bytes(PLTE_TAG, palette)
        + chunk_bytes(IDAT_TAG, compressed) + chunk_bytes(IEND_TAG, Seq::empty())
}

/// A header whose dimensions fit the four-byte fields of IHDR.
pub open spec fn info_writable(info: PNGInfo) -> bool {
    info.width <= u32::MAX && info.height <= u32::MAX
}

/// Reads the big-endian number at `raw[off..off + 4]`.
pub fn get_size_from_bytes(raw: &Vec<u8>, off: usize) -> (r: u32)
    requires
        off + 4 <= raw@.len(),
    ensures
        r == be32(raw@, off as int),
{
    let _n: usize = raw.len();
    (raw[off] as u32) * 0x100_0000 + (raw[off + 1] as u32) * 0x1_0000 + (raw[off + 2] as u32) * 0x100
        + (raw[off + 3] as u32)
}

/// Appends the four big-endian bytes of `size`.
pub fn write_size_to_bytes(size: u32, data: &mut Vec<u8>)
    ensures
        final(data)@ == old(data)@ + be32_bytes(size),
{
    data.push((size / 0x100_0000) as u8);
    data.push(((size / 0x1_0000) % 0x100) as u8);
    data.push(((size / 0x100) % 0x100) as u8);
    data.push((size % 0x100) as u8);
    assert(final(data)@ =~= old(data)@ + be32_bytes(size));
}

fn append_bytes(src: &Vec<u8>, dst: &mut Vec<u8>)
    ensures
        final(dst)@ == old(dst)@ + src@,
{
    let mut i: usize = 0;
    while i < src.len()
        invariant
            i <= src@.len(),
            dst@ == old(dst)@ + src@.subrange(0, i as int),
        decreases src@.len() - i,
    {
        dst.push(src[i]);
        i = i + 1;
        assert(dst@ =~= old(dst)@ + src@.subrange(0, i as int));
    }
    assert(src@.subrange(0, i as int) =~= src@);
}

/// Appends a chunk of type `tag` carrying `payload`.
fn write_chunk(table: &CrcTable, tag: u32, payload: &Vec<u8>, data: &mut Vec<u8>)
    requires
        table.wf(),
        payload@.len() <= MAX_CHUNK_DATA,
    ensures
        final(data)@ == old(data)@ + chunk_bytes(tag, payload@),
{
    let mut body: Vec<u8> = Vec::new();
    write_size_to_bytes(tag, &mut body);
    append_bytes(payload, &mut body);
    let crc = table.compute_crc(body.as_slice());
    write_size_to_bytes(payload.len() as u32, data);
    append_bytes(&body, data);
    write_size_to_bytes(crc, data);
    assert(final(data)@ =~= old(data)@ + chunk_bytes(tag, payload@));
}

pub fn write_png_signature(data: &mut Vec<u8>)
    ensures
        final(data)@ == old(data)@ + png_signature(),
{
    data.push(0x89u8);
    data.push(0x50u8);
    data.push(0x4eu8);
    data.push(0x47u8);
    data.push(0x0du8);
    data.push(0x0au8);
    data.push(0x1au8);
    data.push(0x0au8);
    assert(final(data)@ =~= old(data)@ + png_signature());
}

pub fn write_info_as_ihdr(table: &CrcTable, info: &PNGInfo, data: &mut Vec<u8>)
    requires
        table.wf(),
        info_writable(*info),
    ensures
        final(data)@ == old(data)@ + chunk_bytes(IHDR_TAG, ihdr_payload(*info)),
{
    let mut payload: Vec<u8> = Vec::new();
    write_size_to_bytes(info.width as u32, &mut payload);
    write_size_to_bytes(info.height as u32, &mut payload);
    payload.push(info.bit_depth);
    payload.push(info.color_type);
    payload.push(info.compression_method);
    payload.push(info.filter_method);
    payload.push(info.interlace_method);
    assert(payload@ =~= ihdr_payload(*info));
    write_chunk(table, IHDR_TAG, &payload, data);
}

pub fn write_data_as_idat(table: &CrcTable, compressed_data: &Vec<u8>, png_data: &mut Vec<u8>)
    requires
        table.wf(),
        compressed_data@.len() <= MAX_CHUNK_DATA,
    ensures
        final(png_data)@ == old(png_data)@ + chunk_bytes(IDAT_TAG, compressed_data@),
{
    write_chunk(table, IDAT_TAG, compressed_data, png_data);
}

pub fn write_palette_as_plte(table: &CrcTable, plte_data: &Vec<u8>, png_data: &mut Vec<u8>)
    requires
        table.wf(),
        plte_data@.len() <= MAX_CHUNK_DATA,
    ensures
        final(png_data)@ == old(png_data)@ + chunk_bytes(PLTE_TAG, plte_data@),
{
    write_chunk(table, PLTE_TAG, plte_data, png_data);
}

pub fn write_iend(table: &CrcTable, data: &mut Vec<u8>)
    requires
        table.wf(),
    ensures
        final(data)@ == old(data)@ + chunk_bytes(IEND_TAG, Seq::empty()),
{
    let empty: Vec<u8> = Vec::new();
    write_chunk(table, IEND_TAG, &empty, data);
    assert(empty@ =~= Seq::<u8>::empty());
}

/// Serializes a non-indexed image: signature, IHDR, one IDAT, IEND.
pub fn construct_png(table: &CrcTable, thumbnail_info: PNGInfo, compressed_data: Vec<u8>) -> (r: Vec<u8>)
    requires
        table.wf(),
        info_writable(thumbnail_info),
        compressed_data@.len() <= MAX_CHUNK_DATA,
    ensures
        r@ == png_bytes(thumbnail_info, compressed_data@),
{
    let mut png_data: Vec<u8> = Vec::new();
    write_png_signature(&mut png_data);
    write_info_as_ihdr(table, &thumbnail_info, &mut png_data);
    write_data_as_idat(table, &compressed_data, &mut png_data);
    write_iend(table, &mut png_data);
    assert(png_data@ =~= png_bytes(thumbnail_info, compressed_data@));
    png_data
}

/// Serializes an indexed image: as `construct_png`, with PLTE before IDAT.
pub fn construct_indexed_png(table: &CrcTable, thumbnail_info: PNGInfo, compressed_data: Vec<u8>, plte_data: Vec<u8>) -> (r: Vec<u8>)
    requires
        table.wf(),
        info_writable(thumbnail_info),
        compressed_data@.len() <= MAX_CHUNK_DATA,
        plte_data@.len() <= MAX_CHUNK_DATA,
    ensures
        r@ == indexed_png_bytes(thumbnail_info, compressed_data@, plte_data@),
{
    let mut png_data: Vec<u8> = Vec::new();
    write_png_signature(&mut png_data);
    write_info_as_ihdr(table, &thumbnail_info, &mut png_data);
    write_palette_as_plte(table, &plte_data, &mut png_data);
    write_data_as_idat(table, &compressed_data, &mut png_data);
    write_iend(table, &mut png_data);
    assert(png_data@ =~= indexed_png_bytes(thumbnail_info, compressed_data@, plte_data@));
    png_data
}

/// Checks the signature and reads the IHDR chunk that must follow it.
pub fn parse_ihdr(raw_data: &Vec<u8>) -> (r: Result<PNGInfo, ParseError>)
    ensures
        r == ihdr_of(raw_data@),
{
    let n: usize = raw_data.len();
    if n < SIGNATURE_LENGTH {
        return Err(ParseError::SIGNATURE);
    }
    let sig_ok = raw_data[0] == 0x89u8 && raw_data[1] == 0x50u8 && raw_data[2] == 0x4eu8 && raw_data[3]
        == 0x47u8 && raw_data[4] == 0x0du8 && raw_data[5] == 0x0au8 && raw_data[6] == 0x1au8
        && raw_data[7] == 0x0au8;
    if !sig_ok {
        assert(raw_data@.subrange(0, 8) != png_signature()) by {
            if raw_data@.subrange(0, 8) == png_signature() {
                assert(raw_data@.subrange(0, 8)[0] == raw_data@[0]);
                assert(raw_data@[1] == raw_data@.subrange(0, 8)[1]);
                assert(raw_data@[2] == raw_data@.subrange(0, 8)[2]);
                assert(raw_data@[3] == raw_data@.subrange(0, 8)[3]);
                assert(raw_data@[4] == raw_data@.subrange(0, 8)[4]);
                assert(raw_data@[5] == raw_data@.subrange(0, 8)[5]);
                assert(raw_data@[6] == raw_data@.subrange(0, 8)[6]);
                assert(raw_data@[7] == raw_data@.subrange(0, 8)[7]);
            }
        }
        return Err(ParseError::SIGNATURE);
    }
    assert(raw_data@.subrange(0, 8) =~= png_signature());
    if n < FIRST_CHUNK_AFTER_IHDR {
        return Err(ParseError::LENGTH);
    }
    let length = get_size_from_bytes(raw_data, SIGNATURE_LENGTH);
    if length as usize != IHDR_DATA_LENGTH {
        return Err(ParseError::LENGTH);
    }
    if get_size_from_bytes(raw_data, SIGNATURE_LENGTH + 4) != IHDR_TAG {
        return Err(ParseError::TYPE);
    }
    let offset: usize = SIGNATURE_LENGTH + 8;
    Ok(
        PNGInfo {
            width: get_size_from_bytes(raw_data, offset) as usize,
            height: get_size_from_bytes(raw_data, offset + 4) as usize,
            bit_depth: raw_data[offset + 8],
            color_type: raw_data[offset + 9],
            compression_method: raw_data[offset + 10],
            filter_method: raw_data[offset + 11],
            interlace_method: raw_data[offset + 12],
        },
    )
}

/// Copies `raw[from..to]`.
fn copy_range(raw: &Vec<u8>, from: usize, to: usize) -> (r: Vec<u8>)
    requires
        from <= to <= raw@.len(),
    ensures
        r@ == raw@.subrange(from as int, to as int),
{
    let mut out: Vec<u8> = Vec::new();
    let mut i: usize = from;
    while i < to
        invariant
            from <= i <= to <= raw@.len(),
            out@ == raw@.subrange(from as int, i as int),
        decreases to - i,
    {
        out.push(raw[i]);
        i = i + 1;
        assert(out@ =~= raw@.subrange(from as int, i as int));
    }
    out
}

/// Reads the chunk header at `start`: its length and tag, or why it cannot be read.
fn read_chunk_header(raw: &Vec<u8>, start: usize) -> (r: Result<(usize, u32), ParseError>)
    requires
        start < raw@.len(),
    ensures
        r is Ok <==> chunk_fits(raw@, start as int),
        r is Ok ==> r->Ok_0.0 == chunk_len(raw@, start as int) && r->Ok_0.1 == chunk_tag(raw@, start as int),
        r is Err ==> r->Err_0 == ParseError::LENGTH,
{
    let n: usize = raw.len();
    if n - start < CHUNK_OVERHEAD {
        return Err(ParseError::LENGTH);
    }
    let length: usize = get_size_from_bytes(raw, start) as usize;
    if length > n - start - CHUNK_OVERHEAD {
        return Err(ParseError::LENGTH);
    }
    let tag = get_size_from_bytes(raw, start + 4);
    Ok((length, tag))
}

/// Finds the PLTE chunk, which must come before the first IDAT or IEND, and
/// returns its payload (a whole number of RGB triples).
pub fn parse_plte(raw_data: &Vec<u8>) -> (r: Result<Vec<u8>, ParseError>)
    ensures
        match r {
            Ok(v) => plte_of(raw_data@) == Ok::<Seq<u8>, ParseError>(v@),
            Err(e) => plte_of(raw_data@) == Err::<Seq<u8>, ParseError>(e),
        },
{
    let n: usize = raw_data.len();
    let mut chunk_start: usize = FIRST_CHUNK_AFTER_IHDR;
    loop
        invariant
            n == raw_data@.len(),
            plte_of(raw_data@) == plte_scan(raw_data@, chunk_start as int),
        decreases n - chunk_start,
    {
        if chunk_start >= n {
            return Err(ParseError::MISSING);
        }
        let (length, tag) = match read_chunk_header(raw_data, chunk_start) {
            Ok(h) => h,
            Err(e) => {
                return Err(e);
            },
        };
        if tag == IDAT_TAG || tag == IEND_TAG {
            return Err(ParseError::MISSING);
        }
        if tag == PLTE_TAG {
            if length % 3 != 0 {
                return Err(ParseError::LENGTH);
            }
            return Ok(copy_range(raw_data, chunk_start + 8, chunk_start + 8 + length));
        }
        chunk_start = chunk_start + CHUNK_OVERHEAD + length;
    }
}

proof fn lemma_prepend_assoc(acc: Seq<u8>, d: Seq<u8>, r: Result<Seq<u8>, ParseError>)
    ensures
        prepend(acc, prepend(d, r)) == prepend(acc + d, r),
{
    if let Ok(x) = r {
        assert(acc + (d + x) =~= (acc + d) + x);
    }
}

/// Concatenates the payloads of every IDAT chunk after IHDR, in order, up to
/// IEND or the end of the buffer; fails if there are none.
pub fn parse_idat(raw_data: &Vec<u8>) -> (r: Result<Vec<u8>, ParseError>)
    ensures
        match r {
            Ok(v) => idat_of(raw_data@) == Ok::<Seq<u8>, ParseError>(v@),
            Err(e) => idat_of(raw_data@) == Err::<Seq<u8>, ParseError>(e),
        },
{
    let n: usize = raw_data.len();
    let mut idat_data: Vec<u8> = Vec::new();
    let mut chunk_start: usize = FIRST_CHUNK_AFTER_IHDR;
    assert(idat_scan(raw_data@, 33) == prepend(idat_data@, idat_scan(raw_data@, 33))) by {
        if let Ok(x) = idat_scan(raw_data@, 33) {
            assert(Seq::<u8>::empty() + x =~= x);
        }
    }
    loop
        invariant
            n == raw_data@.len(),
            idat_scan(raw_data@, 33) == prepend(idat_data@, idat_scan(raw_data@, chunk_start as int)),
        ensures
            idat_scan(raw_data@, 33) == Ok::<Seq<u8>, ParseError>(idat_data@),
        decreases n - chunk_start,
    {
        if chunk_start >= n {
            assert(idat_data@ + Seq::<u8>::empty() =~= idat_data@);
            break;
        }
        let (length, tag) = match read_chunk_header(raw_data, chunk_start) {
            Ok(h) => h,
            Err(e) => {
                return Err(e);
            },
        };
        if tag == IEND_TAG {
            assert(idat_data@ + Seq::<u8>::empty() =~= idat_data@);
            break;
        }
        if tag == IDAT_TAG {
            let payload = copy_range(raw_data, chunk_start + 8, chunk_start + 8 + length);
            proof {
                lemma_prepend_assoc(idat_data@, payload@, idat_scan(raw_data@, next_chunk(raw_data@, chunk_start as int)));
            }
            append_bytes(&payload, &mut idat_data);
        }
        chunk_start = chunk_start + CHUNK_OVERHEAD + length;
    }
    if idat_data.len() == 0 {
        return Err(ParseError::MISSING);
    }
    Ok(idat_data)
}

proof fn lemma_be32_of_bytes(v: u32)
    ensures
        be32(be32_bytes(v), 0) == v,
        be32_bytes(v).len() == 4,
{
    let b = be32_bytes(v);
    assert(b[0] == (v / 0x100_0000) as u8);
    assert(b[1] == ((v / 0x1_0000) % 0x100) as u8);
    assert(b[2] == ((v / 0x100) % 0x100) as u8);
    assert(b[3] == (v % 0x100) as u8);
    assert(v / 0x100_0000 < 0x100);
    assert((v / 0x100_0000) * 0x100_0000 + ((v / 0x1_0000) % 0x100) * 0x1_0000 + ((v / 0x100) % 0x100) * 0x100 + v % 0x100 == v);
}

/// The chunk at `start` is whole and its stored CRC is the CRC of its tag and payload.
pub open spec fn chunk_crc_ok(raw: Seq<u8>, start: int) -> bool {
    &&& chunk_fits(raw, start)
    &&& be32(raw, start + 8 + chunk_len(raw, start)) == crc_of(raw.subrange(start + 4, start + 8 + chunk_len(raw, start)))
}

proof fn lemma_chunk_at(pre: Seq<u8>, tag: u32, data: Seq<u8>, post: Seq<u8>)
    requires
        data.len() <= MAX_CHUNK_DATA,
    ensures
        ({
            let raw = pre + chunk_bytes(tag, data) + post;
            let s = pre.len() as int;
            &&& chunk_len(raw, s) == data.len()
            &&& chunk_tag(raw, s) == tag
            &&& chunk_fits(raw, s)
            &&& chunk_payload(raw, s) == data
            &&& next_chunk(raw, s) == s + 12 + data.len()
            &&& chunk_crc_ok(raw, s)
        }),
{
    let raw = pre + chunk_bytes(tag, data) + post;
    let s = pre.len() as int;
    let l = data.len() as int;
    let c = chunk_bytes(tag, data);
    let lb = be32_bytes(data.len() as u32);
    let tb = be32_bytes(tag);
    let cb = be32_bytes(crc_of(tb + data));
    lemma_be32_of_bytes(data.len() as u32);
    lemma_be32_of_bytes(tag);
    lemma_be32_of_bytes(crc_of(tb + data));
    assert(c.len() == 12 + l);
    assert forall|i: int| 0 <= i < 4 implies raw[s + i] == lb[i] by {
        assert(raw[s + i] == c[i]);
    }
    assert forall|i: int| 0 <= i < 4 implies raw[s + 4 + i] == tb[i] by {
        assert(raw[s + 4 + i] == c[4 + i]);
    }
    assert forall|i: int| 0 <= i < 4 implies raw[s + 8 + l + i] == cb[i] by {
        assert(raw[s + 8 + l + i] == c[8 + l + i]);
    }
    assert(chunk_len(raw, s) == be32(lb, 0));
    assert(chunk_tag(raw, s) == be32(tb, 0));
    assert(be32(raw, s + 8 + l) == be32(cb, 0));
    assert(raw.subrange(s + 8, s + 8 + l) =~= data) by {
        assert forall|i: int| 0 <= i < l implies raw[s + 8 + i] == data[i] by {
            assert(raw[s + 8 + i] == c[8 + i]);
        }
    }
    assert(raw.subrange(s + 4, s + 8 + l) =~= tb + data) by {
        assert forall|i: int| 0 <= i < 4 + l implies raw[s + 4 + i] == (tb + data)[i] by {
            assert(raw[s + 4 + i] == c[4 + i]);
        }
    }
}

/// Every chunk written into a thumbnail PNG (IHDR, IDAT and IEND, at the
/// offsets they are written to) is whole and carries the CRC of its tag and
/// payload.
pub proof fn lemma_written_chunks_carry_crc(info: PNGInfo, compressed: Seq<u8>)
    requires
        info_writable(info),
        compressed.len() <= MAX_CHUNK_DATA,
    ensures
        chunk_crc_ok(png_bytes(info, compressed), 8),
        chunk_crc_ok(png_bytes(info, compressed), 33),
        chunk_crc_ok(png_bytes(info, compressed), 45 + compressed.len() as int),
{
    let sig = png_signature();
    let ihdr = chunk_bytes(IHDR_TAG, ihdr_payload(info));
    let idat = chunk_bytes(IDAT_TAG, compressed);
    let iend = chunk_bytes(IEND_TAG, Seq::empty());
    let raw = png_bytes(info, compressed);
    assert(ihdr_payload(info).len() == 13);
    lemma_chunk_at(sig, IHDR_TAG, ihdr_payload(info), idat + iend);
    assert(raw =~= sig + ihdr + (idat + iend));
    lemma_chunk_at(sig + ihdr, IDAT_TAG, compressed, iend);
    assert(raw =~= (sig + ihdr) + idat + iend);
    lemma_chunk_at(sig + ihdr + idat, IEND_TAG, Seq::empty(), Seq::empty());
    assert(raw =~= (sig + ihdr + idat) + iend + Seq::empty());
}

proof fn lemma_written_png_layout(info: PNGInfo, compressed: Seq<u8>)
    requires
        info_writable(info),
        compressed.len() <= MAX_CHUNK_DATA,
    ensures
        ({
            let raw = png_bytes(info, compressed);
            &&& raw.subrange(0, 8) == png_signature()
            &&& raw.len() == 57 + compressed.len()
            &&& chunk_len(raw, 8) == 13 && chunk_tag(raw, 8) == IHDR_TAG
            &&& chunk_payload(raw, 8) == ihdr_payload(info)
            &&& chunk_fits(raw, 33) && chunk_tag(raw, 33) == IDAT_TAG
            &&& chunk_payload(raw, 33) == compressed
            &&& next_chunk(raw, 33) == 45 + compressed.len()
            &&& chunk_fits(raw, 45 + compressed.len() as int) && chunk_tag(raw, 45 + compressed.len() as int) == IEND_TAG
        }),
{
    let sig = png_signature();
    let payload = ihdr_payload(info);
    let ihdr = chunk_bytes(IHDR_TAG, payload);
    let idat = chunk_bytes(IDAT_TAG, compressed);
    let iend = chunk_bytes(IEND_TAG, Seq::empty());
    let raw = png_bytes(info, compressed);
    assert(payload.len() == 13);
    lemma_chunk_at(sig, IHDR_TAG, payload, idat + iend);
    assert(raw =~= sig + ihdr + (idat + iend));
    lemma_chunk_at(sig + ihdr, IDAT_TAG, compressed, iend);
    assert(raw =~= (sig + ihdr) + idat + iend);
    lemma_chunk_at(sig + ihdr + idat, IEND_TAG, Seq::empty(), Seq::empty());
    assert(raw =~= (sig + ihdr + idat) + iend + Seq::empty());
    assert(raw.subrange(0, 8) =~= sig);
}

proof fn lemma_header_fields(raw: Seq<u8>, info: PNGInfo)
    requires
        info_writable(info),
        raw.len() >= 33,
        raw.subrange(0, 8) == png_signature(),
        chunk_len(raw, 8) == 13,
        chunk_tag(raw, 8) == IHDR_TAG,
        chunk_payload(raw, 8) == ihdr_payload(info),
    ensures
        ihdr_of(raw) == Ok::<PNGInfo, ParseError>(info),
{
    let payload = ihdr_payload(info);
    lemma_be32_of_bytes(info.width as u32);
    lemma_be32_of_bytes(info.height as u32);
    let wb = be32_bytes(info.width as u32);
    let hb = be32_bytes(info.height as u32);
    assert forall|i: int| 0 <= i < 13 implies raw[16 + i] == payload[i] by {
        assert(raw[16 + i] == chunk_payload(raw, 8)[i]);
    }
    assert forall|i: int| 0 <= i < 4 implies raw[16 + i] == wb[i] && raw[20 + i] == hb[i] by {
        assert(payload[i] == wb[i]);
        assert(payload[4 + i] == hb[i]);
        assert(raw[16 + i] == payload[i]);
        assert(raw[16 + 4 + i] == payload[4 + i]);
    }
    assert(be32(raw, 16) == be32(wb, 0));
    assert(be32(raw, 20) == be32(hb, 0));
    assert(raw[24] == info.bit_depth && raw[25] == info.color_type && raw[26] == info.compression_method
        && raw[27] == info.filter_method && raw[28] == info.interlace_method) by {
        assert(raw[24] == payload[8]);
        assert(raw[25] == payload[9]);
        assert(raw[26] == payload[10]);
        assert(raw[27] == payload[11]);
        assert(raw[28] == payload[12]);
    }
}

proof fn lemma_written_png_header(info: PNGInfo, compressed: Seq<u8>)
    requires
        info_writable(info),
        compressed.len() <= MAX_CHUNK_DATA,
    ensures
        ihdr_of(png_bytes(info, compressed)) == Ok::<PNGInfo, ParseError>(info),
{
    lemma_written_png_layout(info, compressed);
    lemma_header_fields(png_bytes(info, compressed), info);
}

/// Reading back a written PNG gives the header it was written with and the
/// compressed stream its IDAT carries.
pub proof fn lemma_written_png_parses(info: PNGInfo, compressed: Seq<u8>)
    requires
        info_writable(info),
        0 < compressed.len() <= MAX_CHUNK_DATA,
    ensures
        ihdr_of(png_bytes(info, compressed)) == Ok::<PNGInfo, ParseError>(info),
        idat_of(png_bytes(info, compressed)) == Ok::<Seq<u8>, ParseError>(compressed),
{
    let raw = png_bytes(info, compressed);
    lemma_written_png_header(info, compressed);
    lemma_written_png_layout(info, compressed);
    let end = 45 + compressed.len() as int;
    assert(idat_scan(raw, end) == Ok::<Seq<u8>, ParseError>(Seq::empty()));
    assert(compressed + Seq::<u8>::empty() =~= compressed);
    assert(idat_scan(raw, 33) == Ok::<Seq<u8>, ParseError>(compressed));
}

/// How far a PNG arriving byte by byte has come.
#[derive(Debug, Clone, Copy, PartialEq, Eq, Structural)]
pub enum ReceiveStatus {
    /// More bytes are needed before the IEND chunk is whole.
    NeedMore,
    /// The bytes so far hold a whole PNG, up to the end of its IEND chunk.
    Complete,
    /// The bytes so far do not start with the PNG signature.
    Invalid,
}

/// The received bytes agree with the signature as far as they go.
pub open spec fn signature_prefix_ok(raw: Seq<u8>) -> bool {
    forall|i: int| 0 <= i < 8 && i < raw.len() ==> raw[i] == #[trigger] png_signature()[i]
}

/// Walks whole chunks from `start` on, looking for a whole IEND chunk.
pub open spec fn framed_status(raw: Seq<u8>, start: int) -> ReceiveStatus
    decreases raw.len() - start,
{
    if start < 0 || !chunk_fits(raw, start) {
        ReceiveStatus::NeedMore
    } else if chunk_tag(raw, start) == IEND_TAG {
        ReceiveStatus::Complete
    } else {
        framed_status(raw, next_chunk(raw, start))
    }
}

/// The status of the bytes received so far.
pub open spec fn receive_status_of(raw: Seq<u8>) -> ReceiveStatus {
    if !signature_prefix_ok(raw) {
        ReceiveStatus::Invalid
    } else if raw.len() < 8 {
        ReceiveStatus::NeedMore
    } else {
        framed_status(raw, 8)
    }
}

/// Decides, from the bytes received so far, whether to keep reading, stop
/// with a whole PNG, or give up on a stream that is not a PNG.
pub fn receive_status(raw_data: &Vec<u8>) -> (r: ReceiveStatus)
    ensures
        r == receive_status_of(raw_data@),
{
    let n: usize = raw_data.len();
    let mut i: usize = 0;
    while i < SIGNATURE_LENGTH && i < n
        invariant
            n == raw_data@.len(),
            i <= 8,
            forall|q: int| 0 <= q < i && q < n ==> raw_data@[q] == #[trigger] png_signature()[q],
        decreases 8 - i,
    {
        let expected: u8 = match i {
            0 => 0x89u8,
            1 => 0x50u8,
            2 => 0x4eu8,
            3 => 0x47u8,
            4 => 0x0du8,
            5 => 0x0au8,
            6 => 0x1au8,
            _ => 0x0au8,
        };
        assert(expected == png_signature()[i as int]);
        if raw_data[i] != expected {
            return ReceiveStatus::Invalid;
        }
        i = i + 1;
    }
    if n < SIGNATURE_LENGTH {
        return ReceiveStatus::NeedMore;
    }
    let mut chunk_start: usize = SIGNATURE_LENGTH;
    loop
        invariant
            n == raw_data@.len(),
            signature_prefix_ok(raw_data@),
            n >= 8,
            receive_status_of(raw_data@) == framed_status(raw_data@, chunk_start as int),
        decreases n - chunk_start,
    {
        if chunk_start >= n {
            return ReceiveStatus::NeedMore;
        }
        let (length, tag) = match read_chunk_header(raw_data, chunk_start) {
            Ok(h) => h,
            Err(_) => {
                return ReceiveStatus::NeedMore;
            },
        };
        if tag == IEND_TAG {
            return ReceiveStatus::Complete;
        }
        chunk_start = chunk_start + CHUNK_OVERHEAD + length;
    }
}

} // verus!
