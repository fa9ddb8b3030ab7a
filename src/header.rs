use vstd::prelude::*;
use crate::bytes::{le32, le64, zeros, u32_at, put_u32, put_u64, put_zeros, get_u32, lemma_u32_at_le32};
use crate::error::MabiError;

verus! {

/// First field of every container.
pub const MAGIC: u32 = 0x4b434150;

/// Second field of every container: the layout's version.
pub const PACK_VERSION: u32 = 0x102;

/// Size of the fixed header; the index starts right after it.
pub const HEADER_SIZE: usize = 0x220;

/// What the header of a container says.
#[derive(Debug, Clone, Copy, PartialEq, Eq, Structural)]
pub struct HeadInfo {
    /// Content version, the key given when the container was packed.
    pub file_ver: u32,
    pub file_cnt: u32,
    /// Size in bytes of the index region.
    pub index_size: u32,
    /// Size in bytes of the content region.
    pub content_size: u32,
}

/// The literal tag `data\` that follows the header's timestamps.
pub open spec fn header_tag() -> Seq<u8> {
    seq![0x64u8, 0x61u8, 0x74u8, 0x61u8, 0x5cu8]
}

/// The header bytes for `h`, with the timestamp `t` written twice.
pub open spec fn header_bytes(h: HeadInfo, t: u64) -> Seq<u8> {
    le32(MAGIC) + le32(PACK_VERSION) + le32(h.file_ver) + le32(h.file_cnt) + le64(t) + le64(t)
        + header_tag() + zeros(0x1db) + le32(h.file_cnt) + le32(h.index_size) + le32(0)
        + le32(h.content_size) + zeros(16)
}

/// The header that the bytes `s` of a container hold. Fields are taken in
/// layout order, and each check is made as soon as its bytes are there: the
/// magic fields, then the repeated file count, then the sizes.
pub open spec fn header_of(s: Seq<u8>) -> Result<HeadInfo, MabiError> {
    if s.len() < 8 {
        Err(MabiError::Truncated)
    } else if u32_at(s, 0) != MAGIC || u32_at(s, 4) != PACK_VERSION {
        Err(MabiError::WrongFormat)
    } else if s.len() < 0x204 {
        Err(MabiError::Truncated)
    } else if u32_at(s, 0x200) != u32_at(s, 12) {
        Err(MabiError::WrongFormat)
    } else if s.len() < 0x210 {
        Err(MabiError::Truncated)
    } else {
        Ok(
            HeadInfo {
                file_ver: u32_at(s, 8),
                file_cnt: u32_at(s, 12),
                index_size: u32_at(s, 0x204),
                content_size: u32_at(s, 0x20c),
            },
        )
    }
}

/// Appends the header for `h`, stamped with the time `t`.
pub fn write_header(out: &mut Vec<u8>, h: &HeadInfo, t: u64)
    ensures
        final(out)@ == old(out)@ + header_bytes(*h, t),
{
    put_u32(out, MAGIC);
    put_u32(out, PACK_VERSION);
    put_u32(out, h.file_ver);
    put_u32(out, h.file_cnt);
    put_u64(out, t);
    put_u64(out, t);
    out.push(0x64u8);
    out.push(0x61u8);
    out.push(0x74u8);
    out.push(0x61u8);
    out.push(0x5cu8);
    put_zeros(out, 0x1db);
    put_u32(out, h.file_cnt);
    put_u32(out, h.index_size);
    put_u32(out, 0);
    put_u32(out, h.content_size);
    put_zeros(out, 16);
    assert(final(out)@ =~= old(out)@ + header_bytes(*h, t));
}

/// Reads the header at the start of a container. Both magic fields must
/// match and the two file counts must agree, else the container is
/// rejected with `WrongFormat`; the header is read up to its content size,
/// the last field that it needs.
pub fn read_header(data: &[u8]) -> (r: Result<HeadInfo, MabiError>)
    ensures
        r == header_of(data@),
{
    if data.len() < 8 {
        return Err(MabiError::Truncated);
    }
    if get_u32(data, 0) != MAGIC || get_u32(data, 4) != PACK_VERSION {
        return Err(MabiError::WrongFormat);
    }
    if data.len() < 0x204 {
        return Err(MabiError::Truncated);
    }
    let file_cnt = get_u32(data, 12);
    if get_u32(data, 0x200) != file_cnt {
        return Err(MabiError::WrongFormat);
    }
    if data.len() < 0x210 {
        return Err(MabiError::Truncated);
    }
    Ok(
        HeadInfo {
            file_ver: get_u32(data, 8),
            file_cnt,
            index_size: get_u32(data, 0x204),
            content_size: get_u32(data, 0x20c),
        },
    )
}

/// A written header reads back as the header it was written from, whatever
/// follows it.
pub proof fn lemma_header_round_trip(h: HeadInfo, t: u64, rest: Seq<u8>)
    ensures
        header_bytes(h, t).len() == HEADER_SIZE,
        header_of(header_bytes(h, t) + rest) == Ok::<HeadInfo, MabiError>(h),
{
    let s = header_bytes(h, t) + rest;
    assert(header_bytes(h, t).len() == HEADER_SIZE);
    assert(s.subrange(0, 4) =~= le32(MAGIC));
    assert(s.subrange(4, 8) =~= le32(PACK_VERSION));
    assert(s.subrange(8, 12) =~= le32(h.file_ver));
    assert(s.subrange(12, 16) =~= le32(h.file_cnt));
    assert(s.subrange(0x200, 0x204) =~= le32(h.file_cnt));
    assert(s.subrange(0x204, 0x208) =~= le32(h.index_size));
    assert(s.subrange(0x20c, 0x210) =~= le32(h.content_size));
    lemma_u32_at_le32(s, 0, MAGIC);
    lemma_u32_at_le32(s, 4, PACK_VERSION);
    lemma_u32_at_le32(s, 8, h.file_ver);
    lemma_u32_at_le32(s, 12, h.file_cnt);
    lemma_u32_at_le32(s, 0x200, h.file_cnt);
    lemma_u32_at_le32(s, 0x204, h.index_size);
    lemma_u32_at_le32(s, 0x20c, h.content_size);
}

/// A container whose two file-count fields differ is rejected as malformed,
/// before its sizes or anything of its index is read.
pub proof fn lemma_count_mismatch_rejected(s: Seq<u8>)
    requires
        s.len() >= 0x204,
        u32_at(s, 0x200) != u32_at(s, 12),
    ensures
        header_of(s) == Err::<HeadInfo, MabiError>(MabiError::WrongFormat),
{
}

} // verus!
