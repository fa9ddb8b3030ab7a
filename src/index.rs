use vstd::prelude::*;
use vstd::utf8::encode_utf8;
use crate::bytes::{le32, le64, u32_at, put_u32, put_u64, get_u32, lemma_u32_at_le32};
use crate::error::MabiError;
use crate::header::{HeadInfo, HEADER_SIZE};
use crate::strblock::{
    block_size, lemma_str_block_round_trip, str_at, str_block, read_str, write_str_block,
    BACKSLASH,
};

verus! {

/// Size of the fixed part of an index record that follows its string block.
pub const RECORD_TAIL_SIZE: usize = 0x40;

/// One entry of a container's index.
#[derive(Debug, Clone)]
pub struct FileInfo {
    /// Relative path, with `/` between its parts.
    pub name: String,
    /// Content version; also the seed of the entry's keystream.
    pub version: u32,
    /// Offset of the payload within the content region.
    pub off: u32,
    /// Size of the stored (compressed, obfuscated) payload.
    pub raw_size: u32,
    /// Size of the entry's bytes once decompressed.
    pub uncompr_size: u32,
}

/// What a `FileInfo` says, with the name as characters.
pub struct EntryModel {
    pub name: Seq<char>,
    pub version: u32,
    pub off: u32,
    pub raw_size: u32,
    pub uncompr_size: u32,
}

impl View for FileInfo {
    type V = EntryModel;

    open spec fn view(&self) -> EntryModel {
        EntryModel {
            name: self.name@,
            version: self.version,
            off: self.off,
            raw_size: self.raw_size,
            uncompr_size: self.uncompr_size,
        }
    }
}

/// The views of a sequence of entries.
pub open spec fn views(v: Seq<FileInfo>) -> Seq<EntryModel> {
    v.map_values(|f: FileInfo| f@)
}

/// The fixed part of an index record: the numeric fields, the constant 1,
/// and five timestamps (modified, modified, accessed, modified, modified).
pub open spec fn record_tail(
    version: u32,
    off: u32,
    raw_size: u32,
    uncompr_size: u32,
    accessed: u64,
    modified: u64,
) -> Seq<u8> {
    le32(version) + le32(0) + le32(off) + le32(raw_size) + le32(uncompr_size) + le32(1) + le64(
        modified,
    ) + le64(modified) + le64(accessed) + le64(modified) + le64(modified)
}

/// An index record: the string block of the name bytes `name`, then the
/// fixed part.
pub open spec fn record_bytes(
    name: Seq<u8>,
    version: u32,
    off: u32,
    raw_size: u32,
    uncompr_size: u32,
    accessed: u64,
    modified: u64,
) -> Seq<u8> {
    str_block(name) + record_tail(version, off, raw_size, uncompr_size, accessed, modified)
}

/// The record at `pos` of the index region `s`, with the position just
/// past it.
pub open spec fn record_at(s: Seq<u8>, pos: int) -> Result<(EntryModel, int), MabiError> {
    match str_at(s, pos) {
        Err(e) => Err(e),
        Ok((name, p)) => if p + RECORD_TAIL_SIZE > s.len() {
            Err(MabiError::Truncated)
        } else {
            Ok(
                (
                    EntryModel {
                        name,
                        version: u32_at(s, p),
                        off: u32_at(s, p + 8),
                        raw_size: u32_at(s, p + 12),
                        uncompr_size: u32_at(s, p + 16),
                    },
                    p + RECORD_TAIL_SIZE,
                ),
            )
        },
    }
}

/// The `n` records that follow one another from `pos` of the index region `s`.
pub open spec fn records_of(s: Seq<u8>, pos: int, n: nat) -> Result<Seq<EntryModel>, MabiError>
    decreases n,
{
    if n == 0 {
        Ok(Seq::empty())
    } else {
        match record_at(s, pos) {
            Err(e) => Err(e),
            Ok((m, next)) => match records_of(s, next, (n - 1) as nat) {
                Ok(rest) => Ok(seq![m] + rest),
                Err(e) => Err(e),
            },
        }
    }
}

/// The index region of the container bytes `s` under the header `h`.
pub open spec fn index_region(s: Seq<u8>, h: HeadInfo) -> Seq<u8> {
    s.subrange(HEADER_SIZE as int, HEADER_SIZE + h.index_size)
}

/// The entries that the container bytes `s` list under the header `h`.
pub open spec fn index_of(s: Seq<u8>, h: HeadInfo) -> Result<Seq<EntryModel>, MabiError> {
    if s.len() < HEADER_SIZE + h.index_size {
        Err(MabiError::Truncated)
    } else {
        records_of(index_region(s, h), 0, h.file_cnt as nat)
    }
}

/// `acc` put before the entries of `r`, if it holds any.
pub open spec fn prepend(acc: Seq<EntryModel>, r: Result<Seq<EntryModel>, MabiError>) -> Result<
    Seq<EntryModel>,
    MabiError,
> {
    match r {
        Ok(rest) => Ok(acc + rest),
        Err(e) => Err(e),
    }
}

/// Appends the index record of `ent`, with the timestamps `accessed` and
/// `modified`, and returns its size.
pub fn write_file_entry(out: &mut Vec<u8>, ent: &FileInfo, accessed: u64, modified: u64) -> (r:
    u64)
    requires
        encode_utf8(ent.name@).len() + 21 <= u32::MAX,
    ensures
        final(out)@ == old(out)@ + record_bytes(
            encode_utf8(ent.name@),
            ent.version,
            ent.off,
            ent.raw_size,
            ent.uncompr_size,
            accessed,
            modified,
        ),
        r == record_bytes(
            encode_utf8(ent.name@),
            ent.version,
            ent.off,
            ent.raw_size,
            ent.uncompr_size,
            accessed,
            modified,
        ).len(),
{
    let block = write_str_block(out, ent.name.as_str());
    put_u32(out, ent.version);
    put_u32(out, 0);
    put_u32(out, ent.off);
    put_u32(out, ent.raw_size);
    put_u32(out, ent.uncompr_size);
    put_u32(out, 1);
    put_u64(out, modified);
    put_u64(out, modified);
    put_u64(out, accessed);
    put_u64(out, modified);
    put_u64(out, modified);
    assert(final(out)@ =~= old(out)@ + record_bytes(
        encode_utf8(ent.name@),
        ent.version,
        ent.off,
        ent.raw_size,
        ent.uncompr_size,
        accessed,
        modified,
    ));
    block as u64 + RECORD_TAIL_SIZE as u64
}

/// Reads the `file_cnt` records of the index region that follows the header.
pub fn read_index(data: &[u8], head: &HeadInfo) -> (r: Result<Vec<FileInfo>, MabiError>)
    ensures
        match r {
            Ok(v) => index_of(data@, *head) == Ok::<Seq<EntryModel>, MabiError>(views(v@)),
            Err(e) => index_of(data@, *head) == Err::<Seq<EntryModel>, MabiError>(e),
        },
{
    if data.len() < HEADER_SIZE || data.len() - HEADER_SIZE < head.index_size as usize {
        return Err(MabiError::Truncated);
    }
    let end = HEADER_SIZE + head.index_size as usize;
    let mut region: Vec<u8> = Vec::new();
    let mut j: usize = HEADER_SIZE;
    while j < end
        invariant
            HEADER_SIZE <= j <= end,
            end == HEADER_SIZE + head.index_size,
            end <= data@.len(),
            region@ == data@.subrange(HEADER_SIZE as int, j as int),
        decreases end - j,
    {
        region.push(data[j]);
        j = j + 1;
        assert(region@ =~= data@.subrange(HEADER_SIZE as int, j as int));
    }
    let ghost reg = region@;
    assert(reg == index_region(data@, *head));
    let mut files: Vec<FileInfo> = Vec::new();
    let mut pos: usize = 0;
    let mut i: u32 = 0;
    assert(views(files@) + Seq::<EntryModel>::empty() =~= Seq::<EntryModel>::empty());
    assert(prepend(views(files@), records_of(reg, 0, head.file_cnt as nat)) == records_of(
        reg,
        0,
        head.file_cnt as nat,
    )) by {
        match records_of(reg, 0, head.file_cnt as nat) {
            Ok(rest) => {
                assert(views(files@) + rest =~= rest);
            },
            Err(e) => {},
        }
    }
    while i < head.file_cnt
        invariant
            i <= head.file_cnt,
            region@ == reg,
            reg == index_region(data@, *head),
            data@.len() >= HEADER_SIZE + head.index_size,
            records_of(reg, 0, head.file_cnt as nat) == prepend(
                views(files@),
                records_of(reg, pos as int, (head.file_cnt - i) as nat),
            ),
        decreases head.file_cnt - i,
    {
        let k: Ghost<nat> = Ghost((head.file_cnt - i) as nat);
        let ghost pos0 = pos as int;
        let (name, p) = match read_str(region.as_slice(), pos) {
            Ok(x) => x,
            Err(e) => {
                proof {
                    assert(record_at(reg, pos as int) == Err::<(EntryModel, int), MabiError>(e));
                    assert(records_of(reg, pos as int, k@) == Err::<Seq<EntryModel>, MabiError>(
                        e,
                    ));
                }
                return Err(e);
            },
        };
        if region.len() - p < RECORD_TAIL_SIZE {
            proof {
                assert(record_at(reg, pos as int) == Err::<(EntryModel, int), MabiError>(
                    MabiError::Truncated,
                ));
                assert(records_of(reg, pos as int, k@) == Err::<Seq<EntryModel>, MabiError>(
                    MabiError::Truncated,
                ));
            }
            return Err(MabiError::Truncated);
        }
        let fi = FileInfo {
            name,
            version: get_u32(region.as_slice(), p),
            off: get_u32(region.as_slice(), p + 8),
            raw_size: get_u32(region.as_slice(), p + 12),
            uncompr_size: get_u32(region.as_slice(), p + 16),
        };
        let ghost m = fi@;
        let ghost old_views = views(files@);
        files.push(fi);
        pos = p + RECORD_TAIL_SIZE;
        i = i + 1;
        proof {
            assert(str_at(reg, pos0) == Ok::<(Seq<char>, int), MabiError>((m.name, p as int)));
            assert(record_at(reg, pos0) == Ok::<(EntryModel, int), MabiError>((m, pos as int)));
            assert(views(files@) =~= old_views.push(m));
            match records_of(reg, pos as int, (k@ - 1) as nat) {
                Ok(rest) => {
                    assert(old_views + (seq![m] + rest) =~= views(files@) + rest);
                },
                Err(e) => {},
            }
        }
    }
    assert(records_of(reg, pos as int, 0) == Ok::<Seq<EntryModel>, MabiError>(Seq::empty()));
    assert(views(files@) + Seq::<EntryModel>::empty() =~= views(files@));
    Ok(files)
}

proof fn lemma_tail_fields(
    s: Seq<u8>,
    p: int,
    version: u32,
    off: u32,
    raw_size: u32,
    uncompr_size: u32,
    accessed: u64,
    modified: u64,
)
    requires
        0 <= p,
        p + RECORD_TAIL_SIZE <= s.len(),
        s.subrange(p, p + RECORD_TAIL_SIZE) == record_tail(
            version,
            off,
            raw_size,
            uncompr_size,
            accessed,
            modified,
        ),
    ensures
        u32_at(s, p) == version,
        u32_at(s, p + 8) == off,
        u32_at(s, p + 12) == raw_size,
        u32_at(s, p + 16) == uncompr_size,
{
    let t = s.subrange(p, p + RECORD_TAIL_SIZE);
    assert(s.subrange(p, p + 4) =~= t.subrange(0, 4));
    assert(t.subrange(0, 4) =~= le32(version));
    assert(s.subrange(p + 8, p + 12) =~= t.subrange(8, 12));
    assert(t.subrange(8, 12) =~= le32(off));
    assert(s.subrange(p + 12, p + 16) =~= t.subrange(12, 16));
    assert(t.subrange(12, 16) =~= le32(raw_size));
    assert(s.subrange(p + 16, p + 20) =~= t.subrange(16, 20));
    assert(t.subrange(16, 20) =~= le32(uncompr_size));
    lemma_u32_at_le32(s, p, version);
    lemma_u32_at_le32(s, p + 8, off);
    lemma_u32_at_le32(s, p + 12, raw_size);
    lemma_u32_at_le32(s, p + 16, uncompr_size);
}

/// A written index record reads back as the entry it was written from,
/// whatever follows it, for every name whose bytes hold no zero and no `\`.
pub proof fn lemma_record_read_back(
    name: Seq<char>,
    version: u32,
    off: u32,
    raw_size: u32,
    uncompr_size: u32,
    accessed: u64,
    modified: u64,
    rest: Seq<u8>,
)
    requires
        encode_utf8(name).len() + 21 <= u32::MAX,
        forall|i: int|
            0 <= i < encode_utf8(name).len() ==> encode_utf8(name)[i] != 0 && encode_utf8(
                name,
            )[i] != BACKSLASH,
    ensures
        record_bytes(encode_utf8(name), version, off, raw_size, uncompr_size, accessed, modified)
            .len() == block_size(encode_utf8(name).len()) + RECORD_TAIL_SIZE,
        record_at(
            record_bytes(encode_utf8(name), version, off, raw_size, uncompr_size, accessed, modified)
                + rest,
            0,
        ) == Ok::<(EntryModel, int), MabiError>(
            (
                EntryModel { name, version, off, raw_size, uncompr_size },
                block_size(encode_utf8(name).len()) + RECORD_TAIL_SIZE,
            ),
        ),
{
    let blk = str_block(encode_utf8(name));
    let tail = record_tail(version, off, raw_size, uncompr_size, accessed, modified);
    let s = record_bytes(encode_utf8(name), version, off, raw_size, uncompr_size, accessed, modified)
        + rest;
    lemma_str_block_round_trip(name, tail + rest);
    assert(s =~= blk + (tail + rest));
    let p = blk.len() as int;
    assert(s.subrange(p, p + RECORD_TAIL_SIZE) =~= tail);
    lemma_tail_fields(s, p, version, off, raw_size, uncompr_size, accessed, modified);
}

} // verus!
