use vstd::prelude::*;
use crate::compress::{zlib_compress, zlib_decompress, zlib_deflated, zlib_inflated};
use crate::error::MabiError;
use crate::header::{HeadInfo, HEADER_SIZE};
use crate::index::{EntryModel, FileInfo};
use crate::keystream::{obfuscate, obfuscated};

verus! {

/// Offset between the Unix epoch and the Windows epoch, in 100 ns ticks.
pub const FILETIME_UNIX_EPOCH: u64 = 116444736000000000;

/// Windows file time (100 ns ticks since 1601) of `ms` milliseconds after
/// the Unix epoch, kept to 64 bits.
pub open spec fn filetime(ms: u64) -> u64 {
    ((ms * 10000 + FILETIME_UNIX_EPOCH) % 0x1_0000_0000_0000_0000int) as u64
}

/// Windows file time of a moment given in milliseconds since the Unix epoch.
pub fn time_to_filetime(unix_millis: u64) -> (r: u64)
    ensures
        r == filetime(unix_millis),
{
    assert(unix_millis * 10000 + FILETIME_UNIX_EPOCH <= u128::MAX) by (nonlinear_arith)
        requires
            unix_millis <= u64::MAX,
    ;
    let t: u128 = unix_millis as u128 * 10000 + FILETIME_UNIX_EPOCH as u128;
    (t % 0x1_0000_0000_0000_0000u128) as u64
}

/// What remains of the path `full` once the leading path `root` is taken
/// off, component by component; `None` where `root` does not lead `full`.
pub uninterp spec fn path_relative(root: Seq<char>, full: Seq<char>) -> Option<Seq<char>>;

/// Relies on `std::path::Path::strip_prefix`, its result turned back into
/// text (lossless, as both paths are text). The outcome depends on the two
/// paths alone.
#[verifier::external_body]
fn strip_path_prefix(root: &str, full: &str) -> (r: Option<String>)
    ensures
        match r {
            Some(s) => path_relative(root@, full@) == Some(s@),
            None => path_relative(root@, full@).is_none(),
        },
{
    std::path::Path::new(full).strip_prefix(root).ok().map(|p| p.to_string_lossy().into_owned())
}

/// The path of `full_path` relative to `root_dir`.
pub fn get_rel_path(root_dir: &str, full_path: &str) -> (r: Result<String, MabiError>)
    ensures
        match r {
            Ok(s) => path_relative(root_dir@, full_path@) == Some(s@),
            Err(e) => e == MabiError::InternalError && path_relative(
                root_dir@,
                full_path@,
            ).is_none(),
        },
{
    match strip_path_prefix(root_dir, full_path) {
        Some(s) => Ok(s),
        None => Err(MabiError::InternalError),
    }
}

/// Compresses and obfuscates one file's bytes under the content version
/// `key`; the entry's offset is left at 0 for the assembler to set. It
/// succeeds exactly when the file and its compressed stream fit the
/// layout's 32-bit sizes, and fails with `TooLarge` otherwise.
pub fn pack_file(rel_path: &str, content: &[u8], key: u32) -> (r: Result<
    (FileInfo, Vec<u8>),
    MabiError,
>)
    ensures
        r is Ok <==> content@.len() <= u32::MAX && zlib_deflated(content@).len() <= u32::MAX,
        match r {
            Ok((fi, p)) => {
                &&& p@ == obfuscated(zlib_deflated(content@), key)
                &&& zlib_inflated(zlib_deflated(content@)) == Some(content@)
                &&& fi.name@ == rel_path@
                &&& fi.version == key
                &&& fi.off == 0
                &&& fi.raw_size == p@.len()
                &&& fi.uncompr_size == content@.len()
            },
            Err(e) => e == MabiError::TooLarge,
        },
{
    let compressed = match zlib_compress(content) {
        Ok(v) => v,
        Err(msg) => {
            return Err(MabiError::CompressError(msg));
        },
    };
    if content.len() > u32::MAX as usize || compressed.len() > u32::MAX as usize {
        return Err(MabiError::TooLarge);
    }
    let payload = obfuscate(compressed.as_slice(), key);
    let fi = FileInfo {
        name: rel_path.to_owned(),
        version: key,
        off: 0,
        raw_size: payload.len() as u32,
        uncompr_size: content.len() as u32,
    };
    Ok((fi, payload))
}

/// What the decoder's outcome `decoded` yields for an entry whose recorded
/// decompressed size is `n`.
pub open spec fn checked_content(decoded: Option<Seq<u8>>, n: u32) -> Result<Seq<u8>, MabiError> {
    match decoded {
        None => Err(MabiError::CorruptedFile),
        Some(o) => if o.len() == n {
            Ok(o)
        } else {
            Err(MabiError::CorruptedFile)
        },
    }
}

/// The bytes of the entry `e` of the container bytes `s` under the header `h`.
pub open spec fn content_of(s: Seq<u8>, h: HeadInfo, e: EntryModel) -> Result<Seq<u8>, MabiError> {
    let start = HEADER_SIZE + h.index_size + e.off;
    if start + e.raw_size > s.len() {
        Err(MabiError::CorruptedFile)
    } else {
        checked_content(
            zlib_inflated(obfuscated(s.subrange(start, start + e.raw_size), e.version)),
            e.uncompr_size,
        )
    }
}

/// `r` is the executable form of the spec result `m`.
pub open spec fn same_bytes(r: Result<Vec<u8>, MabiError>, m: Result<Seq<u8>, MabiError>) -> bool {
    match r {
        Ok(v) => m == Ok::<Seq<u8>, MabiError>(v@),
        Err(e) => m == Err::<Seq<u8>, MabiError>(e),
    }
}

/// Accepts decompressed bytes only where the decoder succeeded and their
/// length is the recorded size; anything else is a corrupted entry.
pub fn check_inflated(decoded: Option<Vec<u8>>, uncompr_size: u32) -> (r: Result<
    Vec<u8>,
    MabiError,
>)
    ensures
        same_bytes(
            r,
            checked_content(
                match decoded {
                    Some(v) => Some(v@),
                    None => None,
                },
                uncompr_size,
            ),
        ),
{
    match decoded {
        None => Err(MabiError::CorruptedFile),
        Some(o) => if o.len() == uncompr_size as usize {
            Ok(o)
        } else {
            Err(MabiError::CorruptedFile)
        },
    }
}

/// Reads, de-obfuscates and decompresses the entry `fi` of a container.
pub fn extract_entry(data: &[u8], head: &HeadInfo, fi: &FileInfo) -> (r: Result<
    Vec<u8>,
    MabiError,
>)
    ensures
        same_bytes(r, content_of(data@, *head, fi@)),
{
    let start: u64 = HEADER_SIZE as u64 + head.index_size as u64 + fi.off as u64;
    if start + fi.raw_size as u64 > data.len() as u64 {
        return Err(MabiError::CorruptedFile);
    }
    let start = start as usize;
    let end = start + fi.raw_size as usize;
    let mut buf: Vec<u8> = Vec::new();
    let mut i: usize = start;
    while i < end
        invariant
            start <= i <= end,
            end <= data@.len(),
            buf@ == data@.subrange(start as int, i as int),
        decreases end - i,
    {
        buf.push(data[i]);
        i = i + 1;
        assert(buf@ =~= data@.subrange(start as int, i as int));
    }
    let plain = obfuscate(buf.as_slice(), fi.version);
    let decoded = zlib_decompress(plain);
    check_inflated(decoded, fi.uncompr_size)
}

/// Cutting the last byte off a container whose content region ends with the
/// entry `e` makes extracting `e` fail as a corrupted entry, not a short read.
pub proof fn lemma_truncation_detected(s: Seq<u8>, h: HeadInfo, e: EntryModel)
    requires
        s.len() == HEADER_SIZE + h.index_size + e.off + e.raw_size,
        s.len() > 0,
    ensures
        content_of(s.drop_last(), h, e) == Err::<Seq<u8>, MabiError>(MabiError::CorruptedFile),
{
}

} // verus!
