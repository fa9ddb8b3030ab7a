use vstd::prelude::*;
use vstd::utf8::encode_utf8;
use crate::bytes::put_bytes;
use crate::compress::{zlib_deflated, zlib_inflated};
use crate::container::{content_of, filetime, pack_file, time_to_filetime};
use crate::error::MabiError;
use crate::header::{
    header_bytes, header_of, lemma_header_round_trip, write_header, HeadInfo, HEADER_SIZE,
};
use crate::index::{
    index_of, index_region, lemma_record_read_back, record_bytes, records_of, write_file_entry,
    EntryModel, FileInfo,
};
use crate::keystream::{lemma_obfuscate_involutive, obfuscated};
use crate::strblock::{block_size, BACKSLASH};

verus! {

/// A file to pack: its relative path, its bytes, and its access and
/// modification times in milliseconds since the Unix epoch.
pub struct SourceFile {
    pub name: String,
    pub content: Vec<u8>,
    pub accessed: u64,
    pub modified: u64,
}

/// A file after compression and obfuscation, ready to be laid out.
pub struct PackedFile {
    pub name: String,
    pub payload: Vec<u8>,
    pub uncompr_size: u32,
    /// Access time, milliseconds since the Unix epoch.
    pub accessed: u64,
    /// Modification time, milliseconds since the Unix epoch.
    pub modified: u64,
}

/// What a `PackedFile` holds, with the name as UTF-8 bytes.
pub struct PackedModel {
    pub name: Seq<u8>,
    pub payload: Seq<u8>,
    pub uncompr_size: u32,
    pub accessed: u64,
    pub modified: u64,
}

impl View for PackedFile {
    type V = PackedModel;

    open spec fn view(&self) -> PackedModel {
        PackedModel {
            name: encode_utf8(self.name@),
            payload: self.payload@,
            uncompr_size: self.uncompr_size,
            accessed: self.accessed,
            modified: self.modified,
        }
    }
}

/// The views of a sequence of packed files.
pub open spec fn packed_views(v: Seq<PackedFile>) -> Seq<PackedModel> {
    v.map_values(|f: PackedFile| f@)
}

/// What packing turns a source file into under the content version `version`.
pub open spec fn packed_model(f: SourceFile, version: u32) -> PackedModel {
    PackedModel {
        name: encode_utf8(f.name@),
        payload: obfuscated(zlib_deflated(f.content@), version),
        uncompr_size: f.content@.len() as u32,
        accessed: f.accessed,
        modified: f.modified,
    }
}

/// What packing turns each of `v` into.
pub open spec fn packed_models(v: Seq<SourceFile>, version: u32) -> Seq<PackedModel> {
    v.map_values(|f: SourceFile| packed_model(f, version))
}

/// Size of the content region that holds the payloads of `es`.
pub open spec fn content_total(es: Seq<PackedModel>) -> int
    decreases es.len(),
{
    if es.len() == 0 {
        0
    } else {
        content_total(es.drop_last()) + es.last().payload.len()
    }
}

/// Size of the index region that lists `es`.
pub open spec fn index_total(es: Seq<PackedModel>) -> int
    decreases es.len(),
{
    if es.len() == 0 {
        0
    } else {
        index_total(es.drop_last()) + block_size(es.last().name.len()) + 0x40
    }
}

/// The index region that lists `es`, each entry's offset being the size of
/// the payloads before it.
pub open spec fn index_bytes(es: Seq<PackedModel>, version: u32) -> Seq<u8>
    decreases es.len(),
{
    if es.len() == 0 {
        Seq::empty()
    } else {
        let e = es.last();
        index_bytes(es.drop_last(), version) + record_bytes(
            e.name,
            version,
            content_total(es.drop_last()) as u32,
            e.payload.len() as u32,
            e.uncompr_size,
            filetime(e.accessed),
            filetime(e.modified),
        )
    }
}

/// The content region: the payloads of `es`, one after another.
pub open spec fn content_bytes(es: Seq<PackedModel>) -> Seq<u8>
    decreases es.len(),
{
    if es.len() == 0 {
        Seq::empty()
    } else {
        content_bytes(es.drop_last()) + es.last().payload
    }
}

/// Every count, size and name length of `es` fits the layout's fields.
pub open spec fn fits(es: Seq<PackedModel>) -> bool {
    &&& es.len() <= u32::MAX
    &&& index_total(es) <= u32::MAX
    &&& content_total(es) <= u32::MAX
    &&& forall|i: int| 0 <= i < es.len() ==> es[i].name.len() + 21 <= u32::MAX
}

/// The header of the container that holds `es`.
pub open spec fn pack_head(es: Seq<PackedModel>, version: u32) -> HeadInfo {
    HeadInfo {
        file_ver: version,
        file_cnt: es.len() as u32,
        index_size: index_total(es) as u32,
        content_size: content_total(es) as u32,
    }
}

/// The whole container that holds `es`, its header stamped with `t`.
pub open spec fn container_bytes(es: Seq<PackedModel>, version: u32, t: u64) -> Seq<u8> {
    header_bytes(pack_head(es, version), t) + index_bytes(es, version) + content_bytes(es)
}

proof fn lemma_totals_grow(es: Seq<PackedModel>, i: int)
    requires
        0 <= i <= es.len(),
    ensures
        content_total(es.take(i)) <= content_total(es),
        index_total(es.take(i)) <= index_total(es),
        content_total(es.take(i)) >= 0,
        index_total(es.take(i)) >= 0,
    decreases es.len(),
{
    if i == es.len() {
        assert(es.take(i) =~= es);
        lemma_totals_nonneg(es);
    } else {
        lemma_totals_grow(es.drop_last(), i);
        assert(es.drop_last().take(i) =~= es.take(i));
    }
}

proof fn lemma_totals_nonneg(es: Seq<PackedModel>)
    ensures
        content_total(es) >= 0,
        index_total(es) >= 0,
    decreases es.len(),
{
    if es.len() > 0 {
        lemma_totals_nonneg(es.drop_last());
    }
}

proof fn lemma_take_step(es: Seq<PackedModel>, i: int)
    requires
        0 <= i < es.len(),
    ensures
        es.take(i + 1).drop_last() == es.take(i),
        es.take(i + 1).last() == es[i],
{
    assert(es.take(i + 1).drop_last() =~= es.take(i));
}

/// Lays out the container for files already compressed and obfuscated
/// under the content version `version`: header, index and content, in that
/// order. Fails with `TooLarge` exactly where a count, a size or a name does
/// not fit the layout.
pub fn assemble(files: &Vec<PackedFile>, version: u32, header_time: u64) -> (r: Result<
    Vec<u8>,
    MabiError,
>)
    ensures
        match r {
            Ok(v) => fits(packed_views(files@)) && v@ == container_bytes(
                packed_views(files@),
                version,
                header_time,
            ),
            Err(e) => !fits(packed_views(files@)) && e == MabiError::TooLarge,
        },
{
    let ghost es = packed_views(files@);
    if files.len() > u32::MAX as usize {
        return Err(MabiError::TooLarge);
    }
    let mut content_size: u64 = 0;
    let mut index_size: u64 = 0;
    let mut i: usize = 0;
    while i < files.len()
        invariant
            es == packed_views(files@),
            i <= files@.len(),
            content_size == content_total(es.take(i as int)),
            index_size == index_total(es.take(i as int)),
            content_size <= u32::MAX,
            index_size <= u32::MAX,
            forall|j: int| 0 <= j < i ==> es[j].name.len() + 21 <= u32::MAX,
        decreases files.len() - i,
    {
        proof {
            lemma_take_step(es, i as int);
        }
        let f = &files[i];
        let l = f.name.as_str().as_bytes().len();
        if l > u32::MAX as usize - 21 {
            return Err(MabiError::TooLarge);
        }
        let block: u64 = if l <= 14 {
            16
        } else if l <= 30 {
            32
        } else if l <= 46 {
            48
        } else if l <= 62 {
            64
        } else if l <= 94 {
            96
        } else {
            (l as u64 + 21) / 16 * 16
        };
        let p = f.payload.len();
        if p as u64 > u32::MAX as u64 - content_size || block + 0x40 > u32::MAX as u64
            - index_size {
            proof {
                lemma_totals_grow(es, i as int + 1);
            }
            return Err(MabiError::TooLarge);
        }
        content_size = content_size + p as u64;
        index_size = index_size + block + 0x40;
        i = i + 1;
    }
    assert(es.take(files@.len() as int) =~= es);
    let head = HeadInfo {
        file_ver: version,
        file_cnt: files.len() as u32,
        index_size: index_size as u32,
        content_size: content_size as u32,
    };
    let mut out: Vec<u8> = Vec::new();
    write_header(&mut out, &head, header_time);
    let ghost header = out@;
    let mut off: u64 = 0;
    let mut i: usize = 0;
    while i < files.len()
        invariant
            es == packed_views(files@),
            fits(es),
            i <= files@.len(),
            off == content_total(es.take(i as int)),
            out@ == header + index_bytes(es.take(i as int), version),
        decreases files.len() - i,
    {
        proof {
            lemma_take_step(es, i as int);
            lemma_totals_grow(es, i as int);
            lemma_totals_grow(es, i as int + 1);
        }
        let f = &files[i];
        let ent = FileInfo {
            name: f.name.clone(),
            version,
            off: off as u32,
            raw_size: f.payload.len() as u32,
            uncompr_size: f.uncompr_size,
        };
        write_file_entry(
            &mut out,
            &ent,
            time_to_filetime(f.accessed),
            time_to_filetime(f.modified),
        );
        off = off + f.payload.len() as u64;
        i = i + 1;
    }
    assert(es.take(files@.len() as int) =~= es);
    let ghost with_index = out@;
    let mut i: usize = 0;
    while i < files.len()
        invariant
            es == packed_views(files@),
            i <= files@.len(),
            out@ == with_index + content_bytes(es.take(i as int)),
        decreases files.len() - i,
    {
        proof {
            lemma_take_step(es, i as int);
        }
        put_bytes(&mut out, files[i].payload.as_slice());
        i = i + 1;
        assert(out@ =~= with_index + content_bytes(es.take(i as int)));
    }
    assert(es.take(files@.len() as int) =~= es);
    Ok(out)
}

/// Every file of `files` and its compressed stream fit the layout's 32-bit
/// sizes.
pub open spec fn sources_fit(files: Seq<SourceFile>) -> bool {
    forall|i: int|
        0 <= i < files.len() ==> files[i].content@.len() <= u32::MAX && zlib_deflated(
            files[i].content@,
        ).len() <= u32::MAX
}

/// Packs `files`, in their order, into one container under the content
/// version `version`, its header stamped with `header_time` (a Windows file
/// time). It succeeds exactly when every file, its compressed stream and
/// the whole container fit the layout, and fails with `TooLarge` otherwise.
pub fn pack_container(files: &Vec<SourceFile>, version: u32, header_time: u64) -> (r: Result<
    Vec<u8>,
    MabiError,
>)
    ensures
        r is Ok <==> sources_fit(files@) && fits(packed_models(files@, version)),
        match r {
            Ok(v) => {
                &&& v@ == container_bytes(packed_models(files@, version), version, header_time)
                &&& forall|i: int|
                    0 <= i < files@.len() ==> zlib_inflated(zlib_deflated(files@[i].content@))
                        == Some(files@[i].content@)
            },
            Err(e) => e == MabiError::TooLarge,
        },
{
    let mut packed: Vec<PackedFile> = Vec::new();
    let mut i: usize = 0;
    while i < files.len()
        invariant
            i <= files@.len(),
            packed_views(packed@) == packed_models(files@.take(i as int), version),
            forall|j: int|
                0 <= j < i ==> files@[j].content@.len() <= u32::MAX && zlib_deflated(
                    files@[j].content@,
                ).len() <= u32::MAX && zlib_inflated(
                    zlib_deflated(files@[j].content@),
                ) == Some(files@[j].content@),
        decreases files.len() - i,
    {
        let f = &files[i];
        let (fi, payload) = match pack_file(f.name.as_str(), f.content.as_slice(), version) {
            Ok(x) => x,
            Err(e) => {
                assert(!sources_fit(files@)) by {
                    assert(files@[i as int] == *f);
                }
                return Err(e);
            },
        };
        let pf = PackedFile {
            name: f.name.clone(),
            payload,
            uncompr_size: fi.uncompr_size,
            accessed: f.accessed,
            modified: f.modified,
        };
        let ghost before = packed_views(packed@);
        assert(pf@ == packed_model(files@[i as int], version));
        packed.push(pf);
        assert(files@.take(i + 1) =~= files@.take(i as int).push(files@[i as int]));
        assert(packed_views(packed@) =~= before.push(packed_model(files@[i as int], version)));
        assert(packed_models(files@.take(i + 1), version) =~= packed_models(
            files@.take(i as int),
            version,
        ).push(packed_model(files@[i as int], version)));
        i = i + 1;
        assert(packed_views(packed@) =~= packed_models(files@.take(i as int), version));
    }
    assert(files@.take(files@.len() as int) =~= files@);
    assert(sources_fit(files@));
    assemble(&packed, version, header_time)
}

/// The index record of the only entry of a container packed from `f`.
spec fn single_record(f: SourceFile, version: u32) -> Seq<u8> {
    let m = packed_model(f, version);
    record_bytes(
        m.name,
        version,
        0,
        m.payload.len() as u32,
        m.uncompr_size,
        filetime(m.accessed),
        filetime(m.modified),
    )
}

proof fn lemma_single_layout(f: SourceFile, version: u32, t: u64)
    ensures
        container_bytes(packed_models(seq![f], version), version, t) == header_bytes(
            pack_head(packed_models(seq![f], version), version),
            t,
        ) + (single_record(f, version) + packed_model(f, version).payload),
        pack_head(packed_models(seq![f], version), version).index_size as int == index_total(
            packed_models(seq![f], version),
        ) as u32,
        index_total(packed_models(seq![f], version)) == block_size(encode_utf8(f.name@).len())
            + 0x40,
        pack_head(packed_models(seq![f], version), version).file_cnt == 1,
        pack_head(packed_models(seq![f], version), version).file_ver == version,
{
    let m = packed_model(f, version);
    let es = packed_models(seq![f], version);
    assert(es =~= seq![m]);
    assert(es.last() == m);
    assert(es.drop_last() =~= Seq::<PackedModel>::empty());
    assert(content_total(es.drop_last()) == 0);
    assert(index_total(es.drop_last()) == 0);
    assert(index_bytes(es.drop_last(), version) =~= Seq::<u8>::empty());
    assert(content_bytes(es.drop_last()) =~= Seq::<u8>::empty());
    assert(index_bytes(es, version) =~= single_record(f, version));
    assert(content_bytes(es) =~= m.payload);
}

proof fn lemma_single_index(f: SourceFile, version: u32, region: Seq<u8>)
    requires
        region == single_record(f, version),
        encode_utf8(f.name@).len() + 21 <= u32::MAX,
        forall|i: int|
            0 <= i < encode_utf8(f.name@).len() ==> encode_utf8(f.name@)[i] != 0 && encode_utf8(
                f.name@,
            )[i] != BACKSLASH,
    ensures
        region.len() == block_size(encode_utf8(f.name@).len()) + 0x40,
        records_of(region, 0, 1) == Ok::<Seq<EntryModel>, MabiError>(
            seq![
                EntryModel {
                    name: f.name@,
                    version,
                    off: 0,
                    raw_size: packed_model(f, version).payload.len() as u32,
                    uncompr_size: packed_model(f, version).uncompr_size,
                },
            ],
        ),
{
    let m = packed_model(f, version);
    let raw = m.payload.len() as u32;
    let bs = block_size(encode_utf8(f.name@).len()) as int;
    lemma_record_read_back(
        f.name@,
        version,
        0,
        raw,
        m.uncompr_size,
        filetime(m.accessed),
        filetime(m.modified),
        Seq::empty(),
    );
    assert(region + Seq::<u8>::empty() =~= region);
    let e = EntryModel { name: f.name@, version, off: 0, raw_size: raw, uncompr_size: m.uncompr_size };
    assert(records_of(region, bs + 0x40, 0) == Ok::<Seq<EntryModel>, MabiError>(Seq::empty()));
    assert(seq![e] + Seq::<EntryModel>::empty() =~= seq![e]);
}

proof fn lemma_single_content(
    c: Seq<u8>,
    h: HeadInfo,
    e: EntryModel,
    prefix: Seq<u8>,
    payload: Seq<u8>,
    data: Seq<u8>,
)
    requires
        c == prefix + payload,
        prefix.len() == HEADER_SIZE + h.index_size,
        e.off == 0,
        e.raw_size == payload.len(),
        payload == obfuscated(zlib_deflated(data), e.version),
        zlib_inflated(zlib_deflated(data)) == Some(data),
        e.uncompr_size == data.len(),
    ensures
        content_of(c, h, e) == Ok::<Seq<u8>, MabiError>(data),
{
    let start = HEADER_SIZE + h.index_size;
    assert(c.subrange(start, start + payload.len()) =~= payload);
    lemma_obfuscate_involutive(zlib_deflated(data), e.version);
}

/// A container packed from one file reads back as that file: the header
/// counts one entry of the packing version, the index lists the file under
/// its name, and extracting that entry gives the file's bytes. The name's
/// bytes hold no zero and no `\`; the rest of the requirements are what
/// `pack_container` ensures of a container it returns.
pub proof fn lemma_pack_extract_round_trip(f: SourceFile, version: u32, t: u64, c: Seq<u8>)
    requires
        c == container_bytes(packed_models(seq![f], version), version, t),
        fits(packed_models(seq![f], version)),
        f.content@.len() <= u32::MAX,
        zlib_inflated(zlib_deflated(f.content@)) == Some(f.content@),
        forall|i: int|
            0 <= i < encode_utf8(f.name@).len() ==> encode_utf8(f.name@)[i] != 0 && encode_utf8(
                f.name@,
            )[i] != BACKSLASH,
    ensures
        match header_of(c) {
            Ok(h) => h.file_cnt == 1 && h.file_ver == version && match index_of(c, h) {
                Ok(es) => es.len() == 1 && es[0].name == f.name@ && es[0].version == version
                    && content_of(c, h, es[0]) == Ok::<Seq<u8>, MabiError>(f.content@),
                Err(_) => false,
            },
            Err(_) => false,
        },
{
    let m = packed_model(f, version);
    let es = packed_models(seq![f], version);
    assert(es.len() == 1 && es[0] == m);
    let h = pack_head(es, version);
    let rec = single_record(f, version);
    lemma_single_layout(f, version, t);
    assert(fits(es));
    assert(encode_utf8(f.name@).len() + 21 <= u32::MAX);
    lemma_header_round_trip(h, t, rec + m.payload);
    assert(header_of(c) == Ok::<HeadInfo, MabiError>(h));
    lemma_single_index(f, version, rec);
    let e = EntryModel {
        name: f.name@,
        version,
        off: 0,
        raw_size: m.payload.len() as u32,
        uncompr_size: m.uncompr_size,
    };
    assert(index_of(c, h) == Ok::<Seq<EntryModel>, MabiError>(seq![e])) by {
        assert(index_region(c, h) =~= rec);
    }
    lemma_single_content(c, h, e, header_bytes(h, t) + rec, m.payload, f.content@);
}

} // verus!
