use vstd::prelude::*;
use vstd::utf8::{decode_utf8, encode_utf8, valid_utf8};
use crate::bytes::{le32, put_u32, put_zeros, u32_at, get_u32, zeros, lemma_u32_at_le32};
use crate::error::MabiError;

verus! {

broadcast use vstd::utf8::group_utf8_lib;

/// Byte of `/`, the directory separator of names inside the library.
pub const SLASH: u8 = 0x2f;

/// Byte of `\`, the directory separator of names stored in a container.
pub const BACKSLASH: u8 = 0x5c;

/// Size of the block that stores a name of `l` bytes. Past the fixed
/// classes it is `(l + 21) / 16 * 16`, which always leaves room for the
/// class byte, the 4-byte length and at least one terminating zero; the
/// smallest multiple of 16 that is at least `l + 5` would leave none when
/// `l % 16 == 11`.
pub open spec fn block_size(l: nat) -> nat {
    if l <= 14 {
        16
    } else if l <= 30 {
        32
    } else if l <= 46 {
        48
    } else if l <= 62 {
        64
    } else if l <= 94 {
        96
    } else {
        ((l + 21) / 16 * 16) as nat
    }
}

/// Leading class byte of the block that stores a name of `l` bytes.
pub open spec fn class_of(l: nat) -> u8 {
    if l <= 14 {
        0
    } else if l <= 30 {
        1
    } else if l <= 46 {
        2
    } else if l <= 62 {
        3
    } else if l <= 94 {
        4
    } else {
        5
    }
}

/// A name as stored: every `/` written as `\`.
pub open spec fn disk_name(b: Seq<u8>) -> Seq<u8> {
    b.map_values(|x: u8| if x == SLASH { BACKSLASH } else { x })
}

/// A stored name as the library holds it: every `\` read as `/`.
pub open spec fn internal_name(b: Seq<u8>) -> Seq<u8> {
    b.map_values(|x: u8| if x == BACKSLASH { SLASH } else { x })
}

/// The string block of a name whose UTF-8 bytes are `b`.
pub open spec fn str_block(b: Seq<u8>) -> Seq<u8> {
    let l = b.len();
    let n = block_size(l);
    if l <= 94 {
        seq![class_of(l)] + disk_name(b) + zeros((n - 1 - l) as nat)
    } else {
        seq![5u8] + le32((n - 5) as u32) + disk_name(b) + zeros((n - 5 - l) as nat)
    }
}

/// `k` is the position of the first zero byte of `s`.
pub open spec fn first_zero_at(s: Seq<u8>, k: int) -> bool {
    0 <= k < s.len() && s[k] == 0 && forall|j: int| 0 <= j < k ==> s[j] != 0
}

/// The name held in a zero-terminated byte buffer.
pub open spec fn c_str_of(s: Seq<u8>) -> Result<Seq<char>, MabiError> {
    if forall|i: int| 0 <= i < s.len() ==> s[i] != 0 {
        Err(MabiError::WrongFormat)
    } else {
        let k = choose|k: int| first_zero_at(s, k);
        let b = internal_name(s.take(k));
        if valid_utf8(b) {
            Ok(decode_utf8(b))
        } else {
            Err(MabiError::Encoding)
        }
    }
}

/// Number of payload bytes that follow the class byte (and, for class 5,
/// the length field), or `None` for an unknown class.
pub open spec fn payload_size(s: Seq<u8>, pos: int) -> Option<int> {
    let c = s[pos];
    if c <= 3 {
        Some((c + 1) * 16 - 1)
    } else if c == 4 {
        Some(95)
    } else if c == 5 {
        Some(u32_at(s, pos + 1) as int)
    } else {
        None
    }
}

/// The name stored in the string block at `pos` of `s`, with the position
/// just past the block.
pub open spec fn str_at(s: Seq<u8>, pos: int) -> Result<(Seq<char>, int), MabiError> {
    if pos >= s.len() {
        Err(MabiError::Truncated)
    } else if s[pos] > 5 {
        Err(MabiError::WrongFormat)
    } else if s[pos] == 5 && pos + 5 > s.len() {
        Err(MabiError::Truncated)
    } else {
        let start = if s[pos] == 5 { pos + 5 } else { pos + 1 };
        let size = payload_size(s, pos).unwrap();
        if start + size > s.len() {
            Err(MabiError::Truncated)
        } else {
            match c_str_of(s.subrange(start, start + size)) {
                Ok(n) => Ok((n, start + size)),
                Err(e) => Err(e),
            }
        }
    }
}

/// `r` is the executable form of the spec result `m`.
pub open spec fn same_str(r: Result<String, MabiError>, m: Result<Seq<char>, MabiError>) -> bool {
    match r {
        Ok(s) => m == Ok::<Seq<char>, MabiError>(s@),
        Err(e) => m == Err::<Seq<char>, MabiError>(e),
    }
}

/// Block size and class byte for a name of `l` bytes.
pub fn calc_str_size(l: usize) -> (r: (usize, u8))
    requires
        l + 21 <= usize::MAX,
    ensures
        r.0 == block_size(l as nat),
        r.1 == class_of(l as nat),
{
    if l <= 14 {
        (16, 0)
    } else if l <= 30 {
        (32, 1)
    } else if l <= 46 {
        (48, 2)
    } else if l <= 62 {
        (64, 3)
    } else if l <= 94 {
        (96, 4)
    } else {
        ((l + 21) / 16 * 16, 5)
    }
}

proof fn lemma_block_room(l: nat)
    ensures
        l <= 94 ==> block_size(l) >= l + 2,
        l > 94 ==> block_size(l) >= l + 6 && block_size(l) <= l + 21,
{
    if l > 94 {
        assert((l + 21) / 16 * 16 >= l + 6) by (nonlinear_arith);
        assert((l + 21) / 16 * 16 <= l + 21) by (nonlinear_arith);
    }
}

/// A string block decodes to the name it was made from, ending where the
/// block ends, whatever bytes follow it, for every name whose bytes hold no
/// zero and no `\` (a stored `\` reads back as `/`); its length is the size
/// of its class.
pub proof fn lemma_str_block_round_trip(name: Seq<char>, rest: Seq<u8>)
    requires
        encode_utf8(name).len() + 21 <= u32::MAX,
        forall|i: int|
            0 <= i < encode_utf8(name).len() ==> encode_utf8(name)[i] != 0 && encode_utf8(
                name,
            )[i] != BACKSLASH,
    ensures
        str_block(encode_utf8(name)).len() == block_size(encode_utf8(name).len()),
        str_at(str_block(encode_utf8(name)) + rest, 0) == Ok::<(Seq<char>, int), MabiError>(
            (name, block_size(encode_utf8(name).len()) as int),
        ),
{
    let b = encode_utf8(name);
    let l = b.len();
    let blk = str_block(b);
    let s = blk + rest;
    let n = block_size(l);
    lemma_block_room(l);
    let pstart: int = if l <= 94 { 1 } else { 5 };
    let payload = s.subrange(pstart, n as int);
    assert(blk.len() == n);
    assert(payload =~= disk_name(b) + zeros((n - pstart - l) as nat));
    if l > 94 {
        assert(s.subrange(1, 5) =~= le32((n - 5) as u32));
        assert(s[0] == 5u8);
        lemma_u32_at_le32(s, 1, (n - 5) as u32);
    }
    assert(payload_size(s, 0) == Some(n - pstart));
    assert(first_zero_at(payload, l as int));
    let k = choose|k: int| first_zero_at(payload, k);
    assert(k == l) by {
        if k < l {
            assert(payload[k] == disk_name(b)[k]);
        } else if k > l {
            assert(payload[l as int] == 0);
        }
    }
    assert(payload.take(l as int) =~= disk_name(b));
    assert(internal_name(disk_name(b)) =~= b);
    assert(s.subrange(pstart, pstart + (n - pstart)) == payload);
}

/// Appends the name bytes `b` with every `/` written as `\`.
fn put_disk_name(out: &mut Vec<u8>, b: &[u8])
    ensures
        final(out)@ == old(out)@ + disk_name(b@),
{
    let ghost start = out@;
    let mut i: usize = 0;
    while i < b.len()
        invariant
            i <= b.len(),
            out@ == start + disk_name(b@.take(i as int)),
        decreases b.len() - i,
    {
        let x = b[i];
        out.push(if x == SLASH { BACKSLASH } else { x });
        i = i + 1;
        assert(out@ =~= start + disk_name(b@.take(i as int)));
    }
    assert(b@.take(b.len() as int) =~= b@);
}

/// Appends the string block of `s` and returns its size.
pub fn write_str_block(out: &mut Vec<u8>, s: &str) -> (r: usize)
    requires
        encode_utf8(s@).len() + 21 <= u32::MAX,
    ensures
        final(out)@ == old(out)@ + str_block(encode_utf8(s@)),
        r == block_size(encode_utf8(s@).len()),
        r <= u32::MAX,
{
    let b = s.as_bytes();
    let l = b.len();
    let (all_len, lead_byte) = calc_str_size(l);
    proof {
        lemma_block_room(l as nat);
    }
    out.push(lead_byte);
    let mut wrote: usize = 1;
    if lead_byte == 5 {
        put_u32(out, (all_len - 5) as u32);
        wrote = 5;
    }
    put_disk_name(out, b);
    put_zeros(out, all_len - wrote - l);
    assert(final(out)@ =~= old(out)@ + str_block(encode_utf8(s@)));
    all_len
}

/// Relies on String::from_utf8: it accepts exactly the valid UTF-8 byte
/// sequences and decodes them.
#[verifier::external_body]
fn utf8_string(b: Vec<u8>) -> (r: Option<String>)
    ensures
        match r {
            Some(s) => valid_utf8(b@) && s@ == decode_utf8(b@),
            None => !valid_utf8(b@),
        },
{
    String::from_utf8(b).ok()
}

/// The name held in a zero-terminated, zero-padded buffer.
pub fn read_c_str(stm: Vec<u8>) -> (r: Result<String, MabiError>)
    ensures
        same_str(r, c_str_of(stm@)),
{
    let mut k: usize = 0;
    while k < stm.len() && stm[k] != 0
        invariant
            k <= stm@.len(),
            forall|j: int| 0 <= j < k ==> stm@[j] != 0,
        decreases stm.len() - k,
    {
        k = k + 1;
    }
    if k == stm.len() {
        return Err(MabiError::WrongFormat);
    }
    proof {
        assert(first_zero_at(stm@, k as int));
        let c = choose|c: int| first_zero_at(stm@, c);
        assert(c == k) by {
            if c < k {
                assert(stm@[c] != 0);
            } else if c > k {
                assert(stm@[k as int] != 0);
            }
        }
    }
    let mut name: Vec<u8> = Vec::new();
    let mut i: usize = 0;
    while i < k
        invariant
            i <= k,
            k < stm@.len(),
            name@ == internal_name(stm@.take(i as int)),
        decreases k - i,
    {
        let x = stm[i];
        name.push(if x == BACKSLASH { SLASH } else { x });
        i = i + 1;
        assert(name@ =~= internal_name(stm@.take(i as int)));
    }
    match utf8_string(name) {
        Some(s) => Ok(s),
        None => Err(MabiError::Encoding),
    }
}

/// Decodes the string block at `pos`; returns the name and the position
/// just past the block.
pub fn read_str(data: &[u8], pos: usize) -> (r: Result<(String, usize), MabiError>)
    ensures
        match r {
            Ok((s, next)) => str_at(data@, pos as int) == Ok::<(Seq<char>, int), MabiError>(
                (s@, next as int),
            ),
            Err(e) => str_at(data@, pos as int) == Err::<(Seq<char>, int), MabiError>(e),
        },
{
    if pos >= data.len() {
        return Err(MabiError::Truncated);
    }
    let c = data[pos];
    if c > 5 {
        return Err(MabiError::WrongFormat);
    }
    let start: usize;
    let size: usize;
    if c == 5 {
        if data.len() - pos < 5 {
            return Err(MabiError::Truncated);
        }
        start = pos + 5;
        size = get_u32(data, pos + 1) as usize;
    } else {
        start = pos + 1;
        size = if c <= 3 { (c as usize + 1) * 16 - 1 } else { 95 };
    }
    if size > data.len() - start {
        return Err(MabiError::Truncated);
    }
    let end = start + size;
    let mut buf: Vec<u8> = Vec::new();
    let mut i: usize = start;
    while i < end
        invariant
            end == start + size,
            start <= i <= start + size,
            start + size <= data@.len(),
            buf@ == data@.subrange(start as int, i as int),
        decreases end - i,
    {
        buf.push(data[i]);
        i = i + 1;
        assert(buf@ =~= data@.subrange(start as int, i as int));
    }
    match read_c_str(buf) {
        Ok(s) => Ok((s, end)),
        Err(e) => Err(e),
    }
}

} // verus!
