//! RGSSAD (RPG Maker XP) archives: the key stream, and finding `Scripts.rxdata`
//! in an archive's bytes.
use vstd::prelude::*;

use crate::text::{
    chars_of, ends_with, has_suffix, lowercase_chars, replace_char, replace_char_spec,
    str_lowercase, strings_view, utf8_lossy, utf8_lossy_decode,
};

verus! {

/// The next key of the stream: `key * 7 + 3`, wrapping at 32 bits.
pub open spec fn next_key(k: u32) -> u32 {
    ((k as nat * 7 + 3) % 0x1_0000_0000) as u32
}

/// The key after `n` steps.
pub open spec fn key_after(k: u32, n: nat) -> u32
    decreases n,
{
    if n == 0 {
        k
    } else {
        next_key(key_after(k, (n - 1) as nat))
    }
}

pub fn advance_key(k: u32) -> (r: u32)
    ensures
        r == next_key(k),
{
    let m = k.wrapping_mul(7);
    let r = m.wrapping_add(3);
    proof {
        let a = k as int * 7;
        let mm = a % 0x1_0000_0000;
        assert(m == mm);
        assert((a + 3) % 0x1_0000_0000 == if mm + 3 >= 0x1_0000_0000 {
            mm + 3 - 0x1_0000_0000
        } else {
            mm + 3
        }) by (nonlinear_arith)
            requires
                mm == a % 0x1_0000_0000,
                a >= 0,
        ;
    }
    r
}

/// `decrypt_integer`: the value XOR the key; the key moves one step.
pub fn decrypt_integer(value: u32, key: &mut u32) -> (r: u32)
    ensures
        r == value ^ *old(key),
        *final(key) == next_key(*old(key)),
{
    let result = value ^ *key;
    *key = advance_key(*key);
    result
}

/// Name bytes: each byte XOR the low byte of the key, which moves one step per
/// byte.
pub open spec fn name_bytes(enc: Seq<u8>, k: u32) -> Seq<u8> {
    Seq::new(enc.len(), |i: int| enc[i] ^ (key_after(k, i as nat) as u8))
}

/// The decrypted bytes of an entry name; the key ends `enc.len()` steps on.
pub fn decrypt_name_bytes(encrypted: &[u8], key: &mut u32) -> (r: Vec<u8>)
    ensures
        r@ == name_bytes(encrypted@, *old(key)),
        *final(key) == key_after(*old(key), encrypted@.len()),
{
    let ghost k0 = *key;
    let mut dec: Vec<u8> = Vec::new();
    let mut i: usize = 0;
    while i < encrypted.len()
        invariant
            i <= encrypted@.len(),
            *key == key_after(k0, i as nat),
            dec@ == name_bytes(encrypted@.take(i as int), k0),
        decreases encrypted@.len() - i,
    {
        dec.push(encrypted[i] ^ (*key as u8));
        *key = advance_key(*key);
        proof {
            assert(dec@ =~= name_bytes(encrypted@.take(i + 1), k0));
        }
        i += 1;
    }
    proof {
        assert(encrypted@.take(encrypted@.len() as int) =~= encrypted@);
    }
    dec
}

/// `decrypt_filename`: the decrypted name, decoded as UTF-8 with invalid
/// sequences replaced.
pub fn decrypt_filename(encrypted: &[u8], key: &mut u32) -> (r: String)
    ensures
        r@ == utf8_lossy(name_bytes(encrypted@, *old(key))),
        *final(key) == key_after(*old(key), encrypted@.len()),
{
    let dec = decrypt_name_bytes(encrypted, key);
    utf8_lossy_decode(dec.as_slice())
}

/// Byte `j` (0 to 3) of a key in little-endian order (`u32::to_le_bytes`).
pub open spec fn key_byte(k: u32, j: int) -> u8 {
    (k >> ((8 * j) as u32)) as u8
}

/// File data: byte `i` XOR byte `i % 4` of the key, which moves one step every
/// four bytes.
pub open spec fn data_bytes(enc: Seq<u8>, k: u32) -> Seq<u8> {
    Seq::new(enc.len(), |i: int| enc[i] ^ key_byte(key_after(k, (i / 4) as nat), i % 4))
}

/// `decrypt_file_data`.
pub fn decrypt_file_data(encrypted: &[u8], key: u32) -> (r: Vec<u8>)
    ensures
        r@ == data_bytes(encrypted@, key),
{
    let mut out: Vec<u8> = Vec::new();
    let mut temp_key = key;
    let mut block: usize = 0;
    let mut j: usize = 0;
    let mut i: usize = 0;
    while i < encrypted.len()
        invariant
            i <= encrypted@.len(),
            j < 4,
            i == 4 * block + j,
            temp_key == key_after(key, block as nat),
            out@ == data_bytes(encrypted@.take(i as int), key),
        decreases encrypted@.len() - i,
    {
        let shift = (8 * j) as u32;
        let kb = (temp_key >> shift) as u8;
        out.push(encrypted[i] ^ kb);
        proof {
            assert(i / 4 == block && i % 4 == j) by (nonlinear_arith)
                requires
                    i == 4 * block + j,
                    j < 4,
            ;
            assert(out@ =~= data_bytes(encrypted@.take(i + 1), key));
        }
        if j == 3 {
            j = 0;
            block = block + 1;
            temp_key = advance_key(temp_key);
        } else {
            j = j + 1;
        }
        i += 1;
    }
    proof {
        assert(encrypted@.take(encrypted@.len() as int) =~= encrypted@);
    }
    out
}

/// Law: decrypting file data twice with the same key gives the data back (the
/// key stream is applied by XOR).
pub proof fn lemma_file_data_involution(d: Seq<u8>, k: u32)
    ensures
        data_bytes(data_bytes(d, k), k) == d,
{
    let once = data_bytes(d, k);
    assert forall|i: int| 0 <= i < d.len() implies #[trigger] data_bytes(once, k)[i] == d[i] by {
        let b = key_byte(key_after(k, (i / 4) as nat), i % 4);
        let x = d[i];
        assert((x ^ b) ^ b == x) by (bit_vector);
    }
    assert(data_bytes(once, k) =~= d);
}

/// Law: the same holds of entry names.
pub proof fn lemma_name_involution(d: Seq<u8>, k: u32)
    ensures
        name_bytes(name_bytes(d, k), k) == d,
{
    let once = name_bytes(d, k);
    assert forall|i: int| 0 <= i < d.len() implies #[trigger] name_bytes(once, k)[i] == d[i] by {
        let b = key_after(k, i as nat) as u8;
        let x = d[i];
        assert((x ^ b) ^ b == x) by (bit_vector);
    }
    assert(name_bytes(once, k) =~= d);
}

// ------------------------------------------------------------------
// The archive
// ------------------------------------------------------------------

/// The first key of an archive.
pub open spec fn archive_key() -> u32 {
    0xDEAD_CAFE
}

/// At most this many bytes in an entry name.
pub const MAX_NAME_LEN: u32 = 8192;

/// At most this many bytes in an entry.
pub const MAX_ENTRY_SIZE: u32 = 128 * 1024 * 1024;

/// A little-endian `u32` at `at` (`u32::from_le_bytes`).
pub open spec fn u32_le(b: Seq<u8>, at: int) -> u32 {
    (b[at] as nat + b[at + 1] as nat * 256 + b[at + 2] as nat * 65536 + b[at + 3] as nat
        * 16777216) as u32
}

/// An entry is the scripts file when its name, with `\` as `/` and lower-cased,
/// ends with `scripts.rxdata`.
pub open spec fn is_scripts_name(name: Seq<char>) -> bool {
    has_suffix(str_lowercase(replace_char_spec(name, '\\', '/')), "scripts.rxdata"@)
}

/// How reading an archive ends.
pub ghost enum RgssadOutcome {
    /// The decrypted bytes of `Scripts.rxdata`.
    Scripts(Seq<u8>),
    /// Fewer bytes than the 8-byte header.
    Truncated,
    /// The first six bytes are not `RGSSAD`.
    NotArchive,
    /// Version byte other than 1.
    BadVersion(u8),
    /// No scripts entry; the names of the entries read.
    NotFound(Seq<Seq<char>>),
}

/// Reading entries from `pos` with the key at `key`, `names` read so far. An
/// entry is a length (XOR key), the name, a size (XOR key), the data; reading
/// stops at the first entry that does not fit in the file or breaks a limit.
pub open spec fn scan_entries(bytes: Seq<u8>, pos: int, key: u32, names: Seq<Seq<char>>) -> RgssadOutcome
    decreases bytes.len() - pos,
{
    if pos < 0 || pos + 4 > bytes.len() {
        RgssadOutcome::NotFound(names)
    } else {
        let name_len = u32_le(bytes, pos) ^ key;
        let k1 = next_key(key);
        if name_len == 0 || name_len > MAX_NAME_LEN || pos + 4 + name_len + 4 > bytes.len() {
            RgssadOutcome::NotFound(names)
        } else {
            let name = utf8_lossy(
                name_bytes(bytes.subrange(pos + 4, pos + 4 + name_len), k1),
            );
            let k2 = key_after(k1, name_len as nat);
            let names2 = names.push(name);
            let size = u32_le(bytes, pos + 4 + name_len) ^ k2;
            let k3 = next_key(k2);
            let data_pos = pos + 8 + name_len;
            if size > MAX_ENTRY_SIZE || data_pos + size > bytes.len() {
                RgssadOutcome::NotFound(names2)
            } else if is_scripts_name(name) {
                RgssadOutcome::Scripts(
                    data_bytes(bytes.subrange(data_pos, data_pos + size), k3),
                )
            } else {
                scan_entries(bytes, data_pos + size, k3, names2)
            }
        }
    }
}

pub open spec fn rgssad_magic() -> Seq<u8> {
    seq![82u8, 71, 83, 83, 65, 68]
}

/// What reading an archive's bytes gives (`extract_scripts_from_rgssad`).
pub open spec fn rgssad_outcome(bytes: Seq<u8>) -> RgssadOutcome {
    if bytes.len() < 6 {
        RgssadOutcome::Truncated
    } else if bytes.take(6) != rgssad_magic() {
        RgssadOutcome::NotArchive
    } else if bytes.len() < 8 {
        RgssadOutcome::Truncated
    } else if bytes[7] != 1 {
        RgssadOutcome::BadVersion(bytes[7])
    } else {
        scan_entries(bytes, 8, archive_key(), Seq::empty())
    }
}

/// Why no scripts came out of an archive.
pub enum RgssadError {
    Truncated,
    NotArchive,
    BadVersion(u8),
    /// The names of the entries read.
    NotFound(Vec<String>),
}

fn read_u32_le(b: &[u8], at: usize) -> (r: u32)
    requires
        at + 4 <= b@.len(),
    ensures
        r == u32_le(b@, at as int),
{
    b[at] as u32 + (b[at + 1] as u32) * 256 + (b[at + 2] as u32) * 65536 + (b[at + 3] as u32)
        * 16777216
}

fn copy_slice(b: &[u8], from: usize, to: usize) -> (r: Vec<u8>)
    requires
        from <= to <= b@.len(),
    ensures
        r@ == b@.subrange(from as int, to as int),
{
    let mut r: Vec<u8> = Vec::new();
    let mut k = from;
    while k < to
        invariant
            from <= k <= to <= b@.len(),
            r@ == b@.subrange(from as int, k as int),
        decreases to - k,
    {
        r.push(b[k]);
        k += 1;
    }
    r
}

fn scripts_name(name: &String) -> (r: bool)
    ensures
        r == is_scripts_name(name@),
{
    let c = chars_of(name.as_str());
    let slashed = replace_char(&c, '\\', '/');
    let lower = lowercase_chars(&slashed);
    let suffix = chars_of("scripts.rxdata");
    ends_with(&lower, &suffix)
}

/// The decrypted `Scripts.rxdata` of an archive, or why there is none.
pub fn find_scripts_in_rgssad(bytes: &[u8]) -> (r: Result<Vec<u8>, RgssadError>)
    ensures
        match (r, rgssad_outcome(bytes@)) {
            (Ok(d), RgssadOutcome::Scripts(s)) => d@ == s,
            (Err(RgssadError::Truncated), RgssadOutcome::Truncated) => true,
            (Err(RgssadError::NotArchive), RgssadOutcome::NotArchive) => true,
            (Err(RgssadError::BadVersion(v)), RgssadOutcome::BadVersion(w)) => v == w,
            (Err(RgssadError::NotFound(names)), RgssadOutcome::NotFound(n)) => strings_view(
                names@,
            ) == n,
            _ => false,
        },
{
    let len = bytes.len();
    if len < 6 {
        return Err(RgssadError::Truncated);
    }
    if !(bytes[0] == 82 && bytes[1] == 71 && bytes[2] == 83 && bytes[3] == 83 && bytes[4] == 65
        && bytes[5] == 68) {
        proof {
            if bytes@.take(6) == rgssad_magic() {
                assert(bytes@.take(6)[0] == bytes@[0]);
                assert(bytes@.take(6)[1] == bytes@[1]);
                assert(bytes@.take(6)[2] == bytes@[2]);
                assert(bytes@.take(6)[3] == bytes@[3]);
                assert(bytes@.take(6)[4] == bytes@[4]);
                assert(bytes@.take(6)[5] == bytes@[5]);
            }
        }
        return Err(RgssadError::NotArchive);
    }
    proof {
        assert(bytes@.take(6) =~= rgssad_magic());
    }
    if len < 8 {
        return Err(RgssadError::Truncated);
    }
    if bytes[7] != 1 {
        return Err(RgssadError::BadVersion(bytes[7]));
    }
    let mut key: u32 = 0xDEAD_CAFE;
    let mut pos: usize = 8;
    let mut names: Vec<String> = Vec::new();
    proof {
        assert(strings_view(names@) =~= Seq::<Seq<char>>::empty());
    }
    loop
        invariant
            len == bytes@.len(),
            pos <= len,
            rgssad_outcome(bytes@) == scan_entries(bytes@, pos as int, key, strings_view(names@)),
        decreases len - pos,
    {
        let ghost names0 = strings_view(names@);
        if len - pos < 4 {
            return Err(RgssadError::NotFound(names));
        }
        let name_len = decrypt_integer(read_u32_le(bytes, pos), &mut key);
        if name_len == 0 || name_len > MAX_NAME_LEN {
            return Err(RgssadError::NotFound(names));
        }
        let nl = name_len as usize;
        if len - pos - 4 < nl + 4 {
            return Err(RgssadError::NotFound(names));
        }
        let name_enc = copy_slice(bytes, pos + 4, pos + 4 + nl);
        let name = decrypt_filename(name_enc.as_slice(), &mut key);
        let is_scripts = scripts_name(&name);
        names.push(name);
        proof {
            assert(strings_view(names@) =~= names0.push(names@.last()@));
        }
        let size = decrypt_integer(read_u32_le(bytes, pos + 4 + nl), &mut key);
        let data_pos = pos + 8 + nl;
        if size > MAX_ENTRY_SIZE {
            return Err(RgssadError::NotFound(names));
        }
        let sz = size as usize;
        if len - data_pos < sz {
            return Err(RgssadError::NotFound(names));
        }
        if is_scripts {
            let data = copy_slice(bytes, data_pos, data_pos + sz);
            return Ok(decrypt_file_data(data.as_slice(), key));
        }
        pos = data_pos + sz;
    }
}

} // verus!
