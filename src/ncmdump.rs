use vstd::prelude::*;
use vstd::slice::{slice_subrange, slice_to_vec};

use crate::error::Errors;
use crate::keystream::{
    identity_box, is_byte_permutation, key_box_of, key_schedule, lemma_key_schedule_permutation,
    lemma_transform_involutive, lemma_transform_split, lemma_transform_subrange, ncm_key_byte, ncm_transform,
};
use crate::primitives::{
    aes128_decrypt, aes128_ecb_pkcs7_decrypt, base64_decode, base64_standard_decode, utf8_decode,
    utf8_string,
};
use crate::source::{read_span, rest_of, SeekFrom, Source};
use crate::utils::audio_format_of;

verus! {

/// The AES-128 key of the key region.
pub const HEADER_KEY: [u8; 16] = [
    0x68, 0x7A, 0x48, 0x52, 0x41, 0x6D, 0x73, 0x6F, 0x35, 0x6B, 0x49, 0x6E, 0x62, 0x61, 0x78, 0x57,
];

/// The AES-128 key of the metadata region.
pub const INFO_KEY: [u8; 16] = [
    0x23, 0x31, 0x34, 0x6C, 0x6A, 0x6B, 0x5F, 0x21, 0x5C, 0x5D, 0x26, 0x30, 0x55, 0x3C, 0x27, 0x28,
];

/// The size of the chunks that `get_data` reads.
pub const DATA_CHUNK: u64 = 0x8000;

/// Every byte of `data` XORed with `k`.
pub open spec fn xor_all(data: Seq<u8>, k: u8) -> Seq<u8> {
    Seq::new(data.len(), |i: int| data[i] ^ k)
}

/// The little-endian 32-bit integer at `at`.
pub open spec fn le_u32_at(data: Seq<u8>, at: int) -> int {
    data[at] + data[at + 1] * 256 + data[at + 2] * 65536 + data[at + 3] * 16777216
}

/// The first eight bytes spell the NCM signature `CTENFDAM`.
pub open spec fn is_ncm_magic(h: Seq<u8>) -> bool {
    &&& h.len() >= 8
    &&& h[0] == 0x43 && h[1] == 0x54 && h[2] == 0x45 && h[3] == 0x4E
    &&& h[4] == 0x46 && h[5] == 0x44 && h[6] == 0x41 && h[7] == 0x4D
}

/// The audio key that a key region holds: unmasked with `0x64`, decrypted with
/// the header key, without its first 17 bytes (possibly nothing).
pub open spec fn audio_key_of(region: Seq<u8>) -> Result<Seq<u8>, Errors> {
    match aes128_ecb_pkcs7_decrypt(HEADER_KEY@, xor_all(region, 0x64)) {
        Some(p) => if p.len() >= 17 {
            Ok(p.subrange(17, p.len() as int))
        } else {
            Err(Errors::DecryptError)
        },
        None => Err(Errors::DecryptError),
    }
}

/// The JSON text that a metadata region holds: unmasked with `0x63`, past a
/// 22-byte prefix, base64-decoded, decrypted with the info key, past a 6-byte
/// prefix, read as UTF-8.
pub open spec fn info_text_of(region: Seq<u8>) -> Result<Seq<char>, Errors> {
    let masked = xor_all(region, 0x63);
    if masked.len() < 22 {
        Err(Errors::InfoDecodeError)
    } else {
        match base64_standard_decode(masked.subrange(22, masked.len() as int)) {
            None => Err(Errors::InfoDecodeError),
            Some(ct) => match aes128_ecb_pkcs7_decrypt(INFO_KEY@, ct) {
                None => Err(Errors::DecryptError),
                Some(p) => if p.len() < 6 {
                    Err(Errors::InfoDecodeError)
                } else {
                    match utf8_decode(p.subrange(6, p.len() as int)) {
                        None => Err(Errors::InfoDecodeError),
                        Some(s) => Ok(s),
                    }
                },
            },
        }
    }
}

/// The key region of a container that starts at `start`: its start and length.
pub open spec fn key_region_span(data: Seq<u8>, start: int) -> Result<(int, int), Errors> {
    if start + 10 > data.len() || !is_ncm_magic(data.subrange(start, start + 10)) {
        Err(Errors::InvalidFileType)
    } else if start + 14 > data.len() {
        Err(Errors::InvalidKeyLength)
    } else if start + 14 + le_u32_at(data, start + 10) > data.len() {
        Err(Errors::InvalidKeyLength)
    } else {
        Ok((start + 14, le_u32_at(data, start + 10)))
    }
}

/// The metadata and image regions that follow a key region ending at `at`:
/// metadata start and length, image start and length.
pub open spec fn region_spans(data: Seq<u8>, at: int) -> Result<(int, int, int, int), Errors> {
    let info_start = at + 4;
    let info_len = le_u32_at(data, at);
    let mark = info_start + info_len + 9;
    let image_start = mark + 4;
    let image_len = le_u32_at(data, mark);
    if at + 4 > data.len() || info_start + info_len > data.len() {
        Err(Errors::InvalidInfoLength)
    } else if mark + 4 > data.len() || image_start + image_len > data.len() {
        Err(Errors::InvalidImageLength)
    } else {
        Ok((info_start, info_len, image_start, image_len))
    }
}

/// What parsing finds in a container: the key box and the spans of the
/// metadata and image regions (the audio region starts where the image ends).
pub struct Layout {
    pub key_box: Seq<usize>,
    pub info: (int, int),
    pub image: (int, int),
}

/// The result of parsing the container that starts at `start` of `data`.
pub open spec fn parse_container(data: Seq<u8>, start: int) -> Result<Layout, Errors> {
    match key_region_span(data, start) {
        Err(e) => Err(e),
        Ok(k) => match audio_key_of(data.subrange(k.0, k.0 + k.1)) {
            Err(e) => Err(e),
            Ok(audio_key) => if audio_key.len() == 0 {
                Err(Errors::DecryptError)
            } else {
                match region_spans(data, k.0 + k.1) {
                    Err(e) => Err(e),
                    Ok(s) => Ok(
                        Layout {
                            key_box: key_box_of(audio_key),
                            info: (s.0, s.1),
                            image: (s.2, s.3),
                        },
                    ),
                }
            },
        },
    }
}

/// A container shorter than its 10-byte header, or whose first eight bytes
/// are not the NCM signature, is refused with `InvalidFileType`.
pub proof fn lemma_malformed_header_rejected(data: Seq<u8>, start: nat)
    requires
        start + 10 > data.len() || !is_ncm_magic(data.subrange(start as int, start + 10 as int)),
    ensures
        parse_container(data, start as int) == Err::<Layout, Errors>(Errors::InvalidFileType),
{
}

/// Seeking to `p` within the audio region (which starts at `base`) and
/// reading `n` bytes gives what draining the region from offset 0 gives at
/// `p..p + n`, cut at the end of the region.
pub proof fn lemma_seek_read_matches_drain(
    kbox: Seq<usize>,
    data: Seq<u8>,
    base: nat,
    p: nat,
    n: nat,
)
    requires
        base + p <= data.len(),
    ensures
        ({
            let full = ncm_transform(kbox, 0, rest_of(data, base));
            let end: int = if p + n <= full.len() {
                (p + n) as int
            } else {
                full.len() as int
            };
            ncm_transform(kbox, p as int, read_span(data, base + p, n as int)) == full.subrange(
                p as int,
                end,
            )
        }),
{
    let rest = rest_of(data, base);
    let end: int = if p + n <= rest.len() {
        (p + n) as int
    } else {
        rest.len() as int
    };
    assert(read_span(data, base + p, n as int) =~= rest.subrange(p as int, end));
    lemma_transform_subrange(kbox, 0, rest, p as int, end);
}

/// An audio region that holds FLAC or MP3 data encrypted with the keystream
/// drains to data that starts with `fLaC`, or with `ID3` and a version byte.
pub proof fn lemma_drain_recovers_audio_format(kbox: Seq<usize>, plain: Seq<u8>)
    requires
        audio_format_of(plain) is Some,
    ensures
        audio_format_of(ncm_transform(kbox, 0, ncm_transform(kbox, 0, plain))) == audio_format_of(
            plain,
        ),
        audio_format_of(ncm_transform(kbox, 0, ncm_transform(kbox, 0, plain))) is Some,
{
    lemma_transform_involutive(kbox, 0, plain);
}

/// The position in the source that a seek of `d` asks for.
pub open spec fn ncm_seek_target(d: Ncmdump, pos: SeekFrom) -> int {
    match pos {
        SeekFrom::Start(p) => d.audio_start() + p,
        SeekFrom::Current(x) => d.source().pos() + x,
        SeekFrom::End(x) => d.source().data().len() + x,
    }
}

/// A decoder of an NCM container, ready to read its audio region.
pub struct Ncmdump {
    reader: Source,
    cursor: u64,
    info: (u64, u64),
    image: (u64, u64),
    key_box: Vec<usize>,
}

impl Ncmdump {
    /// The underlying source.
    pub closed spec fn source(&self) -> Source {
        self.reader
    }

    /// The logical offset within the audio region.
    pub closed spec fn cursor(&self) -> nat {
        self.cursor as nat
    }

    /// Start and length of the metadata region.
    pub closed spec fn info(&self) -> (int, int) {
        (self.info.0 as int, self.info.1 as int)
    }

    /// Start and length of the image region.
    pub closed spec fn image(&self) -> (int, int) {
        (self.image.0 as int, self.image.1 as int)
    }

    /// The key box.
    pub closed spec fn key_box(&self) -> Seq<usize> {
        self.key_box@
    }

    /// Where the audio region starts in the source.
    pub open spec fn audio_start(&self) -> int {
        self.image().0 + self.image().1
    }

    /// The decoder is well formed: both regions lie in the source, the key box
    /// is a permutation, and the source stands at the cursor.
    pub closed spec fn wf(&self) -> bool {
        &&& self.reader.wf()
        &&& is_byte_permutation(self.key_box@)
        &&& self.info.0 + self.info.1 <= self.reader.data().len()
        &&& self.image.0 + self.image.1 <= self.reader.data().len()
        &&& self.reader.pos() == self.image.0 + self.image.1 + self.cursor
    }

    /// `self` and `other` agree on the source, the cursor, the key box and
    /// the regions.
    pub open spec fn same_state(&self, other: Ncmdump) -> bool {
        &&& self.source().data() == other.source().data()
        &&& self.source().pos() == other.source().pos()
        &&& self.cursor() == other.cursor()
        &&& self.key_box() == other.key_box()
        &&& self.info() == other.info()
        &&& self.image() == other.image()
    }

    /// What a well-formed decoder guarantees: the source stands at the audio
    /// start plus the cursor, the regions lie in the source, and the key box
    /// is a permutation.
    pub proof fn lemma_wf(&self)
        requires
            self.wf(),
        ensures
            self.source().wf(),
            self.source().pos() == self.audio_start() + self.cursor(),
            is_byte_permutation(self.key_box()),
            0 <= self.info().0,
            0 <= self.info().1,
            self.info().0 + self.info().1 <= self.source().data().len(),
            0 <= self.image().0,
            0 <= self.image().1,
            self.audio_start() <= self.source().data().len(),
    {
    }

    /// The offset of the audio region in the source.
    fn base(&self) -> (r: u64)
        requires
            self.wf(),
        ensures
            r == self.audio_start(),
    {
        proof {
            self.reader.lemma_len_bound();
        }
        self.image.0 + self.image.1
    }

    /// Every byte of `data` XORed with `k`.
    fn xor_bytes(data: &[u8], k: u8) -> (r: Vec<u8>)
        ensures
            r@ == xor_all(data@, k),
    {
        let mut out: Vec<u8> = Vec::new();
        let mut i: usize = 0;
        while i < data.len()
            invariant
                i <= data@.len(),
                out@ == xor_all(data@.subrange(0, i as int), k),
            decreases data@.len() - i,
        {
            out.push(data[i] ^ k);
            proof {
                assert(xor_all(data@.subrange(0, i + 1), k) =~= xor_all(data@.subrange(0, i as int), k).push(data@[i as int] ^ k));
            }
            i = i + 1;
        }
        assert(data@.subrange(0, data@.len() as int) =~= data@);
        out
    }

    /// Derives the audio key from the key region.
    pub fn get_key(key: &[u8]) -> (r: Result<Vec<u8>, Errors>)
        ensures
            match audio_key_of(key@) {
                Ok(k) => r matches Ok(v) && v@ == k,
                Err(e) => r == Err::<Vec<u8>, Errors>(e),
            },
            (key@.len() == 0 || key@.len() % 16 != 0) ==> r == Err::<Vec<u8>, Errors>(
                Errors::DecryptError,
            ),
    {
        let key_buffer = Self::xor_bytes(key, 0x64);
        let decrypted = match Self::decrypt(key_buffer.as_slice(), &HEADER_KEY) {
            Ok(d) => d,
            Err(e) => return Err(e),
        };
        if decrypted.len() < 17 {
            return Err(Errors::DecryptError);
        }
        let tail = slice_subrange(decrypted.as_slice(), 17, decrypted.len());
        Ok(slice_to_vec(tail))
    }

    /// Decrypts `data` with AES-128 in ECB mode and removes the PKCS#7 padding.
    pub fn decrypt(data: &[u8], key: &[u8; 16]) -> (r: Result<Vec<u8>, Errors>)
        ensures
            match aes128_ecb_pkcs7_decrypt(key@, data@) {
                Some(p) => r matches Ok(v) && v@ == p,
                None => r == Err::<Vec<u8>, Errors>(Errors::DecryptError),
            },
            (data@.len() == 0 || data@.len() % 16 != 0) ==> r == Err::<Vec<u8>, Errors>(
                Errors::DecryptError,
            ),
    {
        match aes128_decrypt(data, key) {
            Some(v) => Ok(v),
            None => Err(Errors::DecryptError),
        }
    }

    /// Builds the 256-entry key box from the audio key (RC4-style key schedule).
    pub fn build_key_box(key: &[u8]) -> (r: Vec<usize>)
        requires
            key@.len() > 0,
        ensures
            r@ == key_box_of(key@),
            is_byte_permutation(r@),
    {
        let mut key_box: Vec<usize> = Vec::new();
        let mut k: usize = 0;
        while k < 256
            invariant
                k <= 256,
                key_box@ == Seq::new(k as nat, |i: int| i as usize),
            decreases 256 - k,
        {
            key_box.push(k);
            k = k + 1;
        }
        assert(key_box@ == identity_box());
        let mut last: usize = 0;
        let mut i: usize = 0;
        while i < 256
            invariant
                key@.len() > 0,
                i <= 256,
                key_box@ == key_schedule(key@, i as nat).0,
                last == key_schedule(key@, i as nat).1,
            decreases 256 - i,
        {
            proof {
                lemma_key_schedule_permutation(key@, i as nat);
            }
            let c: usize = (key_box[i] + last + key[i % key.len()] as usize) % 256;
            let a = key_box[i];
            let b = key_box[c];
            key_box.set(i, b);
            key_box.set(c, a);
            last = c;
            i = i + 1;
        }
        proof {
            lemma_key_schedule_permutation(key@, 256);
        }
        key_box
    }

    /// XORs `buffer`, which starts at logical offset `offset` of the audio
    /// region, with the keystream, in place.
    pub fn encrypt(&self, offset: u64, buffer: &mut Vec<u8>)
        requires
            is_byte_permutation(self.key_box()),
        ensures
            final(buffer)@ == ncm_transform(self.key_box(), offset as int, old(buffer)@),
    {
        let n = buffer.len();
        let base: usize = (offset % 256) as usize;
        let mut i: usize = 0;
        while i < n
            invariant
                is_byte_permutation(self.key_box@),
                n == buffer@.len(),
                n == old(buffer)@.len(),
                base == offset % 256,
                i <= n,
                forall|t: int|
                    0 <= t < i ==> buffer@[t] == old(buffer)@[t] ^ ncm_key_byte(
                        self.key_box@,
                        offset + t,
                    ),
                forall|t: int| i <= t < n ==> buffer@[t] == old(buffer)@[t],
            decreases n - i,
        {
            let j: usize = (base + i % 256 + 1) % 256;
            assert(j == (offset + i + 1) % 256) by {
                assert((base + i % 256 + 1) % 256 == (offset + i + 1) % 256) by (nonlinear_arith)
                    requires
                        base == offset % 256,
                        offset >= 0,
                        i >= 0,
                ;
            }
            let kj = self.key_box[j];
            let k: usize = (kj + self.key_box[(kj + j) % 256]) % 256;
            let byte = buffer[i] ^ (self.key_box[k] as u8);
            buffer.set(i, byte);
            i = i + 1;
        }
        assert(buffer@ =~= ncm_transform(self.key_box@, offset as int, old(buffer)@));
    }

    /// Checks the header for the NCM signature.
    fn check_format(buffer: &[u8]) -> (r: bool)
        ensures
            r == is_ncm_magic(buffer@),
    {
        buffer.len() >= 8 && buffer[0] == 0x43 && buffer[1] == 0x54 && buffer[2] == 0x45
            && buffer[3] == 0x4E && buffer[4] == 0x46 && buffer[5] == 0x44 && buffer[6] == 0x41
            && buffer[7] == 0x4D
    }

    /// Reads a length field: a little-endian 32-bit integer of exactly 4 bytes.
    fn get_length(buffer: &[u8]) -> (r: Result<u64, Errors>)
        ensures
            buffer@.len() == 4 ==> r == Ok::<u64, Errors>(le_u32_at(buffer@, 0) as u64),
            buffer@.len() != 4 ==> r == Err::<u64, Errors>(Errors::Decode),
            r matches Ok(v) ==> v == le_u32_at(buffer@, 0) && v < 0x1_0000_0000,
    {
        if buffer.len() != 4 {
            return Err(Errors::Decode);
        }
        let v: u64 = buffer[0] as u64 + buffer[1] as u64 * 256 + buffer[2] as u64 * 65536
            + buffer[3] as u64 * 16777216;
        Ok(v)
    }

    /// Parses the container that starts at the source's position: checks the
    /// signature, derives the key box from the key region, and locates the
    /// metadata and image regions. The decoder stands at the start of the
    /// audio region.
    pub fn from_reader(reader: Source) -> (r: Result<Ncmdump, Errors>)
        requires
            reader.wf(),
        ensures
            match parse_container(reader.data(), reader.pos() as int) {
                Ok(l) => r matches Ok(d) && {
                    &&& d.wf()
                    &&& d.source().data() == reader.data()
                    &&& d.key_box() == l.key_box
                    &&& d.info() == l.info
                    &&& d.image() == l.image
                    &&& d.cursor() == 0
                    &&& d.source().pos() == d.audio_start()
                },
                Err(e) => r == Err::<Ncmdump, Errors>(e),
            },
    {
        let mut reader = reader;
        let ghost data = reader.data();
        let ghost start = reader.pos() as int;
        proof {
            reader.lemma_len_bound();
        }
        let len = reader.len();
        let format = reader.read(10);
        if format.len() != 10 || !Self::check_format(format.as_slice()) {
            proof {
                if start + 10 <= data.len() {
                    assert(format@ =~= data.subrange(start, start + 10));
                }
            }
            return Err(Errors::InvalidFileType);
        }
        assert(format@ =~= data.subrange(start, start + 10));
        let key_length_buffer = reader.read(4);
        let key_length = match Self::get_length(key_length_buffer.as_slice()) {
            Ok(v) => v,
            Err(_) => return Err(Errors::InvalidKeyLength),
        };
        assert(key_length_buffer@ =~= data.subrange(start + 10, start + 14));
        assert(key_length == le_u32_at(data, start + 10));
        let key_start = reader.position();
        let key = reader.read(key_length);
        if key.len() as u64 != key_length {
            return Err(Errors::InvalidKeyLength);
        }
        assert(key@ =~= data.subrange(start + 14, start + 14 + key_length));
        let audio_key = match Self::get_key(key.as_slice()) {
            Ok(k) => k,
            Err(e) => return Err(e),
        };
        if audio_key.len() == 0 {
            return Err(Errors::DecryptError);
        }
        let key_box = Self::build_key_box(audio_key.as_slice());
        let ghost at = start + 14 + key_length;
        let info_length_buffer = reader.read(4);
        let info_length = match Self::get_length(info_length_buffer.as_slice()) {
            Ok(v) => v,
            Err(_) => return Err(Errors::InvalidInfoLength),
        };
        assert(info_length_buffer@ =~= data.subrange(at, at + 4));
        let info_start = reader.position();
        if info_length > len - info_start {
            return Err(Errors::InvalidInfoLength);
        }
        let info_end = info_start + info_length;
        if len - info_end < 13 {
            return Err(Errors::InvalidImageLength);
        }
        let _ = reader.seek(SeekFrom::Start(info_end + 9));
        let image_length_buffer = reader.read(4);
        let image_length = match Self::get_length(image_length_buffer.as_slice()) {
            Ok(v) => v,
            Err(_) => return Err(Errors::InvalidImageLength),
        };
        assert(image_length_buffer@ =~= data.subrange(info_end + 9, info_end + 13));
        let image_start = reader.position();
        if image_length > len - image_start {
            return Err(Errors::InvalidImageLength);
        }
        let _ = reader.seek(SeekFrom::Start(image_start + image_length));
        Ok(Ncmdump {
            reader,
            key_box,
            cursor: 0,
            info: (info_start, info_length),
            image: (image_start, image_length),
        })
    }

    /// Reads `length` bytes at `start` of the source and puts the source back
    /// where it stood.
    fn get_bytes(&mut self, start: u64, length: u64) -> (r: Vec<u8>)
        requires
            old(self).wf(),
        ensures
            final(self).wf(),
            final(self).same_state(*old(self)),
            r@ == read_span(old(self).source().data(), start as nat, length as int),
    {
        let back = self.reader.position();
        let _ = self.reader.seek(SeekFrom::Start(start));
        let buf = self.reader.read(length);
        let _ = self.reader.seek(SeekFrom::Start(back));
        buf
    }

    /// Decodes a metadata region into its JSON text.
    pub fn decode_info(region: &[u8]) -> (r: Result<String, Errors>)
        ensures
            match info_text_of(region@) {
                Ok(s) => r matches Ok(v) && v@ == s,
                Err(e) => r == Err::<String, Errors>(e),
            },
    {
        let masked = Self::xor_bytes(region, 0x63);
        if masked.len() < 22 {
            return Err(Errors::InfoDecodeError);
        }
        let encoded = slice_subrange(masked.as_slice(), 22, masked.len());
        let ciphertext = match base64_decode(encoded) {
            Some(c) => c,
            None => return Err(Errors::InfoDecodeError),
        };
        let plain = match Self::decrypt(ciphertext.as_slice(), &INFO_KEY) {
            Ok(p) => p,
            Err(e) => return Err(e),
        };
        if plain.len() < 6 {
            return Err(Errors::InfoDecodeError);
        }
        let body = slice_to_vec(slice_subrange(plain.as_slice(), 6, plain.len()));
        match utf8_string(body) {
            Some(s) => Ok(s),
            None => Err(Errors::InfoDecodeError),
        }
    }

    /// The JSON text of the metadata region; the audio cursor is left as it is.
    pub fn get_info_text(&mut self) -> (r: Result<String, Errors>)
        requires
            old(self).wf(),
        ensures
            final(self).wf(),
            final(self).same_state(*old(self)),
            match info_text_of(
                old(self).source().data().subrange(
                    old(self).info().0,
                    old(self).info().0 + old(self).info().1,
                ),
            ) {
                Ok(s) => r matches Ok(v) && v@ == s,
                Err(e) => r == Err::<String, Errors>(e),
            },
    {
        let (start, length) = self.info;
        let region = self.get_bytes(start, length);
        Self::decode_info(region.as_slice())
    }

    /// The raw bytes of the image region; the audio cursor is left as it is.
    pub fn get_image(&mut self) -> (r: Vec<u8>)
        requires
            old(self).wf(),
        ensures
            final(self).wf(),
            final(self).same_state(*old(self)),
            r@ == old(self).source().data().subrange(
                old(self).image().0,
                old(self).image().0 + old(self).image().1,
            ),
    {
        let (start, length) = self.image;
        self.get_bytes(start, length)
    }

    /// Reads at most `n` bytes of the audio region at the cursor, decrypted,
    /// and advances the cursor past them.
    pub fn read(&mut self, n: u64) -> (r: Vec<u8>)
        requires
            old(self).wf(),
        ensures
            final(self).wf(),
            final(self).source().data() == old(self).source().data(),
            final(self).key_box() == old(self).key_box(),
            final(self).info() == old(self).info(),
            final(self).image() == old(self).image(),
            final(self).cursor() == old(self).cursor() + r@.len(),
            final(self).source().pos() == final(self).audio_start() + final(self).cursor(),
            r@ == ncm_transform(
                old(self).key_box(),
                old(self).cursor() as int,
                read_span(old(self).source().data(), old(self).source().pos(), n as int),
            ),
    {
        proof {
            self.reader.lemma_len_bound();
        }
        let mut buf = self.reader.read(n);
        self.encrypt(self.cursor, &mut buf);
        self.cursor = self.cursor + buf.len() as u64;
        buf
    }

    /// Moves the cursor. `Start` counts from the start of the audio region;
    /// `Current` from the cursor; `End` from the end of the source. A target
    /// before the audio region or past `u64::MAX` is refused and changes nothing.
    pub fn seek(&mut self, pos: SeekFrom) -> (r: Result<u64, Errors>)
        requires
            old(self).wf(),
        ensures
            final(self).wf(),
            final(self).source().data() == old(self).source().data(),
            final(self).key_box() == old(self).key_box(),
            final(self).info() == old(self).info(),
            final(self).image() == old(self).image(),
            ({
                let t = ncm_seek_target(*old(self), pos);
                if old(self).audio_start() <= t <= u64::MAX {
                    &&& r == Ok::<u64, Errors>((t - old(self).audio_start()) as u64)
                    &&& final(self).cursor() == t - old(self).audio_start()
                    &&& final(self).source().pos() == t
                } else {
                    &&& r is Err
                    &&& final(self).same_state(*old(self))
                }
            }),
    {
        proof {
            self.reader.lemma_len_bound();
        }
        let base = self.base();
        let target: i128 = match pos {
            SeekFrom::Start(p) => base as i128 + p as i128,
            SeekFrom::Current(d) => self.reader.position() as i128 + d as i128,
            SeekFrom::End(d) => self.reader.len() as i128 + d as i128,
        };
        if target < base as i128 || target > u64::MAX as i128 {
            return Err(Errors::IO("invalid seek outside the audio region".to_owned()));
        }
        let _ = self.reader.seek(SeekFrom::Start(target as u64));
        self.cursor = (target - base as i128) as u64;
        Ok(self.cursor)
    }

    /// Reads the audio region from the cursor to its end, decrypted.
    pub fn get_data(&mut self) -> (r: Vec<u8>)
        requires
            old(self).wf(),
        ensures
            final(self).wf(),
            final(self).source().data() == old(self).source().data(),
            final(self).key_box() == old(self).key_box(),
            final(self).info() == old(self).info(),
            final(self).image() == old(self).image(),
            final(self).cursor() == old(self).cursor() + r@.len(),
            final(self).source().pos() == final(self).audio_start() + final(self).cursor(),
            r@ == ncm_transform(
                old(self).key_box(),
                old(self).cursor() as int,
                rest_of(old(self).source().data(), old(self).source().pos()),
            ),
    {
        let ghost data = self.reader.data();
        let ghost start: nat = self.reader.pos();
        let ghost c0 = self.cursor as int;
        let ghost kb = self.key_box@;
        let ghost info = self.info();
        let ghost image = self.image();
        let mut output: Vec<u8> = Vec::new();
        proof {
            self.reader.lemma_len_bound();
        }
        loop
            invariant
                self.wf(),
                self.reader.data() == data,
                self.key_box@ == kb,
                self.info() == info,
                self.image() == image,
                self.cursor == c0 + output@.len(),
                start < data.len() ==> self.reader.pos() == start + output@.len()
                    && self.reader.pos() <= data.len(),
                start >= data.len() ==> output@.len() == 0 && self.reader.pos() == start,
                output@.len() <= rest_of(data, start).len(),
                output@ == ncm_transform(
                    kb,
                    c0,
                    rest_of(data, start).subrange(0, output@.len() as int),
                ),
            ensures
                self.wf(),
                self.reader.data() == data,
                self.key_box@ == kb,
                self.info() == info,
                self.image() == image,
                output@.len() == rest_of(data, start).len(),
                output@ == ncm_transform(
                    kb,
                    c0,
                    rest_of(data, start).subrange(0, output@.len() as int),
                ),
            decreases data.len() - output@.len(),
        {
            let ghost pos0: nat = self.reader.pos();
            let ghost done: int = output@.len() as int;
            let mut chunk = self.read(DATA_CHUNK);
            proof {
                let rest = rest_of(data, start);
                let plain = read_span(data, pos0, DATA_CHUNK as int);
                if pos0 < data.len() {
                    if pos0 + DATA_CHUNK <= data.len() {
                        assert(plain.len() == DATA_CHUNK);
                    } else {
                        assert(plain.len() == data.len() - pos0);
                    }
                    assert(plain =~= rest.subrange(done, done + plain.len()));
                    assert(rest.subrange(0, done + plain.len()) =~= rest.subrange(0, done)
                        + plain);
                    lemma_transform_split(kb, c0, rest.subrange(0, done), plain);
                }
            }
            if chunk.len() == 0 {
                break;
            }
            output.append(&mut chunk);
        }
        proof {
            assert(rest_of(data, start).subrange(0, output@.len() as int) =~= rest_of(data, start));
        }
        output
    }
}

} // verus!
