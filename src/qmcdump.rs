use vstd::prelude::*;

use crate::source::{read_span, rest_of, Source};

verus! {

/// The size of the chunks that the decoder reads.
pub const BUFFER_SIZE: u64 = 8192;

/// The fixed substitution table of the QMC keystream.
pub const KEY: [u8; 256] = [
    0x77, 0x48, 0x32, 0x73, 0xDE, 0xF2, 0xC0, 0xC8, 0x95, 0xEC, 0x30, 0xB2, 0x51, 0xC3, 0xE1, 0xA0,
    0x9E, 0xE6, 0x9D, 0xCF, 0xFA, 0x7F, 0x14, 0xD1, 0xCE, 0xB8, 0xDC, 0xC3, 0x4A, 0x67, 0x93, 0xD6,
    0x28, 0xC2, 0x91, 0x70, 0xCA, 0x8D, 0xA2, 0xA4, 0xF0, 0x08, 0x61, 0x90, 0x7E, 0x6F, 0xA2, 0xE0,
    0xEB, 0xAE, 0x3E, 0xB6, 0x67, 0xC7, 0x92, 0xF4, 0x91, 0xB5, 0xF6, 0x6C, 0x5E, 0x84, 0x40, 0xF7,
    0xF3, 0x1B, 0x02, 0x7F, 0xD5, 0xAB, 0x41, 0x89, 0x28, 0xF4, 0x25, 0xCC, 0x52, 0x11, 0xAD, 0x43,
    0x68, 0xA6, 0x41, 0x8B, 0x84, 0xB5, 0xFF, 0x2C, 0x92, 0x4A, 0x26, 0xD8, 0x47, 0x6A, 0x7C, 0x95,
    0x61, 0xCC, 0xE6, 0xCB, 0xBB, 0x3F, 0x47, 0x58, 0x89, 0x75, 0xC3, 0x75, 0xA1, 0xD9, 0xAF, 0xCC,
    0x08, 0x73, 0x17, 0xDC, 0xAA, 0x9A, 0xA2, 0x16, 0x41, 0xD8, 0xA2, 0x06, 0xC6, 0x8B, 0xFC, 0x66,
    0x34, 0x9F, 0xCF, 0x18, 0x23, 0xA0, 0x0A, 0x74, 0xE7, 0x2B, 0x27, 0x70, 0x92, 0xE9, 0xAF, 0x37,
    0xE6, 0x8C, 0xA7, 0xBC, 0x62, 0x65, 0x9C, 0xC2, 0x08, 0xC9, 0x88, 0xB3, 0xF3, 0x43, 0xAC, 0x74,
    0x2C, 0x0F, 0xD4, 0xAF, 0xA1, 0xC3, 0x01, 0x64, 0x95, 0x4E, 0x48, 0x9F, 0xF4, 0x35, 0x78, 0x95,
    0x7A, 0x39, 0xD6, 0x6A, 0xA0, 0x6D, 0x40, 0xE8, 0x4F, 0xA8, 0xEF, 0x11, 0x1D, 0xF3, 0x1B, 0x3F,
    0x3F, 0x07, 0xDD, 0x6F, 0x5B, 0x19, 0x30, 0x19, 0xFB, 0xEF, 0x0E, 0x37, 0xF0, 0x0E, 0xCD, 0x16,
    0x49, 0xFE, 0x53, 0x47, 0x13, 0x1A, 0xBD, 0xA4, 0xF1, 0x40, 0x19, 0x60, 0x0E, 0xED, 0x68, 0x09,
    0x06, 0x5F, 0x4D, 0xCF, 0x3D, 0x1A, 0xFE, 0x20, 0x77, 0xE4, 0xD9, 0xDA, 0xF9, 0xA4, 0x2B, 0x76,
    0x1C, 0x71, 0xDB, 0x00, 0xBC, 0xFD, 0x0C, 0x6C, 0xA5, 0x47, 0xF7, 0xF6, 0x00, 0x79, 0x4A, 0x11,
];

/// The keystream byte of the QMC cipher at `offset`.
pub open spec fn qmc_key_byte(table: Seq<u8>, offset: int) -> u8 {
    let v = if offset > 0x7FFF { offset % 0x7FFF } else { offset };
    table[(v * v + 80923) % 256]
}

/// `data`, which starts at `offset`, XORed with the QMC keystream.
pub open spec fn qmc_transform(table: Seq<u8>, offset: int, data: Seq<u8>) -> Seq<u8> {
    Seq::new(data.len(), |i: int| data[i] ^ qmc_key_byte(table, offset + i))
}

/// A decoder of the QMC container: the whole input is ciphertext.
pub struct QmcDump {
    source: Source,
}

impl QmcDump {
    /// The source that the decoder reads.
    pub closed spec fn source(&self) -> Source {
        self.source
    }

    /// The decoder is well formed.
    pub closed spec fn wf(&self) -> bool {
        self.source.wf()
    }

    /// The keystream byte at `value`.
    pub fn map_l(value: usize) -> (r: u8)
        ensures
            r == qmc_key_byte(KEY@, value as int),
    {
        let v: usize = if value > 0x7FFF {
            value % 0x7FFF
        } else {
            value
        };
        assert(v * v <= 0x7FFF * 0x7FFF) by (nonlinear_arith)
            requires
                v <= 0x7FFF,
        ;
        let index: usize = (v * v + 80923) % 256;
        KEY[index]
    }

    /// XORs `buffer`, which starts at `offset`, with the keystream, in place.
    pub fn encrypt(offset: usize, buffer: &mut Vec<u8>)
        requires
            offset + old(buffer)@.len() <= usize::MAX,
        ensures
            final(buffer)@ == qmc_transform(KEY@, offset as int, old(buffer)@),
    {
        let n = buffer.len();
        let mut i: usize = 0;
        while i < n
            invariant
                n == buffer@.len(),
                n == old(buffer)@.len(),
                offset + n <= usize::MAX,
                i <= n,
                forall|t: int| 0 <= t < i ==> buffer@[t] == old(buffer)@[t] ^ qmc_key_byte(
                    KEY@,
                    offset + t,
                ),
                forall|t: int| i <= t < n ==> buffer@[t] == old(buffer)@[t],
            decreases n - i,
        {
            let byte = buffer[i] ^ Self::map_l(offset + i);
            buffer.set(i, byte);
            i = i + 1;
        }
        assert(buffer@ =~= qmc_transform(KEY@, offset as int, old(buffer)@));
    }

    /// A decoder that reads `reader` from its current position.
    pub fn from_reader(reader: Source) -> (r: QmcDump)
        requires
            reader.wf(),
        ensures
            r.wf(),
            r.source() == reader,
    {
        QmcDump { source: reader }
    }

    /// Reads the rest of the source in chunks and returns it decrypted; the
    /// keystream offset counts from the first byte read.
    pub fn get_data(&mut self) -> (r: Vec<u8>)
        requires
            old(self).wf(),
        ensures
            final(self).wf(),
            final(self).source().data() == old(self).source().data(),
            r@ == qmc_transform(
                KEY@,
                0,
                rest_of(old(self).source().data(), old(self).source().pos()),
            ),
            r@.len() == rest_of(old(self).source().data(), old(self).source().pos()).len(),
    {
        let ghost data = self.source.data();
        let ghost start: nat = self.source.pos();
        let mut output: Vec<u8> = Vec::new();
        let mut offset: usize = 0;
        proof {
            self.source.lemma_len_bound();
        }
        loop
            invariant
                self.wf(),
                self.source.data() == data,
                data.len() <= usize::MAX,
                offset == output@.len(),
                start < data.len() ==> self.source.pos() == start + offset && self.source.pos()
                    <= data.len(),
                start >= data.len() ==> offset == 0 && self.source.pos() == start,
                offset <= rest_of(data, start).len(),
                output@ == qmc_transform(KEY@, 0, rest_of(data, start).subrange(0, offset as int)),
            ensures
                self.wf(),
                self.source.data() == data,
                offset == rest_of(data, start).len(),
                output@ == qmc_transform(KEY@, 0, rest_of(data, start).subrange(0, offset as int)),
            decreases data.len() - offset,
        {
            let ghost pos0: nat = self.source.pos();
            let mut chunk = self.source.read(BUFFER_SIZE);
            proof {
                assert(chunk@ == read_span(data, pos0, BUFFER_SIZE as int));
                if pos0 < data.len() {
                    assert(start < data.len());
                    if pos0 + BUFFER_SIZE <= data.len() {
                        assert(chunk@.len() == BUFFER_SIZE);
                    } else {
                        assert(chunk@.len() == data.len() - pos0);
                    }
                    assert(chunk@.len() > 0);
                    assert(offset + chunk@.len() <= rest_of(data, start).len());
                }
            }
            if chunk.len() == 0 {
                break;
            }
            let ghost plain = chunk@;
            Self::encrypt(offset, &mut chunk);
            proof {
                let rest = rest_of(data, start);
                assert(start < data.len());
                assert(plain =~= rest.subrange(offset as int, offset + plain.len()));
                assert(rest.subrange(0, offset + plain.len()) =~= rest.subrange(0, offset as int)
                    + plain);
                assert(qmc_transform(KEY@, 0, rest.subrange(0, offset + plain.len()))
                    =~= qmc_transform(KEY@, 0, rest.subrange(0, offset as int)) + qmc_transform(
                    KEY@,
                    offset as int,
                    plain,
                ));
            }
            offset = offset + chunk.len();
            output.append(&mut chunk);
        }
        proof {
            let rest = rest_of(data, start);
            assert(rest.subrange(0, offset as int) =~= rest);
        }
        output
    }
}

} // verus!
