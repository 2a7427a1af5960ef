//! The 16-bit flag word of a DNS header and its seven fields.

use vstd::prelude::*;

verus! {

/// The fields of the flag word, most significant first. Three reserved bits
/// lie between `ra` and `rcode`; they are not held here.
#[derive(Debug, Clone, Copy, PartialEq, Eq, Structural)]
pub struct Flags {
    pub qr: u8,
    pub opcode: u8,
    pub aa: u8,
    pub tc: u8,
    pub rd: u8,
    pub ra: u8,
    pub rcode: u8,
}

/// The flag word that holds `f`: `qr` in bit 15, `opcode` in bits 11 to 14,
/// `aa`, `tc`, `rd`, `ra` in bits 10 down to 7, zero in bits 4 to 6, `rcode`
/// in bits 0 to 3.
pub open spec fn pack(f: Flags) -> u16 {
    (f.qr as u16) << 15 | (f.opcode as u16) << 11 | (f.aa as u16) << 10 | (f.tc as u16) << 9
        | (f.rd as u16) << 8 | (f.ra as u16) << 7 | (f.rcode as u16)
}

/// The fields that the flag word `w` holds. The reserved bits are dropped.
pub open spec fn unpack(w: u16) -> Flags {
    Flags {
        qr: ((w >> 15) & 1) as u8,
        opcode: ((w >> 11) & 15) as u8,
        aa: ((w >> 10) & 1) as u8,
        tc: ((w >> 9) & 1) as u8,
        rd: ((w >> 8) & 1) as u8,
        ra: ((w >> 7) & 1) as u8,
        rcode: (w & 15) as u8,
    }
}

impl Flags {
    /// Every field fits in its declared width.
    pub open spec fn valid(self) -> bool {
        &&& self.qr <= 1
        &&& self.opcode <= 15
        &&& self.aa <= 1
        &&& self.tc <= 1
        &&& self.rd <= 1
        &&& self.ra <= 1
        &&& self.rcode <= 15
    }

    /// Tests whether every field fits in its declared width.
    pub fn is_valid(&self) -> (ok: bool)
        ensures
            ok == self.valid(),
    {
        self.qr <= 1 && self.opcode <= 15 && self.aa <= 1 && self.tc <= 1 && self.rd <= 1
            && self.ra <= 1 && self.rcode <= 15
    }

    /// Packs the fields into the flag word. The reserved bits are zero.
    pub fn compress_u16(&self) -> (w: u16)
        requires
            self.valid(),
        ensures
            w == pack(*self),
            unpack(w) == *self,
            w & 0x0070 == 0,
    {
        let qr = self.qr;
        let opcode = self.opcode;
        let aa = self.aa;
        let tc = self.tc;
        let rd = self.rd;
        let ra = self.ra;
        let rcode = self.rcode;
        assert(qr << 7 <= 0x80 && opcode << 3 <= 0x78 && aa << 2 <= 4 && tc << 1 <= 2 && ra << 7 <= 0x80) by (bit_vector)
            requires
                qr <= 1,
                opcode <= 15,
                aa <= 1,
                tc <= 1,
                ra <= 1,
        ;
        let flags_h: u8 = (qr << 7) | (opcode << 3) | (aa << 2) | (tc << 1) | rd;
        let flags_l: u8 = (ra << 7) | rcode;
        let w = (flags_h as u16) << 8 | (flags_l as u16);
        assert(w == (qr as u16) << 15 | (opcode as u16) << 11 | (aa as u16) << 10 | (tc as u16) << 9
            | (rd as u16) << 8 | (ra as u16) << 7 | (rcode as u16)) by (bit_vector)
            requires
                qr <= 1,
                opcode <= 15,
                aa <= 1,
                tc <= 1,
                rd <= 1,
                ra <= 1,
                rcode <= 15,
                flags_h == (qr << 7) | (opcode << 3) | (aa << 2) | (tc << 1) | rd,
                flags_l == (ra << 7) | rcode,
                w == (flags_h as u16) << 8 | (flags_l as u16),
        ;
        proof {
            lemma_unpack_pack(*self);
        }
        w
    }

    /// Splits a flag word into its fields. The reserved bits are dropped.
    pub fn parse_flags(w: u16) -> (f: Flags)
        ensures
            f == unpack(w),
            f.valid(),
            pack(f) == w & 0xff8f,
    {
        proof {
            lemma_unpack_valid(w);
            lemma_pack_unpack(w);
        }
        Flags {
            qr: ((w >> 15) & 1) as u8,
            opcode: ((w >> 11) & 15) as u8,
            aa: ((w >> 10) & 1) as u8,
            tc: ((w >> 9) & 1) as u8,
            rd: ((w >> 8) & 1) as u8,
            ra: ((w >> 7) & 1) as u8,
            rcode: (w & 15) as u8,
        }
    }
}

/// Unpacking a packed set of fields gives the fields back, whenever each
/// field fits in its width; and the packed word has zero reserved bits.
pub proof fn lemma_unpack_pack(f: Flags)
    requires
        f.valid(),
    ensures
        unpack(pack(f)) == f,
        pack(f) & 0x0070 == 0,
{
    let qr = f.qr;
    let opcode = f.opcode;
    let aa = f.aa;
    let tc = f.tc;
    let rd = f.rd;
    let ra = f.ra;
    let rcode = f.rcode;
    let w = pack(f);
    assert(((w >> 15) & 1) as u8 == qr && ((w >> 11) & 15) as u8 == opcode && ((w >> 10) & 1) as u8
        == aa && ((w >> 9) & 1) as u8 == tc && ((w >> 8) & 1) as u8 == rd && ((w >> 7) & 1) as u8
        == ra && (w & 15) as u8 == rcode && w & 0x0070 == 0) by (bit_vector)
        requires
            qr <= 1,
            opcode <= 15,
            aa <= 1,
            tc <= 1,
            rd <= 1,
            ra <= 1,
            rcode <= 15,
            w == (qr as u16) << 15 | (opcode as u16) << 11 | (aa as u16) << 10 | (tc as u16) << 9
                | (rd as u16) << 8 | (ra as u16) << 7 | (rcode as u16),
    ;
}

/// The fields of any flag word fit in their widths.
pub proof fn lemma_unpack_valid(w: u16)
    ensures
        unpack(w).valid(),
{
    assert(((w >> 15) & 1) as u8 <= 1 && ((w >> 11) & 15) as u8 <= 15 && ((w >> 10) & 1) as u8 <= 1
        && ((w >> 9) & 1) as u8 <= 1 && ((w >> 8) & 1) as u8 <= 1 && ((w >> 7) & 1) as u8 <= 1 && (w
        & 15) as u8 <= 15) by (bit_vector);
}

/// Packing the fields of a flag word gives the word with its reserved bits
/// cleared.
pub proof fn lemma_pack_unpack(w: u16)
    ensures
        pack(unpack(w)) == w & 0xff8f,
{
    let f = unpack(w);
    let qr = f.qr;
    let opcode = f.opcode;
    let aa = f.aa;
    let tc = f.tc;
    let rd = f.rd;
    let ra = f.ra;
    let rcode = f.rcode;
    assert((qr as u16) << 15 | (opcode as u16) << 11 | (aa as u16) << 10 | (tc as u16) << 9 | (
    rd as u16) << 8 | (ra as u16) << 7 | (rcode as u16) == w & 0xff8f) by (bit_vector)
        requires
            qr == ((w >> 15) & 1) as u8,
            opcode == ((w >> 11) & 15) as u8,
            aa == ((w >> 10) & 1) as u8,
            tc == ((w >> 9) & 1) as u8,
            rd == ((w >> 8) & 1) as u8,
            ra == ((w >> 7) & 1) as u8,
            rcode == (w & 15) as u8,
    ;
}

} // verus!
