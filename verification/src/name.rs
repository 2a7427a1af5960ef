//! Domain names on the wire: reading them, with compression pointers
//! followed, and writing them, always uncompressed.

use crate::buffer::{extend_from_slice, put_u8, written};
use crate::error::Error;
use crate::reader::{be_u16, be_u8};
use crate::wire::{
    decode_name, encode_name, label_ok, labels_of, labels_ok, labels_wire, name_from,
    pointer_target, Name,
};
use bytes::BytesMut;
use vstd::prelude::*;
use vstd::slice::{slice_subrange, slice_to_vec};

verus! {

/// The result of reading a name whose first labels are `done` and whose rest
/// reads as `tail`. Once a pointer has been followed, the name ends behind
/// that pointer, at `end`, wherever the rest of it was read.
pub open spec fn graft(done: Name, end: Option<usize>, tail: Result<(Name, int), Error>) -> Result<
    (Name, int),
    Error,
> {
    match tail {
        Err(e) => Err(e),
        Ok((rest, at)) => Ok(
            (
                done + rest,
                match end {
                    Some(e) => e as int,
                    None => at,
                },
            ),
        ),
    }
}

/// The low 14 bits of a big-endian word whose first byte is 192 or more are
/// the pointer target that its two bytes spell.
proof fn lemma_pointer_bits(word: u16, hi: u8, lo: u8)
    requires
        hi >= 192,
        word == hi * 256 + lo,
    ensures
        (word & 0x3fff) == pointer_target(hi, lo),
{
    assert(word & 0x3fff == (hi as u16 - 192) * 256 + lo as u16) by (bit_vector)
        requires
            hi >= 192,
            word == hi as u16 * 256 + lo as u16,
    ;
}

/// Reads the name that starts at `pos` in `buf`, following pointers into
/// `pkt`; gives its labels and the position in `buf` behind it.
pub(crate) fn name_at(buf: &[u8], pos: usize, pkt: &[u8]) -> (r: Result<
    (Vec<Vec<u8>>, usize),
    Error,
>)
    requires
        pos <= buf@.len(),
    ensures
        match decode_name(buf@, pos as int, pkt@) {
            Ok((name, end)) => r matches Ok((labels, at)) && labels_of(labels@) == name && at == end
                && at <= buf@.len(),
            Err(e) => r matches Err(x) && x == e,
        },
{
    let mut labels: Vec<Vec<u8>> = Vec::new();
    let mut cur: &[u8] = buf;
    let mut at: usize = pos;
    let mut bound: usize = pkt.len();
    let mut room: usize = 254;
    let mut end: Option<usize> = None;
    assert(labels_of(labels@) =~= Seq::<Seq<u8>>::empty());
    assert(forall|t: Name| Seq::<Seq<u8>>::empty() + t =~= t);
    loop
        invariant
            at <= cur@.len(),
            bound <= pkt@.len(),
            room <= 254,
            end is None ==> cur@ == buf@,
            end matches Some(e) ==> cur@ == pkt@ && e <= buf@.len(),
            decode_name(buf@, pos as int, pkt@) == graft(
                labels_of(labels@),
                end,
                name_from(cur@, at as int, pkt@, bound as int, room as int),
            ),
        decreases bound, cur@.len() - at,
    {
        let ghost done = labels_of(labels@);
        let head = match be_u8(slice_subrange(cur, at, cur.len())) {
            None => {
                return Err(Error::TruncatedInput);
            },
            Some(h) => h,
        };
        assert(head == cur@[at as int]);
        if head == 0 {
            let stop = match end {
                Some(e) => e,
                None => at + 1,
            };
            assert(done + Seq::<Seq<u8>>::empty() =~= done);
            return Ok((labels, stop));
        } else if head < 64 {
            let len = head as usize;
            if len > cur.len() - at - 1 {
                return Err(Error::TruncatedInput);
            }
            if len + 1 > room {
                return Err(Error::NameTooLong);
            }
            let label = slice_to_vec(slice_subrange(cur, at + 1, at + 1 + len));
            proof {
                let l = cur@.subrange(at + 1, at + 1 + len);
                assert(labels_of(labels@.push(label)) =~= done.push(l));
                assert(forall|t: Name| done + (seq![l] + t) =~= done.push(l) + t);
            }
            labels.push(label);
            at = at + 1 + len;
            room = room - len - 1;
        } else if head < 192 {
            return Err(Error::InvalidLabelLength);
        } else {
            let word = match be_u16(slice_subrange(cur, at, cur.len())) {
                None => {
                    return Err(Error::TruncatedInput);
                },
                Some(w) => w,
            };
            proof {
                lemma_pointer_bits(word, head, cur@[at + 1]);
            }
            let target = (word & 0x3fff) as usize;
            if target >= pkt.len() {
                return Err(Error::PointerOutOfRange);
            }
            if target >= bound {
                return Err(Error::PointerCycle);
            }
            if end.is_none() {
                end = Some(at + 2);
            }
            cur = pkt;
            at = target;
            bound = target;
        }
    }
}

/// Reads the name at the start of `buf`, following compression pointers into
/// `pkt`, the whole message. Gives what of `buf` lies behind the name, and
/// the labels, each copied out.
///
/// The first pointer of a name may target any offset of `pkt`; each
/// further one must target an offset below the target of the one before
/// it. So reading ends on every input, and a loop of pointers is a
/// `PointerCycle`.
pub fn parse_labels<'a>(buf: &'a [u8], pkt: &[u8]) -> (r: Result<(&'a [u8], Vec<Vec<u8>>), Error>)
    ensures
        match decode_name(buf@, 0, pkt@) {
            Ok((name, end)) => r matches Ok((rest, labels)) && labels_of(labels@) == name && rest@
                == buf@.subrange(end, buf@.len() as int),
            Err(e) => r matches Err(x) && x == e,
        },
{
    match name_at(buf, 0, pkt) {
        Err(e) => Err(e),
        Ok((labels, at)) => Ok((slice_subrange(buf, at, buf.len()), labels)),
    }
}

/// Tests whether the name can be written: every label has 1 to 63 bytes,
/// and the whole takes at most 255 bytes.
pub fn check_name(name: &Vec<Vec<u8>>) -> (r: Result<(), Error>)
    ensures
        match encode_name(labels_of(name@)) {
            Ok(_) => r is Ok,
            Err(e) => r matches Err(x) && x == e,
        },
{
    let ghost whole = labels_of(name@);
    let mut total: usize = 0;
    let mut i: usize = 0;
    assert(whole.skip(0) =~= whole);
    while i < name.len()
        invariant
            i <= name@.len(),
            whole == labels_of(name@),
            forall|j: int| 0 <= j < i ==> label_ok(#[trigger] whole[j]),
            total <= 254 + 64,
            total <= 254 ==> labels_wire(whole).len() == total + labels_wire(
                whole.skip(i as int),
            ).len(),
            total > 254 ==> labels_wire(whole).len() > 254,
        decreases name@.len() - i,
    {
        let len = name[i].len();
        assert(whole[i as int] == name@[i as int]@);
        if len == 0 || len > 63 {
            assert(!label_ok(whole[i as int]));
            return Err(Error::InvalidLabelLength);
        }
        assert(whole.skip(i as int).drop_first() =~= whole.skip(i + 1));
        if total <= 254 {
            total = total + len + 1;
        }
        i += 1;
    }
    if total > 254 {
        Err(Error::NameTooLong)
    } else {
        Ok(())
    }
}

/// Appends the name to `buf`: each label behind its length byte, then a
/// zero byte. Never compresses.
pub(crate) fn put_name(name: &Vec<Vec<u8>>, buf: &mut BytesMut)
    requires
        encode_name(labels_of(name@)) is Ok,
    ensures
        written(*final(buf)) == written(*old(buf)) + encode_name(labels_of(name@))->Ok_0,
{
    let ghost whole = labels_of(name@);
    let ghost before = written(*buf);
    let mut i: usize = 0;
    assert(whole.skip(0) =~= whole);
    while i < name.len()
        invariant
            i <= name@.len(),
            whole == labels_of(name@),
            labels_ok(whole),
            before + labels_wire(whole) == written(*buf) + labels_wire(whole.skip(i as int)),
        decreases name@.len() - i,
    {
        let label = &name[i];
        assert(label_ok(whole[i as int]));
        assert(whole[i as int] == label@);
        assert(whole.skip(i as int).drop_first() =~= whole.skip(i + 1));
        let ghost mid = written(*buf);
        put_u8(buf, label.len() as u8);
        extend_from_slice(buf, label.as_slice());
        assert(written(*buf) + labels_wire(whole.skip(i + 1)) =~= mid + labels_wire(
            whole.skip(i as int),
        ));
        i += 1;
    }
    let ghost mid = written(*buf);
    put_u8(buf, 0);
    assert(written(*buf) =~= before + labels_wire(whole).push(0u8)) by {
        assert(mid + labels_wire(whole.skip(i as int)) =~= mid);
    }
}

} // verus!
