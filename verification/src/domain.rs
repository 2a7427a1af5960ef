//! The dotted text form of a name, by which records are stored and found.

use crate::wire::{labels_of, Name};
use vstd::prelude::*;
use vstd::string::StringExecFns;
use vstd::utf8::{decode_utf8, encode_utf8, encode_utf8_decode_utf8, valid_utf8};

verus! {

/// The labels of the name that are valid UTF-8, each as text, in order.
/// A label that is not valid UTF-8 is left out.
pub open spec fn texts(name: Name) -> Seq<Seq<char>>
    decreases name.len(),
{
    if name.len() == 0 {
        Seq::empty()
    } else if valid_utf8(name.last()) {
        texts(name.drop_last()).push(decode_utf8(name.last()))
    } else {
        texts(name.drop_last())
    }
}

/// The parts with a dot between each two.
pub open spec fn dotted(parts: Seq<Seq<char>>) -> Seq<char>
    decreases parts.len(),
{
    if parts.len() == 0 {
        Seq::empty()
    } else if parts.len() == 1 {
        parts[0]
    } else {
        dotted(parts.drop_last()) + seq!['.'] + parts.last()
    }
}

/// The domain that the name spells: its UTF-8 labels joined by dots.
pub open spec fn domain_of(name: Name) -> Seq<char> {
    dotted(texts(name))
}

/// `std::str::from_utf8`: the bytes as text where they are valid UTF-8,
/// nothing where they are not. The text has exactly these bytes.
#[verifier::external_body]
fn from_utf8(bytes: &[u8]) -> (r: Option<&str>)
    ensures
        r is Some <==> valid_utf8(bytes@),
        r matches Some(text) ==> encode_utf8(text@) == bytes@,
{
    match std::str::from_utf8(bytes) {
        Ok(text) => Some(text),
        Err(_) => None,
    }
}

/// The domain that the labels spell: those that are valid UTF-8, joined by
/// dots.
pub fn domain_text(name: &Vec<Vec<u8>>) -> (domain: String)
    ensures
        domain@ == domain_of(labels_of(name@)),
{
    let ghost whole = labels_of(name@);
    let mut domain = String::new();
    let mut first = true;
    let mut i: usize = 0;
    assert(whole.take(0) =~= Seq::<Seq<u8>>::empty());
    while i < name.len()
        invariant
            i <= name@.len(),
            whole == labels_of(name@),
            domain@ == dotted(texts(whole.take(i as int))),
            first == (texts(whole.take(i as int)).len() == 0),
        decreases name@.len() - i,
    {
        let ghost before = texts(whole.take(i as int));
        proof {
            assert(whole.take(i + 1).drop_last() =~= whole.take(i as int));
            assert(whole.take(i + 1).last() == name@[i as int]@);
        }
        match from_utf8(name[i].as_slice()) {
            None => {},
            Some(text) => {
                proof {
                    encode_utf8_decode_utf8(text@);
                    reveal_strlit(".");
                    assert(before.push(text@).drop_last() =~= before);
                    assert("."@ =~= seq!['.']);
                }
                if !first {
                    domain.append(".");
                }
                domain.append(text);
                first = false;
                assert(domain@ =~= dotted(before.push(text@)));
            },
        }
        i += 1;
    }
    assert(whole.take(i as int) =~= whole);
    domain
}

} // verus!
