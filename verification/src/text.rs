use std::str::Utf8Error;
use vstd::prelude::*;
use vstd::string::StringExecFns;
use vstd::utf8::{decode_utf8, valid_utf8};

verus! {

/// Why bytes are not UTF-8; the library hands it on without looking inside.
#[verifier::external_type_specification]
#[verifier::external_body]
pub struct ExUtf8Error(Utf8Error);

/// `std::str::from_utf8`.
///
/// Believed, not proved: the call succeeds exactly on bytes that are UTF-8,
/// and the text it gives is what those bytes decode to.
#[verifier::external_body]
pub(crate) fn utf8_text(bytes: &[u8]) -> (r: Result<&str, Utf8Error>)
    ensures
        r is Ok <==> valid_utf8(bytes@),
        r is Ok ==> r->Ok_0@ == decode_utf8(bytes@),
{
    std::str::from_utf8(bytes)
}

/// The ten digits, in order.
pub open spec fn digits() -> Seq<char> {
    seq!['0', '1', '2', '3', '4', '5', '6', '7', '8', '9']
}

/// `n` written in decimal, without leading zeros.
pub open spec fn decimal_text(n: nat) -> Seq<char>
    decreases n,
{
    if n < 10 {
        seq![digits()[n as int]]
    } else {
        decimal_text(n / 10).push(digits()[(n % 10) as int])
    }
}

/// The bytes written in decimal, with a comma and a space between them.
pub open spec fn listed(bytes: Seq<u8>) -> Seq<char>
    decreases bytes.len(),
{
    if bytes.len() == 0 {
        Seq::empty()
    } else if bytes.len() == 1 {
        decimal_text(bytes[0] as nat)
    } else {
        listed(bytes.drop_last()) + seq![',', ' '] + decimal_text(bytes.last() as nat)
    }
}

/// The bytes as a list in square brackets.
pub open spec fn list_text(bytes: Seq<u8>) -> Seq<char> {
    seq!['['] + listed(bytes) + seq![']']
}

/// One decimal digit as text.
fn digit_text(d: u32) -> (r: &'static str)
    requires
        d < 10,
    ensures
        r@ == seq![digits()[d as int]],
{
    proof {
        reveal_strlit("0");
        reveal_strlit("1");
        reveal_strlit("2");
        reveal_strlit("3");
        reveal_strlit("4");
        reveal_strlit("5");
        reveal_strlit("6");
        reveal_strlit("7");
        reveal_strlit("8");
        reveal_strlit("9");
    }
    let r = match d {
        0 => "0",
        1 => "1",
        2 => "2",
        3 => "3",
        4 => "4",
        5 => "5",
        6 => "6",
        7 => "7",
        8 => "8",
        _ => "9",
    };
    assert(r@ =~= seq![digits()[d as int]]);
    r
}

/// Writes `n` in decimal.
pub fn decimal(n: u32) -> (r: String)
    ensures
        r@ == decimal_text(n as nat),
    decreases n,
{
    if n < 10 {
        String::from_str(digit_text(n))
    } else {
        let mut r = decimal(n / 10);
        r.append(digit_text(n % 10));
        assert(r@ =~= decimal_text(n as nat));
        r
    }
}

/// Writes the bytes as a list in square brackets, each in decimal.
pub fn byte_list(bytes: &[u8]) -> (r: String)
    ensures
        r@ == list_text(bytes@),
{
    proof {
        reveal_strlit("[");
        reveal_strlit("]");
        reveal_strlit(", ");
    }
    let mut r = String::from_str("[");
    let mut i: usize = 0;
    assert(bytes@.take(0) =~= Seq::<u8>::empty());
    assert(r@ =~= seq!['['] + listed(bytes@.take(0)));
    while i < bytes.len()
        invariant
            i <= bytes@.len(),
            r@ == seq!['['] + listed(bytes@.take(i as int)),
            ", "@ == seq![',', ' '],
        decreases bytes@.len() - i,
    {
        let ghost before = bytes@.take(i as int);
        let ghost next = bytes@.take(i + 1);
        assert(next.drop_last() =~= before);
        assert(next.last() == bytes@[i as int]);
        if i > 0 {
            r.append(", ");
        }
        let item = decimal(bytes[i] as u32);
        r.append(item.as_str());
        assert(r@ =~= seq!['['] + listed(next));
        i += 1;
    }
    assert(bytes@.take(i as int) =~= bytes@);
    r.append("]");
    r
}

} // verus!
