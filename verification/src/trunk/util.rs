//! Identifiers of SIP dialogs and transactions, To tags and reject codes.

use rand::Rng;
use vstd::prelude::*;

use crate::text;

verus! {

/// The hexadecimal digit of a value below sixteen.
pub open spec fn hex_digit(n: int) -> char {
    if n < 10 {
        ('0' as u32 + n) as char
    } else {
        ('a' as u32 + n - 10) as char
    }
}

/// Two digits for each byte, the high one first.
pub open spec fn hex_of(bytes: Seq<u8>) -> Seq<char> {
    Seq::new(
        2 * bytes.len(),
        |i: int|
            if i % 2 == 0 {
                hex_digit(bytes[i / 2] as int / 16)
            } else {
                hex_digit(bytes[i / 2] as int % 16)
            },
    )
}

/// The branch that twelve bytes make: the cookie of RFC 3261, then their digits.
pub open spec fn branch_of(bytes: Seq<u8>) -> Seq<char> {
    "z9hG4bK"@ + hex_of(bytes)
}

/// The version 4 UUID that sixteen bytes make.
pub open spec fn uuid_of(bytes: Seq<u8>) -> Seq<char> {
    hex_of(bytes.subrange(0, 4)) + "-"@ + hex_of(bytes.subrange(4, 6)) + "-4"@ + seq![
        hex_digit(bytes[6] as int % 16),
    ] + hex_of(seq![bytes[7]]) + "-"@ + hex_of(seq![(bytes[8] % 64 + 128) as u8, bytes[9]]) + "-"@
        + hex_of(bytes.subrange(10, 16))
}

/// The To header of a response: with `tag` unless it is a 100 or has a tag already.
pub open spec fn tagged_to(to: Seq<char>, status_code: u16, tag: Seq<char>) -> Seq<char> {
    if status_code > 100 && text::find(to, "tag="@) is None {
        to + ";tag="@ + tag
    } else {
        to
    }
}

/// Whether `c` is a digit that `hex_of` writes.
pub open spec fn is_hex(c: char) -> bool {
    text::is_digit(c) || ('a' <= c && c <= 'f')
}

// ── Laws ──

/// Bytes are written as twice as many hexadecimal digits.
pub proof fn law_hex(bytes: Seq<u8>)
    ensures
        hex_of(bytes).len() == 2 * bytes.len(),
        forall|i: int| 0 <= i < hex_of(bytes).len() ==> is_hex(#[trigger] hex_of(bytes)[i]),
{
}

/// Different bytes are written differently.
pub proof fn law_hex_injective(a: Seq<u8>, b: Seq<u8>)
    requires
        hex_of(a) == hex_of(b),
    ensures
        a == b,
{
    assert(hex_of(a).len() == 2 * a.len() && hex_of(b).len() == 2 * b.len());
    assert(a.len() == b.len());
    assert forall|i: int| 0 <= i < a.len() implies a[i] == b[i] by {
        assert((2 * i) % 2 == 0 && (2 * i) / 2 == i);
        assert((2 * i + 1) % 2 == 1 && (2 * i + 1) / 2 == i);
        assert(hex_of(a)[2 * i] == hex_of(b)[2 * i]);
        assert(hex_of(a)[2 * i + 1] == hex_of(b)[2 * i + 1]);
        let x: u8 = a[i];
        let y: u8 = b[i];
        assert(hex_of(a)[2 * i] == hex_digit(x as int / 16));
        assert(hex_of(b)[2 * i] == hex_digit(y as int / 16));
        assert(hex_of(a)[2 * i + 1] == hex_digit(x as int % 16));
        assert(hex_of(b)[2 * i + 1] == hex_digit(y as int % 16));
        assert(x as int / 16 == y as int / 16 && x as int % 16 == y as int % 16);
    }
    assert(a =~= b);
}

/// A branch is the cookie and two digits for each byte.
pub proof fn law_branch(bytes: Seq<u8>)
    ensures
        branch_of(bytes).len() == 7 + 2 * bytes.len(),
        text::starts_with(branch_of(bytes), "z9hG4bK"@),
        branch_of(bytes).skip(7) == hex_of(bytes),
{
    reveal_strlit("z9hG4bK");
    assert(branch_of(bytes).skip(7) =~= hex_of(bytes));
    assert(branch_of(bytes).subrange(0, 7) =~= "z9hG4bK"@);
}

/// A UUID has 36 characters, dashes at the four places of the standard form, the
/// version 4, and a variant digit from 8 to b.
pub proof fn law_uuid(bytes: Seq<u8>)
    requires
        bytes.len() == 16,
    ensures
        uuid_of(bytes).len() == 36,
        forall|i: int|
            0 <= i < 36 ==> if i == 8 || i == 13 || i == 18 || i == 23 {
                #[trigger] uuid_of(bytes)[i] == '-'
            } else {
                is_hex(uuid_of(bytes)[i])
            },
        uuid_of(bytes)[14] == '4',
        seq!['8', '9', 'a', 'b'].contains(uuid_of(bytes)[19]),
{
    reveal_strlit("-");
    reveal_strlit("-4");
    let id = uuid_of(bytes);
    let variant = hex_of(seq![(bytes[8] % 64 + 128) as u8, bytes[9]]);
    assert(id[19] == variant[0]);
    let letters = seq!['8', '9', 'a', 'b'];
    assert(letters[0] == '8' && letters[1] == '9' && letters[2] == 'a' && letters[3] == 'b');
    let high = (bytes[8] % 64 + 128) / 16;
    assert(8 <= high <= 11);
    assert(id[19] == letters[high - 8]);
}

/// What a hexadecimal digit stands for.
pub open spec fn hex_value(c: char) -> int {
    if '0' <= c && c <= '9' {
        c as int - '0' as int
    } else {
        c as int - 'a' as int + 10
    }
}

/// Each byte is read back from its two digits, the high one first.
pub proof fn law_hex_digits(bytes: Seq<u8>, i: int)
    requires
        0 <= i < bytes.len(),
    ensures
        bytes[i] == 16 * hex_value(hex_of(bytes)[2 * i]) + hex_value(hex_of(bytes)[2 * i + 1]),
{
    assert((2 * i) % 2 == 0 && (2 * i) / 2 == i);
    assert((2 * i + 1) % 2 == 1 && (2 * i + 1) / 2 == i);
    let b: u8 = bytes[i];
    assert(hex_of(bytes)[2 * i] == hex_digit(b as int / 16));
    assert(hex_of(bytes)[2 * i + 1] == hex_digit(b as int % 16));
}

/// Every byte shows in a UUID, in order, but for the four bits of the version and the two of
/// the variant.
pub proof fn law_uuid_bytes(bytes: Seq<u8>)
    requires
        bytes.len() == 16,
    ensures
        ({
            let id = uuid_of(bytes);
            &&& id.subrange(0, 8) == hex_of(bytes.subrange(0, 4))
            &&& id.subrange(9, 13) == hex_of(bytes.subrange(4, 6))
            &&& hex_value(id[15]) == bytes[6] % 16
            &&& id.subrange(16, 18) == hex_of(bytes.subrange(7, 8))
            &&& 16 * hex_value(id[19]) + hex_value(id[20]) == 128 + bytes[8] % 64
            &&& id.subrange(21, 23) == hex_of(bytes.subrange(9, 10))
            &&& id.subrange(24, 36) == hex_of(bytes.subrange(10, 16))
        }),
{
    reveal_strlit("-");
    reveal_strlit("-4");
    let id = uuid_of(bytes);
    let b: u8 = (bytes[8] % 64 + 128) as u8;
    let pair = seq![b, bytes[9]];
    let middle = hex_of(pair);
    assert(id.subrange(0, 8) =~= hex_of(bytes.subrange(0, 4)));
    assert(id.subrange(9, 13) =~= hex_of(bytes.subrange(4, 6)));
    assert(id[15] == hex_digit(bytes[6] as int % 16));
    assert(bytes.subrange(7, 8) =~= seq![bytes[7]]);
    assert(id.subrange(16, 18) =~= hex_of(seq![bytes[7]]));
    assert(id[19] == middle[0] && id[20] == middle[1] && id[21] == middle[2] && id[22]
        == middle[3]);
    law_hex_digits(pair, 0);
    assert(middle[2 * 0int] == middle[0] && middle[2 * 0int + 1] == middle[1]);
    let ninth = bytes.subrange(9, 10);
    assert(ninth[0] == bytes[9]);
    assert(hex_of(ninth)[0] == middle[2] && hex_of(ninth)[1] == middle[3]) by {
        assert(2int / 2 == 1 && 3int / 2 == 1 && 3int % 2 == 1);
    }
    assert(id.subrange(21, 23) =~= hex_of(ninth));
    assert(id.subrange(24, 36) =~= hex_of(bytes.subrange(10, 16)));
}

/// A response to anything but a 100 carries a tag in its To header; one that was there
/// stays as it was.
pub proof fn law_to_tag(to: Seq<char>, status_code: u16, tag: Seq<char>)
    ensures
        status_code > 100 ==> text::find(tagged_to(to, status_code, tag), "tag="@) is Some,
        text::find(to, "tag="@) is Some ==> tagged_to(to, status_code, tag) == to,
        status_code <= 100 ==> tagged_to(to, status_code, tag) == to,
{
    reveal_strlit("tag=");
    reveal_strlit(";tag=");
    if status_code > 100 && text::find(to, "tag="@) is None {
        let out = tagged_to(to, status_code, tag);
        let n = to.len() as int + 1;
        assert(out.subrange(n, n + 4) =~= "tag="@);
        text::lemma_find_from(out, "tag="@, 0);
        assert(text::occurs_at(out, "tag="@, n));
    }
}

// ── Code ──

/// `Rng::random` of the crate rand, on its generator for the thread: an array of `N`
/// bytes. Nothing is claimed of the bytes, which are drawn anew at each call. Where
/// the operating system has no random data to seed the generator with, the call
/// panics; that rests on no argument.
#[verifier::external_body]
fn random_bytes<const N: usize>() -> (res: [u8; N]) {
    rand::rng().random()
}

/// The bytes as lower case hexadecimal digits.
pub fn hex_encode(bytes: &[u8]) -> (res: String)
    ensures
        res@ == hex_of(bytes@),
{
    let mut out: String = String::new();
    let mut i: usize = 0;
    while i < bytes.len()
        invariant
            i <= bytes@.len(),
            out@ == hex_of(bytes@.take(i as int)),
        decreases bytes@.len() - i,
    {
        push_hex(&mut out, bytes[i]);
        assert(out@ =~= hex_of(bytes@.take(i + 1))) by {
            assert((2 * i) % 2 == 0 && (2 * i) / 2 == i as int);
            assert((2 * i + 1) % 2 == 1 && (2 * i + 1) / 2 == i as int);
        }
        i += 1;
    }
    assert(bytes@.take(i as int) =~= bytes@);
    out
}

/// The hexadecimal digit of a value below sixteen.
fn digit_char(n: u8) -> (res: char)
    requires
        n < 16,
    ensures
        res == hex_digit(n as int),
{
    if n < 10 {
        (48u8 + n) as char
    } else {
        (97u8 + (n - 10)) as char
    }
}

/// Appends the two digits of a byte.
fn push_hex(out: &mut String, byte: u8)
    ensures
        final(out)@ == old(out)@.push(hex_digit(byte as int / 16)).push(
            hex_digit(byte as int % 16),
        ),
{
    out.push(digit_char(byte / 16));
    out.push(digit_char(byte % 16));
}

/// The branch that twelve bytes make.
pub fn branch_from(bytes: &[u8; 12]) -> (res: String)
    ensures
        res@ == branch_of(bytes@),
{
    let mut out: String = String::from_str("z9hG4bK");
    out.append(hex_encode(bytes.as_slice()).as_str());
    out
}

/// The version 4 UUID that sixteen bytes make.
pub fn uuid_from(bytes: &[u8; 16]) -> (res: String)
    ensures
        res@ == uuid_of(bytes@),
{
    let all: &[u8] = bytes.as_slice();
    let mut out: String = hex_encode(vstd::slice::slice_subrange(all, 0, 4));
    out.append("-");
    out.append(hex_encode(vstd::slice::slice_subrange(all, 4, 6)).as_str());
    out.append("-4");
    out.push(digit_char(bytes[6] % 16));
    let low: [u8; 1] = [bytes[7]];
    out.append(hex_encode(low.as_slice()).as_str());
    out.append("-");
    let variant: [u8; 2] = [bytes[8] % 64 + 128, bytes[9]];
    out.append(hex_encode(variant.as_slice()).as_str());
    out.append("-");
    out.append(hex_encode(vstd::slice::slice_subrange(all, 10, 16)).as_str());
    proof {
        assert(low@ =~= seq![bytes@[7]]);
        assert(variant@ =~= seq![(bytes@[8] % 64 + 128) as u8, bytes@[9]]);
        assert(out@ =~= uuid_of(bytes@));
    }
    out
}

/// A new SIP tag: sixteen random hexadecimal digits.
pub fn generate_tag() -> (res: String)
    ensures
        exists|bytes: Seq<u8>| bytes.len() == 8 && res@ == #[trigger] hex_of(bytes),
{
    let bytes: [u8; 8] = random_bytes();
    hex_encode(bytes.as_slice())
}

/// A new SIP branch: the cookie of RFC 3261 and twenty-four random digits.
pub fn generate_branch() -> (res: String)
    ensures
        exists|bytes: Seq<u8>| bytes.len() == 12 && res@ == #[trigger] branch_of(bytes),
{
    let bytes: [u8; 12] = random_bytes();
    branch_from(&bytes)
}

/// A new random UUID.
pub fn uuid_v4() -> (res: String)
    ensures
        exists|bytes: Seq<u8>| bytes.len() == 16 && res@ == #[trigger] uuid_of(bytes),
{
    let bytes: [u8; 16] = random_bytes();
    uuid_from(&bytes)
}

/// The To header of a response, with `tag` where it has none and needs one.
pub fn to_with_tag(to: &str, status_code: u16, tag: &str) -> (res: String)
    ensures
        res@ == tagged_to(to@, status_code, tag@),
{
    if status_code > 100 && !has_tag(to) {
        let mut out: String = to.to_owned();
        out.append(";tag=");
        out.append(tag);
        out
    } else {
        to.to_owned()
    }
}

/// Whether a header value holds a tag.
pub fn has_tag(value: &str) -> (res: bool)
    ensures
        res == (text::find(value@, "tag="@) is Some),
{
    text::position_of_text(
        text::chars_of(value).as_slice(),
        text::chars_of("tag=").as_slice(),
    ).is_some()
}

/// The To header of a response, with a new tag where it has none and needs one.
pub fn ensure_to_tag(to: &str, status_code: u16) -> (res: String)
    ensures
        exists|bytes: Seq<u8>|
            bytes.len() == 8 && res@ == tagged_to(to@, status_code, #[trigger] hex_of(bytes)),
{
    let tag: String = generate_tag();
    to_with_tag(to, status_code, tag.as_str())
}

/// The SIP status for a reason to reject a call: 603 when declined, else 486.
pub fn reject_reason_to_sip_code(reason: &str) -> (res: u16)
    ensures
        res == if reason@ == "declined"@ {
            603u16
        } else {
            486u16
        },
{
    if text::same_text(reason, "declined") {
        603
    } else {
        486
    }
}

} // verus!
