//! Opaque document identifiers, as the store assigns them: a 96-bit value
//! written externally as 24 hexadecimal digits.

use vstd::prelude::*;
use vstd::string::StringSliceAdditionalSpecFns;

verus! {

/// A document identifier, held as the 96-bit value of its 24 hexadecimal
/// digits: `hi` carries the first 8 digits, `lo` the last 16.
#[derive(Clone, Copy, Debug, PartialEq, Eq, Structural, Hash)]
pub struct DocId {
    pub hi: u32,
    pub lo: u64,
}

pub open spec fn is_hex_digit(b: u8) -> bool {
    (48 <= b <= 57) || (97 <= b <= 102) || (65 <= b <= 70)
}

/// Numeric value of one hexadecimal digit (`0-9`, `a-f`, `A-F`).
pub open spec fn hex_digit_value(b: u8) -> nat
    recommends
        is_hex_digit(b),
{
    if 48 <= b <= 57 {
        (b - 48) as nat
    } else if 97 <= b <= 102 {
        (b - 87) as nat
    } else {
        (b - 55) as nat
    }
}

/// Value of a big-endian string of hexadecimal digits.
pub open spec fn hex_value(s: Seq<u8>) -> nat
    decreases s.len(),
{
    if s.len() == 0 {
        0
    } else {
        hex_value(s.drop_last()) * 16 + hex_digit_value(s.last())
    }
}

pub open spec fn pow16(n: nat) -> nat
    decreases n,
{
    if n == 0 {
        1
    } else {
        16 * pow16((n - 1) as nat)
    }
}

/// A well-formed external id: exactly 24 hexadecimal digits.
pub open spec fn valid_doc_id_bytes(s: Seq<u8>) -> bool {
    s.len() == 24 && (forall|i: int| 0 <= i < 24 ==> is_hex_digit(#[trigger] s[i]))
}

/// The identifier a well-formed 24-digit string denotes.
pub open spec fn doc_id_of_bytes(s: Seq<u8>) -> DocId
    recommends
        valid_doc_id_bytes(s),
{
    DocId {
        hi: hex_value(s.subrange(0, 8)) as u32,
        lo: hex_value(s.subrange(8, 24)) as u64,
    }
}

pub proof fn lemma_pow16_mono(a: nat, b: nat)
    requires
        a <= b,
    ensures
        pow16(a) <= pow16(b),
    decreases b,
{
    if a < b {
        lemma_pow16_mono(a, (b - 1) as nat);
    }
}

pub proof fn lemma_hex_value_bound(s: Seq<u8>)
    requires
        forall|i: int| 0 <= i < s.len() ==> is_hex_digit(#[trigger] s[i]),
    ensures
        hex_value(s) < pow16(s.len()),
    decreases s.len(),
{
    if s.len() > 0 {
        lemma_hex_value_bound(s.drop_last());
    }
}

fn hex_digit_of(b: u8) -> (r: Option<u8>)
    ensures
        r is Some <==> is_hex_digit(b),
        r is Some ==> r->0 == hex_digit_value(b),
{
    if b >= 48 && b <= 57 {
        Some(b - 48)
    } else if b >= 97 && b <= 102 {
        Some(b - 87)
    } else if b >= 65 && b <= 70 {
        Some(b - 55)
    } else {
        None
    }
}

/// Parses the digits of `b` in positions `start .. end` as one big-endian
/// hexadecimal number; at most 16 digits, so the value fits in a `u64`.
fn parse_hex_u64(b: &[u8], start: usize, end: usize) -> (r: Option<u64>)
    requires
        start <= end <= b@.len(),
        end - start <= 16,
    ensures
        r is Some <==> (forall|i: int| start <= i < end ==> is_hex_digit(#[trigger] b@[i])),
        r is Some ==> r->0 == hex_value(b@.subrange(start as int, end as int)),
{
    let mut acc: u64 = 0;
    let mut i: usize = start;
    while i < end
        invariant
            start <= i <= end <= b@.len(),
            end - start <= 16,
            forall|j: int| start <= j < i ==> is_hex_digit(#[trigger] b@[j]),
            acc == hex_value(b@.subrange(start as int, i as int)),
            acc < pow16((i - start) as nat),
        decreases end - i,
    {
        let d = match hex_digit_of(b[i]) {
            Some(d) => d,
            None => {
                return None;
            },
        };
        proof {
            let pre = b@.subrange(start as int, i as int);
            let post = b@.subrange(start as int, i + 1);
            assert(post.drop_last() =~= pre);
            assert(post.last() == b@[i as int]);
            lemma_pow16_mono((i - start + 1) as nat, 16);
            assert(pow16(16) == 0x1_0000_0000_0000_0000) by {
                reveal_with_fuel(pow16, 17);
            }
        }
        acc = acc * 16 + d as u64;
        i = i + 1;
    }
    Some(acc)
}

/// Parses an external account or document id. Accepts exactly the
/// well-formed 24-hexadecimal-digit strings.
pub fn parse_doc_id(s: &str) -> (r: Option<DocId>)
    ensures
        r is Some <==> valid_doc_id_bytes(s.spec_bytes()),
        r is Some ==> r->0 == doc_id_of_bytes(s.spec_bytes()),
{
    parse_doc_id_bytes(s.as_bytes())
}

/// Parses an external id given as bytes. Accepts exactly the well-formed
/// 24-hexadecimal-digit strings.
pub fn parse_doc_id_bytes(b: &[u8]) -> (r: Option<DocId>)
    ensures
        r is Some <==> valid_doc_id_bytes(b@),
        r is Some ==> r->0 == doc_id_of_bytes(b@),
{
    if b.len() != 24 {
        return None;
    }
    let hi64 = match parse_hex_u64(b, 0, 8) {
        Some(v) => v,
        None => {
            return None;
        },
    };
    let lo = match parse_hex_u64(b, 8, 24) {
        Some(v) => v,
        None => {
            return None;
        },
    };
    proof {
        lemma_hex_value_bound(b@.subrange(0, 8));
        assert(pow16(8) == 0x1_0000_0000) by {
            reveal_with_fuel(pow16, 9);
        }
    }
    Some(DocId { hi: hi64 as u32, lo })
}

/// Putting one digit in front raises the rest by one place.
proof fn lemma_hex_value_prepend(d: u8, s: Seq<u8>)
    ensures
        hex_value(seq![d] + s) == hex_digit_value(d) * pow16(s.len()) + hex_value(s),
    decreases s.len(),
{
    let t = seq![d] + s;
    if s.len() == 0 {
        assert(t.len() == 1);
        assert(t.drop_last() =~= Seq::<u8>::empty());
        assert(t.last() == d);
        assert(hex_value(t.drop_last()) == 0);
        assert(hex_value(t) == hex_digit_value(d));
        assert(pow16(s.len()) == 1);
        assert(hex_value(s) == 0);
    } else {
        assert(t.drop_last() =~= seq![d] + s.drop_last());
        assert(t.last() == s.last());
        lemma_hex_value_prepend(d, s.drop_last());
        let a = hex_digit_value(d);
        let p = pow16((s.len() - 1) as nat);
        let b = hex_value(s.drop_last());
        assert(pow16(s.len()) == 16 * p);
        assert(hex_value(t) == (a * p + b) * 16 + hex_digit_value(s.last()));
        assert((a * p + b) * 16 == a * (16 * p) + b * 16) by (nonlinear_arith);
        assert(hex_value(s) == b * 16 + hex_digit_value(s.last()));
    }
}

/// Writes the lowest `count` hexadecimal digits of `value` into
/// `out[end - count .. end]`, big-endian and lower-case, leaving every
/// other position as it was.
fn write_hex(out: &mut Vec<u8>, end: usize, count: usize, value: u64)
    requires
        count <= end <= old(out)@.len(),
        value < pow16(count as nat),
    ensures
        final(out)@.len() == old(out)@.len(),
        forall|i: int|
            0 <= i < old(out)@.len() && !(end - count <= i < end) ==> final(out)@[i] == old(
                out,
            )@[i],
        forall|i: int| end - count <= i < end ==> is_hex_digit(#[trigger] final(out)@[i]),
        hex_value(final(out)@.subrange(end - count, end as int)) == value,
{
    let mut v: u64 = value;
    let mut j: usize = 0;
    proof {
        assert(pow16(0) == 1);
        assert(out@.subrange(end as int, end as int) =~= Seq::<u8>::empty());
        assert(hex_value(Seq::<u8>::empty()) == 0);
    }
    while j < count
        invariant
            count <= end <= out@.len(),
            out@.len() == old(out)@.len(),
            0 <= j <= count,
            forall|i: int|
                0 <= i < old(out)@.len() && !(end - j <= i < end) ==> out@[i] == old(out)@[i],
            forall|i: int| end - j <= i < end ==> is_hex_digit(#[trigger] out@[i]),
            value == v * pow16(j as nat) + hex_value(out@.subrange(end - j, end as int)),
            v < pow16((count - j) as nat),
        decreases count - j,
    {
        let d = (v % 16) as u8;
        let dd = if d < 10 {
            48 + d
        } else {
            87 + d
        };
        let ghost before = out@;
        let pos = end - 1 - j;
        out.set(pos, dd);
        proof {
            assert(out@.subrange(end - j, end as int) =~= before.subrange(end - j, end as int));
            assert(out@.subrange(end - (j + 1), end as int) =~= seq![dd] + before.subrange(
                end - j,
                end as int,
            ));
            lemma_hex_value_prepend(dd, before.subrange(end - j, end as int));
            assert(hex_digit_value(dd) == v % 16);
            assert(v * pow16(j as nat) == (v % 16) * pow16(j as nat) + (v / 16) * (16 * pow16(
                j as nat,
            ))) by (nonlinear_arith);
            assert(v / 16 < pow16((count - j - 1) as nat)) by {
                assert(pow16((count - j) as nat) == 16 * pow16((count - j - 1) as nat));
                assert(v < 16 * pow16((count - j - 1) as nat) ==> v / 16 < pow16(
                    (count - j - 1) as nat,
                )) by (nonlinear_arith);
            }
        }
        v = v / 16;
        j = j + 1;
    }
    proof {
        assert(pow16(0) == 1);
        assert(v == 0);
    }
}

/// Renders an id as its external 24-digit lower-case hexadecimal form:
/// exactly the string that parses back to the id.
pub fn doc_id_hex_bytes(id: DocId) -> (r: Vec<u8>)
    ensures
        valid_doc_id_bytes(r@),
        doc_id_of_bytes(r@) == id,
{
    let mut out: Vec<u8> = vec![48u8; 24];
    proof {
        assert(pow16(16) == 0x1_0000_0000_0000_0000) by {
            reveal_with_fuel(pow16, 17);
        }
        assert(pow16(8) == 0x1_0000_0000) by {
            reveal_with_fuel(pow16, 9);
        }
    }
    write_hex(&mut out, 24, 16, id.lo);
    let ghost mid = out@;
    write_hex(&mut out, 8, 8, id.hi as u64);
    proof {
        assert(out@.subrange(8, 24) =~= mid.subrange(8, 24));
        lemma_hex_value_bound(out@.subrange(0, 8));
        lemma_hex_value_bound(out@.subrange(8, 24));
        assert(doc_id_of_bytes(out@) == id);
    }
    out
}

} // verus!
