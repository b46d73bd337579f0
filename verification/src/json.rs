//! A small JSON document model and a verified serializer.
//!
//! Values are modelled by [`JsonValue`]; [`json_of`] gives the exact byte
//! sequence the serializer emits. All output is ASCII: characters outside
//! the printable ASCII range are emitted as `\u` escapes, so the bytes of a
//! document are a pure function of the value.

use vstd::prelude::*;

verus! {

broadcast use vstd::seq::group_seq_axioms;

/// A JSON value: the members of an object keep the order in which the
/// caller supplied them.
pub enum JsonValue {
    Null,
    Bool(bool),
    Int(i64),
    Str(String),
    Arr(Vec<JsonValue>),
    Obj(Vec<Member>),
}

/// One `key: value` member of a JSON object.
pub struct Member {
    pub key: String,
    pub value: JsonValue,
}

/// The decimal digits of `n`, most significant first.
pub open spec fn dec_of(n: nat) -> Seq<u8>
    decreases n,
{
    if n < 10 {
        seq![(48 + n) as u8]
    } else {
        dec_of(n / 10) + seq![(48 + n % 10) as u8]
    }
}

/// The serialization of an integer: a minus sign for negative values,
/// then the decimal digits of its magnitude.
pub open spec fn int_bytes(n: int) -> Seq<u8> {
    if n < 0 {
        seq![45u8] + dec_of((-n) as nat)
    } else {
        dec_of(n as nat)
    }
}

/// The ASCII hexadecimal digit (lower case) for `n < 16`.
pub open spec fn hex_digit(n: int) -> u8 {
    if n < 10 {
        (48 + n) as u8
    } else {
        (87 + n) as u8
    }
}

/// A `\uXXXX` escape for a 16-bit code unit.
pub open spec fn u_escape(n: int) -> Seq<u8> {
    seq![92u8, 117u8, hex_digit(n / 0x1000 % 16), hex_digit(n / 0x100 % 16), hex_digit(
        n / 0x10 % 16,
    ), hex_digit(n % 16)]
}

/// The serialization of one character of a JSON string: printable ASCII
/// stands for itself, the quote and the backslash get two-byte escapes,
/// and everything else becomes `\u` escapes (a surrogate pair above the
/// basic multilingual plane), so the output holds ASCII bytes only.
pub open spec fn escape_char(c: char) -> Seq<u8> {
    let n = c as int;
    if c == '"' {
        seq![92u8, 34u8]
    } else if c == '\\' {
        seq![92u8, 92u8]
    } else if 0x20 <= n < 0x7f {
        seq![n as u8]
    } else if n <= 0xffff {
        u_escape(n)
    } else {
        u_escape(0xd800 + (n - 0x10000) / 0x400) + u_escape(0xdc00 + (n - 0x10000) % 0x400)
    }
}

/// The serialization of the characters of a JSON string, excluding the
/// surrounding quotes.
pub open spec fn escaped(s: Seq<char>) -> Seq<u8>
    decreases s.len(),
{
    if s.len() == 0 {
        Seq::empty()
    } else {
        escape_char(s[0]) + escaped(s.skip(1))
    }
}

/// The exact bytes the serializer emits for `v`.
pub open spec fn json_of(v: JsonValue) -> Seq<u8>
    decreases v,
{
    match v {
        JsonValue::Null => seq![110u8, 117u8, 108u8, 108u8],
        JsonValue::Bool(b) => if b {
            seq![116u8, 114u8, 117u8, 101u8]
        } else {
            seq![102u8, 97u8, 108u8, 115u8, 101u8]
        },
        JsonValue::Int(n) => int_bytes(n as int),
        JsonValue::Str(s) => seq![34u8] + escaped(s@) + seq![34u8],
        JsonValue::Arr(es) => seq![91u8] + elems_bytes(es@) + seq![93u8],
        JsonValue::Obj(ms) => seq![123u8] + members_bytes(ms@) + seq![125u8],
    }
}

/// The comma-separated serializations of the elements of an array.
pub open spec fn elems_bytes(es: Seq<JsonValue>) -> Seq<u8>
    decreases es,
{
    if es.len() == 0 {
        Seq::empty()
    } else if es.len() == 1 {
        json_of(es[0])
    } else {
        elems_bytes(es.drop_last()) + seq![44u8] + json_of(es.last())
    }
}

/// The comma-separated serializations of the members of an object, each
/// a quoted key, a colon, and the member's value.
pub open spec fn members_bytes(ms: Seq<Member>) -> Seq<u8>
    decreases ms,
{
    if ms.len() == 0 {
        Seq::empty()
    } else if ms.len() == 1 {
        member_bytes(ms[0])
    } else {
        members_bytes(ms.drop_last()) + seq![44u8] + member_bytes(ms.last())
    }
}

/// The serialization of one object member.
pub open spec fn member_bytes(m: Member) -> Seq<u8>
    decreases m,
{
    seq![34u8] + escaped(m.key@) + seq![34u8, 58u8] + json_of(m.value)
}

/// A number of at least ten has at least two digits.
pub proof fn lemma_dec_of_len(n: nat)
    ensures
        dec_of(n).len() >= 1,
        n >= 10 ==> dec_of(n).len() >= 2,
    decreases n,
{
    if n >= 10 {
        lemma_dec_of_len(n / 10);
    }
}

/// Distinct numbers have distinct digit sequences.
pub proof fn lemma_dec_of_injective(a: nat, b: nat)
    requires
        dec_of(a) == dec_of(b),
    ensures
        a == b,
    decreases a,
{
    if a < 10 && b < 10 {
        assert(dec_of(a)[0] == (48 + a) as u8);
        assert(dec_of(b)[0] == (48 + b) as u8);
    } else if a < 10 {
        lemma_dec_of_len(b);
        assert(dec_of(a).len() == 1);
    } else if b < 10 {
        lemma_dec_of_len(a);
        assert(dec_of(b).len() == 1);
    } else {
        assert(dec_of(a).drop_last() =~= dec_of(a / 10));
        assert(dec_of(b).drop_last() =~= dec_of(b / 10));
        assert(dec_of(a).last() == (48 + a % 10) as u8);
        assert(dec_of(b).last() == (48 + b % 10) as u8);
        lemma_dec_of_injective(a / 10, b / 10);
        assert(a == (a / 10) * 10 + a % 10);
        assert(b == (b / 10) * 10 + b % 10);
    }
}

/// The ASCII hexadecimal digit for `n < 16`.
fn hex_digit_byte(n: u32) -> (r: u8)
    requires
        n < 16,
    ensures
        r == hex_digit(n as int),
{
    if n < 10 {
        (48 + n) as u8
    } else {
        (87 + n) as u8
    }
}

/// Appends a `\uXXXX` escape for a 16-bit code unit.
fn push_u_escape(out: &mut Vec<u8>, n: u32)
    requires
        n <= 0xffff,
    ensures
        final(out)@ == old(out)@ + u_escape(n as int),
{
    out.push(92);
    out.push(117);
    let d0 = hex_digit_byte(n / 0x1000 % 16);
    let d1 = hex_digit_byte(n / 0x100 % 16);
    let d2 = hex_digit_byte(n / 0x10 % 16);
    let d3 = hex_digit_byte(n % 16);
    out.push(d0);
    out.push(d1);
    out.push(d2);
    out.push(d3);
    assert(out@ =~= old(out)@ + u_escape(n as int));
}

/// Appends the serialization of one character of a JSON string.
fn push_escape_char(out: &mut Vec<u8>, c: char)
    ensures
        final(out)@ == old(out)@ + escape_char(c),
{
    let n = c as u32;
    if c == '"' {
        out.push(92);
        out.push(34);
        assert(out@ =~= old(out)@ + escape_char(c));
    } else if c == '\\' {
        out.push(92);
        out.push(92);
        assert(out@ =~= old(out)@ + escape_char(c));
    } else if 0x20 <= n && n < 0x7f {
        out.push(n as u8);
        assert(out@ =~= old(out)@ + escape_char(c));
    } else if n <= 0xffff {
        push_u_escape(out, n);
    } else {
        push_u_escape(out, 0xd800 + (n - 0x10000) / 0x400);
        push_u_escape(out, 0xdc00 + (n - 0x10000) % 0x400);
        assert(out@ =~= old(out)@ + escape_char(c));
    }
}

/// Appends the serialization of the characters of `s`, without quotes.
pub fn push_escaped(out: &mut Vec<u8>, s: &str)
    ensures
        final(out)@ == old(out)@ + escaped(s@),
{
    let len = s.unicode_len();
    let mut i: usize = 0;
    assert(s@.skip(0) =~= s@);
    while i < len
        invariant
            i <= len,
            len == s@.len(),
            out@ + escaped(s@.skip(i as int)) == old(out)@ + escaped(s@),
        decreases len - i,
    {
        let c = s.get_char(i);
        proof {
            assert(s@.skip(i as int)[0] == s@[i as int]);
            assert(s@.skip(i as int).skip(1) =~= s@.skip(i as int + 1));
        }
        push_escape_char(out, c);
        i = i + 1;
    }
    assert(s@.skip(len as int) =~= Seq::<char>::empty());
}

/// Appends the decimal digits of `n`.
fn push_dec(out: &mut Vec<u8>, n: u64)
    ensures
        final(out)@ == old(out)@ + dec_of(n as nat),
    decreases n,
{
    if n < 10 {
        out.push((48 + n) as u8);
    } else {
        push_dec(out, n / 10);
        out.push((48 + n % 10) as u8);
    }
}

/// Appends the serialization of an integer.
pub fn push_int(out: &mut Vec<u8>, n: i64)
    ensures
        final(out)@ == old(out)@ + int_bytes(n as int),
{
    if n < 0 {
        out.push(45);
        let m: u64 = if n == i64::MIN {
            9223372036854775808u64
        } else {
            (-n) as u64
        };
        assert(m as nat == (-(n as int)) as nat);
        push_dec(out, m);
        assert(out@ =~= old(out)@ + int_bytes(n as int));
    } else {
        push_dec(out, n as u64);
    }
}

/// Appends the serialization of `v`: exactly the bytes [`json_of`] gives.
pub fn write_json(v: &JsonValue, out: &mut Vec<u8>)
    ensures
        final(out)@ == old(out)@ + json_of(*v),
    decreases *v,
{
    match v {
        JsonValue::Null => {
            out.push(110);
            out.push(117);
            out.push(108);
            out.push(108);
            assert(out@ =~= old(out)@ + json_of(*v));
        },
        JsonValue::Bool(b) => {
            if *b {
                out.push(116);
                out.push(114);
                out.push(117);
                out.push(101);
            } else {
                out.push(102);
                out.push(97);
                out.push(108);
                out.push(115);
                out.push(101);
            }
            assert(out@ =~= old(out)@ + json_of(*v));
        },
        JsonValue::Int(n) => {
            push_int(out, *n);
        },
        JsonValue::Str(s) => {
            out.push(34);
            push_escaped(out, s.as_str());
            out.push(34);
            assert(out@ =~= old(out)@ + json_of(*v));
        },
        JsonValue::Arr(es) => {
            out.push(91);
            let ghost entry = out@;
            let mut i: usize = 0;
            while i < es.len()
                invariant
                    i <= es@.len(),
                    out@ == entry + elems_bytes(es@.take(i as int)),
                    forall|j: int| 0 <= j < es@.len() ==> decreases_to!(*v => es@[j]),
                decreases es@.len() - i,
            {
                if i > 0 {
                    out.push(44);
                }
                write_json(&es[i], out);
                proof {
                    assert(es@.take(i as int + 1).drop_last() =~= es@.take(i as int));
                    assert(es@.take(i as int + 1).last() == es@[i as int]);
                }
                i = i + 1;
            }
            assert(es@.take(es@.len() as int) =~= es@);
            out.push(93);
            assert(out@ =~= old(out)@ + json_of(*v));
        },
        JsonValue::Obj(ms) => {
            out.push(123);
            push_members(ms, out);
            out.push(125);
            assert(out@ =~= old(out)@ + json_of(*v));
        },
    }
}

/// Appends the comma-separated serializations of the members of an
/// object, without the surrounding braces: exactly [`members_bytes`].
pub fn push_members(ms: &Vec<Member>, out: &mut Vec<u8>)
    ensures
        final(out)@ == old(out)@ + members_bytes(ms@),
    decreases ms@,
{
    let ghost entry = out@;
    let mut i: usize = 0;
    while i < ms.len()
        invariant
            i <= ms@.len(),
            out@ == entry + members_bytes(ms@.take(i as int)),
            forall|j: int| 0 <= j < ms@.len() ==> decreases_to!(ms@ => ms@[j].value),
        decreases ms@.len() - i,
    {
        if i > 0 {
            out.push(44);
        }
        out.push(34);
        push_escaped(out, ms[i].key.as_str());
        out.push(34);
        out.push(58);
        write_json(&ms[i].value, out);
        proof {
            assert(ms@.take(i as int + 1).drop_last() =~= ms@.take(i as int));
            assert(ms@.take(i as int + 1).last() == ms@[i as int]);
            assert(member_bytes(ms@[i as int]) == seq![34u8] + escaped(ms@[i as int].key@)
                + seq![34u8, 58u8] + json_of(ms@[i as int].value));
            assert(out@ =~= entry + members_bytes(ms@.take(i as int + 1)));
        }
        i = i + 1;
    }
    assert(ms@.take(ms@.len() as int) =~= ms@);
}

/// Appending a member to an object extends its serialization by a comma
/// (when the object was not empty) and the member's own serialization.
pub proof fn lemma_members_snoc(ms: Seq<Member>, m: Member)
    ensures
        members_bytes(ms.push(m)) == if ms.len() == 0 {
            member_bytes(m)
        } else {
            members_bytes(ms) + seq![44u8] + member_bytes(m)
        },
{
    assert(ms.push(m).drop_last() =~= ms);
    assert(ms.push(m).last() == m);
}

/// The serialization of `v` as a byte vector.
pub fn to_json_bytes(v: &JsonValue) -> (r: Vec<u8>)
    ensures
        r@ == json_of(*v),
{
    let mut out: Vec<u8> = Vec::new();
    write_json(v, &mut out);
    out
}

} // verus!
