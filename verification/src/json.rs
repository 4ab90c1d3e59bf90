//! The JSON shapes the service speaks: rendering person records and lists of
//! them, and parsing the `{"name": ...}` request body, byte for byte.

use vstd::prelude::*;
use crate::num::dec_rep;
use crate::num::u64_to_dec;
use crate::store::Person;
use crate::store::persons_view;

verus! {

/// The lower-case hex digit for a value below sixteen.
pub open spec fn hex_digit(v: nat) -> u8 {
    if v < 10 {
        (48 + v) as u8
    } else {
        (87 + v) as u8
    }
}

/// How one byte of a name is escaped inside a rendered JSON string: quote,
/// backslash and the named control characters get short escapes, other
/// control bytes a `\u00..` escape, and everything else passes through.
pub open spec fn esc_byte(b: u8) -> Seq<u8> {
    if b == 34 {
        seq![92u8, 34u8]
    } else if b == 92 {
        seq![92u8, 92u8]
    } else if b == 8 {
        seq![92u8, 98u8]
    } else if b == 12 {
        seq![92u8, 102u8]
    } else if b == 10 {
        seq![92u8, 110u8]
    } else if b == 13 {
        seq![92u8, 114u8]
    } else if b == 9 {
        seq![92u8, 116u8]
    } else if b < 32 {
        seq![92u8, 117u8, 48u8, 48u8, hex_digit((b / 16) as nat), hex_digit((b % 16) as nat)]
    } else {
        seq![b]
    }
}

/// A whole name escaped for the inside of a JSON string.
pub open spec fn escaped(s: Seq<u8>) -> Seq<u8>
    decreases s.len(),
{
    if s.len() == 0 {
        Seq::empty()
    } else {
        escaped(s.drop_last()) + esc_byte(s.last())
    }
}

/// The bytes `{"id":`.
pub open spec fn lit_id_open() -> Seq<u8> {
    seq![123u8, 34u8, 105u8, 100u8, 34u8, 58u8]
}

/// The bytes `,"name":"`.
pub open spec fn lit_name_mid() -> Seq<u8> {
    seq![44u8, 34u8, 110u8, 97u8, 109u8, 101u8, 34u8, 58u8, 34u8]
}

/// The bytes `"}`.
pub open spec fn lit_str_close() -> Seq<u8> {
    seq![34u8, 125u8]
}

/// The bytes `{"list":[`.
pub open spec fn lit_list_open() -> Seq<u8> {
    seq![123u8, 34u8, 108u8, 105u8, 115u8, 116u8, 34u8, 58u8, 91u8]
}

/// The bytes `]}`.
pub open spec fn lit_list_close() -> Seq<u8> {
    seq![93u8, 125u8]
}

/// One person record rendered as `{"id":<id>,"name":"<escaped name>"}`.
pub open spec fn spec_person_json(id: int, name: Seq<u8>) -> Seq<u8>
    recommends
        id >= 0,
{
    lit_id_open() + dec_rep(id as nat) + lit_name_mid() + escaped(name) + lit_str_close()
}

/// The records rendered one after another, separated by commas.
pub open spec fn items_json(s: Seq<(int, Seq<u8>)>) -> Seq<u8>
    decreases s.len(),
{
    if s.len() == 0 {
        Seq::empty()
    } else if s.len() == 1 {
        spec_person_json(s[0].0, s[0].1)
    } else {
        items_json(s.drop_last()) + seq![44u8] + spec_person_json(s.last().0, s.last().1)
    }
}

/// A whole collection rendered as `{"list":[...]}`.
pub open spec fn spec_list_json(s: Seq<(int, Seq<u8>)>) -> Seq<u8> {
    lit_list_open() + items_json(s) + lit_list_close()
}

/// Appends a copy of `src` to `out`.
pub fn append_bytes(out: &mut Vec<u8>, src: &Vec<u8>)
    ensures
        final(out)@ == old(out)@ + src@,
{
    let mut i: usize = 0;
    proof {
        assert(out@ =~= old(out)@ + src@.take(0));
    }
    while i < src.len()
        invariant
            i <= src.len(),
            out@ == old(out)@ + src@.take(i as int),
        decreases src.len() - i,
    {
        out.push(src[i]);
        proof {
            assert(out@ =~= old(out)@ + src@.take(i + 1));
        }
        i = i + 1;
    }
    proof {
        assert(src@.take(src.len() as int) =~= src@);
    }
}

/// Appends the escape of one byte to `out`.
fn push_esc_byte(out: &mut Vec<u8>, b: u8)
    ensures
        final(out)@ == old(out)@ + esc_byte(b),
{
    if b == 34 {
        out.push(92);
        out.push(34);
    } else if b == 92 {
        out.push(92);
        out.push(92);
    } else if b == 8 {
        out.push(92);
        out.push(98);
    } else if b == 12 {
        out.push(92);
        out.push(102);
    } else if b == 10 {
        out.push(92);
        out.push(110);
    } else if b == 13 {
        out.push(92);
        out.push(114);
    } else if b == 9 {
        out.push(92);
        out.push(116);
    } else if b < 32 {
        out.push(92);
        out.push(117);
        out.push(48);
        out.push(48);
        let hi = b / 16;
        let lo = b % 16;
        out.push(if hi < 10 { 48 + hi } else { 87 + hi });
        out.push(if lo < 10 { 48 + lo } else { 87 + lo });
    } else {
        out.push(b);
    }
    proof {
        assert(out@ =~= old(out)@ + esc_byte(b));
    }
}

/// Appends the escaped form of a whole name to `out`.
pub fn append_escaped(out: &mut Vec<u8>, name: &Vec<u8>)
    ensures
        final(out)@ == old(out)@ + escaped(name@),
{
    let mut i: usize = 0;
    proof {
        assert(escaped(name@.take(0)) =~= Seq::<u8>::empty());
        assert(out@ =~= old(out)@ + escaped(name@.take(0)));
    }
    while i < name.len()
        invariant
            i <= name.len(),
            out@ == old(out)@ + escaped(name@.take(i as int)),
        decreases name.len() - i,
    {
        let ghost o0 = out@;
        push_esc_byte(out, name[i]);
        proof {
            assert(name@.take(i + 1).drop_last() =~= name@.take(i as int));
            assert(name@.take(i + 1).last() == name@[i as int]);
            assert(escaped(name@.take(i + 1)) == escaped(name@.take(i as int)) + esc_byte(
                name@[i as int],
            ));
            assert(out@ =~= old(out)@ + escaped(name@.take(i + 1)));
        }
        i = i + 1;
    }
    proof {
        assert(name@.take(name.len() as int) =~= name@);
    }
}

/// Appends `{"id":<id>,"name":"<escaped name>"}` to `out`.
fn append_person_json(out: &mut Vec<u8>, id: u64, name: &Vec<u8>)
    ensures
        final(out)@ == old(out)@ + spec_person_json(id as int, name@),
{
    out.push(123);
    out.push(34);
    out.push(105);
    out.push(100);
    out.push(34);
    out.push(58);
    proof {
        assert(out@ =~= old(out)@ + lit_id_open());
    }
    let ghost o1 = out@;
    let dec = u64_to_dec(id);
    append_bytes(out, &dec);
    let ghost o2 = out@;
    out.push(44);
    out.push(34);
    out.push(110);
    out.push(97);
    out.push(109);
    out.push(101);
    out.push(34);
    out.push(58);
    out.push(34);
    proof {
        assert(out@ =~= o2 + lit_name_mid());
    }
    let ghost o3 = out@;
    append_escaped(out, name);
    out.push(34);
    out.push(125);
    proof {
        assert(out@ =~= o3 + escaped(name@) + lit_str_close());
        assert(out@ =~= old(out)@ + spec_person_json(id as int, name@));
    }
}

/// Renders one person record as JSON.
pub fn person_json(id: u64, name: &Vec<u8>) -> (r: Vec<u8>)
    ensures
        r@ == spec_person_json(id as int, name@),
{
    let mut out: Vec<u8> = Vec::new();
    append_person_json(&mut out, id, name);
    proof {
        assert(out@ =~= spec_person_json(id as int, name@));
    }
    out
}

/// Renders a whole collection as `{"list":[...]}`.
pub fn list_json(list: &Vec<Person>) -> (r: Vec<u8>)
    ensures
        r@ == spec_list_json(persons_view(list@)),
{
    let ghost pv = persons_view(list@);
    let mut out: Vec<u8> = Vec::new();
    out.push(123);
    out.push(34);
    out.push(108);
    out.push(105);
    out.push(115);
    out.push(116);
    out.push(34);
    out.push(58);
    out.push(91);
    proof {
        assert(pv.take(0) =~= Seq::<(int, Seq<u8>)>::empty());
        assert(out@ =~= lit_list_open() + items_json(pv.take(0)));
    }
    let mut i: usize = 0;
    while i < list.len()
        invariant
            i <= list.len(),
            pv == persons_view(list@),
            out@ == lit_list_open() + items_json(pv.take(i as int)),
        decreases list.len() - i,
    {
        let ghost o0 = out@;
        if i > 0 {
            out.push(44);
        }
        let p = &list[i];
        append_person_json(&mut out, p.id, &p.name);
        proof {
            assert(pv.len() == list@.len());
            assert(pv[i as int] == list@[i as int]@);
            assert(pv.take(i + 1).drop_last() =~= pv.take(i as int));
            assert(pv.take(i + 1).last() == pv[i as int]);
            if i == 0 {
                assert(items_json(pv.take(1)) == spec_person_json(pv[0].0, pv[0].1));
                assert(out@ =~= lit_list_open() + items_json(pv.take(i + 1)));
            } else {
                assert(items_json(pv.take(i + 1)) == items_json(pv.take(i as int)) + seq![44u8]
                    + spec_person_json(pv[i as int].0, pv[i as int].1));
                assert(out@ =~= lit_list_open() + items_json(pv.take(i + 1)));
            }
        }
        i = i + 1;
    }
    out.push(93);
    out.push(125);
    proof {
        assert(pv.take(list.len() as int) =~= pv);
        assert(out@ =~= spec_list_json(pv));
    }
    out
}

} // verus!

verus! {

/// JSON whitespace.
pub open spec fn is_ws(b: u8) -> bool {
    b == 32 || b == 9 || b == 10 || b == 13
}

/// The first position at or after `i` that does not hold whitespace.
pub open spec fn skip_ws(s: Seq<u8>, i: int) -> int
    decreases s.len() - i when 0 <= i <= s.len()
{
    if i < s.len() && is_ws(s[i]) {
        skip_ws(s, i + 1)
    } else {
        i
    }
}

/// The value of an ASCII hex digit, or -1.
pub open spec fn hex_val(b: u8) -> int {
    if 48 <= b <= 57 {
        b - 48
    } else if 65 <= b <= 70 {
        b - 55
    } else if 97 <= b <= 102 {
        b - 87
    } else {
        -1
    }
}

/// The value of four hex digits starting at `i`, or -1 if any is invalid.
pub open spec fn hex4(s: Seq<u8>, i: int) -> int
    recommends
        0 <= i && i + 4 <= s.len(),
{
    if hex_val(s[i]) < 0 || hex_val(s[i + 1]) < 0 || hex_val(s[i + 2]) < 0 || hex_val(
        s[i + 3],
    ) < 0 {
        -1
    } else {
        hex_val(s[i]) * 4096 + hex_val(s[i + 1]) * 256 + hex_val(s[i + 2]) * 16 + hex_val(s[i + 3])
    }
}

/// The UTF-8 bytes of a code point.
pub open spec fn utf8_encode(c: int) -> Seq<u8>
    recommends
        0 <= c < 0x110000,
{
    if c < 0x80 {
        seq![c as u8]
    } else if c < 0x800 {
        seq![(192 + c / 64) as u8, (128 + c % 64) as u8]
    } else if c < 0x10000 {
        seq![(224 + c / 4096) as u8, (128 + (c / 64) % 64) as u8, (128 + c % 64) as u8]
    } else {
        seq![
            (240 + c / 262144) as u8,
            (128 + (c / 4096) % 64) as u8,
            (128 + (c / 64) % 64) as u8,
            (128 + c % 64) as u8,
        ]
    }
}

/// What a short escape after a backslash stands for, if it is one.
pub open spec fn simple_esc(e: u8) -> Option<u8> {
    if e == 34 {
        Some(34u8)
    } else if e == 92 {
        Some(92u8)
    } else if e == 47 {
        Some(47u8)
    } else if e == 98 {
        Some(8u8)
    } else if e == 102 {
        Some(12u8)
    } else if e == 110 {
        Some(10u8)
    } else if e == 114 {
        Some(13u8)
    } else if e == 116 {
        Some(9u8)
    } else {
        None
    }
}

/// Parses the rest of a JSON string, from just after the opening quote: the
/// decoded bytes and the position just after the closing quote. Raw control
/// bytes, bad escapes and lone surrogates fail; surrogate pairs combine.
pub open spec fn parse_str_body(s: Seq<u8>, i: int) -> Option<(Seq<u8>, int)>
    decreases s.len() - i when 0 <= i <= s.len()
{
    if i >= s.len() {
        None
    } else if s[i] == 34 {
        Some((Seq::empty(), i + 1))
    } else if s[i] == 92 {
        if i + 2 > s.len() {
            None
        } else if s[i + 1] == 117 {
            if i + 6 > s.len() {
                None
            } else {
                let c = hex4(s, i + 2);
                if c < 0 {
                    None
                } else if 0xD800 <= c < 0xDC00 {
                    if i + 12 > s.len() || s[i + 6] != 92 || s[i + 7] != 117 {
                        None
                    } else {
                        let c2 = hex4(s, i + 8);
                        if 0xDC00 <= c2 < 0xE000 {
                            match parse_str_body(s, i + 12) {
                                None => None,
                                Some(r) => Some(
                                    (
                                        utf8_encode(
                                            0x10000 + (c - 0xD800) * 1024 + (c2 - 0xDC00),
                                        ) + r.0,
                                        r.1,
                                    ),
                                ),
                            }
                        } else {
                            None
                        }
                    }
                } else if 0xDC00 <= c < 0xE000 {
                    None
                } else {
                    match parse_str_body(s, i + 6) {
                        None => None,
                        Some(r) => Some((utf8_encode(c) + r.0, r.1)),
                    }
                }
            }
        } else {
            match simple_esc(s[i + 1]) {
                None => None,
                Some(x) => match parse_str_body(s, i + 2) {
                    None => None,
                    Some(r) => Some((seq![x] + r.0, r.1)),
                },
            }
        }
    } else if s[i] < 32 {
        None
    } else {
        match parse_str_body(s, i + 1) {
            None => None,
            Some(r) => Some((seq![s[i]] + r.0, r.1)),
        }
    }
}

/// The parse from `start` is the parse from `i` with `acc` already decoded.
pub open spec fn psb_cont(s: Seq<u8>, start: int, acc: Seq<u8>, i: int) -> bool {
    match parse_str_body(s, i) {
        None => parse_str_body(s, start) is None,
        Some(r) => parse_str_body(s, start) == Some::<(Seq<u8>, int)>((acc + r.0, r.1)),
    }
}

/// The bytes `"name"`, quotes included.
pub open spec fn lit_key_name() -> Seq<u8> {
    seq![34u8, 110u8, 97u8, 109u8, 101u8, 34u8]
}

/// How a request body parses: exactly a JSON object with the single field
/// `name` holding a string, with whitespace allowed between the tokens.
pub open spec fn parse_body_spec(s: Seq<u8>) -> Option<Seq<u8>> {
    let i = skip_ws(s, 0);
    if i < s.len() && s[i] == 123 {
        let k = skip_ws(s, i + 1);
        if k + 6 <= s.len() && s.subrange(k, k + 6) == lit_key_name() {
            let c = skip_ws(s, k + 6);
            if c < s.len() && s[c] == 58 {
                let q = skip_ws(s, c + 1);
                if q < s.len() && s[q] == 34 {
                    match parse_str_body(s, q + 1) {
                        None => None,
                        Some(r) => {
                            let e = skip_ws(s, r.1);
                            if e < s.len() && s[e] == 125 && skip_ws(s, e + 1) == s.len() {
                                Some(r.0)
                            } else {
                                None
                            }
                        },
                    }
                } else {
                    None
                }
            } else {
                None
            }
        } else {
            None
        }
    } else {
        None
    }
}

} // verus!

verus! {

/// Skips whitespace from `start`.
fn skip_ws_exec(s: &Vec<u8>, start: usize) -> (r: usize)
    requires
        start <= s.len(),
    ensures
        r as int == skip_ws(s@, start as int),
        start <= r <= s.len(),
{
    let mut i: usize = start;
    while i < s.len() && (s[i] == 32 || s[i] == 9 || s[i] == 10 || s[i] == 13)
        invariant
            start <= i <= s.len(),
            skip_ws(s@, start as int) == skip_ws(s@, i as int),
        decreases s.len() - i,
    {
        i = i + 1;
    }
    i
}

/// The value of one hex digit byte, if it is one.
fn hex_val_exec(b: u8) -> (r: Option<u8>)
    ensures
        r is None ==> hex_val(b) < 0,
        r matches Some(v) ==> v as int == hex_val(b) && v < 16,
{
    if 48 <= b && b <= 57 {
        Some(b - 48)
    } else if 65 <= b && b <= 70 {
        Some(b - 55)
    } else if 97 <= b && b <= 102 {
        Some(b - 87)
    } else {
        None
    }
}

/// The value of four hex digit bytes starting at `i`, if all four are digits.
fn hex4_exec(s: &Vec<u8>, i: usize) -> (r: Option<u32>)
    requires
        i + 4 <= s.len(),
    ensures
        r is None ==> hex4(s@, i as int) < 0,
        r matches Some(c) ==> c as int == hex4(s@, i as int) && c < 0x10000,
{
    let a = hex_val_exec(s[i]);
    let b = hex_val_exec(s[i + 1]);
    let c = hex_val_exec(s[i + 2]);
    let d = hex_val_exec(s[i + 3]);
    match (a, b, c, d) {
        (Some(a), Some(b), Some(c), Some(d)) => Some(
            (a as u32) * 4096 + (b as u32) * 256 + (c as u32) * 16 + (d as u32),
        ),
        _ => None,
    }
}

/// Appends the UTF-8 bytes of a code point to `out`.
fn push_utf8(out: &mut Vec<u8>, c: u32)
    requires
        c < 0x110000,
    ensures
        final(out)@ == old(out)@ + utf8_encode(c as int),
{
    if c < 0x80 {
        out.push(c as u8);
    } else if c < 0x800 {
        proof {
            assert(c / 64 < 32) by (nonlinear_arith)
                requires
                    c < 0x800,
            ;
        }
        out.push(192 + (c / 64) as u8);
        out.push(128 + (c % 64) as u8);
    } else if c < 0x10000 {
        proof {
            assert(c / 4096 < 16) by (nonlinear_arith)
                requires
                    c < 0x10000,
            ;
        }
        out.push(224 + (c / 4096) as u8);
        out.push(128 + ((c / 64) % 64) as u8);
        out.push(128 + (c % 64) as u8);
    } else {
        proof {
            assert(c / 262144 < 5) by (nonlinear_arith)
                requires
                    c < 0x110000,
            ;
        }
        out.push(240 + (c / 262144) as u8);
        out.push(128 + ((c / 4096) % 64) as u8);
        out.push(128 + ((c / 64) % 64) as u8);
        out.push(128 + (c % 64) as u8);
    }
    proof {
        assert(out@ =~= old(out)@ + utf8_encode(c as int));
    }
}

/// Decodes one short escape byte, if it is one.
fn simple_esc_exec(e: u8) -> (r: Option<u8>)
    ensures
        r == simple_esc(e),
{
    if e == 34 {
        Some(34)
    } else if e == 92 {
        Some(92)
    } else if e == 47 {
        Some(47)
    } else if e == 98 {
        Some(8)
    } else if e == 102 {
        Some(12)
    } else if e == 110 {
        Some(10)
    } else if e == 114 {
        Some(13)
    } else if e == 116 {
        Some(9)
    } else {
        None
    }
}

/// Parses the rest of a JSON string, from just after the opening quote.
fn parse_string_rest(s: &Vec<u8>, start: usize) -> (r: Option<(Vec<u8>, usize)>)
    requires
        start <= s.len(),
    ensures
        r is None ==> parse_str_body(s@, start as int) is None,
        r matches Some(p) ==> parse_str_body(s@, start as int) == Some::<(Seq<u8>, int)>(
            (p.0@, p.1 as int),
        ) && p.1 <= s.len(),
{
    let mut acc: Vec<u8> = Vec::new();
    let mut i: usize = start;
    proof {
        if parse_str_body(s@, start as int) is Some {
            let r0 = parse_str_body(s@, start as int).unwrap();
            assert(Seq::<u8>::empty() + r0.0 =~= r0.0);
        }
        assert(psb_cont(s@, start as int, acc@, i as int));
    }
    while i < s.len()
        invariant
            start <= i <= s.len(),
            psb_cont(s@, start as int, acc@, i as int),
        decreases s.len() - i,
    {
        let ghost a0 = acc@;
        let b = s[i];
        if b == 34 {
            proof {
                assert(parse_str_body(s@, i as int) == Some::<(Seq<u8>, int)>(
                    (Seq::empty(), i + 1),
                ));
                assert(a0 + Seq::<u8>::empty() =~= a0);
            }
            return Some((acc, i + 1));
        } else if b == 92 {
            let rem = s.len() - i;
            if rem < 2 {
                return None;
            }
            let e = s[i + 1];
            if e == 117 {
                if rem < 6 {
                    return None;
                }
                match hex4_exec(s, i + 2) {
                    None => {
                        return None;
                    },
                    Some(c) => {
                        if c >= 0xD800 && c < 0xDC00 {
                            if rem < 12 {
                                return None;
                            }
                            if s[i + 6] != 92 || s[i + 7] != 117 {
                                return None;
                            }
                            match hex4_exec(s, i + 8) {
                                None => {
                                    return None;
                                },
                                Some(c2) => {
                                    if c2 >= 0xDC00 && c2 < 0xE000 {
                                        let full: u32 = 0x10000 + (c - 0xD800) * 1024 + (c2
                                            - 0xDC00);
                                        push_utf8(&mut acc, full);
                                        proof {
                                            let pn = parse_str_body(s@, i + 12);
                                            if pn is Some {
                                                let r1 = pn.unwrap();
                                                assert(parse_str_body(s@, i as int)
                                                    == Some::<(Seq<u8>, int)>(
                                                    (utf8_encode(full as int) + r1.0, r1.1),
                                                ));
                                                assert(a0 + (utf8_encode(full as int) + r1.0) =~= (
                                                a0 + utf8_encode(full as int)) + r1.0);
                                            } else {
                                                assert(parse_str_body(s@, i as int) is None);
                                            }
                                        }
                                        i = i + 12;
                                    } else {
                                        return None;
                                    }
                                },
                            }
                        } else if c >= 0xDC00 && c < 0xE000 {
                            return None;
                        } else {
                            push_utf8(&mut acc, c);
                            proof {
                                let pn = parse_str_body(s@, i + 6);
                                if pn is Some {
                                    let r1 = pn.unwrap();
                                    assert(parse_str_body(s@, i as int) == Some::<(Seq<u8>, int)>(
                                        (utf8_encode(c as int) + r1.0, r1.1),
                                    ));
                                    assert(a0 + (utf8_encode(c as int) + r1.0) =~= (a0
                                        + utf8_encode(c as int)) + r1.0);
                                } else {
                                    assert(parse_str_body(s@, i as int) is None);
                                }
                            }
                            i = i + 6;
                        }
                    },
                }
            } else {
                match simple_esc_exec(e) {
                    None => {
                        return None;
                    },
                    Some(x) => {
                        acc.push(x);
                        proof {
                            let pn = parse_str_body(s@, i + 2);
                            if pn is Some {
                                let r1 = pn.unwrap();
                                assert(parse_str_body(s@, i as int) == Some::<(Seq<u8>, int)>(
                                    (seq![x] + r1.0, r1.1),
                                ));
                                assert(a0 + (seq![x] + r1.0) =~= (a0 + seq![x]) + r1.0);
                                assert(acc@ =~= a0 + seq![x]);
                            } else {
                                assert(parse_str_body(s@, i as int) is None);
                            }
                        }
                        i = i + 2;
                    },
                }
            }
        } else if b < 32 {
            return None;
        } else {
            acc.push(b);
            proof {
                let pn = parse_str_body(s@, i + 1);
                if pn is Some {
                    let r1 = pn.unwrap();
                    assert(parse_str_body(s@, i as int) == Some::<(Seq<u8>, int)>(
                        (seq![b] + r1.0, r1.1),
                    ));
                    assert(a0 + (seq![b] + r1.0) =~= (a0 + seq![b]) + r1.0);
                    assert(acc@ =~= a0 + seq![b]);
                } else {
                    assert(parse_str_body(s@, i as int) is None);
                }
            }
            i = i + 1;
        }
    }
    None
}

/// Parses a request body: `Some` exactly when the bytes are a JSON object
/// with the single field `name` holding a string, as `parse_body_spec` says.
pub fn parse_body(v: &Vec<u8>) -> (r: Option<Vec<u8>>)
    ensures
        r is None ==> parse_body_spec(v@) is None,
        r matches Some(n) ==> parse_body_spec(v@) == Some(n@),
{
    let i = skip_ws_exec(v, 0);
    if i >= v.len() || v[i] != 123 {
        return None;
    }
    let k = skip_ws_exec(v, i + 1);
    if v.len() - k < 6 {
        return None;
    }
    if v[k] != 34 || v[k + 1] != 110 || v[k + 2] != 97 || v[k + 3] != 109 || v[k + 4] != 101 || v[k
        + 5] != 34 {
        proof {
            assert(v@.subrange(k as int, k as int + 6) != lit_key_name()) by {
                let sub = v@.subrange(k as int, k as int + 6);
                assert(sub[0] == v@[k as int]);
                assert(sub[1] == v@[k as int + 1]);
                assert(sub[2] == v@[k as int + 2]);
                assert(sub[3] == v@[k as int + 3]);
                assert(sub[4] == v@[k as int + 4]);
                assert(sub[5] == v@[k as int + 5]);
            }
        }
        return None;
    }
    proof {
        assert(v@.subrange(k as int, k as int + 6) =~= lit_key_name());
    }
    let c = skip_ws_exec(v, k + 6);
    if c >= v.len() || v[c] != 58 {
        return None;
    }
    let q = skip_ws_exec(v, c + 1);
    if q >= v.len() || v[q] != 34 {
        return None;
    }
    match parse_string_rest(v, q + 1) {
        None => None,
        Some((name, j)) => {
            let e = skip_ws_exec(v, j);
            if e >= v.len() || v[e] != 125 {
                return None;
            }
            let f = skip_ws_exec(v, e + 1);
            if f != v.len() {
                return None;
            }
            Some(name)
        },
    }
}

} // verus!
