//! Pausing and restoring actors: an actor's full state is serialized into a
//! byte blob, and a resumed cell behaves as the original would have. The
//! format is length-prefixed and little-endian; parsing is stated as spec
//! functions that invert the encoding.

use crate::actor::{ActorBehavior, ActorCell, ActorId, RecorderActor, VMActor};
use crate::message::{DataView, Message, MessageData, MessageView};
use crate::value::{Value, ValueView};
use vstd::bytes::{
    lemma_auto_spec_u32_to_from_le_bytes, lemma_auto_spec_u64_to_from_le_bytes,
    spec_u32_from_le_bytes, spec_u32_to_le_bytes, spec_u64_from_le_bytes, spec_u64_to_le_bytes,
    u32_from_le_bytes, u32_to_le_bytes, u64_from_le_bytes, u64_to_le_bytes,
};
use vstd::prelude::*;
use vstd::utf8::is_scalar;

verus! {

/// Relies on `char::from_u32` of std: the conversion succeeds exactly on
/// Unicode scalar values, and then returns the character with that value.
pub assume_specification[ char::from_u32 ](u: u32) -> (r: Option<char>)
    ensures
        r is Some <==> is_scalar(u),
        r matches Some(c) ==> c as u32 == u,
;

/// One character, as four little-endian bytes of its scalar value.
pub open spec fn enc_char(c: char) -> Seq<u8> {
    spec_u32_to_le_bytes(c as u32)
}

/// A character sequence, character by character.
pub open spec fn enc_chars(s: Seq<char>) -> Seq<u8>
    decreases s.len(),
{
    if s.len() == 0 {
        Seq::empty()
    } else {
        enc_char(s[0]) + enc_chars(s.drop_first())
    }
}

/// A string: its character count, then its characters.
pub open spec fn enc_string(s: Seq<char>) -> Seq<u8> {
    spec_u64_to_le_bytes(s.len() as u64) + enc_chars(s)
}

/// Reads eight little-endian bytes.
pub open spec fn parse_u64(b: Seq<u8>, pos: int) -> Option<(u64, int)> {
    if 0 <= pos && pos + 8 <= b.len() {
        Some((spec_u64_from_le_bytes(b.subrange(pos, pos + 8)), pos + 8))
    } else {
        None
    }
}

/// Reads four little-endian bytes.
pub open spec fn parse_u32(b: Seq<u8>, pos: int) -> Option<(u32, int)> {
    if 0 <= pos && pos + 4 <= b.len() {
        Some((spec_u32_from_le_bytes(b.subrange(pos, pos + 4)), pos + 4))
    } else {
        None
    }
}

/// Reads one character: a scalar value on four bytes.
pub open spec fn parse_char(b: Seq<u8>, pos: int) -> Option<(char, int)> {
    match parse_u32(b, pos) {
        Option::Some((u, p)) => if is_scalar(u) {
            Option::Some(((u as char), p))
        } else {
            Option::None
        },
        Option::None => Option::None,
    }
}

/// Reads exactly `n` characters.
pub open spec fn parse_chars(b: Seq<u8>, pos: int, n: nat) -> Option<(Seq<char>, int)>
    decreases n,
{
    if n == 0 {
        Option::Some((Seq::empty(), pos))
    } else {
        match parse_char(b, pos) {
            Option::Some((c, p)) => match parse_chars(b, p, (n - 1) as nat) {
                Option::Some((s, p2)) => Option::Some((seq![c] + s, p2)),
                Option::None => Option::None,
            },
            Option::None => Option::None,
        }
    }
}

/// Reads a string: its character count, then its characters.
pub open spec fn parse_string(b: Seq<u8>, pos: int) -> Option<(Seq<char>, int)> {
    match parse_u64(b, pos) {
        Option::Some((n, p)) => parse_chars(b, p, n as nat),
        Option::None => Option::None,
    }
}

/// Character encodings are four bytes each.
pub proof fn lemma_enc_chars_len(s: Seq<char>)
    ensures
        enc_chars(s).len() == 4 * s.len(),
    decreases s.len(),
{
    lemma_auto_spec_u32_to_from_le_bytes();
    if s.len() > 0 {
        lemma_enc_chars_len(s.drop_first());
    }
}

/// Parsing eight bytes that encode `x` yields `x`.
pub proof fn lemma_parse_u64_enc(b: Seq<u8>, pos: int, x: u64)
    requires
        0 <= pos,
        pos + 8 <= b.len(),
        b.subrange(pos, pos + 8) == spec_u64_to_le_bytes(x),
    ensures
        parse_u64(b, pos) == Option::Some((x, pos + 8)),
{
    lemma_auto_spec_u64_to_from_le_bytes();
}

/// Parsing the four bytes that encode `c` yields `c`.
pub proof fn lemma_parse_char_enc(b: Seq<u8>, pos: int, c: char)
    requires
        0 <= pos,
        pos + 4 <= b.len(),
        b.subrange(pos, pos + 4) == enc_char(c),
    ensures
        parse_char(b, pos) == Option::Some((c, pos + 4)),
{
    lemma_auto_spec_u32_to_from_le_bytes();
    vstd::utf8::char_is_scalar(c);
    vstd::utf8::char_u32_cast(c, c as u32);
    assert(spec_u32_to_le_bytes(c as u32).len() == 4);
    assert(spec_u32_from_le_bytes(spec_u32_to_le_bytes(c as u32)) == c as u32);
}

/// Parsing the bytes that encode `s` yields `s`.
pub proof fn lemma_parse_chars_enc(b: Seq<u8>, pos: int, s: Seq<char>)
    requires
        0 <= pos,
        pos + enc_chars(s).len() <= b.len(),
        b.subrange(pos, pos + enc_chars(s).len()) == enc_chars(s),
    ensures
        parse_chars(b, pos, s.len()) == Option::Some((s, pos + enc_chars(s).len())),
    decreases s.len(),
{
    lemma_auto_spec_u32_to_from_le_bytes();
    lemma_enc_chars_len(s);
    if s.len() == 0 {
        assert(s =~= Seq::<char>::empty());
    } else {
        let rest = s.drop_first();
        lemma_enc_chars_len(rest);
        let whole = b.subrange(pos, pos + enc_chars(s).len());
        assert(spec_u32_to_le_bytes(s[0] as u32).len() == 4);
        assert(whole =~= enc_char(s[0]) + enc_chars(rest));
        assert(b.subrange(pos, pos + 4) =~= enc_char(s[0]));
        lemma_parse_char_enc(b, pos, s[0]);
        let tail = b.subrange(pos + 4, pos + 4 + enc_chars(rest).len());
        assert forall|k: int| 0 <= k < enc_chars(rest).len() implies tail[k] == enc_chars(
            rest,
        )[k] by {
            assert(whole[4 + k] == (enc_char(s[0]) + enc_chars(rest))[4 + k]);
            assert(whole[4 + k] == b[pos + 4 + k]);
        }
        assert(tail =~= enc_chars(rest));
        lemma_parse_chars_enc(b, pos + 4, rest);
        assert(seq![s[0]] + rest =~= s);
    }
}

/// Parsing the bytes that encode a string yields that string.
pub proof fn lemma_parse_string_enc(b: Seq<u8>, pos: int, s: Seq<char>)
    requires
        0 <= pos,
        s.len() <= u64::MAX,
        pos + enc_string(s).len() <= b.len(),
        b.subrange(pos, pos + enc_string(s).len()) == enc_string(s),
    ensures
        parse_string(b, pos) == Option::Some((s, pos + enc_string(s).len())),
{
    lemma_enc_chars_len(s);
    lemma_auto_spec_u64_to_from_le_bytes();
    let whole = b.subrange(pos, pos + enc_string(s).len());
    assert(spec_u64_to_le_bytes(s.len() as u64).len() == 8);
    assert(whole =~= spec_u64_to_le_bytes(s.len() as u64) + enc_chars(s));
    assert(b.subrange(pos, pos + 8) =~= spec_u64_to_le_bytes(s.len() as u64));
    lemma_parse_u64_enc(b, pos, s.len() as u64);
    let tail = b.subrange(pos + 8, pos + 8 + enc_chars(s).len());
    assert forall|k: int| 0 <= k < enc_chars(s).len() implies tail[k] == enc_chars(s)[k] by {
        assert(whole[8 + k] == (spec_u64_to_le_bytes(s.len() as u64) + enc_chars(s))[8 + k]);
        assert(whole[8 + k] == b[pos + 8 + k]);
    }
    assert(tail =~= enc_chars(s));
    lemma_parse_chars_enc(b, pos + 8, s);
}

/// Appends eight little-endian bytes.
fn write_u64(out: &mut Vec<u8>, x: u64)
    ensures
        final(out)@ == old(out)@ + spec_u64_to_le_bytes(x),
{
    let mut bs = u64_to_le_bytes(x);
    out.append(&mut bs);
}

/// Appends one character's four bytes.
fn write_char(out: &mut Vec<u8>, c: char)
    ensures
        final(out)@ == old(out)@ + enc_char(c),
{
    let mut bs = u32_to_le_bytes(c as u32);
    out.append(&mut bs);
}

/// Appends a string's encoding.
fn write_string(out: &mut Vec<u8>, s: &str)
    ensures
        final(out)@ == old(out)@ + enc_string(s@),
{
    let chars = crate::order::str_chars(s);
    write_u64(out, chars.len() as u64);
    let mut i: usize = 0;
    while i < chars.len()
        invariant
            chars@ == s@,
            i <= chars@.len(),
            out@ == old(out)@ + spec_u64_to_le_bytes(s@.len() as u64) + enc_chars(
                s@.take(i as int),
            ),
        decreases chars@.len() - i,
    {
        write_char(out, chars[i]);
        proof {
            lemma_enc_chars_append(s@.take(i as int), s@[i as int]);
            assert(s@.take(i + 1) =~= s@.take(i as int).push(s@[i as int]));
            assert(out@ =~= old(out)@ + spec_u64_to_le_bytes(s@.len() as u64) + enc_chars(
                s@.take(i + 1),
            ));
        }
        i = i + 1;
    }
    proof {
        assert(s@.take(s@.len() as int) =~= s@);
        assert(final(out)@ =~= old(out)@ + enc_string(s@));
    }
}

/// Appending one character extends the encoding at its end.
proof fn lemma_enc_chars_append(s: Seq<char>, c: char)
    ensures
        enc_chars(s.push(c)) == enc_chars(s) + enc_char(c),
    decreases s.len(),
{
    lemma_auto_spec_u32_to_from_le_bytes();
    if s.len() == 0 {
        reveal_with_fuel(enc_chars, 2);
        assert(s.push(c)[0] == c);
        assert(s.push(c).drop_first() =~= Seq::<char>::empty());
        assert(enc_chars(s.push(c)) =~= enc_chars(s) + enc_char(c));
    } else {
        assert(s.push(c)[0] == s[0]);
        assert(spec_u32_to_le_bytes(s[0] as u32).len() == 4);
        assert(spec_u32_to_le_bytes(c as u32).len() == 4);
        assert(s.push(c).drop_first() =~= s.drop_first().push(c));
        lemma_enc_chars_append(s.drop_first(), c);
        assert(enc_chars(s.push(c)) =~= enc_char(s[0]) + (enc_chars(s.drop_first()) + enc_char(
            c,
        )));
        assert(enc_char(s[0]) + (enc_chars(s.drop_first()) + enc_char(c)) =~= (enc_char(s[0])
            + enc_chars(s.drop_first())) + enc_char(c));
        assert(enc_chars(s) == enc_char(s[0]) + enc_chars(s.drop_first()));
        assert((enc_char(s[0]) + enc_chars(s.drop_first())) + enc_char(c) == enc_chars(s)
            + enc_char(c));
        assert(enc_chars(s.push(c)) == enc_chars(s) + enc_char(c));
    }
}

/// Reads eight bytes from a slice.
fn read_u64(b: &[u8], pos: usize) -> (r: Option<(u64, usize)>)
    ensures
        match r {
            Option::Some((x, p)) => parse_u64(b@, pos as int) == Option::Some((x, p as int)) && p
                <= b@.len(),
            Option::None => parse_u64(b@, pos as int) is None,
        },
{
    if b.len() < 8 || pos > b.len() - 8 {
        return None;
    }
    let blen = b.len();
    let mut buf: Vec<u8> = Vec::new();
    let mut i: usize = 0;
    while i < 8
        invariant
            pos + 8 <= b@.len(),
            b@.len() == blen,
            i <= 8,
            buf@ =~= b@.subrange(pos as int, pos + i),
        decreases 8 - i,
    {
        buf.push(b[pos + i]);
        i = i + 1;
    }
    proof {
        assert(buf@ =~= b@.subrange(pos as int, pos + 8));
    }
    let x = u64_from_le_bytes(buf.as_slice());
    Some((x, pos + 8))
}

/// Reads one character from a slice.
fn read_char(b: &[u8], pos: usize) -> (r: Option<(char, usize)>)
    ensures
        match r {
            Option::Some((c, p)) => parse_char(b@, pos as int) == Option::Some((c, p as int)) && p
                <= b@.len(),
            Option::None => parse_char(b@, pos as int) is None,
        },
{
    if b.len() < 4 || pos > b.len() - 4 {
        return None;
    }
    let blen = b.len();
    let mut buf: Vec<u8> = Vec::new();
    let mut i: usize = 0;
    while i < 4
        invariant
            pos + 4 <= b@.len(),
            b@.len() == blen,
            i <= 4,
            buf@ =~= b@.subrange(pos as int, pos + i),
        decreases 4 - i,
    {
        buf.push(b[pos + i]);
        i = i + 1;
    }
    proof {
        assert(buf@ =~= b@.subrange(pos as int, pos + 4));
    }
    let u = u32_from_le_bytes(buf.as_slice());
    match char::from_u32(u) {
        Some(c) => {
            proof {
                vstd::utf8::char_u32_cast(c, u);
            }
            Some((c, pos + 4))
        },
        None => None,
    }
}

/// Reads a length-prefixed string from a slice.
fn read_string(b: &[u8], pos: usize) -> (r: Option<(String, usize)>)
    ensures
        match r {
            Option::Some((s, p)) => parse_string(b@, pos as int) == Option::Some((s@, p as int))
                && p <= b@.len(),
            Option::None => parse_string(b@, pos as int) is None,
        },
{
    let (n, p0) = match read_u64(b, pos) {
        Some(v) => v,
        None => {
            return None;
        },
    };
    let mut s = String::new();
    let mut cur: usize = p0;
    let mut i: u64 = 0;
    while i < n
        invariant
            i <= n,
            cur <= b@.len(),
            parse_u64(b@, pos as int) == Option::Some((n, p0 as int)),
            parse_chars(b@, p0 as int, n as nat) == (match parse_chars(
                b@,
                cur as int,
                (n - i) as nat,
            ) {
                Option::Some((s2, p2)) => Option::Some((s@ + s2, p2)),
                Option::None => Option::None::<(Seq<char>, int)>,
            }),
        decreases n - i,
    {
        let next = read_char(b, cur);
        if next.is_none() {
            proof {
                assert(parse_chars(b@, cur as int, (n - i) as nat) is None);
                assert(parse_string(b@, pos as int) is None);
            }
            return None;
        }
        let (c, p2) = next.unwrap();
        let ghost pre = s@;
        s.push(c);
        proof {
            assert forall|s2: Seq<char>| pre + (seq![c] + s2) =~= s@ + s2 by {}
            assert(parse_chars(b@, p0 as int, n as nat) == (match parse_chars(
                b@,
                p2 as int,
                (n - i - 1) as nat,
            ) {
                Option::Some((s2, q)) => Option::Some((s@ + s2, q)),
                Option::None => Option::None::<(Seq<char>, int)>,
            }));
        }
        cur = p2;
        i = i + 1;
    }
    proof {
        assert(s@ + Seq::<char>::empty() =~= s@);
    }
    Some((s, cur))
}

} // verus!

verus! {

/// One value: a tag byte, then the payload.
pub open spec fn enc_value(v: Value) -> Seq<u8> {
    match v {
        Value::Number(n) => seq![0u8] + spec_u64_to_le_bytes(n as u64),
        Value::Str(s) => seq![1u8] + enc_string(s@),
        Value::Bool(b) => seq![
            2u8,
            if b {
                1u8
            } else {
                0u8
            },
        ],
        Value::Nil => seq![3u8],
    }
}

/// A value's text fits the length prefix.
pub open spec fn value_enc_ok(v: Value) -> bool {
    v matches Value::Str(s) ==> s@.len() <= u64::MAX
}

/// Reads one value.
pub open spec fn parse_value(b: Seq<u8>, pos: int) -> Option<(ValueView, int)> {
    if !(0 <= pos < b.len()) {
        Option::None
    } else {
        let tag = b[pos];
        if tag == 0 {
            match parse_u64(b, pos + 1) {
                Option::Some((x, p)) => Option::Some((ValueView::Num(x as i64), p)),
                Option::None => Option::None,
            }
        } else if tag == 1 {
            match parse_string(b, pos + 1) {
                Option::Some((s, p)) => Option::Some((ValueView::Str(s), p)),
                Option::None => Option::None,
            }
        } else if tag == 2 {
            if pos + 2 <= b.len() && (b[pos + 1] == 0 || b[pos + 1] == 1) {
                Option::Some((ValueView::Bool(b[pos + 1] == 1), pos + 2))
            } else {
                Option::None
            }
        } else if tag == 3 {
            Option::Some((ValueView::Nil, pos + 1))
        } else {
            Option::None
        }
    }
}

/// Parsing the bytes that encode a value yields its view.
pub proof fn lemma_parse_value_enc(b: Seq<u8>, pos: int, v: Value)
    requires
        0 <= pos,
        value_enc_ok(v),
        pos + enc_value(v).len() <= b.len(),
        b.subrange(pos, pos + enc_value(v).len()) == enc_value(v),
    ensures
        parse_value(b, pos) == Option::Some((v@, pos + enc_value(v).len())),
{
    lemma_auto_spec_u64_to_from_le_bytes();
    let whole = b.subrange(pos, pos + enc_value(v).len());
    match v {
        Value::Number(n) => {
            assert(spec_u64_to_le_bytes(n as u64).len() == 8);
            assert(b[pos] == whole[0]);
            assert(b[pos] == 0);
            let tail = b.subrange(pos + 1, pos + 9);
            assert forall|k: int| 0 <= k < 8 implies tail[k] == spec_u64_to_le_bytes(
                n as u64,
            )[k] by {
                assert(whole[1 + k] == (seq![0u8] + spec_u64_to_le_bytes(n as u64))[1 + k]);
            }
            assert(tail =~= spec_u64_to_le_bytes(n as u64));
            lemma_parse_u64_enc(b, pos + 1, n as u64);
            assert(((n as u64) as i64) == n) by (bit_vector);
        },
        Value::Str(s) => {
            lemma_enc_chars_len(s@);
            assert(spec_u64_to_le_bytes(s@.len() as u64).len() == 8);
            assert(b[pos] == whole[0]);
            assert(b[pos] == 1);
            let tail = b.subrange(pos + 1, pos + 1 + enc_string(s@).len());
            assert forall|k: int| 0 <= k < enc_string(s@).len() implies tail[k] == enc_string(
                s@,
            )[k] by {
                assert(whole[1 + k] == (seq![1u8] + enc_string(s@))[1 + k]);
            }
            assert(tail =~= enc_string(s@));
            lemma_parse_string_enc(b, pos + 1, s@);
        },
        Value::Bool(t) => {
            assert(b[pos] == whole[0]);
            assert(b[pos] == 2);
            assert(b[pos + 1] == whole[1]);
        },
        Value::Nil => {
            assert(b[pos] == whole[0]);
            assert(b[pos] == 3);
        },
    }
}

/// One table entry: the name, then the value.
pub open spec fn enc_pair(p: (String, Value)) -> Seq<u8> {
    enc_string(p.0@) + enc_value(p.1)
}

/// The entries, in order.
pub open spec fn enc_pairs(s: Seq<(String, Value)>) -> Seq<u8>
    decreases s.len(),
{
    if s.len() == 0 {
        Seq::empty()
    } else {
        enc_pair(s[0]) + enc_pairs(s.drop_first())
    }
}

/// A whole table: the entry count, then the entries.
pub open spec fn enc_globals(s: Seq<(String, Value)>) -> Seq<u8> {
    spec_u64_to_le_bytes(s.len() as u64) + enc_pairs(s)
}

/// Every entry fits its length prefixes, and so does the count.
pub open spec fn pairs_enc_ok(s: Seq<(String, Value)>) -> bool {
    &&& s.len() <= u64::MAX
    &&& forall|i: int|
        0 <= i < s.len() ==> (#[trigger] s[i]).0@.len() <= u64::MAX && value_enc_ok(s[i].1)
}

/// The views of a sequence of table entries.
pub open spec fn pairs_view(s: Seq<(String, Value)>) -> Seq<(Seq<char>, ValueView)> {
    s.map_values(|p: (String, Value)| (p.0@, p.1@))
}

/// Reads one table entry.
pub open spec fn parse_pair(b: Seq<u8>, pos: int) -> Option<((Seq<char>, ValueView), int)> {
    match parse_string(b, pos) {
        Option::Some((k, p)) => match parse_value(b, p) {
            Option::Some((v, p2)) => Option::Some(((k, v), p2)),
            Option::None => Option::None,
        },
        Option::None => Option::None,
    }
}

/// Reads exactly `n` table entries.
pub open spec fn parse_pairs(b: Seq<u8>, pos: int, n: nat) -> Option<
    (Seq<(Seq<char>, ValueView)>, int),
>
    decreases n,
{
    if n == 0 {
        Option::Some((Seq::empty(), pos))
    } else {
        match parse_pair(b, pos) {
            Option::Some((p, q)) => match parse_pairs(b, q, (n - 1) as nat) {
                Option::Some((l, q2)) => Option::Some((seq![p] + l, q2)),
                Option::None => Option::None,
            },
            Option::None => Option::None,
        }
    }
}

/// Reads a whole table.
pub open spec fn parse_globals(b: Seq<u8>, pos: int) -> Option<
    (Seq<(Seq<char>, ValueView)>, int),
> {
    match parse_u64(b, pos) {
        Option::Some((n, p)) => parse_pairs(b, p, n as nat),
        Option::None => Option::None,
    }
}

/// Parsing the bytes that encode one entry yields its view.
pub proof fn lemma_parse_pair_enc(b: Seq<u8>, pos: int, p: (String, Value))
    requires
        0 <= pos,
        p.0@.len() <= u64::MAX,
        value_enc_ok(p.1),
        pos + enc_pair(p).len() <= b.len(),
        b.subrange(pos, pos + enc_pair(p).len()) == enc_pair(p),
    ensures
        parse_pair(b, pos) == Option::Some(((p.0@, p.1@), pos + enc_pair(p).len())),
{
    let whole = b.subrange(pos, pos + enc_pair(p).len());
    let ka = enc_string(p.0@);
    let va = enc_value(p.1);
    let head = b.subrange(pos, pos + ka.len() as int);
    assert forall|k: int| 0 <= k < ka.len() implies head[k] == ka[k] by {
        assert(whole[k] == (ka + va)[k]);
    }
    assert(head =~= ka);
    lemma_parse_string_enc(b, pos, p.0@);
    let tail = b.subrange(pos + ka.len(), pos + ka.len() + va.len());
    assert forall|k: int| 0 <= k < va.len() implies tail[k] == va[k] by {
        assert(whole[ka.len() + k] == (ka + va)[ka.len() + k]);
    }
    assert(tail =~= va);
    lemma_parse_value_enc(b, pos + ka.len(), p.1);
}

/// Parsing the bytes that encode a run of entries yields their views.
pub proof fn lemma_parse_pairs_enc(b: Seq<u8>, pos: int, s: Seq<(String, Value)>)
    requires
        0 <= pos,
        pairs_enc_ok(s),
        pos + enc_pairs(s).len() <= b.len(),
        b.subrange(pos, pos + enc_pairs(s).len()) == enc_pairs(s),
    ensures
        parse_pairs(b, pos, s.len()) == Option::Some(
            (pairs_view(s), pos + enc_pairs(s).len()),
        ),
    decreases s.len(),
{
    if s.len() == 0 {
        assert(pairs_view(s) =~= Seq::<(Seq<char>, ValueView)>::empty());
    } else {
        let whole = b.subrange(pos, pos + enc_pairs(s).len());
        let rest = s.drop_first();
        let pa = enc_pair(s[0]);
        let ra = enc_pairs(rest);
        let head = b.subrange(pos, pos + pa.len() as int);
        assert forall|k: int| 0 <= k < pa.len() implies head[k] == pa[k] by {
            assert(whole[k] == (pa + ra)[k]);
        }
        assert(head =~= pa);
        lemma_parse_pair_enc(b, pos, s[0]);
        let tail = b.subrange(pos + pa.len(), pos + pa.len() + ra.len());
        assert forall|k: int| 0 <= k < ra.len() implies tail[k] == ra[k] by {
            assert(whole[pa.len() + k] == (pa + ra)[pa.len() + k]);
        }
        assert(tail =~= ra);
        assert(pairs_enc_ok(rest));
        lemma_parse_pairs_enc(b, pos + pa.len(), rest);
        assert(seq![(s[0].0@, s[0].1@)] + pairs_view(rest) =~= pairs_view(s));
    }
}

/// Parsing the bytes that encode a table yields its views.
pub proof fn lemma_parse_globals_enc(b: Seq<u8>, pos: int, s: Seq<(String, Value)>)
    requires
        0 <= pos,
        pairs_enc_ok(s),
        pos + enc_globals(s).len() <= b.len(),
        b.subrange(pos, pos + enc_globals(s).len()) == enc_globals(s),
    ensures
        parse_globals(b, pos) == Option::Some(
            (pairs_view(s), pos + enc_globals(s).len()),
        ),
{
    lemma_auto_spec_u64_to_from_le_bytes();
    let whole = b.subrange(pos, pos + enc_globals(s).len());
    assert(spec_u64_to_le_bytes(s.len() as u64).len() == 8);
    let head = b.subrange(pos, pos + 8);
    assert forall|k: int| 0 <= k < 8 implies head[k] == spec_u64_to_le_bytes(
        s.len() as u64,
    )[k] by {
        assert(whole[k] == (spec_u64_to_le_bytes(s.len() as u64) + enc_pairs(s))[k]);
    }
    assert(head =~= spec_u64_to_le_bytes(s.len() as u64));
    lemma_parse_u64_enc(b, pos, s.len() as u64);
    let tail = b.subrange(pos + 8, pos + 8 + enc_pairs(s).len());
    assert forall|k: int| 0 <= k < enc_pairs(s).len() implies tail[k] == enc_pairs(s)[k] by {
        assert(whole[8 + k] == (spec_u64_to_le_bytes(s.len() as u64) + enc_pairs(s))[8 + k]);
    }
    assert(tail =~= enc_pairs(s));
    lemma_parse_pairs_enc(b, pos + 8, s);
}

} // verus!

verus! {

/// One payload: a tag byte, then the text or the raw bytes, length-prefixed.
pub open spec fn enc_data(d: MessageData) -> Seq<u8> {
    match d {
        MessageData::Text(s) => seq![0u8] + enc_string(s@),
        MessageData::Json(s) => seq![1u8] + enc_string(s@),
        MessageData::Binary(v) => seq![2u8] + spec_u64_to_le_bytes(v@.len() as u64) + v@,
        MessageData::Signal(s) => seq![3u8] + enc_string(s@),
    }
}

/// A payload fits its length prefixes.
pub open spec fn data_enc_ok(d: MessageData) -> bool {
    match d {
        MessageData::Text(s) => s@.len() <= u64::MAX,
        MessageData::Json(s) => s@.len() <= u64::MAX,
        MessageData::Binary(v) => v@.len() <= u64::MAX,
        MessageData::Signal(s) => s@.len() <= u64::MAX,
    }
}

/// Reads `n` raw bytes.
pub open spec fn parse_bytes(b: Seq<u8>, pos: int, n: nat) -> Option<(Seq<u8>, int)> {
    if 0 <= pos && pos + n <= b.len() {
        Option::Some((b.subrange(pos, pos + n), pos + n))
    } else {
        Option::None
    }
}

/// Reads one payload.
pub open spec fn parse_data(b: Seq<u8>, pos: int) -> Option<(DataView, int)> {
    if !(0 <= pos < b.len()) {
        Option::None
    } else {
        let tag = b[pos];
        if tag == 0 {
            match parse_string(b, pos + 1) {
                Option::Some((s, p)) => Option::Some((DataView::Text(s), p)),
                Option::None => Option::None,
            }
        } else if tag == 1 {
            match parse_string(b, pos + 1) {
                Option::Some((s, p)) => Option::Some((DataView::Json(s), p)),
                Option::None => Option::None,
            }
        } else if tag == 2 {
            match parse_u64(b, pos + 1) {
                Option::Some((n, p)) => match parse_bytes(b, p, n as nat) {
                    Option::Some((v, p2)) => Option::Some((DataView::Binary(v), p2)),
                    Option::None => Option::None,
                },
                Option::None => Option::None,
            }
        } else if tag == 3 {
            match parse_string(b, pos + 1) {
                Option::Some((s, p)) => Option::Some((DataView::Signal(s), p)),
                Option::None => Option::None,
            }
        } else {
            Option::None
        }
    }
}

/// Parsing the bytes that encode a payload yields its view.
pub proof fn lemma_parse_data_enc(b: Seq<u8>, pos: int, d: MessageData)
    requires
        0 <= pos,
        data_enc_ok(d),
        pos + enc_data(d).len() <= b.len(),
        b.subrange(pos, pos + enc_data(d).len()) == enc_data(d),
    ensures
        parse_data(b, pos) == Option::Some((d@, pos + enc_data(d).len())),
{
    lemma_auto_spec_u64_to_from_le_bytes();
    let whole = b.subrange(pos, pos + enc_data(d).len());
    match d {
        MessageData::Text(t) => {
            assert(b[pos] == whole[0]);
            assert(b[pos] == 0);
            let sa = enc_string(t@);
            let tail = b.subrange(pos + 1, pos + 1 + sa.len());
            assert forall|k: int| 0 <= k < sa.len() implies tail[k] == sa[k] by {
                assert(whole[1 + k] == (seq![0u8] + sa)[1 + k]);
            }
            assert(tail =~= sa);
            lemma_parse_string_enc(b, pos + 1, t@);
        },
        MessageData::Json(t) => {
            assert(b[pos] == whole[0]);
            assert(b[pos] == 1);
            let sa = enc_string(t@);
            let tail = b.subrange(pos + 1, pos + 1 + sa.len());
            assert forall|k: int| 0 <= k < sa.len() implies tail[k] == sa[k] by {
                assert(whole[1 + k] == (seq![1u8] + sa)[1 + k]);
            }
            assert(tail =~= sa);
            lemma_parse_string_enc(b, pos + 1, t@);
        },
        MessageData::Binary(v) => {
            assert(b[pos] == whole[0]);
            assert(b[pos] == 2);
            assert(spec_u64_to_le_bytes(v@.len() as u64).len() == 8);
            let la = spec_u64_to_le_bytes(v@.len() as u64);
            let head = b.subrange(pos + 1, pos + 9);
            assert forall|k: int| 0 <= k < 8 implies head[k] == la[k] by {
                assert(whole[1 + k] == (seq![2u8] + la + v@)[1 + k]);
            }
            assert(head =~= la);
            lemma_parse_u64_enc(b, pos + 1, v@.len() as u64);
            let tail = b.subrange(pos + 9, pos + 9 + v@.len());
            assert forall|k: int| 0 <= k < v@.len() implies tail[k] == v@[k] by {
                assert(whole[9 + k] == (seq![2u8] + la + v@)[9 + k]);
            }
            assert(tail =~= v@);
        },
        MessageData::Signal(t) => {
            assert(b[pos] == whole[0]);
            assert(b[pos] == 3);
            let sa = enc_string(t@);
            let tail = b.subrange(pos + 1, pos + 1 + sa.len());
            assert forall|k: int| 0 <= k < sa.len() implies tail[k] == sa[k] by {
                assert(whole[1 + k] == (seq![3u8] + sa)[1 + k]);
            }
            assert(tail =~= sa);
            lemma_parse_string_enc(b, pos + 1, t@);
        },
    }
}

/// One message: the sender, the payload, the time, the sequence number.
pub open spec fn enc_message(m: Message) -> Seq<u8> {
    enc_string(m.sender@) + enc_data(m.data) + spec_u64_to_le_bytes(m.logical_time)
        + spec_u64_to_le_bytes(m.sequence_id)
}

/// A message fits its length prefixes.
pub open spec fn msg_enc_ok(m: Message) -> bool {
    m.sender@.len() <= u64::MAX && data_enc_ok(m.data)
}

/// Reads one message.
pub open spec fn parse_message(b: Seq<u8>, pos: int) -> Option<(MessageView, int)> {
    match parse_string(b, pos) {
        Option::Some((sender, p)) => match parse_data(b, p) {
            Option::Some((data, p2)) => match parse_u64(b, p2) {
                Option::Some((t, p3)) => match parse_u64(b, p3) {
                    Option::Some((q, p4)) => Option::Some(
                        (
                            MessageView { sender, data, logical_time: t, sequence_id: q },
                            p4,
                        ),
                    ),
                    Option::None => Option::None,
                },
                Option::None => Option::None,
            },
            Option::None => Option::None,
        },
        Option::None => Option::None,
    }
}

/// Parsing the bytes that encode a message yields its view.
pub proof fn lemma_parse_message_enc(b: Seq<u8>, pos: int, m: Message)
    requires
        0 <= pos,
        msg_enc_ok(m),
        pos + enc_message(m).len() <= b.len(),
        b.subrange(pos, pos + enc_message(m).len()) == enc_message(m),
    ensures
        parse_message(b, pos) == Option::Some((m@, pos + enc_message(m).len())),
{
    lemma_auto_spec_u64_to_from_le_bytes();
    let whole = b.subrange(pos, pos + enc_message(m).len());
    let sa = enc_string(m.sender@);
    let da = enc_data(m.data);
    let ta = spec_u64_to_le_bytes(m.logical_time);
    let qa = spec_u64_to_le_bytes(m.sequence_id);
    let p1 = pos + sa.len();
    let p2 = p1 + da.len();
    let p3 = p2 + 8;
    let p4 = p3 + 8;
    let head = b.subrange(pos, p1 as int);
    assert forall|k: int| 0 <= k < sa.len() implies head[k] == sa[k] by {
        assert(whole[k] == (sa + da + ta + qa)[k]);
    }
    assert(head =~= sa);
    lemma_parse_string_enc(b, pos, m.sender@);
    let dpart = b.subrange(p1 as int, p2 as int);
    assert forall|k: int| 0 <= k < da.len() implies dpart[k] == da[k] by {
        assert(whole[sa.len() + k] == (sa + da + ta + qa)[sa.len() + k]);
    }
    assert(dpart =~= da);
    lemma_parse_data_enc(b, p1, m.data);
    let tpart = b.subrange(p2 as int, p3 as int);
    assert forall|k: int| 0 <= k < 8 implies tpart[k] == ta[k] by {
        assert(whole[sa.len() + da.len() + k] == (sa + da + ta + qa)[sa.len() + da.len() + k]);
    }
    assert(tpart =~= ta);
    lemma_parse_u64_enc(b, p2, m.logical_time);
    let qpart = b.subrange(p3 as int, p4 as int);
    assert forall|k: int| 0 <= k < 8 implies qpart[k] == qa[k] by {
        assert(whole[sa.len() + da.len() + 8 + k] == (sa + da + ta + qa)[sa.len() + da.len() + 8
            + k]);
    }
    assert(qpart =~= qa);
    lemma_parse_u64_enc(b, p3, m.sequence_id);
}

/// A run of messages, in order.
pub open spec fn enc_msgs(s: Seq<Message>) -> Seq<u8>
    decreases s.len(),
{
    if s.len() == 0 {
        Seq::empty()
    } else {
        enc_message(s[0]) + enc_msgs(s.drop_first())
    }
}

/// A mailbox log: the message count, then the messages.
pub open spec fn enc_messages(s: Seq<Message>) -> Seq<u8> {
    spec_u64_to_le_bytes(s.len() as u64) + enc_msgs(s)
}

/// Every message fits its length prefixes, and so does the count.
pub open spec fn msgs_enc_ok(s: Seq<Message>) -> bool {
    s.len() <= u64::MAX && forall|i: int| 0 <= i < s.len() ==> msg_enc_ok(#[trigger] s[i])
}

/// Reads exactly `n` messages.
pub open spec fn parse_msgs(b: Seq<u8>, pos: int, n: nat) -> Option<(Seq<MessageView>, int)>
    decreases n,
{
    if n == 0 {
        Option::Some((Seq::empty(), pos))
    } else {
        match parse_message(b, pos) {
            Option::Some((m, p)) => match parse_msgs(b, p, (n - 1) as nat) {
                Option::Some((l, p2)) => Option::Some((seq![m] + l, p2)),
                Option::None => Option::None,
            },
            Option::None => Option::None,
        }
    }
}

/// Reads a mailbox log.
pub open spec fn parse_messages(b: Seq<u8>, pos: int) -> Option<(Seq<MessageView>, int)> {
    match parse_u64(b, pos) {
        Option::Some((n, p)) => parse_msgs(b, p, n as nat),
        Option::None => Option::None,
    }
}

/// Parsing the bytes that encode a run of messages yields their views.
pub proof fn lemma_parse_msgs_enc(b: Seq<u8>, pos: int, s: Seq<Message>)
    requires
        0 <= pos,
        msgs_enc_ok(s),
        pos + enc_msgs(s).len() <= b.len(),
        b.subrange(pos, pos + enc_msgs(s).len()) == enc_msgs(s),
    ensures
        parse_msgs(b, pos, s.len()) == Option::Some(
            (crate::actor::messages_view(s), pos + enc_msgs(s).len()),
        ),
    decreases s.len(),
{
    if s.len() == 0 {
        assert(crate::actor::messages_view(s) =~= Seq::<MessageView>::empty());
    } else {
        let whole = b.subrange(pos, pos + enc_msgs(s).len());
        let rest = s.drop_first();
        let ma = enc_message(s[0]);
        let ra = enc_msgs(rest);
        let head = b.subrange(pos, pos + ma.len() as int);
        assert forall|k: int| 0 <= k < ma.len() implies head[k] == ma[k] by {
            assert(whole[k] == (ma + ra)[k]);
        }
        assert(head =~= ma);
        lemma_parse_message_enc(b, pos, s[0]);
        let tail = b.subrange(pos + ma.len(), pos + ma.len() + ra.len());
        assert forall|k: int| 0 <= k < ra.len() implies tail[k] == ra[k] by {
            assert(whole[ma.len() + k] == (ma + ra)[ma.len() + k]);
        }
        assert(tail =~= ra);
        assert(msgs_enc_ok(rest));
        lemma_parse_msgs_enc(b, pos + ma.len(), rest);
        assert(seq![s[0]@] + crate::actor::messages_view(rest) =~= crate::actor::messages_view(
            s,
        ));
    }
}

/// Parsing the bytes that encode a mailbox log yields its views.
pub proof fn lemma_parse_messages_enc(b: Seq<u8>, pos: int, s: Seq<Message>)
    requires
        0 <= pos,
        msgs_enc_ok(s),
        pos + enc_messages(s).len() <= b.len(),
        b.subrange(pos, pos + enc_messages(s).len()) == enc_messages(s),
    ensures
        parse_messages(b, pos) == Option::Some(
            (crate::actor::messages_view(s), pos + enc_messages(s).len()),
        ),
{
    lemma_auto_spec_u64_to_from_le_bytes();
    let whole = b.subrange(pos, pos + enc_messages(s).len());
    assert(spec_u64_to_le_bytes(s.len() as u64).len() == 8);
    let head = b.subrange(pos, pos + 8);
    assert forall|k: int| 0 <= k < 8 implies head[k] == spec_u64_to_le_bytes(
        s.len() as u64,
    )[k] by {
        assert(whole[k] == (spec_u64_to_le_bytes(s.len() as u64) + enc_msgs(s))[k]);
    }
    assert(head =~= spec_u64_to_le_bytes(s.len() as u64));
    lemma_parse_u64_enc(b, pos, s.len() as u64);
    let tail = b.subrange(pos + 8, pos + 8 + enc_msgs(s).len());
    assert forall|k: int| 0 <= k < enc_msgs(s).len() implies tail[k] == enc_msgs(s)[k] by {
        assert(whole[8 + k] == (spec_u64_to_le_bytes(s.len() as u64) + enc_msgs(s))[8 + k]);
    }
    assert(tail =~= enc_msgs(s));
    lemma_parse_msgs_enc(b, pos + 8, s);
}

} // verus!

verus! {

/// What a snapshot holds: a machine's global table, or a recorder's log.
pub enum SnapState {
    VmGlobals(Seq<(Seq<char>, ValueView)>),
    Recorded(Seq<MessageView>),
}

/// A behavior's full serialized state: a variant tag, then the state.
pub open spec fn behavior_snapshot(b: ActorBehavior) -> Seq<u8> {
    match b {
        ActorBehavior::Vm(a) => seq![0u8] + enc_globals(a.vm.globals_entries()),
        ActorBehavior::Recorder(rec) => seq![1u8] + enc_messages(rec.received@),
    }
}

/// The behavior's state fits the encoding's length prefixes.
pub open spec fn behavior_enc_ok(b: ActorBehavior) -> bool {
    match b {
        ActorBehavior::Vm(a) => pairs_enc_ok(a.vm.globals_entries()),
        ActorBehavior::Recorder(rec) => msgs_enc_ok(rec.received@),
    }
}

/// Reads a whole snapshot; every byte must be accounted for.
pub open spec fn behavior_parse(b: Seq<u8>) -> Option<SnapState> {
    if b.len() < 1 {
        Option::None
    } else if b[0] == 0 {
        match parse_globals(b, 1) {
            Option::Some((l, p)) => if p == b.len() {
                Option::Some(SnapState::VmGlobals(l))
            } else {
                Option::None
            },
            Option::None => Option::None,
        }
    } else if b[0] == 1 {
        match parse_messages(b, 1) {
            Option::Some((l, p)) => if p == b.len() {
                Option::Some(SnapState::Recorded(l))
            } else {
                Option::None
            },
            Option::None => Option::None,
        }
    } else {
        Option::None
    }
}

/// No name occurs twice among parsed table entries.
pub open spec fn view_keys_distinct(l: Seq<(Seq<char>, ValueView)>) -> bool {
    forall|i: int, j: int| 0 <= i < j < l.len() ==> l[i].0 != l[j].0
}

/// Snapshots restore: parsing a behavior's snapshot yields exactly the
/// behavior's state, so a resumed cell is indistinguishable from the
/// original. The bound only asks that the state fit the format's
/// length prefixes.
pub proof fn lemma_snapshot_restores_state(b: ActorBehavior)
    requires
        behavior_enc_ok(b),
    ensures
        behavior_parse(behavior_snapshot(b)) == (match b {
            ActorBehavior::Vm(a) => Option::Some(
                SnapState::VmGlobals(pairs_view(a.vm.globals_entries())),
            ),
            ActorBehavior::Recorder(rec) => Option::Some(
                SnapState::Recorded(crate::actor::messages_view(rec.received@)),
            ),
        }),
{
    let bytes = behavior_snapshot(b);
    match b {
        ActorBehavior::Vm(a) => {
            let ga = enc_globals(a.vm.globals_entries());
            assert(bytes[0] == 0);
            let tail = bytes.subrange(1, 1 + ga.len() as int);
            assert forall|k: int| 0 <= k < ga.len() implies tail[k] == ga[k] by {
                assert(bytes[1 + k] == (seq![0u8] + ga)[1 + k]);
            }
            assert(tail =~= ga);
            lemma_parse_globals_enc(bytes, 1, a.vm.globals_entries());
        },
        ActorBehavior::Recorder(rec) => {
            let ma = enc_messages(rec.received@);
            assert(bytes[0] == 1);
            let tail = bytes.subrange(1, 1 + ma.len() as int);
            assert forall|k: int| 0 <= k < ma.len() implies tail[k] == ma[k] by {
                assert(bytes[1 + k] == (seq![1u8] + ma)[1 + k]);
            }
            assert(tail =~= ma);
            lemma_parse_messages_enc(bytes, 1, rec.received@);
        },
    }
}

/// Appending one entry extends the encoding at its end.
proof fn lemma_enc_pairs_append(s: Seq<(String, Value)>, p: (String, Value))
    ensures
        enc_pairs(s.push(p)) == enc_pairs(s) + enc_pair(p),
    decreases s.len(),
{
    if s.len() == 0 {
        reveal_with_fuel(enc_pairs, 2);
        assert(s.push(p)[0] == p);
        assert(s.push(p).drop_first() =~= Seq::<(String, Value)>::empty());
        assert(enc_pairs(s.push(p)) =~= enc_pairs(s) + enc_pair(p));
    } else {
        assert(s.push(p)[0] == s[0]);
        assert(s.push(p).drop_first() =~= s.drop_first().push(p));
        lemma_enc_pairs_append(s.drop_first(), p);
        assert(enc_pairs(s.push(p)) =~= enc_pair(s[0]) + (enc_pairs(s.drop_first()) + enc_pair(
            p,
        )));
        assert(enc_pairs(s) == enc_pair(s[0]) + enc_pairs(s.drop_first()));
        assert(enc_pairs(s.push(p)) =~= enc_pairs(s) + enc_pair(p));
    }
}

/// Appending one message extends the encoding at its end.
proof fn lemma_enc_msgs_append(s: Seq<Message>, m: Message)
    ensures
        enc_msgs(s.push(m)) == enc_msgs(s) + enc_message(m),
    decreases s.len(),
{
    if s.len() == 0 {
        reveal_with_fuel(enc_msgs, 2);
        assert(s.push(m)[0] == m);
        assert(s.push(m).drop_first() =~= Seq::<Message>::empty());
        assert(enc_msgs(s.push(m)) =~= enc_msgs(s) + enc_message(m));
    } else {
        assert(s.push(m)[0] == s[0]);
        assert(s.push(m).drop_first() =~= s.drop_first().push(m));
        lemma_enc_msgs_append(s.drop_first(), m);
        assert(enc_msgs(s.push(m)) =~= enc_message(s[0]) + (enc_msgs(s.drop_first())
            + enc_message(m)));
        assert(enc_msgs(s) == enc_message(s[0]) + enc_msgs(s.drop_first()));
        assert(enc_msgs(s.push(m)) =~= enc_msgs(s) + enc_message(m));
    }
}

/// Appends a value's encoding.
fn write_value(out: &mut Vec<u8>, v: &Value)
    ensures
        final(out)@ == old(out)@ + enc_value(*v),
{
    match v {
        Value::Number(n) => {
            out.push(0u8);
            write_u64(out, *n as u64);
            proof {
                assert(final(out)@ =~= old(out)@ + enc_value(*v));
            }
        },
        Value::Str(s) => {
            out.push(1u8);
            write_string(out, s.as_str());
            proof {
                assert(final(out)@ =~= old(out)@ + enc_value(*v));
            }
        },
        Value::Bool(t) => {
            out.push(2u8);
            if *t {
                out.push(1u8);
            } else {
                out.push(0u8);
            }
            proof {
                assert(final(out)@ =~= old(out)@ + enc_value(*v));
            }
        },
        Value::Nil => {
            out.push(3u8);
            proof {
                assert(final(out)@ =~= old(out)@ + enc_value(*v));
            }
        },
    }
}

/// Appends a payload's encoding.
fn write_data(out: &mut Vec<u8>, d: &MessageData)
    ensures
        final(out)@ == old(out)@ + enc_data(*d),
{
    match d {
        MessageData::Text(s) => {
            out.push(0u8);
            write_string(out, s.as_str());
            proof {
                assert(final(out)@ =~= old(out)@ + enc_data(*d));
            }
        },
        MessageData::Json(s) => {
            out.push(1u8);
            write_string(out, s.as_str());
            proof {
                assert(final(out)@ =~= old(out)@ + enc_data(*d));
            }
        },
        MessageData::Binary(v) => {
            out.push(2u8);
            write_u64(out, v.len() as u64);
            let mut copy = v.clone();
            proof {
                assert(copy@ =~= v@);
            }
            out.append(&mut copy);
            proof {
                assert(final(out)@ =~= old(out)@ + enc_data(*d));
            }
        },
        MessageData::Signal(s) => {
            out.push(3u8);
            write_string(out, s.as_str());
            proof {
                assert(final(out)@ =~= old(out)@ + enc_data(*d));
            }
        },
    }
}

/// Appends a message's encoding.
fn write_message(out: &mut Vec<u8>, m: &Message)
    ensures
        final(out)@ == old(out)@ + enc_message(*m),
{
    write_string(out, m.sender.as_str());
    write_data(out, &m.data);
    write_u64(out, m.logical_time);
    write_u64(out, m.sequence_id);
    proof {
        assert(final(out)@ =~= old(out)@ + enc_message(*m));
    }
}

impl ActorCell {
    /// Serializes the actor's full state — a machine's globals, or a
    /// recorder's log — into one byte blob.
    pub fn snapshot(&self) -> (r: Vec<u8>)
        ensures
            r@ == behavior_snapshot(self.actor),
    {
        let mut out: Vec<u8> = Vec::new();
        match &self.actor {
            ActorBehavior::Vm(a) => {
                out.push(0u8);
                let entries = a.vm.get_globals();
                write_u64(&mut out, entries.len() as u64);
                let mut i: usize = 0;
                while i < entries.len()
                    invariant
                        entries@ == a.vm.globals_entries(),
                        i <= entries@.len(),
                        out@ == seq![0u8] + spec_u64_to_le_bytes(entries@.len() as u64)
                            + enc_pairs(entries@.take(i as int)),
                    decreases entries@.len() - i,
                {
                    write_string(&mut out, entries[i].0.as_str());
                    write_value(&mut out, &entries[i].1);
                    proof {
                        lemma_enc_pairs_append(entries@.take(i as int), entries@[i as int]);
                        assert(entries@.take(i + 1) =~= entries@.take(i as int).push(
                            entries@[i as int]));
                        assert(out@ =~= seq![0u8] + spec_u64_to_le_bytes(entries@.len() as u64)
                            + enc_pairs(entries@.take(i + 1)));
                    }
                    i = i + 1;
                }
                proof {
                    assert(entries@.take(entries@.len() as int) =~= entries@);
                    assert(out@ =~= behavior_snapshot(self.actor));
                }
            },
            ActorBehavior::Recorder(rec) => {
                out.push(1u8);
                write_u64(&mut out, rec.received.len() as u64);
                let mut i: usize = 0;
                while i < rec.received.len()
                    invariant
                        i <= rec.received@.len(),
                        out@ == seq![1u8] + spec_u64_to_le_bytes(rec.received@.len() as u64)
                            + enc_msgs(rec.received@.take(i as int)),
                    decreases rec.received@.len() - i,
                {
                    write_message(&mut out, &rec.received[i]);
                    proof {
                        lemma_enc_msgs_append(rec.received@.take(i as int), rec.received@[
                            i as int]);
                        assert(rec.received@.take(i + 1) =~= rec.received@.take(i as int).push(
                            rec.received@[i as int]));
                        assert(out@ =~= seq![1u8] + spec_u64_to_le_bytes(
                            rec.received@.len() as u64) + enc_msgs(rec.received@.take(i + 1)));
                    }
                    i = i + 1;
                }
                proof {
                    assert(rec.received@.take(rec.received@.len() as int) =~= rec.received@);
                    assert(out@ =~= behavior_snapshot(self.actor));
                }
            },
        }
        out
    }
}

} // verus!

verus! {

/// Reads one value from a slice.
fn read_value(b: &[u8], pos: usize) -> (r: Option<(Value, usize)>)
    ensures
        match r {
            Option::Some((v, p)) => parse_value(b@, pos as int) == Option::Some((v@, p as int))
                && p <= b@.len(),
            Option::None => parse_value(b@, pos as int) is None,
        },
{
    if pos >= b.len() {
        return None;
    }
    let tag = b[pos];
    if tag == 0 {
        match read_u64(b, pos + 1) {
            Some((x, p)) => Some((Value::Number(x as i64), p)),
            None => None,
        }
    } else if tag == 1 {
        match read_string(b, pos + 1) {
            Some((s, p)) => Some((Value::Str(s), p)),
            None => None,
        }
    } else if tag == 2 {
        if b.len() >= 2 && pos <= b.len() - 2 && (b[pos + 1] == 0 || b[pos + 1] == 1) {
            Some((Value::Bool(b[pos + 1] == 1), pos + 2))
        } else {
            None
        }
    } else if tag == 3 {
        Some((Value::Nil, pos + 1))
    } else {
        None
    }
}

/// Reads `n` raw bytes from a slice.
fn read_bytes(b: &[u8], pos: usize, n: u64) -> (r: Option<(Vec<u8>, usize)>)
    ensures
        match r {
            Option::Some((v, p)) => parse_bytes(b@, pos as int, n as nat) == Option::Some(
                (v@, p as int),
            ) && p <= b@.len(),
            Option::None => parse_bytes(b@, pos as int, n as nat) is None,
        },
{
    let blen = b.len();
    if n > (blen as u64) || pos > blen - (n as usize) {
        return None;
    }
    let count = n as usize;
    let mut v: Vec<u8> = Vec::new();
    let mut i: usize = 0;
    while i < count
        invariant
            pos + count <= b@.len(),
            b@.len() == blen,
            i <= count,
            v@ =~= b@.subrange(pos as int, pos + i),
        decreases count - i,
    {
        v.push(b[pos + i]);
        i = i + 1;
    }
    proof {
        assert(v@ =~= b@.subrange(pos as int, pos + count));
    }
    Some((v, pos + count))
}

/// Reads one payload from a slice.
fn read_data(b: &[u8], pos: usize) -> (r: Option<(MessageData, usize)>)
    ensures
        match r {
            Option::Some((d, p)) => parse_data(b@, pos as int) == Option::Some((d@, p as int))
                && p <= b@.len(),
            Option::None => parse_data(b@, pos as int) is None,
        },
{
    if pos >= b.len() {
        return None;
    }
    let tag = b[pos];
    if tag == 0 {
        match read_string(b, pos + 1) {
            Some((s, p)) => Some((MessageData::Text(s), p)),
            None => None,
        }
    } else if tag == 1 {
        match read_string(b, pos + 1) {
            Some((s, p)) => Some((MessageData::Json(s), p)),
            None => None,
        }
    } else if tag == 2 {
        match read_u64(b, pos + 1) {
            Some((n, p)) => match read_bytes(b, p, n) {
                Some((v, p2)) => Some((MessageData::Binary(v), p2)),
                None => None,
            },
            None => None,
        }
    } else if tag == 3 {
        match read_string(b, pos + 1) {
            Some((s, p)) => Some((MessageData::Signal(s), p)),
            None => None,
        }
    } else {
        None
    }
}

/// Reads one message from a slice.
fn read_message(b: &[u8], pos: usize) -> (r: Option<(Message, usize)>)
    ensures
        match r {
            Option::Some((m, p)) => parse_message(b@, pos as int) == Option::Some(
                (m@, p as int),
            ) && p <= b@.len(),
            Option::None => parse_message(b@, pos as int) is None,
        },
{
    let (sender, p) = match read_string(b, pos) {
        Some(v) => v,
        None => {
            return None;
        },
    };
    let (data, p2) = match read_data(b, p) {
        Some(v) => v,
        None => {
            return None;
        },
    };
    let (t, p3) = match read_u64(b, p2) {
        Some(v) => v,
        None => {
            return None;
        },
    };
    let (q, p4) = match read_u64(b, p3) {
        Some(v) => v,
        None => {
            return None;
        },
    };
    Some((Message { sender, data, logical_time: t, sequence_id: q }, p4))
}

/// Reads a whole table from a slice.
fn read_globals(b: &[u8], pos: usize) -> (r: Option<(Vec<(String, Value)>, usize)>)
    ensures
        match r {
            Option::Some((l, p)) => parse_globals(b@, pos as int) == Option::Some(
                (pairs_view(l@), p as int),
            ) && p <= b@.len(),
            Option::None => parse_globals(b@, pos as int) is None,
        },
{
    let (n, p0) = match read_u64(b, pos) {
        Some(v) => v,
        None => {
            return None;
        },
    };
    let mut l: Vec<(String, Value)> = Vec::new();
    let mut cur: usize = p0;
    let mut i: u64 = 0;
    proof {
        assert(pairs_view(l@) =~= Seq::<(Seq<char>, ValueView)>::empty());
    }
    while i < n
        invariant
            i <= n,
            cur <= b@.len(),
            parse_u64(b@, pos as int) == Option::Some((n, p0 as int)),
            parse_pairs(b@, p0 as int, n as nat) == (match parse_pairs(
                b@,
                cur as int,
                (n - i) as nat,
            ) {
                Option::Some((l2, p2)) => Option::Some((pairs_view(l@) + l2, p2)),
                Option::None => Option::None::<(Seq<(Seq<char>, ValueView)>, int)>,
            }),
        decreases n - i,
    {
        let key = read_string(b, cur);
        if key.is_none() {
            proof {
                assert(parse_pair(b@, cur as int) is None);
                assert(parse_pairs(b@, cur as int, (n - i) as nat) is None);
            }
            return None;
        }
        let (k, p1) = key.unwrap();
        let val = read_value(b, p1);
        if val.is_none() {
            proof {
                assert(parse_pair(b@, cur as int) is None);
                assert(parse_pairs(b@, cur as int, (n - i) as nat) is None);
            }
            return None;
        }
        let (v, p2) = val.unwrap();
        let ghost pre = l@;
        l.push((k, v));
        proof {
            assert(pairs_view(l@) =~= pairs_view(pre).push((l@.last().0@, l@.last().1@)));
            assert forall|l2: Seq<(Seq<char>, ValueView)>|
                pairs_view(pre) + (seq![(l@.last().0@, l@.last().1@)] + l2) =~= pairs_view(l@)
                    + l2 by {}
            assert(parse_pairs(b@, p0 as int, n as nat) == (match parse_pairs(
                b@,
                p2 as int,
                (n - i - 1) as nat,
            ) {
                Option::Some((l2, q)) => Option::Some((pairs_view(l@) + l2, q)),
                Option::None => Option::None::<(Seq<(Seq<char>, ValueView)>, int)>,
            }));
        }
        cur = p2;
        i = i + 1;
    }
    proof {
        assert(pairs_view(l@) + Seq::<(Seq<char>, ValueView)>::empty() =~= pairs_view(l@));
    }
    Some((l, cur))
}

/// Reads a mailbox log from a slice.
fn read_messages(b: &[u8], pos: usize) -> (r: Option<(Vec<Message>, usize)>)
    ensures
        match r {
            Option::Some((l, p)) => parse_messages(b@, pos as int) == Option::Some(
                (crate::actor::messages_view(l@), p as int),
            ) && p <= b@.len(),
            Option::None => parse_messages(b@, pos as int) is None,
        },
{
    let (n, p0) = match read_u64(b, pos) {
        Some(v) => v,
        None => {
            return None;
        },
    };
    let mut l: Vec<Message> = Vec::new();
    let mut cur: usize = p0;
    let mut i: u64 = 0;
    proof {
        assert(crate::actor::messages_view(l@) =~= Seq::<MessageView>::empty());
    }
    while i < n
        invariant
            i <= n,
            cur <= b@.len(),
            parse_u64(b@, pos as int) == Option::Some((n, p0 as int)),
            parse_msgs(b@, p0 as int, n as nat) == (match parse_msgs(
                b@,
                cur as int,
                (n - i) as nat,
            ) {
                Option::Some((l2, p2)) => Option::Some(
                    (crate::actor::messages_view(l@) + l2, p2),
                ),
                Option::None => Option::None::<(Seq<MessageView>, int)>,
            }),
        decreases n - i,
    {
        let next = read_message(b, cur);
        if next.is_none() {
            proof {
                assert(parse_msgs(b@, cur as int, (n - i) as nat) is None);
            }
            return None;
        }
        let (m, p2) = next.unwrap();
        let ghost pre = l@;
        l.push(m);
        proof {
            assert(crate::actor::messages_view(l@) =~= crate::actor::messages_view(pre).push(
                l@.last()@));
            assert forall|l2: Seq<MessageView>|
                crate::actor::messages_view(pre) + (seq![l@.last()@] + l2)
                    =~= crate::actor::messages_view(l@) + l2 by {}
            assert(parse_msgs(b@, p0 as int, n as nat) == (match parse_msgs(
                b@,
                p2 as int,
                (n - i - 1) as nat,
            ) {
                Option::Some((l2, q)) => Option::Some(
                    (crate::actor::messages_view(l@) + l2, q),
                ),
                Option::None => Option::None::<(Seq<MessageView>, int)>,
            }));
        }
        cur = p2;
        i = i + 1;
    }
    proof {
        assert(crate::actor::messages_view(l@) + Seq::<MessageView>::empty()
            =~= crate::actor::messages_view(l@));
    }
    Some((l, cur))
}

/// Names are distinct among entries exactly when they are distinct among
/// the entries' views.
proof fn lemma_distinct_keys_view(entries: Seq<(String, Value)>)
    ensures
        crate::table::distinct_keys(entries) == view_keys_distinct(pairs_view(entries)),
{
    let list = pairs_view(entries);
    if crate::table::distinct_keys(entries) {
        assert forall|x: int, y: int| 0 <= x < y < list.len() implies list[x].0 != list[y].0 by {
            assert(list[x].0 == entries[x].0@);
            assert(list[y].0 == entries[y].0@);
        }
    }
    if view_keys_distinct(list) {
        assert forall|x: int, y: int|
            0 <= x < y < entries.len() implies entries[x].0@ != entries[y].0@ by {
            assert(list[x].0 == entries[x].0@);
            assert(list[y].0 == entries[y].0@);
        }
    }
}

/// Whether any variable name repeats among decoded entries.
fn pairs_distinct(entries: &Vec<(String, Value)>) -> (r: bool)
    ensures
        r == crate::table::distinct_keys(entries@),
{
    let mut i: usize = 0;
    while i < entries.len()
        invariant
            i <= entries@.len(),
            forall|x: int, y: int| 0 <= x < y < i ==> entries@[x].0@ != entries@[y].0@,
        decreases entries@.len() - i,
    {
        let mut j: usize = 0;
        while j < i
            invariant
                j <= i < entries@.len(),
                forall|y: int| 0 <= y < j ==> entries@[y].0@ != entries@[i as int].0@,
            decreases i - j,
        {
            if entries[j].0 == entries[i].0 {
                return false;
            }
            j = j + 1;
        }
        i = i + 1;
    }
    true
}

/// Reconstructs a paused actor: the snapshot's state is installed into the
/// given behavior — which supplies what a snapshot does not carry, a
/// machine's chunk, environment and capabilities — under a fresh context.
/// Fails, returning nothing, when the bytes do not parse, name a different
/// variant than the given behavior, or repeat a variable name.
pub fn resume(id: ActorId, snapshot: &[u8], actor: ActorBehavior) -> (r: Option<ActorCell>)
    requires
        actor.wf(),
    ensures
        behavior_parse(snapshot@) is None ==> r is None,
        (match behavior_parse(snapshot@) {
            Option::Some(st) => match st {
                SnapState::VmGlobals(list) => {
                    &&& (actor is Vm && view_keys_distinct(list) ==> ({
                        &&& r matches Some(cell)
                        &&& cell.wf()
                        &&& cell.id@ == id@
                        &&& cell.context.actor_id@ == id@
                        &&& cell.context.arena.spec_used() == 0
                        &&& cell.actor matches ActorBehavior::Vm(a2) && ({
                            &&& a2.chunk@ == actor->Vm_0.chunk@
                            &&& a2.vm.env_view() == actor->Vm_0.vm.env_view()
                            &&& a2.vm.caps_view() == actor->Vm_0.vm.caps_view()
                            &&& a2.vm.rng_view() == actor->Vm_0.vm.rng_view()
                            &&& pairs_view(a2.vm.globals_entries()) == list
                        })
                    }))
                    &&& (!(actor is Vm && view_keys_distinct(list)) ==> r is None)
                },
                SnapState::Recorded(msgs) => {
                    &&& (actor matches ActorBehavior::Recorder(_) ==> ({
                        &&& r matches Some(cell)
                        &&& cell.wf()
                        &&& cell.id@ == id@
                        &&& cell.context.actor_id@ == id@
                        &&& cell.context.arena.spec_used() == 0
                        &&& cell.actor matches ActorBehavior::Recorder(rec2)
                            && crate::actor::messages_view(rec2.received@) == msgs
                    }))
                    &&& (!(actor is Recorder) ==> r is None)
                },
            },
            Option::None => true,
        }),
{
    if snapshot.len() < 1 {
        return None;
    }
    let tag = snapshot[0];
    if tag == 0 {
        let (entries, p) = match read_globals(snapshot, 1) {
            Some(v) => v,
            None => {
                return None;
            },
        };
        if p != snapshot.len() {
            return None;
        }
        match actor {
            ActorBehavior::Vm(mut a) => {
                proof {
                    lemma_distinct_keys_view(entries@);
                }
                if !pairs_distinct(&entries) {
                    return None;
                }
                a.vm.load_globals(entries);
                Some(ActorCell::new(id, ActorBehavior::Vm(a)))
            },
            ActorBehavior::Recorder(_) => None,
        }
    } else if tag == 1 {
        let (msgs, p) = match read_messages(snapshot, 1) {
            Some(v) => v,
            None => {
                return None;
            },
        };
        if p != snapshot.len() {
            return None;
        }
        match actor {
            ActorBehavior::Recorder(_) => Some(
                ActorCell::new(id, ActorBehavior::Recorder(RecorderActor { received: msgs })),
            ),
            ActorBehavior::Vm(_) => None,
        }
    } else {
        None
    }
}

} // verus!
