use vstd::prelude::*;
use vstd::utf8::{
    encode_scalar, encode_utf8, encode_utf8_decode_utf8, encode_utf8_valid_utf8,
    is_ascii_chars_encode_utf8,
};
use crate::number::{all_digits, decimal};
use crate::parser::{find_lf, parse_at, parse_items, Parsed, ParsedItems};
use crate::serializer::{serialized, serialized_items};
use crate::types::Resp;

verus! {

/// The bytes sent for a value: its wire text and a line terminator, in UTF-8.
pub open spec fn wire_bytes(v: Resp) -> Seq<u8> {
    encode_utf8(serialized(v) + seq!['\r', '\n'])
}

/// The text holds no line feed.
pub open spec fn single_line(t: Seq<char>) -> bool {
    forall|i: int| 0 <= i < t.len() ==> t[i] != '\n'
}

proof fn lemma_encode_concat(a: Seq<char>, b: Seq<char>)
    ensures
        encode_utf8(a + b) == encode_utf8(a) + encode_utf8(b),
    decreases a.len(),
{
    if a.len() == 0 {
        assert(a + b =~= b);
        assert(encode_utf8(a) + encode_utf8(b) =~= encode_utf8(b));
    } else {
        assert((a + b).drop_first() =~= a.drop_first() + b);
        lemma_encode_concat(a.drop_first(), b);
        assert(encode_utf8(a + b) =~= encode_utf8(a) + encode_utf8(b));
    }
}

proof fn lemma_scalar_line_feed(c: char)
    ensures
        forall|k: int|
            0 <= k < encode_scalar(c as u32).len() ==> (#[trigger] encode_scalar(c as u32)[k] == 10 ==> c == '\n'),
{
    let u = c as u32;
    if u <= 0x7F {
        assert((u & 0x7F) as u8 == 10 ==> u == 10) by (bit_vector)
            requires
                u <= 0x7F,
        ;
    } else {
        assert(0xC0 | ((u >> 6) & 0x1F) as u8 != 10) by (bit_vector);
        assert(0xE0 | ((u >> 12) & 0x0F) as u8 != 10) by (bit_vector);
        assert(0xF0 | ((u >> 18) & 0x7) as u8 != 10) by (bit_vector);
        assert(0x80 | (u & 0x3F) as u8 != 10) by (bit_vector);
        assert(0x80 | ((u >> 6) & 0x3F) as u8 != 10) by (bit_vector);
        assert(0x80 | ((u >> 12) & 0x3F) as u8 != 10) by (bit_vector);
    }
}

proof fn lemma_encode_single_line(t: Seq<char>)
    requires
        single_line(t),
    ensures
        forall|k: int| 0 <= k < encode_utf8(t).len() ==> encode_utf8(t)[k] != 10,
    decreases t.len(),
{
    if t.len() > 0 {
        lemma_scalar_line_feed(t[0]);
        assert(single_line(t.drop_first()));
        lemma_encode_single_line(t.drop_first());
        let head = encode_scalar(t[0] as u32);
        let rest = encode_utf8(t.drop_first());
        assert(encode_utf8(t) == head + rest);
        assert forall|k: int| 0 <= k < encode_utf8(t).len() implies encode_utf8(t)[k] != 10 by {
            if k < head.len() {
                assert(head[k] == encode_utf8(t)[k]);
            } else {
                assert(rest[k - head.len()] == encode_utf8(t)[k]);
            }
        }
    }
}

proof fn lemma_find_lf(s: Seq<u8>, i: int, j: int)
    requires
        0 <= i <= j < s.len(),
        s[j] == 10,
        forall|k: int| i <= k < j ==> s[k] != 10,
    ensures
        find_lf(s, i) == j,
    decreases j - i,
{
    if i < j {
        lemma_find_lf(s, i + 1, j);
    }
}

proof fn lemma_tagged_line(tag: char, t: Seq<char>, s: Seq<u8>, j: int)
    requires
        tag == '+' || tag == '-',
        single_line(t),
        0 <= j,
        j + encode_utf8(seq![tag] + t + seq!['\r', '\n']).len() <= s.len(),
        s.subrange(j, j + encode_utf8(seq![tag] + t + seq!['\r', '\n']).len())
            == encode_utf8(seq![tag] + t + seq!['\r', '\n']),
    ensures
        ({
            let n = encode_utf8(t).len() as int;
            &&& encode_utf8(seq![tag] + t + seq!['\r', '\n']).len() == n + 3
            &&& s[j] == tag as u8
            &&& s.subrange(j + 1, j + n + 1) == encode_utf8(t)
            &&& s[j + n + 1] == 13
            &&& find_lf(s, j) == j + n + 2
        }),
{
    let head = seq![tag];
    let tail = seq!['\r', '\n'];
    lemma_encode_concat(head, t);
    lemma_encode_concat(head + t, tail);
    is_ascii_chars_encode_utf8(head);
    is_ascii_chars_encode_utf8(tail);
    lemma_encode_single_line(t);
    let e = encode_utf8(t);
    let w = encode_utf8(head + t + tail);
    let n = e.len() as int;
    assert(w == encode_utf8(head) + e + encode_utf8(tail));
    assert(w.len() == n + 3);
    assert forall|k: int| 0 <= k < n + 3 implies s[j + k] == w[k] by {
        assert(s.subrange(j, j + n + 3)[k] == s[j + k]);
    }
    assert(s[j + 0] == w[0]);
    assert(s.subrange(j + 1, j + n + 1) =~= e) by {
        assert forall|k: int| 0 <= k < n implies s.subrange(j + 1, j + n + 1)[k] == e[k] by {
            assert(s[j + (k + 1)] == w[k + 1]);
        }
    }
    assert(s[j + (n + 1)] == w[n + 1]);
    assert(s[j + (n + 2)] == w[n + 2]);
    assert forall|k: int| j <= k < j + n + 2 implies s[k] != 10 by {
        assert(s[j + (k - j)] == w[k - j]);
        if 1 <= k - j < n + 1 {
            assert(w[k - j] == e[k - j - 1]);
        }
    }
    lemma_find_lf(s, j, j + n + 2);
}

/// A value that a single frame can carry back: a string or an error whose
/// text holds no line feed, or the null value.
pub open spec fn line_value(v: Resp) -> bool {
    match v {
        Resp::Simple(t) => single_line(t),
        Resp::Fault(t) => single_line(t),
        Resp::Nil => true,
        Resp::Items(_) => false,
    }
}

/// Wherever the wire bytes of a string, error or null value stand in a
/// stream, reading a frame there gives the value back and stops right after
/// those bytes, whatever follows and whether or not the stream is closed.
pub proof fn lemma_frame_at(v: Resp, s: Seq<u8>, j: int, closed: bool)
    requires
        line_value(v),
        0 <= j,
        j + wire_bytes(v).len() <= s.len(),
        s.subrange(j, j + wire_bytes(v).len()) == wire_bytes(v),
    ensures
        parse_at(s, j, closed) == Parsed::Frame(v, j + wire_bytes(v).len()),
        wire_bytes(v).len() > 0,
{
    let tail = seq!['\r', '\n'];
    match v {
        Resp::Simple(t) => {
            assert(serialized(v) + tail == seq!['+'] + t + tail);
            lemma_tagged_line('+', t, s, j);
            encode_utf8_valid_utf8(t);
            encode_utf8_decode_utf8(t);
        },
        Resp::Fault(t) => {
            assert(serialized(v) + tail == seq!['-'] + t + tail);
            lemma_tagged_line('-', t, s, j);
            encode_utf8_valid_utf8(t);
            encode_utf8_decode_utf8(t);
        },
        Resp::Nil => {
            let chars = seq!['$', '-', '1'] + tail;
            is_ascii_chars_encode_utf8(chars);
            let w = wire_bytes(v);
            assert(w =~= seq![36u8, 45, 49, 13, 10]);
            assert forall|k: int| 0 <= k < 5 implies s[j + k] == w[k] by {
                assert(s.subrange(j, j + 5)[k] == s[j + k]);
            }
            assert(s[j + 0] == 36 && s[j + 1] == 45 && s[j + 2] == 49 && s[j + 3] == 13 && s[j + 4] == 10);
            lemma_find_lf(s, j, j + 4);
            assert(s.subrange(j + 1, j + 3) =~= seq![45u8, 49u8]);
        },
        Resp::Items(_) => {},
    }
}

/// A string, error or null value whose text holds no line feed reads back as
/// itself from its wire bytes followed by any further bytes: the read stops
/// right after the frame and leaves the rest, whether or not the stream is
/// closed.
pub proof fn lemma_round_trip(v: Resp, rest: Seq<u8>, closed: bool)
    requires
        line_value(v),
    ensures
        parse_at(wire_bytes(v) + rest, 0, closed) == Parsed::Frame(v, wire_bytes(v).len() as int),
{
    let s = wire_bytes(v) + rest;
    assert(s.subrange(0, wire_bytes(v).len() as int) =~= wire_bytes(v));
    lemma_frame_at(v, s, 0, closed);
}

/// The wire bytes of the values one after another.
pub open spec fn wires(vs: Seq<Resp>) -> Seq<u8>
    decreases vs.len(),
{
    if vs.len() == 0 {
        seq![]
    } else {
        wire_bytes(vs[0]) + wires(vs.drop_first())
    }
}

/// The bytes of an array frame: `*`, the decimal digits `count`, a line
/// terminator, then the wire bytes of the array value, that is its elements'
/// texts joined by line terminators and a final line terminator.
pub open spec fn array_wire(count: Seq<u8>, items: Seq<Resp>) -> Seq<u8> {
    seq![42u8] + count + seq![13u8, 10u8] + wire_bytes(Resp::Items(items))
}

proof fn lemma_wires_push(vs: Seq<Resp>, x: Resp)
    ensures
        wires(vs.push(x)) == wires(vs) + wire_bytes(x),
    decreases vs.len(),
{
    if vs.len() == 0 {
        let one = vs.push(x);
        assert(one.drop_first() =~= Seq::<Resp>::empty());
        assert(wires(one.drop_first()) == Seq::<u8>::empty());
        assert(wires(vs) == Seq::<u8>::empty());
        assert(one[0] == x);
        assert(wires(one) =~= wires(vs) + wire_bytes(x));
    } else {
        assert(vs.push(x).drop_first() =~= vs.drop_first().push(x));
        lemma_wires_push(vs.drop_first(), x);
        assert(wires(vs.push(x)) =~= wires(vs) + wire_bytes(x));
    }
}

proof fn lemma_items_wire(vs: Seq<Resp>)
    requires
        vs.len() >= 1,
    ensures
        wire_bytes(Resp::Items(vs)) == wires(vs),
    decreases vs.len(),
{
    let crlf = seq!['\r', '\n'];
    if vs.len() == 1 {
        assert(vs.drop_first() =~= Seq::<Resp>::empty());
        assert(wires(vs.drop_first()) == Seq::<u8>::empty());
        assert(wires(vs) =~= wire_bytes(vs[0]));
    } else {
        let dl = vs.drop_last();
        lemma_items_wire(dl);
        assert(serialized_items(vs) + crlf =~= (serialized_items(dl) + crlf) + (serialized(vs.last()) + crlf));
        lemma_encode_concat(serialized_items(dl) + crlf, serialized(vs.last()) + crlf);
        lemma_wires_push(dl, vs.last());
        assert(dl.push(vs.last()) =~= vs);
    }
}

proof fn lemma_items_at(vs: Seq<Resp>, s: Seq<u8>, j: int, closed: bool)
    requires
        forall|i: int| 0 <= i < vs.len() ==> line_value(#[trigger] vs[i]),
        0 <= j,
        j + wires(vs).len() <= s.len(),
        s.subrange(j, j + wires(vs).len()) == wires(vs),
    ensures
        parse_items(s, j, vs.len(), closed) == ParsedItems::Done(vs, j + wires(vs).len()),
    decreases vs.len(),
{
    if vs.len() == 0 {
        assert(vs =~= seq![]);
    } else {
        let w0 = wire_bytes(vs[0]);
        let tail = vs.drop_first();
        let k = j + w0.len();
        assert(s.subrange(j, k) =~= w0) by {
            assert forall|i: int| 0 <= i < w0.len() implies s.subrange(j, k)[i] == w0[i] by {
                assert(s.subrange(j, j + wires(vs).len())[i] == wires(vs)[i]);
            }
        }
        lemma_frame_at(vs[0], s, j, closed);
        assert(s.subrange(k, k + wires(tail).len()) =~= wires(tail)) by {
            assert forall|i: int| 0 <= i < wires(tail).len() implies s.subrange(k, k + wires(tail).len())[i]
                == wires(tail)[i] by {
                assert(s.subrange(j, j + wires(vs).len())[w0.len() + i] == wires(vs)[w0.len() + i]);
            }
        }
        assert forall|i: int| 0 <= i < tail.len() implies line_value(#[trigger] tail[i]) by {
            assert(tail[i] == vs[i + 1]);
        }
        lemma_items_at(tail, s, k, closed);
        assert(seq![vs[0]] + tail =~= vs);
    }
}

/// An array of one or more string, error or null values whose texts hold no
/// line feed reads back as itself from its wire bytes behind a count line
/// whose digits give the number of elements, whatever follows: the read stops
/// right after the last element's line terminator.
pub proof fn lemma_round_trip_array(items: Seq<Resp>, count: Seq<u8>, rest: Seq<u8>, closed: bool)
    requires
        1 <= items.len() <= u64::MAX,
        forall|i: int| 0 <= i < items.len() ==> line_value(#[trigger] items[i]),
        decimal(count) == Some(items.len() as u64),
    ensures
        parse_at(array_wire(count, items) + rest, 0, closed) == Parsed::Frame(
            Resp::Items(items),
            array_wire(count, items).len() as int,
        ),
{
    let w = wire_bytes(Resp::Items(items));
    let s = array_wire(count, items) + rest;
    let c = count.len() as int;
    lemma_items_wire(items);
    assert(s[0] == 42);
    assert(all_digits(count));
    assert forall|k: int| 1 <= k < c + 1 implies s[k] != 10 && s[k] != 13 by {
        assert(s[k] == count[k - 1]);
    }
    assert(s[c + 1] == 13 && s[c + 2] == 10);
    lemma_find_lf(s, 0, c + 2);
    assert(find_lf(s, 0) == c + 2);
    assert(s.subrange(1, c + 1) =~= count);
    assert(s.subrange(c + 3, c + 3 + w.len()) =~= w);
    lemma_items_at(items, s, c + 3, closed);
    assert(parse_items(s, c + 3, items.len(), closed) == ParsedItems::Done(items, c + 3 + w.len()));
    assert((items.len() as u64) as nat == items.len());
    assert(s.len() == c + 3 + w.len() + rest.len());
}

} // verus!
