use vstd::prelude::*;
use vstd::utf8::{decode_utf8, valid_utf8};
use crate::number::{decimal, parse_decimal};
use crate::types::{views_of, RESPError, RESPValue, Resp};

verus! {

/// The index of the first line feed at or after `i`, or the length of `s`.
pub open spec fn find_lf(s: Seq<u8>, i: int) -> int
    decreases s.len() - i,
{
    if i < 0 || i >= s.len() {
        s.len() as int
    } else if s[i] == 10 {
        i
    } else {
        find_lf(s, i + 1)
    }
}

/// Where the text of the line that starts at `i` ends: before its line feed
/// and before a carriage return that precedes it.
pub open spec fn content_end(s: Seq<u8>, i: int) -> int {
    let e = find_lf(s, i);
    if e > i && s[e - 1] == 13 {
        e - 1
    } else {
        e
    }
}

/// Where the line after the one that starts at `i` begins.
pub open spec fn after_line(s: Seq<u8>, i: int) -> int {
    let e = find_lf(s, i);
    if e < s.len() {
        e + 1
    } else {
        s.len() as int
    }
}

/// The characters that `b` encodes, when it is valid UTF-8.
pub open spec fn text(b: Seq<u8>) -> Option<Seq<char>> {
    if valid_utf8(b) {
        Some(decode_utf8(b))
    } else {
        None
    }
}

/// What reading one frame from a position of a byte stream gives.
pub enum Parsed {
    /// A frame, and the position right after it.
    Frame(Resp, int),
    /// The stream is closed and nothing is left.
    End,
    /// The line starts with no known type byte.
    Unknown,
    /// The stream is open and the frame is not all there yet.
    Partial,
    /// A length is not a number, a payload is not UTF-8, a body is cut short,
    /// or an element of an array is missing.
    Malformed,
}

/// What reading the elements of an array gives.
pub enum ParsedItems {
    Done(Seq<Resp>, int),
    Partial,
    Malformed,
}

/// The bytes after the type byte of the line at `i`, without terminator.
pub open spec fn line_body(s: Seq<u8>, i: int) -> Seq<u8> {
    if i + 1 <= content_end(s, i) {
        s.subrange(i + 1, content_end(s, i))
    } else {
        seq![]
    }
}

/// A bulk string whose header line ends at `next`: `-1` is the null value;
/// otherwise a length `n`, `n` bytes of payload, and one more line that is
/// skipped.
pub open spec fn bulk_at(s: Seq<u8>, next: int, header: Seq<u8>, closed: bool) -> Parsed {
    if header == seq![45u8, 49u8] {
        Parsed::Frame(Resp::Nil, next)
    } else {
        match decimal(header) {
            None => Parsed::Malformed,
            Some(n) => {
                let stop = next + n;
                if stop > s.len() {
                    if closed {
                        Parsed::Malformed
                    } else {
                        Parsed::Partial
                    }
                } else if find_lf(s, stop) == s.len() && !closed {
                    Parsed::Partial
                } else {
                    match text(s.subrange(next, stop)) {
                        Some(t) => Parsed::Frame(Resp::Simple(t), after_line(s, stop)),
                        None => Parsed::Malformed,
                    }
                }
            },
        }
    }
}

/// Reads the frame that starts at position `i` of `s`. With `closed`, `s` is
/// all that the stream will ever hold; otherwise more bytes may follow.
pub open spec fn parse_at(s: Seq<u8>, i: int, closed: bool) -> Parsed
    decreases s.len() - i, 0int,
{
    if i < 0 || i > s.len() {
        Parsed::Malformed
    } else if i == s.len() {
        if closed {
            Parsed::End
        } else {
            Parsed::Partial
        }
    } else if find_lf(s, i) == s.len() && !closed {
        Parsed::Partial
    } else {
        let tag = s[i];
        let next = after_line(s, i);
        let body = line_body(s, i);
        if tag == 43 {
            match text(body) {
                Some(t) => Parsed::Frame(Resp::Simple(t), next),
                None => Parsed::Malformed,
            }
        } else if tag == 45 {
            match text(body) {
                Some(t) => Parsed::Frame(Resp::Fault(t), next),
                None => Parsed::Malformed,
            }
        } else if tag == 42 {
            match decimal(body) {
                None => Parsed::Malformed,
                Some(n) => {
                    if next <= i || next > s.len() {
                        Parsed::Malformed
                    } else {
                        match parse_items(s, next, n as nat, closed) {
                            ParsedItems::Done(vs, e) => Parsed::Frame(Resp::Items(vs), e),
                            ParsedItems::Partial => Parsed::Partial,
                            ParsedItems::Malformed => Parsed::Malformed,
                        }
                    }
                },
            }
        } else if tag == 36 {
            bulk_at(s, next, body, closed)
        } else {
            Parsed::Unknown
        }
    }
}

/// Reads `n` frames in a row from position `j`.
pub open spec fn parse_items(s: Seq<u8>, j: int, n: nat, closed: bool) -> ParsedItems
    decreases s.len() - j, 1int,
{
    if n == 0 {
        ParsedItems::Done(seq![], j)
    } else if j < 0 || j > s.len() {
        ParsedItems::Malformed
    } else {
        match parse_at(s, j, closed) {
            Parsed::Frame(v, e) => {
                if e <= j || e > s.len() {
                    ParsedItems::Malformed
                } else {
                    match parse_items(s, e, (n - 1) as nat, closed) {
                        ParsedItems::Done(vs, e2) => ParsedItems::Done(seq![v] + vs, e2),
                        other => other,
                    }
                }
            },
            Parsed::Partial => ParsedItems::Partial,
            _ => ParsedItems::Malformed,
        }
    }
}

pub open spec fn prepend(acc: Seq<Resp>, r: ParsedItems) -> ParsedItems {
    match r {
        ParsedItems::Done(vs, e) => ParsedItems::Done(acc + vs, e),
        other => other,
    }
}

/// The outcome of reading one frame from a buffer.
pub enum ParseOutcome {
    /// A frame, and the position right after it.
    Frame(RESPValue, usize),
    End,
    Unknown,
    Partial,
    Malformed,
}

impl View for ParseOutcome {
    type V = Parsed;

    open spec fn view(&self) -> Parsed {
        match self {
            ParseOutcome::Frame(v, e) => Parsed::Frame(v@, *e as int),
            ParseOutcome::End => Parsed::End,
            ParseOutcome::Unknown => Parsed::Unknown,
            ParseOutcome::Partial => Parsed::Partial,
            ParseOutcome::Malformed => Parsed::Malformed,
        }
    }
}

/// Relies on std's `String::from_utf8`: it succeeds exactly when the bytes are
/// valid UTF-8, and the string then holds the characters that they encode.
#[verifier::external_body]
fn utf8_text(data: &Vec<u8>, start: usize, end: usize) -> (r: Option<String>)
    requires
        start <= end <= data@.len(),
    ensures
        match r {
            Some(t) => text(data@.subrange(start as int, end as int)) == Some(t@),
            None => text(data@.subrange(start as int, end as int)) is None,
        },
{
    String::from_utf8(data[start..end].to_vec()).ok()
}

fn find_line_feed(data: &Vec<u8>, i: usize) -> (e: usize)
    requires
        i <= data@.len(),
    ensures
        e == find_lf(data@, i as int),
        i <= e <= data@.len(),
        e < data@.len() ==> data@[e as int] == 10,
{
    let mut k: usize = i;
    while k < data.len()
        invariant
            i <= k <= data@.len(),
            find_lf(data@, k as int) == find_lf(data@, i as int),
        decreases data.len() - k,
    {
        if data[k] == 10 {
            return k;
        }
        k = k + 1;
    }
    k
}

fn parse_simple_string(data: &Vec<u8>, start: usize, end: usize) -> (r: Option<String>)
    requires
        start <= end <= data@.len(),
    ensures
        match r {
            Some(t) => text(data@.subrange(start as int, end as int)) == Some(t@),
            None => text(data@.subrange(start as int, end as int)) is None,
        },
{
    utf8_text(data, start, end)
}

fn parse_error(data: &Vec<u8>, start: usize, end: usize) -> (r: Option<RESPError>)
    requires
        start <= end <= data@.len(),
    ensures
        match r {
            Some(t) => text(data@.subrange(start as int, end as int)) == Some(t.message@),
            None => text(data@.subrange(start as int, end as int)) is None,
        },
{
    match utf8_text(data, start, end) {
        Some(message) => Some(RESPError { message }),
        None => None,
    }
}

fn parse_bulk_string(data: &Vec<u8>, start: usize, end: usize, next: usize, closed: bool) -> (r: ParseOutcome)
    requires
        start <= end <= next <= data@.len(),
    ensures
        r@ == bulk_at(data@, next as int, data@.subrange(start as int, end as int), closed),
        r matches ParseOutcome::Frame(_, e) ==> next <= e <= data@.len(),
{
    let ghost header = data@.subrange(start as int, end as int);
    if end - start == 2 && data[start] == 45 && data[start + 1] == 49 {
        assert(header =~= seq![45u8, 49u8]);
        return ParseOutcome::Frame(RESPValue::NullString(), next);
    }
    let n = match parse_decimal(data.as_slice(), start, end) {
        Some(n) => n,
        None => {
            return ParseOutcome::Malformed;
        },
    };
    if (next as u128) + (n as u128) > data.len() as u128 {
        return if closed {
            ParseOutcome::Malformed
        } else {
            ParseOutcome::Partial
        };
    }
    let stop = next + n as usize;
    let e = find_line_feed(data, stop);
    if e == data.len() && !closed {
        return ParseOutcome::Partial;
    }
    let after = if e < data.len() {
        e + 1
    } else {
        data.len()
    };
    match utf8_text(data, next, stop) {
        Some(t) => ParseOutcome::Frame(RESPValue::String(t), after),
        None => ParseOutcome::Malformed,
    }
}

fn parse_array(data: &Vec<u8>, pos: usize, next: usize, count: u64, closed: bool) -> (r: ParseOutcome)
    requires
        pos < next <= data@.len(),
    ensures
        r@ == match parse_items(data@, next as int, count as nat, closed) {
            ParsedItems::Done(vs, e) => Parsed::Frame(Resp::Items(vs), e),
            ParsedItems::Partial => Parsed::Partial,
            ParsedItems::Malformed => Parsed::Malformed,
        },
        r matches ParseOutcome::Frame(_, e) ==> next <= e <= data@.len(),
    decreases data@.len() - pos, 0int,
{
    let ghost s = data@;
    let mut items: Vec<RESPValue> = Vec::new();
    let mut j: usize = next;
    let mut k: u64 = 0;
    proof {
        if let ParsedItems::Done(vs, e) = parse_items(s, next as int, count as nat, closed) {
            assert(views_of(items@) + vs =~= vs);
        }
    }
    while k < count
        invariant
            s == data@,
            pos < next <= j <= s.len(),
            k <= count,
            items@.len() == k,
            parse_items(s, next as int, count as nat, closed) == prepend(
                views_of(items@),
                parse_items(s, j as int, (count - k) as nat, closed),
            ),
        decreases count - k,
    {
        match parse_frame(data, j, closed) {
            ParseOutcome::Frame(v, e) => {
                let ghost before = views_of(items@);
                let ghost rest = parse_items(s, e as int, (count - k - 1) as nat, closed);
                items.push(v);
                proof {
                    assert(views_of(items@) =~= before + seq![v@]);
                    if let ParsedItems::Done(vs, e2) = rest {
                        assert(before + (seq![v@] + vs) =~= (before + seq![v@]) + vs);
                    }
                }
                j = e;
                k = k + 1;
            },
            ParseOutcome::Partial => {
                return ParseOutcome::Partial;
            },
            _ => {
                return ParseOutcome::Malformed;
            },
        }
    }
    let ghost vs = views_of(items@);
    assert(vs + seq![] =~= vs);
    let r = RESPValue::Array(items);
    assert(r@ == Resp::Items(vs)) by {
        assert(vs =~= r@->Items_0);
    }
    ParseOutcome::Frame(r, j)
}

/// Reads the frame that starts at `pos` of `data`. With `closed`, `data` is
/// all that the stream will ever hold; otherwise more bytes may follow, and
/// `Partial` asks for them.
pub fn parse_frame(data: &Vec<u8>, pos: usize, closed: bool) -> (r: ParseOutcome)
    requires
        pos <= data@.len(),
    ensures
        r@ == parse_at(data@, pos as int, closed),
        r matches ParseOutcome::Frame(_, e) ==> pos < e <= data@.len(),
    decreases data@.len() - pos, 1int,
{
    if pos == data.len() {
        return if closed {
            ParseOutcome::End
        } else {
            ParseOutcome::Partial
        };
    }
    let e = find_line_feed(data, pos);
    if e == data.len() && !closed {
        return ParseOutcome::Partial;
    }
    let content_end = if e > pos && data[e - 1] == 13 {
        e - 1
    } else {
        e
    };
    let next = if e < data.len() {
        e + 1
    } else {
        data.len()
    };
    let tag = data[pos];
    if tag != 43 && tag != 45 && tag != 42 && tag != 36 {
        return ParseOutcome::Unknown;
    }
    assert(pos + 1 <= content_end);
    assert(line_body(data@, pos as int) == data@.subrange(pos + 1, content_end as int));
    if tag == 43 {
        match parse_simple_string(data, pos + 1, content_end) {
            Some(t) => ParseOutcome::Frame(RESPValue::String(t), next),
            None => ParseOutcome::Malformed,
        }
    } else if tag == 45 {
        match parse_error(data, pos + 1, content_end) {
            Some(err) => ParseOutcome::Frame(RESPValue::Error(err), next),
            None => ParseOutcome::Malformed,
        }
    } else if tag == 42 {
        match parse_decimal(data.as_slice(), pos + 1, content_end) {
            Some(n) => parse_array(data, pos, next, n, closed),
            None => ParseOutcome::Malformed,
        }
    } else {
        parse_bulk_string(data, pos + 1, content_end, next, closed)
    }
}

/// A byte stream that has been received in full, read one frame at a time.
pub struct FrameReader {
    data: Vec<u8>,
    pos: usize,
}

impl FrameReader {
    /// All bytes of the stream.
    pub closed spec fn bytes(&self) -> Seq<u8> {
        self.data@
    }

    /// How many bytes have been consumed.
    pub closed spec fn position(&self) -> int {
        self.pos as int
    }

    pub open spec fn wf(&self) -> bool {
        0 <= self.position() <= self.bytes().len()
    }

    pub fn new(bytes: &[u8]) -> (r: FrameReader)
        ensures
            r.bytes() == bytes@,
            r.position() == 0,
    {
        FrameReader { data: vstd::slice::slice_to_vec(bytes), pos: 0 }
    }

}

/// Reads the next frame of the stream. `None` when the stream is exhausted,
/// when the next line starts with no known type byte, or when the frame is
/// malformed; the position then stays where it was.
pub fn parse_next_command(reader: &mut FrameReader) -> (r: Option<RESPValue>)
    requires
        old(reader).wf(),
    ensures
        final(reader).wf(),
        final(reader).bytes() == old(reader).bytes(),
        match parse_at(old(reader).bytes(), old(reader).position(), true) {
            Parsed::Frame(v, e) => r is Some && r->0@ == v && final(reader).position() == e,
            _ => r is None && final(reader).position() == old(reader).position(),
        },
{
    match parse_frame(&reader.data, reader.pos, true) {
        ParseOutcome::Frame(v, e) => {
            reader.pos = e;
            Some(v)
        },
        _ => None,
    }
}

} // verus!
