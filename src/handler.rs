use vstd::prelude::*;
use vstd::string::StringExecFns;
use vstd::utf8::encode_utf8;
use crate::number::{decimal, parse_decimal};
use crate::store::{lookup, stored, State, StoreView};
use crate::types::{RESPError, RESPValue, Resp};

verus! {

pub open spec fn lower_byte(b: u8) -> u8 {
    if 65 <= b <= 90 {
        (b + 32) as u8
    } else {
        b
    }
}

/// `b` spells the lower-case ASCII word `w`, in any mix of cases.
pub open spec fn is_word(b: Seq<u8>, w: Seq<u8>) -> bool {
    b.len() == w.len() && forall|i: int| 0 <= i < b.len() ==> lower_byte(#[trigger] b[i]) == w[i]
}

pub open spec fn word_echo() -> Seq<u8> {
    seq![101u8, 99, 104, 111]
}

pub open spec fn word_ping() -> Seq<u8> {
    seq![112u8, 105, 110, 103]
}

pub open spec fn word_set() -> Seq<u8> {
    seq![115u8, 101, 116]
}

pub open spec fn word_get() -> Seq<u8> {
    seq![103u8, 101, 116]
}

pub open spec fn word_px() -> Seq<u8> {
    seq![112u8, 120]
}

pub open spec fn unknown_reply() -> Seq<char> {
    "Unknown command!"@
}

pub open spec fn not_a_command_error() -> Seq<char> {
    "Command needs to be defined as string"@
}

pub open spec fn arity_error() -> Seq<char> {
    "ERR wrong number of arguments"@
}

pub open spec fn ttl_error() -> Seq<char> {
    "ERR expiry is not a non-negative integer"@
}

/// The command name and its arguments: a lone string is a command without
/// arguments; otherwise a non-empty array of strings.
pub open spec fn command_parts(command: Resp) -> Option<(Seq<char>, Seq<Seq<char>>)> {
    match command {
        Resp::Simple(s) => Some((s, seq![])),
        Resp::Items(vs) => {
            if vs.len() > 0 && forall|i: int| 0 <= i < vs.len() ==> #[trigger] vs[i] is Simple {
                Some((vs[0]->Simple_0, Seq::new((vs.len() - 1) as nat, |i: int| vs[i + 1]->Simple_0)))
            } else {
                None
            }
        },
        _ => None,
    }
}

/// The arguments joined by single spaces.
pub open spec fn joined(args: Seq<Seq<char>>) -> Seq<char>
    decreases args.len(),
{
    if args.len() == 0 {
        seq![]
    } else if args.len() == 1 {
        args[0]
    } else {
        joined(args.drop_last()) + seq![' '] + args.last()
    }
}

pub open spec fn ping_reply(args: Seq<Seq<char>>) -> Resp {
    if args.len() == 0 {
        Resp::Simple("PONG"@)
    } else if args.len() == 1 {
        Resp::Simple(args[0])
    } else {
        Resp::Fault(arity_error())
    }
}

/// The time-to-live that the arguments of SET ask for: `Ok(None)` without a
/// PX option, `Err` with the message when the option is malformed.
pub open spec fn ttl_option(args: Seq<Seq<char>>) -> Result<Option<u64>, Seq<char>> {
    if args.len() >= 3 && is_word(encode_utf8(args[2]), word_px()) {
        if args.len() < 4 {
            Err(arity_error())
        } else {
            match decimal(encode_utf8(args[3])) {
                Some(t) => Ok(Some(t)),
                None => Err(ttl_error()),
            }
        }
    } else {
        Ok(None)
    }
}

pub open spec fn set_outcome(args: Seq<Seq<char>>, m: StoreView, now: u64) -> (Resp, StoreView) {
    if args.len() < 2 {
        (Resp::Fault(arity_error()), m)
    } else {
        match ttl_option(args) {
            Ok(ttl) => (Resp::Simple("OK"@), stored(m, args[0], args[1], ttl, now)),
            Err(msg) => (Resp::Fault(msg), m),
        }
    }
}

pub open spec fn get_reply(args: Seq<Seq<char>>, m: StoreView, now: u64) -> Resp {
    if args.len() != 1 {
        Resp::Fault(arity_error())
    } else {
        match lookup(m, args[0], now as int) {
            Some(v) => Resp::Simple(v),
            None => Resp::Nil,
        }
    }
}

/// The reply to command `name` with `args` at instant `now`, and the store after it.
pub open spec fn executed(name: Seq<char>, args: Seq<Seq<char>>, m: StoreView, now: u64) -> (Resp, StoreView) {
    let b = encode_utf8(name);
    if is_word(b, word_echo()) {
        (Resp::Simple(joined(args)), m)
    } else if is_word(b, word_ping()) {
        (ping_reply(args), m)
    } else if is_word(b, word_set()) {
        set_outcome(args, m, now)
    } else if is_word(b, word_get()) {
        (get_reply(args, m, now), m)
    } else {
        (Resp::Simple(unknown_reply()), m)
    }
}

/// The reply to a decoded command frame, and the store after it.
pub open spec fn handled(command: Resp, m: StoreView, now: u64) -> (Resp, StoreView) {
    match command_parts(command) {
        Some((name, args)) => executed(name, args, m, now),
        None => (Resp::Fault(not_a_command_error()), m),
    }
}

pub open spec fn strings_of(v: Seq<String>) -> Seq<Seq<char>> {
    Seq::new(v.len(), |i: int| v[i]@)
}

fn error_value(message: &str) -> (r: RESPValue)
    ensures
        r@ == Resp::Fault(message@),
{
    RESPValue::Error(RESPError { message: message.to_owned() })
}

fn string_value(s: &str) -> (r: RESPValue)
    ensures
        r@ == Resp::Simple(s@),
{
    RESPValue::String(s.to_owned())
}

fn word_matches(b: &[u8], w: &[u8]) -> (r: bool)
    ensures
        r == is_word(b@, w@),
{
    if b.len() != w.len() {
        return false;
    }
    let mut i: usize = 0;
    while i < b.len()
        invariant
            b@.len() == w@.len(),
            i <= b@.len(),
            forall|j: int| 0 <= j < i ==> lower_byte(#[trigger] b@[j]) == w@[j],
        decreases b.len() - i,
    {
        let c = b[i];
        let lower = if 65 <= c && c <= 90 {
            c + 32
        } else {
            c
        };
        if lower != w[i] {
            return false;
        }
        i = i + 1;
    }
    true
}

/// Executes one decoded command frame against the store, at instant `now` in
/// milliseconds, and returns the reply.
pub fn handle_command(command: &RESPValue, state: &mut State, now: u64) -> (r: RESPValue)
    ensures
        (r@, final(state)@) == handled(command@, old(state)@, now),
{
    match command {
        RESPValue::String(x) => handle_string(x, state, now),
        RESPValue::Array(items) => {
            if items.len() == 0 {
                return error_value("Command needs to be defined as string");
            }
            let ghost vs = command@->Items_0;
            assert(vs[0] == items@[0]@);
            let name = match &items[0] {
                RESPValue::String(x) => x,
                _ => {
                    assert(!(vs[0] is Simple));
                    return error_value("Command needs to be defined as string");
                },
            };
            assert(vs.len() == items@.len());
            let mut arguments: Vec<String> = Vec::new();
            let mut i: usize = 1;
            while i < items.len()
                invariant
                    1 <= i <= items@.len(),
                    command@ == Resp::Items(vs),
                    vs.len() == items@.len(),
                    forall|j: int| 0 <= j < vs.len() ==> vs[j] == #[trigger] items@[j]@,
                    arguments@.len() == i - 1,
                    forall|j: int| 0 < j < i ==> #[trigger] vs[j] is Simple,
                    forall|j: int| 0 <= j < i - 1 ==> Resp::Simple(#[trigger] arguments@[j]@) == vs[j + 1],
                decreases items.len() - i,
            {
                match &items[i] {
                    RESPValue::String(x) => {
                        assert(vs[i as int] == items@[i as int]@);
                        arguments.push(x.clone());
                    },
                    _ => {
                        assert(vs[i as int] == items@[i as int]@);
                        assert(!(vs[i as int] is Simple));
                        assert(command_parts(command@) is None);
                        return error_value("Command needs to be defined as string");
                    },
                }
                i = i + 1;
            }
            assert(forall|j: int| 0 <= j < vs.len() ==> #[trigger] vs[j] is Simple) by {
                assert(vs[0] is Simple);
            }
            assert(strings_of(arguments@) =~= Seq::new((vs.len() - 1) as nat, |i: int| vs[i + 1]->Simple_0));
            handle_single_command(name.as_str(), &arguments, state, now)
        },
        _ => error_value("Command needs to be defined as string"),
    }
}

fn handle_string(message: &str, state: &mut State, now: u64) -> (r: RESPValue)
    ensures
        (r@, final(state)@) == executed(message@, seq![], old(state)@, now),
{
    let arguments: Vec<String> = Vec::new();
    assert(strings_of(arguments@) =~= seq![]);
    handle_single_command(message, &arguments, state, now)
}

fn handle_single_command(command: &str, arguments: &Vec<String>, state: &mut State, now: u64) -> (r: RESPValue)
    ensures
        (r@, final(state)@) == executed(command@, strings_of(arguments@), old(state)@, now),
{
    let name = command.as_bytes();
    if word_matches(name, &[101u8, 99, 104, 111]) {
        handle_echo(arguments)
    } else if word_matches(name, &[112u8, 105, 110, 103]) {
        handle_ping(arguments)
    } else if word_matches(name, &[115u8, 101, 116]) {
        handle_set(arguments, state, now)
    } else if word_matches(name, &[103u8, 101, 116]) {
        handle_get(arguments, state, now)
    } else {
        string_value("Unknown command!")
    }
}

fn handle_echo(arguments: &Vec<String>) -> (r: RESPValue)
    ensures
        r@ == Resp::Simple(joined(strings_of(arguments@))),
{
    let mut out = String::new();
    let mut i: usize = 0;
    while i < arguments.len()
        invariant
            i <= arguments@.len(),
            out@ == joined(strings_of(arguments@).take(i as int)),
        decreases arguments.len() - i,
    {
        let ghost before = strings_of(arguments@).take(i as int);
        if i > 0 {
            out.append(" ");
        }
        out.append(arguments[i].as_str());
        proof {
            reveal_strlit(" ");
            let after = strings_of(arguments@).take(i + 1);
            assert(after.drop_last() =~= before);
            if i == 0 {
                assert(out@ =~= after[0]);
            } else {
                assert(out@ =~= joined(before) + seq![' '] + after.last());
            }
        }
        i = i + 1;
    }
    assert(strings_of(arguments@).take(i as int) =~= strings_of(arguments@));
    RESPValue::String(out)
}

fn handle_ping(arguments: &Vec<String>) -> (r: RESPValue)
    ensures
        r@ == ping_reply(strings_of(arguments@)),
{
    if arguments.len() == 0 {
        string_value("PONG")
    } else if arguments.len() == 1 {
        RESPValue::String(arguments[0].clone())
    } else {
        error_value("ERR wrong number of arguments")
    }
}

fn handle_set(arguments: &Vec<String>, state: &mut State, now: u64) -> (r: RESPValue)
    ensures
        (r@, final(state)@) == set_outcome(strings_of(arguments@), old(state)@, now),
{
    let ghost args = strings_of(arguments@);
    if arguments.len() < 2 {
        return error_value("ERR wrong number of arguments");
    }
    let mut ttl: Option<u64> = None;
    if arguments.len() >= 3 && word_matches(arguments[2].as_str().as_bytes(), &[112u8, 120]) {
        if arguments.len() < 4 {
            return error_value("ERR wrong number of arguments");
        }
        let digits = arguments[3].as_str().as_bytes();
        assert(digits@.subrange(0, digits@.len() as int) =~= digits@);
        match parse_decimal(digits, 0, digits.len()) {
            Some(t) => {
                ttl = Some(t);
            },
            None => {
                return error_value("ERR expiry is not a non-negative integer");
            },
        }
    }
    assert(ttl_option(args) == Ok::<Option<u64>, Seq<char>>(ttl));
    state.set(arguments[0].clone(), arguments[1].clone(), ttl, now);
    string_value("OK")
}

fn handle_get(arguments: &Vec<String>, state: &State, now: u64) -> (r: RESPValue)
    ensures
        r@ == get_reply(strings_of(arguments@), state@, now),
{
    if arguments.len() != 1 {
        return error_value("ERR wrong number of arguments");
    }
    match state.get(arguments[0].as_str(), now) {
        Some(v) => RESPValue::String(v),
        None => RESPValue::NullString(),
    }
}

/// A command whose name is none of ECHO, PING, SET and GET, in any case, gets
/// the informational string reply, never an error, whatever its arguments, and
/// leaves the store as it was.
pub proof fn lemma_unknown_command(name: Seq<char>, args: Seq<Seq<char>>, m: StoreView, now: u64)
    requires
        !is_word(encode_utf8(name), word_echo()),
        !is_word(encode_utf8(name), word_ping()),
        !is_word(encode_utf8(name), word_set()),
        !is_word(encode_utf8(name), word_get()),
    ensures
        executed(name, args, m, now) == (Resp::Simple(unknown_reply()), m),
{
}

/// GET of a key after a SET of it without PX replies with the value that was
/// set, at every later instant.
pub proof fn lemma_set_then_get(
    set_name: Seq<char>,
    get_name: Seq<char>,
    key: Seq<char>,
    value: Seq<char>,
    m: StoreView,
    set_at: u64,
    get_at: u64,
)
    requires
        is_word(encode_utf8(set_name), word_set()),
        is_word(encode_utf8(get_name), word_get()),
    ensures
        executed(set_name, seq![key, value], m, set_at).0 == Resp::Simple("OK"@),
        executed(get_name, seq![key], executed(set_name, seq![key, value], m, set_at).1, get_at).0
            == Resp::Simple(value),
{
    let s = encode_utf8(set_name);
    let g = encode_utf8(get_name);
    assert(!is_word(s, word_echo()) && !is_word(s, word_ping()));
    assert(lower_byte(g[0]) == 103);
    assert(!is_word(g, word_echo()) && !is_word(g, word_ping()) && !is_word(g, word_set()));
}

} // verus!
