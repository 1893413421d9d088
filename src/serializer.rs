use vstd::prelude::*;
use vstd::string::StringExecFns;
use crate::types::{RESPValue, Resp};

verus! {

broadcast use vstd::std_specs::vec::group_vec_axioms;

/// The wire text of a value, without the final line terminator. An array
/// gives its elements joined by line terminators, with no count line.
pub open spec fn serialized(v: Resp) -> Seq<char>
    decreases v,
{
    match v {
        Resp::Simple(s) => seq!['+'] + s,
        Resp::Fault(m) => seq!['-'] + m,
        Resp::Nil => seq!['$', '-', '1'],
        Resp::Items(vs) => serialized_items(vs),
    }
}

/// The wire texts of the values joined by line terminators.
pub open spec fn serialized_items(vs: Seq<Resp>) -> Seq<char>
    decreases vs,
{
    if vs.len() == 0 {
        seq![]
    } else if vs.len() == 1 {
        serialized(vs[0])
    } else {
        serialized_items(vs.drop_last()) + seq!['\r', '\n'] + serialized(vs.last())
    }
}

pub fn serialize_resp(value: &RESPValue) -> (r: String)
    ensures
        r@ == serialized(value@),
    decreases value,
{
    match value {
        RESPValue::String(x) => {
            let mut out = "+".to_owned();
            out.append(x.as_str());
            proof {
                reveal_strlit("+");
                assert(out@ =~= seq!['+'] + x@);
                assert(value@ == Resp::Simple(x@));
                assert(serialized(value@) == seq!['+'] + x@);
            }
            out
        },
        RESPValue::Error(x) => {
            let mut out = "-".to_owned();
            out.append(x.message.as_str());
            proof {
                reveal_strlit("-");
                assert(out@ =~= seq!['-'] + x.message@);
            }
            out
        },
        RESPValue::Array(items) => {
            let ghost vs = value@->Items_0;
            let mut out = String::new();
            let mut i: usize = 0;
            while i < items.len()
                invariant
                    i <= items@.len(),
                    *value == RESPValue::Array(*items),
                    vs == value@->Items_0,
                    out@ == serialized_items(vs.take(i as int)),
                decreases items.len() - i,
            {
                assert(decreases_to!(*value => value->Array_0));
                assert(decreases_to!(items => items[i as int]));
                if i > 0 {
                    out.append("\r\n");
                }
                let part = serialize_resp(&items[i]);
                out.append(part.as_str());
                proof {
                    reveal_strlit("\r\n");
                    let before = vs.take(i as int);
                    let after = vs.take(i + 1);
                    assert(after.drop_last() =~= before);
                    assert(vs[i as int] == items@[i as int]@);
                    if i == 0 {
                        assert(out@ =~= serialized(after[0]));
                    } else {
                        assert(out@ =~= serialized_items(before) + seq!['\r', '\n'] + serialized(after.last()));
                    }
                }
                i = i + 1;
            }
            assert(vs.take(i as int) =~= vs);
            out
        },
        RESPValue::NullString() => {
            proof {
                reveal_strlit("$-1");
                assert(serialized(value@) == seq!['$', '-', '1']);
                assert("$-1"@ =~= seq!['$', '-', '1']);
            }
            "$-1".to_owned()
        },
    }
}

} // verus!
