use vstd::prelude::*;

verus! {

broadcast use vstd::std_specs::vec::group_vec_axioms;

/// The message carried by an error frame.
#[derive(Debug, PartialEq, Eq)]
pub struct RESPError {
    pub message: String,
}

/// A value of the wire protocol.
#[derive(Debug, PartialEq, Eq)]
pub enum RESPValue {
    String(String),
    Error(RESPError),
    Array(Vec<RESPValue>),
    NullString(),
}

/// The mathematical content of a `RESPValue`.
pub enum Resp {
    Simple(Seq<char>),
    Fault(Seq<char>),
    Items(Seq<Resp>),
    Nil,
}

pub open spec fn resp_of(v: RESPValue) -> Resp
    decreases v,
{
    match v {
        RESPValue::String(s) => Resp::Simple(s@),
        RESPValue::Error(e) => Resp::Fault(e.message@),
        RESPValue::Array(items) => Resp::Items(
            Seq::new(items.len() as nat, |i: int| if 0 <= i < items.len() { resp_of(items[i]) } else { Resp::Nil }),
        ),
        RESPValue::NullString() => Resp::Nil,
    }
}

/// The contents of each value in `items`, in order.
pub open spec fn views_of(items: Seq<RESPValue>) -> Seq<Resp> {
    Seq::new(items.len(), |i: int| items[i]@)
}

impl View for RESPValue {
    type V = Resp;

    open spec fn view(&self) -> Resp {
        resp_of(*self)
    }
}

} // verus!
