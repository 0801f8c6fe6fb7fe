//! Hierarchical names of single-bit nets.
use crate::names::{path_view, KeyView};
use itertools::Itertools;
use vstd::prelude::*;
use vstd::string::StringExecFns;

verus! {

/// A net: hierarchy segments, outermost first, and an optional bit index.
pub struct HId(pub Vec<String>, pub Option<i32>);

impl View for HId {
    type V = KeyView;

    open spec fn view(&self) -> KeyView {
        (path_view(self.0@), self.1)
    }
}

/// A net named by borrowed segments, for lookups that copy nothing.
pub struct RefHId<'a>(pub &'a [String], pub Option<i32>);

/// Access to the two parts of a net's name, owned or borrowed.
pub trait HierNameIdx {
    /// The hierarchy segments, outermost first.
    fn hier(&self) -> &[String];

    /// The bit index, if any.
    fn idx(&self) -> Option<i32>;
}

impl HierNameIdx for HId {
    fn hier(&self) -> (r: &[String])
        ensures
            r@ == self.0@,
    {
        self.0.as_slice()
    }

    fn idx(&self) -> (r: Option<i32>)
        ensures
            r == self.1,
    {
        self.1
    }
}

impl<'a> HierNameIdx for RefHId<'a> {
    fn hier(&self) -> (r: &[String])
        ensures
            r@ == self.0@,
    {
        self.0
    }

    fn idx(&self) -> (r: Option<i32>)
        ensures
            r == self.1,
    {
        self.1
    }
}

/// The segments joined with `/`.
pub open spec fn joined(p: Seq<Seq<char>>) -> Seq<char>
    decreases p.len(),
{
    if p.len() == 0 {
        Seq::empty()
    } else if p.len() == 1 {
        p[0]
    } else {
        joined(p.drop_last()) + seq!['/'] + p.last()
    }
}

/// The decimal digits of `n`, most significant first.
pub open spec fn decimal(n: nat) -> Seq<char>
    decreases n,
{
    let digits = seq!['0', '1', '2', '3', '4', '5', '6', '7', '8', '9'];
    if n < 10 {
        seq![digits[n as int]]
    } else {
        decimal(n / 10).push(digits[(n % 10) as int])
    }
}

/// An integer in decimal, with a leading `-` when negative.
pub open spec fn int_text(i: int) -> Seq<char> {
    if i < 0 {
        seq!['-'] + decimal((-i) as nat)
    } else {
        decimal(i as nat)
    }
}

/// How a net is written: `seg0/seg1/.../segN[bit]`, the bracket left out
/// when there is no bit index.
pub open spec fn hid_text(k: KeyView) -> Seq<char> {
    match k.1 {
        None => joined(k.0),
        Some(i) => joined(k.0) + seq!['['] + int_text(i as int) + seq![']'],
    }
}

/// Relies on `itertools::Itertools::join`: the items' text with the
/// separator between each two.
#[verifier::external_body]
fn join_path(p: &Vec<String>) -> (r: String)
    ensures
        r@ == joined(path_view(p@)),
{
    p.iter().join("/")
}

/// Relies on `i32`'s `Display` through `to_string`: decimal digits with a
/// leading `-` for a negative value.
#[verifier::external_body]
fn i32_text(i: i32) -> (r: String)
    ensures
        r@ == int_text(i as int),
{
    i.to_string()
}

impl HId {
    /// The text of the name, `seg0/seg1/.../segN[bit]`.
    pub fn to_string(&self) -> (r: String)
        ensures
            r@ == hid_text(self@),
    {
        let mut s = join_path(&self.0);
        match self.1 {
            None => {},
            Some(i) => {
                proof {
                    reveal_strlit("[");
                    reveal_strlit("]");
                }
                s.append("[");
                let t = i32_text(i);
                s.append(t.as_str());
                s.append("]");
            },
        }
        s
    }
}

} // verus!
