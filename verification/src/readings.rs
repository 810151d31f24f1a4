//! What the bench's readers make of the texts in a request.
//!
//! Sizes, bandwidths, numbers and endpoints are read outside the library. It is handed a table of
//! the texts and what each was read as.
use vstd::prelude::*;
use vstd::string::*;
use crate::number::Double;
use crate::protocol::NicInfo;
use crate::text::{cat3, owned, same};

verus! {

/// A host of the bench.
#[derive(Clone, Copy, Debug, PartialEq, Eq, Structural)]
pub enum Side {
    Master,
    Agent,
}

/// The name of a host.
pub open spec fn side_text(side: Side) -> Seq<char> {
    match side {
        Side::Master => "master"@,
        Side::Agent => "agent"@,
    }
}

/// The name of a host.
pub fn side_name(side: Side) -> (r: &'static str)
    ensures
        r@ == side_text(side),
{
    match side {
        Side::Master => "master",
        Side::Agent => "agent",
    }
}

/// One end of a link: a host and an interface of it.
#[derive(Clone, Debug)]
pub struct Endpoint {
    pub side: Side,
    pub nic: NicInfo,
}

impl Endpoint {
    /// The text by which endpoints are told apart: host and interface name.
    pub open spec fn key_text(self) -> Seq<char> {
        side_text(self.side) + ":"@ + self.nic.name@
    }

    /// The text by which endpoints are told apart.
    pub fn key(&self) -> (r: String)
        ensures
            r@ == self.key_text(),
    {
        cat3(side_name(self.side), ":", self.nic.name.as_str())
    }
}

/// A bandwidth in Mbps, and the value as a message shows it.
#[derive(Clone, Debug, Default)]
pub struct Bandwidth {
    pub mbps: Double,
    pub shown: String,
}

/// A text and what it was read as, or why it could not be read.
#[derive(Debug)]
pub struct Reading<T> {
    pub text: String,
    pub outcome: Result<T, String>,
}

/// What the readers made of the texts in a request.
#[derive(Debug, Default)]
pub struct Readings {
    /// Sizes in bytes.
    pub sizes: Vec<Reading<u64>>,
    pub bandwidths: Vec<Reading<Bandwidth>>,
    /// Numbers in decimal.
    pub numbers: Vec<Reading<Double>>,
    /// Endpoints, resolved against the interfaces of both hosts.
    pub endpoints: Vec<Reading<Endpoint>>,
}

/// What the first reading of `text` from index `i` on says.
pub open spec fn reading_from<T>(v: Seq<Reading<T>>, text: Seq<char>, i: int) -> Result<
    T,
    Seq<char>,
>
    decreases v.len() - i,
{
    if i < 0 || i >= v.len() {
        Err("没有读数"@)
    } else if v[i].text@ == text {
        match v[i].outcome {
            Ok(x) => Ok(x),
            Err(e) => Err(e@),
        }
    } else {
        reading_from(v, text, i + 1)
    }
}

/// What `text` was read as; an error where the table does not hold it.
pub open spec fn reading<T>(v: Seq<Reading<T>>, text: Seq<char>) -> Result<T, Seq<char>> {
    reading_from(v, text, 0)
}

/// What `text` was read as; an error where the table does not hold it.
pub fn look_up<'a, T>(v: &'a Vec<Reading<T>>, text: &str) -> (r: Result<&'a T, String>)
    ensures
        match r {
            Ok(x) => reading(v@, text@) == Ok::<T, Seq<char>>(*x),
            Err(e) => reading(v@, text@) == Err::<T, Seq<char>>(e@),
        },
{
    let mut i: usize = 0;
    while i < v.len()
        invariant
            i <= v@.len(),
            reading(v@, text@) == reading_from(v@, text@, i as int),
        decreases v@.len() - i,
    {
        if same(v[i].text.as_str(), text) {
            return match &v[i].outcome {
                Ok(x) => Ok(x),
                Err(e) => Err(owned(e.as_str())),
            };
        }
        i += 1;
    }
    Err(owned("没有读数"))
}

} // verus!
