use vstd::prelude::*;

verus! {

/// What went wrong while building.
#[derive(Debug)]
pub enum Error {
    /// A condition described by a short, fixed human-readable message.
    Str(&'static str),
    /// A failure reported by a collaborator, with its rendered message.
    InternalErr(String),
    /// A node index that names no node of the graph.
    UnknownNode(u32),
    /// A node whose dependency list names an index past the end of the graph.
    DanglingRef(u32),
    /// A node that depends on itself, directly or through other nodes.
    Cycle(u32),
}

/// The error with the given message, as the `Err` of a result.
pub fn report_err<T>(msg: &'static str) -> (r: Result<T, Error>)
    ensures
        r matches Err(Error::Str(m)) && m == msg,
{
    Err(Error::Str(msg))
}

/// The decimal digit for `d < 10`.
pub open spec fn digit(d: nat) -> char {
    ((d + 48) as u32) as char
}

/// The decimal form of a number, without leading zeros.
pub open spec fn decimal(n: nat) -> Seq<char>
    decreases n,
{
    if n < 10 {
        seq![digit(n)]
    } else {
        decimal(n / 10).push(digit(n % 10))
    }
}

fn decimal_exec(n: u32) -> (r: String)
    ensures
        r@ == decimal(n as nat),
    decreases n,
{
    let d: u8 = (n % 10) as u8;
    let c = (d + 48) as char;
    assert(c == digit((n % 10) as nat));
    if n < 10 {
        let mut r = String::new();
        crate::names::push_char(&mut r, c);
        assert(r@ =~= seq![c]);
        r
    } else {
        let mut r = decimal_exec(n / 10);
        crate::names::push_char(&mut r, c);
        r
    }
}

/// `prefix` followed by the decimal form of `n`.
fn with_number(prefix: &str, n: u32) -> (r: String)
    ensures
        r@ == prefix@ + decimal(n as nat),
{
    let mut r = String::from_str(prefix);
    let digits = decimal_exec(n);
    r.append(digits.as_str());
    r
}

pub open spec fn unknown_node_text() -> Seq<char> {
    seq!['u', 'n', 'k', 'n', 'o', 'w', 'n', ' ', 'n', 'o', 'd', 'e', ' ']
}

pub open spec fn dangling_ref_text() -> Seq<char> {
    seq![
        'd', 'a', 'n', 'g', 'l', 'i', 'n', 'g', ' ', 'r', 'e', 'f', 'e', 'r', 'e', 'n', 'c', 'e',
        ' ', 'i', 'n', ' ', 'n', 'o', 'd', 'e', ' ',
    ]
}

pub open spec fn cycle_text() -> Seq<char> {
    seq!['c', 'y', 'c', 'l', 'e', ' ', 't', 'h', 'r', 'o', 'u', 'g', 'h', ' ', 'n', 'o', 'd', 'e', ' ']
}

impl Error {
    /// A one-line, human-readable description of the error.
    pub fn message(&self) -> (r: String)
        ensures
            self matches Error::Str(m) ==> r@ == m@,
            self matches Error::InternalErr(m) ==> r@ == m@,
            self matches Error::UnknownNode(i) ==> r@ == unknown_node_text() + decimal(i as nat),
            self matches Error::DanglingRef(i) ==> r@ == dangling_ref_text() + decimal(i as nat),
            self matches Error::Cycle(i) ==> r@ == cycle_text() + decimal(i as nat),
    {
        match self {
            Error::Str(m) => String::from_str(m),
            Error::InternalErr(m) => m.clone(),
            Error::UnknownNode(i) => {
                proof {
                    reveal_strlit("unknown node ");
                }
                assert("unknown node "@ =~= unknown_node_text());
                with_number("unknown node ", *i)
            },
            Error::DanglingRef(i) => {
                proof {
                    reveal_strlit("dangling reference in node ");
                }
                assert("dangling reference in node "@ =~= dangling_ref_text());
                with_number("dangling reference in node ", *i)
            },
            Error::Cycle(i) => {
                proof {
                    reveal_strlit("cycle through node ");
                }
                assert("cycle through node "@ =~= cycle_text());
                with_number("cycle through node ", *i)
            },
        }
    }
}

} // verus!
