//! The error surfaced when loaded task data violates referential
//! integrity, together with a verified decimal renderer for its message.

use vstd::prelude::*;
use vstd::string::StringExecFns;

verus! {

/// The character for a single decimal digit.
pub open spec fn digit_char(d: nat) -> char {
    if d == 0 {
        '0'
    } else if d == 1 {
        '1'
    } else if d == 2 {
        '2'
    } else if d == 3 {
        '3'
    } else if d == 4 {
        '4'
    } else if d == 5 {
        '5'
    } else if d == 6 {
        '6'
    } else if d == 7 {
        '7'
    } else if d == 8 {
        '8'
    } else {
        '9'
    }
}

/// The decimal digits of `v`, most significant first.
pub open spec fn spec_decimal(v: nat) -> Seq<char>
    decreases v,
{
    if v < 10 {
        seq![digit_char(v)]
    } else {
        spec_decimal(v / 10) + seq![digit_char(v % 10)]
    }
}

/// The message reported for a reference to an unknown tag id.
pub open spec fn spec_invalid_tag_message(id: nat) -> Seq<char> {
    "Encountered invalid tag Id "@ + spec_decimal(id)
}

/// A single decimal digit as a string slice.
fn digit_str(d: u64) -> (r: &'static str)
    requires
        d < 10,
    ensures
        r@ == seq![digit_char(d as nat)],
{
    let r = match d {
        0 => "0",
        1 => "1",
        2 => "2",
        3 => "3",
        4 => "4",
        5 => "5",
        6 => "6",
        7 => "7",
        8 => "8",
        _ => "9",
    };
    proof {
        reveal_strlit("0");
        reveal_strlit("1");
        reveal_strlit("2");
        reveal_strlit("3");
        reveal_strlit("4");
        reveal_strlit("5");
        reveal_strlit("6");
        reveal_strlit("7");
        reveal_strlit("8");
        reveal_strlit("9");
        assert(r@ =~= seq![digit_char(d as nat)]);
    }
    r
}

/// Append the decimal rendering of `v` to `out`.
fn append_decimal(v: u64, out: &mut String)
    ensures
        final(out)@ == old(out)@ + spec_decimal(v as nat),
    decreases v,
{
    if v < 10 {
        out.append(digit_str(v));
    } else {
        append_decimal(v / 10, out);
        out.append(digit_str(v % 10));
        proof {
            assert(old(out)@ + spec_decimal((v / 10) as nat) + seq![
                digit_char((v % 10) as nat),
            ] =~= old(out)@ + spec_decimal(v as nat));
        }
    }
}

/// Render `v` in decimal.
pub fn decimal_string(v: u64) -> (r: String)
    ensures
        r@ == spec_decimal(v as nat),
{
    let mut out = String::new();
    append_decimal(v, &mut out);
    proof {
        assert(out@ =~= spec_decimal(v as nat));
    }
    out
}

/// An integrity failure during load: the whole load aborts, no partial
/// state is ever handed out.
#[derive(Clone, Copy, Debug)]
pub enum LoadError {
    /// A task or query references a tag id that the template registry
    /// does not contain; the offending id is carried along.
    InvalidTag(u64),
}

impl LoadError {
    /// The id carried by the error.
    pub open spec fn spec_tag_id(self) -> u64 {
        match self {
            LoadError::InvalidTag(id) => id,
        }
    }

    /// The human-readable description of the error, naming the offending
    /// tag id.
    pub fn message(&self) -> (r: String)
        ensures
            r@ == spec_invalid_tag_message(self.spec_tag_id() as nat),
    {
        match *self {
            LoadError::InvalidTag(id) => {
                let mut out = String::from_str("Encountered invalid tag Id ");
                append_decimal(id, &mut out);
                out
            },
        }
    }
}

} // verus!
