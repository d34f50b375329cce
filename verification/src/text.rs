//! Pure text and viewport helpers used when presenting tabs and task
//! lists: window-offset sanitizing, centering, and cropping.

use vstd::prelude::*;
use vstd::string::StrSliceExecFns;
use vstd::string::StringExecFns;

verus! {

/// What `sanitize_offset` returns: the nearest window offset that keeps
/// `selection` within a window of `limit` elements.
pub open spec fn spec_sanitize_offset(offset: int, selection: int, limit: int) -> int {
    if selection <= offset {
        selection
    } else if selection > offset + (limit - 1) {
        selection - (limit - 1)
    } else {
        offset
    }
}

/// Sanitize a window offset so that `selection` stays visible in a window
/// of `limit` elements.
pub fn sanitize_offset(offset: usize, selection: usize, limit: usize) -> (r: usize)
    requires
        limit >= 1,
        offset + limit - 1 <= usize::MAX,
    ensures
        r == spec_sanitize_offset(offset as int, selection as int, limit as int),
{
    if selection <= offset {
        selection
    } else if selection > offset + (limit - 1) {
        selection - (limit - 1)
    } else {
        offset
    }
}

/// A sequence of `n` spaces.
pub open spec fn spaces(n: nat) -> Seq<char> {
    Seq::new(n, |i: int| ' ')
}

/// What `align_center` returns: `s` centered in `width` characters, or
/// cropped to `width` with a trailing ellipsis when it is too long.
pub open spec fn spec_align_center(s: Seq<char>, width: int) -> Seq<char> {
    if s.len() > width {
        s.subrange(0, width - 3) + "..."@
    } else if s.len() < width {
        let front = (width - s.len()) / 2;
        let back = width - s.len() - front;
        spaces(front as nat) + s + spaces(back as nat)
    } else {
        s
    }
}

/// Build a string of `n` spaces.
fn make_spaces(n: usize) -> (r: String)
    ensures
        r@ == spaces(n as nat),
{
    let mut out = String::new();
    let mut i: usize = 0;
    proof {
        reveal_strlit(" ");
    }
    assert(out@ =~= spaces(0));
    while i < n
        invariant
            i <= n,
            out@ == spaces(i as nat),
        decreases n - i,
    {
        out.append(" ");
        i = i + 1;
        proof {
            reveal_strlit(" ");
            assert(out@ =~= spaces(i as nat));
        }
    }
    out
}

/// Align a string centrally in the given `width` or cut it off with an
/// ellipsis if it is too long.
pub fn align_center(s: &str, width: usize) -> (r: String)
    requires
        s@.len() > width ==> width >= 3,
    ensures
        r@ == spec_align_center(s@, width as int),
{
    let length = s.unicode_len();
    if length > width {
        let kept = s.substring_char(0, width - 3);
        let mut out = kept.to_owned();
        out.append("...");
        proof {
            assert(out@ =~= spec_align_center(s@, width as int));
        }
        out
    } else if length < width {
        let front = (width - length) / 2;
        let back = width - length - front;
        let mut out = make_spaces(front);
        out.append(s);
        let pad = make_spaces(back);
        out.append(pad.as_str());
        proof {
            assert(out@ =~= spec_align_center(s@, width as int));
        }
        out
    } else {
        s.to_owned()
    }
}

} // verus!
