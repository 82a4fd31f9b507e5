//! Fixed-width labels for progress lines.

use vstd::prelude::*;

verus! {

/// `n` spaces.
pub open spec fn spaces(n: nat) -> Seq<char> {
    Seq::new(n, |i: int| ' ')
}

/// The last `width` characters of `s`, left-padded with spaces to exactly `width`.
pub open spec fn aligned(s: Seq<char>, width: nat) -> Seq<char> {
    let t = if s.len() < width {
        s.len()
    } else {
        width
    };
    spaces((width - t) as nat) + s.subrange(s.len() - t, s.len() as int)
}

/// Keeps the last `width` characters of `origin` and pads them on the left to `width`.
pub fn align_str(origin: &str, width: usize) -> (r: String)
    ensures
        r@ == aligned(origin@, width as nat),
{
    let n = origin.unicode_len();
    let t = if n < width {
        n
    } else {
        width
    };
    let tail = origin.substring_char(n - t, n);
    let pad = width - t;
    let mut out = String::new();
    let mut i: usize = 0;
    while i < pad
        invariant
            i <= pad,
            out@ =~= spaces(i as nat),
        decreases pad - i,
    {
        let sp = " ";
        proof {
            reveal_strlit(" ");
        }
        out.append(sp);
        i = i + 1;
    }
    out.append(tail);
    proof {
        assert(out@ =~= aligned(origin@, width as nat));
    }
    out
}

} // verus!
