//! Rows of a CSV table laid out in fixed-width columns.

use vstd::prelude::*;
use vstd::string::{StringExecFns, StringSliceAdditionalSpecFns};
use vstd::utf8::encode_utf8;
use crate::text::{chars_of, push_char};

verus! {

/// Width of a column, in characters.
pub const COLUMN_WIDTH: usize = 16;

/// Characters kept of a cell too long for its column, before `...`.
pub const KEPT_CHARS: usize = 13;

/// A cell as it appears in its column: cut to its first characters and
/// `...` when its UTF-8 form is longer than the column is wide, then padded
/// with spaces to the column's width.
pub open spec fn fit_cell(c: Seq<char>) -> Seq<char> {
    let t = if encode_utf8(c).len() <= COLUMN_WIDTH {
        c
    } else if c.len() <= KEPT_CHARS {
        c + "..."@
    } else {
        c.subrange(0, KEPT_CHARS as int) + "..."@
    };
    if t.len() < COLUMN_WIDTH {
        t + Seq::new((COLUMN_WIDTH - t.len()) as nat, |i: int| ' ')
    } else {
        t
    }
}

/// The cells laid out in their columns, separated by ` | `.
pub open spec fn row_text(cells: Seq<Seq<char>>) -> Seq<char>
    decreases cells.len(),
{
    if cells.len() == 0 {
        seq![]
    } else if cells.len() == 1 {
        fit_cell(cells[0])
    } else {
        row_text(cells.drop_last()) + " | "@ + fit_cell(cells.last())
    }
}

fn push_fitted(out: &mut String, cell: &str)
    ensures
        final(out)@ == old(out)@ + fit_cell(cell@),
{
    let ghost start = out@;
    let cs = chars_of(cell);
    let width = cell.as_bytes().len();
    let keep: usize = if width <= COLUMN_WIDTH || cs.len() <= KEPT_CHARS {
        cs.len()
    } else {
        KEPT_CHARS
    };
    let mut q: usize = 0;
    while q < keep
        invariant
            cs@ == cell@,
            keep <= cs@.len(),
            q <= keep,
            out@ == start + cs@.subrange(0, q as int),
        decreases keep - q,
    {
        push_char(out, cs[q]);
        q = q + 1;
        assert(out@ =~= start + cs@.subrange(0, q as int));
    }
    let mut shown: usize = keep;
    let ghost kept = out@;
    if width > COLUMN_WIDTH {
        out.append("...");
        shown = keep + 3;
    }
    let ghost t = if encode_utf8(cell@).len() <= COLUMN_WIDTH {
        cell@
    } else if cell@.len() <= KEPT_CHARS {
        cell@ + "..."@
    } else {
        cell@.subrange(0, KEPT_CHARS as int) + "..."@
    };
    proof {
        reveal_strlit("...");
        assert(cs@.subrange(0, cs@.len() as int) =~= cs@);
        if width > COLUMN_WIDTH {
            assert(out@ == kept + "..."@);
        }
        assert(out@ =~= start + t);
    }
    let ghost padded = out@;
    while shown < COLUMN_WIDTH
        invariant
            t.len() <= shown <= COLUMN_WIDTH || (shown == t.len() && shown >= COLUMN_WIDTH),
            shown >= t.len(),
            out@ == padded + Seq::new((shown - t.len()) as nat, |i: int| ' '),
        decreases COLUMN_WIDTH - shown,
    {
        push_char(out, ' ');
        shown = shown + 1;
        assert(out@ =~= padded + Seq::new((shown - t.len()) as nat, |i: int| ' '));
    }
    proof {
        if t.len() >= COLUMN_WIDTH {
            assert(out@ =~= start + t);
        } else {
            assert(out@ =~= start + t + Seq::new((COLUMN_WIDTH - t.len()) as nat, |i: int| ' '));
        }
    }
}

/// The cells of one record laid out in fixed-width columns.
pub fn format_row(cells: &Vec<String>) -> (r: String)
    ensures
        r@ == row_text(cells@.map_values(|c: String| c@)),
{
    let ghost views = cells@.map_values(|c: String| c@);
    let mut r = String::new();
    let mut k: usize = 0;
    while k < cells.len()
        invariant
            views == cells@.map_values(|c: String| c@),
            k <= cells@.len(),
            r@ == row_text(views.subrange(0, k as int)),
        decreases cells@.len() - k,
    {
        if k > 0 {
            r.append(" | ");
        }
        push_fitted(&mut r, cells[k].as_str());
        proof {
            let next = views.subrange(0, k + 1);
            assert(next.drop_last() =~= views.subrange(0, k as int));
            assert(next.last() == cells@[k as int]@);
            if k == 0 {
                assert(views.subrange(0, 0) =~= Seq::<Seq<char>>::empty());
                assert(r@ =~= fit_cell(next[0]));
            }
        }
        k = k + 1;
    }
    assert(views.subrange(0, k as int) =~= views);
    r
}

} // verus!
