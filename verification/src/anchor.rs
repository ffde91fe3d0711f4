//! Where the quote's source and author lines are anchored: at the right edge
//! of the longest wrapped line, one row gap below the quote, the author row
//! under the source row.

use vstd::prelude::*;
use vstd::string::StrSliceExecFns;
use vstd::string::StringExecFns;
use crate::layout::spec_max;

verus! {

/// The length, in characters, of the longest of the lines.
pub open spec fn max_line_len(ls: Seq<Seq<char>>) -> int
    decreases ls.len(),
{
    if ls.len() == 0 {
        0
    } else {
        spec_max(ls[0].len() as int, max_line_len(ls.skip(1)))
    }
}

/// The length of the longest wrapped line, zero when there is none.
pub fn max_line_length(lines: &Vec<String>) -> (m: usize)
    ensures
        m == max_line_len(lines.deep_view()),
{
    let ghost all = lines.deep_view();
    let mut m: usize = 0;
    let mut i: usize = 0;
    proof {
        assert(all.skip(0) =~= all);
    }
    while i < lines.len()
        invariant
            i <= lines.len(),
            all == lines.deep_view(),
            0 <= m,
            max_line_len(all) == spec_max(m as int, max_line_len(all.skip(i as int))),
        decreases lines.len() - i,
    {
        proof {
            assert(all.skip(i as int)[0] == all[i as int]);
            assert(all.skip(i as int).skip(1) =~= all.skip(i as int + 1));
            assert(lines[i as int].deep_view() == all[i as int]);
        }
        let l = lines[i].as_str().unicode_len();
        if l > m {
            m = l;
        }
        i = i + 1;
    }
    proof {
        assert(all.skip(i as int) =~= Seq::<Seq<char>>::empty());
    }
    m
}

/// The source row's text: the quote's source and date, separated by one
/// space, each empty when absent.
pub fn source_line(source: &Option<String>, date: &Option<String>) -> (r: String)
    ensures
        r@ == (if source is Some {
            source->0@
        } else {
            Seq::<char>::empty()
        }) + seq![' '] + (if date is Some {
            date->0@
        } else {
            Seq::<char>::empty()
        }),
{
    let mut r = match source {
        Some(s) => s.clone(),
        None => String::new(),
    };
    r.append(" ");
    match date {
        Some(d) => r.append(d.as_str()),
        None => (),
    }
    proof {
        reveal_strlit(" ");
        assert(" "@ =~= seq![' ']);
        assert(r@ =~= (if source is Some {
            source->0@
        } else {
            Seq::<char>::empty()
        }) + seq![' '] + (if date is Some {
            date->0@
        } else {
            Seq::<char>::empty()
        }));
    }
    r
}

/// The anchor of the source row: its text ends two cells left of the right
/// edge of the longest wrapped line, two rows below the last quote line.
pub fn source_anchor(quote_x: u16, max_len: u16, source_len: u16, quote_y: u16, n_lines: u16) -> (r:
    (u16, u16))
    requires
        quote_x + max_len <= u16::MAX,
        quote_x + max_len >= source_len + 2,
        quote_y + n_lines + 2 <= u16::MAX,
    ensures
        r.0 == quote_x + max_len - 2 - source_len,
        r.1 == quote_y + n_lines + 2,
{
    (quote_x + max_len - 1 - source_len - 1, quote_y + n_lines + 2)
}

/// The anchor of the author row: its text ends four cells left of the right
/// edge of the longest wrapped line, three rows below the last quote line.
pub fn author_anchor(quote_x: u16, max_len: u16, author_len: u16, quote_y: u16, n_lines: u16) -> (r:
    (u16, u16))
    requires
        quote_x + max_len <= u16::MAX,
        quote_x + max_len >= author_len + 4,
        quote_y + n_lines + 3 <= u16::MAX,
    ensures
        r.0 == quote_x + max_len - 4 - author_len,
        r.1 == quote_y + n_lines + 3,
{
    (quote_x + max_len - 1 - author_len - 3, quote_y + n_lines + 3)
}

} // verus!
