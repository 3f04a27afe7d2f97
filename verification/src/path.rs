//! Path markup for a sequence of drawing actions.
//!
//! Every action becomes one token: `m` for a move and `l` for a line,
//! followed by a coordinate text. The tokens stand in rows of ten.

use vstd::prelude::*;
use vstd::string::*;
use crate::turtle::{dacts_view, DAct, DActModel};

verus! {

/// How many tokens stand in a full row.
pub const ROW: usize = 10;

/// The token of one action: the command letter, a blank and the coordinate
/// text.
pub open spec fn path_token(dact: DActModel, at: Seq<char>) -> Seq<char> {
    if dact.draw {
        "l "@ + at
    } else {
        "m "@ + at
    }
}

/// The tokens of `dacts` in order, with a line break behind every tenth.
pub open spec fn path_rows(dacts: Seq<DActModel>, at: Seq<char>) -> Seq<char>
    decreases dacts.len(),
{
    if dacts.len() == 0 {
        Seq::empty()
    } else if dacts.len() % (ROW as nat) == 0 {
        path_rows(dacts.drop_last(), at) + path_token(dacts.last(), at) + "\n"@
    } else {
        path_rows(dacts.drop_last(), at) + path_token(dacts.last(), at)
    }
}

/// The markup of `dacts`: its rows, and a line break behind the last row if
/// that row is not full.
pub open spec fn path_markup(dacts: Seq<DActModel>, at: Seq<char>) -> Seq<char> {
    if dacts.len() % (ROW as nat) == 0 {
        path_rows(dacts, at)
    } else {
        path_rows(dacts, at) + "\n"@
    }
}

/// Writes the path markup of `dacts`.
///
/// `at` is the coordinate text that follows each command letter. Every token
/// carries the same text, that of the point where the drawing starts on the
/// page: the actions decide the command letters and the rows, not the
/// coordinates.
pub fn lsys_draw_basic(dacts: &Vec<DAct>, at: &str) -> (svg: String)
    ensures
        svg@ == path_markup(dacts_view(dacts@), at@),
{
    let mut svg = String::new();
    let mut col: usize = 0;
    let mut i: usize = 0;
    while i < dacts.len()
        invariant
            i <= dacts.len(),
            col < ROW,
            col == i % ROW,
            svg@ == path_rows(dacts_view(dacts@).take(i as int), at@),
        decreases dacts.len() - i,
    {
        let ghost before = svg@;
        let ghost done = dacts_view(dacts@).take(i as int);
        let ghost next = dacts_view(dacts@).take(i + 1);
        proof {
            assert(next.drop_last() =~= done);
            assert(next.last() == dacts@[i as int]@);
        }
        col += 1;
        match dacts[i] {
            DAct::RmoveTo(_) => svg.append("m "),
            DAct::RlineTo(_) => svg.append("l "),
        }
        svg.append(at);
        assert(svg@ =~= before + path_token(dacts@[i as int]@, at@));
        if col >= ROW {
            svg.append("\n");
            col = 0;
        }
        i += 1;
    }
    assert(dacts_view(dacts@).take(i as int) =~= dacts_view(dacts@));
    if col > 0 {
        svg.append("\n");
    }
    svg
}

} // verus!
