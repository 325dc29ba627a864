//! The complete layout: an ordered sequence of lines, one per width-unit
//! of the deck.

use vstd::prelude::*;
use crate::line::Line;
use crate::line::render_line;

verus! {

/// An ordered sequence of rows covering the deck's width.
#[derive(PartialEq, Clone, Debug)]
pub struct Calepinage(pub Vec<Line>);

impl Calepinage {
    /// The plank lengths of each line, in row order.
    pub open spec fn line_lens(&self) -> Seq<Seq<int>> {
        self.0@.map_values(|l: Line| l.lens())
    }

    /// A new layout with the line appended as the next row.
    pub fn with_line(self, new_line_to_add: Line) -> (r: Self)
        ensures
            r.0@ == self.0@.push(new_line_to_add),
            r.line_lens() == self.line_lens().push(new_line_to_add.lens()),
    {
        let Calepinage(mut lines) = self;
        let ghost before = lines@;
        lines.push(new_line_to_add);
        proof {
            assert(before.push(new_line_to_add).map_values(|l: Line| l.lens()) =~= before
                .map_values(|l: Line| l.lens()).push(new_line_to_add.lens()));
        }
        Calepinage(lines)
    }

    /// The textual form `Calepinage([..], [..], ...)`, each row in line
    /// order.
    pub fn to_string(&self) -> (s: String)
        ensures
            s@ == render_layout(self.line_lens()),
    {
        let ghost lls = self.line_lens();
        let mut s = String::new();
        s.append("Calepinage(");
        let mut i: usize = 0;
        while i < self.0.len()
            invariant
                i <= self.0@.len(),
                lls == self.line_lens(),
                lls.len() == self.0@.len(),
                s@ == "Calepinage("@ + render_lines(lls.take(i as int)),
            decreases self.0@.len() - i,
        {
            if i > 0 {
                s.append(", ");
            }
            let line_text = self.0[i].to_string();
            s.append(line_text.as_str());
            proof {
                lemma_render_lines_take_succ(lls, i as int);
            }
            i = i + 1;
        }
        proof {
            assert(lls.take(lls.len() as int) =~= lls);
        }
        s.append(")");
        s
    }
}

/// The comma-joined textual forms of the rows.
pub open spec fn render_lines(ls: Seq<Seq<int>>) -> Seq<char>
    decreases ls.len(),
{
    if ls.len() == 0 {
        Seq::empty()
    } else if ls.len() == 1 {
        render_line(ls[0])
    } else {
        render_lines(ls.drop_last()) + ", "@ + render_line(ls.last())
    }
}

/// The textual form of a whole layout.
pub open spec fn render_layout(ls: Seq<Seq<int>>) -> Seq<char> {
    "Calepinage("@ + render_lines(ls) + ")"@
}

/// Extending a prefix of rows by one row extends its rendering by a
/// separator (past the first row) and the new row's form.
proof fn lemma_render_lines_take_succ(ls: Seq<Seq<int>>, i: int)
    requires
        0 <= i < ls.len(),
    ensures
        render_lines(ls.take(i + 1)) == if i == 0 {
            render_line(ls[0])
        } else {
            render_lines(ls.take(i)) + ", "@ + render_line(ls[i])
        },
{
    let t = ls.take(i + 1);
    if i == 0 {
        assert(t.len() == 1);
        assert(t[0] == ls[0]);
    } else {
        assert(t.drop_last() =~= ls.take(i));
        assert(t.last() == ls[i]);
    }
}

impl Default for Calepinage {
    /// The empty layout.
    fn default() -> (r: Self)
        ensures
            r.0@ == Seq::<Line>::empty(),
    {
        Calepinage(Vec::new())
    }
}

} // verus!
