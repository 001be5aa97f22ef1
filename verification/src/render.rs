//! How a report is written out: one block for the names that were found and
//! one for those that were not, a header above each, a blank line between.

use crate::names::NameSet;
use crate::report::{ReportView, ResolutionReport};
use vstd::prelude::*;
use vstd::string::*;

verus! {

/// The line above the names that were found.
pub open spec fn installed_header() -> Seq<char> {
    "Installed packages:"@
}

/// The line above the names that were not found.
pub open spec fn missing_header() -> Seq<char> {
    "Missing packages:"@
}

/// What stands before a name that was found.
pub open spec fn installed_mark() -> Seq<char> {
    "  [ok] "@
}

/// What stands before a name that was not found.
pub open spec fn missing_mark() -> Seq<char> {
    "  [missing] "@
}

/// One line for each name: the mark, then the name.
pub open spec fn entries(mark: Seq<char>, names: Seq<Seq<char>>) -> Seq<Seq<char>> {
    Seq::new(names.len(), |i: int| mark + names[i])
}

/// A block of the report: nothing where there are no names, else the header
/// and one line for each name.
pub open spec fn block(header: Seq<char>, mark: Seq<char>, names: Seq<Seq<char>>) -> Seq<
    Seq<char>,
> {
    if names.len() == 0 {
        Seq::empty()
    } else {
        seq![header] + entries(mark, names)
    }
}

/// What parts the two blocks: one empty line where both have names, else
/// nothing.
pub open spec fn gap(v: ReportView) -> Seq<Seq<char>> {
    if v.installed.len() > 0 && v.missing.len() > 0 {
        seq![Seq::<char>::empty()]
    } else {
        Seq::empty()
    }
}

/// The lines of a report, without their line ends.
pub open spec fn report_lines(v: ReportView) -> Seq<Seq<char>> {
    block(installed_header(), installed_mark(), v.installed) + gap(v) + block(
        missing_header(),
        missing_mark(),
        v.missing,
    )
}

/// The lines as one text, a line feed after each.
pub open spec fn text_of(lines: Seq<Seq<char>>) -> Seq<char>
    decreases lines.len(),
{
    if lines.len() == 0 {
        Seq::empty()
    } else {
        text_of(lines.drop_last()) + lines.last() + seq!['\n']
    }
}

/// A header stands in the report exactly where its block has a name: with
/// nothing missing the header of the missing names appears on no line, and
/// likewise for the names that were found.
pub proof fn lemma_header_needs_names(v: ReportView)
    ensures
        report_lines(v).contains(installed_header()) <==> v.installed.len() > 0,
        report_lines(v).contains(missing_header()) <==> v.missing.len() > 0,
{
    reveal_strlit("Installed packages:");
    reveal_strlit("Missing packages:");
    reveal_strlit("  [ok] ");
    reveal_strlit("  [missing] ");
    let lines = report_lines(v);
    let first = block(installed_header(), installed_mark(), v.installed);
    let second = block(missing_header(), missing_mark(), v.missing);
    let n = first.len() as int;
    let g = gap(v).len() as int;
    assert(installed_header()[0] == 'I');
    assert(missing_header()[0] == 'M');
    assert forall|i: int| 0 <= i < lines.len() && lines[i] == installed_header() implies i == 0
        && v.installed.len() > 0 by {
        if i < n {
            if i > 0 {
                assert(lines[i] == installed_mark() + v.installed[i - 1]);
                assert(lines[i][0] == ' ');
            }
        } else if i < n + g {
            assert(lines[i].len() == 0);
        } else {
            let k = i - n - g;
            assert(lines[i] == second[k]);
            if k > 0 {
                assert(second[k] == missing_mark() + v.missing[k - 1]);
                assert(second[k][0] == ' ');
            } else {
                assert(second[k][0] == 'M');
            }
        }
    }
    assert forall|i: int| 0 <= i < lines.len() && lines[i] == missing_header() implies i == n + g
        && v.missing.len() > 0 by {
        if i < n {
            if i > 0 {
                assert(lines[i] == installed_mark() + v.installed[i - 1]);
                assert(lines[i][0] == ' ');
            } else {
                assert(lines[i][0] == 'I');
            }
        } else if i < n + g {
            assert(lines[i].len() == 0);
        } else {
            let k = i - n - g;
            assert(lines[i] == second[k]);
            if k > 0 {
                assert(second[k] == missing_mark() + v.missing[k - 1]);
                assert(second[k][0] == ' ');
            }
        }
    }
    if v.installed.len() > 0 {
        assert(lines[0] == installed_header());
    }
    if v.missing.len() > 0 {
        assert(lines[n + g] == second[0]);
        assert(lines[n + g] == missing_header());
    }
}

/// A report holds one empty line, between its two blocks, where both have
/// names, and none otherwise.
pub proof fn lemma_one_blank_line(v: ReportView)
    ensures
        forall|i: int|
            0 <= i < report_lines(v).len() ==> (#[trigger] report_lines(v)[i].len() == 0 <==> (
            v.installed.len() > 0 && v.missing.len() > 0 && i == v.installed.len() + 1)),
{
    reveal_strlit("Installed packages:");
    reveal_strlit("Missing packages:");
    reveal_strlit("  [ok] ");
    reveal_strlit("  [missing] ");
    let lines = report_lines(v);
    let first = block(installed_header(), installed_mark(), v.installed);
    let second = block(missing_header(), missing_mark(), v.missing);
    let n = first.len() as int;
    let g = gap(v).len() as int;
    assert forall|i: int| 0 <= i < lines.len() implies (#[trigger] lines[i].len() == 0 <==> (
    v.installed.len() > 0 && v.missing.len() > 0 && i == v.installed.len() + 1)) by {
        if i < n {
            if i > 0 {
                assert(lines[i] == installed_mark() + v.installed[i - 1]);
            }
        } else if i < n + g {
            assert(lines[i].len() == 0);
        } else {
            let k = i - n - g;
            assert(lines[i] == second[k]);
            if k > 0 {
                assert(second[k] == missing_mark() + v.missing[k - 1]);
            }
        }
    }
}

/// Adds one block to `out`: nothing where `names` is empty, else `header`
/// and one line for each name.
fn push_block(out: &mut Vec<String>, header: &str, mark: &str, names: &NameSet)
    ensures
        final(out).deep_view() == old(out).deep_view() + block(header@, mark@, names@),
{
    let all = names.names();
    let ghost start = out.deep_view();
    if all.len() == 0 {
        assert(start + block(header@, mark@, names@) =~= start);
        return;
    }
    out.push(String::from_str(header));
    assert(out.deep_view() =~= start + seq![header@] + entries(mark@, names@.take(0)));
    let mut i: usize = 0;
    while i < all.len()
        invariant
            i <= all.len(),
            all.deep_view() == names@,
            out.deep_view() == start + seq![header@] + entries(mark@, names@.take(i as int)),
        decreases all.len() - i,
    {
        let mut line = String::from_str(mark);
        line.append(all[i].as_str());
        let ghost before = out.deep_view();
        out.push(line);
        assert(out.deep_view() =~= before.push(mark@ + names@[i as int]));
        assert(out.deep_view() =~= start + seq![header@] + entries(mark@, names@.take(i + 1)));
        i += 1;
    }
    assert(names@.take(i as int) =~= names@);
    assert(out.deep_view() =~= start + block(header@, mark@, names@));
}

impl ResolutionReport {
    /// The lines of the report, without their line ends: the block of the
    /// names that were found, then the block of those that were not, each
    /// left out where it has no name, and one empty line between them where
    /// both have names.
    pub fn lines(&self) -> (r: Vec<String>)
        ensures
            r.deep_view() == report_lines(self@),
    {
        let mut out: Vec<String> = Vec::new();
        assert(out.deep_view() =~= Seq::<Seq<char>>::empty());
        push_block(&mut out, "Installed packages:", "  [ok] ", self.installed());
        if !self.installed().is_empty() && !self.missing().is_empty() {
            let ghost before = out.deep_view();
            out.push(String::new());
            assert(out.deep_view() =~= before + gap(self@));
        }
        assert(out.deep_view() =~= block(installed_header(), installed_mark(), self@.installed)
            + gap(self@));
        push_block(&mut out, "Missing packages:", "  [missing] ", self.missing());
        out
    }

    /// The report as one text, a line feed after each line. It is empty where
    /// the report holds no name.
    pub fn render(&self) -> (r: String)
        ensures
            r@ == text_of(report_lines(self@)),
    {
        let lines = self.lines();
        let ghost all = lines.deep_view();
        let mut text = String::new();
        let mut i: usize = 0;
        assert(all.take(0) =~= Seq::<Seq<char>>::empty());
        while i < lines.len()
            invariant
                i <= lines.len(),
                all == lines.deep_view(),
                text@ == text_of(all.take(i as int)),
            decreases lines.len() - i,
        {
            proof {
                reveal_strlit("\n");
                assert(all.take(i + 1).drop_last() =~= all.take(i as int));
                assert("\n"@ =~= seq!['\n']);
            }
            text.append(lines[i].as_str());
            text.append("\n");
            i += 1;
        }
        assert(all.take(i as int) =~= all);
        text
    }
}

} // verus!
