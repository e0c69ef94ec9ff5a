//! Aggregated problems from a single open (session or composition) operation.
use vstd::prelude::*;

use crate::location::Location;

verus! {

/// Category for a load problem shown in the load-problems sheet.
#[derive(Clone, Copy, Debug, PartialEq, Eq, Hash, Structural)]
pub enum ProblemCategory {
    /// Referenced file or media could not be found.
    MissingReference,
    /// File exists but does not match the recorded descriptor.
    MediaMismatch,
    /// Document JSON / envelope could not be parsed.
    CorruptDocument,
    /// Format version is unsupported (too old or too new).
    UnsupportedFormat,
    /// URL could not be parsed or relative URL lacked a document base.
    InvalidLocation,
    /// Catch-all for other open failures.
    Other,
}

/// The categories in display order.
pub open spec fn category_order() -> Seq<ProblemCategory> {
    seq![
        ProblemCategory::MissingReference,
        ProblemCategory::MediaMismatch,
        ProblemCategory::CorruptDocument,
        ProblemCategory::UnsupportedFormat,
        ProblemCategory::InvalidLocation,
        ProblemCategory::Other,
    ]
}

impl ProblemCategory {
    /// Stable display title for UI group boxes.
    pub fn title(self) -> (out: &'static str)
        ensures
            self is MissingReference ==> out@ == "Missing references"@,
            self is MediaMismatch ==> out@ == "Media mismatches"@,
            self is CorruptDocument ==> out@ == "Corrupt documents"@,
            self is UnsupportedFormat ==> out@ == "Unsupported format"@,
            self is InvalidLocation ==> out@ == "Invalid locations"@,
            self is Other ==> out@ == "Other problems"@,
    {
        match self {
            ProblemCategory::MissingReference => "Missing references",
            ProblemCategory::MediaMismatch => "Media mismatches",
            ProblemCategory::CorruptDocument => "Corrupt documents",
            ProblemCategory::UnsupportedFormat => "Unsupported format",
            ProblemCategory::InvalidLocation => "Invalid locations",
            ProblemCategory::Other => "Other problems",
        }
    }
}

/// One problem encountered while opening a session or composition.
#[derive(Clone, Debug, PartialEq, Eq)]
pub struct LoadProblem {
    /// Problem category for grouping in the UI.
    pub category: ProblemCategory,
    /// Short subject (basename, document name, …).
    pub subject: String,
    /// Human-readable detail.
    pub detail: String,
    /// Related URL when applicable.
    pub url: Option<Location>,
}

impl LoadProblem {
    /// Construct a problem row.
    pub fn new(category: ProblemCategory, subject: String, detail: String, url: Option<Location>) -> (out: Self)
        ensures
            out == (LoadProblem { category, subject, detail, url }),
    {
        LoadProblem { category, subject, detail, url }
    }
}

/// Problems of `problems` in category `c`, in their original order.
pub open spec fn in_category(problems: Seq<LoadProblem>, c: ProblemCategory) -> Seq<LoadProblem>
    decreases problems.len(),
{
    if problems.len() == 0 {
        Seq::empty()
    } else {
        let rest = in_category(problems.drop_last(), c);
        if problems.last().category == c { rest.push(problems.last()) } else { rest }
    }
}

/// Groups of `problems` for the categories `order`, empty groups omitted.
pub open spec fn groups_for(problems: Seq<LoadProblem>, order: Seq<ProblemCategory>) -> Seq<(ProblemCategory, Seq<LoadProblem>)>
    decreases order.len(),
{
    if order.len() == 0 {
        Seq::empty()
    } else {
        let rest = groups_for(problems, order.drop_last());
        let c = order.last();
        if in_category(problems, c).len() > 0 { rest.push((c, in_category(problems, c))) } else { rest }
    }
}

/// Aggregated result of opening one session or composition file.
#[derive(Clone, Debug, PartialEq, Eq)]
pub struct OpenReport {
    /// File the user asked to open.
    pub target: Location,
    /// Problems discovered during the open (may be empty on success).
    pub problems: Vec<LoadProblem>,
}

impl OpenReport {
    /// Empty report for `target`.
    pub fn new(target: Location) -> (out: Self)
        ensures
            out.target == target,
            out.problems@ == Seq::<LoadProblem>::empty(),
    {
        OpenReport { target, problems: Vec::new() }
    }

    /// True when no problems were recorded.
    pub fn is_ok(&self) -> (out: bool)
        ensures
            out == (self.problems@.len() == 0),
    {
        self.problems.len() == 0
    }

    /// Append a problem.
    pub fn push(&mut self, problem: LoadProblem)
        ensures
            final(self).target == old(self).target,
            final(self).problems@ == old(self).problems@.push(problem),
    {
        self.problems.push(problem);
    }

    /// Append all problems from `other` (does not change `self.target`).
    pub fn extend_from(&mut self, other: OpenReport)
        ensures
            final(self).target == old(self).target,
            final(self).problems@ == old(self).problems@ + other.problems@,
    {
        let mut moved = other.problems;
        self.problems.append(&mut moved);
    }

    /// Problems grouped by category in display order (empty categories omitted).
    pub fn grouped(&self) -> (out: Vec<(ProblemCategory, Vec<&LoadProblem>)>)
        ensures
            out@.len() == groups_for(self.problems@, category_order()).len(),
            forall|i: int| 0 <= i < out@.len() ==> {
                &&& (#[trigger] out@[i]).0 == groups_for(self.problems@, category_order())[i].0
                &&& out@[i].1@.map_values(|p: &LoadProblem| *p) == groups_for(self.problems@, category_order())[i].1
            },
    {
        let order: [ProblemCategory; 6] = [
            ProblemCategory::MissingReference,
            ProblemCategory::MediaMismatch,
            ProblemCategory::CorruptDocument,
            ProblemCategory::UnsupportedFormat,
            ProblemCategory::InvalidLocation,
            ProblemCategory::Other,
        ];
        proof {
            assert(order@ =~= category_order());
        }
        let mut out: Vec<(ProblemCategory, Vec<&LoadProblem>)> = Vec::new();
        let mut k: usize = 0;
        while k < 6
            invariant
                k <= 6,
                order@ == category_order(),
                out@.len() == groups_for(self.problems@, order@.subrange(0, k as int)).len(),
                forall|i: int| 0 <= i < out@.len() ==> {
                    &&& (#[trigger] out@[i]).0 == groups_for(self.problems@, order@.subrange(0, k as int))[i].0
                    &&& out@[i].1@.map_values(|p: &LoadProblem| *p) == groups_for(self.problems@, order@.subrange(0, k as int))[i].1
                },
            decreases 6 - k,
        {
            let category = order[k];
            let mut items: Vec<&LoadProblem> = Vec::new();
            let mut j: usize = 0;
            while j < self.problems.len()
                invariant
                    j <= self.problems@.len(),
                    items@.map_values(|p: &LoadProblem| *p) =~= in_category(self.problems@.subrange(0, j as int), category),
                decreases self.problems.len() - j,
            {
                let p = &self.problems[j];
                proof {
                    assert(self.problems@.subrange(0, j + 1).drop_last() =~= self.problems@.subrange(0, j as int));
                }
                if p.category == category {
                    items.push(p);
                }
                j = j + 1;
            }
            proof {
                assert(self.problems@.subrange(0, self.problems@.len() as int) =~= self.problems@);
                assert(order@.subrange(0, k + 1).drop_last() =~= order@.subrange(0, k as int));
            }
            let ghost before = out@;
            if items.len() > 0 {
                out.push((category, items));
            }
            proof {
                let g = groups_for(self.problems@, order@.subrange(0, k + 1));
                assert forall|i: int| 0 <= i < out@.len() implies {
                    &&& (#[trigger] out@[i]).0 == g[i].0
                    &&& out@[i].1@.map_values(|p: &LoadProblem| *p) == g[i].1
                } by {
                    if i < before.len() {
                        assert(out@[i] == before[i]);
                    }
                }
            }
            k = k + 1;
        }
        proof {
            assert(order@.subrange(0, 6) =~= order@);
        }
        out
    }
}

/// Total number of problems over a list of groups.
pub open spec fn group_total(gs: Seq<(ProblemCategory, Seq<LoadProblem>)>) -> nat
    decreases gs.len(),
{
    if gs.len() == 0 { 0 } else { group_total(gs.drop_last()) + gs.last().1.len() }
}

/// Problems of `problems` in the categories `order`, counted per category.
pub open spec fn category_total(problems: Seq<LoadProblem>, order: Seq<ProblemCategory>) -> nat
    decreases order.len(),
{
    if order.len() == 0 { 0 } else { category_total(problems, order.drop_last()) + in_category(problems, order.last()).len() }
}

/// How often `c` occurs in `order`.
pub open spec fn occurrences(order: Seq<ProblemCategory>, c: ProblemCategory) -> nat
    decreases order.len(),
{
    if order.len() == 0 { 0 } else { occurrences(order.drop_last(), c) + (if order.last() == c { 1nat } else { 0nat }) }
}

proof fn lemma_groups_total(problems: Seq<LoadProblem>, order: Seq<ProblemCategory>)
    ensures
        group_total(groups_for(problems, order)) == category_total(problems, order),
    decreases order.len(),
{
    if order.len() > 0 {
        lemma_groups_total(problems, order.drop_last());
        let rest = groups_for(problems, order.drop_last());
        let c = order.last();
        if in_category(problems, c).len() > 0 {
            assert(rest.push((c, in_category(problems, c))).drop_last() =~= rest);
        }
    }
}

proof fn lemma_category_total_step(problems: Seq<LoadProblem>, order: Seq<ProblemCategory>)
    requires
        problems.len() > 0,
    ensures
        category_total(problems, order) == category_total(problems.drop_last(), order) + occurrences(order, problems.last().category),
    decreases order.len(),
{
    if order.len() > 0 {
        lemma_category_total_step(problems, order.drop_last());
    }
}

proof fn lemma_total_is_len(problems: Seq<LoadProblem>)
    ensures
        category_total(problems, category_order()) == problems.len(),
    decreases problems.len(),
{
    if problems.len() > 0 {
        lemma_total_is_len(problems.drop_last());
        lemma_category_total_step(problems, category_order());
        let o = category_order();
        reveal_with_fuel(occurrences, 7);
        assert(o.drop_last() =~= seq![o[0], o[1], o[2], o[3], o[4]]);
        assert(o.drop_last().drop_last() =~= seq![o[0], o[1], o[2], o[3]]);
        assert(o.drop_last().drop_last().drop_last() =~= seq![o[0], o[1], o[2]]);
        assert(o.drop_last().drop_last().drop_last().drop_last() =~= seq![o[0], o[1]]);
        assert(o.drop_last().drop_last().drop_last().drop_last().drop_last() =~= seq![o[0]]);
        assert(o.drop_last().drop_last().drop_last().drop_last().drop_last().drop_last() =~= Seq::<ProblemCategory>::empty());
        assert(occurrences(o, problems.last().category) == 1);
    } else {
        reveal_with_fuel(category_total, 7);
    }
}

/// Grouping shows every problem exactly once: the groups of a report hold,
/// together, as many problems as the report has.
pub proof fn lemma_grouped_covers_all(problems: Seq<LoadProblem>)
    ensures
        group_total(groups_for(problems, category_order())) == problems.len(),
{
    lemma_groups_total(problems, category_order());
    lemma_total_is_len(problems);
}

} // verus!
