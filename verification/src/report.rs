//! The summary table: partitions rule outcomes into SKIP, PASS and FAIL
//! groups, applies the category selector, and renders the report as an
//! ordered sequence of lines. Writing the lines to a sink is the caller's
//! part.

use vstd::prelude::*;
use vstd::string::*;
use crate::format::{entry_line, format_entry, format_header, header_line};
use crate::groups::{
    build_groups, group_for, group_view, max_name_len, retain_unsuperseded, unsuperseded,
};
use crate::status::{EvalNode, NamedStatus, ResultEntry, Status, StatusFlagSet};
use crate::style::{styled, styled_texts, text_for, text_ref, RenderTexts};

verus! {

/// The views of a sequence of built lines.
pub open spec fn line_views(lines: Seq<String>) -> Seq<Seq<char>> {
    lines.map_values(|l: String| l@)
}

proof fn lemma_line_views_push(lines: Seq<String>, s: String)
    ensures
        line_views(lines.push(s)) == line_views(lines).push(s@),
{
    assert(line_views(lines.push(s)) =~= line_views(lines).push(s@));
}

/// Which entries of a passed-or-skipped list a partition picks.
#[derive(Clone, Copy, Debug, PartialEq, Eq, Structural)]
pub enum EntrySel {
    SkipOnly,
    NonSkip,
    All,
}

/// Does the partition pick this entry? Skip entries are exactly those whose
/// status is present and equals SKIP; everything else counts as passed.
pub open spec fn entry_selected(sel: EntrySel, e: ResultEntry) -> bool {
    match sel {
        EntrySel::SkipOnly => e.status == Option::<Status>::Some(Status::SKIP),
        EntrySel::NonSkip => e.status != Option::<Status>::Some(Status::SKIP),
        EntrySel::All => true,
    }
}

/// Some entry of the list is picked by the partition.
pub open spec fn has_selected(entries: Seq<ResultEntry>, sel: EntrySel) -> bool {
    exists|i: int| 0 <= i < entries.len() && entry_selected(sel, entries[i])
}

/// The lines of one flat-mode group: one per picked entry, in input order,
/// each showing the entry's own status text.
pub open spec fn flat_group_lines(
    label: Seq<char>,
    entries: Seq<ResultEntry>,
    sel: EntrySel,
    longest: nat,
    texts: RenderTexts,
) -> Seq<Seq<char>>
    decreases entries.len(),
{
    if entries.len() == 0 {
        Seq::empty()
    } else {
        let rest = flat_group_lines(label, entries.drop_last(), sel, longest, texts);
        let e = entries.last();
        if entry_selected(sel, e) {
            rest.push(entry_line(label, e.name@, longest, text_for(texts, e.status)))
        } else {
            rest
        }
    }
}

fn entry_selected_exec(sel: EntrySel, e: &ResultEntry) -> (r: bool)
    ensures
        r == entry_selected(sel, *e),
{
    let is_skip = match e.status {
        Option::Some(Status::SKIP) => true,
        _ => false,
    };
    match sel {
        EntrySel::SkipOnly => is_skip,
        EntrySel::NonSkip => !is_skip,
        EntrySel::All => true,
    }
}

fn any_selected(entries: &Vec<ResultEntry>, sel: EntrySel) -> (r: bool)
    ensures
        r == has_selected(entries@, sel),
{
    let n = entries.len();
    let mut i: usize = 0;
    while i < n
        invariant
            i <= n,
            n == entries@.len(),
            forall|j: int| 0 <= j < i ==> !entry_selected(sel, entries@[j]),
        decreases n - i,
    {
        if entry_selected_exec(sel, &entries[i]) {
            proof {
                assert(entry_selected(sel, entries@[i as int]));
            }
            return true;
        }
        i = i + 1;
    }
    false
}

/// Appends the lines of one flat-mode group, in input order.
fn print_partition(
    out: &mut Vec<String>,
    label: &str,
    entries: &Vec<ResultEntry>,
    sel: EntrySel,
    longest: usize,
    texts: &RenderTexts,
)
    requires
        longest + 4 <= usize::MAX,
    ensures
        line_views(final(out)@) == line_views(old(out)@) + flat_group_lines(
            label@,
            entries@,
            sel,
            longest as nat,
            *texts,
        ),
{
    let n = entries.len();
    let mut i: usize = 0;
    proof {
        assert(entries@.subrange(0, 0) =~= Seq::<ResultEntry>::empty());
        assert(line_views(out@) =~= line_views(out@) + flat_group_lines(
            label@,
            entries@.subrange(0, 0),
            sel,
            longest as nat,
            *texts,
        ));
    }
    while i < n
        invariant
            i <= n,
            n == entries@.len(),
            longest + 4 <= usize::MAX,
            line_views(out@) == line_views(old(out)@) + flat_group_lines(
                label@,
                entries@.subrange(0, i as int),
                sel,
                longest as nat,
                *texts,
            ),
        decreases n - i,
    {
        let e = &entries[i];
        if entry_selected_exec(sel, e) {
            let line = format_entry(label, e.name.as_str(), longest, text_ref(texts, e.status).as_str());
            proof {
                lemma_line_views_push(out@, line);
            }
            out.push(line);
        }
        proof {
            let sub1 = entries@.subrange(0, i + 1);
            assert(sub1.drop_last() =~= entries@.subrange(0, i as int));
            assert(sub1.last() == entries@[i as int]);
            assert(line_views(out@) =~= line_views(old(out)@) + flat_group_lines(
                label@,
                sub1,
                sel,
                longest as nat,
                *texts,
            ));
        }
        i = i + 1;
    }
    proof {
        assert(entries@.subrange(0, n as int) =~= entries@);
    }
}

/// The lines of the group for category `c`: SKIP and PASS partition the
/// passed-or-skipped list, FAIL takes the failed list whole.
pub open spec fn flat_lines_for(
    c: Status,
    label: Seq<char>,
    failed: Seq<ResultEntry>,
    passed_or_skipped: Seq<ResultEntry>,
    longest: nat,
    texts: RenderTexts,
) -> Seq<Seq<char>> {
    match c {
        Status::SKIP => flat_group_lines(label, passed_or_skipped, EntrySel::SkipOnly, longest, texts),
        Status::PASS => flat_group_lines(label, passed_or_skipped, EntrySel::NonSkip, longest, texts),
        Status::FAIL => flat_group_lines(label, failed, EntrySel::All, longest, texts),
    }
}

/// The group for category `c` has at least one entry.
pub open spec fn flat_group_nonempty(
    c: Status,
    failed: Seq<ResultEntry>,
    passed_or_skipped: Seq<ResultEntry>,
) -> bool {
    match c {
        Status::SKIP => has_selected(passed_or_skipped, EntrySel::SkipOnly),
        Status::PASS => has_selected(passed_or_skipped, EntrySel::NonSkip),
        Status::FAIL => has_selected(failed, EntrySel::All),
    }
}

/// The header text shown above the group for category `c`.
pub open spec fn group_header_text(c: Status, texts: RenderTexts) -> Seq<char> {
    match c {
        Status::SKIP => texts.skip_header@,
        Status::PASS => texts.pass_header@,
        Status::FAIL => texts.fail_header@,
    }
}

/// The block a flat-mode report emits for category `c`: header plus entry
/// lines when the category is selected and its group is non-empty, nothing
/// otherwise.
pub open spec fn flat_block(
    table: SummaryTable,
    c: Status,
    failed: Seq<ResultEntry>,
    passed_or_skipped: Seq<ResultEntry>,
    longest: nat,
    texts: RenderTexts,
) -> Seq<Seq<char>> {
    if table.summary_type.spec_includes(c) && flat_group_nonempty(c, failed, passed_or_skipped) {
        seq![group_header_text(c, texts)] + flat_lines_for(
            c,
            table.rules_file_name@,
            failed,
            passed_or_skipped,
            longest,
            texts,
        )
    } else {
        Seq::empty()
    }
}

/// The whole flat-mode report: header line, then the SKIP, PASS and FAIL
/// blocks in that fixed order, then the closing separator.
pub open spec fn flat_report(
    table: SummaryTable,
    status: Option<Status>,
    failed: Seq<ResultEntry>,
    passed_or_skipped: Seq<ResultEntry>,
    longest: nat,
    texts: RenderTexts,
) -> Seq<Seq<char>> {
    seq![header_line(table.data_file_name@, text_for(texts, status))]
    + flat_block(table, Status::SKIP, failed, passed_or_skipped, longest, texts)
    + flat_block(table, Status::PASS, failed, passed_or_skipped, longest, texts)
    + flat_block(table, Status::FAIL, failed, passed_or_skipped, longest, texts)
    + seq!["---"@]
}

/// A report's configuration: the two source labels shown on every line and
/// the category selector. Read-only once constructed.
#[derive(Debug)]
pub struct SummaryTable {
    pub rules_file_name: String,
    pub data_file_name: String,
    pub summary_type: StatusFlagSet,
}

impl SummaryTable {
    pub fn new(rules_file_name: String, data_file_name: String, summary_type: StatusFlagSet) -> (t: SummaryTable)
        ensures
            t == (SummaryTable { rules_file_name, data_file_name, summary_type }),
    {
        SummaryTable { rules_file_name, data_file_name, summary_type }
    }

    /// Renders a flat-mode report with the given texts: the returned lines
    /// are exactly `flat_report` of the inputs.
    pub fn report_with_texts(
        &self,
        status: Option<Status>,
        failed: &Vec<ResultEntry>,
        passed_or_skipped: &Vec<ResultEntry>,
        longest_rule_name: usize,
        texts: &RenderTexts,
    ) -> (lines: Vec<String>)
        requires
            longest_rule_name + 4 <= usize::MAX,
        ensures
            line_views(lines@) == flat_report(
                *self,
                status,
                failed@,
                passed_or_skipped@,
                longest_rule_name as nat,
                *texts,
            ),
    {
        let ghost longest = longest_rule_name as nat;
        let mut lines: Vec<String> = Vec::new();
        let header = format_header(self.data_file_name.as_str(), text_ref(texts, status).as_str());
        proof {
            lemma_line_views_push(lines@, header);
        }
        lines.push(header);
        let ghost hdr: Seq<Seq<char>> = seq![header_line(self.data_file_name@, text_for(*texts, status))];
        proof {
            assert(line_views(lines@) =~= hdr);
        }

        if self.summary_type.skip && any_selected(passed_or_skipped, EntrySel::SkipOnly) {
            let h = texts.skip_header.clone();
            proof {
                lemma_line_views_push(lines@, h);
            }
            lines.push(h);
            print_partition(&mut lines, self.rules_file_name.as_str(), passed_or_skipped, EntrySel::SkipOnly, longest_rule_name, texts);
        }
        let ghost b_skip = flat_block(*self, Status::SKIP, failed@, passed_or_skipped@, longest, *texts);
        proof {
            assert(line_views(lines@) =~= hdr + b_skip);
        }

        if self.summary_type.pass && any_selected(passed_or_skipped, EntrySel::NonSkip) {
            let h = texts.pass_header.clone();
            proof {
                lemma_line_views_push(lines@, h);
            }
            lines.push(h);
            print_partition(&mut lines, self.rules_file_name.as_str(), passed_or_skipped, EntrySel::NonSkip, longest_rule_name, texts);
        }
        let ghost b_pass = flat_block(*self, Status::PASS, failed@, passed_or_skipped@, longest, *texts);
        proof {
            assert(line_views(lines@) =~= hdr + b_skip + b_pass);
        }

        if self.summary_type.fail && any_selected(failed, EntrySel::All) {
            let h = texts.fail_header.clone();
            proof {
                lemma_line_views_push(lines@, h);
            }
            lines.push(h);
            print_partition(&mut lines, self.rules_file_name.as_str(), failed, EntrySel::All, longest_rule_name, texts);
        }
        let ghost b_fail = flat_block(*self, Status::FAIL, failed@, passed_or_skipped@, longest, *texts);
        proof {
            assert(line_views(lines@) =~= hdr + b_skip + b_pass + b_fail);
        }

        let sep = String::from_str("---");
        proof {
            lemma_line_views_push(lines@, sep);
        }
        lines.push(sep);
        proof {
            assert(line_views(lines@) =~= flat_report(
                *self,
                status,
                failed@,
                passed_or_skipped@,
                longest,
                *texts,
            ));
        }
        lines
    }

    /// Renders a flat-mode report with the default styled texts. The lines
    /// are `flat_report` of the inputs for some set of styled texts; which
    /// escape codes the styling adds depends on the environment.
    pub fn report(
        &self,
        status: Option<Status>,
        failed: &Vec<ResultEntry>,
        passed_or_skipped: &Vec<ResultEntry>,
        longest_rule_name: usize,
    ) -> (lines: Vec<String>)
        requires
            longest_rule_name + 4 <= usize::MAX,
        ensures
            exists|t: RenderTexts|
                #[trigger] styled(t) && line_views(lines@) == flat_report(
                    *self,
                    status,
                    failed@,
                    passed_or_skipped@,
                    longest_rule_name as nat,
                    t,
                ),
    {
        let texts = styled_texts();
        let lines = self.report_with_texts(status, failed, passed_or_skipped, longest_rule_name, &texts);
        proof {
            assert(styled(texts) && line_views(lines@) == flat_report(
                *self,
                status,
                failed@,
                passed_or_skipped@,
                longest_rule_name as nat,
                texts,
            ));
        }
        lines
    }

    /// Renders a trace-mode report with the given texts: the returned lines
    /// are exactly `eval_report` of the root's direct children.
    pub fn report_eval_with_texts(
        &self,
        status: Status,
        root_record: &EvalNode,
        texts: &RenderTexts,
    ) -> (lines: Vec<String>)
        requires
            max_name_len(root_record.children@) + 4 <= usize::MAX,
        ensures
            line_views(lines@) == eval_report(*self, status, root_record.children@, *texts),
    {
        let ghost children = root_record.children@;
        let mut lines: Vec<String> = Vec::new();
        let header = format_header(self.data_file_name.as_str(), text_ref(texts, Some(status)).as_str());
        proof {
            lemma_line_views_push(lines@, header);
        }
        lines.push(header);
        let ghost hdr: Seq<Seq<char>> = seq![
            header_line(self.data_file_name@, text_for(*texts, Option::Some(status))),
        ];
        proof {
            assert(line_views(lines@) =~= hdr);
        }

        let (passed, failed, skipped, longest) = build_groups(root_record);
        let skipped = retain_unsuperseded(&skipped, &passed, &failed);

        if self.summary_type.skip && skipped.len() > 0 {
            let h = texts.skip_header.clone();
            proof {
                lemma_line_views_push(lines@, h);
            }
            lines.push(h);
            print_summary(&mut lines, self.rules_file_name.as_str(), &skipped, longest, texts);
        }
        let ghost b_skip = eval_block(*self, Status::SKIP, rendered_skip_group(children), max_name_len(children), *texts);
        proof {
            assert(line_views(lines@) =~= hdr + b_skip);
        }

        if self.summary_type.pass && passed.len() > 0 {
            let h = texts.pass_header.clone();
            proof {
                lemma_line_views_push(lines@, h);
            }
            lines.push(h);
            print_summary(&mut lines, self.rules_file_name.as_str(), &passed, longest, texts);
        }
        let ghost b_pass = eval_block(*self, Status::PASS, group_for(children, Status::PASS), max_name_len(children), *texts);
        proof {
            assert(line_views(lines@) =~= hdr + b_skip + b_pass);
        }

        if self.summary_type.fail && failed.len() > 0 {
            let h = texts.fail_header.clone();
            proof {
                lemma_line_views_push(lines@, h);
            }
            lines.push(h);
            print_summary(&mut lines, self.rules_file_name.as_str(), &failed, longest, texts);
        }
        let ghost b_fail = eval_block(*self, Status::FAIL, group_for(children, Status::FAIL), max_name_len(children), *texts);
        proof {
            assert(line_views(lines@) =~= hdr + b_skip + b_pass + b_fail);
        }

        let sep = String::from_str("---");
        proof {
            lemma_line_views_push(lines@, sep);
        }
        lines.push(sep);
        proof {
            assert(line_views(lines@) =~= eval_report(*self, status, children, *texts));
        }
        lines
    }

    /// Renders a trace-mode report with the default styled texts. The lines
    /// are `eval_report` of the root's direct children for some set of
    /// styled texts; which escape codes the styling adds depends on the
    /// environment.
    pub fn report_eval(&self, status: Status, root_record: &EvalNode) -> (lines: Vec<String>)
        requires
            max_name_len(root_record.children@) + 4 <= usize::MAX,
        ensures
            exists|t: RenderTexts|
                #[trigger] styled(t) && line_views(lines@) == eval_report(
                    *self,
                    status,
                    root_record.children@,
                    t,
                ),
    {
        let texts = styled_texts();
        let lines = self.report_eval_with_texts(status, root_record, &texts);
        proof {
            assert(styled(texts) && line_views(lines@) == eval_report(
                *self,
                status,
                root_record.children@,
                texts,
            ));
        }
        lines
    }
}

/// The lines of one trace-mode group: one per (name, status) pair, in group
/// insertion order.
pub open spec fn summary_lines(
    label: Seq<char>,
    g: Seq<(Seq<char>, Status)>,
    longest: nat,
    texts: RenderTexts,
) -> Seq<Seq<char>>
    decreases g.len(),
{
    if g.len() == 0 {
        Seq::empty()
    } else {
        summary_lines(label, g.drop_last(), longest, texts).push(
            entry_line(label, g.last().0, longest, text_for(texts, Option::Some(g.last().1))),
        )
    }
}

/// Appends the lines of one trace-mode group, in insertion order.
fn print_summary(
    out: &mut Vec<String>,
    label: &str,
    entries: &Vec<NamedStatus>,
    longest: usize,
    texts: &RenderTexts,
)
    requires
        longest + 4 <= usize::MAX,
    ensures
        line_views(final(out)@) == line_views(old(out)@) + summary_lines(
            label@,
            group_view(entries@),
            longest as nat,
            *texts,
        ),
{
    let ghost gv = group_view(entries@);
    let n = entries.len();
    let mut i: usize = 0;
    proof {
        assert(gv.subrange(0, 0) =~= Seq::<(Seq<char>, Status)>::empty());
        assert(line_views(out@) =~= line_views(out@) + summary_lines(
            label@,
            gv.subrange(0, 0),
            longest as nat,
            *texts,
        ));
    }
    while i < n
        invariant
            i <= n,
            n == entries@.len(),
            gv == group_view(entries@),
            longest + 4 <= usize::MAX,
            line_views(out@) == line_views(old(out)@) + summary_lines(
                label@,
                gv.subrange(0, i as int),
                longest as nat,
                *texts,
            ),
        decreases n - i,
    {
        let e = &entries[i];
        let line = format_entry(label, e.name.as_str(), longest, text_ref(texts, Some(e.status)).as_str());
        proof {
            lemma_line_views_push(out@, line);
        }
        out.push(line);
        proof {
            let sub1 = gv.subrange(0, i + 1);
            assert(sub1.drop_last() =~= gv.subrange(0, i as int));
            assert(sub1.last() == gv[i as int]);
            assert(gv[i as int] == (entries@[i as int].name@, entries@[i as int].status));
            assert(line_views(out@) =~= line_views(old(out)@) + summary_lines(
                label@,
                sub1,
                longest as nat,
                *texts,
            ));
        }
        i = i + 1;
    }
    proof {
        assert(gv.subrange(0, n as int) =~= gv);
    }
}

/// The SKIP group as the report shows it: after supersession by the PASS and
/// FAIL groups.
pub open spec fn rendered_skip_group(children: Seq<EvalNode>) -> Seq<(Seq<char>, Status)> {
    unsuperseded(
        group_for(children, Status::SKIP),
        group_for(children, Status::PASS),
        group_for(children, Status::FAIL),
    )
}

/// The block a trace-mode report emits for category `c`: header plus entry
/// lines when the category is selected and its group is non-empty, nothing
/// otherwise.
pub open spec fn eval_block(
    table: SummaryTable,
    c: Status,
    g: Seq<(Seq<char>, Status)>,
    longest: nat,
    texts: RenderTexts,
) -> Seq<Seq<char>> {
    if table.summary_type.spec_includes(c) && g.len() != 0 {
        seq![group_header_text(c, texts)] + summary_lines(table.rules_file_name@, g, longest, texts)
    } else {
        Seq::empty()
    }
}

/// The whole trace-mode report: header line, then the SKIP, PASS and FAIL
/// blocks in that fixed order, then the closing separator. The SKIP group is
/// shown after supersession; padding uses the longest rule name among all
/// qualifying children.
pub open spec fn eval_report(
    table: SummaryTable,
    status: Status,
    children: Seq<EvalNode>,
    texts: RenderTexts,
) -> Seq<Seq<char>> {
    let longest = max_name_len(children);
    seq![header_line(table.data_file_name@, text_for(texts, Option::Some(status)))]
    + eval_block(table, Status::SKIP, rendered_skip_group(children), longest, texts)
    + eval_block(table, Status::PASS, group_for(children, Status::PASS), longest, texts)
    + eval_block(table, Status::FAIL, group_for(children, Status::FAIL), longest, texts)
    + seq!["---"@]
}

} // verus!
