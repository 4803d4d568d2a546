//! The report's guarantees, stated and proved once over the specification
//! functions that the renderers' contracts use: which groups are emitted,
//! their fixed order, supersession of skipped names, column alignment, and
//! the unconditional closing separator.

use vstd::prelude::*;
use crate::format::{entry_line, header_line, lemma_spaces_len, pad_name};
use crate::groups::{group_for, has_name, max_name_len, unsuperseded};
use crate::report::{
    entry_selected, eval_block, eval_report, flat_block, flat_group_lines, flat_group_nonempty,
    flat_lines_for, flat_report, group_header_text, has_selected, rendered_skip_group,
    summary_lines, EntrySel, SummaryTable,
};
use crate::status::{EvalNode, ResultEntry, Status};
use crate::style::{text_for, RenderTexts};

verus! {

/// A flat-mode partition yields a line for some entry exactly when it picks
/// some entry.
pub proof fn lemma_flat_group_lines_nonempty(
    label: Seq<char>,
    entries: Seq<ResultEntry>,
    sel: EntrySel,
    longest: nat,
    texts: RenderTexts,
)
    ensures
        flat_group_lines(label, entries, sel, longest, texts).len() != 0 <==> has_selected(
            entries,
            sel,
        ),
    decreases entries.len(),
{
    if entries.len() == 0 {
        assert(!has_selected(entries, sel));
    } else {
        lemma_flat_group_lines_nonempty(label, entries.drop_last(), sel, longest, texts);
        if entry_selected(sel, entries.last()) {
            assert(has_selected(entries, sel));
        } else {
            if has_selected(entries.drop_last(), sel) {
                let i = choose|i: int|
                    0 <= i < entries.drop_last().len() && entry_selected(
                        sel,
                        entries.drop_last()[i],
                    );
                assert(entry_selected(sel, entries[i]));
            }
            if has_selected(entries, sel) {
                let i = choose|i: int| 0 <= i < entries.len() && entry_selected(sel, entries[i]);
                assert(entry_selected(sel, entries.drop_last()[i]));
            }
        }
    }
}

/// A group for a category is emitted — its block is non-empty — exactly when
/// the category is part of the selector and the group has an entry to show.
pub proof fn lemma_flat_group_emitted(
    table: SummaryTable,
    c: Status,
    failed: Seq<ResultEntry>,
    passed_or_skipped: Seq<ResultEntry>,
    longest: nat,
    texts: RenderTexts,
)
    ensures
        flat_block(table, c, failed, passed_or_skipped, longest, texts).len() != 0 <==> (
        table.summary_type.spec_includes(c) && flat_group_nonempty(c, failed, passed_or_skipped)),
        flat_group_nonempty(c, failed, passed_or_skipped) <==> flat_lines_for(
            c,
            table.rules_file_name@,
            failed,
            passed_or_skipped,
            longest,
            texts,
        ).len() != 0,
{
    let label = table.rules_file_name@;
    lemma_flat_group_lines_nonempty(label, passed_or_skipped, EntrySel::SkipOnly, longest, texts);
    lemma_flat_group_lines_nonempty(label, passed_or_skipped, EntrySel::NonSkip, longest, texts);
    lemma_flat_group_lines_nonempty(label, failed, EntrySel::All, longest, texts);
}

/// A trace-mode group is emitted — its block is non-empty — exactly when the
/// category is part of the selector and the group has an entry to show.
pub proof fn lemma_eval_group_emitted(
    table: SummaryTable,
    c: Status,
    g: Seq<(Seq<char>, Status)>,
    longest: nat,
    texts: RenderTexts,
)
    ensures
        eval_block(table, c, g, longest, texts).len() != 0 <==> (
        table.summary_type.spec_includes(c) && g.len() != 0),
{
}

/// A flat-mode report is always the header line, then the SKIP block, then
/// the PASS block, then the FAIL block, then the separator — in that order,
/// whatever the input order or the selector — and the separator `---` is
/// always its last line.
pub proof fn lemma_flat_report_shape(
    table: SummaryTable,
    status: Option<Status>,
    failed: Seq<ResultEntry>,
    passed_or_skipped: Seq<ResultEntry>,
    longest: nat,
    texts: RenderTexts,
)
    ensures
        flat_report(table, status, failed, passed_or_skipped, longest, texts) == seq![
            header_line(table.data_file_name@, text_for(texts, status)),
        ] + flat_block(table, Status::SKIP, failed, passed_or_skipped, longest, texts) + flat_block(
            table,
            Status::PASS,
            failed,
            passed_or_skipped,
            longest,
            texts,
        ) + flat_block(table, Status::FAIL, failed, passed_or_skipped, longest, texts) + seq![
            "---"@,
        ],
        flat_report(table, status, failed, passed_or_skipped, longest, texts).len() >= 2,
        flat_report(table, status, failed, passed_or_skipped, longest, texts).first()
            == header_line(table.data_file_name@, text_for(texts, status)),
        flat_report(table, status, failed, passed_or_skipped, longest, texts).last() == "---"@,
{
    let r = flat_report(table, status, failed, passed_or_skipped, longest, texts);
    assert(r.last() == "---"@);
    assert(r.first() == header_line(table.data_file_name@, text_for(texts, status)));
}

/// A trace-mode report is always the header line, then the SKIP block, then
/// the PASS block, then the FAIL block, then the separator — in that order —
/// and the separator `---` is always its last line.
pub proof fn lemma_eval_report_shape(
    table: SummaryTable,
    status: Status,
    children: Seq<EvalNode>,
    texts: RenderTexts,
)
    ensures
        eval_report(table, status, children, texts) == seq![
            header_line(table.data_file_name@, text_for(texts, Option::Some(status))),
        ] + eval_block(
            table,
            Status::SKIP,
            rendered_skip_group(children),
            max_name_len(children),
            texts,
        ) + eval_block(
            table,
            Status::PASS,
            group_for(children, Status::PASS),
            max_name_len(children),
            texts,
        ) + eval_block(
            table,
            Status::FAIL,
            group_for(children, Status::FAIL),
            max_name_len(children),
            texts,
        ) + seq!["---"@],
        eval_report(table, status, children, texts).len() >= 2,
        eval_report(table, status, children, texts).first() == header_line(
            table.data_file_name@,
            text_for(texts, Option::Some(status)),
        ),
        eval_report(table, status, children, texts).last() == "---"@,
{
    let r = eval_report(table, status, children, texts);
    assert(r.last() == "---"@);
    assert(r.first() == header_line(table.data_file_name@, text_for(texts, Option::Some(status))));
}

/// Supersession, in general: a name that the PASS or the FAIL group holds
/// never survives in the SKIP group.
pub proof fn lemma_unsuperseded_excludes(
    skip: Seq<(Seq<char>, Status)>,
    pass: Seq<(Seq<char>, Status)>,
    fail: Seq<(Seq<char>, Status)>,
    n: Seq<char>,
)
    requires
        has_name(pass, n) || has_name(fail, n),
    ensures
        !has_name(unsuperseded(skip, pass, fail), n),
    decreases skip.len(),
{
    if skip.len() != 0 {
        lemma_unsuperseded_excludes(skip.drop_last(), pass, fail, n);
        let rest = unsuperseded(skip.drop_last(), pass, fail);
        let p = skip.last();
        if !has_name(pass, p.0) && !has_name(fail, p.0) {
            assert(p.0 != n);
            assert forall|i: int| 0 <= i < rest.push(p).len() implies rest.push(p)[i].0 != n by {
                if i < rest.len() {
                    assert(!has_name(rest, n));
                }
            }
        }
    }
}

/// In trace mode, a rule name that appears in the PASS group or in the FAIL
/// group never appears in the rendered SKIP group, even where the raw input
/// tagged that name as skipped.
pub proof fn lemma_skip_superseded(children: Seq<EvalNode>, n: Seq<char>)
    requires
        has_name(group_for(children, Status::PASS), n) || has_name(
            group_for(children, Status::FAIL),
            n,
        ),
    ensures
        !has_name(rendered_skip_group(children), n),
{
    lemma_unsuperseded_excludes(
        group_for(children, Status::SKIP),
        group_for(children, Status::PASS),
        group_for(children, Status::FAIL),
        n,
    );
}

/// The line shows one of the entries the partition picked, with that entry's
/// own status text.
pub open spec fn line_from_entry(
    label: Seq<char>,
    entries: Seq<ResultEntry>,
    sel: EntrySel,
    longest: nat,
    texts: RenderTexts,
    line: Seq<char>,
) -> bool {
    exists|j: int|
        0 <= j < entries.len() && #[trigger] entry_selected(sel, entries[j]) && line == entry_line(
            label,
            entries[j].name@,
            longest,
            text_for(texts, entries[j].status),
        )
}

/// Every line of a flat-mode group comes from an entry the partition picked,
/// formatted as an entry line with that entry's own status text.
pub proof fn lemma_flat_group_lines_membership(
    label: Seq<char>,
    entries: Seq<ResultEntry>,
    sel: EntrySel,
    longest: nat,
    texts: RenderTexts,
)
    ensures
        forall|i: int|
            0 <= i < flat_group_lines(label, entries, sel, longest, texts).len()
                ==> #[trigger] line_from_entry(
                label,
                entries,
                sel,
                longest,
                texts,
                flat_group_lines(label, entries, sel, longest, texts)[i],
            ),
    decreases entries.len(),
{
    if entries.len() != 0 {
        lemma_flat_group_lines_membership(label, entries.drop_last(), sel, longest, texts);
        let lines = flat_group_lines(label, entries, sel, longest, texts);
        let rest = flat_group_lines(label, entries.drop_last(), sel, longest, texts);
        assert forall|i: int| 0 <= i < lines.len() implies line_from_entry(
            label,
            entries,
            sel,
            longest,
            texts,
            lines[i],
        ) by {
            if i < rest.len() {
                assert(line_from_entry(label, entries.drop_last(), sel, longest, texts, rest[i]));
                let j = choose|j: int|
                    0 <= j < entries.drop_last().len() && #[trigger] entry_selected(
                        sel,
                        entries.drop_last()[j],
                    ) && rest[i] == entry_line(
                        label,
                        entries.drop_last()[j].name@,
                        longest,
                        text_for(texts, entries.drop_last()[j].status),
                    );
                assert(entries.drop_last()[j] == entries[j]);
                assert(entry_selected(sel, entries[j]) && lines[i] == entry_line(
                    label,
                    entries[j].name@,
                    longest,
                    text_for(texts, entries[j].status),
                ));
            } else {
                let j = entries.len() - 1;
                assert(entry_selected(sel, entries[j]) && lines[i] == entry_line(
                    label,
                    entries[j].name@,
                    longest,
                    text_for(texts, entries[j].status),
                ));
            }
        }
    }
}

/// A trace-mode group's lines, one per pair, by index.
pub proof fn lemma_summary_lines_index(
    label: Seq<char>,
    g: Seq<(Seq<char>, Status)>,
    longest: nat,
    texts: RenderTexts,
)
    ensures
        summary_lines(label, g, longest, texts).len() == g.len(),
        forall|i: int|
            0 <= i < g.len() ==> summary_lines(label, g, longest, texts)[i] == entry_line(
                label,
                g[i].0,
                longest,
                text_for(texts, Option::Some(g[i].1)),
            ),
    decreases g.len(),
{
    if g.len() != 0 {
        lemma_summary_lines_index(label, g.drop_last(), longest, texts);
        assert(forall|i: int|
            0 <= i < g.len() - 1 ==> g.drop_last()[i] == g[i]);
    }
}

/// Every name a trace-mode group holds is no longer than the longest name
/// among the root's qualifying children.
pub proof fn lemma_group_names_bounded(children: Seq<EvalNode>, c: Status)
    ensures
        forall|i: int|
            0 <= i < group_for(children, c).len() ==> #[trigger] group_for(
                children,
                c,
            )[i].0.len() <= max_name_len(children),
    decreases children.len(),
{
    if children.len() != 0 {
        lemma_group_names_bounded(children.drop_last(), c);
        assert(max_name_len(children.drop_last()) <= max_name_len(children));
        let g = group_for(children, c);
        let rest = group_for(children.drop_last(), c);
        assert forall|i: int| 0 <= i < g.len() implies g[i].0.len() <= max_name_len(children) by {
            if i < rest.len() {
                assert(rest[i].0.len() <= max_name_len(children.drop_last()));
                assert(g[i] == rest[i]);
            }
        }
    }
}

/// Supersession only removes pairs: whatever survives was in the SKIP group.
pub proof fn lemma_unsuperseded_membership(
    skip: Seq<(Seq<char>, Status)>,
    pass: Seq<(Seq<char>, Status)>,
    fail: Seq<(Seq<char>, Status)>,
)
    ensures
        forall|i: int|
            0 <= i < unsuperseded(skip, pass, fail).len() ==> skip.contains(
                #[trigger] unsuperseded(skip, pass, fail)[i],
            ),
    decreases skip.len(),
{
    if skip.len() != 0 {
        lemma_unsuperseded_membership(skip.drop_last(), pass, fail);
        let u = unsuperseded(skip, pass, fail);
        let rest = unsuperseded(skip.drop_last(), pass, fail);
        assert forall|i: int| 0 <= i < u.len() implies skip.contains(u[i]) by {
            if i < rest.len() {
                let j = choose|j: int| 0 <= j < skip.drop_last().len() && skip.drop_last()[j] == rest[i];
                assert(skip[j] == u[i]);
            } else {
                assert(skip[skip.len() - 1] == u[i]);
            }
        }
    }
}

/// The entry belongs to one of the two flat-mode input lists.
pub open spec fn flat_entry_of(
    e: ResultEntry,
    failed: Seq<ResultEntry>,
    passed_or_skipped: Seq<ResultEntry>,
) -> bool {
    failed.contains(e) || passed_or_skipped.contains(e)
}

/// What one line of a flat-mode report may be: the header, the separator, a
/// group header, or an entry line of one of the input entries whose status
/// text starts at the fixed column `label.len() + 1 + (longest + 4)`.
pub open spec fn flat_line_ok(
    table: SummaryTable,
    status: Option<Status>,
    failed: Seq<ResultEntry>,
    passed_or_skipped: Seq<ResultEntry>,
    longest: nat,
    texts: RenderTexts,
    line: Seq<char>,
) -> bool {
    let label = table.rules_file_name@;
    let col = (label.len() + 1 + longest + 4) as int;
    ||| line == header_line(table.data_file_name@, text_for(texts, status))
    ||| line == "---"@
    ||| (exists|c: Status| line == #[trigger] group_header_text(c, texts))
    ||| (exists|e: ResultEntry|
        #[trigger] flat_entry_of(e, failed, passed_or_skipped) && e.name@.len() <= longest && line
            == entry_line(label, e.name@, longest, text_for(texts, e.status)) && line.len() == col
            + text_for(texts, e.status).len() && line.subrange(col, line.len() as int) == text_for(
            texts,
            e.status,
        ))
}

proof fn lemma_entry_lines_ok(
    table: SummaryTable,
    status: Option<Status>,
    failed: Seq<ResultEntry>,
    passed_or_skipped: Seq<ResultEntry>,
    longest: nat,
    texts: RenderTexts,
    entries: Seq<ResultEntry>,
    sel: EntrySel,
    line: Seq<char>,
)
    requires
        line_from_entry(table.rules_file_name@, entries, sel, longest, texts, line),
        forall|j: int| 0 <= j < entries.len() ==> #[trigger] entries[j].name@.len() <= longest,
        entries == failed || entries == passed_or_skipped,
    ensures
        flat_line_ok(table, status, failed, passed_or_skipped, longest, texts, line),
{
    let label = table.rules_file_name@;
    let j = choose|j: int|
        0 <= j < entries.len() && #[trigger] entry_selected(sel, entries[j]) && line == entry_line(
            label,
            entries[j].name@,
            longest,
            text_for(texts, entries[j].status),
        );
    let e = entries[j];
    assert(entries.contains(e));
    assert(flat_entry_of(e, failed, passed_or_skipped));
    lemma_status_text_column(label, e.name@, longest, text_for(texts, e.status));
}

proof fn lemma_flat_block_lines_ok(
    table: SummaryTable,
    c: Status,
    status: Option<Status>,
    failed: Seq<ResultEntry>,
    passed_or_skipped: Seq<ResultEntry>,
    longest: nat,
    texts: RenderTexts,
)
    requires
        forall|j: int| 0 <= j < failed.len() ==> #[trigger] failed[j].name@.len() <= longest,
        forall|j: int|
            0 <= j < passed_or_skipped.len() ==> #[trigger] passed_or_skipped[j].name@.len()
                <= longest,
    ensures
        forall|k: int|
            0 <= k < flat_block(table, c, failed, passed_or_skipped, longest, texts).len()
                ==> #[trigger] flat_line_ok(
                table,
                status,
                failed,
                passed_or_skipped,
                longest,
                texts,
                flat_block(table, c, failed, passed_or_skipped, longest, texts)[k],
            ),
{
    let label = table.rules_file_name@;
    let b = flat_block(table, c, failed, passed_or_skipped, longest, texts);
    if b.len() != 0 {
        let lines = flat_lines_for(c, label, failed, passed_or_skipped, longest, texts);
        lemma_flat_group_lines_membership(label, passed_or_skipped, EntrySel::SkipOnly, longest, texts);
        lemma_flat_group_lines_membership(label, passed_or_skipped, EntrySel::NonSkip, longest, texts);
        lemma_flat_group_lines_membership(label, failed, EntrySel::All, longest, texts);
        assert forall|k: int| 0 <= k < b.len() implies flat_line_ok(
            table,
            status,
            failed,
            passed_or_skipped,
            longest,
            texts,
            b[k],
        ) by {
            if k == 0 {
                assert(b[0] == group_header_text(c, texts));
            } else {
                assert(b[k] == lines[k - 1]);
                match c {
                    Status::SKIP => {
                        lemma_entry_lines_ok(
                            table, status, failed, passed_or_skipped, longest, texts,
                            passed_or_skipped, EntrySel::SkipOnly, lines[k - 1],
                        );
                    },
                    Status::PASS => {
                        lemma_entry_lines_ok(
                            table, status, failed, passed_or_skipped, longest, texts,
                            passed_or_skipped, EntrySel::NonSkip, lines[k - 1],
                        );
                    },
                    Status::FAIL => {
                        lemma_entry_lines_ok(
                            table, status, failed, passed_or_skipped, longest, texts,
                            failed, EntrySel::All, lines[k - 1],
                        );
                    },
                }
            }
        }
    }
}

/// Column alignment over a whole flat-mode report: when every rule name is
/// within the caller-supplied longest length, every line is the header, the
/// separator, a group header, or an entry line whose status text starts at
/// the fixed column `label.len() + 1 + (longest + 4)`.
pub proof fn lemma_flat_report_alignment(
    table: SummaryTable,
    status: Option<Status>,
    failed: Seq<ResultEntry>,
    passed_or_skipped: Seq<ResultEntry>,
    longest: nat,
    texts: RenderTexts,
)
    requires
        forall|j: int| 0 <= j < failed.len() ==> #[trigger] failed[j].name@.len() <= longest,
        forall|j: int|
            0 <= j < passed_or_skipped.len() ==> #[trigger] passed_or_skipped[j].name@.len()
                <= longest,
    ensures
        forall|i: int|
            0 <= i < flat_report(table, status, failed, passed_or_skipped, longest, texts).len()
                ==> #[trigger] flat_line_ok(
                table,
                status,
                failed,
                passed_or_skipped,
                longest,
                texts,
                flat_report(table, status, failed, passed_or_skipped, longest, texts)[i],
            ),
{
    let r = flat_report(table, status, failed, passed_or_skipped, longest, texts);
    let a = seq![header_line(table.data_file_name@, text_for(texts, status))];
    let b1 = flat_block(table, Status::SKIP, failed, passed_or_skipped, longest, texts);
    let b2 = flat_block(table, Status::PASS, failed, passed_or_skipped, longest, texts);
    let b3 = flat_block(table, Status::FAIL, failed, passed_or_skipped, longest, texts);
    lemma_flat_block_lines_ok(table, Status::SKIP, status, failed, passed_or_skipped, longest, texts);
    lemma_flat_block_lines_ok(table, Status::PASS, status, failed, passed_or_skipped, longest, texts);
    lemma_flat_block_lines_ok(table, Status::FAIL, status, failed, passed_or_skipped, longest, texts);
    assert forall|i: int| 0 <= i < r.len() implies flat_line_ok(
        table,
        status,
        failed,
        passed_or_skipped,
        longest,
        texts,
        r[i],
    ) by {
        let p1 = a + b1;
        let p2 = p1 + b2;
        let p3 = p2 + b3;
        if i < a.len() {
            assert(r[i] == header_line(table.data_file_name@, text_for(texts, status)));
        } else if i < p1.len() {
            assert(r[i] == b1[i - a.len()]);
        } else if i < p2.len() {
            assert(r[i] == b2[i - p1.len()]);
        } else if i < p3.len() {
            assert(r[i] == b3[i - p2.len()]);
        } else {
            assert(r[i] == "---"@);
        }
    }
}

/// The pair belongs to one of the three groups as the trace-mode report
/// shows them.
pub open spec fn eval_pair_of(p: (Seq<char>, Status), children: Seq<EvalNode>) -> bool {
    ||| rendered_skip_group(children).contains(p)
    ||| group_for(children, Status::PASS).contains(p)
    ||| group_for(children, Status::FAIL).contains(p)
}

/// What one line of a trace-mode report may be: the header, the separator, a
/// group header, or an entry line of one of the rendered pairs whose status
/// text starts at the fixed column `label.len() + 1 + (longest + 4)`.
pub open spec fn eval_line_ok(
    table: SummaryTable,
    status: Status,
    children: Seq<EvalNode>,
    texts: RenderTexts,
    line: Seq<char>,
) -> bool {
    let label = table.rules_file_name@;
    let longest = max_name_len(children);
    let col = (label.len() + 1 + longest + 4) as int;
    ||| line == header_line(table.data_file_name@, text_for(texts, Option::Some(status)))
    ||| line == "---"@
    ||| (exists|c: Status| line == #[trigger] group_header_text(c, texts))
    ||| (exists|p: (Seq<char>, Status)|
        #[trigger] eval_pair_of(p, children) && p.0.len() <= longest && line == entry_line(
            label,
            p.0,
            longest,
            text_for(texts, Option::Some(p.1)),
        ) && line.len() == col + text_for(texts, Option::Some(p.1)).len() && line.subrange(
            col,
            line.len() as int,
        ) == text_for(texts, Option::Some(p.1)))
}

/// Every pair that survives supersession keeps the name-length bound of the
/// SKIP group it came from.
proof fn lemma_rendered_skip_bounded(children: Seq<EvalNode>)
    ensures
        forall|i: int|
            0 <= i < rendered_skip_group(children).len() ==> #[trigger] rendered_skip_group(
                children,
            )[i].0.len() <= max_name_len(children),
{
    let skip = group_for(children, Status::SKIP);
    let u = rendered_skip_group(children);
    lemma_group_names_bounded(children, Status::SKIP);
    lemma_unsuperseded_membership(
        skip,
        group_for(children, Status::PASS),
        group_for(children, Status::FAIL),
    );
    assert forall|i: int| 0 <= i < u.len() implies u[i].0.len() <= max_name_len(children) by {
        assert(skip.contains(u[i]));
        let j = choose|j: int| 0 <= j < skip.len() && skip[j] == u[i];
        assert(skip[j].0.len() <= max_name_len(children));
    }
}

proof fn lemma_eval_block_lines_ok(
    table: SummaryTable,
    c: Status,
    status: Status,
    children: Seq<EvalNode>,
    g: Seq<(Seq<char>, Status)>,
    texts: RenderTexts,
)
    requires
        forall|j: int| 0 <= j < g.len() ==> #[trigger] g[j].0.len() <= max_name_len(children),
        forall|j: int| 0 <= j < g.len() ==> #[trigger] eval_pair_of(g[j], children),
    ensures
        forall|k: int|
            0 <= k < eval_block(table, c, g, max_name_len(children), texts).len()
                ==> #[trigger] eval_line_ok(
                table,
                status,
                children,
                texts,
                eval_block(table, c, g, max_name_len(children), texts)[k],
            ),
{
    let label = table.rules_file_name@;
    let longest = max_name_len(children);
    let b = eval_block(table, c, g, longest, texts);
    if b.len() != 0 {
        lemma_summary_lines_index(label, g, longest, texts);
        let lines = summary_lines(label, g, longest, texts);
        assert forall|k: int| 0 <= k < b.len() implies eval_line_ok(
            table,
            status,
            children,
            texts,
            b[k],
        ) by {
            if k == 0 {
                assert(b[0] == group_header_text(c, texts));
            } else {
                assert(b[k] == lines[k - 1]);
                let p = g[k - 1];
                lemma_status_text_column(label, p.0, longest, text_for(texts, Option::Some(p.1)));
                assert(eval_pair_of(p, children) && p.0.len() <= longest && b[k] == entry_line(
                    label,
                    p.0,
                    longest,
                    text_for(texts, Option::Some(p.1)),
                ));
            }
        }
    }
}

/// Column alignment over a whole trace-mode report: every line is the
/// header, the separator, a group header, or an entry line whose status text
/// starts at the fixed column `label.len() + 1 + (longest + 4)`, with
/// `longest` the longest rule name among the root's qualifying children.
pub proof fn lemma_eval_report_alignment(
    table: SummaryTable,
    status: Status,
    children: Seq<EvalNode>,
    texts: RenderTexts,
)
    ensures
        forall|i: int|
            0 <= i < eval_report(table, status, children, texts).len() ==> #[trigger] eval_line_ok(
                table,
                status,
                children,
                texts,
                eval_report(table, status, children, texts)[i],
            ),
{
    let r = eval_report(table, status, children, texts);
    let longest = max_name_len(children);
    let a = seq![header_line(table.data_file_name@, text_for(texts, Option::Some(status)))];
    let g1 = rendered_skip_group(children);
    let g2 = group_for(children, Status::PASS);
    let g3 = group_for(children, Status::FAIL);
    let b1 = eval_block(table, Status::SKIP, g1, longest, texts);
    let b2 = eval_block(table, Status::PASS, g2, longest, texts);
    let b3 = eval_block(table, Status::FAIL, g3, longest, texts);
    lemma_rendered_skip_bounded(children);
    lemma_group_names_bounded(children, Status::PASS);
    lemma_group_names_bounded(children, Status::FAIL);
    assert forall|j: int| 0 <= j < g1.len() implies #[trigger] eval_pair_of(g1[j], children) by {
        assert(g1.contains(g1[j]));
    }
    assert forall|j: int| 0 <= j < g2.len() implies #[trigger] eval_pair_of(g2[j], children) by {
        assert(g2.contains(g2[j]));
    }
    assert forall|j: int| 0 <= j < g3.len() implies #[trigger] eval_pair_of(g3[j], children) by {
        assert(g3.contains(g3[j]));
    }
    lemma_eval_block_lines_ok(table, Status::SKIP, status, children, g1, texts);
    lemma_eval_block_lines_ok(table, Status::PASS, status, children, g2, texts);
    lemma_eval_block_lines_ok(table, Status::FAIL, status, children, g3, texts);
    assert forall|i: int| 0 <= i < r.len() implies eval_line_ok(
        table,
        status,
        children,
        texts,
        r[i],
    ) by {
        let p1 = a + b1;
        let p2 = p1 + b2;
        let p3 = p2 + b3;
        if i < a.len() {
            assert(r[i] == header_line(table.data_file_name@, text_for(texts, Option::Some(status))));
        } else if i < p1.len() {
            assert(r[i] == b1[i - a.len()]);
        } else if i < p2.len() {
            assert(r[i] == b2[i - p1.len()]);
        } else if i < p3.len() {
            assert(r[i] == b3[i - p2.len()]);
        } else {
            assert(r[i] == "---"@);
        }
    }
}

/// Column alignment: in any entry line whose rule name is no longer than the
/// report's longest rule name, the status text starts at the fixed column
/// `label.len() + 1 + (longest + 4)` and fills the rest of the line.
pub proof fn lemma_status_text_column(
    label: Seq<char>,
    name: Seq<char>,
    longest: nat,
    text: Seq<char>,
)
    requires
        name.len() <= longest,
    ensures
        entry_line(label, name, longest, text).len() == label.len() + 1 + (longest + 4)
            + text.len(),
        entry_line(label, name, longest, text).subrange(
            label.len() + 1 + (longest + 4) as int,
            entry_line(label, name, longest, text).len() as int,
        ) == text,
{
    reveal_strlit("/");
    lemma_spaces_len(((longest + 4) - name.len()) as nat);
    assert(pad_name(name, longest + 4).len() == longest + 4);
    let line = entry_line(label, name, longest, text);
    assert(line.subrange(label.len() + 1 + (longest + 4) as int, line.len() as int) =~= text);
}

} // verus!
