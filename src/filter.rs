use vstd::prelude::*;
use crate::diagnostics::{Diagnostic, Level, Span};
use crate::diff::{find_file, FileChanges, FileModel};
use crate::intervals::{intersect_intervals, intersects, sorted_disjoint};

verus! {

/// Whether the lines of `sp` meet a changed interval of its file.
pub open spec fn span_hits(sp: Span, files: FileModel) -> bool {
    match find_file(files, sp.file_name@) {
        Some(k) => intersects(sp.line_start as int, sp.line_end as int, files[k].1),
        None => false,
    }
}

/// Whether `d` is to be reported: everything but a warning is; a warning is
/// when one of its spans meets a changed interval.
pub open spec fn report_spec(d: Diagnostic, files: FileModel) -> bool {
    match d.message {
        None => true,
        Some(m) => m.level != Level::Warning || exists|i: int|
            0 <= i < m.spans@.len() && #[trigger] span_hits(m.spans@[i], files),
    }
}

/// Every file's intervals are sorted and disjoint.
pub open spec fn all_sorted(files: FileModel) -> bool {
    forall|k: int| 0 <= k < files.len() ==> sorted_disjoint(#[trigger] files[k].1)
}

/// Return `false` iff the message is a warning not related to changed lines.
pub fn should_report_diagnostic(diagnostic: &Diagnostic, file_changes: &FileChanges) -> (r: bool)
    requires
        file_changes.wf(),
    ensures
        (diagnostic.message matches Some(m) ==> m.level != Level::Warning) ==> r,
        r ==> report_spec(*diagnostic, file_changes@),
        all_sorted(file_changes@) ==> r == report_spec(*diagnostic, file_changes@),
{
    if let Some(message) = diagnostic.message.as_ref() {
        if message.level == Level::Warning {
            let mut i: usize = 0;
            while i < message.spans.len()
                invariant
                    i <= message.spans@.len(),
                    diagnostic.message == Some(*message),
                    message.level == Level::Warning,
                    file_changes.wf(),
                    all_sorted(file_changes@) ==> forall|j: int|
                        0 <= j < i ==> !#[trigger] span_hits(message.spans@[j], file_changes@),
                decreases message.spans@.len() - i,
            {
                let span = &message.spans[i];
                if let Some(ranges) = file_changes.get(span.file_name.as_str()) {
                    let ghost files = file_changes@;
                    let ghost k = find_file(files, span.file_name@)->Some_0;
                    assert(find_file(files, span.file_name@) is Some);
                    assert(ranges@ == files[k].1);
                    assert(all_sorted(files) ==> sorted_disjoint(files[k].1));
                    if intersect_intervals(span.line_start, span.line_end, ranges.as_slice()) {
                        assert(span_hits(message.spans@[i as int], files));
                        return true;
                    }
                }
                i += 1;
            }
            return false;
        }
    }
    true
}

/// A warning whose spans all lie in files absent from the changes is not
/// reported.
pub proof fn lemma_warning_in_unchanged_files_is_suppressed(d: Diagnostic, files: FileModel)
    requires
        d.message matches Some(m) && m.level == Level::Warning && forall|i: int|
            0 <= i < m.spans@.len() ==> find_file(files, (#[trigger] m.spans@[i]).file_name@)
                is None,
    ensures
        !report_spec(d, files),
{
}

/// A warning with a span whose lines meet a changed interval of its file is
/// reported.
pub proof fn lemma_warning_on_changed_lines_is_reported(d: Diagnostic, files: FileModel, i: int, k: int)
    requires
        d.message matches Some(m) && m.level == Level::Warning && 0 <= i < m.spans@.len()
            && find_file(files, m.spans@[i].file_name@) == Some(k) && intersects(
            m.spans@[i].line_start as int,
            m.spans@[i].line_end as int,
            files[k].1,
        ),
    ensures
        report_spec(d, files),
{
    let m = d.message->Some_0;
    assert(span_hits(m.spans@[i], files));
}

/// Errors, notes and help messages are reported whatever their spans and
/// whatever the changes.
pub proof fn lemma_non_warnings_are_reported(d: Diagnostic, files: FileModel)
    requires
        d.message matches Some(m) && m.level != Level::Warning,
    ensures
        report_spec(d, files),
{
}

/// A record without a message is reported.
pub proof fn lemma_records_without_message_are_reported(d: Diagnostic, files: FileModel)
    requires
        d.message is None,
    ensures
        report_spec(d, files),
{
}

} // verus!
