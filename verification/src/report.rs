//! The text of the Markdown report that is not a measurement: what the report
//! says about a backend it lost, and the shape of the rendered file.
//!
//! The numbers are [`crate::analysis`]'s; their decimal spelling, and the
//! template, belong to the binary.
use vstd::prelude::*;

use crate::analysis::Failure;
use crate::machine::{na, text_or_na};
use crate::sample::{Phase, Stage};
use crate::text::{
    chars_of, decimal, join, join_strings, lemma_views_push, lines, lines_of, owned, push_char,
    push_i128, push_str, push_u128, signed_decimal, trim, trim_end, trimmed, trimmed_end, views,
};

verus! {

/// One quarantined `(backend, mode)`, formatted. A failed backend has no row in
/// the tables, and an absent row reads like a backend nobody wrote: this is
/// where the report says which ones it lost.
#[derive(Debug)]
pub struct FailureRow {
    pub workload: String,
    pub backend: String,
    pub language: String,
    pub compiler: String,
    pub interpreter: String,
    pub mode: String,
    /// `build` (the image never built), or `run round 3`: where it was when it
    /// went.
    pub stage: String,
    /// The error and its whole context chain, on one line.
    pub error: String,
}

/// Where a backend was when it was lost. Rounds are counted from zero inside
/// the harness and from one for a reader, as the campaign log counts them.
pub open spec fn stage_text(stage: Stage, phase: Option<Phase>, round: Option<u32>) -> Seq<char> {
    match stage {
        Stage::Prepare => "build"@,
        Stage::Measure => match (phase, round) {
            (Some(p), Some(n)) => p.name() + " round "@ + decimal(n as nat + 1),
            _ => "run"@,
        },
    }
}

/// The lines of a message that hold something, each trimmed.
pub open spec fn kept_lines(ls: Seq<Seq<char>>) -> Seq<Seq<char>>
    decreases ls.len(),
{
    if ls.len() == 0 {
        Seq::empty()
    } else if trim(ls.last()).len() == 0 {
        kept_lines(ls.drop_last())
    } else {
        kept_lines(ls.drop_last()).push(trim(ls.last()))
    }
}

/// `s` with every `|` escaped, so it cannot end a table cell early.
pub open spec fn escape_pipes(s: Seq<char>) -> Seq<char>
    decreases s.len(),
{
    if s.len() == 0 {
        Seq::empty()
    } else if s.last() == '|' {
        escape_pipes(s.drop_last()) + seq!['\\', '|']
    } else {
        escape_pipes(s.drop_last()).push(s.last())
    }
}

/// A message as one table cell: its non-blank lines, trimmed, joined by ` · `,
/// with its pipes escaped.
pub open spec fn one_line_of(s: Seq<char>) -> Seq<char> {
    escape_pipes(join(kept_lines(lines_of(s)), " · "@))
}

/// A row's distance from the workload's reference, signed; a bare zero for
/// no distance at all.
pub open spec fn delta_text(delta: Option<i128>) -> Seq<char> {
    match delta {
        None => na(),
        Some(d) => if d > 0 {
            seq!['+'] + decimal(d as nat)
        } else {
            signed_decimal(d as int)
        },
    }
}

/// A rendered report with exactly one newline at its end.
pub open spec fn one_newline(s: Seq<char>) -> Seq<char> {
    trim_end(s).push('\n')
}

/// What a failure row says of a failure.
pub open spec fn failure_row_is(r: FailureRow, f: Failure) -> bool {
    &&& r.workload@ == f.workload@
    &&& r.backend@ == f.backend@
    &&& r.language@ == f.language@
    &&& r.compiler@ == text_or_na(f.compiler)
    &&& r.interpreter@ == text_or_na(f.interpreter)
    &&& r.mode@ == f.mode.name()
    &&& r.stage@ == stage_text(f.stage, f.phase, f.round)
    &&& r.error@ == one_line_of(f.error@)
}

/// An absent half of a backend's triple is a fact about it, so it is spelled
/// `n/a`, never left blank.
pub fn or_na(value: &Option<String>) -> (r: String)
    ensures
        r@ == text_or_na(*value),
{
    match value {
        Some(v) => v.clone(),
        None => owned("n/a"),
    }
}

/// Where a backend was when it was lost.
pub fn stage(at: Stage, phase: Option<Phase>, round: Option<u32>) -> (r: String)
    ensures
        r@ == stage_text(at, phase, round),
{
    match at {
        Stage::Prepare => owned("build"),
        Stage::Measure => match (phase, round) {
            (Some(p), Some(n)) => {
                let mut s = owned(p.as_str());
                push_str(&mut s, " round ");
                push_u128(&mut s, n as u128 + 1);
                assert(s@ =~= stage_text(at, phase, round));
                s
            },
            _ => owned("run"),
        },
    }
}

fn escape(s: &str) -> (r: String)
    ensures
        r@ == escape_pipes(s@),
{
    let cs = chars_of(s);
    let mut r = String::new();
    let mut i: usize = 0;
    while i < cs.len()
        invariant
            cs@ == s@,
            i <= cs@.len(),
            r@ == escape_pipes(cs@.take(i as int)),
        decreases cs.len() - i,
    {
        let ghost t = cs@.take(i + 1);
        assert(t.drop_last() =~= cs@.take(i as int));
        if cs[i] == '|' {
            push_char(&mut r, '\\');
            push_char(&mut r, '|');
        } else {
            push_char(&mut r, cs[i]);
        }
        i += 1;
        assert(r@ =~= escape_pipes(t));
    }
    assert(cs@.take(i as int) =~= cs@);
    r
}

/// A message as one Markdown table cell: a compiler's diagnostics span many
/// lines, and a pipe would shear the row in half.
pub fn one_line(error: &str) -> (r: String)
    ensures
        r@ == one_line_of(error@),
{
    let all = lines(error);
    let mut kept: Vec<String> = Vec::new();
    let mut i: usize = 0;
    while i < all.len()
        invariant
            i <= all@.len(),
            views(kept@) == kept_lines(views(all@).take(i as int)),
        decreases all.len() - i,
    {
        let ghost t = views(all@).take(i + 1);
        assert(t.drop_last() =~= views(all@).take(i as int));
        assert(t.last() == all@[i as int]@);
        let line = trimmed(all[i].as_str());
        if line.as_str().unicode_len() > 0 {
            proof {
                lemma_views_push(kept@, line);
            }
            kept.push(line);
        }
        i += 1;
    }
    assert(views(all@).take(i as int) =~= views(all@));
    let joined = join_strings(&kept, " · ");
    escape(joined.as_str())
}

/// A row's distance from the workload's reference.
pub fn delta(value: Option<i128>) -> (r: String)
    ensures
        r@ == delta_text(value),
{
    match value {
        None => owned("n/a"),
        Some(d) => {
            let mut s = String::new();
            if d > 0 {
                push_char(&mut s, '+');
                push_u128(&mut s, d as u128);
                assert(s@ =~= delta_text(value));
            } else {
                push_i128(&mut s, d);
                assert(s@ =~= delta_text(value));
            }
            s
        },
    }
}

/// One failure, formatted for the report.
pub fn failure_row(failure: &Failure) -> (r: FailureRow)
    ensures
        failure_row_is(r, *failure),
{
    FailureRow {
        workload: failure.workload.clone(),
        backend: failure.backend.clone(),
        language: failure.language.clone(),
        compiler: or_na(&failure.compiler),
        interpreter: or_na(&failure.interpreter),
        mode: owned(failure.mode.as_str()),
        stage: stage(failure.stage, failure.phase, failure.round),
        error: one_line(failure.error.as_str()),
    }
}

/// A rendered report ends with exactly one newline: where a template loop
/// happens to leave a blank line is an accident, and a custom template
/// inherits the guarantee.
pub fn with_one_newline(rendered: &str) -> (r: String)
    ensures
        r@ == one_newline(rendered@),
{
    let mut r = trimmed_end(rendered);
    push_char(&mut r, '\n');
    r
}

} // verus!
