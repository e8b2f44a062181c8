//! Project commands (`pro_*`): find the toolchain from the marker files in a directory, and the
//! build, test, run or update that belongs to it.

pub mod readme;
pub mod toolchains;

use vstd::prelude::*;
use vstd::string::*;
use crate::text::{decimal, holds_text, push_decimal};
use toolchains::{toolchain_rows, toolchains, Step, StepView, Toolchain, ToolchainView};

verus! {

/// The directory to act in.
pub struct DirArgs {
    pub dir: String,
}

/// The directory to act in, and the build mode: `tiny` wins over `debug`, which wins over
/// `release`, the default.
pub struct CompileArgs {
    pub dir: String,
    pub debug: bool,
    pub release: bool,
    pub tiny: bool,
}

/// What a command comes to: what was detected, and the steps, which are taken in order until one
/// fails.
pub struct Plan {
    pub detected: String,
    pub steps: Vec<Step>,
}

/// Whether some marker is among the files that are there.
pub open spec fn is_marked(markers: Seq<Seq<char>>, present: Seq<Seq<char>>) -> bool {
    exists|i: int| 0 <= i < markers.len() && present.contains(#[trigger] markers[i])
}

/// The first toolchain with a marker among the files that are there, from position `k` on.
pub open spec fn detected_from(rows: Seq<ToolchainView>, present: Seq<Seq<char>>, k: int) -> Option<
    int,
>
    decreases rows.len() - k,
{
    if k >= rows.len() {
        None
    } else if is_marked(rows[k].markers, present) {
        Some(k)
    } else {
        detected_from(rows, present, k + 1)
    }
}

/// What is detected is the first toolchain of the table that a file marks, and nothing only where
/// none is marked.
pub proof fn law_the_first_marked_toolchain_is_detected(
    rows: Seq<ToolchainView>,
    present: Seq<Seq<char>>,
    k: int,
)
    requires
        0 <= k <= rows.len(),
    ensures
        match detected_from(rows, present, k) {
            Some(found) => k <= found < rows.len() && is_marked(rows[found].markers, present) && forall|
                i: int,
            | k <= i < found ==> !is_marked((#[trigger] rows[i]).markers, present),
            None => forall|i: int|
                k <= i < rows.len() ==> !is_marked((#[trigger] rows[i]).markers, present),
        },
    decreases rows.len() - k,
{
    if k < rows.len() && !is_marked(rows[k].markers, present) {
        law_the_first_marked_toolchain_is_detected(rows, present, k + 1);
    }
}

/// The toolchain of a directory with these files.
pub open spec fn detected(present: Seq<Seq<char>>) -> Option<ToolchainView> {
    match detected_from(toolchain_rows(), present, 0) {
        Some(k) => Some(toolchain_rows()[k]),
        None => None,
    }
}

/// A project is recognised where a file of it marks a toolchain, and its toolchain is the first of
/// the table that one marks.
pub proof fn law_a_marked_project_is_recognised(present: Seq<Seq<char>>, k: int)
    requires
        0 <= k < toolchain_rows().len(),
        exists|m: int|
            0 <= m < toolchain_rows()[k].markers.len() && present.contains(
                #[trigger] toolchain_rows()[k].markers[m],
            ),
        forall|j: int, m: int|
            0 <= j < k && 0 <= m < toolchain_rows()[j].markers.len() ==> !present.contains(
                #[trigger] toolchain_rows()[j].markers[m],
            ),
    ensures
        detected(present) == Some(toolchain_rows()[k]),
{
    let rows = toolchain_rows();
    law_the_first_marked_toolchain_is_detected(rows, present, 0);
    assert(is_marked(rows[k].markers, present));
    let found = detected_from(rows, present, 0)->0;
    assert(detected_from(rows, present, 0) is Some) by {
        if detected_from(rows, present, 0) is None {
            assert(!is_marked(rows[k].markers, present));
        }
    }
    if found < k {
        assert(!is_marked(rows[found].markers, present));
    }
    if found > k {
        assert(!is_marked(rows[k].markers, present));
    }
}

/// Whether some marker is among the files that are there.
fn has_marker(tc: &Toolchain, present: &Vec<String>) -> (r: bool)
    ensures
        r == is_marked(tc@.markers, present.deep_view()),
{
    let mut i: usize = 0;
    while i < tc.markers.len()
        invariant
            i <= tc.markers.len(),
            forall|j: int| 0 <= j < i ==> !present.deep_view().contains(#[trigger] tc@.markers[j]),
        decreases tc.markers.len() - i,
    {
        assert(tc@.markers[i as int] == tc.markers@[i as int]@);
        if holds_text(present, tc.markers[i]) {
            return true;
        }
        i += 1;
    }
    assert(tc.markers.deep_view().len() == tc.markers@.len());
    false
}

/// The toolchain of a directory, given the files that are there: the order of the table is the
/// priority.
pub fn detect_with(present: &Vec<String>) -> (r: Option<Toolchain>)
    ensures
        r.deep_view() == detected(present.deep_view()),
{
    let mut rows: Vec<Toolchain> = toolchains();
    let mut k: usize = 0;
    while k < rows.len()
        invariant
            k <= rows.len(),
            rows.deep_view() == toolchain_rows(),
            detected_from(toolchain_rows(), present.deep_view(), 0) == detected_from(
                toolchain_rows(),
                present.deep_view(),
                k as int,
            ),
        decreases rows.len() - k,
    {
        assert(rows.deep_view()[k as int] == rows@[k as int]@);
        if has_marker(&rows[k], present) {
            return Some(rows.swap_remove(k));
        }
        k += 1;
    }
    assert(rows.deep_view().len() == rows@.len());
    None
}

/// What is said where no toolchain is detected.
pub open spec fn unrecognized(dir: Seq<char>) -> Seq<char> {
    "pro: no recognized project in '"@ + dir + "' (looked for the markers of "@ + decimal(
        toolchain_rows().len(),
    ) + " toolchains)"@
}

/// The toolchain of a directory, or what is said where there is none.
pub fn detect(dir: &str, present: &Vec<String>) -> (r: Result<Toolchain, String>)
    ensures
        match r {
            Ok(tc) => detected(present.deep_view()) == Some(tc@),
            Err(why) => detected(present.deep_view()) is None && why@ == unrecognized(dir@),
        },
{
    match detect_with(present) {
        Some(tc) => Ok(tc),
        None => {
            let mut why: String = "pro: no recognized project in '".to_owned();
            why.append(dir);
            why.append("' (looked for the markers of ");
            let rows: Vec<Toolchain> = toolchains();
            assert(rows.deep_view().len() == rows@.len());
            push_decimal(&mut why, rows.len() as u128);
            why.append(" toolchains)");
            Err(why)
        },
    }
}

/// Whether `r` is the plan of these steps for the toolchain detected, or the note that none was.
pub open spec fn is_plan(
    r: Result<Plan, String>,
    dir: Seq<char>,
    present: Seq<Seq<char>>,
    steps: Seq<StepView>,
) -> bool {
    match detected(present) {
        Some(tc) => r matches Ok(plan) && plan.detected@ == "Detected "@ + tc.name
            && plan.steps.deep_view() == steps,
        None => r matches Err(why) && why@ == unrecognized(dir),
    }
}

/// The toolchain's line.
fn detected_line(tc: &Toolchain) -> (r: String)
    ensures
        r@ == "Detected "@ + tc@.name,
{
    let mut out: String = "Detected ".to_owned();
    out.append(tc.name);
    out
}

/// The plan of one step.
fn single(tc: &Toolchain, step: Step) -> (r: Plan)
    ensures
        r.detected@ == "Detected "@ + tc@.name,
        r.steps.deep_view() == seq![step@],
{
    let mut steps: Vec<Step> = Vec::new();
    steps.push(step);
    assert(steps.deep_view() =~= seq![step@]);
    Plan { detected: detected_line(tc), steps }
}

/// Build the project: in release mode unless another is asked for.
pub fn compile(args: &CompileArgs, present: &Vec<String>) -> (r: Result<Plan, String>)
    ensures
        is_plan(
            r,
            args.dir@,
            present.deep_view(),
            seq![
                if args.tiny {
                    detected(present.deep_view())->0.tiny
                } else if args.debug {
                    detected(present.deep_view())->0.debug
                } else {
                    detected(present.deep_view())->0.release
                },
            ],
        ),
{
    match detect(args.dir.as_str(), present) {
        Err(why) => Err(why),
        Ok(tc) => {
            let step: Step = if args.tiny {
                tc.tiny
            } else if args.debug {
                tc.debug
            } else {
                tc.release
            };
            Ok(single(&tc, step))
        },
    }
}

/// Run the tests: behind a debug build where they expect a tree that is already built.
pub fn test(args: &DirArgs, present: &Vec<String>) -> (r: Result<Plan, String>)
    ensures
        is_plan(
            r,
            args.dir@,
            present.deep_view(),
            if detected(present.deep_view())->0.test_needs_build {
                seq![
                    detected(present.deep_view())->0.debug,
                    detected(present.deep_view())->0.test,
                ]
            } else {
                seq![detected(present.deep_view())->0.test]
            },
        ),
{
    match detect(args.dir.as_str(), present) {
        Err(why) => Err(why),
        Ok(tc) => {
            let mut steps: Vec<Step> = Vec::new();
            if tc.test_needs_build {
                steps.push(tc.debug);
            }
            steps.push(tc.test);
            assert(steps.deep_view() =~= if tc.test_needs_build {
                seq![tc@.debug, tc@.test]
            } else {
                seq![tc@.test]
            });
            Ok(Plan { detected: detected_line(&tc), steps })
        },
    }
}

/// Build and run the project.
pub fn run(args: &DirArgs, present: &Vec<String>) -> (r: Result<Plan, String>)
    ensures
        is_plan(r, args.dir@, present.deep_view(), seq![detected(present.deep_view())->0.run]),
{
    match detect(args.dir.as_str(), present) {
        Err(why) => Err(why),
        Ok(tc) => Ok(single(&tc, tc.run)),
    }
}

/// Upgrade the dependencies of the project.
pub fn update_packages(args: &DirArgs, present: &Vec<String>) -> (r: Result<Plan, String>)
    ensures
        is_plan(r, args.dir@, present.deep_view(), seq![detected(present.deep_view())->0.update]),
{
    match detect(args.dir.as_str(), present) {
        Err(why) => Err(why),
        Ok(tc) => Ok(single(&tc, tc.update)),
    }
}

/// What is printed for a step, and the shell command to run behind it, where there is one.
pub fn announce(step: &Step) -> (r: (String, Option<&'static str>))
    ensures
        match step@ {
            StepView::Run(command) => r.0@ == "running:  "@ + command && r.1.deep_view() == Some(
                command,
            ),
            StepView::Note(text) => r.0@ == text && r.1 is None,
        },
{
    match step {
        Step::Run(command) => {
            let mut out: String = "running:  ".to_owned();
            out.append(command);
            (out, Some(*command))
        },
        Step::Note(text) => ((*text).to_owned(), None),
    }
}

proof fn lemma_detected_from(rows: Seq<ToolchainView>, present: Seq<Seq<char>>, k: int)
    requires
        0 <= k,
    ensures
        match detected_from(rows, present, k) {
            Some(found) => k <= found < rows.len() && is_marked(rows[found].markers, present)
                && forall|j: int| k <= j < found ==> !is_marked(#[trigger] rows[j].markers, present),
            None => forall|j: int|
                k <= j < rows.len() ==> !is_marked(#[trigger] rows[j].markers, present),
        },
    decreases rows.len() - k,
{
    if k < rows.len() && !is_marked(rows[k].markers, present) {
        lemma_detected_from(rows, present, k + 1);
    }
}

/// More files never move detection to a later row: what was detected stays, or gives way to a
/// more specific toolchain.
pub proof fn law_more_files_only_make_it_more_specific(
    present: Seq<Seq<char>>,
    more: Seq<Seq<char>>,
)
    requires
        forall|f: Seq<char>| present.contains(f) ==> more.contains(f),
        detected(present) is Some,
    ensures
        detected_from(toolchain_rows(), more, 0) is Some,
        detected_from(toolchain_rows(), more, 0)->0 <= detected_from(
            toolchain_rows(),
            present,
            0,
        )->0,
{
    let rows = toolchain_rows();
    lemma_detected_from(rows, present, 0);
    lemma_detected_from(rows, more, 0);
    let found = detected_from(rows, present, 0)->0;
    let i = choose|i: int|
        0 <= i < rows[found].markers.len() && present.contains(#[trigger] rows[found].markers[i]);
    assert(more.contains(rows[found].markers[i]));
    assert(is_marked(rows[found].markers, more));
}

} // verus!
