//! Media commands (`media_*`): what is asked of `ffmpeg` and `ffprobe`, and what is made of what
//! they answer.

pub mod audio_fx;
pub mod images;
pub mod metadata;
pub mod transcode;

use vstd::prelude::*;
use vstd::string::*;
use crate::paths::{are_same_path, same_path};
use crate::text::push_texts;

verus! {

/// A run of ffmpeg: its arguments, and the file that it writes.
pub struct Run {
    pub argv: Vec<String>,
    pub output: String,
}

/// What is said where the output would be the input.
pub open spec fn onto_itself(command: Seq<char>, input: Seq<char>) -> Seq<char> {
    command + ": the output is the input itself ("@ + input + ")"@
}

/// Whether `r` is the run that writes `output` with these arguments, or the refusal to write onto
/// the input.
pub open spec fn is_writing(
    r: Result<Run, String>,
    command: Seq<char>,
    input: Seq<char>,
    output: Seq<char>,
    argv: Seq<Seq<char>>,
) -> bool {
    match r {
        Ok(run) => !same_path(output, input) && run.argv.deep_view() == argv && run.output@
            == output,
        Err(why) => same_path(output, input) && why@ == onto_itself(command, input),
    }
}

/// The start every ffmpeg-writing command shares: refuse writing onto the input itself.
pub fn run_writing(command: &str, input: &str, output: String, argv: Vec<String>) -> (r: Result<
    Run,
    String,
>)
    ensures
        is_writing(r, command@, input@, output@, argv.deep_view()),
{
    if are_same_path(output.as_str(), input) {
        let mut why: String = command.to_owned();
        why.append(": the output is the input itself (");
        why.append(input);
        why.append(")");
        return Err(why);
    }
    Ok(Run { argv, output })
}

/// The arguments ffmpeg is started with: told first that there is no standard input to read keys
/// from, since reading them leaves the terminal without echo where two runs overlap.
pub fn run_ffmpeg(argv: &Vec<String>) -> (r: Vec<String>)
    ensures
        r.deep_view() == seq!["-nostdin"@] + argv.deep_view(),
{
    let mut out: Vec<String> = vec!["-nostdin".to_owned()];
    assert(out.deep_view() =~= seq!["-nostdin"@]);
    push_texts(&mut out, argv);
    out
}

/// The line on a file that was written, by its canonical path.
pub fn report_saved(path: &str) -> (r: String)
    ensures
        r@ == "Saved: "@ + path@ + "\n"@,
{
    let mut out: String = "Saved: ".to_owned();
    out.append(path);
    out.append("\n");
    out
}

/// The file beside the input with a mark behind its stem.
pub open spec fn marked(input: Seq<char>, mark: Seq<char>) -> Seq<char> {
    let stem = match crate::paths::file_stem(input) {
        Some(stem) => stem,
        None => seq![],
    };
    crate::paths::with_file_name(
        input,
        match crate::paths::extension(input) {
            Some(ext) => stem + mark + "."@ + ext,
            None => stem + mark,
        },
    )
}

/// The file beside the input with a mark behind its stem.
pub fn marked_output(input: &str, mark: &str) -> (r: String)
    ensures
        r@ == marked(input@, mark@),
{
    let mut name: String = match crate::paths::file_stem_of(input) {
        Some(stem) => stem,
        None => String::new(),
    };
    name.append(mark);
    if let Some(ext) = crate::paths::extension_of(input) {
        name.append(".");
        name.append(ext.as_str());
    }
    crate::paths::rename_file(input, name.as_str())
}

/// The file beside the input with a mark is never the input itself: what writes there by default is
/// never refused for it.
pub proof fn law_a_marked_file_is_another(input: Seq<char>, mark: Seq<char>)
    requires
        crate::paths::file_name(input) is Some,
        mark.len() > 0,
        !mark.contains('/'),
    ensures
        !same_path(marked(input, mark), input),
{
    let name = crate::paths::file_name(input)->0;
    let stem = crate::paths::file_stem(input)->0;
    let fresh = match crate::paths::extension(input) {
        Some(ext) => stem + mark + "."@ + ext,
        None => stem + mark,
    };
    crate::paths::lemma_file_name_is_a_piece(input);
    reveal_strlit(".");
    reveal_strlit("..");
    let dot = crate::paths::dot_of(name);
    crate::paths::lemma_last_char(name, '.', name.len() as int);
    assert(fresh.len() == name.len() + mark.len());
    assert(!fresh.contains('/')) by {
        if fresh.contains('/') {
            let j = choose|j: int| 0 <= j < fresh.len() && fresh[j] == '/';
            if j < stem.len() {
                assert(name[j] == '/');
            } else if j < stem.len() + mark.len() {
                assert(mark[j - stem.len()] == '/');
            } else {
                assert(name[j - mark.len()] == fresh[j]);
            }
            assert(false);
        }
    }
    assert(stem.len() > 0);
    assert(fresh != "."@ && fresh != ".."@) by {
        if fresh.len() == 2 {
            assert(stem.len() == 1 && name.len() == 1);
            assert(name[0] == fresh[0]);
            assert(name =~= seq![fresh[0]]);
            assert("."@ =~= seq!['.']);
        }
    }
    crate::paths::law_a_renamed_file_is_another(input, fresh);
}

} // verus!
