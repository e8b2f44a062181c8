//! Compose image files onto one canvas: side by side or stacked, each padded to the canvas on
//! its cross axis.

use vstd::prelude::*;
use vstd::string::*;
use super::Run;
use crate::paths::{file_stem, file_stem_of};
use crate::sequences::{lemma_flat_map_last, lemma_parts_last};
use crate::text::{
    chars_of, decimal, parse_decimal, parse_number, push_decimal, push_text, push_words, quoted,
    quoted_text, trim, trimmed,
};

verus! {

/// Vertical placement of each image within a side-by-side merge.
#[derive(Clone, Copy, Debug, PartialEq, Eq, Structural)]
pub enum VerticalAlign {
    Top,
    Middle,
    Bottom,
}

/// Horizontal placement of each image within a top-to-bottom merge.
#[derive(Clone, Copy, Debug, PartialEq, Eq, Structural)]
pub enum HorizontalAlign {
    Left,
    Center,
    Right,
}

/// The arguments of `hmerge_imgs`.
pub struct HmergeImgsArgs {
    /// Output file; by default named after the inputs.
    pub output: Option<String>,
    /// Overwrite the output file if it exists.
    pub overwrite: bool,
    /// Where each image sits vertically on the canvas.
    pub align: VerticalAlign,
    /// Input images, merged at full size, in the order given.
    pub inputs: Vec<String>,
}

/// The arguments of `vmerge_imgs`.
pub struct VmergeImgsArgs {
    /// Output file; by default named after the inputs.
    pub output: Option<String>,
    /// Overwrite the output file if it exists.
    pub overwrite: bool,
    /// Where each image sits horizontally on the canvas.
    pub align: HorizontalAlign,
    /// Input images, merged at full size, in the order given.
    pub inputs: Vec<String>,
}

/// Which way images are merged.
#[derive(Clone, Copy, Debug, PartialEq, Eq, Structural)]
pub enum Axis {
    /// Side by side: the canvas fixes a shared height.
    Horizontal,
    /// Top to bottom: the canvas fixes a shared width.
    Vertical,
}

impl VerticalAlign {
    /// The expression for how far down an image sits: `oh` is the canvas height, `ih` the
    /// image's own.
    pub open spec fn offset(self) -> Seq<char> {
        match self {
            VerticalAlign::Top => "0"@,
            VerticalAlign::Middle => "(oh-ih)/2"@,
            VerticalAlign::Bottom => "oh-ih"@,
        }
    }

    /// The expression for how far down an image sits.
    pub fn offset_expr(self) -> (r: &'static str)
        ensures
            r@ == self.offset(),
    {
        match self {
            VerticalAlign::Top => "0",
            VerticalAlign::Middle => "(oh-ih)/2",
            VerticalAlign::Bottom => "oh-ih",
        }
    }
}

impl HorizontalAlign {
    /// The expression for how far right an image sits: `ow` is the canvas width, `iw` the
    /// image's own.
    pub open spec fn offset(self) -> Seq<char> {
        match self {
            HorizontalAlign::Left => "0"@,
            HorizontalAlign::Center => "(ow-iw)/2"@,
            HorizontalAlign::Right => "ow-iw"@,
        }
    }

    /// The expression for how far right an image sits.
    pub fn offset_expr(self) -> (r: &'static str)
        ensures
            r@ == self.offset(),
    {
        match self {
            HorizontalAlign::Left => "0",
            HorizontalAlign::Center => "(ow-iw)/2",
            HorizontalAlign::Right => "ow-iw",
        }
    }
}

impl Axis {
    /// What the probe measures.
    pub open spec fn entry(self) -> Seq<char> {
        match self {
            Axis::Horizontal => "stream=height"@,
            Axis::Vertical => "stream=width"@,
        }
    }

    /// The padding of one image up to the canvas, keeping its other dimension.
    pub open spec fn padding(self, canvas: nat, offset: Seq<char>) -> Seq<char> {
        match self {
            Axis::Horizontal => "pad=w=iw:h="@ + decimal(canvas) + ":x=0:y="@ + offset,
            Axis::Vertical => "pad=w="@ + decimal(canvas) + ":h=ih:x="@ + offset + ":y=0"@,
        }
    }

    /// The filter that joins the padded images.
    pub open spec fn stacking(self) -> Seq<char> {
        match self {
            Axis::Horizontal => "hstack"@,
            Axis::Vertical => "vstack"@,
        }
    }

    /// The name of the command.
    pub open spec fn command_name(self) -> Seq<char> {
        match self {
            Axis::Horizontal => "media_hmerge_imgs"@,
            Axis::Vertical => "media_vmerge_imgs"@,
        }
    }

    /// What the name of the output begins with by default.
    pub open spec fn stem(self) -> Seq<char> {
        match self {
            Axis::Horizontal => "hmerged"@,
            Axis::Vertical => "vmerged"@,
        }
    }

    /// What the probe measures: the dimension that the canvas fixes.
    pub fn probe_entry(self) -> (r: &'static str)
        ensures
            r@ == self.entry(),
    {
        match self {
            Axis::Horizontal => "stream=height",
            Axis::Vertical => "stream=width",
        }
    }

    /// The padding of one image up to the canvas.
    pub fn pad(self, canvas: u32, offset: &str) -> (r: String)
        ensures
            r@ == self.padding(canvas as nat, offset@),
    {
        match self {
            Axis::Horizontal => {
                let mut out: String = "pad=w=iw:h=".to_owned();
                push_decimal(&mut out, canvas as u128);
                out.append(":x=0:y=");
                out.append(offset);
                out
            },
            Axis::Vertical => {
                let mut out: String = "pad=w=".to_owned();
                push_decimal(&mut out, canvas as u128);
                out.append(":h=ih:x=");
                out.append(offset);
                out.append(":y=0");
                out
            },
        }
    }

    /// The filter that joins the padded images; it sums the other dimension itself.
    pub fn stack(self) -> (r: &'static str)
        ensures
            r@ == self.stacking(),
    {
        match self {
            Axis::Horizontal => "hstack",
            Axis::Vertical => "vstack",
        }
    }

    /// The name of the command.
    pub fn command(self) -> (r: &'static str)
        ensures
            r@ == self.command_name(),
    {
        match self {
            Axis::Horizontal => "media_hmerge_imgs",
            Axis::Vertical => "media_vmerge_imgs",
        }
    }

    /// What the name of the output begins with by default.
    pub fn merged_stem(self) -> (r: &'static str)
        ensures
            r@ == self.stem(),
    {
        match self {
            Axis::Horizontal => "hmerged",
            Axis::Vertical => "vmerged",
        }
    }
}

// --- the canvas -----------------------------------------------------------------------------

/// The size of an image along the canvas dimension, from what the probe printed, or what is
/// said where it is not known.
pub open spec fn dimension(axis: Axis, path: Seq<char>, printed: Option<Seq<char>>) -> Result<
    nat,
    Seq<char>,
> {
    match printed {
        None => Err(axis.command_name() + ": could not measure "@ + path),
        Some(text) => match parse_decimal(trim(text), u32::MAX as nat) {
            Some(n) => Ok(n),
            None => Err(
                axis.command_name() + ": unexpected ffprobe size "@ + quoted_text(text) + " for "@
                    + path,
            ),
        },
    }
}

/// The largest of the first `n` sizes, where there is one, or the first failure.
pub open spec fn largest(
    axis: Axis,
    paths: Seq<Seq<char>>,
    printed: Seq<Option<Seq<char>>>,
    n: nat,
) -> Result<Option<nat>, Seq<char>>
    decreases n,
{
    if n == 0 {
        Ok(None)
    } else {
        match largest(axis, paths, printed, (n - 1) as nat) {
            Err(why) => Err(why),
            Ok(before) => match dimension(axis, paths[n - 1], printed[n - 1]) {
                Err(why) => Err(why),
                Ok(size) => match before {
                    Some(m) => if m >= size {
                        Ok(Some(m))
                    } else {
                        Ok(Some(size))
                    },
                    None => Ok(Some(size)),
                },
            },
        }
    }
}

/// The size of an image along the canvas dimension.
pub fn image_dimension(axis: Axis, path: &str, printed: &Option<String>) -> (r: Result<u32, String>)
    ensures
        match r {
            Ok(n) => dimension(axis, path@, printed.deep_view()) == Ok::<nat, Seq<char>>(n as nat),
            Err(why) => dimension(axis, path@, printed.deep_view()) == Err::<nat, Seq<char>>(why@),
        },
{
    match printed {
        None => {
            let mut why: String = axis.command().to_owned();
            why.append(": could not measure ");
            why.append(path);
            Err(why)
        },
        Some(text) => {
            let cs: Vec<char> = chars_of(text.as_str());
            match parse_number(trimmed(cs.as_slice()), u32::MAX as u64) {
                Some(n) => Ok(n as u32),
                None => {
                    let mut why: String = axis.command().to_owned();
                    why.append(": unexpected ffprobe size ");
                    why.append(quoted(text.as_str()).as_str());
                    why.append(" for ");
                    why.append(path);
                    Err(why)
                },
            }
        },
    }
}

proof fn lemma_first_failure(
    axis: Axis,
    paths: Seq<Seq<char>>,
    printed: Seq<Option<Seq<char>>>,
    n: nat,
    m: nat,
)
    requires
        n <= m,
    ensures
        largest(axis, paths, printed, n) is Err ==> largest(axis, paths, printed, m) == largest(
            axis,
            paths,
            printed,
            n,
        ),
    decreases m,
{
    if n < m {
        lemma_first_failure(axis, paths, printed, n, (m - 1) as nat);
    }
}

/// The largest canvas dimension among the inputs, which is that of the canvas; nothing where
/// there are no inputs.
pub fn max_dimension(axis: Axis, inputs: &Vec<String>, printed: &Vec<Option<String>>) -> (r: Result<
    Option<u32>,
    String,
>)
    requires
        printed@.len() == inputs@.len(),
    ensures
        match r {
            Ok(Some(n)) => largest(
                axis,
                inputs.deep_view(),
                printed.deep_view(),
                inputs@.len(),
            ) == Ok::<Option<nat>, Seq<char>>(Some(n as nat)),
            Ok(None) => largest(
                axis,
                inputs.deep_view(),
                printed.deep_view(),
                inputs@.len(),
            ) == Ok::<Option<nat>, Seq<char>>(None),
            Err(why) => largest(
                axis,
                inputs.deep_view(),
                printed.deep_view(),
                inputs@.len(),
            ) == Err::<Option<nat>, Seq<char>>(why@),
        },
{
    let mut best: Option<u32> = None;
    let mut i: usize = 0;
    while i < inputs.len()
        invariant
            i <= inputs.len(),
            printed@.len() == inputs@.len(),
            largest(axis, inputs.deep_view(), printed.deep_view(), i as nat) == Ok::<
                Option<nat>,
                Seq<char>,
            >(
                match best {
                    Some(n) => Some(n as nat),
                    None => None,
                },
            ),
        decreases inputs.len() - i,
    {
        assert(inputs.deep_view()[i as int] == inputs@[i as int]@);
        assert(printed.deep_view()[i as int] == printed@[i as int].deep_view());
        proof {
            lemma_first_failure(
                axis,
                inputs.deep_view(),
                printed.deep_view(),
                (i + 1) as nat,
                inputs@.len(),
            );
        }
        match image_dimension(axis, inputs[i].as_str(), &printed[i]) {
            Err(why) => return Err(why),
            Ok(size) => {
                best = match best {
                    Some(m) => if m >= size {
                        Some(m)
                    } else {
                        Some(size)
                    },
                    None => Some(size),
                };
            },
        }
        i += 1;
    }
    Ok(best)
}

/// The canvas is as large as the largest image, and every image fits it.
pub proof fn law_the_canvas_holds_every_image(
    axis: Axis,
    paths: Seq<Seq<char>>,
    printed: Seq<Option<Seq<char>>>,
    n: nat,
)
    requires
        n <= paths.len(),
        printed.len() == paths.len(),
    ensures
        largest(axis, paths, printed, n) matches Ok(canvas) ==> {
            &&& canvas is None <==> n == 0
            &&& forall|i: int|
                0 <= i < n ==> (#[trigger] dimension(axis, paths[i], printed[i]) matches Ok(size)
                    && size <= canvas->0)
            &&& n > 0 ==> exists|i: int|
                0 <= i < n && #[trigger] dimension(axis, paths[i], printed[i]) == Ok::<
                    nat,
                    Seq<char>,
                >(canvas->0)
        },
    decreases n,
{
    if n > 0 {
        law_the_canvas_holds_every_image(axis, paths, printed, (n - 1) as nat);
        if largest(axis, paths, printed, n) is Ok {
            let canvas = largest(axis, paths, printed, n)->Ok_0;
            let before = largest(axis, paths, printed, (n - 1) as nat)->Ok_0;
            let size = dimension(axis, paths[n - 1], printed[n - 1])->Ok_0;
            assert(dimension(axis, paths[n - 1], printed[n - 1]) == Ok::<nat, Seq<char>>(size));
            if before is Some && before->0 >= size {
                let i = choose|i: int|
                    0 <= i < n - 1 && #[trigger] dimension(axis, paths[i], printed[i]) == Ok::<
                        nat,
                        Seq<char>,
                    >(before->0);
                assert(dimension(axis, paths[i], printed[i]) == Ok::<nat, Seq<char>>(canvas->0));
            }
        }
    }
}

/// The arguments of the probe for one image.
pub fn probe_argv(axis: Axis, path: &str) -> (r: Vec<String>)
    ensures
        r.deep_view() == seq![
            "-v"@,
            "error"@,
            "-select_streams"@,
            "v:0"@,
            "-show_entries"@,
            axis.entry(),
            "-of"@,
            "csv=p=0"@,
            path@,
        ],
{
    let mut argv: Vec<String> = Vec::new();
    push_words(
        &mut argv,
        vec![
            "-v",
            "error",
            "-select_streams",
            "v:0",
            "-show_entries",
            axis.probe_entry(),
            "-of",
            "csv=p=0",
        ],
    );
    push_text(&mut argv, path);
    assert(argv.deep_view() =~= seq![
        "-v"@,
        "error"@,
        "-select_streams"@,
        "v:0"@,
        "-show_entries"@,
        axis.entry(),
        "-of"@,
        "csv=p=0"@,
        path@,
    ]);
    argv
}

// --- the merge ------------------------------------------------------------------------------

/// The padding of the first `n` images.
pub open spec fn padded_inputs(pad: Seq<char>, n: nat) -> Seq<char>
    decreases n,
{
    if n == 0 {
        seq![]
    } else {
        padded_inputs(pad, (n - 1) as nat) + ("["@ + decimal((n - 1) as nat) + ":v]format=rgba,"@
            + pad + ":color=black@0[p"@ + decimal((n - 1) as nat) + "];"@)
    }
}

/// Every image is padded, in order, under its own number.
pub proof fn law_every_image_is_padded(pad: Seq<char>, n: nat)
    ensures
        padded_inputs(pad, n) == Seq::new(
            n,
            |i: int|
                "["@ + decimal(i as nat) + ":v]format=rgba,"@ + pad + ":color=black@0[p"@ + decimal(i as nat)
                    + "];"@,
        ).flatten(),
    decreases n,
{
    if n > 0 {
        law_every_image_is_padded(pad, (n - 1) as nat);
        lemma_parts_last(
            |i: int|
                "["@ + decimal(i as nat) + ":v]format=rgba,"@ + pad + ":color=black@0[p"@ + decimal(i as nat)
                    + "];"@,
            n,
        );
    }
}

/// The labels of the first `n` padded images.
pub open spec fn padded_refs(n: nat) -> Seq<char>
    decreases n,
{
    if n == 0 {
        seq![]
    } else {
        padded_refs((n - 1) as nat) + ("[p"@ + decimal((n - 1) as nat) + "]"@)
    }
}

/// Every padded image is stacked, in order.
pub proof fn law_every_padded_image_is_stacked(n: nat)
    ensures
        padded_refs(n) == Seq::new(
            n,
            |i: int| "[p"@ + decimal(i as nat) + "]"@,
        ).flatten(),
    decreases n,
{
    if n > 0 {
        law_every_padded_image_is_stacked((n - 1) as nat);
        lemma_parts_last(
            |i: int| "[p"@ + decimal(i as nat) + "]"@,
            n,
        );
    }
}

/// The filter graph of a merge: every image in one pixel format and padded to the canvas, then
/// all stacked.
pub open spec fn filter_text(axis: Axis, count: nat, canvas: nat, offset: Seq<char>) -> Seq<char> {
    padded_inputs(axis.padding(canvas, offset), count) + padded_refs(count) + axis.stacking()
        + "=inputs="@ + decimal(count)
}

/// Every image is padded to the canvas and stacked, and as many are stacked as there are.
pub proof fn law_the_whole_merge_is_written(axis: Axis, count: nat, canvas: nat, offset: Seq<char>)
    ensures
        filter_text(axis, count, canvas, offset) == Seq::new(
            count,
            |i: int|
                "["@ + decimal(i as nat) + ":v]format=rgba,"@ + axis.padding(canvas, offset)
                    + ":color=black@0[p"@ + decimal(i as nat) + "];"@,
        ).flatten() + Seq::new(count, |i: int| "[p"@ + decimal(i as nat) + "]"@).flatten()
            + axis.stacking() + "=inputs="@ + decimal(count),
{
    law_every_image_is_padded(axis.padding(canvas, offset), count);
    law_every_padded_image_is_stacked(count);
}

/// The filter graph of a merge.
pub fn merge_filter(axis: Axis, count: usize, canvas: u32, offset: &str) -> (r: String)
    ensures
        r@ == filter_text(axis, count as nat, canvas as nat, offset@),
{
    let pad: String = axis.pad(canvas, offset);
    let mut out: String = String::new();
    let mut i: usize = 0;
    while i < count
        invariant
            i <= count,
            out@ == padded_inputs(pad@, i as nat),
        decreases count - i,
    {
        let mut one: String = "[".to_owned();
        push_decimal(&mut one, i as u128);
        one.append(":v]format=rgba,");
        one.append(pad.as_str());
        one.append(":color=black@0[p");
        push_decimal(&mut one, i as u128);
        one.append("];");
        out.append(one.as_str());
        i += 1;
    }
    let mut refs: String = String::new();
    let mut k: usize = 0;
    while k < count
        invariant
            k <= count,
            refs@ == padded_refs(k as nat),
        decreases count - k,
    {
        let mut one: String = "[p".to_owned();
        push_decimal(&mut one, k as u128);
        one.append("]");
        refs.append(one.as_str());
        k += 1;
    }
    out.append(refs.as_str());
    out.append(axis.stack());
    out.append("=inputs=");
    push_decimal(&mut out, count as u128);
    out
}

/// The stems of the first `n` files, each behind an underscore.
pub open spec fn stems(paths: Seq<Seq<char>>, n: nat) -> Seq<char>
    decreases n,
{
    if n == 0 {
        seq![]
    } else {
        stems(paths, (n - 1) as nat) + ("_"@ + match file_stem(paths[n - 1]) {
            Some(stem) => stem,
            None => seq![],
        })
    }
}

/// The stem of every image is in the name of the result, in order.
pub proof fn law_every_image_names_the_result(paths: Seq<Seq<char>>, n: nat)
    requires
        n <= paths.len(),
    ensures
        stems(paths, n) == paths.take(n as int).flat_map(
            |path: Seq<char>|
                "_"@ + match file_stem(path) {
                    Some(stem) => stem,
                    None => seq![],
                },
        ),
    decreases n,
{
    if n > 0 {
        law_every_image_names_the_result(paths, (n - 1) as nat);
        lemma_flat_map_last(
            paths,
            |path: Seq<char>|
                "_"@ + match file_stem(path) {
                    Some(stem) => stem,
                    None => seq![],
                },
            n,
        );
    }
}

/// The default name of the output: the direction, then the stems of the inputs.
pub open spec fn merged_name(axis: Axis, paths: Seq<Seq<char>>) -> Seq<char> {
    axis.stem() + stems(paths, paths.len()) + ".png"@
}

/// The default name of the output: `a.png` beside `b.jpg` gives `hmerged_a_b.png`.
pub fn default_merge_output(axis: Axis, inputs: &Vec<String>) -> (r: String)
    ensures
        r@ == merged_name(axis, inputs.deep_view()),
{
    let mut list: String = String::new();
    let mut i: usize = 0;
    while i < inputs.len()
        invariant
            i <= inputs.len(),
            list@ == stems(inputs.deep_view(), i as nat),
        decreases inputs.len() - i,
    {
        assert(inputs.deep_view()[i as int] == inputs@[i as int]@);
        let mut one: String = "_".to_owned();
        let stem: String = match file_stem_of(inputs[i].as_str()) {
            Some(stem) => stem,
            None => String::new(),
        };
        one.append(stem.as_str());
        list.append(one.as_str());
        i += 1;
    }
    assert(inputs.deep_view().len() == inputs@.len());
    let mut out: String = axis.merged_stem().to_owned();
    out.append(list.as_str());
    out.append(".png");
    out
}

/// The input flags of the first `n` images.
pub open spec fn input_flags(paths: Seq<Seq<char>>, n: nat) -> Seq<Seq<char>>
    decreases n,
{
    if n == 0 {
        seq![]
    } else {
        input_flags(paths, (n - 1) as nat) + seq!["-i"@, paths[n - 1]]
    }
}

/// Every image is an input, in order.
pub proof fn law_every_image_is_an_input(paths: Seq<Seq<char>>, n: nat)
    requires
        n <= paths.len(),
    ensures
        input_flags(paths, n) == paths.take(n as int).flat_map(
            |path: Seq<char>| seq!["-i"@, path],
        ),
    decreases n,
{
    if n > 0 {
        law_every_image_is_an_input(paths, (n - 1) as nat);
        lemma_flat_map_last(
            paths,
            |path: Seq<char>| seq!["-i"@, path],
            n,
        );
    }
}

/// The arguments of a merge.
pub open spec fn merging_argv(
    axis: Axis,
    paths: Seq<Seq<char>>,
    output: Seq<char>,
    overwrite: bool,
    offset: Seq<char>,
    canvas: nat,
) -> Seq<Seq<char>> {
    (if overwrite {
        seq!["-y"@]
    } else {
        seq![]
    }) + input_flags(paths, paths.len()) + seq![
        "-filter_complex"@,
        filter_text(axis, paths.len(), canvas, offset),
        "-update"@,
        "1"@,
        output,
    ]
}

/// A merge reads every image, in order, and writes its output last; it replaces what is there only
/// where that is asked for.
pub proof fn law_what_a_merge_is_told(
    axis: Axis,
    paths: Seq<Seq<char>>,
    output: Seq<char>,
    overwrite: bool,
    offset: Seq<char>,
    canvas: nat,
)
    ensures
        merging_argv(axis, paths, output, overwrite, offset, canvas) == (if overwrite {
            seq!["-y"@]
        } else {
            seq![]
        }) + paths.flat_map(|path: Seq<char>| seq!["-i"@, path]) + seq![
            "-filter_complex"@,
            filter_text(axis, paths.len(), canvas, offset),
            "-update"@,
            "1"@,
            output,
        ],
        merged_name(axis, paths) == axis.stem() + paths.flat_map(
            |path: Seq<char>|
                "_"@ + match file_stem(path) {
                    Some(stem) => stem,
                    None => seq![],
                },
        ) + ".png"@,
{
    law_every_image_is_an_input(paths, paths.len());
    law_every_image_names_the_result(paths, paths.len());
    assert(paths.take(paths.len() as int) =~= paths);
}

/// The arguments of a merge. The output is a single image and not a sequence.
pub fn merge_argv(
    axis: Axis,
    inputs: &Vec<String>,
    output: &str,
    overwrite: bool,
    offset: &str,
    canvas: u32,
) -> (r: Vec<String>)
    ensures
        r.deep_view() == merging_argv(
            axis,
            inputs.deep_view(),
            output@,
            overwrite,
            offset@,
            canvas as nat,
        ),
{
    let mut argv: Vec<String> = Vec::new();
    assert(argv.deep_view() =~= seq![]);
    if overwrite {
        push_text(&mut argv, "-y");
    }
    let ghost head = argv.deep_view();
    assert(head =~= if overwrite {
        seq!["-y"@]
    } else {
        seq![]
    });
    let mut i: usize = 0;
    assert(argv.deep_view() =~= head + input_flags(inputs.deep_view(), 0));
    while i < inputs.len()
        invariant
            i <= inputs.len(),
            argv.deep_view() == head + input_flags(inputs.deep_view(), i as nat),
        decreases inputs.len() - i,
    {
        assert(inputs.deep_view()[i as int] == inputs@[i as int]@);
        push_text(&mut argv, "-i");
        push_text(&mut argv, inputs[i].as_str());
        i += 1;
        assert(argv.deep_view() =~= head + input_flags(inputs.deep_view(), i as nat));
    }
    assert(inputs.deep_view().len() == inputs@.len());
    push_text(&mut argv, "-filter_complex");
    push_text(&mut argv, merge_filter(axis, inputs.len(), canvas, offset).as_str());
    push_text(&mut argv, "-update");
    push_text(&mut argv, "1");
    push_text(&mut argv, output);
    assert(argv.deep_view() =~= merging_argv(
        axis,
        inputs.deep_view(),
        output@,
        overwrite,
        offset@,
        canvas as nat,
    ));
    argv
}

/// Whether `r` is the run of a merge, or what is said where an image could not be measured.
pub open spec fn is_merge(
    r: Result<Run, Option<String>>,
    axis: Axis,
    offset: Seq<char>,
    output: Option<Seq<char>>,
    overwrite: bool,
    inputs: Seq<Seq<char>>,
    printed: Seq<Option<Seq<char>>>,
) -> bool {
    match largest(axis, inputs, printed, inputs.len()) {
        Ok(Some(canvas)) => {
            let path = match output {
                Some(path) => path,
                None => merged_name(axis, inputs),
            };
            r matches Ok(run) && run.output@ == path && run.argv.deep_view() == merging_argv(
                axis,
                inputs,
                path,
                overwrite,
                offset,
                canvas,
            )
        },
        Ok(None) => r matches Err(None),
        Err(why) => r matches Err(Some(said)) && said@ == why,
    }
}

/// The merge that both directions share. The canvas dimension is the one fact that the filter
/// graph cannot derive, so it is measured before: `printed` is what the probe said of each input.
pub fn merge_imgs(
    axis: Axis,
    offset: &str,
    output: &Option<String>,
    overwrite: bool,
    inputs: &Vec<String>,
    printed: &Vec<Option<String>>,
) -> (r: Result<Run, Option<String>>)
    requires
        printed@.len() == inputs@.len(),
    ensures
        is_merge(
            r,
            axis,
            offset@,
            output.deep_view(),
            overwrite,
            inputs.deep_view(),
            printed.deep_view(),
        ),
{
    assert(inputs.deep_view().len() == inputs@.len());
    match max_dimension(axis, inputs, printed) {
        Err(why) => Err(Some(why)),
        Ok(None) => Err(None),
        Ok(Some(canvas)) => {
            let path: String = match output {
                Some(path) => path.clone(),
                None => default_merge_output(axis, inputs),
            };
            let argv: Vec<String> = merge_argv(
                axis,
                inputs,
                path.as_str(),
                overwrite,
                offset,
                canvas,
            );
            Ok(Run { argv, output: path })
        },
    }
}

/// Merge images side by side onto one canvas, as tall as the tallest input.
pub fn hmerge_imgs(args: &HmergeImgsArgs, printed: &Vec<Option<String>>) -> (r: Result<
    Run,
    Option<String>,
>)
    requires
        printed@.len() == args.inputs@.len(),
    ensures
        is_merge(
            r,
            Axis::Horizontal,
            args.align.offset(),
            args.output.deep_view(),
            args.overwrite,
            args.inputs.deep_view(),
            printed.deep_view(),
        ),
{
    merge_imgs(
        Axis::Horizontal,
        args.align.offset_expr(),
        &args.output,
        args.overwrite,
        &args.inputs,
        printed,
    )
}

/// Merge images top to bottom onto one canvas, as wide as the widest input.
pub fn vmerge_imgs(args: &VmergeImgsArgs, printed: &Vec<Option<String>>) -> (r: Result<
    Run,
    Option<String>,
>)
    requires
        printed@.len() == args.inputs@.len(),
    ensures
        is_merge(
            r,
            Axis::Vertical,
            args.align.offset(),
            args.output.deep_view(),
            args.overwrite,
            args.inputs.deep_view(),
            printed.deep_view(),
        ),
{
    merge_imgs(
        Axis::Vertical,
        args.align.offset_expr(),
        &args.output,
        args.overwrite,
        &args.inputs,
        printed,
    )
}

} // verus!
