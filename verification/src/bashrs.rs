//! Commands for managing bashrs itself.

use vstd::prelude::*;
use vstd::string::*;
use crate::paths::{beneath, put_beneath};
use crate::sequences::lemma_parts_last;
use crate::text::{chars_of, finishes_with, same_text, string_of, trim, trimmed};

verus! {

/// What is forwarded to the script that compiles.
pub struct CompileArgs {
    pub args: Vec<String>,
}

/// The arguments of `configure`.
pub struct ConfigureArgs {
    /// Open the file in an editor instead of the form.
    pub editor: bool,
}

// --- scripts --------------------------------------------------------------------------------

/// Where a script of the project is, or why it cannot be run.
pub open spec fn script_at(project: Seq<char>, script: Seq<char>, is_dir: bool, is_file: bool) -> Result<
    Seq<char>,
    Seq<char>,
> {
    let path = beneath(project, script);
    if !is_dir {
        Err(
            "project directory not found: "@ + project
                + " — moved or removed since the last compile"@,
        )
    } else if !is_file {
        Err(script + " not found: "@ + path + " — renamed or removed"@)
    } else {
        Ok(path)
    }
}

/// Where a script of the project is, or why it cannot be run. `is_dir` is whether the project's
/// directory is there, and `is_file` whether the script is.
pub fn locate_script(project: &str, script: &str, is_dir: bool, is_file: bool) -> (r: Result<
    String,
    String,
>)
    ensures
        match r {
            Ok(path) => script_at(project@, script@, is_dir, is_file) == Ok::<Seq<char>, Seq<char>>(
                path@,
            ),
            Err(why) => script_at(project@, script@, is_dir, is_file) == Err::<
                Seq<char>,
                Seq<char>,
            >(why@),
        },
{
    if !is_dir {
        let mut why: String = "project directory not found: ".to_owned();
        why.append(project);
        why.append(" — moved or removed since the last compile");
        return Err(why);
    }
    let dir: Vec<char> = chars_of(project);
    let path: String = put_beneath(dir.as_slice(), script);
    if !is_file {
        let mut why: String = script.to_owned();
        why.append(" not found: ");
        why.append(path.as_str());
        why.append(" — renamed or removed");
        return Err(why);
    }
    Ok(path)
}

/// How a script ended.
pub enum Ended {
    /// It succeeded.
    Well,
    /// It failed: its code, where it has one, and its status as it is shown.
    Badly(Option<i32>, String),
    /// It could not be started, and why.
    Never(String),
    /// It was not found, and what is said of that.
    Missing(String),
}

/// What follows a script: the exit code, and what is said.
pub struct Verdict {
    pub code: i32,
    pub says: Option<String>,
}

/// What follows compiling: every failure has a code that keeps the shell from restarting, which it
/// does only on `reload`.
pub fn compile(ended: &Ended, reload: i32) -> (r: Verdict)
    ensures
        match *ended {
            Ended::Well => r.code == reload && r.says is None,
            Ended::Badly(_, status) => r.code == 1 && r.says.deep_view() == Some(
                "bashrs_compile: COMPILE.sh exited with status: "@ + status@,
            ),
            Ended::Never(why) => r.code == 1 && r.says.deep_view() == Some(
                "bashrs_compile: could not launch COMPILE.sh: "@ + why@,
            ),
            Ended::Missing(why) => r.code == 1 && r.says.deep_view() == Some(
                "bashrs_compile: "@ + why@,
            ),
        },
{
    match ended {
        Ended::Well => Verdict { code: reload, says: None },
        Ended::Badly(_, status) => {
            let mut text: String = "bashrs_compile: COMPILE.sh exited with status: ".to_owned();
            text.append(status.as_str());
            Verdict { code: 1, says: Some(text) }
        },
        Ended::Never(why) => {
            let mut text: String = "bashrs_compile: could not launch COMPILE.sh: ".to_owned();
            text.append(why.as_str());
            Verdict { code: 1, says: Some(text) }
        },
        Ended::Missing(why) => {
            let mut text: String = "bashrs_compile: ".to_owned();
            text.append(why.as_str());
            Verdict { code: 1, says: Some(text) }
        },
    }
}

/// What follows the tests: the script has named what failed, so its verdict is passed on.
pub fn test(ended: &Ended) -> (r: Verdict)
    ensures
        match *ended {
            Ended::Well => r.code == 0 && r.says is None,
            Ended::Badly(code, _) => r.code == (match code {
                Some(c) => c,
                None => 1,
            }) && r.says is None,
            Ended::Never(why) => r.code == 1 && r.says.deep_view() == Some(
                "bashrs_test: could not launch TEST.sh: "@ + why@,
            ),
            Ended::Missing(why) => r.code == 1 && r.says.deep_view() == Some(
                "bashrs_test: "@ + why@,
            ),
        },
{
    match ended {
        Ended::Well => Verdict { code: 0, says: None },
        Ended::Badly(code, _) => {
            let code: i32 = match code {
                Some(c) => *c,
                None => 1,
            };
            Verdict { code, says: None }
        },
        Ended::Never(why) => {
            let mut text: String = "bashrs_test: could not launch TEST.sh: ".to_owned();
            text.append(why.as_str());
            Verdict { code: 1, says: Some(text) }
        },
        Ended::Missing(why) => {
            let mut text: String = "bashrs_test: ".to_owned();
            text.append(why.as_str());
            Verdict { code: 1, says: Some(text) }
        },
    }
}

// --- configuration --------------------------------------------------------------------------

/// A setting that is on or off: its section, its key, and the lines that explain it.
pub struct Setting {
    pub section: String,
    pub key: String,
    pub enabled: bool,
    pub docs: Vec<String>,
}

/// An item of the form.
pub enum SettingItem {
    Comment(String),
    /// A box, and whether it is ticked.
    Checkbox(String, bool),
}

/// An item of the form.
pub enum SettingItemView {
    Comment(Seq<char>),
    Checkbox(Seq<char>, bool),
}

impl View for SettingItem {
    type V = SettingItemView;

    open spec fn view(&self) -> SettingItemView {
        match self {
            SettingItem::Comment(text) => SettingItemView::Comment(text@),
            SettingItem::Checkbox(key, on) => SettingItemView::Checkbox(key@, *on),
        }
    }
}

impl DeepView for SettingItem {
    type V = SettingItemView;

    open spec fn deep_view(&self) -> SettingItemView {
        self@
    }
}

/// The form of the settings.
pub struct SettingsForm {
    pub title: String,
    /// Whether the comments line up with the boxes that they explain.
    pub aligned: bool,
    pub items: Vec<SettingItem>,
}

/// The section shown last behind the first `n` settings.
pub open spec fn shown_section(settings: Seq<Setting>, n: nat) -> Seq<char> {
    if n == 0 {
        seq![]
    } else {
        settings[n - 1].section@
    }
}

/// The comments of a setting.
pub open spec fn doc_items(docs: Seq<Seq<char>>) -> Seq<SettingItemView> {
    docs.map_values(|line: Seq<char>| SettingItemView::Comment(line))
}

/// The items of the first `n` settings: each section announced once, and each setting's own lines
/// above its box.
pub open spec fn setting_items(settings: Seq<Setting>, n: nat) -> Seq<SettingItemView>
    decreases n,
{
    if n == 0 {
        seq![]
    } else {
        let s = settings[n - 1];
        setting_items(settings, (n - 1) as nat) + (if s.section@ != shown_section(
            settings,
            (n - 1) as nat,
        ) {
            seq![SettingItemView::Comment("["@ + s.section@ + "]"@)]
        } else {
            seq![]
        }) + doc_items(s.docs.deep_view()) + seq![SettingItemView::Checkbox(s.key@, s.enabled)]
    }
}

/// Every setting is shown, in order: its section where that is not the one before, its own lines,
/// and its box.
pub proof fn law_every_setting_is_shown(settings: Seq<Setting>, n: nat)
    requires
        n <= settings.len(),
    ensures
        setting_items(settings, n) == Seq::new(
            n,
            |i: int|
                (if settings[i].section@ != (if i == 0 {
                    Seq::<char>::empty()
                } else {
                    settings[i - 1].section@
                }) {
                    seq![SettingItemView::Comment("["@ + settings[i].section@ + "]"@)]
                } else {
                    seq![]
                }) + settings[i].docs.deep_view().map_values(
                    |line: Seq<char>| SettingItemView::Comment(line),
                ) + seq![SettingItemView::Checkbox(settings[i].key@, settings[i].enabled)],
        ).flatten(),
    decreases n,
{
    if n > 0 {
        law_every_setting_is_shown(settings, (n - 1) as nat);
        lemma_parts_last(
            |i: int|
                (if settings[i].section@ != (if i == 0 {
                    Seq::<char>::empty()
                } else {
                    settings[i - 1].section@
                }) {
                    seq![SettingItemView::Comment("["@ + settings[i].section@ + "]"@)]
                } else {
                    seq![]
                }) + settings[i].docs.deep_view().map_values(
                    |line: Seq<char>| SettingItemView::Comment(line),
                ) + seq![SettingItemView::Checkbox(settings[i].key@, settings[i].enabled)],
            n,
        );
        let s = settings[n - 1];
        let before = setting_items(settings, (n - 1) as nat);
        let own = if s.section@ != shown_section(settings, (n - 1) as nat) {
            seq![SettingItemView::Comment("["@ + s.section@ + "]"@)]
        } else {
            seq![]
        };
        let docs = s.docs.deep_view().map_values(|line: Seq<char>| SettingItemView::Comment(line));
        let tick = seq![SettingItemView::Checkbox(s.key@, s.enabled)];
        assert(before + own + docs + tick =~= before + (own + docs + tick));
    }
}

/// The items of one setting.
fn items_of(s: &Setting, shown: &str) -> (r: Vec<SettingItem>)
    ensures
        r.deep_view() == (if s.section@ != shown@ {
            seq![SettingItemView::Comment("["@ + s.section@ + "]"@)]
        } else {
            seq![]
        }) + doc_items(s.docs.deep_view()) + seq![SettingItemView::Checkbox(s.key@, s.enabled)],
{
    let mut out: Vec<SettingItem> = Vec::new();
    assert(out.deep_view() =~= seq![]);
    if !same_text(s.section.as_str(), shown) {
        let mut text: String = "[".to_owned();
        text.append(s.section.as_str());
        text.append("]");
        out.push(SettingItem::Comment(text));
    }
    let ghost head = out.deep_view();
    assert(head =~= if s.section@ != shown@ {
        seq![SettingItemView::Comment("["@ + s.section@ + "]"@)]
    } else {
        seq![]
    });
    let ghost docs = doc_items(s.docs.deep_view());
    let mut i: usize = 0;
    assert(out.deep_view() =~= head + docs.take(0));
    while i < s.docs.len()
        invariant
            i <= s.docs.len(),
            docs == doc_items(s.docs.deep_view()),
            out.deep_view() == head + docs.take(i as int),
        decreases s.docs.len() - i,
    {
        assert(s.docs.deep_view()[i as int] == s.docs@[i as int]@);
        let ghost before = out.deep_view();
        out.push(SettingItem::Comment(s.docs[i].clone()));
        assert(out.deep_view() =~= before.push(docs[i as int]));
        i += 1;
        assert(out.deep_view() =~= head + docs.take(i as int));
    }
    assert(docs.take(i as int) =~= docs);
    let ghost before = out.deep_view();
    out.push(SettingItem::Checkbox(s.key.clone(), s.enabled));
    assert(out.deep_view() =~= before + seq![SettingItemView::Checkbox(s.key@, s.enabled)]);
    out
}

/// The settings as a form.
pub fn settings_form(settings: &Vec<Setting>, path: &str) -> (r: SettingsForm)
    ensures
        r.title@ == "bashrs configuration — "@ + path@,
        r.aligned,
        r.items.deep_view() == setting_items(settings@, settings@.len()),
{
    let mut title: String = "bashrs configuration — ".to_owned();
    title.append(path);
    let mut items: Vec<SettingItem> = Vec::new();
    assert(items.deep_view() =~= seq![]);
    let mut shown: String = String::new();
    let mut i: usize = 0;
    while i < settings.len()
        invariant
            i <= settings.len(),
            shown@ == shown_section(settings@, i as nat),
            items.deep_view() == setting_items(settings@, i as nat),
        decreases settings.len() - i,
    {
        let ghost before = items.deep_view();
        let mut more: Vec<SettingItem> = items_of(&settings[i], shown.as_str());
        let ghost added = more.deep_view();
        items.append(&mut more);
        assert(items.deep_view() =~= before + added);
        shown = settings[i].section.clone();
        i += 1;
        assert(items.deep_view() =~= setting_items(settings@, i as nat));
    }
    SettingsForm { title, aligned: true, items }
}

/// The boxes among the first `n` items, in order.
pub open spec fn boxes(items: Seq<SettingItemView>, n: nat) -> Seq<bool>
    decreases n,
{
    if n == 0 {
        seq![]
    } else {
        match items[n - 1] {
            SettingItemView::Checkbox(_, on) => boxes(items, (n - 1) as nat).push(on),
            SettingItemView::Comment(_) => boxes(items, (n - 1) as nat),
        }
    }
}

proof fn lemma_boxes_concat(a: Seq<SettingItemView>, b: Seq<SettingItemView>, n: nat)
    requires
        n <= b.len(),
    ensures
        boxes(a + b, a.len() + n) == boxes(a, a.len()) + boxes(b, n),
    decreases n,
{
    if n == 0 {
        lemma_boxes_prefix(a + b, a, a.len());
        assert(boxes(a, a.len()) + boxes(b, 0) =~= boxes(a, a.len()));
    } else {
        lemma_boxes_concat(a, b, (n - 1) as nat);
        assert((a + b)[a.len() + n - 1] == b[n - 1]);
        assert(boxes(a + b, a.len() + n) =~= boxes(a, a.len()) + boxes(b, n));
    }
}

proof fn lemma_boxes_prefix(a: Seq<SettingItemView>, b: Seq<SettingItemView>, n: nat)
    requires
        n <= a.len(),
        n <= b.len(),
        forall|i: int| 0 <= i < n ==> a[i] == b[i],
    ensures
        boxes(a, n) == boxes(b, n),
    decreases n,
{
    if n > 0 {
        lemma_boxes_prefix(a, b, (n - 1) as nat);
    }
}

proof fn lemma_no_boxes(items: Seq<SettingItemView>, n: nat)
    requires
        n <= items.len(),
        forall|i: int| 0 <= i < n ==> #[trigger] items[i] is Comment,
    ensures
        boxes(items, n) == Seq::<bool>::empty(),
    decreases n,
{
    if n > 0 {
        lemma_no_boxes(items, (n - 1) as nat);
        assert(items[n - 1] is Comment);
    }
}

/// The form mirrors the settings: it has one box for each, in order, ticked as the file has it.
pub proof fn law_the_form_mirrors_the_settings(settings: Seq<Setting>, n: nat)
    requires
        n <= settings.len(),
    ensures
        boxes(setting_items(settings, n), setting_items(settings, n).len()) == settings.take(
            n as int,
        ).map_values(|s: Setting| s.enabled),
    decreases n,
{
    let enabled = |s: Setting| s.enabled;
    if n == 0 {
        assert(settings.take(0).map_values(enabled) =~= seq![]);
    } else {
        law_the_form_mirrors_the_settings(settings, (n - 1) as nat);
        let s = settings[n - 1];
        let before = setting_items(settings, (n - 1) as nat);
        let head = if s.section@ != shown_section(settings, (n - 1) as nat) {
            seq![SettingItemView::Comment("["@ + s.section@ + "]"@)]
        } else {
            seq![]
        };
        let comments = head + doc_items(s.docs.deep_view());
        let last = seq![SettingItemView::Checkbox(s.key@, s.enabled)];
        lemma_no_boxes(comments, comments.len());
        lemma_boxes_concat(before, comments, comments.len());
        lemma_boxes_concat(before + comments, last, 1);
        assert(boxes(last, 0) =~= seq![]);
        assert(boxes(last, 1) =~= seq![s.enabled]);
        assert(setting_items(settings, n) =~= before + comments + last);
        assert(boxes(setting_items(settings, n), setting_items(settings, n).len()) =~= boxes(
            before,
            before.len(),
        ).push(s.enabled));
        assert(settings.take(n as int).map_values(enabled) =~= settings.take(
            n - 1,
        ).map_values(enabled).push(s.enabled));
    }
}

/// The path of a setting: its section and its key.
pub open spec fn path_of(s: Setting) -> Seq<char> {
    if s.section@.len() == 0 {
        s.key@
    } else {
        s.section@ + "."@ + s.key@
    }
}

/// The path of a setting.
pub fn setting_path(s: &Setting) -> (r: String)
    ensures
        r@ == path_of(*s),
{
    if s.section.as_str().is_empty() {
        return s.key.clone();
    }
    let mut out: String = s.section.clone();
    out.append(".");
    out.append(s.key.as_str());
    out
}

/// Whether some setting of that path is not as `on` says.
pub open spec fn moves(settings: Seq<Setting>, path: Seq<char>, on: bool) -> bool {
    exists|i: int|
        0 <= i < settings.len() && path_of(#[trigger] settings[i]) == path && settings[i].enabled != on
}

/// The lines of the settings, among the first `n`, that the ticks change.
pub open spec fn changed_lines(settings: Seq<Setting>, ticked: Seq<bool>, n: nat) -> Seq<char>
    decreases n,
{
    if n == 0 {
        seq![]
    } else {
        let path = path_of(settings[n - 1]);
        changed_lines(settings, ticked, (n - 1) as nat) + (if moves(
            settings,
            path,
            ticked[n - 1],
        ) {
            path + " = "@ + (if ticked[n - 1] {
                "true"@
            } else {
                "false"@
            }) + "\n"@
        } else {
            seq![]
        })
    }
}

/// Every setting that the ticks change is reported, in order, with its new value, and no other.
pub proof fn law_every_change_is_reported(settings: Seq<Setting>, ticked: Seq<bool>, n: nat)
    requires
        n <= settings.len(),
    ensures
        changed_lines(settings, ticked, n) == Seq::new(
            n,
            |i: int|
                if moves(settings, path_of(settings[i]), ticked[i]) {
                    path_of(settings[i]) + " = "@ + (if ticked[i] {
                        "true"@
                    } else {
                        "false"@
                    }) + "\n"@
                } else {
                    seq![]
                },
        ).flatten(),
    decreases n,
{
    if n > 0 {
        law_every_change_is_reported(settings, ticked, (n - 1) as nat);
        lemma_parts_last(
            |i: int|
                if moves(settings, path_of(settings[i]), ticked[i]) {
                    path_of(settings[i]) + " = "@ + (if ticked[i] {
                        "true"@
                    } else {
                        "false"@
                    }) + "\n"@
                } else {
                    seq![]
                },
            n,
        );
    }
}

/// How many settings have both a line and a tick.
pub open spec fn paired(settings: Seq<Setting>, ticked: Seq<bool>) -> nat {
    if settings.len() <= ticked.len() {
        settings.len()
    } else {
        ticked.len()
    }
}

/// Whether some setting of that path is not as `on` says.
fn is_moved(settings: &Vec<Setting>, path: &str, on: bool) -> (r: bool)
    ensures
        r == moves(settings@, path@, on),
{
    let mut i: usize = 0;
    while i < settings.len()
        invariant
            i <= settings.len(),
            forall|j: int|
                0 <= j < i ==> !(path_of(#[trigger] settings@[j]) == path@ && settings@[j].enabled
                    != on),
        decreases settings.len() - i,
    {
        let own: String = setting_path(&settings[i]);
        if same_text(own.as_str(), path) && settings[i].enabled != on {
            return true;
        }
        i += 1;
    }
    false
}

/// What is said once the form was written back: each setting that moved, and where it was saved.
pub fn saved_text(settings: &Vec<Setting>, ticked: &Vec<bool>, path: &str) -> (r: String)
    ensures
        r@ == changed_lines(settings@, ticked@, paired(settings@, ticked@))
            + "bashrs_configure: saved to "@ + path@ + "\n"@,
{
    let mut out: String = String::new();
    let mut i: usize = 0;
    while i < settings.len() && i < ticked.len()
        invariant
            i <= settings.len(),
            i <= ticked.len(),
            out@ == changed_lines(settings@, ticked@, i as nat),
        decreases settings.len() - i,
    {
        let own: String = setting_path(&settings[i]);
        let ghost before = out@;
        if is_moved(settings, own.as_str(), ticked[i]) {
            let mut line: String = own;
            line.append(" = ");
            line.append(
                if ticked[i] {
                    "true"
                } else {
                    "false"
                },
            );
            line.append("\n");
            out.append(line.as_str());
        } else {
            assert(before + seq![] =~= before);
        }
        i += 1;
    }
    out.append("bashrs_configure: saved to ");
    out.append(path);
    out.append("\n");
    out
}

/// What becomes of a form that was submitted.
pub enum Saved {
    /// The file is left alone, and what is said.
    Unchanged(&'static str),
    /// The file is written, and what is said behind that.
    Changed(String),
}

/// Write back what the form holds: the file is left alone where the text with the new values,
/// `updated`, is what it holds already.
pub fn save(
    text: &str,
    updated: &str,
    settings: &Vec<Setting>,
    ticked: &Vec<bool>,
    path: &str,
) -> (r: Saved)
    ensures
        if updated@ == text@ {
            r matches Saved::Unchanged(said) && said@ == "bashrs_configure: unchanged"@
        } else {
            r matches Saved::Changed(said) && said@ == changed_lines(
                settings@,
                ticked@,
                paired(settings@, ticked@),
            ) + "bashrs_configure: saved to "@ + path@ + "\n"@
        },
{
    if same_text(updated, text) {
        return Saved::Unchanged("bashrs_configure: unchanged");
    }
    Saved::Changed(saved_text(settings, ticked, path))
}

/// Where nothing was ticked differently, nothing is reported as changed.
pub proof fn law_nothing_moves_where_nothing_was_ticked(settings: Seq<Setting>, ticked: Seq<bool>, n: nat)
    requires
        n <= settings.len(),
        n <= ticked.len(),
        forall|i: int| 0 <= i < ticked.len() && i < settings.len() ==> #[trigger] ticked[i] == settings[i].enabled,
        forall|i: int, j: int|
            0 <= i < settings.len() && 0 <= j < settings.len() && path_of(#[trigger] settings[i])
                == path_of(#[trigger] settings[j]) ==> i == j,
    ensures
        changed_lines(settings, ticked, n) == Seq::<char>::empty(),
    decreases n,
{
    if n > 0 {
        law_nothing_moves_where_nothing_was_ticked(settings, ticked, (n - 1) as nat);
        assert(ticked[n - 1] == settings[n - 1].enabled);
        assert(!moves(settings, path_of(settings[n - 1]), ticked[n - 1]));
        assert(changed_lines(settings, ticked, n) =~= seq![]);
    }
}

/// What `configure` does first.
pub enum ConfigureStart {
    /// Open the file in an editor, and what is said before.
    Editor(Option<String>),
    /// Show the form.
    Form,
}

/// What `configure` does first: where there is nothing to tick, the editor is the honest way.
pub fn configure(args: &ConfigureArgs, settings: &Vec<Setting>, path: &str) -> (r: ConfigureStart)
    ensures
        if args.editor {
            r matches ConfigureStart::Editor(said) && said is None
        } else if settings@.len() == 0 {
            r matches ConfigureStart::Editor(said) && said.deep_view() == Some(
                "bashrs_configure: no true/false settings in "@ + path@ + " — opening it instead"@,
            )
        } else {
            r is Form
        },
{
    if args.editor {
        return ConfigureStart::Editor(None);
    }
    if settings.len() == 0 {
        let mut text: String = "bashrs_configure: no true/false settings in ".to_owned();
        text.append(path);
        text.append(" — opening it instead");
        return ConfigureStart::Editor(Some(text));
    }
    ConfigureStart::Form
}

/// The program that opens a file: the user's editor where one is set, else the desktop's opener.
pub fn open_in_editor(editor: &Option<String>) -> (r: String)
    ensures
        r@ == (match *editor {
            Some(name) => if trim(name@).len() > 0 {
                trim(name@)
            } else {
                "xdg-open"@
            },
            None => "xdg-open"@,
        }),
{
    if let Some(name) = editor {
        let cs: Vec<char> = chars_of(name.as_str());
        let t: &[char] = trimmed(cs.as_slice());
        if t.len() > 0 {
            return string_of(t);
        }
    }
    "xdg-open".to_owned()
}

// --- the source file ------------------------------------------------------------------------

/// Where the generated source file is.
pub fn sourcefile_path(home: &str) -> (r: String)
    ensures
        r@ == beneath(home@, ".bashrs/sourcefile.sh"@),
{
    let dir: Vec<char> = chars_of(home);
    put_beneath(dir.as_slice(), ".bashrs/sourcefile.sh")
}

/// The source file as it is printed: a line break where its last line lacks one, a blank line, and
/// where the file is.
pub fn sourcefile(shown: &str, path: &str) -> (r: String)
    ensures
        r@ == shown@ + (if "\n"@.is_suffix_of(shown@) {
            ""@
        } else {
            "\n"@
        }) + "\n# source file: "@ + path@ + "\n"@,
{
    let cs: Vec<char> = chars_of(shown);
    let mut out: String = shown.to_owned();
    out.append(
        if finishes_with(cs.as_slice(), "\n") {
            ""
        } else {
            "\n"
        },
    );
    out.append("\n# source file: ");
    out.append(path);
    out.append("\n");
    out
}

} // verus!
