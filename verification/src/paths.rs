//! File paths as texts: components between slashes, file names, stems and extensions.

use vstd::prelude::*;
use vstd::slice::slice_subrange;
use vstd::string::*;
use crate::sequences::lemma_parts_last;
use crate::text::{
    ascii_lower, char_from, chars_of, lemma_char_from, same_text, split_chars, split_on, string_of,
    to_ascii_lower,
};

verus! {

/// Whether a piece between slashes names something: the empty piece and `.` do not.
pub open spec fn is_component(part: Seq<char>) -> bool {
    part.len() > 0 && part != "."@
}

/// The last of the first `n` pieces that names something.
pub open spec fn last_component(parts: Seq<Seq<char>>, n: nat) -> Option<Seq<char>>
    decreases n,
{
    if n == 0 {
        None
    } else if is_component(parts[n - 1]) {
        Some(parts[n - 1])
    } else {
        last_component(parts, (n - 1) as nat)
    }
}

/// The last piece that names something is found, and none only where no piece does.
pub proof fn law_the_last_name_is_found(parts: Seq<Seq<char>>, n: nat)
    requires
        n <= parts.len(),
    ensures
        match last_component(parts, n) {
            Some(name) => exists|i: int|
                0 <= i < n && #[trigger] parts[i] == name && is_component(name) && forall|j: int|
                    i < j < n ==> !is_component(#[trigger] parts[j]),
            None => forall|j: int| 0 <= j < n ==> !is_component(#[trigger] parts[j]),
        },
    decreases n,
{
    if n > 0 {
        law_the_last_name_is_found(parts, (n - 1) as nat);
        if is_component(parts[n - 1]) {
            assert(parts[n - 1] == last_component(parts, n)->0);
        } else if let Some(name) = last_component(parts, (n - 1) as nat) {
            let i = choose|i: int|
                0 <= i < n - 1 && #[trigger] parts[i] == name && is_component(name) && forall|j: int|
                    i < j < n - 1 ==> !is_component(#[trigger] parts[j]);
            assert(parts[i] == name);
        }
    }
}

/// The final component of `path`, unless there is none or it is `..`.
pub open spec fn file_name(path: Seq<char>) -> Option<Seq<char>> {
    let parts = split_on(path, '/');
    match last_component(parts, parts.len()) {
        Some(name) => if name == ".."@ {
            None
        } else {
            Some(name)
        },
        None => None,
    }
}

/// The last position below `n` that holds `c`, or -1.
pub open spec fn last_char(s: Seq<char>, c: char, n: int) -> int
    decreases n,
{
    if n <= 0 {
        -1
    } else if s[n - 1] == c {
        n - 1
    } else {
        last_char(s, c, n - 1)
    }
}

/// Where the dot before the extension stands in a file name; at 0 or below there is none.
pub open spec fn dot_of(name: Seq<char>) -> int {
    last_char(name, '.', name.len() as int)
}

/// What follows the last dot of the file name; a name that only starts with a dot has none.
pub open spec fn extension(path: Seq<char>) -> Option<Seq<char>> {
    match file_name(path) {
        Some(name) => if dot_of(name) > 0 {
            Some(name.skip(dot_of(name) + 1))
        } else {
            None
        },
        None => None,
    }
}

/// The file name without its extension.
pub open spec fn file_stem(path: Seq<char>) -> Option<Seq<char>> {
    match file_name(path) {
        Some(name) => if dot_of(name) > 0 {
            Some(name.take(dot_of(name)))
        } else {
            Some(name)
        },
        None => None,
    }
}

/// The extension in lower case.
pub open spec fn lower_extension(path: Seq<char>) -> Option<Seq<char>> {
    match extension(path) {
        Some(e) => Some(ascii_lower(e)),
        None => None,
    }
}

/// The last position of `c` in `s`.
pub fn find_last(s: &[char], c: char) -> (r: Option<usize>)
    ensures
        match r {
            Some(k) => k == last_char(s@, c, s@.len() as int) && k < s.len(),
            None => last_char(s@, c, s@.len() as int) == -1,
        },
{
    let mut n: usize = s.len();
    while n > 0
        invariant
            n <= s.len(),
            last_char(s@, c, s@.len() as int) == last_char(s@, c, n as int),
        decreases n,
    {
        if s[n - 1] == c {
            return Some(n - 1);
        }
        n -= 1;
    }
    None
}

/// The final component of `path`.
pub fn file_name_of(path: &str) -> (r: Option<String>)
    ensures
        r.deep_view() == file_name(path@),
{
    let cs: Vec<char> = chars_of(path);
    let parts: Vec<String> = split_chars(cs.as_slice(), '/');
    let mut n: usize = parts.len();
    while n > 0
        invariant
            n <= parts.len(),
            parts.deep_view() == split_on(path@, '/'),
            last_component(parts.deep_view(), parts.deep_view().len()) == last_component(
                parts.deep_view(),
                n as nat,
            ),
        decreases n,
    {
        let part: &String = &parts[n - 1];
        assert(part@ == parts.deep_view()[n - 1]);
        if !part.as_str().is_empty() && !same_text(part.as_str(), ".") {
            if same_text(part.as_str(), "..") {
                return None;
            }
            return Some(part.clone());
        }
        n -= 1;
    }
    None
}

/// What follows the last dot of the file name.
pub fn extension_of(path: &str) -> (r: Option<String>)
    ensures
        r.deep_view() == extension(path@),
{
    match file_name_of(path) {
        Some(name) => {
            let cs: Vec<char> = chars_of(name.as_str());
            match find_last(cs.as_slice(), '.') {
                Some(k) => if k > 0 {
                    let rest: &[char] = slice_subrange(cs.as_slice(), k + 1, cs.len());
                    assert(rest@ =~= name@.skip(k + 1));
                    Some(string_of(rest))
                } else {
                    None
                },
                None => None,
            }
        },
        None => None,
    }
}

/// The file name without its extension.
pub fn file_stem_of(path: &str) -> (r: Option<String>)
    ensures
        r.deep_view() == file_stem(path@),
{
    match file_name_of(path) {
        Some(name) => {
            let cs: Vec<char> = chars_of(name.as_str());
            match find_last(cs.as_slice(), '.') {
                Some(k) => if k > 0 {
                    Some(string_of(slice_subrange(cs.as_slice(), 0, k)))
                } else {
                    Some(name)
                },
                None => Some(name),
            }
        },
        None => None,
    }
}

/// The extension in lower case.
pub fn lower_extension_of(path: &str) -> (r: Option<String>)
    ensures
        r.deep_view() == lower_extension(path@),
{
    match extension_of(path) {
        Some(e) => Some(to_ascii_lower(e.as_str())),
        None => None,
    }
}

// --- renaming -------------------------------------------------------------------------------

/// How much of a path stands before its first name: the slash of an absolute path, or the `.`
/// that a relative one begins with.
pub open spec fn root_len(path: Seq<char>) -> int {
    if path.len() > 0 && (path[0] == '/' || (path[0] == '.' && (path.len() == 1 || path[1]
        == '/'))) {
        1
    } else {
        0
    }
}

/// Where the last piece of a path begins.
pub open spec fn name_start(path: Seq<char>) -> int {
    let k = last_char(path, '/', path.len() as int);
    if k >= root_len(path) {
        k + 1
    } else {
        root_len(path)
    }
}

/// Where the slash before the last piece stands, or the piece itself where none does.
pub open spec fn name_cut(path: Seq<char>) -> int {
    let k = last_char(path, '/', path.len() as int);
    if k >= root_len(path) {
        k
    } else {
        root_len(path)
    }
}

pub proof fn lemma_last_char(s: Seq<char>, c: char, n: int)
    requires
        n <= s.len(),
    ensures
        -1 <= last_char(s, c, n),
        n >= 0 ==> last_char(s, c, n) < n || last_char(s, c, n) == -1,
    decreases n,
{
    if n > 0 && s[n - 1] != c {
        lemma_last_char(s, c, n - 1);
    }
}

/// A path without the slashes and the pieces `.` at its end.
pub open spec fn trim_path(path: Seq<char>) -> Seq<char>
    decreases path.len(),
    via trim_path_decreases
{
    if path.len() > root_len(path) && !is_component(path.skip(name_start(path))) {
        trim_path(path.take(name_cut(path)))
    } else {
        path
    }
}

#[via_fn]
proof fn trim_path_decreases(path: Seq<char>) {
    lemma_last_char(path, '/', path.len() as int);
}

/// The last piece of a path.
pub open spec fn last_piece(path: Seq<char>) -> Seq<char> {
    path.skip(name_start(path))
}

/// Whether a path ends in a file name.
pub open spec fn has_file_name(path: Seq<char>) -> bool {
    let p = trim_path(path);
    p.len() > root_len(p) && last_piece(p) != ".."@
}

/// A name put behind a directory.
pub open spec fn beneath(dir: Seq<char>, name: Seq<char>) -> Seq<char> {
    if dir.len() == 0 || dir.last() == '/' {
        dir + name
    } else {
        dir.push('/') + name
    }
}

/// The path with another file name; behind the whole path where it has none.
pub open spec fn with_file_name(path: Seq<char>, name: Seq<char>) -> Seq<char> {
    let p = trim_path(path);
    if has_file_name(path) {
        beneath(trim_path(p.take(name_cut(p))), name)
    } else {
        beneath(path, name)
    }
}

/// The path with another extension, which is not empty; unchanged where it has no file name.
pub open spec fn with_extension(path: Seq<char>, ext: Seq<char>) -> Seq<char> {
    let p = trim_path(path);
    if has_file_name(path) {
        let dot = dot_of(last_piece(p));
        (if dot > 0 {
            p.take(name_start(p) + dot)
        } else {
            p
        }).push('.') + ext
    } else {
        path
    }
}

/// How much of a path stands before its first name.
fn root_of(path: &[char]) -> (r: usize)
    ensures
        r == root_len(path@),
        r <= path.len(),
{
    if path.len() > 0 && (path[0] == '/' || (path[0] == '.' && (path.len() == 1 || path[1]
        == '/'))) {
        1
    } else {
        0
    }
}

/// Where the last piece of a path begins, and where the path is cut to remove it.
fn last_piece_at(path: &[char]) -> (r: (usize, usize))
    ensures
        r.0 == name_start(path@),
        r.1 == name_cut(path@),
        r.1 <= r.0 <= path.len(),
        path@.len() > root_len(path@) ==> r.1 < path@.len(),
{
    let root: usize = root_of(path);
    match find_last(path, '/') {
        Some(k) => if k >= root {
            (k + 1, k)
        } else {
            (root, root)
        },
        None => (root, root),
    }
}

/// A path without the slashes and the pieces `.` at its end.
pub fn trimmed_path(path: &[char]) -> (r: &[char])
    ensures
        r@ == trim_path(path@),
{
    let mut p: &[char] = path;
    loop
        invariant
            trim_path(p@) == trim_path(path@),
        decreases p@.len(),
    {
        let (start, cut) = last_piece_at(p);
        if p.len() <= root_of(p) {
            return p;
        }
        let piece: &[char] = slice_subrange(p, start, p.len());
        assert(piece@ =~= p@.skip(start as int));
        proof {
            reveal_strlit(".");
            if piece@.len() == 1 && piece@[0] == '.' {
                assert(piece@ =~= "."@);
            }
        }
        if piece.len() > 0 && !(piece.len() == 1 && piece[0] == '.') {
            return p;
        }
        let next: &[char] = slice_subrange(p, 0, cut);
        assert(next@ =~= p@.take(cut as int));
        p = next;
    }
}

/// A name put behind a directory.
pub fn put_beneath(dir: &[char], name: &str) -> (r: String)
    ensures
        r@ == beneath(dir@, name@),
{
    let mut out: String = string_of(dir);
    if dir.len() > 0 && dir[dir.len() - 1] != '/' {
        out.push('/');
    }
    out.append(name);
    out
}

/// The path with another file name.
pub fn rename_file(path: &str, name: &str) -> (r: String)
    ensures
        r@ == with_file_name(path@, name@),
{
    let cs: Vec<char> = chars_of(path);
    let p: &[char] = trimmed_path(cs.as_slice());
    let (start, cut) = last_piece_at(p);
    let piece: String = string_of(slice_subrange(p, start, p.len()));
    assert(piece@ =~= last_piece(p@));
    if p.len() > root_of(p) && !same_text(piece.as_str(), "..") {
        let dir: &[char] = slice_subrange(p, 0, cut);
        assert(dir@ =~= p@.take(cut as int));
        put_beneath(trimmed_path(dir), name)
    } else {
        put_beneath(cs.as_slice(), name)
    }
}

/// The path with another extension.
pub fn change_extension(path: &str, ext: &str) -> (r: String)
    ensures
        r@ == with_extension(path@, ext@),
{
    let cs: Vec<char> = chars_of(path);
    let p: &[char] = trimmed_path(cs.as_slice());
    let (start, _cut) = last_piece_at(p);
    let name: &[char] = slice_subrange(p, start, p.len());
    let piece: String = string_of(name);
    assert(piece@ =~= last_piece(p@));
    if p.len() <= root_of(p) || same_text(piece.as_str(), "..") {
        return path.to_owned();
    }
    let end: usize = match find_last(name, '.') {
        Some(k) => if k > 0 {
            start + k
        } else {
            p.len()
        },
        None => p.len(),
    };
    let kept: &[char] = slice_subrange(p, 0, end);
    assert(kept@ =~= p@.take(end as int));
    assert(p@.take(p@.len() as int) =~= p@);
    let mut out: String = string_of(kept);
    out.push('.');
    out.append(ext);
    out
}

// --- comparing ------------------------------------------------------------------------------

/// The pieces among the first `n` that name something.
pub open spec fn components_n(parts: Seq<Seq<char>>, n: nat) -> Seq<Seq<char>>
    decreases n,
{
    if n == 0 {
        seq![]
    } else if is_component(parts[n - 1]) || (n == 1 && parts[0] == "."@) {
        components_n(parts, (n - 1) as nat).push(parts[n - 1])
    } else {
        components_n(parts, (n - 1) as nat)
    }
}

/// Every name along a path counts, in order: the pieces that are neither empty nor a dot, and a
/// dot in front.
pub proof fn law_every_name_along_a_path_counts(parts: Seq<Seq<char>>, n: nat)
    requires
        n <= parts.len(),
    ensures
        components_n(parts, n) == Seq::new(
            n,
            |i: int|
                if (parts[i].len() > 0 && parts[i] != "."@) || (i == 0 && parts[i] == "."@) {
                    seq![parts[i]]
                } else {
                    seq![]
                },
        ).flatten(),
    decreases n,
{
    if n > 0 {
        law_every_name_along_a_path_counts(parts, (n - 1) as nat);
        lemma_parts_last(
            |i: int|
                if (parts[i].len() > 0 && parts[i] != "."@) || (i == 0 && parts[i] == "."@) {
                    seq![parts[i]]
                } else {
                    seq![]
                },
            n,
        );
        let before = components_n(parts, (n - 1) as nat);
        assert(before + seq![parts[n - 1]] =~= before.push(parts[n - 1]));
        assert(before + seq![] =~= before);
    }
}

/// The names along a path; a leading `.` counts.
pub open spec fn components(path: Seq<char>) -> Seq<Seq<char>> {
    components_n(split_on(path, '/'), split_on(path, '/').len())
}

/// Whether a path is absolute.
pub open spec fn is_absolute(path: Seq<char>) -> bool {
    path.len() > 0 && path[0] == '/'
}

/// Whether two paths are the same, doubled slashes and pieces `.` aside.
pub open spec fn same_path(a: Seq<char>, b: Seq<char>) -> bool {
    is_absolute(a) == is_absolute(b) && components(a) == components(b)
}

/// The names along a path.
pub fn components_of(path: &str) -> (r: Vec<String>)
    ensures
        r.deep_view() == components(path@),
{
    let cs: Vec<char> = chars_of(path);
    let parts: Vec<String> = split_chars(cs.as_slice(), '/');
    let mut out: Vec<String> = Vec::new();
    assert(out.deep_view() =~= seq![]);
    let mut i: usize = 0;
    while i < parts.len()
        invariant
            i <= parts.len(),
            out.deep_view() == components_n(parts.deep_view(), i as nat),
        decreases parts.len() - i,
    {
        assert(parts.deep_view()[i as int] == parts@[i as int]@);
        assert(parts.deep_view()[0] == parts@[0]@);
        let dot: bool = same_text(parts[i].as_str(), ".");
        if (!parts[i].as_str().is_empty() && !dot) || (i == 0 && dot) {
            let ghost before = out.deep_view();
            out.push(parts[i].clone());
            assert(out.deep_view() =~= before.push(parts@[i as int]@));
        }
        i += 1;
    }
    assert(parts.deep_view().len() == parts@.len());
    out
}

/// Whether two paths are the same, doubled slashes and pieces `.` aside.
pub fn are_same_path(a: &str, b: &str) -> (r: bool)
    ensures
        r == same_path(a@, b@),
{
    let x: Vec<char> = chars_of(a);
    let y: Vec<char> = chars_of(b);
    if (x.len() > 0 && x[0] == '/') != (y.len() > 0 && y[0] == '/') {
        return false;
    }
    let xs: Vec<String> = components_of(a);
    let ys: Vec<String> = components_of(b);
    assert(xs.deep_view().len() == xs@.len());
    assert(ys.deep_view().len() == ys@.len());
    if xs.len() != ys.len() {
        return false;
    }
    let mut i: usize = 0;
    while i < xs.len()
        invariant
            i <= xs.len(),
            xs@.len() == ys@.len(),
            xs.deep_view() == components(a@),
            ys.deep_view() == components(b@),
            forall|j: int| 0 <= j < i ==> #[trigger] xs.deep_view()[j] == ys.deep_view()[j],
        decreases xs.len() - i,
    {
        assert(xs.deep_view()[i as int] == xs@[i as int]@);
        assert(ys.deep_view()[i as int] == ys@[i as int]@);
        if !same_text(xs[i].as_str(), ys[i].as_str()) {
            return false;
        }
        i += 1;
    }
    assert(xs.deep_view() =~= ys.deep_view());
    true
}

// --- what holds of every path ---------------------------------------------------------------

proof fn lemma_split_join(a: Seq<char>, b: Seq<char>)
    ensures
        split_on(a.push('/') + b, '/') == split_on(a, '/') + split_on(b, '/'),
    decreases a.len(),
{
    let s = a.push('/') + b;
    let k = char_from(a, '/', 0);
    lemma_char_from(a, '/', 0);
    lemma_char_from(s, '/', 0);
    let j = char_from(s, '/', 0);
    assert(s[a.len() as int] == '/');
    if k < a.len() {
        assert(s[k] == '/');
        assert(j == k) by {
            if j < k {
                assert(s[j] == a[j]);
            }
        }
        let rest = a.skip(k + 1);
        lemma_split_join(rest, b);
        assert(s.take(k) =~= a.take(k));
        assert(s.skip(k + 1) =~= rest.push('/') + b);
        assert(split_on(s, '/') =~= split_on(a, '/') + split_on(b, '/'));
    } else {
        assert(j == a.len()) by {
            if j < a.len() {
                assert(s[j] == a[j]);
            }
        }
        assert(s.take(j) =~= a);
        assert(s.skip(j + 1) =~= b);
        assert(split_on(s, '/') =~= seq![a] + split_on(b, '/'));
    }
}

proof fn lemma_split_whole(s: Seq<char>)
    requires
        !s.contains('/'),
    ensures
        split_on(s, '/') == seq![s],
{
    lemma_char_from(s, '/', 0);
    let k = char_from(s, '/', 0);
    if k < s.len() {
        assert(s[k] == '/');
    }
}

/// A file put behind a directory has its name.
proof fn lemma_name_behind(dir: Seq<char>, name: Seq<char>)
    requires
        is_component(name),
        name != ".."@,
        !name.contains('/'),
    ensures
        file_name(beneath(dir, name)) == Some(name),
        components(beneath(dir, name)).len() > 0,
        components(beneath(dir, name)).last() == name,
{
    let path = beneath(dir, name);
    lemma_split_whole(name);
    if dir.len() == 0 {
        assert(path =~= name);
    } else if dir.last() == '/' {
        assert(path =~= dir.drop_last().push('/') + name);
        lemma_split_join(dir.drop_last(), name);
    } else {
        lemma_split_join(dir, name);
    }
    let parts = split_on(path, '/');
    assert(parts.last() == name);
    assert(last_component(parts, parts.len()) == Some(name));
}

proof fn lemma_last_component(parts: Seq<Seq<char>>, n: nat)
    requires
        n <= parts.len(),
        last_component(parts, n) is Some,
    ensures
        components_n(parts, n).len() > 0,
        components_n(parts, n).last() == last_component(parts, n)->0,
    decreases n,
{
    if !is_component(parts[n - 1]) {
        lemma_last_component(parts, (n - 1) as nat);
        assert(n != 1);
    }
}

/// A file that is renamed has the new name.
pub proof fn law_a_renamed_file_has_its_name(path: Seq<char>, name: Seq<char>)
    requires
        is_component(name),
        name != ".."@,
        !name.contains('/'),
    ensures
        file_name(with_file_name(path, name)) == Some(name),
{
    let p = trim_path(path);
    if has_file_name(path) {
        lemma_name_behind(trim_path(p.take(name_cut(p))), name);
    } else {
        lemma_name_behind(path, name);
    }
}

/// A file that is given another name is another file.
pub proof fn law_a_renamed_file_is_another(path: Seq<char>, name: Seq<char>)
    requires
        is_component(name),
        name != ".."@,
        !name.contains('/'),
        file_name(path) is Some,
        file_name(path) != Some(name),
    ensures
        !same_path(with_file_name(path, name), path),
{
    let p = trim_path(path);
    if has_file_name(path) {
        lemma_name_behind(trim_path(p.take(name_cut(p))), name);
    } else {
        lemma_name_behind(path, name);
    }
    let parts = split_on(path, '/');
    lemma_last_component(parts, parts.len());
    assert(components(path).last() == file_name(path)->0);
}

proof fn lemma_last_char_is(s: Seq<char>, c: char, n: int)
    requires
        0 <= n <= s.len(),
    ensures
        last_char(s, c, n) >= 0 ==> s[last_char(s, c, n)] == c,
        forall|j: int| last_char(s, c, n) < j < n ==> s[j] != c,
    decreases n,
{
    if n > 0 && s[n - 1] != c {
        lemma_last_char_is(s, c, n - 1);
    }
}

proof fn lemma_last_char_unique(s: Seq<char>, c: char, n: int, k: int)
    requires
        0 <= k < n <= s.len(),
        s[k] == c,
        forall|j: int| k < j < n ==> s[j] != c,
    ensures
        last_char(s, c, n) == k,
    decreases n,
{
    if n - 1 > k {
        lemma_last_char_unique(s, c, n - 1, k);
    }
}

/// A file that is given another extension has it.
pub proof fn law_a_changed_extension_is_the_extension(path: Seq<char>, ext: Seq<char>)
    requires
        has_file_name(path),
        ext.len() > 0,
        !ext.contains('.'),
        !ext.contains('/'),
    ensures
        extension(with_extension(path, ext)) == Some(ext),
{
    let p = trim_path(path);
    lemma_last_char(p, '/', p.len() as int);
    lemma_last_char_is(p, '/', p.len() as int);
    let slash = last_char(p, '/', p.len() as int);
    assert(name_start(p) == slash + 1);
    let name = last_piece(p);
    let dot = dot_of(name);
    lemma_last_char(name, '.', name.len() as int);
    let stem = if dot > 0 {
        name.take(dot)
    } else {
        name
    };
    let head = p.take(name_start(p));
    let fresh = stem.push('.') + ext;
    let out = with_extension(path, ext);
    lemma_trimmed_ends_in_a_name(path);
    assert(out =~= head + fresh);
    assert(!fresh.contains('/')) by {
        if fresh.contains('/') {
            let j = choose|j: int| 0 <= j < fresh.len() && fresh[j] == '/';
            if j < stem.len() {
                assert(fresh[j] == name[j]);
                assert(p[name_start(p) + j] == '/');
            } else if j > stem.len() {
                assert(ext[j - stem.len() - 1] == '/');
            }
        }
    }
    reveal_strlit(".");
    reveal_strlit("..");
    assert(fresh.len() >= 3);
    assert(is_component(fresh) && fresh != ".."@);
    lemma_split_whole(fresh);
    if slash >= 0 {
        let dir = p.take(slash);
        assert(head =~= dir.push('/'));
        lemma_split_join(dir, fresh);
    } else {
        assert(head =~= seq![]);
        assert(out =~= fresh);
    }
    let parts = split_on(out, '/');
    assert(parts.last() == fresh);
    assert(file_name(out) == Some(fresh));
    assert forall|j: int| stem.len() < j < fresh.len() implies fresh[j] != '.' by {
        if fresh[j] == '.' {
            assert(ext[j - stem.len() - 1] == '.');
        }
    }
    lemma_last_char_unique(fresh, '.', fresh.len() as int, stem.len() as int);
    assert(fresh.skip(stem.len() as int + 1) =~= ext);
}

/// A path without the pieces at its end that name nothing ends in a name, or is only a root.
proof fn lemma_trimmed_ends_in_a_name(path: Seq<char>)
    ensures
        ({
            let p = trim_path(path);
            p.len() > root_len(p) ==> is_component(last_piece(p))
        }),
    decreases path.len(),
{
    lemma_last_char(path, '/', path.len() as int);
    if path.len() > root_len(path) && !is_component(path.skip(name_start(path))) {
        lemma_trimmed_ends_in_a_name(path.take(name_cut(path)));
    }
}

proof fn lemma_pieces_hold_no_slash(s: Seq<char>)
    ensures
        forall|i: int|
            0 <= i < split_on(s, '/').len() ==> !(#[trigger] split_on(s, '/')[i]).contains('/'),
    decreases s.len(),
{
    lemma_char_from(s, '/', 0);
    let k = char_from(s, '/', 0);
    let parts = split_on(s, '/');
    if k < s.len() {
        lemma_pieces_hold_no_slash(s.skip(k + 1));
        let rest = split_on(s.skip(k + 1), '/');
        assert forall|i: int| 0 <= i < parts.len() implies !(#[trigger] parts[i]).contains('/') by {
            if i > 0 {
                assert(parts[i] == rest[i - 1]);
            }
        }
    }
}

proof fn lemma_last_component_is_a_piece(parts: Seq<Seq<char>>, n: nat)
    requires
        n <= parts.len(),
        last_component(parts, n) is Some,
    ensures
        parts.contains(last_component(parts, n)->0),
        is_component(last_component(parts, n)->0),
    decreases n,
{
    if !is_component(parts[n - 1]) {
        lemma_last_component_is_a_piece(parts, (n - 1) as nat);
    }
}

/// A file name names something, and holds no slash.
pub proof fn lemma_file_name_is_a_piece(path: Seq<char>)
    requires
        file_name(path) is Some,
    ensures
        is_component(file_name(path)->0),
        file_name(path)->0 != ".."@,
        !file_name(path)->0.contains('/'),
{
    let parts = split_on(path, '/');
    lemma_pieces_hold_no_slash(path);
    lemma_last_component_is_a_piece(parts, parts.len());
}

} // verus!
