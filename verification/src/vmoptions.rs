//! JetBrains launchers and their `.vmoptions` files: recognising a launcher
//! script and the program it starts, locating the options file next to a
//! program, and adding an option to the file's text.
use vstd::prelude::*;

use crate::text::{
    chars_of, contains_chars, contains_seq, lines_of, push_all, split_lines, string_of,
    strip_suffix, strip_suffix_chars, trim, trim_chars, trim_end, trim_end_chars,
};

verus! {

// ---------------------------------------------------------------------------
// Executables
// ---------------------------------------------------------------------------

/// On Unix, a file is executable when its permission bits (`mode`, absent
/// when the metadata could not be read) grant execution to anyone.
pub fn is_executable(mode: Option<u32>) -> (r: bool)
    ensures
        r == (mode matches Some(m) && m & 0o111u32 != 0),
{
    match mode {
        Some(m) => m & 0o111 != 0,
        None => false,
    }
}

/// `a` is `b`, or the ASCII upper-case letter of `b`.
pub open spec fn same_letter(a: char, b: char) -> bool {
    a == b || ('A' <= a <= 'Z' && (a as u32) + 32 == (b as u32))
}

/// `s` equals the lower-case ASCII word `w` when letters are compared without
/// regard to case.
pub open spec fn eq_ignore_case(s: Seq<char>, w: Seq<char>) -> bool {
    s.len() == w.len() && forall|i: int| 0 <= i < s.len() ==> same_letter(#[trigger] s[i], w[i])
}

fn eq_ignore_case_exec(s: &Vec<char>, w: &str) -> (r: bool)
    ensures
        r == eq_ignore_case(s@, w@),
{
    let wv = chars_of(w);
    if s.len() != wv.len() {
        return false;
    }
    let mut i: usize = 0;
    while i < s.len()
        invariant
            s.len() == wv.len(),
            wv@ == w@,
            i <= s.len(),
            forall|j: int| 0 <= j < i ==> same_letter(#[trigger] s@[j], wv@[j]),
        decreases s.len() - i,
    {
        let c = s[i];
        let d = wv[i];
        let ok = c == d || ('A' <= c && c <= 'Z' && (c as u32) + 32 == (d as u32));
        if !ok {
            assert(!same_letter(s@[i as int], w@[i as int]));
            return false;
        }
        i = i + 1;
    }
    true
}

/// Where there are no Unix permissions, a file is executable when its
/// extension, in lower case, is `exe`, `bat` or `cmd`. (No character outside
/// ASCII lower-cases to a letter of these words, so comparing ASCII letters
/// without regard to case decides it.)
pub fn is_executable_extension(ext: Option<&str>) -> (r: bool)
    ensures
        r == (ext matches Some(e) && (eq_ignore_case(e@, "exe"@) || eq_ignore_case(e@, "bat"@)
            || eq_ignore_case(e@, "cmd"@))),
{
    match ext {
        Some(e) => {
            let v = chars_of(e);
            eq_ignore_case_exec(&v, "exe") || eq_ignore_case_exec(&v, "bat") || eq_ignore_case_exec(
                &v,
                "cmd",
            )
        },
        None => false,
    }
}

// ---------------------------------------------------------------------------
// Paths
// ---------------------------------------------------------------------------

/// The characters of an optional string.
pub open spec fn opt_chars(o: Option<String>) -> Option<Seq<char>> {
    match o {
        Some(s) => Some(s@),
        None => None,
    }
}

/// What `Path::parent` gives for `path`, as text.
pub uninterp spec fn path_parent(path: Seq<char>) -> Option<Seq<char>>;

/// What `Path::file_name` gives for `path`, as text.
pub uninterp spec fn path_file_name(path: Seq<char>) -> Option<Seq<char>>;

/// What `Path::file_stem` gives for `path`, as text.
pub uninterp spec fn path_file_stem(path: Seq<char>) -> Option<Seq<char>>;

/// What `Path::join` gives for `base` and `name`, as text.
pub uninterp spec fn path_join(base: Seq<char>, name: Seq<char>) -> Seq<char>;

/// `std::path::Path::parent`: the path without its final component, if it has
/// one. The result is named `path_parent`; it depends on the path alone (with
/// the separators of the platform the crate is built for).
#[verifier::external_body]
fn parent_of(path: &str) -> (r: Option<String>)
    ensures
        opt_chars(r) == path_parent(path@),
{
    match std::path::Path::new(path).parent() {
        Some(p) => Some(p.to_string_lossy().into_owned()),
        None => None,
    }
}

/// `std::path::Path::file_name`: the final component of the path, if it is a
/// normal one; named `path_file_name`. A `&str` path is valid UTF-8, so the
/// component converts to text without loss.
#[verifier::external_body]
fn file_name_of(path: &str) -> (r: Option<String>)
    ensures
        opt_chars(r) == path_file_name(path@),
{
    match std::path::Path::new(path).file_name() {
        Some(n) => Some(n.to_string_lossy().into_owned()),
        None => None,
    }
}

/// `std::path::Path::file_stem`: the final component without its extension;
/// named `path_file_stem`.
#[verifier::external_body]
fn file_stem_of(path: &str) -> (r: Option<String>)
    ensures
        opt_chars(r) == path_file_stem(path@),
{
    match std::path::Path::new(path).file_stem() {
        Some(n) => Some(n.to_string_lossy().into_owned()),
        None => None,
    }
}

/// `std::path::Path::join`: `name` appended to `base` as a further component;
/// named `path_join`.
#[verifier::external_body]
fn join_path(base: &str, name: &str) -> (r: String)
    ensures
        r@ == path_join(base@, name@),
{
    std::path::Path::new(base).join(name).to_string_lossy().into_owned()
}

/// The product name of a program: its file stem (or its file name) without a
/// trailing `64`.
pub open spec fn product_of(stem: Option<Seq<char>>, name: Seq<char>) -> Seq<char> {
    let p = match stem {
        Some(s) => s,
        None => name,
    };
    match strip_suffix(p, "64"@) {
        Some(q) => q,
        None => p,
    }
}

/// The files, in order of preference, that may hold the options of the
/// program at `binary`: `<name>.vmoptions`, `<product>64.exe.vmoptions`,
/// `<product>.exe.vmoptions`, `<product>64.vmoptions` and
/// `<product>.vmoptions`, all in the program's directory; none when the path
/// has no directory or no file name.
pub open spec fn candidates_spec(binary: Seq<char>) -> Option<Seq<Seq<char>>> {
    match path_parent(binary) {
        None => None,
        Some(dir) => match path_file_name(binary) {
            None => None,
            Some(name) => {
                let product = product_of(path_file_stem(binary), name);
                Some(
                    seq![
                        path_join(dir, name + ".vmoptions"@),
                        path_join(dir, product + "64.exe.vmoptions"@),
                        path_join(dir, product + ".exe.vmoptions"@),
                        path_join(dir, product + "64.vmoptions"@),
                        path_join(dir, product + ".vmoptions"@),
                    ],
                )
            },
        },
    }
}

/// The strings of `v` as plain values.
pub open spec fn texts(v: Seq<String>) -> Seq<Seq<char>> {
    Seq::new(v.len(), |i: int| v[i]@)
}

fn concat(a: &Vec<char>, b: &str) -> (r: String)
    ensures
        r@ == a@ + b@,
{
    let mut s = string_of(a);
    push_all(&mut s, b);
    s
}

/// The files that may hold the options of the program at `binary_path`, in
/// order of preference (see `candidates_spec`).
pub fn options_path_candidates(binary_path: &str) -> (r: Option<Vec<String>>)
    ensures
        match r {
            Some(v) => candidates_spec(binary_path@) == Some(texts(v@)),
            None => candidates_spec(binary_path@) is None,
        },
{
    let dir = match parent_of(binary_path) {
        Some(d) => d,
        None => return None,
    };
    let name = match file_name_of(binary_path) {
        Some(n) => n,
        None => return None,
    };
    let name_chars = chars_of(name.as_str());
    let stem = match file_stem_of(binary_path) {
        Some(s) => chars_of(s.as_str()),
        None => chars_of(name.as_str()),
    };
    let sixty_four = chars_of("64");
    let product = match strip_suffix_chars(&stem, &sixty_four) {
        Some(p) => p,
        None => stem,
    };
    let mut v: Vec<String> = Vec::new();
    let c0 = concat(&name_chars, ".vmoptions");
    v.push(join_path(dir.as_str(), c0.as_str()));
    let c1 = concat(&product, "64.exe.vmoptions");
    v.push(join_path(dir.as_str(), c1.as_str()));
    let c2 = concat(&product, ".exe.vmoptions");
    v.push(join_path(dir.as_str(), c2.as_str()));
    let c3 = concat(&product, "64.vmoptions");
    v.push(join_path(dir.as_str(), c3.as_str()));
    let c4 = concat(&product, ".vmoptions");
    v.push(join_path(dir.as_str(), c4.as_str()));
    proof {
        let want = candidates_spec(binary_path@);
        assert(product@ == product_of(path_file_stem(binary_path@), name@));
        assert(texts(v@) =~= want->0);
    }
    Some(v)
}

/// The index of the first of `cands` that is one of `existing`, if any.
pub open spec fn first_existing(cands: Seq<Seq<char>>, existing: Seq<Seq<char>>) -> Option<int>
    decreases cands.len(),
{
    if cands.len() == 0 {
        None
    } else if existing.contains(cands[0]) {
        Some(0)
    } else {
        match first_existing(cands.drop_first(), existing) {
            Some(i) => Some(i + 1),
            None => None,
        }
    }
}

fn is_listed(existing: &Vec<String>, s: &String) -> (r: bool)
    ensures
        r == texts(existing@).contains(s@),
{
    let mut i: usize = 0;
    while i < existing.len()
        invariant
            i <= existing@.len(),
            forall|j: int| 0 <= j < i ==> existing@[j]@ != s@,
        decreases existing@.len() - i,
    {
        if existing[i] == *s {
            assert(texts(existing@)[i as int] == s@);
            return true;
        }
        i = i + 1;
    }
    proof {
        if texts(existing@).contains(s@) {
            let j = choose|j: int| 0 <= j < texts(existing@).len() && texts(existing@)[j] == s@;
            assert(existing@[j]@ == s@);
        }
    }
    false
}

/// The options file of the program with path `binary`, given the files known
/// to exist, `existing`: the first of its candidate files (see
/// `candidates_spec`) that exists; when none does, the last candidate,
/// `<product>.vmoptions` in the program's directory, which is then created.
/// `None` when the path has no directory or no file name.
pub open spec fn options_file(binary: Seq<char>, existing: Seq<Seq<char>>) -> Option<Seq<char>> {
    match candidates_spec(binary) {
        None => None,
        Some(c) => match first_existing(c, existing) {
            Some(i) => Some(c[i]),
            None => Some(c.last()),
        },
    }
}

/// The options file of the program at `binary_path` (see `options_file`):
/// the first candidate that is among the files known to exist, `existing`,
/// or else the file to create.
pub fn resolve_options_path(binary_path: &str, existing: &Vec<String>) -> (r: Option<String>)
    ensures
        opt_chars(r) == options_file(binary_path@, texts(existing@)),
{
    let cands = match options_path_candidates(binary_path) {
        Some(c) => c,
        None => return None,
    };
    let ghost cv = texts(cands@);
    let ghost ev = texts(existing@);
    let mut i: usize = 0;
    assert(cv.skip(0) =~= cv);
    while i < cands.len()
        invariant
            i <= cands@.len(),
            cv == texts(cands@),
            ev == texts(existing@),
            candidates_spec(binary_path@) == Some(cv),
            first_existing(cv, ev) == (match first_existing(cv.skip(i as int), ev) {
                Some(k) => Some(k + i),
                None => None::<int>,
            }),
        decreases cands@.len() - i,
    {
        let ghost rest = cv.skip(i as int);
        assert(rest[0] == cands@[i as int]@);
        assert(rest.drop_first() =~= cv.skip(i + 1));
        if is_listed(existing, &cands[i]) {
            assert(first_existing(rest, ev) == Some(0int));
            assert(first_existing(cv, ev) == Some(i as int));
            let r = cands[i].clone();
            assert(r@ == cv[i as int]);
            return Some(r);
        }
        i = i + 1;
    }
    proof {
        assert(cv.skip(i as int).len() == 0);
        assert(first_existing(cv, ev) is None);
    }
    let last = cands.len() - 1;
    let r = cands[last].clone();
    assert(r@ == cv.last());
    Some(r)
}

// ---------------------------------------------------------------------------
// Options files
// ---------------------------------------------------------------------------

/// The text of an options file after adding the option `text`: unchanged
/// (`None`) when `text` already occurs in it; otherwise the content without
/// trailing whitespace, a line break, `text` and a line break.
pub open spec fn updated_content(content: Seq<char>, text: Seq<char>) -> Option<Seq<char>> {
    if contains_seq(content, text) {
        None
    } else {
        Some(trim_end(content) + seq!['\n'] + text + seq!['\n'])
    }
}

/// The new text of an options file whose text is `content` once the option
/// `text` is added; `None` when the option is already there.
pub fn vmoptions_update(content: &str, text: &str) -> (r: Option<String>)
    ensures
        opt_chars(r) == updated_content(content@, text@),
{
    let c = chars_of(content);
    let t = chars_of(text);
    if contains_chars(&c, &t) {
        return None;
    }
    let head = trim_end_chars(&c);
    let mut s = string_of(&head);
    push_all(&mut s, "\n");
    push_all(&mut s, text);
    push_all(&mut s, "\n");
    proof {
        reveal_strlit("\n");
        assert(s@ =~= trim_end(content@) + seq!['\n'] + text@ + seq!['\n']);
    }
    Some(s)
}

// ---------------------------------------------------------------------------
// Launcher scripts
// ---------------------------------------------------------------------------

/// A Unix shell launcher: a line `"<path with /JetBrains/…/bin/…>" "$@"`;
/// group 1 is the program.
pub const SHELL_LAUNCHER: &'static str = r#"^"([^"]+/JetBrains/.+/bin/[^"]+)"\s+"\$@""#;

/// A Windows batch launcher: a line `start "" [%VAR% …] <program>.exe`, the
/// program quoted (group 1) or not (group 2).
pub const BATCH_LAUNCHER: &'static str =
    r#"(?i)^start\s+""(?:\s+%[a-z0-9_]+%)*\s+(?:"([^"]+\\bin\\[^"]+\.exe)"|([a-z]:\\\S+\\bin\\\S+\.exe))(?:\s|$)"#;

/// What `regex::Regex::new(pattern)` then `captures(text)` give: `None` when
/// the pattern does not compile or does not match; else each group's text,
/// `None` for a group that took no part in the match.
pub uninterp spec fn regex_captures(pattern: Seq<char>, text: Seq<char>) -> Option<
    Seq<Option<Seq<char>>>,
>;

/// Whether `regex::Regex::new(pattern)` succeeds: the pattern is valid and
/// within the crate's default size limits.
pub uninterp spec fn regex_compiles(pattern: Seq<char>) -> bool;

#[verifier::external_type_specification]
#[verifier::external_body]
pub struct ExRegex(regex::Regex);

/// A compiled regular expression together with its source text.
pub struct Pattern {
    source: String,
    compiled: regex::Regex,
}

impl View for Pattern {
    type V = Seq<char>;

    /// The source text of the pattern.
    closed spec fn view(&self) -> Seq<char> {
        self.source@
    }
}

/// The groups of a match as plain values.
pub open spec fn caps_view(c: Option<Vec<Option<String>>>) -> Option<Seq<Option<Seq<char>>>> {
    match c {
        Some(v) => Some(Seq::new(v@.len(), |i: int| opt_chars(v@[i]))),
        None => None,
    }
}

/// `regex::Regex::new`: compiles `pattern`; `None` when the pattern is
/// invalid or too large, which depends on the pattern alone (named
/// `regex_compiles`). The pattern kept is `pattern`.
#[verifier::external_body]
fn compile_pattern(pattern: &str) -> (r: Option<Pattern>)
    ensures
        r is Some <==> regex_compiles(pattern@),
        r matches Some(p) ==> p@ == pattern@,
{
    match regex::Regex::new(pattern) {
        Ok(re) => Some(Pattern { source: pattern.to_string(), compiled: re }),
        Err(_) => None,
    }
}

/// `regex::Regex::captures` then `Captures::iter`: the text of each group of
/// the first match of the pattern in `text` (named `regex_captures` of the
/// pattern's source and `text`).
#[verifier::external_body]
fn captures_of(p: &Pattern, text: &str) -> (r: Option<Vec<Option<String>>>)
    ensures
        caps_view(r) == regex_captures(p@, text@),
{
    match p.compiled.captures(text) {
        Some(c) => Some(c.iter().map(|m| m.map(|m| m.as_str().to_string())).collect()),
        None => None,
    }
}

/// The two launcher patterns, compiled once.
pub struct LauncherPatterns {
    shell: Pattern,
    batch: Pattern,
}

impl LauncherPatterns {
    /// Both patterns are those of the launchers.
    pub closed spec fn wf(&self) -> bool {
        &&& self.shell@ == SHELL_LAUNCHER@
        &&& self.batch@ == BATCH_LAUNCHER@
    }

    /// Compiles the launcher patterns; `None` exactly when the regex crate
    /// rejects one of them.
    pub fn new() -> (r: Option<LauncherPatterns>)
        ensures
            r is Some <==> (regex_compiles(SHELL_LAUNCHER@) && regex_compiles(BATCH_LAUNCHER@)),
            r matches Some(p) ==> p.wf(),
    {
        let shell = match compile_pattern(SHELL_LAUNCHER) {
            Some(p) => p,
            None => return None,
        };
        let batch = match compile_pattern(BATCH_LAUNCHER) {
            Some(p) => p,
            None => return None,
        };
        Some(LauncherPatterns { shell, batch })
    }
}

/// Group `i` of a match, if the match has that group and it took part.
pub open spec fn group(caps: Seq<Option<Seq<char>>>, i: int) -> Option<Seq<char>> {
    if 0 <= i < caps.len() {
        caps[i]
    } else {
        None
    }
}

/// The program that a (trimmed) launcher line starts: group 1 of the shell
/// pattern, else group 1 or group 2 of the batch pattern.
pub open spec fn line_target(line: Seq<char>) -> Option<Seq<char>> {
    let shell = match regex_captures(SHELL_LAUNCHER@, line) {
        Some(c) => group(c, 1),
        None => None,
    };
    if shell is Some {
        shell
    } else {
        match regex_captures(BATCH_LAUNCHER@, line) {
            Some(c) => if group(c, 1) is Some {
                group(c, 1)
            } else {
                group(c, 2)
            },
            None => None,
        }
    }
}

/// The program started by the first line of `lines` that is a launcher line
/// once trimmed.
pub open spec fn first_target(lines: Seq<Seq<char>>) -> Option<Seq<char>>
    decreases lines.len(),
{
    if lines.len() == 0 {
        None
    } else {
        match line_target(trim(lines[0])) {
            Some(t) => Some(t),
            None => first_target(lines.drop_first()),
        }
    }
}

fn group_of(caps: &Vec<Option<String>>, i: usize) -> (r: Option<String>)
    ensures
        opt_chars(r) == group(Seq::new(caps@.len(), |k: int| opt_chars(caps@[k])), i as int),
{
    if i < caps.len() {
        match &caps[i] {
            Some(s) => Some(s.clone()),
            None => None,
        }
    } else {
        None
    }
}

/// The program that the launcher line `line` (already trimmed) starts.
fn target_of_line(pats: &LauncherPatterns, line: &str) -> (r: Option<String>)
    requires
        pats.wf(),
    ensures
        opt_chars(r) == line_target(line@),
{
    if let Some(c) = captures_of(&pats.shell, line) {
        let g = group_of(&c, 1);
        if g.is_some() {
            return g;
        }
    }
    if let Some(c) = captures_of(&pats.batch, line) {
        let g1 = group_of(&c, 1);
        if g1.is_some() {
            return g1;
        }
        return group_of(&c, 2);
    }
    None
}

/// The program that a launcher script with text `content` starts: that of
/// its first line which, trimmed, matches one of the launcher patterns.
pub fn launcher_target(pats: &LauncherPatterns, content: &str) -> (r: Option<String>)
    requires
        pats.wf(),
    ensures
        opt_chars(r) == first_target(lines_of(content@)),
{
    let lines = split_lines(content);
    let ghost ls = lines_of(content@);
    let mut i: usize = 0;
    assert(ls.skip(0) =~= ls);
    while i < lines.len()
        invariant
            i <= lines@.len(),
            lines@.len() == ls.len(),
            ls == lines_of(content@),
            forall|m: int| 0 <= m < lines@.len() ==> #[trigger] lines@[m]@ == ls[m],
            first_target(ls) == first_target(ls.skip(i as int)),
            pats.wf(),
        decreases lines@.len() - i,
    {
        let ghost rest = ls.skip(i as int);
        assert(rest[0] == ls[i as int]);
        assert(rest.drop_first() =~= ls.skip(i + 1));
        let t = trim_chars(&lines[i]);
        let ts = string_of(&t);
        let found = target_of_line(pats, ts.as_str());
        if found.is_some() {
            assert(lines@[i as int]@ == rest[0]);
            assert(t@ == trim(rest[0]));
            assert(first_target(rest) == opt_chars(found));
            return found;
        }
        i = i + 1;
    }
    None
}

} // verus!
