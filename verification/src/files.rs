//! Files of a project: open editor files, the file tree, and the naming rules
//! for chapters, swap files, the trash folder and the legacy layout.
use vstd::prelude::*;
use vstd::string::StringExecFns;
use crate::date::{decimal, decimal_chars};
use crate::models::{lemma_list_view, SearchResult, StructKind, StructNode, StructNodeView};
use crate::outline::{fresh_node, lemma_fresh_view};
use crate::text::{
    chars_of, contains_seq, lines_of, occurs_at, occurs_at_exec, opt_text, split_lines,
    str_eq_chars, string_of, sub_chars, trim_chars, trim_ws, extend_chars,
};

verus! {

// ── Path pieces ──────────────────────────────────────────────────────────────

/// Name for what `Path::file_name` gives for a path written as text: its
/// last component when that is a normal name (by the path rules of the
/// target the crate is built for).
pub uninterp spec fn path_file_name(p: Seq<char>) -> Option<Seq<char>>;

/// The last component of a path (`Path::file_name`).
#[verifier::external_body]
fn file_name_of(path: &str) -> (r: Option<String>)
    ensures
        opt_text(r) == path_file_name(path@),
{
    std::path::Path::new(path).file_name().map(|n| n.to_string_lossy().into_owned())
}

/// Index of the last `.` of `n`, or -1 when there is none.
pub open spec fn last_dot(n: Seq<char>) -> int
    decreases n.len(),
{
    if n.len() == 0 {
        -1
    } else if n.last() == '.' {
        n.len() - 1
    } else {
        last_dot(n.drop_last())
    }
}

/// A file name has an extension when it holds a `.` after its first
/// character (and is not `..`).
pub open spec fn has_extension(n: Seq<char>) -> bool {
    n != ".."@ && last_dot(n) > 0
}

/// The extension of a file name (`Path::extension` on the name): what
/// follows its final `.`; none when the name has no `.`, or only a leading
/// one.
pub open spec fn name_extension(n: Seq<char>) -> Option<Seq<char>> {
    if has_extension(n) {
        Some(n.skip(last_dot(n) + 1))
    } else {
        None
    }
}

/// The stem of a file name (`Path::file_stem` on the name): what precedes
/// its final `.`, or the whole name when it has no extension.
pub open spec fn name_stem(n: Seq<char>) -> Seq<char> {
    if has_extension(n) {
        n.take(last_dot(n))
    } else {
        n
    }
}

/// The extension of a path (`Path::extension`).
pub open spec fn path_extension(p: Seq<char>) -> Option<Seq<char>> {
    match path_file_name(p) {
        Some(n) => name_extension(n),
        None => None,
    }
}

/// The stem of a path (`Path::file_stem`).
pub open spec fn path_stem(p: Seq<char>) -> Option<Seq<char>> {
    match path_file_name(p) {
        Some(n) => Some(name_stem(n)),
        None => None,
    }
}

/// Index of the last `.` of `v`, if any.
fn last_dot_index(v: &Vec<char>) -> (r: Option<usize>)
    ensures
        r matches Some(k) ==> k == last_dot(v@) && k < v.len(),
        r is None ==> last_dot(v@) == -1,
{
    let mut i: usize = v.len();
    assert(v@.take(i as int) =~= v@);
    while i > 0 && v[i - 1] != '.'
        invariant
            i <= v.len(),
            last_dot(v@) == last_dot(v@.take(i as int)),
        decreases i,
    {
        assert(v@.take(i as int).drop_last() =~= v@.take(i - 1));
        i -= 1;
    }
    if i == 0 {
        assert(v@.take(0) =~= Seq::<char>::empty());
        None
    } else {
        assert(v@.take(i as int).last() == '.');
        Some(i - 1)
    }
}

/// Whether `v` reads `"..".`
fn is_dot_dot(v: &Vec<char>) -> (r: bool)
    ensures
        r == (v@ == ".."@),
{
    str_eq_chars(v, &chars_of(".."))
}

/// The extension of a file name.
pub fn extension_of_name(name: &str) -> (r: Option<String>)
    ensures
        opt_text(r) == name_extension(name@),
{
    let v = chars_of(name);
    match last_dot_index(&v) {
        Some(k) => {
            if is_dot_dot(&v) || k == 0 {
                None
            } else {
                let e = sub_chars(&v, k + 1, v.len());
                assert(e@ =~= v@.skip(k + 1));
                Some(string_of(&e))
            }
        },
        None => None,
    }
}

} // verus!

verus! {

/// The stem of a file name.
pub fn stem_of_name(name: &str) -> (r: String)
    ensures
        r@ == name_stem(name@),
{
    let v = chars_of(name);
    match last_dot_index(&v) {
        Some(k) => {
            if is_dot_dot(&v) || k == 0 {
                String::from_str(name)
            } else {
                let e = sub_chars(&v, 0, k);
                assert(e@ =~= v@.take(k as int));
                string_of(&e)
            }
        },
        None => String::from_str(name),
    }
}

/// The extension of a path.
pub fn extension_of_path(path: &str) -> (r: Option<String>)
    ensures
        opt_text(r) == path_extension(path@),
{
    match file_name_of(path) {
        Some(n) => extension_of_name(n.as_str()),
        None => None,
    }
}

/// Whether the extension of `path` is exactly `ext`.
fn has_extension_text(path: &str, ext: &str) -> (r: bool)
    ensures
        r == (path_extension(path@) == Some(ext@)),
{
    match extension_of_path(path) {
        Some(e) => str_eq_chars(&chars_of(e.as_str()), &chars_of(ext)),
        None => false,
    }
}

} // verus!

verus! {

// ── Open files ───────────────────────────────────────────────────────────────

/// A file open in an editor pane.
#[derive(Clone, Debug)]
pub struct OpenFile {
    pub path: String,
    pub content: String,
    pub modified: bool,
}

/// The tab title of an open file: its file name (or `untitled`), marked with
/// `● ` when it has unsaved changes.
pub open spec fn open_file_title(path: Seq<char>, modified: bool) -> Seq<char> {
    let name = match path_file_name(path) {
        Some(n) => n,
        None => "untitled"@,
    };
    if modified {
        "● "@ + name
    } else {
        name
    }
}

/// A path is Markdown when its extension is `md` or `markdown`.
pub open spec fn is_markdown_path(p: Seq<char>) -> bool {
    path_extension(p) == Some("md"@) || path_extension(p) == Some("markdown"@)
}

impl OpenFile {
    /// A freshly opened, unmodified file.
    pub fn new(path: String, content: String) -> (r: Self)
        ensures
            r.path == path,
            r.content == content,
            !r.modified,
    {
        OpenFile { path, content, modified: false }
    }

    /// The tab title.
    pub fn title(&self) -> (r: String)
        ensures
            r@ == open_file_title(self.path@, self.modified),
    {
        let name = match file_name_of(self.path.as_str()) {
            Some(n) => n,
            None => String::from_str("untitled"),
        };
        if self.modified {
            let mut t = String::from_str("● ");
            t.append(name.as_str());
            t
        } else {
            name
        }
    }

    /// Whether the file is Markdown.
    pub fn is_markdown(&self) -> (r: bool)
        ensures
            r == is_markdown_path(self.path@),
    {
        has_extension_text(self.path.as_str(), "md") || has_extension_text(
            self.path.as_str(),
            "markdown",
        )
    }
}

/// New files open in the left (novel) pane unless they are JSON.
pub open spec fn opens_in_left(p: Seq<char>) -> bool {
    path_extension(p) != Some("json"@)
}

/// Whether a newly created file opens in the left pane.
pub fn opens_in_left_pane(path: &str) -> (r: bool)
    ensures
        r == opens_in_left(path@),
{
    !has_extension_text(path, "json")
}

// ── File tree ────────────────────────────────────────────────────────────────

/// A node of the project's file tree.
#[derive(Debug)]
pub struct FileNode {
    pub name: String,
    pub path: String,
    pub is_dir: bool,
    pub expanded: bool,
    pub children: Vec<FileNode>,
}

/// A file is left out of the tree when JSON files are hidden and it is one.
pub open spec fn hidden_in_tree(p: Seq<char>, hide_json: bool) -> bool {
    hide_json && path_extension(p) == Some("json"@)
}

/// Whether a (non-directory) path is left out of the file tree.
pub fn hides_file(path: &str, hide_json: bool) -> (r: bool)
    ensures
        r == hidden_in_tree(path@, hide_json),
{
    hide_json && has_extension_text(path, "json")
}

/// Swap files (`.swp`) are the drafts an interrupted save leaves behind.
pub open spec fn is_swap_path(p: Seq<char>) -> bool {
    path_extension(p) == Some("swp"@)
}

/// Whether `path` is a swap file.
pub fn is_swap_file(path: &str) -> (r: bool)
    ensures
        r == is_swap_path(path@),
{
    has_extension_text(path, "swp")
}

/// Full-text search looks into Markdown and JSON files.
pub open spec fn is_searchable_path(p: Seq<char>) -> bool {
    path_extension(p) == Some("md"@) || path_extension(p) == Some("json"@)
}

/// Whether full-text search reads `path`.
pub fn is_searchable_file(path: &str) -> (r: bool)
    ensures
        r == is_searchable_path(path@),
{
    has_extension_text(path, "md") || has_extension_text(path, "json")
}

// ── Chapters from folders ────────────────────────────────────────────────────

/// The structure node a folder entry gives: a directory is a volume named
/// after it, a Markdown file a chapter named after its stem, anything else
/// nothing.
pub open spec fn entry_node(p: Seq<char>, is_dir: bool) -> Option<(Seq<char>, StructKind)> {
    let name = match path_file_name(p) {
        Some(n) => n,
        None => Seq::<char>::empty(),
    };
    if is_dir {
        Some((name, StructKind::Volume))
    } else if path_extension(p) == Some("md"@) {
        Some(
            (
                match path_file_name(p) {
                    Some(n) => name_stem(n),
                    None => name,
                },
                StructKind::Chapter,
            ),
        )
    } else {
        None
    }
}

/// The structure node for a folder entry (children of a volume are filled
/// in by the caller).
pub fn struct_node_for_entry(path: &str, is_dir: bool) -> (r: Option<StructNode>)
    ensures
        r is None <==> entry_node(path@, is_dir) is None,
        r matches Some(n) ==> (entry_node(path@, is_dir) matches Some(e) && n@ == fresh_node(
            e.0,
            e.1,
            Seq::<StructNodeView>::empty(),
        )),
{
    let file_name = file_name_of(path);
    if is_dir {
        let name = match file_name {
            Some(n) => n,
            None => String::new(),
        };
        let node = StructNode::new(name.as_str(), StructKind::Volume);
        proof {
            lemma_fresh_view(&node);
            lemma_list_view(node.children@);
        }
        return Some(node);
    }
    if has_extension_text(path, "md") {
        let title = match file_name {
            Some(n) => stem_of_name(n.as_str()),
            None => String::new(),
        };
        let node = StructNode::new(title.as_str(), StructKind::Chapter);
        proof {
            lemma_fresh_view(&node);
            lemma_list_view(node.children@);
        }
        Some(node)
    } else {
        None
    }
}

// ── Trash ────────────────────────────────────────────────────────────────────

/// The name a file takes in the trash folder on its `idx`-th try: its own
/// name first, then `<stem>_<idx><.ext>`.
pub open spec fn trash_name(file_name: Seq<char>, idx: u32) -> Seq<char> {
    if idx == 0 {
        file_name
    } else {
        let stem = match path_stem(file_name) {
            Some(s) => s,
            None => file_name,
        };
        let ext = match path_extension(file_name) {
            Some(e) => "."@ + e,
            None => Seq::<char>::empty(),
        };
        stem + "_"@ + decimal(idx as nat) + ext
    }
}

/// The candidate name in the trash folder for try `idx` (0 is the file's
/// own name).
pub fn trash_candidate(file_name: &str, idx: u32) -> (r: String)
    ensures
        r@ == trash_name(file_name@, idx),
{
    if idx == 0 {
        return String::from_str(file_name);
    }
    let stem = match file_name_of(file_name) {
        Some(n) => stem_of_name(n.as_str()),
        None => String::from_str(file_name),
    };
    let mut out = stem;
    out.append("_");
    out.append(string_of(&decimal_chars(idx)).as_str());
    match extension_of_path(file_name) {
        Some(e) => {
            out.append(".");
            out.append(e.as_str());
        },
        None => {},
    }
    out
}

/// A trimmed new name for a rename, or nothing when it is blank.
pub fn clean_new_name(new_name: &str) -> (r: Option<String>)
    ensures
        trim_ws(new_name@).len() == 0 ==> r is None,
        trim_ws(new_name@).len() > 0 ==> (r matches Some(n) && n@ == trim_ws(new_name@)),
{
    let t = trim_chars(&chars_of(new_name));
    if t.len() == 0 {
        None
    } else {
        Some(string_of(&t))
    }
}

} // verus!

verus! {

// ── Legacy layout ────────────────────────────────────────────────────────────

/// A legacy `Content/` file moves to `chapters/` when it is Markdown and not
/// the foreshadow list `伏笔.md`.
pub open spec fn moves_to_chapters(p: Seq<char>) -> bool {
    path_extension(p) == Some("md"@) && path_file_name(p) != Some("伏笔.md"@)
}

/// Whether a legacy `Content/` file moves to `chapters/`.
pub fn is_legacy_chapter(path: &str) -> (r: bool)
    ensures
        r == moves_to_chapters(path@),
{
    if !has_extension_text(path, "md") {
        return false;
    }
    match file_name_of(path) {
        Some(n) => !str_eq_chars(&chars_of(n.as_str()), &chars_of("伏笔.md")),
        None => true,
    }
}

/// The legacy data files of `Design/` and the names they take in `data/`.
pub fn legacy_data_files() -> (r: &'static [(&'static str, &'static str)])
    ensures
        r@.len() == 4,
        r@[0].0@ == "世界对象.json"@ && r@[0].1@ == "world.json"@,
        r@[1].0@ == "章节结构.json"@ && r@[1].1@ == "structure.json"@,
        r@[2].0@ == "里程碑.json"@ && r@[2].1@ == "milestones.json"@,
        r@[3].0@ == "llm_history.json"@ && r@[3].1@ == "llm_history.json"@,
{
    &[
        ("世界对象.json", "world.json"),
        ("章节结构.json", "structure.json"),
        ("里程碑.json", "milestones.json"),
        ("llm_history.json", "llm_history.json"),
    ]
}

// ── Templates ────────────────────────────────────────────────────────────────

/// The chapter files of the short-novel template (one flat folder).
pub fn short_template_chapters() -> (r: &'static [&'static str])
    ensures
        r@.len() == 5,
        r@[0]@ == "序章.md"@,
        r@[1]@ == "第一章.md"@,
        r@[2]@ == "第二章.md"@,
        r@[3]@ == "第三章.md"@,
        r@[4]@ == "尾声.md"@,
{
    &["序章.md", "第一章.md", "第二章.md", "第三章.md", "尾声.md"]
}

/// The volume folders of the long-novel template.
pub fn long_template_volumes() -> (r: &'static [&'static str])
    ensures
        r@.len() == 2,
        r@[0]@ == "第一卷"@,
        r@[1]@ == "第二卷"@,
{
    &["第一卷", "第二卷"]
}

/// The chapter files of volume `v` of the long-novel template.
pub fn long_template_chapters(v: usize) -> (r: &'static [&'static str])
    ensures
        v == 0 ==> r@.len() == 3 && r@[0]@ == "序章.md"@ && r@[1]@ == "第一章.md"@ && r@[2]@
            == "第二章.md"@,
        v != 0 ==> r@.len() == 3 && r@[0]@ == "第一章.md"@ && r@[1]@ == "第二章.md"@ && r@[2]@
            == "第三章.md"@,
{
    if v == 0 {
        &["序章.md", "第一章.md", "第二章.md"]
    } else {
        &["第一章.md", "第二章.md", "第三章.md"]
    }
}

/// What a new template chapter file holds: a level-one heading with the
/// file's stem, and a blank line.
pub open spec fn template_chapter_text(file_name: Seq<char>) -> Seq<char> {
    "# "@ + (match path_stem(file_name) {
        Some(s) => s,
        None => Seq::<char>::empty(),
    }) + "\n\n"@
}

/// The initial text of a template chapter file.
pub fn template_chapter_content(file_name: &str) -> (r: String)
    ensures
        r@ == template_chapter_text(file_name@),
{
    let mut out = String::from_str("# ");
    match file_name_of(file_name) {
        Some(n) => {
            out.append(stem_of_name(n.as_str()).as_str());
        },
        None => {},
    }
    out.append("\n\n");
    out
}

// ── Search ───────────────────────────────────────────────────────────────────

/// The lines of a text that contain `query`, each with its 1-based number.
pub open spec fn line_hits(lines: Seq<Seq<char>>, query: Seq<char>) -> Seq<(int, Seq<char>)>
    decreases lines.len(),
{
    if lines.len() == 0 {
        Seq::<(int, Seq<char>)>::empty()
    } else {
        let prev = line_hits(lines.drop_last(), query);
        if contains_seq(lines.last(), query) {
            prev.push((lines.len() as int, lines.last()))
        } else {
            prev
        }
    }
}

/// A search result as (file, line number, line).
pub open spec fn result_view(r: SearchResult) -> (Seq<char>, int, Seq<char>) {
    (r.file_path@, r.line_no as int, r.line@)
}

/// The search results as values.
pub open spec fn results_view(v: Seq<SearchResult>) -> Seq<(Seq<char>, int, Seq<char>)> {
    v.map_values(|r: SearchResult| result_view(r))
}

/// `q` appears somewhere in `l`, at some start position.
pub open spec fn appears_in(l: Seq<char>, q: Seq<char>) -> bool {
    exists|i: int| 0 <= i && i + q.len() <= l.len() && #[trigger] l.subrange(i, i + q.len()) == q
}

/// The hits of a sequence of lines are exactly the lines in which the query
/// appears, each with its 1-based line number, in line order.
pub proof fn lemma_line_hits_exact(lines: Seq<Seq<char>>, q: Seq<char>)
    ensures
        forall|k: int|
            0 <= k < lines.len() && appears_in(#[trigger] lines[k], q) ==> line_hits(
                lines,
                q,
            ).contains((k + 1, lines[k])),
        forall|j: int|
            0 <= j < line_hits(lines, q).len() ==> 1 <= (#[trigger] line_hits(lines, q)[j]).0
                <= lines.len() && line_hits(lines, q)[j].1 == lines[line_hits(lines, q)[j].0 - 1]
                && appears_in(line_hits(lines, q)[j].1, q),
        forall|j: int, m: int|
            0 <= j < m < line_hits(lines, q).len() ==> (#[trigger] line_hits(lines, q)[j]).0
                < (#[trigger] line_hits(lines, q)[m]).0,
    decreases lines.len(),
{
    if lines.len() > 0 {
        let init = lines.drop_last();
        let l = lines.last();
        let prev = line_hits(init, q);
        lemma_line_hits_exact(init, q);
        assert(contains_seq(l, q) == appears_in(l, q)) by {
            if contains_seq(l, q) {
                let i = choose|i: int| occurs_at(l, q, i);
                assert(l.subrange(i, i + q.len()) == q);
            }
            if appears_in(l, q) {
                let i = choose|i: int|
                    0 <= i && i + q.len() <= l.len() && #[trigger] l.subrange(i, i + q.len()) == q;
                assert(occurs_at(l, q, i));
            }
        }
        assert forall|k: int|
            0 <= k < lines.len() && appears_in(#[trigger] lines[k], q) implies line_hits(
            lines,
            q,
        ).contains((k + 1, lines[k])) by {
            if k < init.len() {
                assert(init[k] == lines[k]);
                let j = choose|j: int| 0 <= j < prev.len() && prev[j] == (k + 1, init[k]);
                if contains_seq(l, q) {
                    assert(line_hits(lines, q)[j] == prev[j]);
                }
            } else {
                assert(line_hits(lines, q) == prev.push((lines.len() as int, l)));
                assert(line_hits(lines, q)[prev.len() as int] == (k + 1, lines[k]));
            }
        }
        assert forall|j: int| 0 <= j < line_hits(lines, q).len() implies 1 <= (
        #[trigger] line_hits(lines, q)[j]).0 <= lines.len() && line_hits(lines, q)[j].1
            == lines[line_hits(lines, q)[j].0 - 1] && appears_in(line_hits(lines, q)[j].1, q) by {
            if j < prev.len() {
                assert(line_hits(lines, q)[j] == prev[j]);
                assert(init[prev[j].0 - 1] == lines[prev[j].0 - 1]);
            }
        }
        assert forall|j: int, m: int| 0 <= j < m < line_hits(lines, q).len() implies (
        #[trigger] line_hits(lines, q)[j]).0 < (#[trigger] line_hits(lines, q)[m]).0 by {
            assert(line_hits(lines, q)[j] == prev[j]);
            if m < prev.len() {
                assert(line_hits(lines, q)[m] == prev[m]);
            }
        }
    }
}

/// The hits of one file as search results.
pub open spec fn hits_in_file(file: Seq<char>, text: Seq<char>, query: Seq<char>) -> Seq<
    (Seq<char>, int, Seq<char>),
> {
    line_hits(lines_of(text), query).map_values(|h: (int, Seq<char>)| (file, h.0, h.1))
}

/// The search results of one file are exactly its lines in which the query
/// appears, each as (file, 1-based line number, line), in line order; so
/// `collect_line_hits` appends just these.
pub proof fn lemma_file_hits_exact(file: Seq<char>, text: Seq<char>, q: Seq<char>)
    ensures
        forall|k: int|
            0 <= k < lines_of(text).len() && appears_in(#[trigger] lines_of(text)[k], q)
                ==> hits_in_file(file, text, q).contains((file, k + 1, lines_of(text)[k])),
        forall|j: int|
            0 <= j < hits_in_file(file, text, q).len() ==> ({
                let h = #[trigger] hits_in_file(file, text, q)[j];
                &&& h.0 == file
                &&& 1 <= h.1 <= lines_of(text).len()
                &&& h.2 == lines_of(text)[h.1 - 1]
                &&& appears_in(h.2, q)
            }),
        forall|j: int, m: int|
            0 <= j < m < hits_in_file(file, text, q).len() ==> (#[trigger] hits_in_file(
                file,
                text,
                q,
            )[j]).1 < (#[trigger] hits_in_file(file, text, q)[m]).1,
{
    let lines = lines_of(text);
    let hs = line_hits(lines, q);
    lemma_line_hits_exact(lines, q);
    assert forall|k: int|
        0 <= k < lines.len() && appears_in(#[trigger] lines[k], q) implies hits_in_file(
        file,
        text,
        q,
    ).contains((file, k + 1, lines[k])) by {
        let j = choose|j: int| 0 <= j < hs.len() && hs[j] == (k + 1, lines[k]);
        assert(hits_in_file(file, text, q)[j] == (file, k + 1, lines[k]));
    }
    assert forall|j: int, m: int| 0 <= j < m < hits_in_file(file, text, q).len() implies (
    #[trigger] hits_in_file(file, text, q)[j]).1 < (#[trigger] hits_in_file(file, text, q)[m]).1 by {
        assert(hs[j].0 < hs[m].0);
    }
}

/// Whether `pat` occurs in `v`.
pub fn contains_chars(v: &Vec<char>, pat: &Vec<char>) -> (r: bool)
    ensures
        r == contains_seq(v@, pat@),
{
    if pat.len() > v.len() {
        assert(!contains_seq(v@, pat@)) by {
            if contains_seq(v@, pat@) {
                let i = choose|i: int| occurs_at(v@, pat@, i);
            }
        }
        return false;
    }
    let last = v.len() - pat.len();
    let mut i: usize = 0;
    while i < last
        invariant
            pat.len() <= v.len(),
            last == v.len() - pat.len(),
            i <= last,
            forall|j: int| 0 <= j < i ==> !occurs_at(v@, pat@, j),
        decreases last - i,
    {
        if occurs_at_exec(v, pat, i) {
            return true;
        }
        i += 1;
    }
    let r = occurs_at_exec(v, pat, last);
    assert(r == contains_seq(v@, pat@)) by {
        if contains_seq(v@, pat@) && !r {
            let j = choose|j: int| occurs_at(v@, pat@, j);
            assert(j < i);
        }
    }
    r
}

/// Append to `results` every line of `text` that contains `query`, with its
/// 1-based line number and the file it came from.
pub fn collect_line_hits(file_path: &str, text: &str, query: &str, results: &mut Vec<SearchResult>)
    ensures
        results_view(final(results)@) == results_view(old(results)@) + hits_in_file(
            file_path@,
            text@,
            query@,
        ),
{
    let lines = split_lines(&chars_of(text));
    let q = chars_of(query);
    let ghost ls = lines_of(text@);
    let ghost start = results_view(results@);
    let mut i: usize = 0;
    assert(ls.take(0) =~= Seq::<Seq<char>>::empty());
    assert(line_hits(ls.take(0), query@).map_values(
        |h: (int, Seq<char>)| (file_path@, h.0, h.1),
    ) =~= Seq::<(Seq<char>, int, Seq<char>)>::empty());
    assert(start + Seq::<(Seq<char>, int, Seq<char>)>::empty() =~= start);
    while i < lines.len()
        invariant
            i <= lines.len(),
            ls == lines_of(text@),
            q@ == query@,
            lines@.len() == ls.len(),
            forall|k: int| 0 <= k < lines@.len() ==> #[trigger] lines@[k]@ == ls[k],
            start == results_view(old(results)@),
            results_view(results@) == start + line_hits(ls.take(i as int), query@).map_values(
                |h: (int, Seq<char>)| (file_path@, h.0, h.1),
            ),
        decreases lines.len() - i,
    {
        let ghost prefix = ls.take(i + 1);
        assert(prefix.drop_last() =~= ls.take(i as int));
        assert(prefix.last() == lines@[i as int]@);
        let ghost before = results_view(results@);
        if contains_chars(&lines[i], &q) {
            results.push(
                SearchResult {
                    file_path: String::from_str(file_path),
                    line_no: i + 1,
                    line: string_of(&lines[i]),
                },
            );
            assert(results_view(results@) =~= before.push((file_path@, i + 1, ls[i as int])));
            assert(line_hits(prefix, query@) == line_hits(ls.take(i as int), query@).push(
                ((i + 1) as int, ls[i as int]),
            ));
            assert(line_hits(prefix, query@).map_values(
                |h: (int, Seq<char>)| (file_path@, h.0, h.1),
            ) =~= line_hits(ls.take(i as int), query@).map_values(
                |h: (int, Seq<char>)| (file_path@, h.0, h.1),
            ).push((file_path@, i + 1, ls[i as int])));
        }
        i += 1;
    }
    assert(ls.take(lines.len() as int) =~= ls);
}

} // verus!

verus! {

// ── Ordering of the tree ─────────────────────────────────────────────────────

/// `a` comes strictly before `b` in code point order (the order of `str`).
pub open spec fn text_lt(a: Seq<char>, b: Seq<char>) -> bool
    decreases a.len(),
{
    if a.len() == 0 {
        b.len() > 0
    } else if b.len() == 0 {
        false
    } else if a[0] != b[0] {
        (a[0] as int) < (b[0] as int)
    } else {
        text_lt(a.drop_first(), b.drop_first())
    }
}

/// The order of the file tree: directories first, then by name.
pub open spec fn tree_before(a: FileNode, b: FileNode) -> bool {
    (a.is_dir && !b.is_dir) || (a.is_dir == b.is_dir && text_lt(a.name@, b.name@))
}

/// No node comes after one that it should precede.
pub open spec fn tree_sorted(s: Seq<FileNode>) -> bool {
    forall|i: int, j: int| 0 <= i < j < s.len() ==> !tree_before(#[trigger] s[j], #[trigger] s[i])
}

/// The code point order is transitive.
pub proof fn lemma_text_lt_transitive(a: Seq<char>, b: Seq<char>, c: Seq<char>)
    requires
        text_lt(a, b),
        text_lt(b, c),
    ensures
        text_lt(a, c),
    decreases a.len(),
{
    if a.len() > 0 && b.len() > 0 && c.len() > 0 && a[0] == b[0] && b[0] == c[0] {
        lemma_text_lt_transitive(a.drop_first(), b.drop_first(), c.drop_first());
    }
}

/// No text comes before itself.
pub proof fn lemma_text_lt_irreflexive(a: Seq<char>)
    ensures
        !text_lt(a, a),
    decreases a.len(),
{
    if a.len() > 0 {
        lemma_text_lt_irreflexive(a.drop_first());
    }
}

/// The tree order is transitive.
pub proof fn lemma_tree_before_transitive(a: FileNode, b: FileNode, c: FileNode)
    requires
        tree_before(a, b),
        tree_before(b, c),
    ensures
        tree_before(a, c),
{
    if a.is_dir == b.is_dir && b.is_dir == c.is_dir {
        lemma_text_lt_transitive(a.name@, b.name@, c.name@);
    }
}

/// Whether `a` comes before `b` in code point order.
pub fn text_less(a: &str, b: &str) -> (r: bool)
    ensures
        r == text_lt(a@, b@),
{
    let x = chars_of(a);
    let y = chars_of(b);
    let mut i: usize = 0;
    assert(x@.skip(0) =~= x@);
    assert(y@.skip(0) =~= y@);
    while i < x.len() && i < y.len() && x[i] == y[i]
        invariant
            i <= x.len(),
            i <= y.len(),
            x@ == a@,
            y@ == b@,
            text_lt(a@, b@) == text_lt(x@.skip(i as int), y@.skip(i as int)),
        decreases x.len() - i,
    {
        assert(x@.skip(i as int).drop_first() =~= x@.skip(i + 1));
        assert(y@.skip(i as int).drop_first() =~= y@.skip(i + 1));
        i += 1;
    }
    if i == x.len() {
        i < y.len()
    } else if i == y.len() {
        false
    } else {
        x[i] < y[i]
    }
}

/// Whether `a` precedes `b` in the file tree.
pub fn tree_node_before(a: &FileNode, b: &FileNode) -> (r: bool)
    ensures
        r == tree_before(*a, *b),
{
    (a.is_dir && !b.is_dir) || (a.is_dir == b.is_dir && text_less(
        a.name.as_str(),
        b.name.as_str(),
    ))
}

proof fn lemma_insert_multiset(s: Seq<FileNode>, k: int, x: FileNode)
    requires
        0 <= k <= s.len(),
    ensures
        s.insert(k, x).to_multiset() =~= s.to_multiset().insert(x),
{
    broadcast use vstd::seq_lib::group_to_multiset_ensures;

    let t = s.insert(k, x);
    assert(t.remove(k) =~= s);
    assert(t[k] == x);
    assert(t.contains(x));
}

proof fn lemma_insert_sorted(s: Seq<FileNode>, k: int, x: FileNode)
    requires
        tree_sorted(s),
        0 <= k <= s.len(),
        forall|i: int| 0 <= i < k ==> !tree_before(x, #[trigger] s[i]),
        k < s.len() ==> tree_before(x, s[k]),
    ensures
        tree_sorted(s.insert(k, x)),
{
    let t = s.insert(k, x);
    assert forall|i: int, j: int| 0 <= i < j < t.len() implies !tree_before(
        #[trigger] t[j],
        #[trigger] t[i],
    ) by {
        if j == k {
            assert(t[i] == s[i]);
            assert(!tree_before(x, s[i]));
        } else if i == k {
            assert(t[j] == s[j - 1]);
            if tree_before(s[j - 1], x) {
                lemma_tree_before_transitive(s[j - 1], x, s[k]);
                if j - 1 > k {
                    assert(!tree_before(s[j - 1], s[k]));
                } else {
                    lemma_text_lt_irreflexive(x.name@);
                    lemma_text_lt_irreflexive(s[k].name@);
                }
            }
        } else if j < k {
            assert(t[i] == s[i]);
            assert(t[j] == s[j]);
            assert(!tree_before(s[j], s[i]));
        } else if i > k {
            assert(t[i] == s[i - 1]);
            assert(t[j] == s[j - 1]);
            assert(!tree_before(s[j - 1], s[i - 1]));
        } else {
            assert(t[i] == s[i]);
            assert(t[j] == s[j - 1]);
            assert(!tree_before(s[j - 1], s[i]));
        }
    }
}

/// Where a node goes into a sorted list: before the first node it precedes,
/// after every node it does not precede.
pub open spec fn insert_position(s: Seq<FileNode>, x: FileNode) -> int
    decreases s.len(),
{
    if s.len() == 0 {
        0
    } else if tree_before(x, s[0]) {
        0
    } else {
        1 + insert_position(s.drop_first(), x)
    }
}

/// The stable sort of a folder's nodes: each node in turn, from the first,
/// inserted into the sorted list of the nodes before it.
pub open spec fn stable_sorted(s: Seq<FileNode>) -> Seq<FileNode>
    decreases s.len(),
{
    if s.len() == 0 {
        s
    } else {
        let t = stable_sorted(s.drop_last());
        t.insert(insert_position(t, s.last()), s.last())
    }
}

proof fn lemma_insert_position(s: Seq<FileNode>, x: FileNode, k: int)
    requires
        0 <= k <= s.len(),
        forall|i: int| 0 <= i < k ==> !tree_before(x, #[trigger] s[i]),
        k < s.len() ==> tree_before(x, s[k]),
    ensures
        insert_position(s, x) == k,
    decreases s.len(),
{
    if s.len() > 0 && k > 0 {
        assert(!tree_before(x, s[0]));
        assert forall|i: int| 0 <= i < k - 1 implies !tree_before(x, #[trigger] s.drop_first()[i]) by {
            assert(s.drop_first()[i] == s[i + 1]);
        }
        if k - 1 < s.len() - 1 {
            assert(s.drop_first()[k - 1] == s[k]);
        }
        lemma_insert_position(s.drop_first(), x, k - 1);
    }
}

/// Sort the nodes of one folder: directories first, then by name; nodes
/// that neither precedes keep their order.
pub fn sort_file_nodes(nodes: &mut Vec<FileNode>)
    ensures
        final(nodes)@ == stable_sorted(old(nodes)@),
        final(nodes)@.to_multiset() =~= old(nodes)@.to_multiset(),
        tree_sorted(final(nodes)@),
{
    broadcast use vstd::seq_lib::group_to_multiset_ensures;

    let ghost all = nodes@.to_multiset();
    let ghost orig = nodes@;
    let mut sorted: Vec<FileNode> = Vec::new();
    assert(orig.take(0) =~= Seq::<FileNode>::empty());
    assert(orig.skip(0) =~= orig);
    while nodes.len() > 0
        invariant
            sorted@.to_multiset().add(nodes@.to_multiset()) =~= all,
            tree_sorted(sorted@),
            sorted@.len() + nodes@.len() == orig.len(),
            sorted@ == stable_sorted(orig.take(sorted@.len() as int)),
            nodes@ == orig.skip(sorted@.len() as int),
        decreases nodes.len(),
    {
        let ghost before_nodes = nodes@;
        let ghost done = sorted@.len() as int;
        let x = nodes.remove(0);
        assert(before_nodes.remove(0) =~= nodes@);
        assert(x == orig[done]);
        assert(nodes@ =~= orig.skip(done + 1));
        let mut k: usize = 0;
        loop
            invariant
                k <= sorted.len(),
                forall|i: int| 0 <= i < k ==> !tree_before(x, #[trigger] sorted@[i]),
            ensures
                k <= sorted.len(),
                forall|i: int| 0 <= i < k ==> !tree_before(x, #[trigger] sorted@[i]),
                k < sorted.len() ==> tree_before(x, sorted@[k as int]),
            decreases sorted.len() - k,
        {
            if k >= sorted.len() {
                break;
            }
            if tree_node_before(&x, &sorted[k]) {
                break;
            }
            k += 1;
        }
        let ghost old_sorted = sorted@;
        proof {
            lemma_insert_multiset(old_sorted, k as int, x);
            assert(before_nodes.contains(x)) by {
                assert(before_nodes[0] == x);
            }
        }
        sorted.insert(k, x);
        assert(sorted@ =~= old_sorted.insert(k as int, x));
        proof {
            before_nodes.to_multiset_ensures();
        }
        assert(before_nodes.to_multiset().count(x) > 0);
        assert(nodes@.to_multiset() =~= before_nodes.to_multiset().remove(x));
        assert(sorted@.to_multiset() =~= old_sorted.to_multiset().insert(x));
        proof {
            lemma_insert_sorted(old_sorted, k as int, x);
            lemma_insert_position(old_sorted, x, k as int);
            assert(orig.take(done + 1).drop_last() =~= orig.take(done));
            assert(orig.take(done + 1).last() == x);
        }
    }
    assert(orig.take(orig.len() as int) =~= orig);
    *nodes = sorted;
}


/// Two different names are always ordered one way or the other.
pub proof fn lemma_text_lt_total(a: Seq<char>, b: Seq<char>)
    requires
        a != b,
    ensures
        text_lt(a, b) || text_lt(b, a),
    decreases a.len(),
{
    if a.len() > 0 && b.len() > 0 && a[0] == b[0] {
        if a.drop_first() == b.drop_first() {
            assert(a =~= seq![a[0]] + a.drop_first());
            assert(b =~= seq![b[0]] + b.drop_first());
        }
        lemma_text_lt_total(a.drop_first(), b.drop_first());
    } else if a.len() == 0 && b.len() == 0 {
        assert(a =~= b);
    }
}

/// Sorting a folder that is already in order changes nothing.
pub proof fn lemma_sorted_stays(s: Seq<FileNode>)
    requires
        tree_sorted(s),
    ensures
        stable_sorted(s) == s,
    decreases s.len(),
{
    if s.len() > 0 {
        let p = s.drop_last();
        assert(tree_sorted(p)) by {
            assert forall|i: int, j: int| 0 <= i < j < p.len() implies !tree_before(
                #[trigger] p[j],
                #[trigger] p[i],
            ) by {
                assert(p[i] == s[i] && p[j] == s[j]);
            }
        }
        lemma_sorted_stays(p);
        assert forall|i: int| 0 <= i < p.len() implies !tree_before(s.last(), #[trigger] p[i]) by {
            assert(p[i] == s[i]);
            assert(!tree_before(s[s.len() - 1], s[i]));
        }
        lemma_insert_position(p, s.last(), p.len() as int);
        assert(p.insert(p.len() as int, s.last()) =~= s);
    }
}

// ── Merged export ────────────────────────────────────────────────────────────

/// The heading line put before a chapter in a merged export: `# ── name ──`
/// and a blank line.
pub open spec fn chapter_heading(name: Seq<char>) -> Seq<char> {
    seq!['#', ' ', '─', '─', ' '] + name + seq![' ', '─', '─', '\n', '\n']
}

/// One chapter of a merged export: its heading when `headed`, its text, and a
/// blank line.
pub open spec fn chapter_block(name: Seq<char>, text: Seq<char>, headed: bool) -> Seq<char> {
    (if headed {
        chapter_heading(name)
    } else {
        Seq::empty()
    }) + text + seq!['\n', '\n']
}

/// The chapters `(file name, text)` merged in order.
pub open spec fn merged_chapters(cs: Seq<(Seq<char>, Seq<char>)>, headed: bool) -> Seq<char>
    decreases cs.len(),
{
    if cs.len() == 0 {
        Seq::empty()
    } else {
        merged_chapters(cs.drop_last(), headed) + chapter_block(cs.last().0, cs.last().1, headed)
    }
}

/// The values of a list of `(file name, text)` pairs.
pub open spec fn chapter_views(cs: Seq<(String, String)>) -> Seq<(Seq<char>, Seq<char>)> {
    cs.map_values(|p: (String, String)| (p.0@, p.1@))
}

/// Merge chapters for export, in the given order: for each, when `headed`, a
/// heading `# ── name ──` and a blank line, then its text, then a blank line.
pub fn merge_chapters(chapters: &[(String, String)], headed: bool) -> (r: String)
    ensures
        r@ == merged_chapters(chapter_views(chapters@), headed),
{
    let mut out: Vec<char> = Vec::new();
    for i in 0..chapters.len()
        invariant
            out@ == merged_chapters(chapter_views(chapters@.take(i as int)), headed),
    {
        let ghost before = out@;
        if headed {
            out.push('#');
            out.push(' ');
            out.push('─');
            out.push('─');
            out.push(' ');
            let name = chars_of(chapters[i].0.as_str());
            extend_chars(&mut out, &name);
            out.push(' ');
            out.push('─');
            out.push('─');
            out.push('\n');
            out.push('\n');
        }
        let text = chars_of(chapters[i].1.as_str());
        extend_chars(&mut out, &text);
        out.push('\n');
        out.push('\n');
        proof {
            let cs = chapter_views(chapters@.take(i + 1));
            assert(cs.drop_last() =~= chapter_views(chapters@.take(i as int)));
            assert(cs.last() == (chapters@[i as int].0@, chapters@[i as int].1@));
            assert(out@ =~= before + chapter_block(
                chapters@[i as int].0@,
                chapters@[i as int].1@,
                headed,
            ));
        }
    }
    assert(chapters@.take(chapters@.len() as int) =~= chapters@);
    string_of(&out)
}

} // verus!
