//! Filesystem browser: depth-bounded directory-tree listing for display.
//!
//! The caller walks the disk and hands in a `RawEntry` tree of plain values
//! — names, paths, directory flags, a probe of each file's leading bytes,
//! and the children it could read (a read failure yields no children, which
//! comes out exactly as a childless directory does). Everything observable
//! about the listing is decided here: which entries are kept, what language
//! tag a file gets, how deep the listing goes, and the order of every level.

use vstd::prelude::*;
use vstd::string::StrSliceExecFns;

use crate::text::ci_lt;
use crate::text::contains_seq;
use crate::text::contains_str;
use crate::text::ends_with_str;
use crate::text::fold_eq;
use crate::text::has_suffix;
use crate::text::str_eq;
use crate::text::str_eq_fold;

verus! {

/// How many leading bytes of a file the minified-content probe looks at.
pub const HEAD_PROBE_LEN: usize = 500;

/// The depth bound a listing uses when the caller names none.
pub const DEFAULT_TREE_DEPTH: usize = 5;

/// A directory entry as the caller observed it on disk: for a file, `head`
/// holds up to `HEAD_PROBE_LEN` of its leading bytes and `children` is
/// empty; for a directory, `head` is empty and `children` holds what a read
/// of it returned (nothing on a read failure).
pub struct RawEntry {
    pub name: String,
    pub path: String,
    pub is_directory: bool,
    pub head: Vec<u8>,
    pub children: Vec<RawEntry>,
}

/// A node of the finished listing. `language` is set for files only;
/// `children` is absent for files and for directories that contributed no
/// child — never present and empty.
#[derive(Debug)]
pub struct FileNode {
    pub name: String,
    pub path: String,
    pub is_directory: bool,
    pub language: Option<String>,
    pub children: Option<Vec<FileNode>>,
}

/// An entry of a flat directory listing with sizes: `size` is present for
/// plain files only.
#[derive(Debug)]
pub struct FileInfo {
    pub name: String,
    pub path: String,
    pub is_directory: bool,
    pub size: Option<u64>,
}

/// The mathematical shape of a raw entry.
pub ghost struct EntryView {
    pub name: Seq<char>,
    pub path: Seq<char>,
    pub is_directory: bool,
    pub head: Seq<u8>,
    pub children: Seq<EntryView>,
}

/// The mathematical shape of a listing node.
pub ghost struct NodeView {
    pub name: Seq<char>,
    pub path: Seq<char>,
    pub is_directory: bool,
    pub language: Option<Seq<char>>,
    pub children: Option<Seq<NodeView>>,
}

/// The view of one raw entry.
pub open spec fn entry_view(e: RawEntry) -> EntryView
    decreases e,
{
    EntryView {
        name: e.name@,
        path: e.path@,
        is_directory: e.is_directory,
        head: e.head@,
        children: entry_views(e.children@),
    }
}

/// The views of a sequence of raw entries.
pub open spec fn entry_views(s: Seq<RawEntry>) -> Seq<EntryView>
    decreases s,
{
    if s.len() == 0 {
        Seq::empty()
    } else {
        entry_views(s.drop_last()).push(entry_view(s.last()))
    }
}

/// The view of one listing node.
pub open spec fn node_view(n: FileNode) -> NodeView
    decreases n,
{
    NodeView {
        name: n.name@,
        path: n.path@,
        is_directory: n.is_directory,
        language: match n.language {
            Some(l) => Some(l@),
            None => None,
        },
        children: match n.children {
            Some(c) => Some(node_views(c@)),
            None => None,
        },
    }
}

/// The views of a sequence of listing nodes.
pub open spec fn node_views(s: Seq<FileNode>) -> Seq<NodeView>
    decreases s,
{
    if s.len() == 0 {
        Seq::empty()
    } else {
        node_views(s.drop_last()).push(node_view(s.last()))
    }
}

/// Entry views line up with the entries, index by index.
pub proof fn lemma_entry_views_index(s: Seq<RawEntry>)
    ensures
        entry_views(s).len() == s.len(),
        forall|i: int| 0 <= i < s.len() ==> #[trigger] entry_views(s)[i] == entry_view(s[i]),
        forall|i: int| 0 <= i < s.len() ==> entry_views(s)[i] == entry_view(#[trigger] s[i]),
    decreases s.len(),
{
    if s.len() > 0 {
        lemma_entry_views_index(s.drop_last());
        assert(forall|i: int|
            0 <= i < s.len() - 1 ==> s.drop_last()[i] == #[trigger] s[i]);
    }
}

/// Node views line up with the nodes, index by index.
pub proof fn lemma_node_views_index(s: Seq<FileNode>)
    ensures
        node_views(s).len() == s.len(),
        forall|i: int| 0 <= i < s.len() ==> #[trigger] node_views(s)[i] == node_view(s[i]),
        forall|i: int| 0 <= i < s.len() ==> node_views(s)[i] == node_view(#[trigger] s[i]),
    decreases s.len(),
{
    if s.len() > 0 {
        lemma_node_views_index(s.drop_last());
        assert(forall|i: int|
            0 <= i < s.len() - 1 ==> s.drop_last()[i] == #[trigger] s[i]);
    }
}

/// A name the listing ignores: it contains one of the fixed build, version
/// control and dependency directory substrings.
pub open spec fn denylisted(name: Seq<char>) -> bool {
    ||| contains_seq(name, "node_modules"@)
    ||| contains_seq(name, ".git"@)
    ||| contains_seq(name, ".next"@)
    ||| contains_seq(name, ".vscode"@)
    ||| contains_seq(name, "dist"@)
    ||| contains_seq(name, "build"@)
    ||| contains_seq(name, "target"@)
    ||| contains_seq(name, ".DS_Store"@)
    ||| contains_seq(name, "vendor"@)
    ||| contains_seq(name, ".idea"@)
    ||| contains_seq(name, "__pycache__"@)
    ||| contains_seq(name, ".cache"@)
    ||| contains_seq(name, "coverage"@)
    ||| contains_seq(name, ".env"@)
    ||| contains_seq(name, ".venv"@)
    ||| contains_seq(name, "venv"@)
    ||| contains_seq(name, "out"@)
    ||| contains_seq(name, ".output"@)
    ||| contains_seq(name, ".nuxt"@)
    ||| contains_seq(name, ".vercel"@)
    ||| contains_seq(name, ".netlify"@)
    ||| contains_seq(name, ".turbo"@)
    ||| contains_seq(name, ".parcel-cache"@)
}

/// Whether a name is on the ignore list.
pub fn name_is_denylisted(name: &str) -> (r: bool)
    ensures
        r == denylisted(name@),
{
    ||| contains_str(name, "node_modules")
    ||| contains_str(name, ".git")
    ||| contains_str(name, ".next")
    ||| contains_str(name, ".vscode")
    ||| contains_str(name, "dist")
    ||| contains_str(name, "build")
    ||| contains_str(name, "target")
    ||| contains_str(name, ".DS_Store")
    ||| contains_str(name, "vendor")
    ||| contains_str(name, ".idea")
    ||| contains_str(name, "__pycache__")
    ||| contains_str(name, ".cache")
    ||| contains_str(name, "coverage")
    ||| contains_str(name, ".env")
    ||| contains_str(name, ".venv")
    ||| contains_str(name, "venv")
    ||| contains_str(name, "out")
    ||| contains_str(name, ".output")
    ||| contains_str(name, ".nuxt")
    ||| contains_str(name, ".vercel")
    ||| contains_str(name, ".netlify")
    ||| contains_str(name, ".turbo")
    ||| contains_str(name, ".parcel-cache")
}

/// A hidden name: it starts with a dot and is neither of the two path
/// self- and parent-references.
pub open spec fn hidden_name(name: Seq<char>) -> bool {
    name.len() > 0 && name[0] == '.' && name != "."@ && name != ".."@
}

/// Whether a name is hidden.
pub fn name_is_hidden(name: &str) -> (r: bool)
    ensures
        r == hidden_name(name@),
{
    if name.unicode_len() == 0 {
        return false;
    }
    if name.get_char(0) != '.' {
        return false;
    }
    !str_eq(name, ".") && !str_eq(name, "..")
}

/// The characters after the last dot of a name, if the name has a dot.
pub open spec fn after_last_dot(name: Seq<char>) -> Option<Seq<char>>
    decreases name.len(),
{
    if name.len() == 0 {
        None
    } else if name.last() == '.' {
        Some(Seq::empty())
    } else {
        match after_last_dot(name.drop_last()) {
            Some(e) => Some(e.push(name.last())),
            None => None,
        }
    }
}

/// The key language detection matches on: the characters after the last
/// dot, or the whole name when there is no dot.
pub open spec fn lang_key(name: Seq<char>) -> Seq<char> {
    match after_last_dot(name) {
        Some(e) => e,
        None => name,
    }
}

proof fn lemma_after_last_dot_found(name: Seq<char>, k: int)
    requires
        0 <= k < name.len(),
        name[k] == '.',
        forall|j: int| k < j < name.len() ==> name[j] != '.',
    ensures
        after_last_dot(name) == Some(name.subrange(k + 1, name.len() as int)),
    decreases name.len(),
{
    if k == name.len() - 1 {
        assert(name.subrange(k + 1, name.len() as int) =~= Seq::empty());
    } else {
        assert(name.last() != '.');
        assert(forall|j: int|
            k < j < name.drop_last().len() ==> #[trigger] name.drop_last()[j] != '.');
        lemma_after_last_dot_found(name.drop_last(), k);
        assert(name.drop_last().subrange(k + 1, name.len() - 1).push(name.last()) =~= name.subrange(
            k + 1,
            name.len() as int,
        ));
    }
}

proof fn lemma_after_last_dot_none(name: Seq<char>)
    requires
        forall|j: int| 0 <= j < name.len() ==> name[j] != '.',
    ensures
        after_last_dot(name) is None,
    decreases name.len(),
{
    if name.len() > 0 {
        assert(forall|j: int|
            0 <= j < name.drop_last().len() ==> #[trigger] name.drop_last()[j] != '.');
        lemma_after_last_dot_none(name.drop_last());
    }
}

/// The extension of a name: what follows its last dot.
pub fn extension_of(name: &str) -> (r: Option<String>)
    ensures
        match after_last_dot(name@) {
            Some(e) => r matches Some(s) && s@ == e,
            None => r is None,
        },
{
    let n = name.unicode_len();
    let mut i: usize = n;
    while i > 0
        invariant
            0 <= i <= n,
            n == name@.len(),
            forall|j: int| i <= j < n ==> name@[j] != '.',
        decreases i,
    {
        if name.get_char(i - 1) == '.' {
            let ext = name.substring_char(i, n);
            proof {
                lemma_after_last_dot_found(name@, i - 1);
            }
            return Some(ext.to_owned());
        }
        i = i - 1;
    }
    proof {
        lemma_after_last_dot_none(name@);
    }
    None
}

/// How many line-break bytes a probe holds.
pub open spec fn newline_count(s: Seq<u8>) -> nat
    decreases s.len(),
{
    if s.len() == 0 {
        0
    } else {
        newline_count(s.drop_last()) + if s.last() == 10u8 {
            1nat
        } else {
            0nat
        }
    }
}

/// The language tag for a file name, matched case-insensitively on what
/// follows its last dot (or on the whole name when it has no dot); every
/// unrecognized key gets the generic text tag, never an error.
pub open spec fn language_of(name: Seq<char>) -> Seq<char> {
    let e = lang_key(name);
    if fold_eq(e, "rs"@) {
        "rust"@
    } else if fold_eq(e, "js"@) {
        "javascript"@
    } else if fold_eq(e, "jsx"@) {
        "jsx"@
    } else if fold_eq(e, "ts"@) {
        "typescript"@
    } else if fold_eq(e, "tsx"@) {
        "tsx"@
    } else if fold_eq(e, "py"@) {
        "python"@
    } else if fold_eq(e, "php"@) {
        "php"@
    } else if fold_eq(e, "java"@) {
        "java"@
    } else if fold_eq(e, "c"@) {
        "c"@
    } else if fold_eq(e, "cpp"@) || fold_eq(e, "cc"@) || fold_eq(e, "cxx"@) {
        "cpp"@
    } else if fold_eq(e, "h"@) || fold_eq(e, "hpp"@) {
        "cpp"@
    } else if fold_eq(e, "cs"@) {
        "csharp"@
    } else if fold_eq(e, "go"@) {
        "go"@
    } else if fold_eq(e, "rb"@) {
        "ruby"@
    } else if fold_eq(e, "swift"@) {
        "swift"@
    } else if fold_eq(e, "kt"@) {
        "kotlin"@
    } else if fold_eq(e, "html"@) {
        "html"@
    } else if fold_eq(e, "css"@) {
        "css"@
    } else if fold_eq(e, "scss"@) || fold_eq(e, "sass"@) {
        "scss"@
    } else if fold_eq(e, "json"@) {
        "json"@
    } else if fold_eq(e, "xml"@) {
        "xml"@
    } else if fold_eq(e, "yaml"@) || fold_eq(e, "yml"@) {
        "yaml"@
    } else if fold_eq(e, "md"@) || fold_eq(e, "markdown"@) {
        "markdown"@
    } else if fold_eq(e, "sql"@) {
        "sql"@
    } else if fold_eq(e, "sh"@) || fold_eq(e, "bash"@) {
        "bash"@
    } else if fold_eq(e, "dockerfile"@) {
        "dockerfile"@
    } else if fold_eq(e, "toml"@) {
        "toml"@
    } else if fold_eq(e, "vue"@) {
        "vue"@
    } else if fold_eq(e, "svelte"@) {
        "svelte"@
    } else {
        "text"@
    }
}

/// The language tag inferred from a file name.
pub fn detect_language(filename: &str) -> (r: Option<String>)
    ensures
        r matches Some(l) && l@ == language_of(filename@),
{
    let owned_key: String = match extension_of(filename) {
        Some(e) => e,
        None => filename.to_owned(),
    };
    let e = owned_key.as_str();
    let tag: &'static str = if str_eq_fold(e, "rs") {
        "rust"
    } else if str_eq_fold(e, "js") {
        "javascript"
    } else if str_eq_fold(e, "jsx") {
        "jsx"
    } else if str_eq_fold(e, "ts") {
        "typescript"
    } else if str_eq_fold(e, "tsx") {
        "tsx"
    } else if str_eq_fold(e, "py") {
        "python"
    } else if str_eq_fold(e, "php") {
        "php"
    } else if str_eq_fold(e, "java") {
        "java"
    } else if str_eq_fold(e, "c") {
        "c"
    } else if str_eq_fold(e, "cpp") || str_eq_fold(e, "cc") || str_eq_fold(e, "cxx") {
        "cpp"
    } else if str_eq_fold(e, "h") || str_eq_fold(e, "hpp") {
        "cpp"
    } else if str_eq_fold(e, "cs") {
        "csharp"
    } else if str_eq_fold(e, "go") {
        "go"
    } else if str_eq_fold(e, "rb") {
        "ruby"
    } else if str_eq_fold(e, "swift") {
        "swift"
    } else if str_eq_fold(e, "kt") {
        "kotlin"
    } else if str_eq_fold(e, "html") {
        "html"
    } else if str_eq_fold(e, "css") {
        "css"
    } else if str_eq_fold(e, "scss") || str_eq_fold(e, "sass") {
        "scss"
    } else if str_eq_fold(e, "json") {
        "json"
    } else if str_eq_fold(e, "xml") {
        "xml"
    } else if str_eq_fold(e, "yaml") || str_eq_fold(e, "yml") {
        "yaml"
    } else if str_eq_fold(e, "md") || str_eq_fold(e, "markdown") {
        "markdown"
    } else if str_eq_fold(e, "sql") {
        "sql"
    } else if str_eq_fold(e, "sh") || str_eq_fold(e, "bash") {
        "bash"
    } else if str_eq_fold(e, "dockerfile") {
        "dockerfile"
    } else if str_eq_fold(e, "toml") {
        "toml"
    } else if str_eq_fold(e, "vue") {
        "vue"
    } else if str_eq_fold(e, "svelte") {
        "svelte"
    } else {
        "text"
    };
    Some(tag.to_owned())
}

/// A name that declares minification outright.
pub open spec fn minified_name(name: Seq<char>) -> bool {
    has_suffix(name, ".min.js"@) || has_suffix(name, ".min.css"@)
}

/// The content heuristic for script files: a non-trivial probe of leading
/// bytes with fewer than three line breaks signals generated or compressed
/// content.
pub open spec fn minified_script_head(name: Seq<char>, head: Seq<u8>) -> bool {
    &&& (match after_last_dot(name) {
        Some(e) => e == "js"@ || e == "jsx"@,
        None => false,
    })
    &&& head.len() > 100
    &&& newline_count(head) < 3
}

/// A file the listing treats as minified: by name, or by the content
/// heuristic for script extensions.
pub open spec fn spec_minified(name: Seq<char>, head: Seq<u8>) -> bool {
    minified_name(name) || minified_script_head(name, head)
}

/// Whether a file is treated as minified, from its name and the probe of
/// its leading bytes.
pub fn is_minified(name: &str, head: &Vec<u8>) -> (r: bool)
    ensures
        r == spec_minified(name@, head@),
{
    if ends_with_str(name, ".min.js") || ends_with_str(name, ".min.css") {
        return true;
    }
    let ext = extension_of(name);
    let is_script = match &ext {
        Some(e) => str_eq(e.as_str(), "js") || str_eq(e.as_str(), "jsx"),
        None => false,
    };
    if !is_script {
        return false;
    }
    if head.len() <= 100 {
        return false;
    }
    let mut count: u64 = 0;
    let mut i: usize = 0;
    let n = head.len();
    while i < n
        invariant
            0 <= i <= n,
            n == head@.len(),
            count == newline_count(head@.take(i as int)),
            count <= i,
        decreases n - i,
    {
        proof {
            assert(head@.take(i as int + 1).drop_last() =~= head@.take(i as int));
        }
        if head[i] == 10u8 {
            count = count + 1;
        }
        i = i + 1;
    }
    proof {
        assert(head@.take(n as int) =~= head@);
    }
    count < 3
}

/// An entry the listing keeps: not on the ignore list, not hidden, and —
/// for files — not minified.
pub open spec fn spec_keep(e: EntryView) -> bool {
    &&& !denylisted(e.name)
    &&& !hidden_name(e.name)
    &&& (e.is_directory || !spec_minified(e.name, e.head))
}

fn keep_entry(e: &RawEntry) -> (r: bool)
    ensures
        r == spec_keep(entry_view(*e)),
{
    &&& !name_is_denylisted(e.name.as_str())
    &&& !name_is_hidden(e.name.as_str())
    &&& (e.is_directory || !is_minified(e.name.as_str(), &e.head))
}

/// The listing order: directories strictly before files, and within one
/// kind the case-insensitive order of names.
pub open spec fn node_lt(a: NodeView, b: NodeView) -> bool {
    ||| (a.is_directory && !b.is_directory)
    ||| (a.is_directory == b.is_directory && ci_lt(a.name, b.name))
}

fn node_lt_exec(a: &FileNode, b: &FileNode) -> (r: bool)
    ensures
        r == node_lt(node_view(*a), node_view(*b)),
{
    if a.is_directory && !b.is_directory {
        true
    } else if a.is_directory == b.is_directory {
        crate::text::str_lt_fold(a.name.as_str(), b.name.as_str())
    } else {
        false
    }
}

/// Stable insertion: `x` goes after every element it is not strictly
/// before, so elements the order ties keep their relative positions.
pub open spec fn insert_node(s: Seq<NodeView>, x: NodeView) -> Seq<NodeView>
    decreases s.len(),
{
    if s.len() == 0 {
        seq![x]
    } else if node_lt(x, s.last()) {
        insert_node(s.drop_last(), x).push(s.last())
    } else {
        s.push(x)
    }
}

/// The stable sort of one level, as repeated stable insertion.
pub open spec fn sort_nodes(s: Seq<NodeView>) -> Seq<NodeView>
    decreases s.len(),
{
    if s.len() == 0 {
        Seq::empty()
    } else {
        insert_node(sort_nodes(s.drop_last()), s.last())
    }
}

/// One level of the finished listing: the kept entries, converted, in
/// sorted order.
pub open spec fn walk(entries: Seq<EntryView>, depth_left: nat) -> Seq<NodeView>
    decreases entries, 1int,
{
    sort_nodes(build_level(entries, depth_left))
}

/// The kept entries of one level, converted, still in input order; empty
/// when the depth budget is spent.
pub open spec fn build_level(entries: Seq<EntryView>, depth_left: nat) -> Seq<NodeView>
    decreases entries, 0int,
{
    if depth_left == 0 || entries.len() == 0 {
        Seq::empty()
    } else {
        let rest = build_level(entries.drop_last(), depth_left);
        if spec_keep(entries.last()) {
            rest.push(convert_entry(entries.last(), depth_left))
        } else {
            rest
        }
    }
}

/// One kept entry as a listing node: files get their language tag,
/// directories get their recursively built children — absent rather than
/// empty when nothing below them survived.
pub open spec fn convert_entry(e: EntryView, depth_left: nat) -> NodeView
    decreases e, 2int,
{
    NodeView {
        name: e.name,
        path: e.path,
        is_directory: e.is_directory,
        language: if e.is_directory {
            None
        } else {
            Some(language_of(e.name))
        },
        children: if e.is_directory {
            let c = walk(e.children, (depth_left - 1) as nat);
            if c.len() == 0 {
                None
            } else {
                Some(c)
            }
        } else {
            None
        },
    }
}

/// Inserting an element that is strictly before every element from
/// position `i` on touches only the prefix.
proof fn lemma_insert_split(s: Seq<NodeView>, x: NodeView, i: int)
    requires
        0 <= i <= s.len(),
        forall|j: int| i <= j < s.len() ==> node_lt(x, #[trigger] s[j]),
    ensures
        insert_node(s, x) == insert_node(s.take(i), x) + s.skip(i),
    decreases s.len() - i,
{
    if i == s.len() {
        assert(s.take(i) =~= s);
        assert(s.skip(i) =~= Seq::empty());
        assert(insert_node(s.take(i), x) + s.skip(i) =~= insert_node(s, x));
    } else {
        assert(node_lt(x, s.last()));
        let sdl = s.drop_last();
        assert(forall|j: int| i <= j < sdl.len() ==> node_lt(x, #[trigger] sdl[j]));
        lemma_insert_split(sdl, x, i);
        assert(sdl.take(i) =~= s.take(i));
        assert(sdl.skip(i).push(s.last()) =~= s.skip(i));
        assert((insert_node(s.take(i), x) + sdl.skip(i)).push(s.last()) =~= insert_node(
            s.take(i),
            x,
        ) + s.skip(i));
    }
}

/// Inserts a node into a level, keeping it sorted stably.
fn insert_sorted(nodes: &mut Vec<FileNode>, x: FileNode)
    ensures
        node_views(final(nodes)@) == insert_node(node_views(old(nodes)@), node_view(x)),
{
    let ghost s0 = node_views(old(nodes)@);
    proof {
        lemma_node_views_index(old(nodes)@);
    }
    let n = nodes.len();
    let mut i: usize = n;
    loop
        invariant_except_break
            0 <= i <= n,
            n == nodes@.len(),
            nodes@ == old(nodes)@,
            s0 == node_views(nodes@),
            s0.len() == n,
            forall|j: int| 0 <= j < n ==> s0[j] == node_view(#[trigger] nodes@[j]),
            forall|j: int| i <= j < n ==> node_lt(node_view(x), #[trigger] s0[j]),
        ensures
            0 <= i <= n,
            n == nodes@.len(),
            nodes@ == old(nodes)@,
            forall|j: int| i <= j < n ==> node_lt(node_view(x), #[trigger] s0[j]),
            i > 0 ==> !node_lt(node_view(x), s0[i - 1]),
        decreases i,
    {
        if i == 0 {
            break;
        }
        if !node_lt_exec(&x, &nodes[i - 1]) {
            break;
        }
        i = i - 1;
    }
    proof {
        lemma_insert_split(s0, node_view(x), i as int);
        if i == 0 {
            assert(s0.take(0) =~= Seq::empty());
            assert(insert_node(s0.take(0), node_view(x)) =~= Seq::empty().push(node_view(x)));
        } else {
            assert(s0.take(i as int).last() == s0[i - 1]);
            assert(s0.take(i as int).drop_last() =~= s0.take(i as int - 1));
        }
        assert(insert_node(s0.take(i as int), node_view(x)) == s0.take(i as int).push(
            node_view(x),
        ));
    }
    nodes.insert(i, x);
    proof {
        lemma_node_views_index(nodes@);
        old(nodes)@.insert_ensures(i as int, x);
        assert(node_views(nodes@) =~= s0.take(i as int).push(node_view(x)) + s0.skip(i as int));
    }
}

/// The depth-bounded listing of the caller's raw entries: exactly the walk
/// of their views.
pub fn build_tree(entries: &Vec<RawEntry>, max_depth: usize) -> (out: Vec<FileNode>)
    ensures
        node_views(out@) == walk(entry_views(entries@), max_depth as nat),
    decreases entries@,
{
    let mut out: Vec<FileNode> = Vec::new();
    if max_depth == 0 {
        proof {
            assert(node_views(out@) =~= walk(entry_views(entries@), 0));
        }
        return out;
    }
    let ghost evs = entry_views(entries@);
    proof {
        lemma_entry_views_index(entries@);
        assert(evs.take(0) =~= Seq::<EntryView>::empty());
        assert(node_views(out@) =~= sort_nodes(build_level(evs.take(0), max_depth as nat)));
    }
    let n = entries.len();
    let mut idx: usize = 0;
    while idx < n
        invariant
            0 <= idx <= n,
            n == entries@.len(),
            max_depth >= 1,
            evs == entry_views(entries@),
            evs.len() == n,
            forall|i: int| 0 <= i < n ==> evs[i] == entry_view(#[trigger] entries@[i]),
            node_views(out@) == sort_nodes(build_level(evs.take(idx as int), max_depth as nat)),
        decreases n - idx,
    {
        let e = &entries[idx];
        proof {
            assert(evs.take(idx as int + 1).drop_last() =~= evs.take(idx as int));
            assert(evs.take(idx as int + 1).last() == entry_view(*e));
        }
        if keep_entry(e) {
            let language = if e.is_directory {
                None
            } else {
                detect_language(e.name.as_str())
            };
            let children = if e.is_directory {
                proof {
                    assert(decreases_to!(entries@ => e.children@));
                }
                let kids = build_tree(&e.children, max_depth - 1);
                proof {
                    lemma_node_views_index(kids@);
                }
                if kids.len() == 0 {
                    None
                } else {
                    Some(kids)
                }
            } else {
                None
            };
            let node = FileNode {
                name: e.name.clone(),
                path: e.path.clone(),
                is_directory: e.is_directory,
                language,
                children,
            };
            proof {
                assert(node_view(node) == convert_entry(entry_view(*e), max_depth as nat));
                let prev = build_level(evs.take(idx as int), max_depth as nat);
                let c = convert_entry(entry_view(*e), max_depth as nat);
                assert(build_level(evs.take(idx as int + 1), max_depth as nat) == prev.push(c));
                assert(prev.push(c).drop_last() =~= prev);
                assert(sort_nodes(prev.push(c)) == insert_node(sort_nodes(prev), c));
            }
            insert_sorted(&mut out, node);
        } else {
            proof {
                assert(build_level(evs.take(idx as int + 1), max_depth as nat) == build_level(
                    evs.take(idx as int),
                    max_depth as nat,
                ));
            }
        }
        idx = idx + 1;
    }
    proof {
        assert(evs.take(n as int) =~= evs);
    }
    out
}

/// One entry of a flat directory listing: `size` reports the length of
/// plain files only.
pub fn file_entry_info(
    name: String,
    path: String,
    is_directory: bool,
    is_file: bool,
    len: u64,
) -> (r: FileInfo)
    ensures
        r.name == name,
        r.path == path,
        r.is_directory == is_directory,
        is_file ==> r.size == Some(len),
        !is_file ==> r.size is None,
{
    FileInfo {
        name,
        path,
        is_directory,
        size: if is_file {
            Some(len)
        } else {
            None
        },
    }
}

/// The screenshots directory of a project.
pub fn screenshots_dir(project: &str) -> (r: String)
    ensures
        r@ == project@ + "/screenshots"@,
{
    crate::text::concat2(project, "/screenshots")
}

/// A path the screenshot listing reports.
pub open spec fn is_screenshot(p: Seq<char>) -> bool {
    has_suffix(p, ".png"@) || has_suffix(p, ".jpg"@)
}

/// Whether a path names a screenshot image.
pub fn is_screenshot_path(p: &str) -> (r: bool)
    ensures
        r == is_screenshot(p@),
{
    ends_with_str(p, ".png") || ends_with_str(p, ".jpg")
}

/// The screenshot paths among a list of paths, kept in input order.
pub open spec fn screenshots_of(s: Seq<Seq<char>>) -> Seq<Seq<char>>
    decreases s.len(),
{
    if s.len() == 0 {
        Seq::empty()
    } else {
        let rest = screenshots_of(s.drop_last());
        if is_screenshot(s.last()) {
            rest.push(s.last())
        } else {
            rest
        }
    }
}

/// The screenshot paths among a directory's entries, in input order.
pub fn filter_screenshots(paths: &Vec<String>) -> (r: Vec<String>)
    ensures
        crate::text::str_views(r@) == screenshots_of(crate::text::str_views(paths@)),
{
    let ghost all = crate::text::str_views(paths@);
    let mut out: Vec<String> = Vec::new();
    proof {
        assert(all.take(0) =~= Seq::<Seq<char>>::empty());
        assert(crate::text::str_views(out@) =~= screenshots_of(all.take(0)));
    }
    let n = paths.len();
    let mut i: usize = 0;
    while i < n
        invariant
            0 <= i <= n,
            n == paths@.len(),
            all == crate::text::str_views(paths@),
            all.len() == n,
            crate::text::str_views(out@) == screenshots_of(all.take(i as int)),
        decreases n - i,
    {
        let p = &paths[i];
        proof {
            assert(all.take(i as int + 1).drop_last() =~= all.take(i as int));
            assert(all.take(i as int + 1).last() == p@);
        }
        if is_screenshot_path(p.as_str()) {
            out.push(p.clone());
            proof {
                assert(crate::text::str_views(out@) =~= screenshots_of(all.take(i as int)).push(
                    p@,
                ));
            }
        }
        i = i + 1;
    }
    proof {
        assert(all.take(n as int) =~= all);
    }
    out
}

/// A level in listing order: no later node is strictly before an earlier
/// one.
pub open spec fn level_sorted(s: Seq<NodeView>) -> bool {
    forall|i: int, j: int| 0 <= i < j < s.len() ==> !node_lt(#[trigger] s[j], #[trigger] s[i])
}

/// A listing sorted at every level.
pub open spec fn tree_sorted(nodes: Seq<NodeView>) -> bool
    decreases nodes,
{
    &&& level_sorted(nodes)
    &&& forall|i: int| 0 <= i < nodes.len() ==> children_sorted(#[trigger] nodes[i])
}

/// A node whose child levels are all sorted.
pub open spec fn children_sorted(n: NodeView) -> bool
    decreases n,
{
    match n.children {
        Some(c) => tree_sorted(c),
        None => true,
    }
}

/// A listing that reaches at most `d` levels deep.
pub open spec fn within_depth(nodes: Seq<NodeView>, d: nat) -> bool
    decreases nodes,
{
    forall|i: int| 0 <= i < nodes.len() ==> node_within(#[trigger] nodes[i], d)
}

/// A node standing on a level with `d` depth budget left.
pub open spec fn node_within(n: NodeView, d: nat) -> bool
    decreases n,
{
    &&& d >= 1
    &&& (match n.children {
        Some(c) => within_depth(c, (d - 1) as nat),
        None => true,
    })
}

/// A listing free of filtered entries, at every level.
pub open spec fn tree_clean(nodes: Seq<NodeView>) -> bool
    decreases nodes,
{
    forall|i: int| 0 <= i < nodes.len() ==> node_clean(#[trigger] nodes[i])
}

/// A node the filters would keep: its name contains no ignored substring,
/// it is not hidden, a file is not minified by name, and the same holds
/// below it.
pub open spec fn node_clean(n: NodeView) -> bool
    decreases n,
{
    &&& !denylisted(n.name)
    &&& !hidden_name(n.name)
    &&& (!n.is_directory ==> !minified_name(n.name))
    &&& (match n.children {
        Some(c) => tree_clean(c),
        None => true,
    })
}

proof fn lemma_node_lt_asymmetric(a: NodeView, b: NodeView)
    ensures
        !(node_lt(a, b) && node_lt(b, a)),
{
    crate::text::lemma_ci_lt_asymmetric(a.name, b.name);
}

proof fn lemma_node_tie(a: NodeView, b: NodeView)
    requires
        !node_lt(a, b),
        !node_lt(b, a),
    ensures
        a.is_directory == b.is_directory,
        fold_eq(a.name, b.name),
{
    crate::text::lemma_ci_lt_connected(a.name, b.name);
}

proof fn lemma_node_lt_congruent(a: NodeView, b: NodeView, b2: NodeView)
    requires
        b.is_directory == b2.is_directory,
        fold_eq(b.name, b2.name),
    ensures
        node_lt(a, b) == node_lt(a, b2),
        node_lt(b, a) == node_lt(b2, a),
{
    assert(fold_eq(a.name, a.name));
    crate::text::lemma_ci_lt_congruent(a.name, b.name, a.name, b2.name);
    crate::text::lemma_ci_lt_congruent(b.name, a.name, b2.name, a.name);
}

proof fn lemma_node_lt_transitive(a: NodeView, b: NodeView, c: NodeView)
    requires
        node_lt(a, b),
        node_lt(b, c),
    ensures
        node_lt(a, c),
{
    if a.is_directory == b.is_directory && b.is_directory == c.is_directory {
        crate::text::lemma_ci_lt_transitive(a.name, b.name, c.name);
    }
}

/// Where a stable insertion lands: the inserted node splits the sequence at
/// a point `p`, standing strictly before everything from `p` on and not
/// strictly before its left neighbour.
proof fn lemma_insert_node_shape(s: Seq<NodeView>, x: NodeView) -> (p: int)
    ensures
        0 <= p <= s.len(),
        insert_node(s, x) == s.take(p).push(x) + s.skip(p),
        forall|j: int| p <= j < s.len() ==> node_lt(x, #[trigger] s[j]),
        p > 0 ==> !node_lt(x, s[p - 1]),
    decreases s.len(),
{
    if s.len() == 0 {
        assert(s.take(0).push(x) + s.skip(0) =~= seq![x]);
        0
    } else if node_lt(x, s.last()) {
        let sdl = s.drop_last();
        let p = lemma_insert_node_shape(sdl, x);
        assert(sdl.take(p) =~= s.take(p));
        assert(forall|j: int| 0 <= j < sdl.len() ==> sdl[j] == #[trigger] s[j]);
        assert((s.take(p).push(x) + sdl.skip(p)).push(s.last()) =~= s.take(p).push(x) + s.skip(
            p,
        ));
        p
    } else {
        let p = s.len() as int;
        assert(s.take(p) =~= s);
        assert(s.skip(p) =~= Seq::<NodeView>::empty());
        assert(s.take(p).push(x) + s.skip(p) =~= s.push(x));
        p
    }
}

proof fn lemma_insert_preserves_sorted(s: Seq<NodeView>, x: NodeView)
    requires
        level_sorted(s),
    ensures
        level_sorted(insert_node(s, x)),
{
    let p = lemma_insert_node_shape(s, x);
    let t = insert_node(s, x);
    assert(t == s.take(p).push(x) + s.skip(p));
    assert(t.len() == s.len() + 1);
    assert forall|i: int, j: int| 0 <= i < j < t.len() implies !node_lt(
        #[trigger] t[j],
        #[trigger] t[i],
    ) by {
        assert(forall|k: int| 0 <= k < p ==> #[trigger] t[k] == s[k]);
        assert(t[p] == x);
        assert(forall|k: int| p < k < t.len() ==> #[trigger] t[k] == s[k - 1]);
        if j < p {
            assert(!node_lt(s[j], s[i]));
        } else if i < p && j == p {
            if node_lt(x, s[i]) {
                assert(!node_lt(x, s[p - 1]));
                if i < p - 1 {
                    assert(!node_lt(s[p - 1], s[i]));
                    if node_lt(s[i], s[p - 1]) {
                        lemma_node_lt_transitive(x, s[i], s[p - 1]);
                    } else {
                        lemma_node_tie(s[i], s[p - 1]);
                        lemma_node_lt_congruent(x, s[i], s[p - 1]);
                    }
                }
                assert(false);
            }
        } else if i < p && j > p {
            assert(!node_lt(s[j - 1], s[i]));
        } else if i == p {
            assert(node_lt(x, s[j - 1]));
            lemma_node_lt_asymmetric(x, s[j - 1]);
        } else {
            assert(!node_lt(s[j - 1], s[i - 1]));
        }
    }
}

proof fn lemma_sort_sorted(s: Seq<NodeView>)
    ensures
        level_sorted(sort_nodes(s)),
    decreases s.len(),
{
    if s.len() > 0 {
        lemma_sort_sorted(s.drop_last());
        lemma_insert_preserves_sorted(sort_nodes(s.drop_last()), s.last());
    }
}

/// Every node of a sorted level is one of the nodes that were sorted.
proof fn lemma_sort_elements(s: Seq<NodeView>)
    ensures
        sort_nodes(s).len() == s.len(),
        forall|k: int|
            0 <= k < sort_nodes(s).len() ==> exists|j: int|
                0 <= j < s.len() && #[trigger] sort_nodes(s)[k] == s[j],
    decreases s.len(),
{
    if s.len() > 0 {
        let sdl = s.drop_last();
        lemma_sort_elements(sdl);
        let srt = sort_nodes(sdl);
        let p = lemma_insert_node_shape(srt, s.last());
        let t = sort_nodes(s);
        assert(t == srt.take(p).push(s.last()) + srt.skip(p));
        assert forall|k: int| 0 <= k < t.len() implies exists|j: int|
            0 <= j < s.len() && #[trigger] t[k] == s[j] by {
            assert(forall|m: int| 0 <= m < sdl.len() ==> #[trigger] sdl[m] == s[m]);
            if k < p {
                assert(t[k] == srt[k]);
                let j = choose|j: int| 0 <= j < sdl.len() && srt[k] == sdl[j];
                assert(0 <= j < s.len() && t[k] == s[j]);
            } else if k == p {
                assert(t[k] == s[s.len() - 1]);
            } else {
                assert(t[k] == srt[k - 1]);
                let j = choose|j: int| 0 <= j < sdl.len() && srt[k - 1] == sdl[j];
                assert(0 <= j < s.len() && t[k] == s[j]);
            }
        }
    }
}

/// Every node of a built level is a kept entry, converted.
proof fn lemma_build_level_elements(entries: Seq<EntryView>, d: nat)
    ensures
        forall|k: int|
            0 <= k < build_level(entries, d).len() ==> exists|i: int|
                0 <= i < entries.len() && spec_keep(entries[i]) && #[trigger] build_level(
                    entries,
                    d,
                )[k] == convert_entry(entries[i], d),
    decreases entries,
{
    if d > 0 && entries.len() > 0 {
        let edl = entries.drop_last();
        lemma_build_level_elements(edl, d);
        let rest = build_level(edl, d);
        let t = build_level(entries, d);
        assert forall|k: int| 0 <= k < t.len() implies exists|i: int|
            0 <= i < entries.len() && spec_keep(entries[i]) && #[trigger] t[k] == convert_entry(
                entries[i],
                d,
            ) by {
            assert(forall|m: int| 0 <= m < edl.len() ==> #[trigger] edl[m] == entries[m]);
            if k < rest.len() {
                assert(t[k] == rest[k]);
                let i = choose|i: int|
                    0 <= i < edl.len() && spec_keep(edl[i]) && rest[k] == convert_entry(edl[i], d);
                assert(0 <= i < entries.len() && spec_keep(entries[i]) && t[k] == convert_entry(
                    entries[i],
                    d,
                ));
            } else {
                assert(spec_keep(entries.last()));
                assert(t[k] == convert_entry(entries[entries.len() - 1], d));
            }
        }
    }
}

/// The listing is well formed: sorted at every level, never deeper than the
/// depth budget, and free of ignored, hidden and name-minified entries at
/// every level.
pub proof fn law_listing_well_formed(entries: Seq<EntryView>, d: nat)
    ensures
        tree_sorted(walk(entries, d)),
        within_depth(walk(entries, d), d),
        tree_clean(walk(entries, d)),
    decreases entries,
{
    let lvl = build_level(entries, d);
    let w = walk(entries, d);
    lemma_sort_sorted(lvl);
    lemma_sort_elements(lvl);
    lemma_build_level_elements(entries, d);
    assert forall|k: int| 0 <= k < w.len() implies children_sorted(#[trigger] w[k]) && node_within(
        w[k],
        d,
    ) && node_clean(w[k]) by {
        let j = choose|j: int| 0 <= j < lvl.len() && w[k] == lvl[j];
        let i = choose|i: int|
            0 <= i < entries.len() && spec_keep(entries[i]) && lvl[j] == convert_entry(
                entries[i],
                d,
            );
        let e = entries[i];
        assert(d >= 1) by {
            assert(lvl.len() > 0);
        }
        law_listing_well_formed(e.children, (d - 1) as nat);
        assert(w[k] == convert_entry(e, d));
    }
}

proof fn lemma_insert_node_keeps(s: Seq<NodeView>, x: NodeView, j: int)
    requires
        0 <= j < s.len(),
    ensures
        exists|k: int|
            0 <= k < insert_node(s, x).len() && #[trigger] insert_node(s, x)[k] == s[j],
{
    let p = lemma_insert_node_shape(s, x);
    let t = insert_node(s, x);
    if j < p {
        assert(t[j] == s[j]);
    } else {
        assert(t[j + 1] == s[j]);
    }
}

proof fn lemma_sort_keeps(s: Seq<NodeView>, j: int)
    requires
        0 <= j < s.len(),
    ensures
        exists|k: int|
            0 <= k < sort_nodes(s).len() && #[trigger] sort_nodes(s)[k] == s[j],
    decreases s.len(),
{
    let sdl = s.drop_last();
    let srt = sort_nodes(sdl);
    if j == s.len() - 1 {
        let p = lemma_insert_node_shape(srt, s.last());
        assert(sort_nodes(s)[p] == s[j]);
    } else {
        lemma_sort_keeps(sdl, j);
        let k0 = choose|k0: int| 0 <= k0 < srt.len() && srt[k0] == sdl[j];
        lemma_insert_node_keeps(srt, s.last(), k0);
        let k = choose|k: int|
            0 <= k < insert_node(srt, s.last()).len() && insert_node(srt, s.last())[k] == srt[k0];
        assert(sort_nodes(s)[k] == s[j]);
    }
}

proof fn lemma_build_level_complete(entries: Seq<EntryView>, d: nat, i: int)
    requires
        d >= 1,
        0 <= i < entries.len(),
        spec_keep(entries[i]),
    ensures
        exists|k: int|
            0 <= k < build_level(entries, d).len() && #[trigger] build_level(entries, d)[k]
                == convert_entry(entries[i], d),
    decreases entries,
{
    let edl = entries.drop_last();
    let rest = build_level(edl, d);
    if i == entries.len() - 1 {
        assert(build_level(entries, d)[rest.len() as int] == convert_entry(entries[i], d));
    } else {
        assert(edl[i] == entries[i]);
        lemma_build_level_complete(edl, d, i);
        let k = choose|k: int| 0 <= k < rest.len() && rest[k] == convert_entry(edl[i], d);
        assert(build_level(entries, d)[k] == convert_entry(entries[i], d));
    }
}

/// Nothing kept is dropped: every kept entry of a level appears, converted,
/// somewhere in the walked listing.
pub proof fn law_listing_complete(entries: Seq<EntryView>, d: nat, i: int)
    requires
        d >= 1,
        0 <= i < entries.len(),
        spec_keep(entries[i]),
    ensures
        exists|k: int|
            0 <= k < walk(entries, d).len() && #[trigger] walk(entries, d)[k] == convert_entry(
                entries[i],
                d,
            ),
{
    lemma_build_level_complete(entries, d, i);
    let lvl = build_level(entries, d);
    let j = choose|j: int| 0 <= j < lvl.len() && lvl[j] == convert_entry(entries[i], d);
    lemma_sort_keeps(lvl, j);
    let k = choose|k: int| 0 <= k < sort_nodes(lvl).len() && sort_nodes(lvl)[k] == lvl[j];
    assert(walk(entries, d)[k] == convert_entry(entries[i], d));
}

/// At a sorted level, everything before a directory is a directory: all
/// directories stand before all files.
pub proof fn law_directories_first(nodes: Seq<NodeView>, i: int, j: int)
    requires
        level_sorted(nodes),
        0 <= i < j < nodes.len(),
        nodes[j].is_directory,
    ensures
        nodes[i].is_directory,
{
    if !nodes[i].is_directory {
        assert(node_lt(nodes[j], nodes[i]));
    }
}

/// The error returned when the listing root does not exist.
pub fn directory_missing_message(path: &str) -> (r: String)
    ensures
        r@ == "Directory does not exist: "@ + path@,
{
    crate::text::concat2("Directory does not exist: ", path)
}

/// The error returned when the listing root is not a directory.
pub fn not_directory_message(path: &str) -> (r: String)
    ensures
        r@ == "Path is not a directory: "@ + path@,
{
    crate::text::concat2("Path is not a directory: ", path)
}

/// The error returned when the listing root itself cannot be read.
pub fn read_dir_failure_message(detail: &str) -> (r: String)
    ensures
        r@ == "Failed to read directory: "@ + detail@,
{
    crate::text::concat2("Failed to read directory: ", detail)
}

} // verus!
