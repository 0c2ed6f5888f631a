//! The dashboard's own files: which one answers a path, and as what.
use vstd::prelude::*;

use crate::text::{after_last, chars_of, same_text, tail_after};

verus! {

/// What a file of this name is served as.
pub open spec fn mime_of(path: Seq<char>) -> Seq<char> {
    let ext = after_last(path, '.');
    if ext == "html"@ {
        "text/html; charset=utf-8"@
    } else if ext == "js"@ || ext == "mjs"@ {
        "text/javascript"@
    } else if ext == "css"@ {
        "text/css"@
    } else if ext == "json"@ {
        "application/json"@
    } else if ext == "svg"@ {
        "image/svg+xml"@
    } else if ext == "png"@ {
        "image/png"@
    } else if ext == "ico"@ {
        "image/x-icon"@
    } else if ext == "woff2"@ {
        "font/woff2"@
    } else {
        "application/octet-stream"@
    }
}

/// What a file of this name is served as.
pub fn mime_for(path: &str) -> (r: &'static str)
    ensures
        r@ == mime_of(path@),
{
    let tail = tail_after(path, '.');
    let ext = tail.as_str();
    if same_text(ext, "html") {
        "text/html; charset=utf-8"
    } else if same_text(ext, "js") || same_text(ext, "mjs") {
        "text/javascript"
    } else if same_text(ext, "css") {
        "text/css"
    } else if same_text(ext, "json") {
        "application/json"
    } else if same_text(ext, "svg") {
        "image/svg+xml"
    } else if same_text(ext, "png") {
        "image/png"
    } else if same_text(ext, "ico") {
        "image/x-icon"
    } else if same_text(ext, "woff2") {
        "font/woff2"
    } else {
        "application/octet-stream"
    }
}

/// A path without the slashes it begins with.
pub open spec fn without_root(path: Seq<char>) -> Seq<char>
    decreases path.len(),
{
    if path.len() > 0 && path[0] == '/' {
        without_root(path.drop_first())
    } else {
        path
    }
}

/// The file that a path asks for first.
pub open spec fn asked_file(path: Seq<char>) -> Seq<char> {
    if without_root(path).len() == 0 {
        "index.html"@
    } else {
        without_root(path)
    }
}

/// The file that a path asks for first.
pub fn asset_name(path: &str) -> (r: String)
    ensures
        r@ == asked_file(path@),
{
    let cs = chars_of(path);
    let n: usize = cs.len();
    let mut i: usize = 0;
    proof {
        assert(path@.skip(0) =~= path@);
    }
    while i < n && cs[i] == '/'
        invariant
            i <= n == cs@.len(),
            cs@ == path@,
            without_root(path@.skip(i as int)) == without_root(path@),
        decreases n - i,
    {
        proof {
            assert(path@.skip(i as int).drop_first() =~= path@.skip(i + 1));
        }
        i += 1;
    }
    let rest = path.substring_char(i, n);
    proof {
        assert(rest@ =~= path@.skip(i as int));
    }
    if rest.is_empty() {
        "index.html".to_owned()
    } else {
        rest.to_owned()
    }
}

/// What answers a path.
#[derive(Clone, Copy, Debug, PartialEq, Eq, Structural)]
pub enum Page {
    /// The file that was asked for.
    File,
    /// The start page, which finds its own way on.
    Index,
    /// A page that says that the dashboard is not built.
    Unbuilt,
}

/// What answers a path: the file where there is one, else the start page, else the
/// page that says that there is none.
pub fn page_for(has_file: bool, has_index: bool) -> (r: Page)
    ensures
        r == (if has_file {
            Page::File
        } else if has_index {
            Page::Index
        } else {
            Page::Unbuilt
        }),
{
    if has_file {
        Page::File
    } else if has_index {
        Page::Index
    } else {
        Page::Unbuilt
    }
}

/// A file is served as what its ending says, and as plain bytes where it says nothing.
pub proof fn a_file_is_served_by_its_ending(stem: Seq<char>, ext: Seq<char>)
    requires
        !ext.contains('.'),
    ensures
        ext == "html"@ ==> mime_of(stem + seq!['.'] + ext) == "text/html; charset=utf-8"@,
        ext == "js"@ ==> mime_of(stem + seq!['.'] + ext) == "text/javascript"@,
        ext == "mjs"@ ==> mime_of(stem + seq!['.'] + ext) == "text/javascript"@,
        ext == "css"@ ==> mime_of(stem + seq!['.'] + ext) == "text/css"@,
        ext == "json"@ ==> mime_of(stem + seq!['.'] + ext) == "application/json"@,
        ext == "svg"@ ==> mime_of(stem + seq!['.'] + ext) == "image/svg+xml"@,
        ext == "png"@ ==> mime_of(stem + seq!['.'] + ext) == "image/png"@,
        ext == "ico"@ ==> mime_of(stem + seq!['.'] + ext) == "image/x-icon"@,
        ext == "woff2"@ ==> mime_of(stem + seq!['.'] + ext) == "font/woff2"@,
        ext.len() > 5 ==> mime_of(stem + seq!['.'] + ext) == "application/octet-stream"@,
{
    reveal_strlit("html");
    reveal_strlit("js");
    reveal_strlit("mjs");
    reveal_strlit("css");
    reveal_strlit("json");
    reveal_strlit("svg");
    reveal_strlit("png");
    reveal_strlit("ico");
    reveal_strlit("woff2");
    let p = stem + seq!['.'] + ext;
    let k = stem.len() as int + 1;
    assert(p[k - 1] == '.');
    assert forall|j: int| k <= j < p.len() implies p[j] != '.' by {
        assert(ext[j - k] == p[j]);
        assert(ext.contains(ext[j - k]));
    }
    crate::text::lemma_after_last(p, '.', k);
    assert(p.skip(k) =~= ext);
    assert("html"@[0] == 'h' && "json"@[0] == 'j');
    assert("mjs"@[0] == 'm' && "css"@[0] == 'c' && "svg"@[0] == 's' && "png"@[0] == 'p' && "ico"@[0]
        == 'i');
}

/// A path asks for the file that it names, whatever slashes it begins with, and for
/// the start page where it names none.
pub proof fn a_path_asks_for_what_it_names(path: Seq<char>)
    ensures
        asked_file(seq!['/'] + path) == asked_file(path),
        path.len() > 0 && path[0] != '/' ==> asked_file(path) == path,
        asked_file(Seq::empty()) == "index.html"@,
{
    let p = seq!['/'] + path;
    assert(p.drop_first() =~= path);
    assert(p[0] == '/');
}

} // verus!
