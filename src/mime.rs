//! Content types by file-name extension.
use vstd::prelude::*;

verus! {

/// The last segment of a path: everything after its last `/` (all of it when
/// it has none).
pub open spec fn file_name(path: Seq<char>) -> Seq<char>
    decreases path.len(),
{
    if path.len() == 0 {
        path
    } else if path.last() == '/' {
        Seq::empty()
    } else {
        file_name(path.drop_last()).push(path.last())
    }
}

/// Index of the last `.` in `name`, if any.
pub open spec fn last_dot(name: Seq<char>) -> Option<int>
    decreases name.len(),
{
    if name.len() == 0 {
        None
    } else if name.last() == '.' {
        Some(name.len() - 1)
    } else {
        last_dot(name.drop_last())
    }
}

/// The extension of a path: the text after the last `.` of its file name, when
/// that dot is not the name's first character.
pub open spec fn extension(path: Seq<char>) -> Option<Seq<char>> {
    let name = file_name(path);
    match last_dot(name) {
        Some(d) if d > 0 => Some(name.subrange(d + 1, name.len() as int)),
        _ => None,
    }
}

/// The content type served for an extension.
pub open spec fn mime_of_extension(ext: Option<Seq<char>>) -> Seq<char> {
    match ext {
        Some(e) => if e == "html"@ {
            "text/html"@
        } else if e == "js"@ {
            "application/javascript"@
        } else if e == "css"@ {
            "text/css"@
        } else if e == "json"@ {
            "application/json"@
        } else if e == "png"@ {
            "image/png"@
        } else if e == "jpg"@ || e == "jpeg"@ {
            "image/jpeg"@
        } else if e == "svg"@ {
            "image/svg+xml"@
        } else if e == "wasm"@ {
            "application/wasm"@
        } else {
            "application/octet-stream"@
        },
        None => "application/octet-stream"@,
    }
}

/// The content type served for the file at `path`.
pub open spec fn content_type(path: Seq<char>) -> Seq<char> {
    mime_of_extension(extension(path))
}

/// Whether `text[from..to]` spells out `word`.
fn span_is(text: &Vec<char>, from: usize, to: usize, word: &str) -> (r: bool)
    requires
        from <= to <= text@.len(),
    ensures
        r == (text@.subrange(from as int, to as int) == word@),
{
    let n = word.unicode_len();
    if to - from != n {
        return false;
    }
    let mut i: usize = 0;
    while i < n
        invariant
            i <= n,
            n == word@.len(),
            from <= to <= text@.len(),
            to - from == n,
            forall|k: int| 0 <= k < i ==> text@[from + k] == word@[k],
        decreases n - i,
    {
        if text[from + i] != word.get_char(i) {
            assert(text@.subrange(from as int, to as int)[i as int] != word@[i as int]);
            return false;
        }
        i = i + 1;
    }
    assert(text@.subrange(from as int, to as int) =~= word@);
    true
}

/// Start of the file name in `path`: one past its last `/`, or 0.
fn file_name_start(path: &Vec<char>) -> (r: usize)
    ensures
        r <= path@.len(),
        file_name(path@) == path@.subrange(r as int, path@.len() as int),
{
    let mut i: usize = path.len();
    while i > 0 && path[i - 1] != '/'
        invariant
            i <= path@.len(),
            forall|k: int| i <= k < path@.len() ==> path@[k] != '/',
        decreases i,
    {
        i = i - 1;
    }
    proof { lemma_file_name_after(path@, i as int); }
    i
}

proof fn lemma_file_name_after(path: Seq<char>, i: int)
    requires
        0 <= i <= path.len(),
        forall|k: int| i <= k < path.len() ==> path[k] != '/',
        i == 0 || path[i - 1] == '/',
    ensures
        file_name(path) == path.subrange(i, path.len() as int),
    decreases path.len(),
{
    if path.len() == 0 {
        assert(path.subrange(i, 0) =~= path);
    } else if i == path.len() {
        assert(path.subrange(i, i) =~= Seq::<char>::empty());
    } else {
        lemma_file_name_after(path.drop_last(), i);
        assert(path.subrange(i, path.len() as int) =~= path.drop_last().subrange(
            i,
            path.len() - 1,
        ).push(path.last()));
    }
}

proof fn lemma_last_dot_after(name: Seq<char>, j: int)
    requires
        0 <= j <= name.len(),
        forall|k: int| j <= k < name.len() ==> name[k] != '.',
        j == 0 || name[j - 1] == '.',
    ensures
        last_dot(name) == (if j == 0 { None } else { Some(j - 1) }),
    decreases name.len(),
{
    if name.len() > 0 && j < name.len() {
        lemma_last_dot_after(name.drop_last(), j);
    }
}

/// Index in `path` where its extension starts, if it has one.
fn extension_start(path: &Vec<char>) -> (r: Option<usize>)
    ensures
        match r {
            Some(e) => e <= path@.len() && extension(path@) == Some(
                path@.subrange(e as int, path@.len() as int),
            ),
            None => extension(path@) is None,
        },
{
    let s = file_name_start(path);
    let ghost name = path@.subrange(s as int, path@.len() as int);
    let mut i: usize = path.len();
    while i > s && path[i - 1] != '.'
        invariant
            s <= i <= path@.len(),
            name == path@.subrange(s as int, path@.len() as int),
            forall|k: int| i <= k < path@.len() ==> path@[k] != '.',
        decreases i,
    {
        i = i - 1;
    }
    proof {
        lemma_last_dot_after(name, i - s);
    }
    if i > s && i - 1 > s {
        assert(name.subrange(i - s, name.len() as int) =~= path@.subrange(
            i as int,
            path@.len() as int,
        ));
        Some(i)
    } else {
        None
    }
}

/// The content type for the file at `path`, chosen by its extension.
pub fn mime(path: &Vec<char>) -> (r: &'static str)
    ensures
        r@ == content_type(path@),
{
    let (from, to) = match extension_start(path) {
        Some(e) => (e, path.len()),
        None => {
            return "application/octet-stream";
        },
    };
    if span_is(path, from, to, "html") {
        "text/html"
    } else if span_is(path, from, to, "js") {
        "application/javascript"
    } else if span_is(path, from, to, "css") {
        "text/css"
    } else if span_is(path, from, to, "json") {
        "application/json"
    } else if span_is(path, from, to, "png") {
        "image/png"
    } else if span_is(path, from, to, "jpg") || span_is(path, from, to, "jpeg") {
        "image/jpeg"
    } else if span_is(path, from, to, "svg") {
        "image/svg+xml"
    } else if span_is(path, from, to, "wasm") {
        "application/wasm"
    } else {
        "application/octet-stream"
    }
}

} // verus!
