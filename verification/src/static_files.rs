//! The rules for serving the viewer's static files from the `vrx`
//! directory: which file a request path names, which files may be served
//! and with what content type, and what is answered when a step fails.

use vstd::prelude::*;
use crate::registry::opt_view;
use crate::text::{all_ascii, ascii_lowercase, chars_of, lowercase, same_text, string_of, to_lowercase};

verus! {

/// The directory that static files are served from.
pub const VRX_DIR: &'static str = "vrx";

pub open spec fn vrx_dir() -> Seq<char> {
    seq!['v', 'r', 'x']
}

pub open spec fn index_html() -> Seq<char> {
    seq!['i', 'n', 'd', 'e', 'x', '.', 'h', 't', 'm', 'l']
}

/// The content type served for a file extension (with its dot, lowercase).
pub open spec fn mime_of(ext: Seq<char>) -> Option<Seq<char>> {
    if ext == ".html"@ {
        Some("text/html"@)
    } else if ext == ".ico"@ {
        Some("image/x-icon"@)
    } else if ext == ".js"@ {
        Some("application/javascript"@)
    } else if ext == ".css"@ {
        Some("text/css"@)
    } else if ext == ".jpg"@ {
        Some("image/jpeg"@)
    } else if ext == ".png"@ {
        Some("image/png"@)
    } else if ext == ".gif"@ {
        Some("image/gif"@)
    } else if ext == ".svg"@ {
        Some("image/svg+xml"@)
    } else if ext == ".wasm"@ {
        Some("application/wasm"@)
    } else {
        None
    }
}

/// The content type served for a file extension (with its dot, lowercase);
/// `None` for a file that is not served.
pub fn get_mime_type(ext: &str) -> (res: Option<&'static str>)
    ensures
        match res {
            Some(m) => mime_of(ext@) == Some(m@),
            None => mime_of(ext@) is None,
        },
{
    if same_text(ext, ".html") {
        Some("text/html")
    } else if same_text(ext, ".ico") {
        Some("image/x-icon")
    } else if same_text(ext, ".js") {
        Some("application/javascript")
    } else if same_text(ext, ".css") {
        Some("text/css")
    } else if same_text(ext, ".jpg") {
        Some("image/jpeg")
    } else if same_text(ext, ".png") {
        Some("image/png")
    } else if same_text(ext, ".gif") {
        Some("image/gif")
    } else if same_text(ext, ".svg") {
        Some("image/svg+xml")
    } else if same_text(ext, ".wasm") {
        Some("application/wasm")
    } else {
        None
    }
}

/// The text that percent-decoding a request path yields, invalid UTF-8
/// replaced by U+FFFD, as percent_encoding computes it.
pub uninterp spec fn percent_decoded(path: Seq<char>) -> Seq<char>;

/// Calls `percent_encoding::percent_decode_str` and
/// `PercentDecode::decode_utf8_lossy` on the path. Claimed: the result is
/// `percent_decoded` of the path, and a path without `%` comes back as it
/// is (nothing is decoded and the text is valid UTF-8).
#[verifier::external_body]
fn percent_decode(path: &str) -> (res: String)
    ensures
        res@ == percent_decoded(path@),
        !path@.contains('%') ==> res@ == path@,
{
    percent_encoding::percent_decode_str(path).decode_utf8_lossy().to_string()
}

/// The extension of a path as `std::path::Path::extension` finds it: the
/// part of the last file name after its last dot, when there is one that is
/// not the name's first character.
pub uninterp spec fn path_extension(path: Seq<char>) -> Option<Seq<char>>;

/// Calls `std::path::Path::extension` (and `OsStr::to_str`, which cannot
/// fail on a path made from a `str`). Claimed: the result is
/// `path_extension` of the path.
#[verifier::external_body]
fn file_extension(path: &str) -> (res: Option<String>)
    ensures
        opt_view(res) == path_extension(path@),
{
    match std::path::Path::new(path).extension() {
        Some(ext) => ext.to_str().map(String::from),
        None => None,
    }
}

/// A directory path (ending in `/`) names its `index.html`.
pub open spec fn with_index(s: Seq<char>) -> Seq<char> {
    if s.len() > 0 && s.last() == '/' {
        s + index_html()
    } else {
        s
    }
}

/// Whether `../` starts at position `i`.
pub open spec fn parent_ref_at(s: Seq<char>, i: int) -> bool {
    0 <= i && i + 3 <= s.len() && s[i] == '.' && s[i + 1] == '.' && s[i + 2] == '/'
}

/// The text with every `../` removed in one left-to-right pass, as
/// `str::replace("../", "")` does.
pub open spec fn strip_parent_refs(s: Seq<char>) -> Seq<char>
    decreases s.len(),
{
    if s.len() == 0 {
        s
    } else if parent_ref_at(s, 0) {
        strip_parent_refs(s.skip(3))
    } else {
        seq![s[0]] + strip_parent_refs(s.skip(1))
    }
}

/// The text without its leading slashes, as `trim_start_matches('/')` does.
pub open spec fn trim_leading_slashes(s: Seq<char>) -> Seq<char>
    decreases s.len(),
{
    if s.len() > 0 && s[0] == '/' {
        trim_leading_slashes(s.skip(1))
    } else {
        s
    }
}

/// The path under `vrx` that a request path names: decoded, a directory
/// completed with `index.html`, `../` removed, leading slashes dropped.
pub open spec fn relative_file(uri_path: Seq<char>) -> Seq<char> {
    trim_leading_slashes(strip_parent_refs(with_index(percent_decoded(uri_path))))
}

/// The file path a request path names: `vrx/` followed by `relative_file`
/// (what joining the relative path onto `vrx` gives).
pub open spec fn static_file_path_spec(uri_path: Seq<char>) -> Seq<char> {
    vrx_dir() + seq!['/'] + relative_file(uri_path)
}

/// The extension looked up for a file path: a dot and the lowercased
/// extension, or nothing.
pub open spec fn lookup_ext(path: Seq<char>) -> Seq<char> {
    match path_extension(path) {
        Some(e) => seq!['.'] + lowercase(e),
        None => Seq::empty(),
    }
}

/// Whether the extension of a path, if any, is ASCII.
pub open spec fn ext_is_ascii(path: Seq<char>) -> bool {
    match path_extension(path) {
        Some(e) => all_ascii(e),
        None => true,
    }
}

/// `lookup_ext` for an ASCII extension: a dot and the extension with
/// `A`..=`Z` lowered, or nothing.
pub open spec fn ascii_lookup_ext(path: Seq<char>) -> Seq<char> {
    match path_extension(path) {
        Some(e) => seq!['.'] + ascii_lowercase(e),
        None => Seq::empty(),
    }
}

fn strip_parent_refs_exec(s: &Vec<char>) -> (res: Vec<char>)
    ensures
        res@ == strip_parent_refs(s@),
{
    let n = s.len();
    let mut out: Vec<char> = Vec::new();
    let mut i: usize = 0;
    assert(s@.skip(0) =~= s@);
    while i < n
        invariant
            n == s@.len(),
            i <= n,
            strip_parent_refs(s@) == out@ + strip_parent_refs(s@.skip(i as int)),
        decreases n - i,
    {
        let ghost rest = s@.skip(i as int);
        if n - i >= 3 && s[i] == '.' && s[i + 1] == '.' && s[i + 2] == '/' {
            assert(parent_ref_at(rest, 0));
            assert(rest.skip(3) =~= s@.skip(i + 3));
            i = i + 3;
        } else {
            assert(!parent_ref_at(rest, 0));
            assert(rest.skip(1) =~= s@.skip(i + 1));
            let ghost before = out@;
            out.push(s[i]);
            assert(out@ + strip_parent_refs(s@.skip(i + 1)) =~= before + (seq![rest[0]]
                + strip_parent_refs(rest.skip(1))));
            i = i + 1;
        }
    }
    assert(s@.skip(i as int) =~= Seq::<char>::empty());
    assert(out@ + Seq::<char>::empty() =~= out@);
    out
}

fn trim_leading_slashes_exec(s: &Vec<char>) -> (res: Vec<char>)
    ensures
        res@ == trim_leading_slashes(s@),
{
    let n = s.len();
    let mut i: usize = 0;
    assert(s@.skip(0) =~= s@);
    while i < n && s[i] == '/'
        invariant
            n == s@.len(),
            i <= n,
            trim_leading_slashes(s@) == trim_leading_slashes(s@.skip(i as int)),
        decreases n - i,
    {
        assert(s@.skip(i as int).skip(1) =~= s@.skip(i + 1));
        i = i + 1;
    }
    let mut out: Vec<char> = Vec::new();
    let mut j: usize = i;
    while j < n
        invariant
            n == s@.len(),
            i <= j <= n,
            out@ == s@.subrange(i as int, j as int),
        decreases n - j,
    {
        out.push(s[j]);
        assert(out@ =~= s@.subrange(i as int, j + 1));
        j = j + 1;
    }
    assert(out@ =~= s@.skip(i as int));
    out
}

/// The file path that a request path names; see `static_file_path_spec`.
pub fn static_file_path(uri_path: &str) -> (res: String)
    ensures
        res@ == static_file_path_spec(uri_path@),
        !uri_path@.contains('%') ==> res@ == vrx_dir() + seq!['/'] + trim_leading_slashes(
            strip_parent_refs(with_index(uri_path@)),
        ),
{
    let decoded = percent_decode(uri_path);
    let mut chars = chars_of(decoded.as_str());
    let n = chars.len();
    let ghost d = chars@;
    if n > 0 && chars[n - 1] == '/' {
        let index = chars_of("index.html");
        proof {
            reveal_strlit("index.html");
        }
        assert(index@ =~= index_html());
        let mut k: usize = 0;
        while k < index.len()
            invariant
                index@ == index_html(),
                k <= index@.len(),
                chars@ == d + index@.take(k as int),
            decreases index@.len() - k,
        {
            chars.push(index[k]);
            assert(chars@ =~= d + index@.take(k + 1));
            k = k + 1;
        }
        assert(index@.take(index@.len() as int) =~= index@);
    }
    assert(chars@ == with_index(d));
    let stripped = strip_parent_refs_exec(&chars);
    let trimmed = trim_leading_slashes_exec(&stripped);
    let mut path: Vec<char> = Vec::new();
    path.push('v');
    path.push('r');
    path.push('x');
    path.push('/');
    let ghost head = path@;
    let m = trimmed.len();
    let mut j: usize = 0;
    while j < m
        invariant
            m == trimmed@.len(),
            j <= m,
            head == vrx_dir() + seq!['/'],
            path@ == head + trimmed@.take(j as int),
        decreases m - j,
    {
        path.push(trimmed[j]);
        assert(path@ =~= head + trimmed@.take(j + 1));
        j = j + 1;
    }
    assert(trimmed@.take(m as int) =~= trimmed@);
    assert(head =~= vrx_dir() + seq!['/']);
    string_of(&path)
}

/// The content type a file path is served with, `None` when its extension
/// is not served.
pub fn mime_for_path(file_path: &str) -> (res: Option<&'static str>)
    ensures
        match res {
            Some(m) => mime_of(lookup_ext(file_path@)) == Some(m@),
            None => mime_of(lookup_ext(file_path@)) is None,
        },
        ext_is_ascii(file_path@) ==> match res {
            Some(m) => mime_of(ascii_lookup_ext(file_path@)) == Some(m@),
            None => mime_of(ascii_lookup_ext(file_path@)) is None,
        },
{
    match file_extension(file_path) {
        Some(e) => {
            let lower = to_lowercase(e.as_str());
            let mut chars: Vec<char> = Vec::new();
            chars.push('.');
            let lc = chars_of(lower.as_str());
            let ghost head = chars@;
            let m = lc.len();
            let mut j: usize = 0;
            while j < m
                invariant
                    m == lc@.len(),
                    j <= m,
                    head == seq!['.'],
                    chars@ == head + lc@.take(j as int),
                decreases m - j,
            {
                chars.push(lc[j]);
                assert(chars@ =~= head + lc@.take(j + 1));
                j = j + 1;
            }
            assert(lc@.take(m as int) =~= lc@);
            let ext = string_of(&chars);
            get_mime_type(ext.as_str())
        },
        None => {
            let ext = String::new();
            assert(ext@ =~= Seq::<char>::empty());
            get_mime_type(ext.as_str())
        },
    }
}

/// Whether the file path `file` lies inside the directory path `root`,
/// both as bytes: it is the root itself, or the root followed by further
/// components. On canonical paths (absolute, no `.` or `..` components, no
/// repeated or trailing separators) this is component-wise prefix, as
/// `Path::starts_with` decides it.
pub open spec fn inside_root(root: Seq<u8>, file: Seq<u8>) -> bool {
    ||| file == root
    ||| {
        &&& root.len() < file.len()
        &&& file.take(root.len() as int) == root
        &&& ((root.len() > 0 && root.last() == 0x2fu8) || file[root.len() as int] == 0x2fu8)
    }
}

/// Whether a canonical file path lies inside a canonical directory path.
pub fn within_root(root: &[u8], file: &[u8]) -> (res: bool)
    ensures
        res == inside_root(root@, file@),
{
    let n = root.len();
    let m = file.len();
    if n > m {
        return false;
    }
    let mut i: usize = 0;
    while i < n
        invariant
            n == root@.len(),
            m == file@.len(),
            n <= m,
            i <= n,
            forall|j: int| 0 <= j < i ==> root@[j] == file@[j],
        decreases n - i,
    {
        if root[i] != file[i] {
            assert(file@.take(n as int)[i as int] != root@[i as int]);
            return false;
        }
        i = i + 1;
    }
    assert(file@.take(n as int) =~= root@);
    if n == m {
        assert(file@ =~= root@);
        return true;
    }
    (n > 0 && root[n - 1] == 0x2f) || file[n] == 0x2f
}

/// The answer to a static file request.
#[derive(Debug, Clone, Copy, PartialEq, Eq)]
pub enum StaticReply {
    /// 500: the `vrx` directory itself cannot be resolved.
    MissingRoot,
    /// 404: the file cannot be resolved.
    NotFound,
    /// 403: the file lies outside `vrx`, or its type is not served.
    Forbidden,
    /// 200: the file's contents, with this content type.
    Serve { mime: &'static str },
    /// 500: the file could not be read.
    ReadFailed,
}

/// The answer to a static file request, from the outcome of resolving the
/// `vrx` directory and the file, whether the file lies inside `vrx`, and
/// the content type of the file's extension; checked in that order. A file
/// is served only when all four hold. Reading it comes after.
pub fn static_reply(root_found: bool, file_found: bool, inside_root: bool, mime: Option<&'static str>) -> (res:
    StaticReply)
    ensures
        !root_found ==> res == StaticReply::MissingRoot,
        root_found && !file_found ==> res == StaticReply::NotFound,
        root_found && file_found && !inside_root ==> res == StaticReply::Forbidden,
        root_found && file_found && inside_root && mime is None ==> res == StaticReply::Forbidden,
        root_found && file_found && inside_root && mime is Some ==> res == (StaticReply::Serve { mime: mime->0 }),
        (res is Serve) ==> root_found && file_found && inside_root && mime is Some,
{
    if !root_found {
        StaticReply::MissingRoot
    } else if !file_found {
        StaticReply::NotFound
    } else if !inside_root {
        StaticReply::Forbidden
    } else {
        match mime {
            Some(m) => StaticReply::Serve { mime: m },
            None => StaticReply::Forbidden,
        }
    }
}

impl StaticReply {
    /// The HTTP status code of the answer.
    pub open spec fn status_code(self) -> u16 {
        match self {
            StaticReply::MissingRoot => 500u16,
            StaticReply::NotFound => 404u16,
            StaticReply::Forbidden => 403u16,
            StaticReply::Serve { .. } => 200u16,
            StaticReply::ReadFailed => 500u16,
        }
    }

    /// The body text of an answer that serves no file.
    pub open spec fn message_text(self) -> Seq<char> {
        match self {
            StaticReply::MissingRoot => "Static directory not found"@,
            StaticReply::NotFound => "Not Found"@,
            StaticReply::Forbidden => "Forbidden"@,
            StaticReply::Serve { .. } => ""@,
            StaticReply::ReadFailed => "Internal Server Error"@,
        }
    }

    /// The HTTP status code of the answer.
    pub fn status(&self) -> (res: u16)
        ensures
            res == self.status_code(),
    {
        match self {
            StaticReply::MissingRoot => 500,
            StaticReply::NotFound => 404,
            StaticReply::Forbidden => 403,
            StaticReply::Serve { .. } => 200,
            StaticReply::ReadFailed => 500,
        }
    }

    /// The body text of an answer that serves no file.
    pub fn message(&self) -> (res: &'static str)
        ensures
            res@ == self.message_text(),
    {
        match self {
            StaticReply::MissingRoot => "Static directory not found",
            StaticReply::NotFound => "Not Found",
            StaticReply::Forbidden => "Forbidden",
            StaticReply::Serve { .. } => "",
            StaticReply::ReadFailed => "Internal Server Error",
        }
    }
}

} // verus!
