use crate::index::is_under;
use crate::text::{chars_of, contains_str, is_substring, str_eq};
use vstd::prelude::*;

verus! {

/// The directory under which the documents live.
pub open spec fn document_root_spec() -> Seq<char> {
    "articles"@
}

/// The directory under which the documents live.
pub fn document_root() -> (r: String)
    ensures
        r@ == document_root_spec(),
{
    "articles".to_string()
}

/// The path that `Path::join` makes of a base and a relative path.
pub uninterp spec fn joined(base: Seq<char>, rel: Seq<char>) -> Seq<char>;

/// The path that `Path::with_extension` makes of a path and the extension `md`.
pub uninterp spec fn with_md_extension(p: Seq<char>) -> Seq<char>;

/// Relies on `std::path::Path::join`: `rel` appended to `base` as a path;
/// the result depends on the two paths alone.
#[verifier::external_body]
fn join_path(base: &str, rel: &str) -> (r: String)
    ensures
        r@ == joined(base@, rel@),
{
    std::path::Path::new(base).join(rel).to_string_lossy().into_owned()
}

/// Relies on `std::path::Path::with_extension`: the path with its file
/// extension set to `md`; the result depends on the path alone.
#[verifier::external_body]
fn md_extension(p: &str) -> (r: String)
    ensures
        r@ == with_md_extension(p@),
{
    std::path::Path::new(p).with_extension("md").to_string_lossy().into_owned()
}

/// The path of a document file on disk.
pub struct ArticlePath(pub String);

impl ArticlePath {
    /// The file of the document that a request path names: the path below
    /// the document root, with the extension `md`.
    pub fn for_request(rel: &str) -> (r: ArticlePath)
        ensures
            r.0@ == with_md_extension(joined(document_root_spec(), rel@)),
    {
        let root = document_root();
        let p = join_path(root.as_str(), rel);
        ArticlePath(md_extension(p.as_str()))
    }

    pub fn as_str(&self) -> (r: &str)
        ensures
            r@ == self.0@,
    {
        self.0.as_str()
    }
}

/// The directory a search looks in: its search path below the document root.
pub fn index_root(search_path: &str) -> (r: String)
    ensures
        r@ == joined(document_root_spec(), search_path@),
{
    let root = document_root();
    join_path(root.as_str(), search_path)
}

/// `p` without the slashes at its end.
pub open spec fn trim_end_slashes(p: Seq<char>) -> Seq<char>
    decreases p.len(),
{
    if p.len() > 0 && p.last() == '/' {
        trim_end_slashes(p.drop_last())
    } else {
        p
    }
}

/// Whether `p` names the document root itself, trailing slashes aside.
pub fn is_document_root(p: &str) -> (r: bool)
    ensures
        r == (trim_end_slashes(p@) == document_root_spec()),
{
    let c = chars_of(p);
    let mut n: usize = c.len();
    assert(c@.subrange(0, n as int) =~= c@);
    while n > 0 && c[n - 1] == '/'
        invariant
            n <= c@.len(),
            c@ == p@,
            trim_end_slashes(p@) == trim_end_slashes(c@.subrange(0, n as int)),
        decreases n,
    {
        assert(c@.subrange(0, n as int).drop_last() =~= c@.subrange(0, n - 1));
        n = n - 1;
    }
    assert(trim_end_slashes(c@.subrange(0, n as int)) == c@.subrange(0, n as int));
    let trimmed = p.substring_char(0, n);
    let root = document_root();
    str_eq(trimmed, root.as_str())
}

/// `p` written relative to `root`: what follows `root` and the slashes
/// after it when `p` lies strictly below `root`; otherwise `p` as it is.
pub open spec fn relative_to(p: Seq<char>, root: Seq<char>) -> Seq<char> {
    if root.len() > 0 && root.len() < p.len() && p.take(root.len() as int) == root && root.last()
        != '/' && p[root.len() as int] == '/' {
        trim_start_slashes(p.skip(root.len() + 1int))
    } else if root.len() > 0 && root.len() < p.len() && p.take(root.len() as int) == root
        && root.last() == '/' {
        trim_start_slashes(p.skip(root.len() as int))
    } else {
        p
    }
}

/// Writes `p` relative to `root`, as links on the site name documents.
pub fn strip_root(p: &str, root: &str) -> (r: String)
    ensures
        r@ == relative_to(p@, root@),
{
    let pc = chars_of(p);
    let rc = chars_of(root);
    let n = rc.len();
    if n == 0 || n >= pc.len() {
        return p.to_string();
    }
    let mut i: usize = 0;
    while i < n
        invariant
            pc@ == p@,
            rc@ == root@,
            n == rc@.len(),
            n < pc@.len(),
            i <= n,
            forall|k: int| 0 <= k < i ==> pc@[k] == rc@[k],
        decreases n - i,
    {
        if pc[i] != rc[i] {
            assert(p@.take(n as int)[i as int] != root@[i as int]);
            return p.to_string();
        }
        i = i + 1;
    }
    assert(p@.take(n as int) =~= root@);
    let start: usize = if rc[n - 1] == '/' {
        n
    } else if pc[n] == '/' {
        n + 1
    } else {
        return p.to_string();
    };
    let mut j: usize = start;
    while j < pc.len() && pc[j] == '/'
        invariant
            pc@ == p@,
            start <= j <= pc@.len(),
            trim_start_slashes(p@.skip(start as int)) == trim_start_slashes(p@.skip(j as int)),
        decreases pc@.len() - j,
    {
        assert(p@.skip(j as int).drop_first() =~= p@.skip(j + 1));
        j = j + 1;
    }
    let rest = p.substring_char(j, pc.len());
    assert(rest@ =~= p@.skip(j as int));
    assert(trim_start_slashes(rest@) == rest@);
    rest.to_string()
}

/// `s` with every space written as `%20`.
pub open spec fn escape_spaces(s: Seq<char>) -> Seq<char>
    decreases s.len(),
{
    if s.len() == 0 {
        s
    } else {
        escape_spaces(s.drop_last()) + if s.last() == ' ' {
            "%20"@
        } else {
            seq![s.last()]
        }
    }
}

/// Writes every space of `s` as `%20`.
pub fn escape_spaces_exec(s: &str) -> (r: String)
    ensures
        r@ == escape_spaces(s@),
{
    let n = s.unicode_len();
    let mut out = String::new();
    let mut i: usize = 0;
    while i < n
        invariant
            n == s@.len(),
            i <= n,
            out@ == escape_spaces(s@.subrange(0, i as int)),
        decreases n - i,
    {
        let c = s.get_char(i);
        assert(s@.subrange(0, i + 1).drop_last() =~= s@.subrange(0, i as int));
        if c == ' ' {
            out.append("%20");
        } else {
            let one = s.substring_char(i, i + 1);
            assert(one@ =~= seq![c]);
            out.append(one);
        }
        i = i + 1;
    }
    assert(s@.subrange(0, i as int) =~= s@);
    out
}

/// The largest body, in bytes, read from a page that claims to mention a document.
pub const MAX_MENTION_BODY: usize = 0xFFFFFF;

/// Whether a body of `len` bytes is too large to be read further.
pub fn mention_body_too_large(len: usize) -> (r: bool)
    ensures
        r == (len > MAX_MENTION_BODY),
{
    len > MAX_MENTION_BODY
}

/// The page at `body` mentions document `to` of the site at `base`: it
/// holds the document's address, with spaces written as `%20`.
pub open spec fn mentions(body: Seq<char>, base: Seq<char>, to: Seq<char>) -> bool {
    is_substring(base + escape_spaces(to), body)
}

/// Whether the page `body` holds the address of document `to` of the site
/// at `base`.
pub fn mentions_document(body: &str, base: &str, to: &str) -> (r: bool)
    ensures
        r == mentions(body@, base@, to@),
{
    let mut url = base.to_string();
    let tail = escape_spaces_exec(to);
    url.append(tail.as_str());
    contains_str(body, url.as_str())
}

/// `s` without the slashes at its start.
pub open spec fn trim_start_slashes(s: Seq<char>) -> Seq<char>
    decreases s.len(),
{
    if s.len() > 0 && s[0] == '/' {
        trim_start_slashes(s.drop_first())
    } else {
        s
    }
}

/// The document that a mention targets: the target address must start with
/// the site's address; what follows it, without leading slashes, names the
/// document.
pub open spec fn mention_target_spec(target: Seq<char>, base: Seq<char>) -> Option<Seq<char>> {
    if base.len() <= target.len() && target.take(base.len() as int) == base {
        Some(trim_start_slashes(target.skip(base.len() as int)))
    } else {
        None
    }
}

/// The document that a mention of `target` names on the site at `base`, or
/// `None` when the target lies elsewhere.
pub fn mention_target(target: &str, base: &str) -> (r: Option<String>)
    ensures
        r is Some <==> mention_target_spec(target@, base@) is Some,
        r matches Some(s) ==> s@ == mention_target_spec(target@, base@)->0,
{
    let tc = chars_of(target);
    let bc = chars_of(base);
    let n = bc.len();
    if n > tc.len() {
        return None;
    }
    let mut i: usize = 0;
    while i < n
        invariant
            tc@ == target@,
            bc@ == base@,
            n == bc@.len(),
            n <= tc@.len(),
            i <= n,
            forall|k: int| 0 <= k < i ==> tc@[k] == bc@[k],
        decreases n - i,
    {
        if tc[i] != bc[i] {
            assert(target@.take(n as int)[i as int] != base@[i as int]);
            return None;
        }
        i = i + 1;
    }
    assert(target@.take(n as int) =~= base@);
    let mut j: usize = n;
    while j < tc.len() && tc[j] == '/'
        invariant
            tc@ == target@,
            n <= j <= tc@.len(),
            trim_start_slashes(target@.skip(n as int)) == trim_start_slashes(target@.skip(
                j as int,
            )),
        decreases tc@.len() - j,
    {
        assert(target@.skip(j as int).drop_first() =~= target@.skip(j + 1));
        j = j + 1;
    }
    let rest = target.substring_char(j, tc.len());
    assert(rest@ =~= target@.skip(j as int));
    assert(trim_start_slashes(rest@) == rest@);
    Some(rest.to_string())
}

} // verus!
