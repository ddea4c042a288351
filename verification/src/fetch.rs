//! Deriving a file name from a remote URL.
//!
//! A fetched resource is stored under the trailing segment of its URL, which
//! must be a nonempty run of name characters followed by a dot and one of
//! the supported image extensions. A URL without such a trailing segment is
//! unusable, and the caller is expected to abort the whole run on it.

use vstd::prelude::*;

use crate::pattern::has_supported_extension;

verus! {

/// Characters allowed in the name portion of a stored file.
pub open spec fn is_url_name_char(c: char) -> bool {
    ||| ('a' <= c && c <= 'z')
    ||| ('A' <= c && c <= 'Z')
    ||| ('0' <= c && c <= '9')
    ||| c == '_'
    ||| c == '-'
}

pub fn check_url_name_char(c: char) -> (r: bool)
    ensures
        r == is_url_name_char(c),
{
    ('a' <= c && c <= 'z') || ('A' <= c && c <= 'Z') || ('0' <= c && c <= '9') || c == '_'
        || c == '-'
}

/// Start of the run of URL name characters that ends just before index `i`.
pub open spec fn name_run_start(url: Seq<char>, i: int) -> int
    decreases i,
{
    if 0 < i <= url.len() && is_url_name_char(url[i - 1]) {
        name_run_start(url, i - 1)
    } else {
        i
    }
}

/// Bounds and content of the backward name run.
pub proof fn lemma_name_run(url: Seq<char>, i: int)
    requires
        0 <= i <= url.len(),
    ensures
        0 <= name_run_start(url, i) <= i,
        forall|j: int| name_run_start(url, i) <= j < i ==> is_url_name_char(#[trigger] url[j]),
        name_run_start(url, i) > 0 ==> !is_url_name_char(url[name_run_start(url, i) - 1]),
    decreases i,
{
    if 0 < i && is_url_name_char(url[i - 1]) {
        lemma_name_run(url, i - 1);
    }
}

/// The URL's trailing segment is a usable file name: a nonempty run of name
/// characters, a dot, and a supported extension, anchored at the end.
pub open spec fn has_remote_file_name(url: Seq<char>) -> bool {
    has_supported_extension(url) && name_run_start(url, url.len() - 4) < url.len() - 4
}

/// The file name derived from the URL: the longest trailing segment of name
/// characters together with the dot and the extension.
pub open spec fn remote_file_name(url: Seq<char>) -> Seq<char> {
    url.subrange(name_run_start(url, url.len() - 4), url.len() as int)
}

/// Derives the stored file name from a remote URL, or `None` when the URL
/// has no usable trailing segment — the condition on which a run aborts.
#[verifier::loop_isolation(false)]
pub fn extract_file_name(url: &str) -> (r: Option<String>)
    ensures
        r is Some <==> has_remote_file_name(url@),
        r matches Some(name) ==> name@ == remote_file_name(url@),
{
    let n = url.unicode_len();
    if n < 4 {
        return None;
    }
    let dot = n - 4;
    if url.get_char(dot) != '.' {
        return None;
    }
    let e1 = url.get_char(dot + 1);
    let e2 = url.get_char(dot + 2);
    let e3 = url.get_char(dot + 3);
    let png = e1 == 'p' && e2 == 'n' && e3 == 'g';
    let gif = e1 == 'g' && e2 == 'i' && e3 == 'f';
    let svg = e1 == 's' && e2 == 'v' && e3 == 'g';
    if !(png || gif || svg) {
        return None;
    }
    assert(has_supported_extension(url@));
    // Scan the name run backward from the dot.
    let mut m: usize = dot;
    while m > 0 && check_url_name_char(url.get_char(m - 1))
        invariant
            m <= dot,
            name_run_start(url@, dot as int) == name_run_start(url@, m as int),
        decreases m,
    {
        m = m - 1;
    }
    assert(name_run_start(url@, m as int) == m);
    if m == dot {
        return None;
    }
    Some(url.substring_char(m, n).to_owned())
}

} // verus!
