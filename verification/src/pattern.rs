//! The image-reference pattern shared by the link finder and the rewriter.
//!
//! A reference is `![alt](location)`: a bang, an alt text of lowercase
//! letters in square brackets, and in parentheses a location made of a
//! directory portion, a slash, and a file name — a nonempty run of file-name
//! characters, either alone or followed by a dot and one of the supported
//! image extensions `png`, `gif`, `svg`.

use vstd::prelude::*;

verus! {

/// Characters allowed in the alt text between `![` and `]`.
pub open spec fn is_format_char(c: char) -> bool {
    'a' <= c && c <= 'z'
}

/// Characters allowed in the directory portion of a location.
pub open spec fn is_directory_char(c: char) -> bool {
    ||| ('a' <= c && c <= 'z')
    ||| ('0' <= c && c <= '9')
    ||| c == ':'
    ||| c == '/'
    ||| c == '-'
    ||| c == '.'
    ||| c == '_'
}

/// Characters allowed in the file-name portion of a location, apart from
/// the dot that separates the name from its extension.
pub open spec fn is_file_name_char(c: char) -> bool {
    ||| ('a' <= c && c <= 'z')
    ||| ('A' <= c && c <= 'Z')
    ||| ('0' <= c && c <= '9')
    ||| c == '_'
}

/// Any character that may appear somewhere in a location.
pub open spec fn is_location_char(c: char) -> bool {
    is_directory_char(c) || is_file_name_char(c)
}

pub fn check_format_char(c: char) -> (r: bool)
    ensures
        r == is_format_char(c),
{
    'a' <= c && c <= 'z'
}

pub fn check_directory_char(c: char) -> (r: bool)
    ensures
        r == is_directory_char(c),
{
    ('a' <= c && c <= 'z') || ('0' <= c && c <= '9') || c == ':' || c == '/' || c == '-'
        || c == '.' || c == '_'
}

pub fn check_file_name_char(c: char) -> (r: bool)
    ensures
        r == is_file_name_char(c),
{
    ('a' <= c && c <= 'z') || ('A' <= c && c <= 'Z') || ('0' <= c && c <= '9') || c == '_'
}

pub fn check_location_char(c: char) -> (r: bool)
    ensures
        r == is_location_char(c),
{
    check_directory_char(c) || check_file_name_char(c)
}

/// The string ends with a dot and one of the supported image extensions
/// `png`, `gif`, `svg`.
pub open spec fn has_supported_extension(s: Seq<char>) -> bool {
    &&& s.len() >= 4
    &&& s[s.len() - 4] == '.'
    &&& {
        ||| (s[s.len() - 3] == 'p' && s[s.len() - 2] == 'n' && s[s.len() - 1] == 'g')
        ||| (s[s.len() - 3] == 'g' && s[s.len() - 2] == 'i' && s[s.len() - 1] == 'f')
        ||| (s[s.len() - 3] == 's' && s[s.len() - 2] == 'v' && s[s.len() - 1] == 'g')
    }
}

/// A file name without an extension: a nonempty run of file-name characters.
pub open spec fn is_plain_file_name(f: Seq<char>) -> bool {
    f.len() >= 1 && forall|j: int| 0 <= j < f.len() ==> is_file_name_char(#[trigger] f[j])
}

/// A file name with an extension: a nonempty run of file-name characters
/// followed by a dot and a supported extension.
pub open spec fn is_extended_file_name(f: Seq<char>) -> bool {
    &&& f.len() >= 5
    &&& has_supported_extension(f)
    &&& forall|j: int| 0 <= j < f.len() - 4 ==> is_file_name_char(#[trigger] f[j])
}

/// A well-formed file name.
pub open spec fn valid_file_name(f: Seq<char>) -> bool {
    is_plain_file_name(f) || is_extended_file_name(f)
}

/// A well-formed file name holds no slash.
pub proof fn lemma_file_name_no_slash(f: Seq<char>, j: int)
    requires
        valid_file_name(f),
        0 <= j < f.len(),
    ensures
        f[j] != '/',
{
    if is_plain_file_name(f) {
        assert(is_file_name_char(f[j]));
    } else {
        if j < f.len() - 4 {
            assert(is_file_name_char(f[j]));
        }
    }
}

/// The location `s` splits at index `k`: a slash with only directory
/// characters before it and a well-formed file name after it.
pub open spec fn splits_at(s: Seq<char>, k: int) -> bool {
    &&& 0 <= k
    &&& k + 1 < s.len()
    &&& s[k] == '/'
    &&& forall|j: int| 0 <= j < k ==> is_directory_char(#[trigger] s[j])
    &&& valid_file_name(s.subrange(k + 1, s.len() as int))
}

/// A well-formed location: directory portion, slash, nonempty file name.
pub open spec fn is_location(s: Seq<char>) -> bool {
    exists|k: int| splits_at(s, k)
}

/// The split index of a well-formed location (unique, by
/// `lemma_split_unique`).
pub open spec fn split_of(s: Seq<char>) -> int {
    choose|k: int| splits_at(s, k)
}

/// The file-name portion of a well-formed location: everything after its
/// last slash.
pub open spec fn file_name_of(s: Seq<char>) -> Seq<char> {
    s.subrange(split_of(s) + 1, s.len() as int)
}

/// A location splits at one index only.
pub proof fn lemma_split_unique(s: Seq<char>, k1: int, k2: int)
    requires
        splits_at(s, k1),
        splits_at(s, k2),
    ensures
        k1 == k2,
{
    if k1 < k2 {
        let f = s.subrange(k1 + 1, s.len() as int);
        assert(f[k2 - k1 - 1] == s[k2]);
        lemma_file_name_no_slash(f, k2 - k1 - 1);
        assert(false);
    }
    if k2 < k1 {
        let f = s.subrange(k2 + 1, s.len() as int);
        assert(f[k1 - k2 - 1] == s[k1]);
        lemma_file_name_no_slash(f, k1 - k2 - 1);
        assert(false);
    }
}

/// A location can split only at its last slash: if `k` is a slash with no
/// slash after it, the location is well formed exactly when it splits there.
pub proof fn lemma_split_at_last_slash(s: Seq<char>, k: int)
    requires
        0 <= k < s.len(),
        s[k] == '/',
        forall|j: int| k < j < s.len() ==> s[j] != '/',
    ensures
        is_location(s) <==> splits_at(s, k),
        is_location(s) ==> split_of(s) == k,
{
    if is_location(s) {
        let k2 = choose|k2: int| splits_at(s, k2);
        if k2 < k {
            let f = s.subrange(k2 + 1, s.len() as int);
            assert(f[k - k2 - 1] == s[k]);
            lemma_file_name_no_slash(f, k - k2 - 1);
            assert(false);
        }
        if k < k2 {
            assert(s[k2] == '/');
            assert(false);
        }
        assert(splits_at(s, k));
        lemma_split_unique(s, split_of(s), k);
    }
}

/// Index just past the run of alt-text characters starting at `i`.
pub open spec fn format_run_end(text: Seq<char>, i: int) -> int
    decreases text.len() - i,
{
    if i < text.len() && is_format_char(text[i]) {
        format_run_end(text, i + 1)
    } else {
        i
    }
}

/// Index just past the run of location characters starting at `i`.
pub open spec fn location_run_end(text: Seq<char>, i: int) -> int
    decreases text.len() - i,
{
    if i < text.len() && is_location_char(text[i]) {
        location_run_end(text, i + 1)
    } else {
        i
    }
}

/// Bounds and content of the alt-text run.
pub proof fn lemma_format_run(text: Seq<char>, i: int)
    requires
        0 <= i <= text.len(),
    ensures
        i <= format_run_end(text, i) <= text.len(),
        forall|j: int| i <= j < format_run_end(text, i) ==> is_format_char(#[trigger] text[j]),
        format_run_end(text, i) < text.len() ==> !is_format_char(text[format_run_end(text, i)]),
    decreases text.len() - i,
{
    if i < text.len() && is_format_char(text[i]) {
        lemma_format_run(text, i + 1);
    }
}

/// Bounds and content of the location run.
pub proof fn lemma_location_run(text: Seq<char>, i: int)
    requires
        0 <= i <= text.len(),
    ensures
        i <= location_run_end(text, i) <= text.len(),
        forall|j: int| i <= j < location_run_end(text, i) ==> is_location_char(#[trigger] text[j]),
        location_run_end(text, i) < text.len() ==> !is_location_char(
            text[location_run_end(text, i)],
        ),
    decreases text.len() - i,
{
    if i < text.len() && is_location_char(text[i]) {
        lemma_location_run(text, i + 1);
    }
}

/// Index of the closing `]` of a match starting at `i`.
pub open spec fn format_end(text: Seq<char>, i: int) -> int {
    format_run_end(text, i + 2)
}

/// Index of the first location character of a match starting at `i`.
pub open spec fn location_start(text: Seq<char>, i: int) -> int {
    format_end(text, i) + 2
}

/// Index of the closing `)` of a match starting at `i`.
pub open spec fn location_end(text: Seq<char>, i: int) -> int {
    location_run_end(text, location_start(text, i))
}

/// Index just past a match starting at `i`.
pub open spec fn match_end(text: Seq<char>, i: int) -> int {
    location_end(text, i) + 1
}

/// The location captured by a match starting at `i`.
pub open spec fn location_of(text: Seq<char>, i: int) -> Seq<char> {
    text.subrange(location_start(text, i), location_end(text, i))
}

/// The bracket prefix captured by a match starting at `i`, e.g. `![alt]`.
pub open spec fn format_of(text: Seq<char>, i: int) -> Seq<char> {
    text.subrange(i, format_end(text, i) + 1)
}

/// The image-reference pattern matches `text` at position `i`.
pub open spec fn matches_at(text: Seq<char>, i: int) -> bool {
    &&& 0 <= i
    &&& i + 1 < text.len()
    &&& text[i] == '!'
    &&& text[i + 1] == '['
    &&& format_end(text, i) + 1 < text.len()
    &&& text[format_end(text, i)] == ']'
    &&& text[format_end(text, i) + 1] == '('
    &&& location_end(text, i) < text.len()
    &&& text[location_end(text, i)] == ')'
    &&& is_location(location_of(text, i))
}

/// A match occupies at least five characters and ends within the text.
pub proof fn lemma_match_bounds(text: Seq<char>, i: int)
    requires
        matches_at(text, i),
    ensures
        i + 2 <= format_end(text, i),
        format_end(text, i) + 2 == location_start(text, i) <= location_end(text, i),
        i < match_end(text, i) <= text.len(),
{
    lemma_format_run(text, i + 2);
    lemma_location_run(text, location_start(text, i));
}

/// The parts of one match, as character indices into the scanned text.
pub struct MatchParts {
    /// Index of the closing `]`.
    pub format_end: usize,
    /// Index of the first location character.
    pub loc_start: usize,
    /// Index of the first file-name character, just after the last slash.
    pub name_start: usize,
    /// Index of the closing `)`.
    pub loc_end: usize,
}

/// Whether the parts agree with the spec-level description of the match at
/// `i`.
pub open spec fn match_parts_ok(p: MatchParts, text: Seq<char>, i: int) -> bool {
    &&& p.format_end == format_end(text, i)
    &&& p.loc_start == location_start(text, i)
    &&& p.loc_end == location_end(text, i)
    &&& p.name_start == p.loc_start + split_of(location_of(text, i)) + 1
    &&& p.loc_start <= p.name_start <= p.loc_end
}

/// Attempts to match the image-reference pattern at position `i`.
#[verifier::loop_isolation(false)]
pub fn try_match_at(text: &str, i: usize, n: usize) -> (r: Option<MatchParts>)
    requires
        n == text@.len(),
        i < n,
    ensures
        r is Some <==> matches_at(text@, i as int),
        r is Some ==> match_parts_ok(r.unwrap(), text@, i as int),
{
    if text.get_char(i) != '!' {
        return None;
    }
    if i + 1 >= n || text.get_char(i + 1) != '[' {
        return None;
    }
    // Scan the alt-text run.
    let mut fe: usize = i + 2;
    while fe < n && check_format_char(text.get_char(fe))
        invariant
            i + 2 <= fe <= n,
            format_run_end(text@, i + 2) == format_run_end(text@, fe as int),
        decreases n - fe,
    {
        fe = fe + 1;
    }
    assert(format_run_end(text@, fe as int) == fe);
    assert(fe == format_end(text@, i as int));
    if fe >= n || text.get_char(fe) != ']' {
        return None;
    }
    if fe + 1 >= n || text.get_char(fe + 1) != '(' {
        return None;
    }
    // Scan the location run.
    let ls: usize = fe + 2;
    let mut le: usize = ls;
    while le < n && check_location_char(text.get_char(le))
        invariant
            ls <= le <= n,
            location_run_end(text@, ls as int) == location_run_end(text@, le as int),
        decreases n - le,
    {
        le = le + 1;
    }
    assert(location_run_end(text@, le as int) == le);
    assert(le == location_end(text@, i as int));
    if le >= n || text.get_char(le) != ')' {
        return None;
    }
    let ghost loc = location_of(text@, i as int);
    assert(loc =~= text@.subrange(ls as int, le as int));
    // Find the last slash of the location.
    let mut m: usize = le;
    let mut slash: usize = 0;
    let mut found: bool = false;
    while m > ls
        invariant
            ls <= m <= le,
            found ==> m <= slash < le && text@[slash as int] == '/',
            found ==> forall|j: int| slash < j < le ==> text@[j] != '/',
            !found ==> forall|j: int| m <= j < le ==> text@[j] != '/',
        decreases m - ls,
    {
        m = m - 1;
        if !found && text.get_char(m) == '/' {
            slash = m;
            found = true;
        }
    }
    if !found {
        // No slash: the location cannot split anywhere.
        proof {
            assert forall|k: int| !splits_at(loc, k) by {
                if splits_at(loc, k) {
                    assert(loc[k] == text@[ls + k]);
                    assert(false);
                }
            }
        }
        return None;
    }
    proof {
        assert forall|j: int| slash - ls < j < loc.len() implies loc[j] != '/' by {
            assert(loc[j] == text@[ls + j]);
        }
        assert(loc[slash - ls] == text@[slash as int]);
        lemma_split_at_last_slash(loc, slash - ls);
    }
    // The location is well formed exactly when it splits at that slash:
    // a well-formed file name after it, directory characters before it.
    if slash + 1 >= le {
        assert(!splits_at(loc, slash - ls));
        return None;
    }
    let ghost f = loc.subrange(slash - ls + 1, loc.len() as int);
    proof {
        assert forall|x: int| 0 <= x < f.len() implies f[x] == text@[slash + 1 + x] by {
            assert(f[x] == loc[slash - ls + 1 + x]);
        }
    }
    let has_ext: bool = le - (slash + 1) >= 5 && text.get_char(le - 4) == '.';
    let mut base_end: usize = le;
    if has_ext {
        let e1 = text.get_char(le - 3);
        let e2 = text.get_char(le - 2);
        let e3 = text.get_char(le - 1);
        let png = e1 == 'p' && e2 == 'n' && e3 == 'g';
        let gif = e1 == 'g' && e2 == 'i' && e3 == 'f';
        let svg = e1 == 's' && e2 == 'v' && e3 == 'g';
        proof {
            assert(f[f.len() - 4] == text@[le - 4]);
            assert(f[f.len() - 3] == text@[le - 3]);
            assert(f[f.len() - 2] == text@[le - 2]);
            assert(f[f.len() - 1] == text@[le - 1]);
        }
        if !(png || gif || svg) {
            proof {
                assert(!is_plain_file_name(f));
                assert(!has_supported_extension(f));
                assert(!splits_at(loc, slash - ls));
            }
            return None;
        }
        assert(has_supported_extension(f));
        base_end = le - 4;
    }
    let mut j: usize = slash + 1;
    while j < base_end
        invariant
            slash + 1 <= j <= base_end <= le,
            forall|k: int| slash + 1 <= k < j ==> is_file_name_char(#[trigger] text@[k]),
        decreases base_end - j,
    {
        if !check_file_name_char(text.get_char(j)) {
            proof {
                assert(f[j - (slash + 1)] == text@[j as int]);
                assert(!is_plain_file_name(f));
                if !has_ext && f.len() >= 5 {
                    assert(f[f.len() - 4] == text@[le - 4]);
                }
                assert(!is_extended_file_name(f));
                assert(!splits_at(loc, slash - ls));
            }
            return None;
        }
        j = j + 1;
    }
    proof {
        assert forall|k: int| 0 <= k < base_end - (slash + 1) implies is_file_name_char(
            f[k],
        ) by {
            assert(f[k] == text@[slash + 1 + k]);
        }
        if has_ext {
            assert(is_extended_file_name(f));
        } else {
            assert(is_plain_file_name(f));
        }
    }
    let mut d: usize = ls;
    while d < slash
        invariant
            ls <= d <= slash,
            forall|k: int| ls <= k < d ==> is_directory_char(#[trigger] text@[k]),
        decreases slash - d,
    {
        if !check_directory_char(text.get_char(d)) {
            proof {
                assert(loc[d - ls] == text@[d as int]);
                assert(!splits_at(loc, slash - ls));
            }
            return None;
        }
        d = d + 1;
    }
    proof {
        assert forall|k: int| 0 <= k < slash - ls implies is_directory_char(loc[k]) by {
            assert(loc[k] == text@[ls + k]);
        }
        assert(splits_at(loc, slash - ls));
        lemma_split_at_last_slash(loc, slash - ls);
    }
    Some(
        MatchParts {
            format_end: fe,
            loc_start: ls,
            name_start: slash + 1,
            loc_end: le,
        },
    )
}

} // verus!
