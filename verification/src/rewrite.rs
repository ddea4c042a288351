//! The rewriter: a second pass over the same document with the same pattern,
//! replacing the directory portion of every matched location with a target
//! directory and keeping the file name.

use vstd::prelude::*;

use crate::pattern::{
    file_name_of, format_of, location_of, match_end, matches_at, try_match_at,
};

verus! {

/// The document rewritten from position `i` on: at a match, the bracket
/// prefix is kept, the location is replaced by the target directory followed
/// by the matched file name, and the scan resumes just past the match; any
/// other character is copied unchanged.
pub open spec fn rewrite_from(text: Seq<char>, i: int, target: Seq<char>) -> Seq<char>
    decreases text.len() - i,
{
    if i < 0 || i >= text.len() {
        Seq::<char>::empty()
    } else if matches_at(text, i) {
        proof {
            crate::pattern::lemma_match_bounds(text, i);
        }
        format_of(text, i) + seq!['('] + target + file_name_of(location_of(text, i)) + seq![')']
            + rewrite_from(text, match_end(text, i), target)
    } else {
        seq![text[i]] + rewrite_from(text, i + 1, target)
    }
}

proof fn lemma_no_links_rewrite_identity_from(text: Seq<char>, i: int, target: Seq<char>)
    requires
        0 <= i <= text.len(),
        crate::links::links_from(text, i) == Seq::<crate::links::LinkModel>::empty(),
    ensures
        rewrite_from(text, i, target) == text.subrange(i, text.len() as int),
    decreases text.len() - i,
{
    if i < text.len() {
        if matches_at(text, i) {
            assert(crate::links::links_from(text, i).len() >= 1);
            assert(false);
        } else {
            lemma_no_links_rewrite_identity_from(text, i + 1, target);
            assert(seq![text[i]] + text.subrange(i + 1, text.len() as int) =~= text.subrange(
                i,
                text.len() as int,
            ));
        }
    } else {
        assert(text.subrange(i, text.len() as int) =~= Seq::<char>::empty());
    }
}

/// Law: the rewriter and the finder share one pattern — a document in which
/// the finder finds no link is rewritten to itself, whatever the target.
pub proof fn lemma_no_links_rewrite_identity(text: Seq<char>, target: Seq<char>)
    requires
        crate::links::links_from(text, 0) == Seq::<crate::links::LinkModel>::empty(),
    ensures
        rewrite_from(text, 0, target) == text,
{
    lemma_no_links_rewrite_identity_from(text, 0, target);
    assert(text.subrange(0, text.len() as int) =~= text);
}

/// Rewrites every image reference of `content` to point into `target`,
/// keeping each reference's bracket prefix and file name and discarding the
/// directory portion of its location. `target` is prepended verbatim: a
/// trailing separator is the caller's affair.
#[verifier::loop_isolation(false)]
pub fn replace_url_paths_with_new_references(content: String, target: String) -> (result: String)
    ensures
        result@ == rewrite_from(content@, 0, target@),
{
    let s = content.as_str();
    let n = s.unicode_len();
    let mut result = String::new();
    let mut i: usize = 0;
    while i < n
        invariant
            i <= n,
            rewrite_from(content@, 0, target@) == result@ + rewrite_from(
                content@,
                i as int,
                target@,
            ),
        decreases n - i,
    {
        let ghost prev = result@;
        match try_match_at(s, i, n) {
            Some(p) => {
                proof {
                    crate::pattern::lemma_match_bounds(content@, i as int);
                }
                result.append(s.substring_char(i, p.format_end + 1));
                result.append("(");
                result.append(target.as_str());
                result.append(s.substring_char(p.name_start, p.loc_end));
                result.append(")");
                proof {
                    reveal_strlit("(");
                    reveal_strlit(")");
                    let t = content@;
                    let gi = i as int;
                    let loc = location_of(t, gi);
                    assert(loc =~= t.subrange(p.loc_start as int, p.loc_end as int));
                    assert(file_name_of(loc) =~= t.subrange(
                        p.name_start as int,
                        p.loc_end as int,
                    ));
                    assert(format_of(t, gi) =~= t.subrange(gi, p.format_end + 1));
                    assert("("@ =~= seq!['(']);
                    assert(")"@ =~= seq![')']);
                    assert(result@ =~= prev + (format_of(t, gi) + seq!['('] + target@
                        + file_name_of(loc) + seq![')']));
                    assert(prev + rewrite_from(t, gi, target@) =~= result@ + rewrite_from(
                        t,
                        match_end(t, gi),
                        target@,
                    ));
                }
                i = p.loc_end + 1;
            },
            None => {
                result.append(s.substring_char(i, i + 1));
                proof {
                    assert(result@ =~= prev + seq![content@[i as int]]);
                    assert(prev + rewrite_from(content@, i as int, target@) =~= result@
                        + rewrite_from(content@, i + 1, target@));
                }
                i = i + 1;
            },
        }
    }
    proof {
        assert(rewrite_from(content@, n as int, target@) =~= Seq::<char>::empty());
        assert(result@ =~= result@ + Seq::<char>::empty());
    }
    result
}

} // verus!
