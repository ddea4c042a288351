//! The link finder: one pass over the document, returning every image
//! reference with its remote/local classification, in order of appearance.

use vstd::prelude::*;

use crate::pattern::{location_of, match_end, matches_at, try_match_at};

verus! {

/// One matched image reference.
pub struct Link {
    /// True when the location does not begin with the literal prefix `http`.
    pub is_local: bool,
    /// The text captured between the parentheses of the reference.
    pub location: String,
}

/// Mathematical model of a [`Link`].
pub ghost struct LinkModel {
    pub location: Seq<char>,
    pub is_local: bool,
}

impl View for Link {
    type V = LinkModel;

    open spec fn view(&self) -> LinkModel {
        LinkModel { location: self.location@, is_local: self.is_local }
    }
}

/// A location is classified remote exactly when it begins with `http`.
pub open spec fn starts_with_http(s: Seq<char>) -> bool {
    s.len() >= 4 && s[0] == 'h' && s[1] == 't' && s[2] == 't' && s[3] == 'p'
}

/// The link produced by the match at position `i`.
pub open spec fn link_at(text: Seq<char>, i: int) -> LinkModel {
    LinkModel {
        location: location_of(text, i),
        is_local: !starts_with_http(location_of(text, i)),
    }
}

/// The links found scanning `text` left to right from position `i`:
/// at a match, emit its link and resume just past it; otherwise move on by
/// one character.
pub open spec fn links_from(text: Seq<char>, i: int) -> Seq<LinkModel>
    decreases text.len() - i,
{
    if i < 0 || i >= text.len() {
        Seq::<LinkModel>::empty()
    } else if matches_at(text, i) {
        proof {
            crate::pattern::lemma_match_bounds(text, i);
        }
        seq![link_at(text, i)] + links_from(text, match_end(text, i))
    } else {
        links_from(text, i + 1)
    }
}

proof fn lemma_no_match_no_links_from(text: Seq<char>, i: int)
    requires
        forall|k: int| !matches_at(text, k),
        0 <= i,
    ensures
        links_from(text, i) == Seq::<LinkModel>::empty(),
    decreases text.len() - i,
{
    if i < text.len() {
        lemma_no_match_no_links_from(text, i + 1);
    }
}

/// Law: a text in which the image pattern matches nowhere yields no links.
pub proof fn lemma_no_matches_no_links(text: Seq<char>)
    requires
        forall|k: int| !matches_at(text, k),
    ensures
        links_from(text, 0) == Seq::<LinkModel>::empty(),
{
    lemma_no_match_no_links_from(text, 0);
}

/// Law: a text without `!` holds no image syntax at all, so the finder
/// returns the empty sequence on it.
pub proof fn lemma_no_bang_no_links(text: Seq<char>)
    requires
        forall|k: int| 0 <= k < text.len() ==> text[k] != '!',
    ensures
        links_from(text, 0) == Seq::<LinkModel>::empty(),
{
    assert forall|k: int| !matches_at(text, k) by {
        if matches_at(text, k) {
            assert(text[k] == '!');
        }
    }
    lemma_no_matches_no_links(text);
}

/// Law: the scan is a pure function of the text — two sequences of links
/// obtained from the same text are identical.
pub proof fn lemma_finder_idempotent(
    text: Seq<char>,
    first: Seq<LinkModel>,
    second: Seq<LinkModel>,
)
    requires
        first == links_from(text, 0),
        second == links_from(text, 0),
    ensures
        first == second,
{
}

proof fn lemma_links_classified_from(text: Seq<char>, i: int)
    ensures
        forall|k: int|
            0 <= k < links_from(text, i).len() ==> (#[trigger] links_from(text, i)[k]).is_local
                == !starts_with_http(links_from(text, i)[k].location),
    decreases text.len() - i,
{
    if 0 <= i < text.len() {
        if matches_at(text, i) {
            crate::pattern::lemma_match_bounds(text, i);
            let rest = links_from(text, match_end(text, i));
            lemma_links_classified_from(text, match_end(text, i));
            assert(links_from(text, i) == seq![link_at(text, i)] + rest);
            assert forall|k: int| 0 <= k < links_from(text, i).len() implies (
            #[trigger] links_from(text, i)[k]).is_local == !starts_with_http(
                links_from(text, i)[k].location,
            ) by {
                if k == 0 {
                    assert(links_from(text, i)[k] == link_at(text, i));
                } else {
                    assert(links_from(text, i)[k] == rest[k - 1]);
                }
            }
        } else {
            lemma_links_classified_from(text, i + 1);
            assert forall|k: int| 0 <= k < links_from(text, i).len() implies (
            #[trigger] links_from(text, i)[k]).is_local == !starts_with_http(
                links_from(text, i)[k].location,
            ) by {
                assert(links_from(text, i)[k] == links_from(text, i + 1)[k]);
            }
        }
    }
}

/// Law: every link the finder returns is classified local exactly when its
/// location does not begin with the literal prefix `http`.
pub proof fn lemma_links_classified(text: Seq<char>)
    ensures
        forall|k: int|
            0 <= k < links_from(text, 0).len() ==> (#[trigger] links_from(text, 0)[k]).is_local
                == !starts_with_http(links_from(text, 0)[k].location),
{
    lemma_links_classified_from(text, 0);
}

fn location_is_local(loc: &str) -> (r: bool)
    ensures
        r == !starts_with_http(loc@),
{
    if loc.unicode_len() < 4 {
        return true;
    }
    !(loc.get_char(0) == 'h' && loc.get_char(1) == 't' && loc.get_char(2) == 't' && loc.get_char(
        3,
    ) == 'p')
}

/// Scans the whole document and returns every image reference in order of
/// appearance, each classified as remote or local.
#[verifier::loop_isolation(false)]
pub fn find_links(text: String) -> (links: Vec<Link>)
    ensures
        links@.map_values(|l: Link| l@) == links_from(text@, 0),
{
    let s = text.as_str();
    let n = s.unicode_len();
    let mut links: Vec<Link> = Vec::new();
    let mut i: usize = 0;
    while i < n
        invariant
            i <= n,
            links_from(text@, 0) == links@.map_values(|l: Link| l@) + links_from(
                text@,
                i as int,
            ),
        decreases n - i,
    {
        let ghost prev = links@.map_values(|l: Link| l@);
        match try_match_at(s, i, n) {
            Some(p) => {
                let location = s.substring_char(p.loc_start, p.loc_end).to_owned();
                let is_local = location_is_local(location.as_str());
                let link = Link { is_local, location };
                proof {
                    crate::pattern::lemma_match_bounds(text@, i as int);
                    assert(link@ == link_at(text@, i as int));
                    assert(links_from(text@, i as int) == seq![link_at(text@, i as int)]
                        + links_from(text@, match_end(text@, i as int)));
                }
                links.push(link);
                proof {
                    assert(links@.map_values(|l: Link| l@) =~= prev + seq![
                        link_at(text@, i as int),
                    ]);
                    assert(prev + (seq![link_at(text@, i as int)] + links_from(
                        text@,
                        match_end(text@, i as int),
                    )) =~= (prev + seq![link_at(text@, i as int)]) + links_from(
                        text@,
                        match_end(text@, i as int),
                    ));
                }
                i = p.loc_end + 1;
            },
            None => {
                assert(links_from(text@, i as int) == links_from(text@, i + 1));
                i = i + 1;
            },
        }
    }
    assert(links_from(text@, n as int) =~= Seq::<LinkModel>::empty());
    assert(links@.map_values(|l: Link| l@) =~= links@.map_values(|l: Link| l@) + Seq::<
        LinkModel,
    >::empty());
    links
}

} // verus!
