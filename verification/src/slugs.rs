//! Slug derivation: the URL-safe form of a title, and the numbered
//! candidates that are tried when that form is already taken.

use crate::history::{occupies, slug_in_use};
use crate::models::RevisionView;
use crate::text::{decimal, lemma_decimal_injective, lemma_decimal_value, push_decimal};
use vstd::prelude::*;
use vstd::relations::injective_on;
use vstd::set_lib::{lemma_int_range, lemma_len_subset, lemma_map_size, set_int_range};

verus! {

/// The slug that the `slug` crate derives from `text`: its transliteration
/// to ASCII, lower-cased, with every run of other characters collapsed to
/// one `-` and none at either end.
pub uninterp spec fn slugified(text: Seq<char>) -> Seq<char>;

/// Whether `c` may stand in a slug: a lower-case letter of the Latin
/// alphabet, a digit or a hyphen.
pub open spec fn is_slug_char(c: char) -> bool {
    ||| 'a' <= c <= 'z'
    ||| '0' <= c <= '9'
    ||| c == '-'
}

/// Whether `text` is made of the characters of slugs.
pub open spec fn is_slug_text(text: Seq<char>) -> bool {
    forall|i: int| 0 <= i < text.len() ==> is_slug_char(#[trigger] text[i])
}

/// Calls `slug::slugify`. The result is a function of the text alone and is
/// known to the proofs under the name `slugified`; it consists of the
/// letters `a` to `z`, digits and hyphens.
#[verifier::external_body]
pub(crate) fn slugify(text: &str) -> (slug: String)
    ensures
        slug@ == slugified(text@),
        is_slug_text(slug@),
{
    ::slug::slugify(text)
}

/// Whether `text` is made of the characters of slugs.
pub fn is_slug(text: &str) -> (plain: bool)
    ensures
        plain == is_slug_text(text@),
{
    for c in it: text.chars()
        invariant
            it.seq() == text@,
            is_slug_text(text@.take(it.index() as int)),
    {
        if !(('a' <= c && c <= 'z') || ('0' <= c && c <= '9') || c == '-') {
            assert(!is_slug_char(text@[it.index() as int]));
            return false;
        }
        assert forall|i: int| 0 <= i < it.index() + 1 implies is_slug_char(
            #[trigger] text@.take(it.index() as int + 1)[i],
        ) by {
            if i < it.index() {
                assert(text@.take(it.index() as int)[i] == text@[i]);
            }
        }
    }
    assert(text@.take(text@.len() as int) =~= text@);
    true
}

/// The slug given to an article whose title slugifies to nothing.
pub open spec fn fallback_slug() -> Seq<char> {
    seq!['a', 'r', 't', 'i', 'c', 'l', 'e']
}

/// The slug to start disambiguation from for a title with the given slug.
pub open spec fn base_slug(slugified_title: Seq<char>) -> Seq<char> {
    if slugified_title.len() == 0 {
        fallback_slug()
    } else {
        slugified_title
    }
}

/// The `n`-th candidate for a base slug: the base itself, then the base
/// followed by `-2`, `-3`, and so on.
pub open spec fn candidate(base: Seq<char>, n: nat) -> Seq<char> {
    if n <= 1 {
        base
    } else {
        base + seq!['-'] + decimal(n)
    }
}

/// Distinct positions give distinct candidates.
pub proof fn lemma_candidate_injective(base: Seq<char>, n: nat, m: nat)
    requires
        1 <= n,
        1 <= m,
        candidate(base, n) == candidate(base, m),
    ensures
        n == m,
{
    lemma_decimal_value(n);
    lemma_decimal_value(m);
    if n >= 2 && m >= 2 {
        let prefix = base + seq!['-'];
        assert(candidate(base, n).skip(prefix.len() as int) =~= decimal(n));
        assert(candidate(base, m).skip(prefix.len() as int) =~= decimal(m));
        lemma_decimal_injective(n, m);
    } else if n >= 2 {
        assert(candidate(base, n).len() > base.len());
    } else if m >= 2 {
        assert(candidate(base, m).len() > base.len());
    }
}

/// Builds the `n`-th candidate for `base`.
pub fn make_candidate(base: &str, n: u32) -> (slug: String)
    ensures
        slug@ == candidate(base@, n as nat),
{
    let mut slug = base.to_owned();
    if n > 1 {
        slug.push('-');
        push_decimal(&mut slug, n);
        assert(slug@ =~= base@ + seq!['-'] + decimal(n as nat));
    }
    slug
}

/// `n` is the position of the first candidate for `base` that the latest
/// revision of no other article holds.
pub open spec fn is_first_free(
    rows: Seq<RevisionView>,
    article_id: int,
    base: Seq<char>,
    n: nat,
) -> bool {
    &&& n >= 1
    &&& !slug_in_use(rows, article_id, candidate(base, n))
    &&& forall|m: nat| 1 <= m < n ==> slug_in_use(rows, article_id, #[trigger] candidate(base, m))
}

/// The first candidate for `base` that the latest revision of no other
/// article holds.
pub open spec fn disambiguated(rows: Seq<RevisionView>, article_id: int, base: Seq<char>) -> Seq<
    char,
> {
    candidate(base, choose|n: nat| is_first_free(rows, article_id, base, n))
}

/// The slug for an article that gets the title `title`, given the title and
/// the slug that it had before, if any.
///
/// The front page, which has the empty slug, keeps it. An unchanged title
/// keeps the slug as it is. A title whose slug is the previous slug keeps
/// it too. Any other title gets the first free candidate for its slug, or
/// for the fallback slug if it slugifies to nothing.
pub open spec fn decided_slug(
    rows: Seq<RevisionView>,
    article_id: int,
    prev_title: Seq<char>,
    title: Seq<char>,
    prev_slug: Option<Seq<char>>,
) -> Seq<char> {
    let derived = slugified(title);
    if prev_slug is Some && prev_slug->0.len() == 0 {
        Seq::empty()
    } else if prev_slug is Some && title == prev_title {
        prev_slug->0
    } else if prev_slug is Some && derived == prev_slug->0 {
        derived
    } else {
        disambiguated(rows, article_id, base_slug(derived))
    }
}

/// If the first candidates for a base are all taken, there are at most as
/// many of them as the table has rows.
pub proof fn lemma_taken_candidates_bounded(
    rows: Seq<RevisionView>,
    article_id: int,
    base: Seq<char>,
    n: nat,
)
    requires
        forall|m: nat| 1 <= m < n ==> slug_in_use(rows, article_id, #[trigger] candidate(base, m)),
    ensures
        n <= rows.len() + 1,
{
    if n >= 2 {
        let holder = |m: int|
            choose|i: int| #[trigger] occupies(rows, article_id, candidate(base, m as nat), i);
        let positions = set_int_range(1, n as int);
        let holders = positions.map(holder);
        let indices = set_int_range(0, rows.len() as int);
        lemma_int_range(1, n as int);
        lemma_int_range(0, rows.len() as int);
        assert forall|m: int| positions.contains(m) implies occupies(
            rows,
            article_id,
            candidate(base, m as nat),
            #[trigger] holder(m),
        ) by {
            assert(slug_in_use(rows, article_id, candidate(base, m as nat)));
        }
        assert forall|m1: int, m2: int|
            positions.contains(m1) && positions.contains(m2) && #[trigger] holder(m1)
                == #[trigger] holder(m2) implies m1 == m2 by {
            lemma_candidate_injective(base, m1 as nat, m2 as nat);
        }
        assert(injective_on(holder, positions));
        lemma_map_size(positions, holders, holder);
        assert(holders.subset_of(indices));
        lemma_len_subset(holders, indices);
    }
}

/// Some candidate for a base is free, so the first free one exists.
pub proof fn lemma_first_free_exists(rows: Seq<RevisionView>, article_id: int, base: Seq<char>)
    ensures
        is_first_free(rows, article_id, base, choose|n: nat| is_first_free(rows, article_id, base, n)),
        !slug_in_use(rows, article_id, disambiguated(rows, article_id, base)),
{
    let n = lemma_first_free_from(rows, article_id, base, 1);
}

/// Searches for the first free candidate from position `n` on, all earlier
/// ones being taken.
proof fn lemma_first_free_from(
    rows: Seq<RevisionView>,
    article_id: int,
    base: Seq<char>,
    n: nat,
) -> (found: nat)
    requires
        n >= 1,
        forall|m: nat| 1 <= m < n ==> slug_in_use(rows, article_id, #[trigger] candidate(base, m)),
    ensures
        is_first_free(rows, article_id, base, found),
    decreases rows.len() + 1 - n,
{
    if slug_in_use(rows, article_id, candidate(base, n)) {
        lemma_taken_candidates_bounded(rows, article_id, base, n + 1);
        lemma_first_free_from(rows, article_id, base, n + 1)
    } else {
        n
    }
}

/// There is only one first free candidate.
pub proof fn lemma_first_free_unique(
    rows: Seq<RevisionView>,
    article_id: int,
    base: Seq<char>,
    n: nat,
)
    requires
        is_first_free(rows, article_id, base, n),
    ensures
        disambiguated(rows, article_id, base) == candidate(base, n),
{
    let m = choose|m: nat| is_first_free(rows, article_id, base, m);
    if m < n {
        assert(slug_in_use(rows, article_id, candidate(base, m)));
    } else if n < m {
        assert(slug_in_use(rows, article_id, candidate(base, n)));
    }
}

/// The decided slug is empty only for the front page, and is either the
/// slug that the article had or one that no other article holds.
pub proof fn lemma_decided_slug(
    rows: Seq<RevisionView>,
    article_id: int,
    prev_title: Seq<char>,
    title: Seq<char>,
    prev_slug: Option<Seq<char>>,
)
    ensures
        decided_slug(rows, article_id, prev_title, title, prev_slug).len() == 0 <==> prev_slug
            == Some(Seq::<char>::empty()),
        prev_slug == Some(decided_slug(rows, article_id, prev_title, title, prev_slug))
            || !slug_in_use(
            rows,
            article_id,
            decided_slug(rows, article_id, prev_title, title, prev_slug),
        ),
{
    let base = base_slug(slugified(title));
    lemma_first_free_exists(rows, article_id, base);
    if prev_slug is Some && prev_slug->0.len() == 0 {
        assert(prev_slug->0 =~= Seq::<char>::empty());
    }
}

} // verus!
