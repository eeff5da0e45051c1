//! Listings of revisions without their bodies: which rows a listing takes,
//! in what order, and how many.

use crate::models::{
    option_view, stub_of, ArticleRevision, ArticleRevisionStub, RevisionView, StubView,
};
use vstd::prelude::*;

verus! {

/// The order of a listing.
#[derive(Debug, Clone, Copy, PartialEq, Eq, Structural)]
pub enum StubOrder {
    /// Oldest first.
    Sequence,
    /// Newest first.
    Newest,
    /// By title, and oldest first among equal titles.
    Title,
}

/// What a listing is to hold.
#[derive(Debug)]
pub struct StubQuery {
    /// Only the latest revision of each article.
    pub latest_only: bool,
    /// Only revisions of this article.
    pub article_id: Option<i32>,
    /// Only revisions by this author.
    pub author: Option<String>,
    /// Only revisions with a greater sequence number.
    pub after: Option<i32>,
    /// Only revisions with a smaller sequence number.
    pub before: Option<i32>,
    pub order: StubOrder,
    /// No more entries than this.
    pub limit: Option<usize>,
}

/// The mathematical content of a `StubQuery`.
pub struct StubQueryView {
    pub latest_only: bool,
    pub article_id: Option<int>,
    pub author: Option<Seq<char>>,
    pub after: Option<int>,
    pub before: Option<int>,
    pub order: StubOrder,
    pub limit: Option<nat>,
}

/// The view of an optional number.
pub open spec fn option_int(n: Option<i32>) -> Option<int> {
    match n {
        Some(v) => Some(v as int),
        None => None,
    }
}

/// The view of an optional length.
pub open spec fn option_nat(n: Option<usize>) -> Option<nat> {
    match n {
        Some(v) => Some(v as nat),
        None => None,
    }
}

impl View for StubQuery {
    type V = StubQueryView;

    open spec fn view(&self) -> StubQueryView {
        StubQueryView {
            latest_only: self.latest_only,
            article_id: option_int(self.article_id),
            author: option_view(self.author),
            after: option_int(self.after),
            before: option_int(self.before),
            order: self.order,
            limit: option_nat(self.limit),
        }
    }
}

/// The listing of the latest revision of every article, by title.
pub open spec fn latest_by_title() -> StubQueryView {
    StubQueryView {
        latest_only: true,
        article_id: None,
        author: None,
        after: None,
        before: None,
        order: StubOrder::Title,
        limit: None,
    }
}

/// Whether the listing takes the row.
pub open spec fn selects(query: StubQueryView, row: RevisionView) -> bool {
    &&& query.latest_only ==> row.latest
    &&& query.article_id is Some ==> row.article_id == query.article_id->0
    &&& query.author is Some ==> row.author == query.author
    &&& query.after is Some ==> row.sequence_number > query.after->0
    &&& query.before is Some ==> row.sequence_number < query.before->0
}

/// The entries for those of the first `n` rows that the listing takes,
/// oldest first.
pub open spec fn selected(rows: Seq<RevisionView>, query: StubQueryView, n: int) -> Seq<StubView>
    decreases n,
{
    if n <= 0 {
        Seq::empty()
    } else if selects(query, rows[n - 1]) {
        selected(rows, query, n - 1).push(stub_of(rows[n - 1]))
    } else {
        selected(rows, query, n - 1)
    }
}

/// Whether `a` comes before `b` in the order of the dictionary, character
/// by character, a text before its own continuations.
pub open spec fn text_before(a: Seq<char>, b: Seq<char>) -> bool
    decreases a.len(),
{
    if b.len() == 0 {
        false
    } else if a.len() == 0 {
        true
    } else if a[0] != b[0] {
        (a[0] as u32) < (b[0] as u32)
    } else {
        text_before(a.drop_first(), b.drop_first())
    }
}

/// `sorted` with `entry` put behind the last entry that does not come after
/// it.
pub open spec fn inserted(sorted: Seq<StubView>, entry: StubView) -> Seq<StubView>
    decreases sorted.len(),
{
    if sorted.len() > 0 && text_before(entry.title, sorted.last().title) {
        inserted(sorted.drop_last(), entry).push(sorted.last())
    } else {
        sorted.push(entry)
    }
}

/// The entries by title; entries with the same title keep their order.
pub open spec fn sorted_by_title(entries: Seq<StubView>) -> Seq<StubView>
    decreases entries.len(),
{
    if entries.len() == 0 {
        Seq::empty()
    } else {
        inserted(sorted_by_title(entries.drop_last()), entries.last())
    }
}

/// The entries in the order that the listing asks for.
pub open spec fn ordered(entries: Seq<StubView>, order: StubOrder) -> Seq<StubView> {
    match order {
        StubOrder::Sequence => entries,
        StubOrder::Newest => entries.reverse(),
        StubOrder::Title => sorted_by_title(entries),
    }
}

/// The first entries, as many as the limit allows.
pub open spec fn limited(entries: Seq<StubView>, limit: Option<nat>) -> Seq<StubView> {
    if limit is Some && limit->0 < entries.len() {
        entries.take(limit->0 as int)
    } else {
        entries
    }
}

/// The listing that a query asks for.
pub open spec fn listing(rows: Seq<RevisionView>, query: StubQueryView) -> Seq<StubView> {
    limited(ordered(selected(rows, query, rows.len() as int), query.order), query.limit)
}

/// No entry of the sequence comes after a later one.
pub open spec fn in_title_order(entries: Seq<StubView>) -> bool {
    forall|i: int, j: int|
        0 <= i < j < entries.len() ==> !text_before(
            (#[trigger] entries[j]).title,
            (#[trigger] entries[i]).title,
        )
}

/// Different characters have different code points.
pub proof fn lemma_code_points_distinct(x: char, y: char)
    ensures
        x as u32 == y as u32 ==> x == y,
{
}

/// No text comes before itself.
pub proof fn lemma_text_before_irreflexive(a: Seq<char>)
    ensures
        !text_before(a, a),
    decreases a.len(),
{
    if a.len() > 0 {
        lemma_text_before_irreflexive(a.drop_first());
    }
}

/// Of two texts of which neither comes before the other, each comes
/// before the same texts.
pub proof fn lemma_text_before_transitive(a: Seq<char>, b: Seq<char>, c: Seq<char>)
    ensures
        text_before(a, b) && text_before(b, c) ==> text_before(a, c),
        !text_before(b, a) && !text_before(c, b) ==> !text_before(c, a),
    decreases a.len() + b.len() + c.len(),
{
    if a.len() > 0 && b.len() > 0 && c.len() > 0 {
        lemma_text_before_transitive(a.drop_first(), b.drop_first(), c.drop_first());
        lemma_code_points_distinct(a[0], b[0]);
        lemma_code_points_distinct(b[0], c[0]);
        lemma_code_points_distinct(a[0], c[0]);
    }
}

/// Putting an entry into a sequence in title order gives a sequence in
/// title order that holds the same entries and the new one.
pub proof fn lemma_inserted(sorted: Seq<StubView>, entry: StubView)
    requires
        in_title_order(sorted),
    ensures
        in_title_order(inserted(sorted, entry)),
        inserted(sorted, entry).to_multiset() == sorted.to_multiset().insert(entry),
        inserted(sorted, entry).len() == sorted.len() + 1,
    decreases sorted.len(),
{
    broadcast use vstd::seq_lib::group_to_multiset_ensures;

    if sorted.len() > 0 && text_before(entry.title, sorted.last().title) {
        let front = sorted.drop_last();
        let last = sorted.last();
        assert forall|i: int, j: int| 0 <= i < j < front.len() implies !text_before(
            (#[trigger] front[j]).title,
            (#[trigger] front[i]).title,
        ) by {
            assert(front[i] == sorted[i] && front[j] == sorted[j]);
        }
        lemma_inserted(front, entry);
        let placed = inserted(front, entry);
        let result = placed.push(last);
        assert(sorted =~= front.push(last));
        assert forall|i: int, j: int| 0 <= i < j < result.len() implies !text_before(
            (#[trigger] result[j]).title,
            (#[trigger] result[i]).title,
        ) by {
            if j < placed.len() {
                assert(result[i] == placed[i] && result[j] == placed[j]);
            } else {
                assert(result[j] == last);
                assert(result[i] == placed[i]);
                assert(placed.to_multiset().count(placed[i]) > 0);
                if placed[i] == entry {
                    lemma_text_before_irreflexive(last.title);
                    lemma_text_before_transitive(last.title, entry.title, last.title);
                } else {
                    assert(front.to_multiset().count(placed[i]) > 0);
                    let w = choose|w: int| 0 <= w < front.len() && front[w] == placed[i];
                    assert(sorted[w] == placed[i]);
                    assert(sorted[sorted.len() - 1] == last);
                    if w < sorted.len() - 1 {
                        assert(!text_before(sorted[sorted.len() - 1].title, sorted[w].title));
                    }
                }
            }
        }
    } else {
        let result = sorted.push(entry);
        assert forall|i: int, j: int| 0 <= i < j < result.len() implies !text_before(
            (#[trigger] result[j]).title,
            (#[trigger] result[i]).title,
        ) by {
            if j < sorted.len() {
                assert(result[i] == sorted[i] && result[j] == sorted[j]);
            } else {
                assert(result[i] == sorted[i]);
                let last = sorted.last();
                if i < sorted.len() - 1 {
                    assert(!text_before(sorted[sorted.len() - 1].title, sorted[i].title));
                }
                lemma_text_before_transitive(sorted[i].title, last.title, entry.title);
            }
        }
    }
}

/// Sorting by title gives a sequence in title order that holds the same
/// entries, each as often as before.
pub proof fn lemma_sorted_by_title(entries: Seq<StubView>)
    ensures
        in_title_order(sorted_by_title(entries)),
        sorted_by_title(entries).to_multiset() == entries.to_multiset(),
        sorted_by_title(entries).len() == entries.len(),
    decreases entries.len(),
{
    broadcast use vstd::seq_lib::group_to_multiset_ensures;

    if entries.len() > 0 {
        lemma_sorted_by_title(entries.drop_last());
        lemma_inserted(sorted_by_title(entries.drop_last()), entries.last());
        assert(entries =~= entries.drop_last().push(entries.last()));
    }
}

/// Where `entry` goes in a sequence: behind `j` entries, if it comes before
/// every entry from there on and not before the one just ahead.
pub proof fn lemma_inserted_at(sorted: Seq<StubView>, entry: StubView, j: int)
    requires
        0 <= j <= sorted.len(),
        forall|i: int| j <= i < sorted.len() ==> text_before(entry.title, (#[trigger] sorted[i]).title),
        j > 0 ==> !text_before(entry.title, sorted[j - 1].title),
    ensures
        inserted(sorted, entry) == sorted.insert(j, entry),
    decreases sorted.len(),
{
    if j < sorted.len() {
        let front = sorted.drop_last();
        assert(text_before(entry.title, sorted[sorted.len() - 1].title));
        assert forall|i: int| j <= i < front.len() implies text_before(
            entry.title,
            (#[trigger] front[i]).title,
        ) by {
            assert(front[i] == sorted[i]);
        }
        lemma_inserted_at(front, entry, j);
        assert(front.insert(j, entry).push(sorted.last()) =~= sorted.insert(j, entry));
    } else {
        assert(sorted.push(entry) =~= sorted.insert(j, entry));
    }
}

/// Texts that begin alike compare as what follows their common beginning.
pub proof fn lemma_text_before_skip(a: Seq<char>, b: Seq<char>, n: int)
    requires
        0 <= n <= a.len(),
        n <= b.len(),
        a.take(n) == b.take(n),
    ensures
        text_before(a, b) == text_before(a.skip(n), b.skip(n)),
    decreases n,
{
    if n > 0 {
        assert(a[0] == a.take(n)[0] && b[0] == b.take(n)[0]);
        assert(a.drop_first().take(n - 1) =~= a.take(n).drop_first());
        assert(b.drop_first().take(n - 1) =~= b.take(n).drop_first());
        lemma_text_before_skip(a.drop_first(), b.drop_first(), n - 1);
        assert(a.drop_first().skip(n - 1) =~= a.skip(n));
        assert(b.drop_first().skip(n - 1) =~= b.skip(n));
    } else {
        assert(a.skip(0) =~= a);
        assert(b.skip(0) =~= b);
    }
}

/// The characters of a text.
pub fn chars_of(text: &str) -> (chars: Vec<char>)
    ensures
        chars@ == text@,
{
    let mut chars: Vec<char> = Vec::new();
    for c in it: text.chars()
        invariant
            it.seq() == text@,
            chars@ == text@.take(it.index() as int),
    {
        chars.push(c);
        assert(chars@ =~= text@.take(it.index() as int + 1));
    }
    assert(text@.take(text@.len() as int) =~= text@);
    chars
}

/// Whether `a` comes before `b` in the order of the dictionary.
pub fn text_less(a: &Vec<char>, b: &Vec<char>) -> (less: bool)
    ensures
        less == text_before(a@, b@),
{
    let mut i: usize = 0;
    while i < a.len() && i < b.len()
        invariant
            i <= a.len(),
            i <= b.len(),
            a@.take(i as int) == b@.take(i as int),
        decreases a.len() - i,
    {
        if a[i] != b[i] {
            proof {
                lemma_text_before_skip(a@, b@, i as int);
                lemma_code_points_distinct(a[i as int], b[i as int]);
            }
            return (a[i] as u32) < (b[i] as u32);
        }
        assert(a@.take(i as int + 1) =~= a@.take(i as int).push(a@[i as int]));
        assert(b@.take(i as int + 1) =~= b@.take(i as int).push(b@[i as int]));
        i = i + 1;
    }
    proof {
        lemma_text_before_skip(a@, b@, i as int);
    }
    i < b.len()
}

impl StubQuery {
    /// The listing of the latest revision of every article, by title.
    pub fn latest_by_title() -> (query: StubQuery)
        ensures
            query@ == latest_by_title(),
    {
        StubQuery {
            latest_only: true,
            article_id: None,
            author: None,
            after: None,
            before: None,
            order: StubOrder::Title,
            limit: None,
        }
    }

    /// Whether the listing takes the row.
    pub fn accepts(&self, row: &ArticleRevision) -> (taken: bool)
        ensures
            taken == selects(self@, row@),
    {
        if self.latest_only && !row.latest {
            return false;
        }
        match self.article_id {
            Some(id) => {
                if row.article_id != id {
                    return false;
                }
            },
            None => {},
        }
        match &self.author {
            Some(name) => {
                match &row.author {
                    Some(author) => {
                        if !(*author == *name) {
                            return false;
                        }
                    },
                    None => {
                        return false;
                    },
                }
            },
            None => {},
        }
        match self.after {
            Some(number) => {
                if row.sequence_number <= number {
                    return false;
                }
            },
            None => {},
        }
        match self.before {
            Some(number) => {
                if row.sequence_number >= number {
                    return false;
                }
            },
            None => {},
        }
        true
    }
}

/// The views of a list of entries.
pub open spec fn stub_views(entries: Seq<ArticleRevisionStub>) -> Seq<StubView> {
    Seq::new(entries.len(), |i: int| entries[i]@)
}

/// The entries for the rows at the given positions.
pub open spec fn entries_at(rows: Seq<RevisionView>, positions: Seq<usize>) -> Seq<StubView> {
    Seq::new(positions.len(), |i: int| stub_of(rows[positions[i] as int]))
}

/// Puts positions of rows into the order of the titles of the rows, which
/// `keys` holds; positions of rows with the same title keep their order.
pub(crate) fn sort_by_title(
    keys: &Vec<Vec<char>>,
    positions: &Vec<usize>,
    Ghost(rows): Ghost<Seq<RevisionView>>,
) -> (sorted: Vec<usize>)
    requires
        keys.len() == rows.len(),
        forall|i: int| 0 <= i < rows.len() ==> (#[trigger] keys[i])@ == rows[i].title,
        forall|i: int| 0 <= i < positions.len() ==> (#[trigger] positions[i]) < rows.len(),
    ensures
        entries_at(rows, sorted@) == sorted_by_title(entries_at(rows, positions@)),
        forall|i: int| 0 <= i < sorted.len() ==> (#[trigger] sorted[i]) < rows.len(),
{
    let mut sorted: Vec<usize> = Vec::new();
    let mut k: usize = 0;
    assert(entries_at(rows, sorted@) =~= sorted_by_title(entries_at(rows, positions@.take(0))));
    while k < positions.len()
        invariant
            k <= positions.len(),
            keys.len() == rows.len(),
            forall|i: int| 0 <= i < rows.len() ==> (#[trigger] keys[i])@ == rows[i].title,
            forall|i: int| 0 <= i < positions.len() ==> (#[trigger] positions[i]) < rows.len(),
            forall|i: int| 0 <= i < sorted.len() ==> (#[trigger] sorted[i]) < rows.len(),
            entries_at(rows, sorted@) == sorted_by_title(
                entries_at(rows, positions@.take(k as int)),
            ),
        decreases positions.len() - k,
    {
        let position = positions[k];
        let ghost entry = stub_of(rows[position as int]);
        let ghost before = entries_at(rows, sorted@);
        let mut j: usize = sorted.len();
        while j > 0 && text_less(&keys[position], &keys[sorted[j - 1]])
            invariant
                j <= sorted.len(),
                position < rows.len(),
                keys.len() == rows.len(),
                entry == stub_of(rows[position as int]),
                before == entries_at(rows, sorted@),
                forall|i: int| 0 <= i < rows.len() ==> (#[trigger] keys[i])@ == rows[i].title,
                forall|i: int| 0 <= i < sorted.len() ==> (#[trigger] sorted[i]) < rows.len(),
                forall|i: int|
                    j <= i < before.len() ==> text_before(entry.title, (#[trigger] before[i]).title),
            decreases j,
        {
            j = j - 1;
        }
        proof {
            lemma_inserted_at(before, entry, j as int);
            let taken = entries_at(rows, positions@.take(k as int + 1));
            assert(taken.drop_last() =~= entries_at(rows, positions@.take(k as int)));
            assert(taken.last() == entry);
        }
        sorted.insert(j, position);
        assert(entries_at(rows, sorted@) =~= before.insert(j as int, entry));
        k = k + 1;
    }
    assert(positions@.take(positions.len() as int) =~= positions@);
    sorted
}

/// Puts positions of rows into the opposite order.
pub(crate) fn reversed(positions: &Vec<usize>) -> (turned: Vec<usize>)
    ensures
        turned@ == positions@.reverse(),
{
    let mut turned: Vec<usize> = Vec::new();
    let mut k: usize = positions.len();
    while k > 0
        invariant
            k <= positions.len(),
            turned.len() == positions.len() - k,
            forall|i: int|
                0 <= i < turned.len() ==> turned[i] == positions[positions.len() - 1 - i],
        decreases k,
    {
        k = k - 1;
        turned.push(positions[k]);
    }
    assert(turned@ =~= positions@.reverse());
    turned
}

} // verus!
