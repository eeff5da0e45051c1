//! Turning what a visitor typed into a query for the full-text index, in
//! such a way that nothing typed can act as query syntax.

use crate::text::{char_is_whitespace, is_whitespace};
use vstd::prelude::*;

verus! {

/// `src` with every quote character written twice.
pub open spec fn doubled_quotes(src: Seq<char>) -> Seq<char>
    decreases src.len(),
{
    if src.len() == 0 {
        Seq::empty()
    } else if src.last() == '"' {
        doubled_quotes(src.drop_last()) + seq!['"', '"']
    } else {
        doubled_quotes(src.drop_last()).push(src.last())
    }
}

/// `src` as a string of the index's query language: between quotes, with
/// its own quotes doubled.
pub open spec fn fts_quoted(src: Seq<char>) -> Seq<char> {
    seq!['"'] + doubled_quotes(src) + seq!['"']
}

/// The words completed so far and the word in progress after reading
/// `text`.
pub open spec fn scanned(text: Seq<char>) -> (Seq<Seq<char>>, Seq<char>)
    decreases text.len(),
{
    if text.len() == 0 {
        (Seq::empty(), Seq::empty())
    } else {
        let (done, word) = scanned(text.drop_last());
        if !is_whitespace(text.last()) {
            (done, word.push(text.last()))
        } else if word.len() > 0 {
            (done.push(word), Seq::empty())
        } else {
            (done, word)
        }
    }
}

/// The words of `text`: its maximal runs of characters that are not
/// whitespace, in order.
pub open spec fn words(text: Seq<char>) -> Seq<Seq<char>> {
    let (done, word) = scanned(text);
    if word.len() > 0 {
        done.push(word)
    } else {
        done
    }
}

/// The items, with `separator` between each two neighbours.
pub open spec fn joined(items: Seq<Seq<char>>, separator: char) -> Seq<char>
    decreases items.len(),
{
    if items.len() == 0 {
        Seq::empty()
    } else if items.len() == 1 {
        items[0]
    } else {
        joined(items.drop_last(), separator).push(separator) + items.last()
    }
}

/// The opening of a proximity query.
pub open spec fn near_open() -> Seq<char> {
    seq!['N', 'E', 'A', 'R', '(']
}

/// The query for the words that a visitor typed: nothing typed matches
/// nothing, one word matches as a prefix, and several words match where
/// they stand near each other.
pub open spec fn match_expression(query: Seq<char>) -> Seq<char> {
    let quoted = words(query).map_values(|w: Seq<char>| fts_quoted(w));
    if quoted.len() > 1 {
        near_open() + joined(quoted, ' ') + seq![')']
    } else if quoted.len() == 1 {
        quoted[0].push('*')
    } else {
        seq!['"', '"']
    }
}

/// Every completed word and the word in progress are free of whitespace,
/// and every completed word has at least one character.
pub proof fn lemma_scanned_words(text: Seq<char>)
    ensures
        forall|i: int|
            0 <= i < scanned(text).0.len() ==> (#[trigger] scanned(text).0[i]).len() > 0,
        forall|i: int, j: int|
            0 <= i < scanned(text).0.len() && 0 <= j < scanned(text).0[i].len() ==> !is_whitespace(
                #[trigger] scanned(text).0[i][j],
            ),
        forall|j: int| 0 <= j < scanned(text).1.len() ==> !is_whitespace(#[trigger] scanned(text).1[j]),
    decreases text.len(),
{
    if text.len() > 0 {
        lemma_scanned_words(text.drop_last());
        let before = scanned(text.drop_last());
        let after = scanned(text);
        if !is_whitespace(text.last()) {
            assert(after.0 == before.0);
            assert(after.1 == before.1.push(text.last()));
            assert forall|j: int| 0 <= j < after.1.len() implies !is_whitespace(
                #[trigger] after.1[j],
            ) by {
                if j < before.1.len() {
                    assert(after.1[j] == before.1[j]);
                }
            }
        } else if before.1.len() > 0 {
            assert(after.0 == before.0.push(before.1));
            assert(after.1 =~= Seq::<char>::empty());
            assert forall|i: int| 0 <= i < after.0.len() implies (#[trigger] after.0[i]).len()
                > 0 by {
                if i < before.0.len() {
                    assert(after.0[i] == before.0[i]);
                }
            }
            assert forall|i: int, j: int|
                0 <= i < after.0.len() && 0 <= j < after.0[i].len() implies !is_whitespace(
                #[trigger] after.0[i][j],
            ) by {
                if i < before.0.len() {
                    assert(after.0[i] == before.0[i]);
                    assert(!is_whitespace(before.0[i][j]));
                } else {
                    assert(after.0[i] == before.1);
                    assert(!is_whitespace(before.1[j]));
                }
            }
        } else {
            assert(after == before);
        }
    }
}

/// Every word of a text has at least one character and no whitespace.
pub proof fn lemma_words(text: Seq<char>)
    ensures
        forall|i: int| 0 <= i < words(text).len() ==> (#[trigger] words(text)[i]).len() > 0,
        forall|i: int, j: int|
            0 <= i < words(text).len() && 0 <= j < words(text)[i].len() ==> !is_whitespace(
                #[trigger] words(text)[i][j],
            ),
{
    lemma_scanned_words(text);
}

/// What the index reads of `text` from position `i` inside a string
/// on: the characters up to the quote that closes the string, with one quote
/// for every two that stand together, and the position behind the closing
/// quote. Nothing, if the string is never closed.
pub open spec fn read_string(text: Seq<char>, i: int) -> Option<(Seq<char>, int)>
    decreases text.len() - i,
{
    if i < 0 || i >= text.len() {
        None
    } else if text[i] != '"' {
        match read_string(text, i + 1) {
            Some((body, end)) => Some((seq![text[i]] + body, end)),
            None => None,
        }
    } else if i + 1 < text.len() && text[i + 1] == '"' {
        match read_string(text, i + 2) {
            Some((body, end)) => Some((seq!['"'] + body, end)),
            None => None,
        }
    } else {
        Some((Seq::empty(), i + 1))
    }
}

/// Doubling the quotes of a text doubles its first character if that is a
/// quote, and then the quotes of the rest.
pub proof fn lemma_doubled_quotes_front(first: char, rest: Seq<char>)
    ensures
        doubled_quotes(seq![first] + rest) == if first == '"' {
            seq!['"', '"'] + doubled_quotes(rest)
        } else {
            seq![first] + doubled_quotes(rest)
        },
    decreases rest.len(),
{
    let whole = seq![first] + rest;
    if rest.len() == 0 {
        assert(whole.drop_last() =~= Seq::<char>::empty());
        assert(doubled_quotes(rest) =~= Seq::<char>::empty());
        assert(doubled_quotes(whole.drop_last()) =~= Seq::<char>::empty());
        if first == '"' {
            assert(doubled_quotes(whole) =~= seq!['"', '"'] + doubled_quotes(rest));
        } else {
            assert(doubled_quotes(whole) =~= seq![first] + doubled_quotes(rest));
        }
    } else {
        lemma_doubled_quotes_front(first, rest.drop_last());
        assert(whole.drop_last() =~= seq![first] + rest.drop_last());
        assert(whole.last() == rest.last());
        let head = if first == '"' {
            seq!['"', '"']
        } else {
            seq![first]
        };
        if rest.last() == '"' {
            assert(doubled_quotes(whole) =~= head + (doubled_quotes(rest.drop_last()) + seq![
                '"',
                '"',
            ]));
        } else {
            assert(doubled_quotes(whole) =~= head + doubled_quotes(rest.drop_last()).push(
                rest.last(),
            ));
        }
    }
}

/// Whatever a word holds, the index reads its quoted form back as one
/// string that holds the word: the closing quote is the first that the
/// index takes for one, so that no part of the word is read as syntax.
pub proof fn lemma_quoted_word_reads_back(before: Seq<char>, word: Seq<char>, after: Seq<char>)
    requires
        after.len() == 0 || after[0] != '"',
    ensures
        (before + fts_quoted(word) + after)[before.len() as int] == '"',
        read_string(before + fts_quoted(word) + after, before.len() as int + 1) == Some(
            (word, (before.len() + fts_quoted(word).len()) as int),
        ),
{
    let text = before + fts_quoted(word) + after;
    let opened = before.push('"');
    assert(text =~= opened + doubled_quotes(word) + seq!['"'] + after);
    lemma_reads_back_from(opened, word, after);
}

/// Reading on from inside a string whose remainder is a word with its
/// quotes doubled and a closing quote gives the word.
proof fn lemma_reads_back_from(read: Seq<char>, word: Seq<char>, after: Seq<char>)
    requires
        after.len() == 0 || after[0] != '"',
    ensures
        read_string(read + doubled_quotes(word) + seq!['"'] + after, read.len() as int) == Some(
            (word, (read.len() + doubled_quotes(word).len() + 1) as int),
        ),
    decreases word.len(),
{
    let text = read + doubled_quotes(word) + seq!['"'] + after;
    let i = read.len() as int;
    if word.len() == 0 {
        assert(doubled_quotes(word) =~= Seq::<char>::empty());
        assert(text[i] == '"');
        if i + 1 < text.len() {
            assert(text[i + 1] == after[0]);
        }
        assert(word =~= Seq::<char>::empty());
    } else {
        let first = word[0];
        let rest = word.drop_first();
        assert(word =~= seq![first] + rest);
        lemma_doubled_quotes_front(first, rest);
        if first == '"' {
            let further = read + seq!['"', '"'];
            assert(text =~= further + doubled_quotes(rest) + seq!['"'] + after);
            lemma_reads_back_from(further, rest, after);
            assert(text[i] == '"' && text[i + 1] == '"');
            assert(seq!['"'] + rest =~= word);
        } else {
            let further = read.push(first);
            assert(text =~= further + doubled_quotes(rest) + seq!['"'] + after);
            lemma_reads_back_from(further, rest, after);
            assert(text[i] == first);
            assert(seq![first] + rest =~= word);
        }
    }
}

/// The views of a list of strings.
pub open spec fn string_views(items: Seq<String>) -> Seq<Seq<char>> {
    Seq::new(items.len(), |i: int| items[i]@)
}

/// Quotes `src` for the index's query language.
pub fn fts_quote(src: &str) -> (quoted: String)
    ensures
        quoted@ == fts_quoted(src@),
{
    let mut quoted = String::new();
    quoted.push('"');
    for c in it: src.chars()
        invariant
            it.seq() == src@,
            quoted@ == seq!['"'] + doubled_quotes(src@.take(it.index() as int)),
    {
        proof {
            let seen = src@.take(it.index() as int);
            let next = src@.take(it.index() as int + 1);
            assert(next.drop_last() =~= seen);
            assert(next.last() == c);
        }
        if c == '"' {
            quoted.push('"');
            quoted.push('"');
        } else {
            quoted.push(c);
        }
        assert(quoted@ =~= seq!['"'] + doubled_quotes(src@.take(it.index() as int + 1)));
    }
    quoted.push('"');
    proof {
        assert(src@.take(src@.len() as int) =~= src@);
        assert(quoted@ =~= fts_quoted(src@));
    }
    quoted
}

/// Splits `text` into its words.
pub fn split_words(text: &str) -> (found: Vec<String>)
    ensures
        string_views(found@) == words(text@),
{
    let mut done: Vec<String> = Vec::new();
    let mut word = String::new();
    proof {
        assert(string_views(done@) =~= scanned(text@.take(0)).0);
    }
    for c in it: text.chars()
        invariant
            it.seq() == text@,
            string_views(done@) == scanned(text@.take(it.index() as int)).0,
            word@ == scanned(text@.take(it.index() as int)).1,
    {
        proof {
            let seen = text@.take(it.index() as int);
            let next = text@.take(it.index() as int + 1);
            assert(next.drop_last() =~= seen);
            assert(next.last() == c);
        }
        let ghost before = string_views(done@);
        if !char_is_whitespace(c) {
            word.push(c);
        } else if !word.as_str().is_empty() {
            let ghost finished = word@;
            done.push(word);
            word = String::new();
            assert(string_views(done@) =~= before.push(finished));
        }
    }
    proof {
        assert(text@.take(text@.len() as int) =~= text@);
    }
    if !word.as_str().is_empty() {
        let ghost before = string_views(done@);
        let ghost finished = word@;
        done.push(word);
        assert(string_views(done@) =~= before.push(finished));
    }
    done
}

/// A search that is ready to be put to the full-text index.
#[derive(Debug)]
pub struct SearchQuery {
    /// What the index is to match.
    pub match_expression: String,
    /// The greatest length of an excerpt.
    pub snippet_size: i32,
    /// The greatest number of results.
    pub limit: i32,
    /// The number of results to pass over.
    pub offset: i32,
}

/// The mathematical content of a `SearchQuery`.
pub struct SearchQueryView {
    pub match_expression: Seq<char>,
    pub snippet_size: int,
    pub limit: int,
    pub offset: int,
}

impl View for SearchQuery {
    type V = SearchQueryView;

    open spec fn view(&self) -> SearchQueryView {
        SearchQueryView {
            match_expression: self.match_expression@,
            snippet_size: self.snippet_size as int,
            limit: self.limit as int,
            offset: self.offset as int,
        }
    }
}

/// The search that `search_query` prepares.
pub open spec fn prepared_search(
    query: Seq<char>,
    limit: int,
    offset: int,
    snippet_size: int,
) -> SearchQueryView {
    SearchQueryView { match_expression: match_expression(query), snippet_size, limit, offset }
}

/// Builds the expression that the index is to match for what a visitor
/// typed.
pub fn build_match_expression(query: &str) -> (expression: String)
    ensures
        expression@ == match_expression(query@),
{
    let found = split_words(query);
    let ghost quoted = words(query@).map_values(|w: Seq<char>| fts_quoted(w));
    if found.len() > 1 {
        let mut expression = "NEAR(".to_owned();
        proof {
            reveal_strlit("NEAR(");
            assert(expression@ =~= near_open());
        }
        let mut i: usize = 0;
        while i < found.len()
            invariant
                i <= found.len(),
                found.len() > 1,
                string_views(found@) == words(query@),
                quoted == words(query@).map_values(|w: Seq<char>| fts_quoted(w)),
                expression@ == near_open() + joined(quoted.take(i as int), ' '),
            decreases found.len() - i,
        {
            let word = fts_quote(found[i].as_str());
            proof {
                assert(string_views(found@)[i as int] == found@[i as int]@);
                assert(quoted[i as int] == word@);
                assert(quoted.take(i as int + 1).drop_last() =~= quoted.take(i as int));
                assert(quoted.take(i as int + 1).last() == word@);
                if i == 0 {
                    assert(joined(quoted.take(0), ' ') =~= Seq::<char>::empty());
                }
            }
            if i > 0 {
                expression.push(' ');
            }
            expression.append(word.as_str());
            assert(expression@ =~= near_open() + joined(quoted.take(i as int + 1), ' '));
            i = i + 1;
        }
        proof {
            assert(quoted.take(found.len() as int) =~= quoted);
        }
        expression.push(')');
        assert(expression@ =~= match_expression(query@));
        expression
    } else if found.len() == 1 {
        let mut expression = fts_quote(found[0].as_str());
        proof {
            assert(string_views(found@)[0] == found@[0]@);
        }
        expression.push('*');
        expression
    } else {
        let expression = "\"\"".to_owned();
        proof {
            reveal_strlit("\"\"");
            assert(expression@ =~= seq!['"', '"']);
        }
        expression
    }
}

} // verus!
