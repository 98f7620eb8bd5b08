//! Which sentences make a summary, once the sentences are ranked.

use vstd::prelude::*;
use crate::text::{append_text, same_text, views_of};

verus! {

/// How many sentences a summary keeps of `n`: three, or all when fewer.
pub open spec fn summary_size(n: nat) -> int {
    if n < 3 { n as int } else { 3 }
}

/// Ascending.
pub open spec fn ascending_positions(s: Seq<usize>) -> bool {
    forall|a: int, b: int| 0 <= a < b < s.len() ==> s[a] <= s[b]
}

/// The sentences of a summary: from the sentence positions `ranked`, listed
/// from the lowest rank to the highest, the best three (or all, when fewer),
/// in the order the sentences have in the text.
pub fn top_sentences(ranked: &Vec<usize>) -> (r: Vec<usize>)
    ensures
        ascending_positions(r@),
        r@.to_multiset() == ranked@.subrange(ranked@.len() - summary_size(ranked@.len()), ranked@.len() as int).to_multiset(),
{
    let n = ranked.len();
    let start: usize = if n < 3 { 0 } else { n - 3 };
    let mut r: Vec<usize> = Vec::new();
    let mut i: usize = start;
    proof {
        assert(ranked@.subrange(start as int, start as int) =~= Seq::<usize>::empty());
        assert(r@ =~= Seq::<usize>::empty());
    }
    while i < n
        invariant
            n == ranked@.len(),
            start <= i <= n,
            start as int == n - summary_size(n as nat),
            ascending_positions(r@),
            r@.to_multiset() == ranked@.subrange(start as int, i as int).to_multiset(),
        decreases n - i,
    {
        let x = ranked[i];
        let m = r.len();
        let mut p: usize = 0;
        while p < m && r[p] <= x
            invariant
                m == r@.len(),
                p <= m,
                forall|k: int| 0 <= k < p ==> r@[k] <= x,
            decreases m - p,
        {
            p = p + 1;
        }
        let ghost old_r = r@;
        r.insert(p, x);
        proof {
            assert(r@ == old_r.insert(p as int, x));
            assert forall|a: int, b: int| 0 <= a < b < r@.len() implies r@[a] <= r@[b] by {
                if b < p {
                    assert(r@[a] == old_r[a] && r@[b] == old_r[b]);
                } else if a > p {
                    assert(r@[a] == old_r[a - 1] && r@[b] == old_r[b - 1]);
                } else if a < p && b > p {
                    assert(r@[a] == old_r[a] && r@[b] == old_r[b - 1]);
                } else if b == p {
                    assert(r@[a] == old_r[a] && r@[b] == x);
                } else {
                    assert(r@[a] == x && r@[b] == old_r[b - 1]);
                    assert(p < m);
                    assert(old_r[p as int] > x);
                }
            }
            vstd::seq_lib::to_multiset_insert(old_r, p as int, x);
            assert(ranked@.subrange(start as int, i + 1) =~= ranked@.subrange(start as int, i as int).push(x));
            vstd::seq_lib::to_multiset_build(ranked@.subrange(start as int, i as int), x);
        }
        i = i + 1;
    }
    r
}

/// The position of the `]` that closes a `[` at the start of `s`, looking
/// from position `j` on: the first `]` before any line break.
pub open spec fn closing_bracket(s: Seq<char>, j: int) -> Option<int>
    decreases s.len() - j,
{
    if j < 1 || j >= s.len() || s[j] == '\n' {
        None
    } else if s[j] == ']' {
        Some(j)
    } else {
        closing_bracket(s, j + 1)
    }
}

/// `s` without double quotes, line breaks, and bracketed spans that close on
/// the same line (`[` through the first `]` after it, the shortest such span,
/// taken from left to right).
pub open spec fn cleaned_text(s: Seq<char>) -> Seq<char>
    decreases s.len(),
{
    if s.len() == 0 {
        Seq::empty()
    } else if s[0] == '"' || s[0] == '\n' {
        cleaned_text(s.drop_first())
    } else if s[0] == '[' && closing_bracket(s, 1) is Some {
        let j = closing_bracket(s, 1)->0;
        if 0 < j < s.len() { cleaned_text(s.subrange(j + 1, s.len() as int)) } else { Seq::empty() }
    } else {
        seq![s[0]] + cleaned_text(s.drop_first())
    }
}

/// Removes from `text` what `regex::Regex::replace_all` removes for the
/// pattern `\[.*?\]|"|\n` replaced by nothing. Trusted: that is
/// `cleaned_text` of the text (`.` does not match a line break, `.*?` takes
/// the shortest span, matches go from left to right). The pattern is a
/// constant that compiles.
#[verifier::external_body]
fn strip_brackets_quotes_newlines(text: &str) -> (r: String)
    ensures
        r@ == cleaned_text(text@),
{
    let re = regex::Regex::new("\\[.*?\\]|\"|\\n").expect("a valid pattern");
    re.replace_all(text, "").into_owned()
}

/// The text that a summary is made from: `text` cleaned of double quotes,
/// line breaks and bracketed references.
pub fn clean_text(text: &str) -> (r: String)
    ensures
        r@ == cleaned_text(text@),
{
    strip_brackets_quotes_newlines(text)
}

/// The English sentences of a text as `cutters::cut` finds them: for each, its
/// text and, for each quote in it, the sentences of the quote.
pub uninterp spec fn cut_of(text: Seq<char>) -> Seq<(Seq<char>, Seq<Seq<Seq<char>>>)>;

/// What a cut holds, as texts.
pub open spec fn cut_view(c: Seq<(String, Vec<Vec<String>>)>) -> Seq<(Seq<char>, Seq<Seq<Seq<char>>>)> {
    c.map_values(|p: (String, Vec<Vec<String>>)| (p.0@, p.1@.map_values(|q: Vec<String>| views_of(q@))))
}

/// `cutters::cut(text, cutters::Language::English)`, each sentence as its
/// text and the sentences of each of its quotes. Trusted: the result is
/// `cut_of` the text; the grammar's top rule repeats a choice that takes any
/// character, so parsing does not fail.
#[verifier::external_body]
fn cut_english(text: &str) -> (r: Vec<(String, Vec<Vec<String>>)>)
    ensures
        cut_view(r@) == cut_of(text@),
{
    cutters::cut(text, cutters::Language::English)
        .into_iter()
        .map(|s| (s.str.to_string(), s.quotes.into_iter().map(|q| q.sentences.into_iter().map(|t| t.to_string()).collect()).collect()))
        .collect()
}

/// The sentences of quotes, one quote after another.
pub open spec fn quote_sentences(qs: Seq<Seq<Seq<char>>>) -> Seq<Seq<char>>
    decreases qs.len(),
{
    if qs.len() == 0 { Seq::empty() } else { quote_sentences(qs.drop_last()) + qs.last() }
}

/// Each sentence of a cut followed by the sentences of its quotes.
pub open spec fn flatten_cut(c: Seq<(Seq<char>, Seq<Seq<Seq<char>>>)>) -> Seq<Seq<char>>
    decreases c.len(),
{
    if c.len() == 0 {
        Seq::empty()
    } else {
        flatten_cut(c.drop_last()) + seq![c.last().0] + quote_sentences(c.last().1)
    }
}

/// The sentences a summary chooses from: those of the cleaned text, each
/// followed by the sentences quoted in it.
pub fn summary_sentences(text: &str) -> (r: Vec<String>)
    ensures
        views_of(r@) == flatten_cut(cut_of(cleaned_text(text@))),
{
    let cleaned = clean_text(text);
    let cut = cut_english(cleaned.as_str());
    let ghost c = cut_view(cut@);
    let mut r: Vec<String> = Vec::new();
    let mut i: usize = 0;
    while i < cut.len()
        invariant
            i <= cut@.len(),
            c == cut_view(cut@),
            views_of(r@) == flatten_cut(c.subrange(0, i as int)),
        decreases cut@.len() - i,
    {
        let ghost before = views_of(r@);
        let ghost old_r = r@;
        r.push(cut[i].0.clone());
        assert(views_of(r@) =~= views_of(old_r).push(cut@[i as int].0@));
        let quotes = &cut[i].1;
        let mut q: usize = 0;
        while q < quotes.len()
            invariant
                q <= quotes@.len(),
                views_of(r@) == before + seq![c[i as int].0]
                    + quote_sentences(c[i as int].1.subrange(0, q as int)),
                c[i as int].1 == quotes@.map_values(|x: Vec<String>| views_of(x@)),
            decreases quotes@.len() - q,
        {
            let ghost mid = views_of(r@);
            let inner = &quotes[q];
            let mut k: usize = 0;
            while k < inner.len()
                invariant
                    k <= inner@.len(),
                    views_of(r@) == mid + views_of(inner@).subrange(0, k as int),
                decreases inner@.len() - k,
            {
                let ghost old_r = r@;
                r.push(inner[k].clone());
                proof {
                    assert(views_of(r@) =~= views_of(old_r).push(inner@[k as int]@));
                    assert(views_of(inner@).subrange(0, k + 1) =~= views_of(inner@).subrange(0, k as int).push(inner@[k as int]@));
                    assert(views_of(r@) =~= mid + views_of(inner@).subrange(0, k + 1));
                }
                k = k + 1;
            }
            proof {
                assert(views_of(inner@).subrange(0, inner@.len() as int) =~= views_of(inner@));
                let qs = c[i as int].1;
                assert(qs.subrange(0, q + 1).drop_last() =~= qs.subrange(0, q as int));
                assert(qs[q as int] == views_of(inner@));
                assert(views_of(r@) =~= before + seq![c[i as int].0] + quote_sentences(qs.subrange(0, q + 1)));
            }
            q = q + 1;
        }
        proof {
            let qs = c[i as int].1;
            assert(qs.subrange(0, qs.len() as int) =~= qs);
            assert(c.subrange(0, i + 1).drop_last() =~= c.subrange(0, i as int));
            assert(c.subrange(0, i + 1).last() == c[i as int]);
        }
        i = i + 1;
    }
    proof {
        assert(c.subrange(0, c.len() as int) =~= c);
    }
    r
}

/// The lower-case form of a text, as `str::to_lowercase` gives it.
pub uninterp spec fn lowercase_of(s: Seq<char>) -> Seq<char>;

/// `str::to_lowercase`. Trusted: the result is `lowercase_of` the text, a
/// function of the text alone (Unicode's mapping, no locale).
#[verifier::external_body]
fn lowercase(s: &str) -> (r: String)
    ensures
        r@ == lowercase_of(s@),
{
    s.to_lowercase()
}

/// The words of a text as `unicode_segmentation::UnicodeSegmentation::unicode_words`
/// finds them (Unicode word boundaries, keeping the pieces with a letter or digit).
pub uninterp spec fn unicode_words_of(s: Seq<char>) -> Seq<Seq<char>>;

/// `unicode_segmentation::UnicodeSegmentation::unicode_words`, each word as a
/// `String`. Trusted: the words are `unicode_words_of` the text, in order.
#[verifier::external_body]
fn words_of(s: &str) -> (r: Vec<String>)
    ensures
        views_of(r@) == unicode_words_of(s@),
{
    unicode_segmentation::UnicodeSegmentation::unicode_words(s).map(|w| w.to_string()).collect()
}

/// Whether a word is in the `stopwords` crate's NLTK list of English stop words.
pub uninterp spec fn english_stopword(w: Seq<char>) -> bool;

/// Whether `w` is one of `<stopwords::NLTK as stopwords::Stopwords>::stopwords(stopwords::Language::English)`.
/// Trusted: the answer is `english_stopword` of the word; the list is a
/// constant of that crate, and `None` (no list) does not occur for English.
#[verifier::external_body]
fn is_english_stopword(w: &str) -> (r: bool)
    ensures
        r == english_stopword(w@),
{
    match <stopwords::NLTK as stopwords::Stopwords>::stopwords(stopwords::Language::English) {
        Some(list) => list.contains(&w),
        None => false,
    }
}

/// The stem of a word by the Snowball English stemmer of `rust_stemmers`.
pub uninterp spec fn english_stem_of(w: Seq<char>) -> Seq<char>;

/// `rust_stemmers::Stemmer::create(rust_stemmers::Algorithm::English).stem(w)`.
/// Trusted: the stem is `english_stem_of` the word, a function of the word alone.
#[verifier::external_body]
fn english_stem(w: &str) -> (r: String)
    ensures
        r@ == english_stem_of(w@),
{
    rust_stemmers::Stemmer::create(rust_stemmers::Algorithm::English).stem(w).into_owned()
}

/// The stems of the words that are not stop words, in order.
pub open spec fn kept_stems(words: Seq<Seq<char>>) -> Seq<Seq<char>>
    decreases words.len(),
{
    if words.len() == 0 {
        Seq::empty()
    } else if english_stopword(words.last()) {
        kept_stems(words.drop_last())
    } else {
        kept_stems(words.drop_last()).push(english_stem_of(words.last()))
    }
}

/// The stems a sentence counts with: of each word of the lower-cased
/// sentence that is not an English stop word, its English stem, in order.
pub fn sentence_stems(sentence: &str) -> (r: Vec<String>)
    ensures
        views_of(r@) == kept_stems(unicode_words_of(lowercase_of(sentence@))),
{
    let lower = lowercase(sentence);
    let words = words_of(lower.as_str());
    let ghost ws = views_of(words@);
    let mut r: Vec<String> = Vec::new();
    let mut i: usize = 0;
    while i < words.len()
        invariant
            i <= words@.len(),
            ws == views_of(words@),
            views_of(r@) == kept_stems(ws.subrange(0, i as int)),
        decreases words@.len() - i,
    {
        proof {
            assert(ws.subrange(0, i + 1).drop_last() =~= ws.subrange(0, i as int));
            assert(ws.subrange(0, i + 1).last() == words@[i as int]@);
        }
        if !is_english_stopword(words[i].as_str()) {
            let st = english_stem(words[i].as_str());
            let ghost old_r = r@;
            r.push(st);
            assert(views_of(r@) =~= views_of(old_r).push(st@));
        }
        i = i + 1;
    }
    assert(ws.subrange(0, ws.len() as int) =~= ws);
    r
}

/// How often `k` occurs in `s`.
pub open spec fn occurrences(s: Seq<Seq<char>>, k: Seq<char>) -> nat
    decreases s.len(),
{
    if s.len() == 0 { 0 } else { occurrences(s.drop_last(), k) + if s.last() == k { 1nat } else { 0nat } }
}

/// The distinct members of `s`, in the order of their first occurrence.
pub open spec fn first_occurrences(s: Seq<Seq<char>>) -> Seq<Seq<char>>
    decreases s.len(),
{
    if s.len() == 0 {
        Seq::empty()
    } else if first_occurrences(s.drop_last()).contains(s.last()) {
        first_occurrences(s.drop_last())
    } else {
        first_occurrences(s.drop_last()).push(s.last())
    }
}

proof fn lemma_occurrences_bound(s: Seq<Seq<char>>, k: Seq<char>)
    ensures
        occurrences(s, k) <= s.len(),
    decreases s.len(),
{
    if s.len() > 0 {
        lemma_occurrences_bound(s.drop_last(), k);
    }
}

/// The distinct stems of `stems` in order of first occurrence, and beside
/// each how often it occurs.
pub fn stem_counts(stems: &Vec<String>) -> (r: (Vec<String>, Vec<usize>))
    ensures
        views_of(r.0@) == first_occurrences(views_of(stems@)),
        r.1@.len() == r.0@.len(),
        forall|j: int| 0 <= j < r.1@.len() ==> r.1@[j] == occurrences(views_of(stems@), #[trigger] r.0@[j]@),
{
    let ghost all = views_of(stems@);
    let mut keys: Vec<String> = Vec::new();
    let mut counts: Vec<usize> = Vec::new();
    let mut i: usize = 0;
    while i < stems.len()
        invariant
            i <= stems@.len(),
            all == views_of(stems@),
            views_of(keys@) == first_occurrences(all.subrange(0, i as int)),
            counts@.len() == keys@.len(),
            forall|j: int| 0 <= j < counts@.len() ==> counts@[j] == occurrences(all.subrange(0, i as int), #[trigger] keys@[j]@),
            forall|a: int, b: int| 0 <= a < b < keys@.len() ==> (#[trigger] keys@[a])@ != (#[trigger] keys@[b])@,
        decreases stems@.len() - i,
    {
        let ghost p = all.subrange(0, i as int);
        let ghost q = all.subrange(0, i + 1);
        let x = &stems[i];
        proof {
            assert(q.drop_last() =~= p);
            assert(q.last() == x@);
        }
        let m = keys.len();
        let mut j: usize = 0;
        while j < m && !same_text(keys[j].as_str(), x.as_str())
            invariant
                m == keys@.len(),
                j <= m,
                forall|t: int| 0 <= t < j ==> keys@[t]@ != x@,
            decreases m - j,
        {
            j = j + 1;
        }
        if j < m {
            proof {
                assert(views_of(keys@)[j as int] == x@);
                assert(first_occurrences(p).contains(x@));
                lemma_occurrences_bound(p, x@);
            }
            let c = counts[j];
            counts.set(j, c + 1);
            proof {
                assert forall|t: int| 0 <= t < counts@.len() implies counts@[t] == occurrences(q, #[trigger] keys@[t]@) by {
                    if t != j {
                        if t < j as int {
                            assert(keys@[t]@ != keys@[j as int]@);
                        } else {
                            assert(keys@[j as int]@ != keys@[t]@);
                        }
                    }
                }
            }
        } else {
            proof {
                assert forall|t: int| 0 <= t < first_occurrences(p).len() implies first_occurrences(p)[t] != x@ by {
                    assert(first_occurrences(p)[t] == keys@[t]@);
                }
                assert(!first_occurrences(p).contains(x@));
            }
            let ghost old_keys = keys@;
            keys.push(x.clone());
            counts.push(1);
            assert(views_of(keys@) =~= views_of(old_keys).push(x@));
            proof {
                assert(occurrences(p, x@) == 0) by {
                    lemma_no_occurrence(p, x@);
                }
                assert forall|t: int| 0 <= t < counts@.len() implies counts@[t] == occurrences(q, #[trigger] keys@[t]@) by {
                    if t < m as int {
                        assert(keys@[t] == old_keys[t]);
                    }
                }
                assert forall|a: int, b: int| 0 <= a < b < keys@.len() implies (#[trigger] keys@[a])@ != (#[trigger] keys@[b])@ by {
                    if b == m as int {
                        assert(keys@[a] == old_keys[a]);
                    } else {
                        assert(keys@[a] == old_keys[a] && keys@[b] == old_keys[b]);
                    }
                }
            }
        }
        i = i + 1;
    }
    assert(all.subrange(0, all.len() as int) =~= all);
    (keys, counts)
}

proof fn lemma_no_occurrence(s: Seq<Seq<char>>, k: Seq<char>)
    requires
        !first_occurrences(s).contains(k),
    ensures
        occurrences(s, k) == 0,
    decreases s.len(),
{
    if s.len() > 0 {
        let f = first_occurrences(s.drop_last());
        if f.contains(s.last()) {
            assert(s.last() != k);
        } else {
            assert(first_occurrences(s) == f.push(s.last()));
            assert(first_occurrences(s)[f.len() as int] == s.last());
            if f.contains(k) {
                let t = choose|t: int| 0 <= t < f.len() && f[t] == k;
                assert(first_occurrences(s)[t] == k);
            }
        }
        lemma_no_occurrence(s.drop_last(), k);
    }
}

/// Texts joined with single spaces between them.
pub open spec fn joined_with_spaces(s: Seq<Seq<char>>) -> Seq<char>
    decreases s.len(),
{
    if s.len() == 0 {
        Seq::empty()
    } else if s.len() == 1 {
        s[0]
    } else {
        joined_with_spaces(s.drop_last()) + " "@ + s.last()
    }
}

/// The sentences at `positions`, in that order.
pub open spec fn picked(sentences: Seq<Seq<char>>, positions: Seq<usize>) -> Seq<Seq<char>> {
    positions.map_values(|i: usize| sentences[i as int])
}

/// The sentences at `positions`, joined with single spaces.
pub fn join_sentences(sentences: &Vec<String>, positions: &Vec<usize>) -> (r: String)
    requires
        forall|k: int| 0 <= k < positions@.len() ==> #[trigger] positions@[k] < sentences@.len(),
    ensures
        r@ == joined_with_spaces(picked(views_of(sentences@), positions@)),
{
    let ghost all = views_of(sentences@);
    let mut r = String::new();
    let mut i: usize = 0;
    while i < positions.len()
        invariant
            i <= positions@.len(),
            all == views_of(sentences@),
            forall|k: int| 0 <= k < positions@.len() ==> #[trigger] positions@[k] < sentences@.len(),
            r@ == joined_with_spaces(picked(all, positions@.subrange(0, i as int))),
        decreases positions@.len() - i,
    {
        let ghost before = r@;
        let at = positions[i];
        if i > 0 {
            append_text(&mut r, " ");
        }
        append_text(&mut r, sentences[at].as_str());
        proof {
            let ps = picked(all, positions@.subrange(0, i + 1));
            assert(ps.drop_last() =~= picked(all, positions@.subrange(0, i as int)));
            assert(ps.last() == sentences@[at as int]@);
            if i == 0 {
                assert(ps.len() == 1);
                assert(r@ =~= ps[0]);
            }
        }
        i = i + 1;
    }
    assert(positions@.subrange(0, positions@.len() as int) =~= positions@);
    r
}

/// A summary of sentences ranked by `ranked` (positions, from the lowest rank
/// to the highest): the best three (or all, when fewer), in text order,
/// joined with single spaces.
pub fn summary_text(sentences: &Vec<String>, ranked: &Vec<usize>) -> (r: String)
    requires
        forall|k: int| 0 <= k < ranked@.len() ==> #[trigger] ranked@[k] < sentences@.len(),
    ensures
        exists|top: Seq<usize>| #![trigger picked(views_of(sentences@), top)]
            ascending_positions(top)
            && top.to_multiset() == ranked@.subrange(ranked@.len() - summary_size(ranked@.len()), ranked@.len() as int).to_multiset()
            && r@ == joined_with_spaces(picked(views_of(sentences@), top)),
{
    let top = top_sentences(ranked);
    proof {
        let n = ranked@.len();
        let part = ranked@.subrange(n - summary_size(n), n as int);
        assert forall|k: int| 0 <= k < top@.len() implies #[trigger] top@[k] < sentences@.len() by {
            let x = top@[k];
            vstd::seq_lib::to_multiset_contains(top@, x);
            vstd::seq_lib::to_multiset_contains(part, x);
            assert(top@.contains(x));
            let t = choose|t: int| 0 <= t < part.len() && part[t] == x;
            assert(part[t] == ranked@[n - summary_size(n) + t]);
        }
    }
    join_sentences(sentences, &top)
}

} // verus!
