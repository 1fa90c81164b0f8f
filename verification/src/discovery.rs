//! License-text discovery: classifying the files of a package directory by
//! name, reading their contents, and scoring each candidate against the
//! canonical template of the declared license by bag-of-words similarity.

use vstd::prelude::*;

use crate::license::License;
use crate::license::no_nested_multiple;
use crate::license::LicenseView;
use crate::license::display_spec;
use crate::license::synonyms_spec;
use crate::license::template_spec;
use crate::license::wf_view;
use crate::textops::contains_seq;
use crate::textops::lower_of;
use crate::textops::slug_of;
use crate::textops::slugify;
use crate::textops::split_words;
use crate::textops::str_contains;
use crate::textops::str_eq;
use crate::textops::to_lower;
use crate::textops::to_upper;
use crate::textops::upper_of;
use crate::textops::words_of;

verus! {

/// How much a candidate text is trusted to be the license it was matched
/// to, from most to least trusted.
#[derive(Debug, Clone, Copy, Eq, PartialEq, Structural)]
pub enum Confidence {
    Confident,
    SemiConfident,
    Unsure,
    NoTemplate,
}

/// A candidate license text found in a package directory.
#[derive(Debug)]
pub struct LicenseText {
    pub path: String,
    pub text: String,
    pub confidence: Confidence,
}

/// The model of a candidate license text.
pub struct LicenseTextView {
    pub path: Seq<char>,
    pub text: Seq<char>,
    pub confidence: Confidence,
}

impl View for LicenseText {
    type V = LicenseTextView;

    open spec fn view(&self) -> LicenseTextView {
        LicenseTextView { path: self.path@, text: self.text@, confidence: self.confidence }
    }
}

/// A word-frequency map: how often each lowercased word occurs in a text.
/// Keys are distinct and kept in first-appearance order.
pub struct WordFreq {
    entries: Vec<(String, u64)>,
}

/// The model of a frequency map: its entries in order, with mathematical
/// counts.
pub open spec fn freq_entries_view(s: Seq<(String, u64)>) -> Seq<(Seq<char>, nat)> {
    s.map_values(|e: (String, u64)| (e.0@, e.1 as nat))
}

impl View for WordFreq {
    type V = Seq<(Seq<char>, nat)>;

    closed spec fn view(&self) -> Seq<(Seq<char>, nat)> {
        freq_entries_view(self.entries@)
    }
}

/// The count recorded for `w`, or zero where `w` has no entry.
pub open spec fn count_in(es: Seq<(Seq<char>, nat)>, w: Seq<char>) -> nat
    decreases es.len(),
{
    if es.len() == 0 {
        0
    } else if es[0].0 == w {
        es[0].1
    } else {
        count_in(es.drop_first(), w)
    }
}

/// Whether `w` has an entry.
pub open spec fn has_key(es: Seq<(Seq<char>, nat)>, w: Seq<char>) -> bool {
    exists|i: int| 0 <= i < es.len() && es[i].0 == w
}

/// No two entries share a key.
pub open spec fn distinct_keys(es: Seq<(Seq<char>, nat)>) -> bool {
    forall|i: int, j: int| 0 <= i < j < es.len() ==> (#[trigger] es[i]).0 != (#[trigger] es[j]).0
}

/// The total of all recorded counts.
pub open spec fn sum_counts(es: Seq<(Seq<char>, nat)>) -> nat
    decreases es.len(),
{
    if es.len() == 0 {
        0
    } else {
        es[0].1 + sum_counts(es.drop_first())
    }
}

/// One more occurrence of `w`: its entry's count grows by one, or a new
/// entry for `w` with count one is appended.
pub open spec fn bump(es: Seq<(Seq<char>, nat)>, w: Seq<char>) -> Seq<(Seq<char>, nat)>
    decreases es.len(),
{
    if es.len() == 0 {
        seq![(w, 1nat)]
    } else if es[0].0 == w {
        seq![(es[0].0, (es[0].1 + 1) as nat)] + es.drop_first()
    } else {
        seq![es[0]] + bump(es.drop_first(), w)
    }
}

/// The frequency map of a word sequence, counted left to right.
pub open spec fn build_freq(ws: Seq<Seq<char>>) -> Seq<(Seq<char>, nat)>
    decreases ws.len(),
{
    if ws.len() == 0 {
        Seq::empty()
    } else {
        bump(build_freq(ws.drop_last()), ws.last())
    }
}

/// Each word lowercased.
pub open spec fn lowered(ws: Seq<Seq<char>>) -> Seq<Seq<char>> {
    ws.map_values(|w: Seq<char>| lower_of(w))
}

proof fn lemma_bump_count(es: Seq<(Seq<char>, nat)>, w: Seq<char>, u: Seq<char>)
    ensures
        count_in(bump(es, w), w) == count_in(es, w) + 1,
        u != w ==> count_in(bump(es, w), u) == count_in(es, u),
        has_key(bump(es, w), u) == (has_key(es, u) || u == w),
        sum_counts(bump(es, w)) == sum_counts(es) + 1,
    decreases es.len(),
{
    if es.len() == 0 {
        let r = bump(es, w);
        assert(r =~= seq![(w, 1nat)]);
        assert(r.drop_first() =~= Seq::<(Seq<char>, nat)>::empty());
        assert(sum_counts(r.drop_first()) == 0);
        assert(sum_counts(r) == 1);
        assert(count_in(r, w) == 1);
        if u != w {
            assert(!has_key(es, u));
            assert(count_in(r, u) == count_in(r.drop_first(), u));
            assert(count_in(r.drop_first(), u) == 0);
            assert(forall|i: int| 0 <= i < r.len() ==> r[i].0 == w);
        } else {
            assert(r[0].0 == w);
        }
    } else if es[0].0 == w {
        let r = bump(es, w);
        assert(r =~= seq![(es[0].0, (es[0].1 + 1) as nat)] + es.drop_first());
        assert(r[0].0 == w);
        assert(r.drop_first() =~= es.drop_first());
        assert(sum_counts(r) == r[0].1 + sum_counts(r.drop_first()));
        assert(sum_counts(es) == es[0].1 + sum_counts(es.drop_first()));
        if u != w {
            assert(count_in(r, u) == count_in(r.drop_first(), u));
            assert(count_in(es, u) == count_in(es.drop_first(), u));
        }
        assert forall|i: int| 0 <= i < r.len() implies (has_key(es, u) || u == w) || r[i].0
            != u by {
            if i > 0 && r[i].0 == u {
                assert(es[i] == r[i]);
            }
        }
        if has_key(es, u) {
            let i = choose|i: int| 0 <= i < es.len() && es[i].0 == u;
            assert(r[i].0 == u);
        }
        if u == w {
            assert(r[0].0 == u);
        }
    } else {
        let r = bump(es, w);
        lemma_bump_count(es.drop_first(), w, u);
        lemma_bump_count(es.drop_first(), w, w);
        assert(r =~= seq![es[0]] + bump(es.drop_first(), w));
        assert(r[0] == es[0]);
        assert(r.drop_first() =~= bump(es.drop_first(), w));
        assert(sum_counts(r) == r[0].1 + sum_counts(r.drop_first()));
        assert(sum_counts(es) == es[0].1 + sum_counts(es.drop_first()));
        assert(count_in(r, w) == count_in(r.drop_first(), w));
        assert(count_in(es, w) == count_in(es.drop_first(), w));
        if u != w {
            if es[0].0 == u {
                assert(count_in(r, u) == r[0].1);
                assert(count_in(es, u) == es[0].1);
            } else {
                assert(count_in(r, u) == count_in(r.drop_first(), u));
                assert(count_in(es, u) == count_in(es.drop_first(), u));
            }
        }
        if has_key(es, u) {
            let i = choose|i: int| 0 <= i < es.len() && es[i].0 == u;
            if i == 0 {
                assert(r[0].0 == u);
            } else {
                assert(es.drop_first()[i - 1].0 == u);
                assert(has_key(es.drop_first(), u));
                let j = choose|j: int|
                    0 <= j < bump(es.drop_first(), w).len() && bump(es.drop_first(), w)[j].0 == u;
                assert(r[j + 1].0 == u);
            }
        }
        if u == w {
            let j = choose|j: int|
                0 <= j < bump(es.drop_first(), w).len() && bump(es.drop_first(), w)[j].0 == u;
            assert(r[j + 1].0 == u);
        }
        if has_key(r, u) {
            let i = choose|i: int| 0 <= i < r.len() && r[i].0 == u;
            if i == 0 {
                assert(es[0].0 == u);
            } else {
                assert(bump(es.drop_first(), w)[i - 1].0 == u);
                assert(has_key(es.drop_first(), u) || u == w);
                if has_key(es.drop_first(), u) {
                    let j = choose|j: int|
                        0 <= j < es.drop_first().len() && es.drop_first()[j].0 == u;
                    assert(es[j + 1].0 == u);
                }
            }
        }
    }
}

proof fn lemma_bump_distinct(es: Seq<(Seq<char>, nat)>, w: Seq<char>)
    requires
        distinct_keys(es),
    ensures
        distinct_keys(bump(es, w)),
    decreases es.len(),
{
    let r = bump(es, w);
    if es.len() == 0 {
        assert(r =~= seq![(w, 1nat)]);
    } else if es[0].0 == w {
        assert(r =~= seq![(es[0].0, (es[0].1 + 1) as nat)] + es.drop_first());
        assert forall|i: int, j: int| 0 <= i < j < r.len() implies (#[trigger] r[i]).0 != (
        #[trigger] r[j]).0 by {
            if i == 0 {
                assert(r[j] == es[j]);
                assert(es[0].0 != es[j].0);
            } else {
                assert(r[i] == es[i] && r[j] == es[j]);
            }
        }
    } else {
        assert(distinct_keys(es.drop_first())) by {
            assert forall|i: int, j: int|
                0 <= i < j < es.drop_first().len() implies (#[trigger] es.drop_first()[i]).0 != (
            #[trigger] es.drop_first()[j]).0 by {
                assert(es.drop_first()[i] == es[i + 1]);
                assert(es.drop_first()[j] == es[j + 1]);
            }
        }
        lemma_bump_distinct(es.drop_first(), w);
        assert(r =~= seq![es[0]] + bump(es.drop_first(), w));
        assert(!has_key(es.drop_first(), es[0].0)) by {
            assert forall|i: int| 0 <= i < es.drop_first().len() implies es.drop_first()[i].0 != es[
                0
            ].0 by {
                assert(es.drop_first()[i] == es[i + 1]);
            }
        }
        lemma_bump_count(es.drop_first(), w, es[0].0);
        assert forall|i: int, j: int| 0 <= i < j < r.len() implies (#[trigger] r[i]).0 != (
        #[trigger] r[j]).0 by {
            if i == 0 {
                assert(r[j] == bump(es.drop_first(), w)[j - 1]);
                if r[j].0 == es[0].0 {
                    assert(has_key(bump(es.drop_first(), w), es[0].0));
                }
            } else {
                assert(r[i] == bump(es.drop_first(), w)[i - 1]);
                assert(r[j] == bump(es.drop_first(), w)[j - 1]);
            }
        }
    }
}

/// Every count is at most the total.
proof fn lemma_count_le_sum(es: Seq<(Seq<char>, nat)>, w: Seq<char>)
    ensures
        count_in(es, w) <= sum_counts(es),
    decreases es.len(),
{
    if es.len() > 0 {
        lemma_count_le_sum(es.drop_first(), w);
    }
}

/// The counts of a built frequency map total the number of words counted,
/// its keys are distinct, and a key occurs exactly where some word equals
/// it.
pub proof fn lemma_build_freq(ws: Seq<Seq<char>>)
    ensures
        sum_counts(build_freq(ws)) == ws.len(),
        distinct_keys(build_freq(ws)),
        forall|w: Seq<char>| #[trigger] has_key(build_freq(ws), w) <==> ws.contains(w),
    decreases ws.len(),
{
    if ws.len() == 0 {
        assert forall|w: Seq<char>| #[trigger]
            has_key(build_freq(ws), w) <==> ws.contains(w) by {
            assert(build_freq(ws).len() == 0);
            if ws.contains(w) {
                let i = choose|i: int| 0 <= i < ws.len() && ws[i] == w;
            }
        }
    } else {
        lemma_build_freq(ws.drop_last());
        lemma_bump_distinct(build_freq(ws.drop_last()), ws.last());
        assert forall|w: Seq<char>| #[trigger]
            has_key(build_freq(ws), w) <==> ws.contains(w) by {
            lemma_bump_count(build_freq(ws.drop_last()), ws.last(), w);
            if has_key(build_freq(ws), w) {
                if has_key(build_freq(ws.drop_last()), w) {
                    let i = choose|i: int| 0 <= i < ws.drop_last().len() && ws.drop_last()[i] == w;
                    assert(ws[i] == w);
                } else {
                    assert(ws[ws.len() - 1] == w);
                }
            }
            if ws.contains(w) {
                let i = choose|i: int| 0 <= i < ws.len() && ws[i] == w;
                if i < ws.len() - 1 {
                    assert(ws.drop_last()[i] == w);
                    assert(has_key(build_freq(ws.drop_last()), w));
                } else {
                    assert(ws.last() == w);
                }
            }
        }
        lemma_bump_count(build_freq(ws.drop_last()), ws.last(), ws.last());
    }
}

impl WordFreq {
    /// All counts are kept under distinct keys.
    pub open spec fn wf(&self) -> bool {
        distinct_keys(self@)
    }

    /// An empty frequency map.
    pub fn new() -> (r: WordFreq)
        ensures
            r@ == Seq::<(Seq<char>, nat)>::empty(),
            r.wf(),
    {
        let r = WordFreq { entries: Vec::new() };
        proof {
            assert(r@ =~= Seq::<(Seq<char>, nat)>::empty());
        }
        r
    }

    /// Records one more occurrence of the given word.
    fn bump_word(&mut self, w: String)
        requires
            old(self).wf(),
            sum_counts(old(self)@) < u64::MAX,
        ensures
            final(self)@ == bump(old(self)@, w@),
            final(self).wf(),
            sum_counts(final(self)@) == sum_counts(old(self)@) + 1,
    {
        proof {
            lemma_bump_distinct(old(self)@, w@);
            lemma_bump_count(old(self)@, w@, w@);
        }
        let ghost es = self@;
        let n = self.entries.len();
        let mut i: usize = 0;
        while i < n
            invariant
                0 <= i <= n,
                n == self.entries@.len(),
                es == self@,
                es == old(self)@,
                self.wf(),
                sum_counts(es) < u64::MAX,
                forall|q: int| 0 <= q < i ==> (#[trigger] es[q]).0 != w@,
            decreases n - i,
        {
            if self.entries[i].0.eq(&w) {
                proof {
                    assert(es[i as int].0 == w@);
                    lemma_bump_at(es, w@, i as int);
                    lemma_count_at(es, i as int);
                    lemma_count_le_sum(es, w@);
                    assert(count_in(es, w@) == es[i as int].1);
                }
                let c = self.entries[i].1;
                let k = self.entries[i].0.clone();
                self.entries[i] = (k, c + 1);
                proof {
                    lemma_bump_count(es, w@, w@);
                    assert(self@ =~= es.update(i as int, (es[i as int].0, (es[i as int].1 + 1) as nat)));
                    assert(self@ =~= bump(es, w@));
                }
                return ;
            }
            i = i + 1;
        }
        proof {
            assert(!has_key(es, w@));
            lemma_bump_absent(es, w@);
        }
        self.entries.push((w, 1));
        proof {
            assert(self@ =~= es.push((w@, 1nat)));
            assert(self@ =~= bump(es, w@));
        }
    }

    /// The count recorded for a word.
    pub fn count_of(&self, w: &String) -> (r: u64)
        ensures
            r as nat == count_in(self@, w@),
    {
        let ghost es = self@;
        let n = self.entries.len();
        let mut i: usize = 0;
        proof {
            assert(es.skip(0) =~= es);
        }
        while i < n
            invariant
                0 <= i <= n,
                n == self.entries@.len(),
                es == self@,
                count_in(es, w@) == count_in(es.skip(i as int), w@),
            decreases n - i,
        {
            if self.entries[i].0.eq(w) {
                proof {
                    assert(es.skip(i as int)[0] == es[i as int]);
                }
                return self.entries[i].1;
            }
            proof {
                assert(es.skip(i as int)[0] == es[i as int]);
                assert(es.skip(i as int).drop_first() =~= es.skip(i as int + 1));
            }
            i = i + 1;
        }
        proof {
            assert(es.skip(n as int).len() == 0);
        }
        0
    }

    /// Whether a word has an entry.
    pub fn contains_word(&self, w: &String) -> (r: bool)
        ensures
            r == has_key(self@, w@),
    {
        let ghost es = self@;
        let n = self.entries.len();
        let mut i: usize = 0;
        while i < n
            invariant
                0 <= i <= n,
                n == self.entries@.len(),
                es == self@,
                forall|q: int| 0 <= q < i ==> (#[trigger] es[q]).0 != w@,
            decreases n - i,
        {
            if self.entries[i].0.eq(w) {
                proof {
                    assert(es[i as int].0 == w@);
                }
                return true;
            }
            i = i + 1;
        }
        false
    }

    /// The number of entries.
    pub fn entry_count(&self) -> (r: usize)
        ensures
            r == self@.len(),
    {
        self.entries.len()
    }
}

/// `bump` with a key present at position `i` (and nowhere earlier) raises
/// that entry's count.
proof fn lemma_bump_at(es: Seq<(Seq<char>, nat)>, w: Seq<char>, i: int)
    requires
        0 <= i < es.len(),
        es[i].0 == w,
        forall|q: int| 0 <= q < i ==> (#[trigger] es[q]).0 != w,
    ensures
        bump(es, w) =~= es.update(i, (es[i].0, (es[i].1 + 1) as nat)),
    decreases es.len(),
{
    if i == 0 {
        assert(bump(es, w) =~= seq![(es[0].0, (es[0].1 + 1) as nat)] + es.drop_first());
    } else {
        assert(es[0].0 != w);
        assert forall|q: int| 0 <= q < i - 1 implies (#[trigger] es.drop_first()[q]).0 != w by {
            assert(es.drop_first()[q] == es[q + 1]);
        }
        assert(es.drop_first()[i - 1] == es[i]);
        lemma_bump_at(es.drop_first(), w, i - 1);
        assert(bump(es, w) =~= seq![es[0]] + bump(es.drop_first(), w));
    }
}

/// `bump` with an absent key appends a fresh entry.
proof fn lemma_bump_absent(es: Seq<(Seq<char>, nat)>, w: Seq<char>)
    requires
        !has_key(es, w),
    ensures
        bump(es, w) =~= es.push((w, 1nat)),
    decreases es.len(),
{
    if es.len() > 0 {
        assert(es[0].0 != w);
        assert(!has_key(es.drop_first(), w)) by {
            if has_key(es.drop_first(), w) {
                let i = choose|i: int| 0 <= i < es.drop_first().len() && es.drop_first()[i].0 == w;
                assert(es[i + 1].0 == w);
            }
        }
        lemma_bump_absent(es.drop_first(), w);
        assert(bump(es, w) =~= seq![es[0]] + bump(es.drop_first(), w));
    }
}

/// An entry of a distinct-keyed map is found by its own key.
proof fn lemma_count_at(es: Seq<(Seq<char>, nat)>, i: int)
    requires
        distinct_keys(es),
        0 <= i < es.len(),
    ensures
        count_in(es, es[i].0) == es[i].1,
    decreases es.len(),
{
    if i > 0 {
        assert(es[0].0 != es[i].0);
        assert(distinct_keys(es.drop_first())) by {
            assert forall|p: int, q: int|
                0 <= p < q < es.drop_first().len() implies (#[trigger] es.drop_first()[p]).0 != (
            #[trigger] es.drop_first()[q]).0 by {
                assert(es.drop_first()[p] == es[p + 1]);
                assert(es.drop_first()[q] == es[q + 1]);
            }
        }
        assert(es.drop_first()[i - 1] == es[i]);
        lemma_count_at(es.drop_first(), i - 1);
    }
}

/// An absent key counts zero occurrences.
proof fn lemma_absent_count_zero(es: Seq<(Seq<char>, nat)>, w: Seq<char>)
    requires
        !has_key(es, w),
    ensures
        count_in(es, w) == 0,
    decreases es.len(),
{
    if es.len() > 0 {
        assert(es[0].0 != w);
        assert(!has_key(es.drop_first(), w)) by {
            if has_key(es.drop_first(), w) {
                let i = choose|i: int| 0 <= i < es.drop_first().len() && es.drop_first()[i].0 == w;
                assert(es[i + 1].0 == w);
            }
        }
        lemma_absent_count_zero(es.drop_first(), w);
    }
}

/// The occurrences of `ws` counted onto an existing map, left to right.
pub open spec fn bump_all(es: Seq<(Seq<char>, nat)>, ws: Seq<Seq<char>>) -> Seq<(Seq<char>, nat)>
    decreases ws.len(),
{
    if ws.len() == 0 {
        es
    } else {
        bump(bump_all(es, ws.drop_last()), ws.last())
    }
}

/// Counting onto an empty map builds the map of the words.
proof fn lemma_bump_all_empty(ws: Seq<Seq<char>>)
    ensures
        bump_all(Seq::empty(), ws) == build_freq(ws),
    decreases ws.len(),
{
    if ws.len() > 0 {
        lemma_bump_all_empty(ws.drop_last());
    }
}

/// The template-side error: for every template entry, how far the text's
/// count is from the template's.
pub open spec fn diff_sum(tf: Seq<(Seq<char>, nat)>, pf: Seq<(Seq<char>, nat)>) -> nat
    decreases pf.len(),
{
    if pf.len() == 0 {
        0
    } else {
        abs_diff(count_in(tf, pf[0].0), pf[0].1) + diff_sum(tf, pf.drop_first())
    }
}

/// The distance between two counts.
pub open spec fn abs_diff(a: nat, b: nat) -> nat {
    if a >= b {
        (a - b) as nat
    } else {
        (b - a) as nat
    }
}

/// The text-side error: the counts of every text word the template does
/// not mention.
pub open spec fn leftover_sum(tf: Seq<(Seq<char>, nat)>, pf: Seq<(Seq<char>, nat)>) -> nat
    decreases tf.len(),
{
    if tf.len() == 0 {
        0
    } else {
        (if has_key(pf, tf[0].0) {
            0nat
        } else {
            tf[0].1
        }) + leftover_sum(tf.drop_first(), pf)
    }
}

/// The error count between a text's and a template's frequency maps: the
/// sum over every template word of the distance between the two counts,
/// plus the counts of every text word absent from the template.
pub open spec fn errors_spec(tf: Seq<(Seq<char>, nat)>, pf: Seq<(Seq<char>, nat)>) -> nat {
    diff_sum(tf, pf) + leftover_sum(tf, pf)
}

/// The confidence tier of an error count against a template of `total`
/// words: a score `errors / total` under one tenth is confident, under
/// fifteen hundredths is semi-confident, anything else unsure.  A template
/// with no words cannot vouch for anything and yields `Unsure`.
pub open spec fn threshold_spec(errors: nat, total: nat) -> Confidence {
    if total == 0 {
        Confidence::Unsure
    } else if 10 * errors < total {
        Confidence::Confident
    } else if 20 * errors < 3 * total {
        Confidence::SemiConfident
    } else {
        Confidence::Unsure
    }
}

/// The confidence of a text's frequency map measured against a
/// template's.
pub open spec fn score_confidence(tf: Seq<(Seq<char>, nat)>, pf: Seq<(Seq<char>, nat)>) -> Confidence {
    threshold_spec(errors_spec(tf, pf), sum_counts(pf))
}

/// Counts the lowercased words onto an existing frequency map.
fn add_frequencies(freq: &mut WordFreq, words: &Vec<String>)
    requires
        old(freq).wf(),
        sum_counts(old(freq)@) + words@.len() <= u64::MAX,
    ensures
        final(freq)@ == bump_all(old(freq)@, lowered(words.deep_view())),
        final(freq).wf(),
        sum_counts(final(freq)@) == sum_counts(old(freq)@) + words@.len(),
{
    let ghost ws = lowered(words.deep_view());
    let n = words.len();
    let mut i: usize = 0;
    proof {
        assert(ws.take(0) =~= Seq::<Seq<char>>::empty());
    }
    while i < n
        invariant
            0 <= i <= n,
            n == words@.len(),
            ws == lowered(words.deep_view()),
            ws.len() == n,
            freq.wf(),
            freq@ == bump_all(old(freq)@, ws.take(i as int)),
            sum_counts(freq@) == sum_counts(old(freq)@) + i,
            sum_counts(old(freq)@) + n <= u64::MAX,
        decreases n - i,
    {
        let low = to_lower(words[i].as_str());
        proof {
            assert(words.deep_view()[i as int] == words@[i as int]@);
            assert(ws[i as int] == lower_of(words@[i as int]@));
        }
        freq.bump_word(low);
        proof {
            assert(ws.take(i as int + 1).drop_last() =~= ws.take(i as int));
            assert(ws.take(i as int + 1).last() == ws[i as int]);
        }
        i = i + 1;
    }
    proof {
        assert(ws.take(n as int) =~= ws);
    }
}

/// The frequency map of every word of a text, lowercased.
pub fn calculate_frequency(text: &str) -> (r: WordFreq)
    ensures
        r@ == build_freq(lowered(words_of(text@))),
        r.wf(),
        sum_counts(r@) == words_of(text@).len(),
        sum_counts(r@) <= u64::MAX,
{
    let words = split_words(text);
    let n = words.len();
    proof {
        assert(n as nat == words@.len());
        assert(words@.len() <= u64::MAX);
    }
    let mut freq = WordFreq::new();
    add_frequencies(&mut freq, &words);
    proof {
        lemma_bump_all_empty(lowered(words.deep_view()));
    }
    freq
}

/// The error count of a text's word frequencies against a template's.
pub fn compare(text_freq: WordFreq, template_freq: &WordFreq) -> (errors: u128)
    requires
        text_freq.wf(),
        template_freq.wf(),
        sum_counts(text_freq@) <= u64::MAX,
    ensures
        errors as nat == errors_spec(text_freq@, template_freq@),
{
    let ghost tf = text_freq@;
    let ghost pf = template_freq@;
    let mut errors: u128 = 0;
    let n = template_freq.entries.len();
    let mut i: usize = 0;
    proof {
        assert(pf.skip(0) =~= pf);
        assert(forall|q: int| 0 <= q < pf.len() ==> (#[trigger] pf[q]).1 <= u64::MAX);
    }
    while i < n
        invariant
            0 <= i <= n,
            n == template_freq.entries@.len(),
            tf == text_freq@,
            pf == template_freq@,
            pf.len() == n,
            text_freq.wf(),
            forall|q: int| 0 <= q < pf.len() ==> (#[trigger] pf[q]).1 <= u64::MAX,
            errors as nat + diff_sum(tf, pf.skip(i as int)) == diff_sum(tf, pf),
            errors <= (i as u128) * (u64::MAX as u128),
        decreases n - i,
    {
        let c = template_freq.entries[i].1;
        let tc = text_freq.count_of(&template_freq.entries[i].0);
        let diff: u64 = if tc >= c {
            tc - c
        } else {
            c - tc
        };
        proof {
            assert(pf[i as int].0 == template_freq.entries@[i as int].0@);
            assert(pf[i as int].1 == template_freq.entries@[i as int].1 as nat);
            assert(diff as nat == abs_diff(count_in(tf, pf[i as int].0), pf[i as int].1));
            assert(pf.skip(i as int)[0] == pf[i as int]);
            assert(pf.skip(i as int).drop_first() =~= pf.skip(i as int + 1));
            assert((i as u128) * (u64::MAX as u128) + (u64::MAX as u128) == ((i + 1) as u128) * (
            u64::MAX as u128)) by (nonlinear_arith);
            assert(((i + 1) as u128) * (u64::MAX as u128) <= (n as u128) * (u64::MAX as u128)) by (
            nonlinear_arith)
                requires
                    0 <= i + 1 <= n,
            ;
            assert((n as u128) * (u64::MAX as u128) < u128::MAX) by (nonlinear_arith)
                requires
                    n <= u64::MAX,
            ;
        }
        errors = errors + diff as u128;
        i = i + 1;
    }
    proof {
        assert(pf.skip(n as int).len() == 0);
        assert(errors as nat == diff_sum(tf, pf));
        assert(tf.skip(0) =~= tf);
    }
    let m = text_freq.entries.len();
    let mut j: usize = 0;
    while j < m
        invariant
            0 <= j <= m,
            m == text_freq.entries@.len(),
            tf == text_freq@,
            pf == template_freq@,
            tf.len() == m,
            errors as nat + leftover_sum(tf.skip(j as int), pf) == diff_sum(tf, pf)
                + leftover_sum(tf, pf),
            errors as nat <= diff_sum(tf, pf) + sum_counts(tf) - sum_counts(tf.skip(j as int)),
            diff_sum(tf, pf) < u128::MAX - u64::MAX,
            sum_counts(tf) <= u64::MAX,
        decreases m - j,
    {
        proof {
            assert(tf.skip(j as int)[0] == tf[j as int]);
            assert(tf.skip(j as int).drop_first() =~= tf.skip(j as int + 1));
            assert(sum_counts(tf.skip(j as int)) == tf[j as int].1 + sum_counts(
                tf.skip(j as int + 1),
            ));
        }
        let present = template_freq.contains_word(&text_freq.entries[j].0);
        proof {
            assert(tf[j as int].0 == text_freq.entries@[j as int].0@);
            assert(tf[j as int].1 == text_freq.entries@[j as int].1 as nat);
            lemma_sum_skip_le(tf, j as int);
        }
        if !present {
            errors = errors + text_freq.entries[j].1 as u128;
        }
        j = j + 1;
    }
    proof {
        assert(tf.skip(m as int).len() == 0);
        lemma_sum_skip_le(tf, m as int);
    }
    errors
}

/// The template words of the members of an expression, concatenated in
/// member order; absent as soon as any member has no template.
pub open spec fn multi_template_words(ls: Seq<LicenseView>) -> Option<Seq<Seq<char>>>
    decreases ls.len(),
{
    if ls.len() == 0 {
        Option::Some(Seq::empty())
    } else {
        match (multi_template_words(ls.drop_last()), template_spec(ls.last())) {
            (Option::Some(ws), Option::Some(t)) => Option::Some(ws + words_of(t)),
            _ => Option::None,
        }
    }
}

/// The words a license's candidate texts are scored against: its
/// template's words, or for a `Multiple` the concatenated template words
/// of all members; absent where any needed template is missing.
pub open spec fn template_words_spec(l: LicenseView) -> Option<Seq<Seq<char>>> {
    match l {
        LicenseView::Multiple(ls) => multi_template_words(ls),
        _ => match template_spec(l) {
            Option::Some(t) => Option::Some(words_of(t)),
            Option::None => Option::None,
        },
    }
}

/// The confidence of a candidate text for a license: `NoTemplate` where
/// no template words exist, otherwise the thresholded word-frequency
/// score.
pub open spec fn confidence_spec(text: Seq<char>, l: LicenseView) -> Confidence {
    match template_words_spec(l) {
        Option::None => Confidence::NoTemplate,
        Option::Some(tw) => score_confidence(
            build_freq(lowered(words_of(text))),
            build_freq(lowered(tw)),
        ),
    }
}

/// A member without a template deprives the whole expression of one.
proof fn lemma_multi_none(ls: Seq<LicenseView>, k: int)
    requires
        0 <= k < ls.len(),
        template_spec(ls[k]) is None,
    ensures
        multi_template_words(ls) is None,
    decreases ls.len(),
{
    if k < ls.len() - 1 {
        assert(ls.drop_last()[k] == ls[k]);
        lemma_multi_none(ls.drop_last(), k);
    }
}

/// The tier of an error count against a template of `total` words.
fn confidence_from(errors: u128, total: usize) -> (r: Confidence)
    ensures
        r == threshold_spec(errors as nat, total as nat),
{
    if total == 0 {
        return Confidence::Unsure;
    }
    if errors > u128::MAX / 10 {
        return Confidence::Unsure;
    }
    if 10 * errors < total as u128 {
        return Confidence::Confident;
    }
    if errors > u128::MAX / 20 {
        return Confidence::Unsure;
    }
    if 20 * errors < 3 * (total as u128) {
        Confidence::SemiConfident
    } else {
        Confidence::Unsure
    }
}

/// Scores a candidate text against the canonical template of the given
/// license: `NoTemplate` where no template exists, else the thresholded
/// bag-of-words score.  For a `Multiple`, the members' templates are
/// pooled into one word bag.
pub fn check_against_template(text: &str, license: &License) -> (r: Confidence)
    requires
        no_nested_multiple(license@),
    ensures
        r == confidence_spec(text@, license@),
{
    broadcast use crate::license::lemma_member_views;

    let mut template_words: Vec<String> = Vec::new();
    if let License::Multiple(ls) = license {
        let ghost vs = crate::license::member_views(ls@);
        let mut i: usize = 0;
        proof {
            assert(license@ == LicenseView::Multiple(vs));
            assert(vs.take(0) =~= Seq::<LicenseView>::empty());
            assert(template_words.deep_view() =~= Seq::<Seq<char>>::empty());
        }
        #[verifier::loop_isolation(false)]
        while i < ls.len()
            invariant
                0 <= i <= ls.len(),
                Option::Some(template_words.deep_view()) == multi_template_words(
                    vs.take(i as int),
                ),
            decreases ls.len() - i,
        {
            proof {
                assert(vs[i as int] == crate::license::license_view(ls@[i as int]));
                assert(!(vs[i as int] is Multiple));
            }
            match (&ls[i]).template() {
                Option::None => {
                    proof {
                        lemma_multi_none(vs, i as int);
                    }
                    return Confidence::NoTemplate;
                },
                Option::Some(t) => {
                    let ghost before = template_words.deep_view();
                    let mut ws = split_words(t);
                    let ghost wsd = ws.deep_view();
                    template_words.append(&mut ws);
                    proof {
                        assert(template_words.deep_view() =~= before + wsd);
                        assert(vs.take(i as int + 1).drop_last() =~= vs.take(i as int));
                        assert(vs.take(i as int + 1).last() == vs[i as int]);
                    }
                },
            }
            i = i + 1;
        }
        proof {
            assert(vs.take(ls@.len() as int) =~= vs);
        }
    } else {
        proof {
            assert(!(license@ is Multiple));
        }
        match license.template() {
            Option::None => {
                return Confidence::NoTemplate;
            },
            Option::Some(t) => {
                template_words = split_words(t);
            },
        }
    }
    let text_freq = calculate_frequency(text);
    let total = template_words.len();
    proof {
        assert(total as nat == template_words@.len());
        assert(template_words@.len() <= u64::MAX);
    }
    let mut template_freq = WordFreq::new();
    add_frequencies(&mut template_freq, &template_words);
    proof {
        lemma_bump_all_empty(lowered(template_words.deep_view()));
        lemma_build_freq(lowered(template_words.deep_view()));
    }
    let errors = compare(text_freq, &template_freq);
    confidence_from(errors, total)
}

/// A candidate whose words are exactly its template's words scores zero
/// errors, and a template with any words at all then rates it
/// `Confident`.
pub proof fn lemma_identical_words_confident(ws: Seq<Seq<char>>)
    requires
        ws.len() > 0,
    ensures
        errors_spec(build_freq(ws), build_freq(ws)) == 0,
        score_confidence(build_freq(ws), build_freq(ws)) == Confidence::Confident,
{
    let f = build_freq(ws);
    lemma_build_freq(ws);
    assert forall|i: int| 0 <= i < f.len() implies count_in(f, (#[trigger] f[i]).0) == f[i].1 by {
        lemma_count_at(f, i);
    }
    assert forall|i: int| 0 <= i < f.len() implies has_key(f, (#[trigger] f[i]).0) by {
        assert(0 <= i < f.len() && f[i].0 == f[i].0);
    }
    lemma_diff_sum_matching(f, f);
    lemma_leftover_all_present(f, f);
}

/// Where the text's count agrees with every template entry, the
/// template-side error vanishes.
proof fn lemma_diff_sum_matching(tf: Seq<(Seq<char>, nat)>, pf: Seq<(Seq<char>, nat)>)
    requires
        forall|i: int| 0 <= i < pf.len() ==> count_in(tf, (#[trigger] pf[i]).0) == pf[i].1,
        distinct_keys(pf),
    ensures
        diff_sum(tf, pf) == 0,
    decreases pf.len(),
{
    if pf.len() > 0 {
        assert(abs_diff(count_in(tf, pf[0].0), pf[0].1) == 0);
        assert(distinct_keys(pf.drop_first())) by {
            assert forall|p: int, q: int|
                0 <= p < q < pf.drop_first().len() implies (#[trigger] pf.drop_first()[p]).0 != (
            #[trigger] pf.drop_first()[q]).0 by {
                assert(pf.drop_first()[p] == pf[p + 1]);
                assert(pf.drop_first()[q] == pf[q + 1]);
            }
        }
        assert forall|i: int|
            0 <= i < pf.drop_first().len() implies count_in(tf, (#[trigger] pf.drop_first()[i]).0)
            == pf.drop_first()[i].1 by {
            assert(pf.drop_first()[i] == pf[i + 1]);
        }
        lemma_diff_sum_matching(tf, pf.drop_first());
    }
}

/// Where every text word has a template entry, the text-side error
/// vanishes.
proof fn lemma_leftover_all_present(tf: Seq<(Seq<char>, nat)>, pf: Seq<(Seq<char>, nat)>)
    requires
        forall|i: int| 0 <= i < tf.len() ==> has_key(pf, (#[trigger] tf[i]).0),
    ensures
        leftover_sum(tf, pf) == 0,
    decreases tf.len(),
{
    if tf.len() > 0 {
        assert(has_key(pf, tf[0].0));
        assert forall|i: int|
            0 <= i < tf.drop_first().len() implies has_key(pf, (#[trigger] tf.drop_first()[i]).0) by {
            assert(tf.drop_first()[i] == tf[i + 1]);
        }
        lemma_leftover_all_present(tf.drop_first(), pf);
    }
}

/// Where the text's count is zero for every template entry, the
/// template-side error is the whole template total.
proof fn lemma_diff_sum_absent(tf: Seq<(Seq<char>, nat)>, pf: Seq<(Seq<char>, nat)>)
    requires
        forall|i: int| 0 <= i < pf.len() ==> count_in(tf, (#[trigger] pf[i]).0) == 0,
    ensures
        diff_sum(tf, pf) == sum_counts(pf),
    decreases pf.len(),
{
    if pf.len() > 0 {
        assert(abs_diff(count_in(tf, pf[0].0), pf[0].1) == pf[0].1);
        assert forall|i: int|
            0 <= i < pf.drop_first().len() implies count_in(tf, (#[trigger] pf.drop_first()[i]).0)
            == 0 by {
            assert(pf.drop_first()[i] == pf[i + 1]);
        }
        lemma_diff_sum_absent(tf, pf.drop_first());
    }
}

/// A candidate that shares no word with the template scores at least the
/// whole template total, and is rated `Unsure` whenever the template has
/// any words at all.
pub proof fn lemma_disjoint_words_unsure(xws: Seq<Seq<char>>, tws: Seq<Seq<char>>)
    requires
        tws.len() > 0,
        forall|i: int, j: int|
            0 <= i < xws.len() && 0 <= j < tws.len() ==> (#[trigger] xws[i]) != (#[trigger] tws[j]),
    ensures
        errors_spec(build_freq(xws), build_freq(tws)) >= tws.len(),
        score_confidence(build_freq(xws), build_freq(tws)) == Confidence::Unsure,
{
    let tf = build_freq(xws);
    let pf = build_freq(tws);
    lemma_build_freq(xws);
    lemma_build_freq(tws);
    assert forall|i: int| 0 <= i < pf.len() implies count_in(tf, (#[trigger] pf[i]).0) == 0 by {
        assert(has_key(pf, pf[i].0));
        assert(tws.contains(pf[i].0));
        let j = choose|j: int| 0 <= j < tws.len() && tws[j] == pf[i].0;
        assert(!xws.contains(pf[i].0)) by {
            if xws.contains(pf[i].0) {
                let q = choose|q: int| 0 <= q < xws.len() && xws[q] == pf[i].0;
            }
        }
        assert(!has_key(tf, pf[i].0));
        lemma_absent_count_zero(tf, pf[i].0);
    }
    lemma_diff_sum_absent(tf, pf);
    let total = sum_counts(pf);
    let errors = errors_spec(tf, pf);
    assert(total == tws.len());
    assert(errors >= total);
    assert(10 * errors >= 10 * total);
    assert(20 * errors >= 20 * total);
}

/// One directory entry of a package, as handed to discovery: its file
/// name, its full path, and its contents where the file could be read as
/// text.
#[derive(Debug)]
pub struct FileEntry {
    pub name: String,
    pub path: String,
    pub text: Option<String>,
}

/// The model of a directory entry.
pub struct FileEntryView {
    pub name: Seq<char>,
    pub path: Seq<char>,
    pub text: Option<Seq<char>>,
}

impl View for FileEntry {
    type V = FileEntryView;

    open spec fn view(&self) -> FileEntryView {
        FileEntryView {
            name: self.name@,
            path: self.path@,
            text: match self.text {
                Option::Some(t) => Option::Some(t@),
                Option::None => Option::None,
            },
        }
    }
}

/// The models of a sequence of entries, in order.
pub open spec fn entry_views(s: Seq<FileEntry>) -> Seq<FileEntryView> {
    s.map_values(|e: FileEntry| e@)
}

/// The models of a sequence of candidate texts, in order.
pub open spec fn texts_view(s: Seq<LicenseText>) -> Seq<LicenseTextView> {
    s.map_values(|t: LicenseText| t@)
}

/// Whether a file name is one of the fixed generic license file names,
/// compared without regard to case.
pub open spec fn generic_name_spec(name: Seq<char>) -> bool {
    ||| upper_of(name) == "LICENSE"@
    ||| upper_of(name) == "LICENCE"@
    ||| upper_of(name) == "LICENSE.MD"@
    ||| upper_of(name) == "LICENSE.TXT"@
}

/// Whether the file name is a generic license name.
pub fn generic_license_name(name: &str) -> (r: bool)
    ensures
        r == generic_name_spec(name@),
{
    let u = to_upper(name);
    str_eq(u.as_str(), "LICENSE") || str_eq(u.as_str(), "LICENCE") || str_eq(
        u.as_str(),
        "LICENSE.MD",
    ) || str_eq(u.as_str(), "LICENSE.TXT")
}

/// Whether a slugged file name counts as a specific match for a synonym:
/// it equals the synonym outright, or it both names a license (its slug
/// holds "license") and mentions the synonym.  The containment case
/// deliberately demands more than mere containment of the synonym, so
/// that an incidental mention of an identifier — a name such as
/// `mit-notes` — does not count as a license file.
pub open spec fn slug_match(n: Seq<char>, s: Seq<char>) -> bool {
    n == s || (contains_seq(n, "license"@) && contains_seq(n, s))
}

/// Whether a file name, slugified and lowercased, matches the license: a
/// custom license matches its own slug, any other license one of its
/// synonyms.
pub open spec fn name_matches_spec(name: Seq<char>, l: LicenseView) -> bool {
    let n = lower_of(slug_of(name));
    match l {
        LicenseView::Custom(c) => slug_match(n, lower_of(slug_of(c))),
        _ => exists|i: int|
            0 <= i < synonyms_spec(l).len() && slug_match(n, #[trigger] synonyms_spec(l)[i]),
    }
}

/// Whether the file name matches the license by slug.
pub fn name_matches(name: &str, license: &License) -> (r: bool)
    requires
        !(license@ is Multiple),
    ensures
        r == name_matches_spec(name@, license@),
{
    let slugged = slugify(name);
    let n = to_lower(slugged.as_str());
    if let License::Custom(c) = license {
        let cslug = slugify(c.as_str());
        let cs = to_lower(cslug.as_str());
        str_eq(n.as_str(), cs.as_str()) || (str_contains(n.as_str(), "license") && str_contains(
            n.as_str(),
            cs.as_str(),
        ))
    } else {
        proof {
            assert(wf_view(license@));
        }
        let syns = license.synonyms();
        let ghost sv = synonyms_spec(license@);
        let mut i: usize = 0;
        while i < syns.len()
            invariant
                0 <= i <= syns@.len(),
                syns.deep_view() == sv,
                sv == synonyms_spec(license@),
                !(license@ is Multiple),
                sv.len() == syns@.len(),
                n@ == lower_of(slug_of(name@)),
                forall|q: int| 0 <= q < i ==> !slug_match(n@, #[trigger] sv[q]),
            decreases syns@.len() - i,
        {
            proof {
                assert(syns.deep_view()[i as int] == syns@[i as int]@);
            }
            if str_eq(n.as_str(), syns[i].as_str()) || (str_contains(n.as_str(), "license")
                && str_contains(n.as_str(), syns[i].as_str())) {
                proof {
                    assert(slug_match(n@, synonyms_spec(license@)[i as int]));
                }
                return true;
            }
            i = i + 1;
        }
        false
    }
}

/// The candidates and the retained generic file after scanning the
/// entries in order: a name matching the license adds a scored candidate
/// where the file was readable; otherwise a generic license name
/// overwrites the single retained generic candidate, so the last one
/// encountered wins.
pub open spec fn scan_entries(es: Seq<FileEntryView>, l: LicenseView) -> (Seq<LicenseTextView>, Option<
    LicenseTextView,
>)
    decreases es.len(),
{
    if es.len() == 0 {
        (Seq::empty(), Option::<LicenseTextView>::None)
    } else {
        let prev = scan_entries(es.drop_last(), l);
        let e = es.last();
        if name_matches_spec(e.name, l) {
            match e.text {
                Option::Some(tx) => (
                    prev.0.push(
                        LicenseTextView { path: e.path, text: tx, confidence: confidence_spec(tx, l) },
                    ),
                    prev.1,
                ),
                Option::None => prev,
            }
        } else if generic_name_spec(e.name) {
            match e.text {
                Option::Some(tx) => (
                    prev.0,
                    Option::Some(
                        LicenseTextView { path: e.path, text: tx, confidence: confidence_spec(tx, l) },
                    ),
                ),
                Option::None => prev,
            }
        } else {
            prev
        }
    }
}

/// What discovery yields for the entries: the scored name-matched
/// candidates in discovery order, or, if there are none, the retained
/// generic file as the sole candidate.
pub open spec fn better_find_spec(es: Seq<FileEntryView>, l: LicenseView) -> Seq<LicenseTextView> {
    let scanned = scan_entries(es, l);
    if scanned.0.len() == 0 {
        match scanned.1 {
            Option::Some(g) => seq![g],
            Option::None => Seq::empty(),
        }
    } else {
        scanned.0
    }
}

/// Scans a package's directory entries for texts of the given license:
/// files whose names match the license are scored and collected in
/// order; failing any, the last readable file with a generic license
/// name stands in.  Unreadable files are skipped silently.
pub fn better_find(entries: &Vec<FileEntry>, license: &License) -> (r: Vec<LicenseText>)
    requires
        !(license@ is Multiple),
    ensures
        texts_view(r@) == better_find_spec(entry_views(entries@), license@),
{
    let ghost evs = entry_views(entries@);
    let mut generic: Option<LicenseText> = Option::None;
    let mut texts: Vec<LicenseText> = Vec::new();
    let mut i: usize = 0;
    proof {
        assert(evs.take(0) =~= Seq::<FileEntryView>::empty());
        assert(texts_view(texts@) =~= Seq::<LicenseTextView>::empty());
    }
    while i < entries.len()
        invariant
            0 <= i <= entries@.len(),
            evs == entry_views(entries@),
            evs.len() == entries@.len(),
            !(license@ is Multiple),
            texts_view(texts@) == scan_entries(evs.take(i as int), license@).0,
            (match (generic, scan_entries(evs.take(i as int), license@).1) {
                (Option::Some(g), Option::Some(gv)) => g@ == gv,
                (Option::None, Option::None) => true,
                _ => false,
            }),
        decreases entries@.len() - i,
    {
        proof {
            assert(evs[i as int] == entries@[i as int]@);
            assert(evs.take(i as int + 1).drop_last() =~= evs.take(i as int));
            assert(evs.take(i as int + 1).last() == evs[i as int]);
        }
        let entry = &entries[i];
        if name_matches(entry.name.as_str(), license) {
            if let Option::Some(tx) = &entry.text {
                let conf = check_against_template(tx.as_str(), license);
                let ghost before = texts@;
                texts.push(
                    LicenseText { path: entry.path.clone(), text: tx.clone(), confidence: conf },
                );
                proof {
                    assert(texts_view(texts@) =~= texts_view(before).push(
                        texts@[texts@.len() - 1]@,
                    ));
                }
            }
        } else if generic_license_name(entry.name.as_str()) {
            if let Option::Some(tx) = &entry.text {
                let conf = check_against_template(tx.as_str(), license);
                generic = Option::Some(
                    LicenseText { path: entry.path.clone(), text: tx.clone(), confidence: conf },
                );
            }
        }
        i = i + 1;
    }
    proof {
        assert(evs.take(entries@.len() as int) =~= evs);
    }
    if texts.len() == 0 {
        if let Option::Some(g) = generic {
            let ghost before = texts@;
            texts.push(g);
            proof {
                assert(texts_view(texts@) =~= texts_view(before).push(texts@[texts@.len() - 1]@));
            }
        }
    }
    texts
}

/// Whether a file name, uppercased, exactly names the license: the
/// license's canonical string, or that string behind the `LICENSE-`
/// prefix; the Apache license answers only to `LICENSE-APACHE`.
pub open spec fn strict_name_spec(name: Seq<char>, l: LicenseView) -> bool {
    let n = upper_of(name);
    match l {
        LicenseView::Apache_2_0 => n == "LICENSE-APACHE"@,
        LicenseView::Custom(c) => n == upper_of(c) || n == "LICENSE-"@ + upper_of(c),
        _ => n == upper_of(display_spec(l)) || n == "LICENSE-"@ + upper_of(display_spec(l)),
    }
}

/// Whether the file name names the license exactly, without regard to
/// case.
fn strict_name_matches(name: &str, license: &License) -> (r: bool)
    requires
        !(license@ is Multiple),
    ensures
        r == strict_name_spec(name@, license@),
{
    let n = to_upper(name);
    match license {
        License::Apache_2_0 => str_eq(n.as_str(), "LICENSE-APACHE"),
        License::Custom(c) => {
            let cu = to_upper(c.as_str());
            if str_eq(n.as_str(), cu.as_str()) {
                true
            } else {
                let mut p = "LICENSE-".to_owned();
                p.append(cu.as_str());
                str_eq(n.as_str(), p.as_str())
            }
        },
        _ => {
            proof {
                assert(wf_view(license@));
            }
            let shown = license.display();
            let lu = to_upper(shown.as_str());
            if str_eq(n.as_str(), lu.as_str()) {
                true
            } else {
                let mut p = "LICENSE-".to_owned();
                p.append(lu.as_str());
                str_eq(n.as_str(), p.as_str())
            }
        },
    }
}

/// The scored candidates whose file names name the license exactly, in
/// discovery order; unreadable files are skipped.
pub open spec fn find_license_spec(es: Seq<FileEntryView>, l: LicenseView) -> Seq<LicenseTextView>
    decreases es.len(),
{
    if es.len() == 0 {
        Seq::empty()
    } else {
        let prev = find_license_spec(es.drop_last(), l);
        let e = es.last();
        if strict_name_spec(e.name, l) {
            match e.text {
                Option::Some(tx) => prev.push(
                    LicenseTextView { path: e.path, text: tx, confidence: confidence_spec(tx, l) },
                ),
                Option::None => prev,
            }
        } else {
            prev
        }
    }
}

/// Collects the scored texts of the files that name the license exactly.
pub fn find_license_text(entries: &Vec<FileEntry>, license: &License) -> (r: Vec<LicenseText>)
    requires
        !(license@ is Multiple),
    ensures
        texts_view(r@) == find_license_spec(entry_views(entries@), license@),
{
    let ghost evs = entry_views(entries@);
    let mut texts: Vec<LicenseText> = Vec::new();
    let mut i: usize = 0;
    proof {
        assert(evs.take(0) =~= Seq::<FileEntryView>::empty());
        assert(texts_view(texts@) =~= Seq::<LicenseTextView>::empty());
    }
    while i < entries.len()
        invariant
            0 <= i <= entries@.len(),
            evs == entry_views(entries@),
            evs.len() == entries@.len(),
            !(license@ is Multiple),
            texts_view(texts@) == find_license_spec(evs.take(i as int), license@),
        decreases entries@.len() - i,
    {
        proof {
            assert(evs[i as int] == entries@[i as int]@);
            assert(evs.take(i as int + 1).drop_last() =~= evs.take(i as int));
            assert(evs.take(i as int + 1).last() == evs[i as int]);
        }
        let entry = &entries[i];
        if strict_name_matches(entry.name.as_str(), license) {
            if let Option::Some(tx) = &entry.text {
                let conf = check_against_template(tx.as_str(), license);
                let ghost before = texts@;
                texts.push(
                    LicenseText { path: entry.path.clone(), text: tx.clone(), confidence: conf },
                );
                proof {
                    assert(texts_view(texts@) =~= texts_view(before).push(
                        texts@[texts@.len() - 1]@,
                    ));
                }
            }
        }
        i = i + 1;
    }
    proof {
        assert(evs.take(entries@.len() as int) =~= evs);
    }
    texts
}

/// The first readable file with a generic license name, scored against
/// the license.
pub open spec fn first_generic_spec(es: Seq<FileEntryView>, l: LicenseView) -> Option<
    LicenseTextView,
>
    decreases es.len(),
{
    if es.len() == 0 {
        Option::None
    } else if generic_name_spec(es[0].name) && es[0].text is Some {
        Option::Some(
            LicenseTextView {
                path: es[0].path,
                text: es[0].text->Some_0,
                confidence: confidence_spec(es[0].text->Some_0, l),
            },
        )
    } else {
        first_generic_spec(es.drop_first(), l)
    }
}

/// Returns the first readable file with a generic license name, scored
/// against the license.
pub fn find_generic_license_text(entries: &Vec<FileEntry>, license: &License) -> (r: Option<
    LicenseText,
>)
    requires
        no_nested_multiple(license@),
    ensures
        (match (r, first_generic_spec(entry_views(entries@), license@)) {
            (Option::Some(t), Option::Some(tv)) => t@ == tv,
            (Option::None, Option::None) => true,
            _ => false,
        }),
{
    let ghost evs = entry_views(entries@);
    let mut i: usize = 0;
    proof {
        assert(evs.skip(0) =~= evs);
    }
    while i < entries.len()
        invariant
            0 <= i <= entries@.len(),
            evs == entry_views(entries@),
            evs.len() == entries@.len(),
            no_nested_multiple(license@),
            first_generic_spec(evs, license@) == first_generic_spec(
                evs.skip(i as int),
                license@,
            ),
        decreases entries@.len() - i,
    {
        proof {
            assert(evs[i as int] == entries@[i as int]@);
            assert(evs.skip(i as int)[0] == evs[i as int]);
            assert(evs.skip(i as int).drop_first() =~= evs.skip(i as int + 1));
        }
        let entry = &entries[i];
        if generic_license_name(entry.name.as_str()) {
            if let Option::Some(tx) = &entry.text {
                let conf = check_against_template(tx.as_str(), license);
                return Option::Some(
                    LicenseText { path: entry.path.clone(), text: tx.clone(), confidence: conf },
                );
            }
        }
        i = i + 1;
    }
    proof {
        assert(evs.skip(entries@.len() as int).len() == 0);
    }
    Option::None
}

/// The total of a suffix never exceeds the whole total.
proof fn lemma_sum_skip_le(es: Seq<(Seq<char>, nat)>, i: int)
    requires
        0 <= i <= es.len(),
    ensures
        sum_counts(es.skip(i)) <= sum_counts(es),
    decreases i,
{
    if i > 0 {
        lemma_sum_skip_le(es, i - 1);
        assert(es.skip(i - 1)[0] == es[i - 1]);
        assert(es.skip(i - 1).drop_first() =~= es.skip(i));
        assert(sum_counts(es.skip(i - 1)) == es[i - 1].1 + sum_counts(es.skip(i)));
    } else {
        assert(es.skip(0) =~= es);
    }
}

} // verus!
