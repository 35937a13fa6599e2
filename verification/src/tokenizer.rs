//! Tokenizer adapter: text to token-id sequences and back, over a fixed
//! vocabulary of words. Encoding splits the text on spaces and looks
//! each word up; decoding joins the words of the ids, omitting special
//! (control) tokens when asked to. Surrounding-whitespace trimming is
//! the generation engine's business, not the adapter's: decoding yields
//! words joined by single spaces, with nothing at the ends.

use vstd::prelude::*;
use vstd::string::StrSliceExecFns;
use vstd::string::StringExecFns;

use crate::errors::GenError;

verus! {

/// Index of the first space in `s`, or `s.len()` if there is none.
pub open spec fn first_space(s: Seq<char>) -> int
    decreases s.len(),
{
    if s.len() == 0 {
        0
    } else if s[0] == ' ' {
        0
    } else {
        1 + first_space(s.skip(1))
    }
}

pub proof fn lemma_first_space(s: Seq<char>)
    ensures
        0 <= first_space(s) <= s.len(),
        forall|j: int| 0 <= j < first_space(s) ==> s[j] != ' ',
        first_space(s) < s.len() ==> s[first_space(s)] == ' ',
    decreases s.len(),
{
    if s.len() > 0 && s[0] != ' ' {
        lemma_first_space(s.skip(1));
        assert(forall|j: int| 1 <= j < first_space(s) ==> s[j] == s.skip(1)[j - 1]);
    }
}

/// `first_space` is the only index with nothing but non-spaces before it
/// and a space (or the end) at it.
pub proof fn lemma_first_space_unique(s: Seq<char>, k: int)
    requires
        0 <= k <= s.len(),
        forall|j: int| 0 <= j < k ==> s[j] != ' ',
        k < s.len() ==> s[k] == ' ',
    ensures
        first_space(s) == k,
    decreases s.len(),
{
    if s.len() == 0 {
    } else if s[0] == ' ' {
        assert(k == 0);
    } else {
        assert(k >= 1);
        lemma_first_space_unique(s.skip(1), k - 1);
    }
}

/// The words of `s`: maximal runs of non-space characters, in order.
pub open spec fn split_spaces(s: Seq<char>) -> Seq<Seq<char>>
    decreases s.len(),
    via split_spaces_decreases
{
    if s.len() == 0 {
        Seq::empty()
    } else if s[0] == ' ' {
        split_spaces(s.skip(1))
    } else {
        let k = first_space(s);
        seq![s.take(k)] + split_spaces(s.skip(k))
    }
}

#[via_fn]
proof fn split_spaces_decreases(s: Seq<char>) {
    if s.len() > 0 && s[0] != ' ' {
        lemma_first_space(s);
        lemma_first_space(s.skip(1));
    }
}

/// A text has at least as many characters as words.
pub proof fn lemma_split_count(s: Seq<char>)
    ensures
        split_spaces(s).len() <= s.len(),
    decreases s.len(),
{
    if s.len() > 0 {
        if s[0] == ' ' {
            lemma_split_count(s.skip(1));
        } else {
            lemma_first_space(s);
            lemma_first_space(s.skip(1));
            let k = first_space(s);
            lemma_split_count(s.skip(k));
        }
    }
}

/// The words joined by single spaces.
pub open spec fn join_words(words: Seq<Seq<char>>) -> Seq<char>
    decreases words.len(),
{
    if words.len() == 0 {
        Seq::empty()
    } else if words.len() == 1 {
        words[0]
    } else {
        words[0] + seq![' '] + join_words(words.skip(1))
    }
}

/// `s` with runs of spaces collapsed and outer whitespace removed.
pub open spec fn normalize_spaces(s: Seq<char>) -> Seq<char> {
    join_words(split_spaces(s))
}

/// Whether the spacing of `s` is already in normal form: no leading or
/// trailing space and no run of two spaces.
pub open spec fn canonical_spacing(s: Seq<char>) -> bool {
    &&& (s.len() > 0 ==> s[0] != ' ' && s[s.len() - 1] != ' ')
    &&& forall|i: int| 0 < i < s.len() ==> (s[i - 1] != ' ' || #[trigger] s[i] != ' ')
}

/// Normalization fixes text whose spacing is already normal.
pub proof fn lemma_normalize_canonical(s: Seq<char>)
    requires
        canonical_spacing(s),
    ensures
        normalize_spaces(s) == s,
    decreases s.len(),
{
    if s.len() == 0 {
        assert(split_spaces(s) =~= Seq::<Seq<char>>::empty());
    } else {
        lemma_first_space(s);
        let k = first_space(s);
        assert(s[0] != ' ');
        if k == s.len() {
            assert(s.skip(k).len() == 0);
            assert(split_spaces(s) == seq![s.take(k)] + split_spaces(s.skip(k)));
            assert(split_spaces(s.skip(k)) =~= Seq::<Seq<char>>::empty());
            assert(seq![s.take(k)] + Seq::<Seq<char>>::empty() =~= seq![s.take(k)]);
            assert(join_words(seq![s.take(k)]) == s.take(k));
            assert(s.take(k) =~= s);
        } else {
            assert(s[k] == ' ');
            assert(k >= 1);
            assert(k < s.len() - 1) by {
                if k == s.len() - 1 {
                    assert(s[s.len() - 1] == ' ');
                }
            }
            assert(s[k + 1] != ' ');
            let rest = s.skip(k + 1);
            assert(rest.len() > 0);
            assert(rest[0] == s[k + 1]);
            assert(canonical_spacing(rest)) by {
                assert(rest[rest.len() - 1] == s[s.len() - 1]);
                assert forall|i: int| 0 < i < rest.len() implies (rest[i - 1] != ' '
                    || #[trigger] rest[i] != ' ') by {
                    assert(rest[i] == s[i + k + 1]);
                    assert(rest[i - 1] == s[i + k]);
                }
            }
            lemma_normalize_canonical(rest);
            assert(s.skip(k)[0] == ' ');
            assert(s.skip(k).skip(1) =~= rest);
            assert(split_spaces(s.skip(k)) == split_spaces(rest));
            let ws = split_spaces(rest);
            assert(ws.len() >= 1);
            let w = s.take(k);
            let all = seq![w] + ws;
            assert(split_spaces(s) == all);
            assert(all.len() >= 2);
            assert(all[0] == w);
            assert(all.skip(1) =~= ws);
            assert(join_words(all) == w + seq![' '] + join_words(ws));
            assert(join_words(ws) == rest);
            assert(w + seq![' '] + rest =~= s);
        }
    }
}

pub proof fn lemma_join_push(words: Seq<Seq<char>>, w: Seq<char>)
    ensures
        join_words(words.push(w)) == if words.len() == 0 {
            w
        } else {
            join_words(words) + seq![' '] + w
        },
    decreases words.len(),
{
    let p = words.push(w);
    if words.len() == 0 {
        assert(p.len() == 1);
        assert(join_words(p) == p[0]);
    } else {
        lemma_join_push(words.skip(1), w);
        assert(p.skip(1) =~= words.skip(1).push(w));
        assert(p[0] == words[0]);
        if words.len() == 1 {
            assert(words.skip(1).len() == 0);
            assert(join_words(p) == p[0] + seq![' '] + join_words(p.skip(1)));
            assert(join_words(words) == words[0]);
        } else {
            assert(join_words(p) == p[0] + seq![' '] + join_words(p.skip(1)));
            assert(join_words(words) + seq![' '] + w =~= words[0] + seq![' '] + (join_words(
                words.skip(1)) + seq![' '] + w));
        }
    }
}

/// First index of `w` among `ws`, searching from `i` on.
pub open spec fn lookup_from(ws: Seq<Seq<char>>, w: Seq<char>, i: int) -> Option<int>
    decreases ws.len() - i,
{
    if i < 0 || i >= ws.len() {
        None
    } else if ws[i] == w {
        Some(i)
    } else {
        lookup_from(ws, w, i + 1)
    }
}

/// First index of `w` among `ws`.
pub open spec fn lookup(ws: Seq<Seq<char>>, w: Seq<char>) -> Option<int> {
    lookup_from(ws, w, 0)
}

pub proof fn lemma_lookup_found(ws: Seq<Seq<char>>, w: Seq<char>, i: int)
    requires
        lookup_from(ws, w, i) is Some,
        0 <= i,
    ensures
        i <= lookup_from(ws, w, i)->Some_0 < ws.len(),
        ws[lookup_from(ws, w, i)->Some_0] == w,
    decreases ws.len() - i,
{
    if i < ws.len() && ws[i] != w {
        lemma_lookup_found(ws, w, i + 1);
    }
}

/// The ids of a word sequence, or `None` if some word is not in the
/// vocabulary.
pub open spec fn encode_words(ws: Seq<Seq<char>>, words: Seq<Seq<char>>) -> Option<Seq<u32>>
    decreases words.len(),
{
    if words.len() == 0 {
        Some(Seq::empty())
    } else {
        match encode_words(ws, words.drop_last()) {
            Some(pre) => match lookup(ws, words.last()) {
                Some(id) => Some(pre.push(id as u32)),
                None => None,
            },
            None => None,
        }
    }
}

/// The words of the kept tokens of `toks`: a token is kept unless
/// `skip_special` is set and the token is special. Meaningful only when
/// every token is in range.
pub open spec fn kept_words(
    ws: Seq<Seq<char>>,
    special: Seq<bool>,
    toks: Seq<u32>,
    skip_special: bool,
) -> Seq<Seq<char>>
    decreases toks.len(),
{
    if toks.len() == 0 {
        Seq::empty()
    } else {
        let pre = kept_words(ws, special, toks.drop_last(), skip_special);
        let t = toks.last() as int;
        if skip_special && special[t] {
            pre
        } else {
            pre.push(ws[t])
        }
    }
}

/// Tokenizer adapter over a fixed vocabulary. Entry `i` of `words` is
/// the text of token id `i`; `special[i]` marks control tokens, which
/// decoding can strip.
pub struct Tokenizer {
    words: Vec<String>,
    special: Vec<bool>,
}

impl Tokenizer {
    /// Both tables cover the same token ids.
    pub closed spec fn wf(self) -> bool {
        self.special@.len() == self.words@.len()
    }

    /// The vocabulary as word sequences.
    pub closed spec fn spec_words(self) -> Seq<Seq<char>> {
        self.words@.map_values(|w: String| w@)
    }

    pub closed spec fn spec_special(self) -> Seq<bool> {
        self.special@
    }

    pub open spec fn spec_vocab_size(self) -> nat {
        self.spec_words().len()
    }

    /// A well-formed tokenizer marks every token id as special or not.
    pub proof fn lemma_wf(self)
        requires
            self.wf(),
        ensures
            self.spec_special().len() == self.spec_vocab_size(),
    {
    }

    /// An empty vocabulary, to be filled with `push_word`.
    pub fn new() -> (r: Tokenizer)
        ensures
            r.wf(),
            r.spec_vocab_size() == 0,
    {
        Tokenizer { words: Vec::new(), special: Vec::new() }
    }

    /// Appends a word to the vocabulary; its token id is the previous
    /// vocabulary size.
    pub fn push_word(&mut self, word: String, special: bool)
        requires
            old(self).wf(),
        ensures
            final(self).wf(),
            final(self).spec_words() == old(self).spec_words().push(word@),
            final(self).spec_special() == old(self).spec_special().push(special),
            final(self).spec_vocab_size() == old(self).spec_vocab_size() + 1,
    {
        self.words.push(word);
        self.special.push(special);
        proof {
            assert(self.spec_words() =~= old(self).spec_words().push(word@));
        }
    }

    pub fn vocab_size(&self) -> (r: usize)
        ensures
            r == self.spec_vocab_size(),
    {
        self.words.len()
    }

    pub fn is_special(&self, id: u32) -> (r: bool)
        requires
            self.wf(),
            id < self.spec_vocab_size(),
        ensures
            r == self.spec_special()[id as int],
    {
        self.special[id as usize]
    }

    /// First token id whose word equals `w`, if any.
    fn lookup_word(&self, w: &str) -> (r: Option<u32>)
        requires
            self.spec_vocab_size() <= u32::MAX,
        ensures
            match lookup(self.spec_words(), w@) {
                Some(i) => r == Some(i as u32),
                None => r is None,
            },
    {
        let n = self.words.len();
        let mut i: usize = 0;
        while i < n
            invariant
                n == self.spec_vocab_size() <= u32::MAX,
                0 <= i <= n,
                lookup(self.spec_words(), w@) == lookup_from(self.spec_words(), w@, i as int),
            decreases n - i,
        {
            if str_eq(self.words[i].as_str(), w) {
                return Some(i as u32);
            }
            i = i + 1;
        }
        None
    }

    /// Encodes `text` into token ids: the text is split on spaces and
    /// each word is looked up in the vocabulary. Fails with the encoding
    /// error exactly when some word of the text is not in the
    /// vocabulary.
    pub fn encode(&self, text: &str) -> (r: Result<Vec<u32>, GenError>)
        requires
            self.spec_vocab_size() <= u32::MAX,
        ensures
            match r {
                Ok(toks) => Some(toks@) == encode_words(self.spec_words(), split_spaces(text@)),
                Err(e) => e is Encoding && encode_words(self.spec_words(), split_spaces(text@))
                    is None,
            },
    {
        let words = split_text(text);
        let mut toks: Vec<u32> = Vec::new();
        let ghost wseq = words@.map_values(|w: &str| w@);
        let mut i: usize = 0;
        while i < words.len()
            invariant
                self.spec_vocab_size() <= u32::MAX,
                0 <= i <= words.len(),
                wseq == words@.map_values(|w: &str| w@),
                wseq == split_spaces(text@),
                Some(toks@) == encode_words(self.spec_words(), wseq.take(i as int)),
            decreases words.len() - i,
        {
            let w = words[i];
            proof {
                assert(wseq.take(i + 1).drop_last() =~= wseq.take(i as int));
                assert(wseq.take(i + 1).last() == wseq[i as int]);
                assert(wseq[i as int] == w@);
            }
            match self.lookup_word(w) {
                Some(id) => {
                    toks.push(id);
                }
                None => {
                    proof {
                        lemma_encode_words_extend_none(self.spec_words(), wseq, i as int);
                    }
                    return Err(GenError::Encoding);
                }
            }
            i = i + 1;
        }
        proof {
            assert(wseq.take(words@.len() as int) =~= wseq);
        }
        Ok(toks)
    }

    /// Decodes token ids back to text: the words of the ids are joined
    /// by single spaces, omitting special tokens when `skip_special` is
    /// set. Fails with the decoding error exactly when some id is
    /// outside the vocabulary.
    pub fn decode(&self, toks: &Vec<u32>, skip_special: bool) -> (r: Result<String, GenError>)
        requires
            self.wf(),
        ensures
            match r {
                Ok(text) => (forall|j: int|
                    0 <= j < toks@.len() ==> #[trigger] toks@[j] < self.spec_vocab_size()) && text@
                    == join_words(
                    kept_words(self.spec_words(), self.spec_special(), toks@, skip_special),
                ),
                Err(e) => e is Decoding && exists|j: int|
                    0 <= j < toks@.len() && #[trigger] toks@[j] >= self.spec_vocab_size(),
            },
    {
        let mut out = String::new();
        let mut emitted = false;
        let mut i: usize = 0;
        let ghost ws = self.spec_words();
        let ghost sp = self.spec_special();
        while i < toks.len()
            invariant
                self.wf(),
                ws == self.spec_words(),
                sp == self.spec_special(),
                0 <= i <= toks@.len(),
                forall|j: int| 0 <= j < i ==> #[trigger] toks@[j] < self.spec_vocab_size(),
                emitted <==> kept_words(ws, sp, toks@.take(i as int), skip_special).len() > 0,
                out@ == join_words(kept_words(ws, sp, toks@.take(i as int), skip_special)),
            decreases toks@.len() - i,
        {
            let t = toks[i];
            if (t as usize) >= self.words.len() {
                return Err(GenError::Decoding);
            }
            proof {
                assert(toks@.take(i + 1).drop_last() =~= toks@.take(i as int));
                assert(toks@.take(i + 1).last() == toks@[i as int]);
            }
            let ghost kept_pre = kept_words(ws, sp, toks@.take(i as int), skip_special);
            if skip_special && self.special[t as usize] {
                // control token: stripped from the output
            } else {
                proof {
                    lemma_join_push(kept_pre, ws[t as int]);
                }
                if emitted {
                    out.append(" ");
                }
                out.append(self.words[t as usize].as_str());
                emitted = true;
                proof {
                    if kept_pre.len() == 0 {
                        assert(out@ =~= join_words(
                            kept_words(ws, sp, toks@.take(i + 1), skip_special),
                        ));
                    } else {
                        assert(" "@ =~= seq![' ']) by {
                            reveal_strlit(" ");
                        }
                        assert(out@ =~= join_words(kept_pre) + seq![' '] + ws[t as int]);
                    }
                }
            }
            i = i + 1;
        }
        proof {
            assert(toks@.take(toks@.len() as int) =~= toks@);
        }
        Ok(out)
    }
}

/// Once a word fails to encode, the whole sequence fails.
proof fn lemma_encode_words_extend_none(ws: Seq<Seq<char>>, words: Seq<Seq<char>>, i: int)
    requires
        0 <= i < words.len(),
        lookup(ws, words[i]) is None,
    ensures
        forall|j: int| i < j <= words.len() ==> encode_words(ws, #[trigger] words.take(j)) is None,
    decreases words.len(),
{
    assert forall|j: int| i < j <= words.len() implies encode_words(ws, #[trigger] words.take(j))
        is None by {
        lemma_encode_words_prefix_none(ws, words, i, j);
    }
}

proof fn lemma_encode_words_prefix_none(ws: Seq<Seq<char>>, words: Seq<Seq<char>>, i: int, j: int)
    requires
        0 <= i < j <= words.len(),
        lookup(ws, words[i]) is None,
    ensures
        encode_words(ws, words.take(j)) is None,
    decreases j,
{
    if j == i + 1 {
        assert(words.take(j).last() == words[i]);
    } else {
        lemma_encode_words_prefix_none(ws, words, i, j - 1);
        assert(words.take(j).drop_last() =~= words.take(j - 1));
    }
}

/// Character-for-character string equality.
pub fn str_eq(a: &str, b: &str) -> (r: bool)
    ensures
        r == (a@ == b@),
{
    let an = a.unicode_len();
    let bn = b.unicode_len();
    if an != bn {
        return false;
    }
    let mut i: usize = 0;
    while i < an
        invariant
            an == a@.len(),
            bn == b@.len(),
            an == bn,
            0 <= i <= an,
            forall|j: int| 0 <= j < i ==> a@[j] == b@[j],
        decreases an - i,
    {
        if a.get_char(i) != b.get_char(i) {
            return false;
        }
        i = i + 1;
    }
    proof {
        assert(a@ =~= b@);
    }
    true
}

/// The words of `text`, in order, as string slices.
fn split_text<'a>(text: &'a str) -> (r: Vec<&'a str>)
    ensures
        r@.map_values(|w: &str| w@) == split_spaces(text@),
{
    let n = text.unicode_len();
    let mut words: Vec<&'a str> = Vec::new();
    let mut i: usize = 0;
    proof {
        assert(text@.skip(0) =~= text@);
        assert(words@.map_values(|w: &str| w@) =~= Seq::<Seq<char>>::empty());
        assert(Seq::<Seq<char>>::empty() + split_spaces(text@) =~= split_spaces(text@));
    }
    while i < n
        invariant
            n == text@.len(),
            0 <= i <= n,
            split_spaces(text@) == words@.map_values(|w: &str| w@) + split_spaces(
                text@.skip(i as int),
            ),
        decreases n - i,
    {
        let c = text.get_char(i);
        if c == ' ' {
            proof {
                assert(text@.skip(i as int)[0] == ' ');
                assert(text@.skip(i as int).skip(1) =~= text@.skip(i + 1));
            }
            i = i + 1;
        } else {
            let start = i;
            let mut j = i + 1;
            while j < n
                invariant
                    n == text@.len(),
                    start < j <= n,
                    forall|k: int| start <= k < j ==> text@[k] != ' ',
                ensures
                    start < j <= n,
                    forall|k: int| start <= k < j ==> text@[k] != ' ',
                    j < n ==> text@[j as int] == ' ',
                decreases n - j,
            {
                if text.get_char(j) == ' ' {
                    break ;
                }
                j = j + 1;
            }
            let w = text.substring_char(start, j);
            let ghost old_map = words@.map_values(|x: &str| x@);
            proof {
                let rest = text@.skip(start as int);
                assert(forall|k: int| 0 <= k < j - start ==> rest[k] == text@[k + start]);
                if j < n {
                    assert(rest[j - start] == text@[j as int]);
                }
                lemma_first_space_unique(rest, j - start);
                assert(rest.take(j - start) =~= text@.subrange(start as int, j as int));
                assert(rest.skip(j - start) =~= text@.skip(j as int));
                assert(split_spaces(rest) == seq![w@] + split_spaces(text@.skip(j as int)));
                lemma_map_values_push(words@, w);
            }
            words.push(w);
            proof {
                assert(words@.map_values(|x: &str| x@) == old_map.push(w@));
                assert(old_map.push(w@) + split_spaces(text@.skip(j as int)) =~~= old_map + (seq![
                    w@,
                ] + split_spaces(text@.skip(j as int))));
            }
            i = j;
        }
    }
    proof {
        assert(text@.skip(n as int) =~= Seq::<char>::empty());
        assert(split_spaces(text@) =~= words@.map_values(|w: &str| w@));
    }
    words
}

proof fn lemma_map_values_push(words: Seq<&str>, w: &str)
    ensures
        words.push(w).map_values(|x: &str| x@) =~= words.map_values(|x: &str| x@).push(w@),
{
}

/// A successful encoding has one id per word, each in range and mapping
/// back to its word.
pub proof fn lemma_encode_words_ok(ws: Seq<Seq<char>>, words: Seq<Seq<char>>, toks: Seq<u32>)
    requires
        ws.len() <= u32::MAX,
        encode_words(ws, words) == Some(toks),
    ensures
        toks.len() == words.len(),
        forall|j: int|
            0 <= j < toks.len() ==> #[trigger] toks[j] < ws.len() && ws[toks[j] as int]
                == words[j],
    decreases words.len(),
{
    if words.len() > 0 {
        let pre = encode_words(ws, words.drop_last());
        let id = lookup(ws, words.last());
        lemma_encode_words_ok(ws, words.drop_last(), pre->Some_0);
        lemma_lookup_found(ws, words.last(), 0);
        assert(0 <= id->Some_0 < ws.len() <= u32::MAX);
        assert(toks == pre->Some_0.push(id->Some_0 as u32));
        assert(toks.drop_last() == pre->Some_0);
        assert(forall|j: int|
            0 <= j < toks.len() - 1 ==> toks[j] == #[trigger] toks.drop_last()[j]);
        assert(forall|j: int|
            0 <= j < words.len() - 1 ==> words[j] == #[trigger] words.drop_last()[j]);
        assert(toks[toks.len() - 1] == id->Some_0 as u32);
        assert(words.last() == words[words.len() - 1]);
    }
}

/// When no token is special, decoding keeps every word.
proof fn lemma_kept_words_none_special(
    ws: Seq<Seq<char>>,
    sp: Seq<bool>,
    toks: Seq<u32>,
    words: Seq<Seq<char>>,
)
    requires
        toks.len() == words.len(),
        forall|j: int|
            0 <= j < toks.len() ==> #[trigger] toks[j] < ws.len() && ws[toks[j] as int]
                == words[j],
        forall|j: int| 0 <= j < toks.len() ==> !(sp[#[trigger] toks[j] as int]),
    ensures
        kept_words(ws, sp, toks, true) == words,
    decreases toks.len(),
{
    if toks.len() == 0 {
        assert(kept_words(ws, sp, toks, true) =~= words);
    } else {
        lemma_kept_words_none_special(ws, sp, toks.drop_last(), words.drop_last());
        assert(toks.last() == toks[toks.len() - 1]);
        assert(kept_words(ws, sp, toks, true) == words.drop_last().push(ws[toks.last() as int]));
        assert(kept_words(ws, sp, toks, true) =~= words);
    }
}

/// Round trip: decoding an encoded text reproduces the text up to
/// whitespace normalization, provided no token of the encoding is
/// special (decoding would strip those). Stated over the same spec
/// functions that `Tokenizer::encode` and `Tokenizer::decode` are
/// proved to compute.
pub proof fn lemma_round_trip(tok: Tokenizer, text: Seq<char>, toks: Seq<u32>)
    requires
        tok.wf(),
        tok.spec_vocab_size() <= u32::MAX,
        encode_words(tok.spec_words(), split_spaces(text)) == Some(toks),
        forall|j: int| 0 <= j < toks.len() ==> !(tok.spec_special()[#[trigger] toks[j] as int]),
    ensures
        forall|j: int| 0 <= j < toks.len() ==> #[trigger] toks[j] < tok.spec_vocab_size(),
        join_words(kept_words(tok.spec_words(), tok.spec_special(), toks, true))
            == normalize_spaces(text),
        canonical_spacing(text) ==> join_words(
            kept_words(tok.spec_words(), tok.spec_special(), toks, true),
        ) == text,
{
    if canonical_spacing(text) {
        lemma_normalize_canonical(text);
    }
    lemma_encode_words_ok(tok.spec_words(), split_spaces(text), toks);
    lemma_kept_words_none_special(
        tok.spec_words(),
        tok.spec_special(),
        toks,
        split_spaces(text),
    );
}

} // verus!
