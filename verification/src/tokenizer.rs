use vstd::prelude::*;
use vstd::string::StrSliceExecFns;
use vstd::string::StringExecFns;

verus! {

/// The characters that separate words: the Unicode `White_Space` set,
/// which is what `str::split_whitespace` splits on.
pub open spec fn is_ws(c: char) -> bool {
    let u = c as u32;
    ||| u == 0x20
    ||| (0x09 <= u && u <= 0x0D)
    ||| u == 0x85
    ||| u == 0xA0
    ||| u == 0x1680
    ||| (0x2000 <= u && u <= 0x200A)
    ||| u == 0x2028
    ||| u == 0x2029
    ||| u == 0x202F
    ||| u == 0x205F
    ||| u == 0x3000
}

pub open spec fn ws_free(w: Seq<char>) -> bool {
    forall|k: int| 0 <= k < w.len() ==> !is_ws(#[trigger] w[k])
}

/// Index right after the white-space-free run of `s` that starts at `i`.
pub open spec fn word_end(s: Seq<char>, i: int) -> int
    decreases s.len() - i,
{
    if i < 0 || i >= s.len() || is_ws(s[i]) {
        i
    } else {
        word_end(s, i + 1)
    }
}

pub proof fn lemma_word_end(s: Seq<char>, i: int)
    requires
        0 <= i <= s.len(),
    ensures
        i <= word_end(s, i) <= s.len(),
        forall|k: int| i <= k < word_end(s, i) ==> !is_ws(#[trigger] s[k]),
        word_end(s, i) < s.len() ==> is_ws(s[word_end(s, i)]),
        i < s.len() && !is_ws(s[i]) ==> word_end(s, i) > i,
    decreases s.len() - i,
{
    if i < s.len() && !is_ws(s[i]) {
        lemma_word_end(s, i + 1);
    }
}

pub proof fn lemma_word_end_unique(s: Seq<char>, i: int, j: int)
    requires
        0 <= i <= j <= s.len(),
        forall|k: int| i <= k < j ==> !is_ws(#[trigger] s[k]),
        j == s.len() || is_ws(s[j]),
    ensures
        word_end(s, i) == j,
    decreases j - i,
{
    if i < j {
        lemma_word_end_unique(s, i + 1, j);
    }
}

/// The white-space-separated words of `s`, from position `i` on.
pub open spec fn words_from(s: Seq<char>, i: int) -> Seq<Seq<char>>
    decreases s.len() - i,
{
    if i < 0 || i >= s.len() {
        Seq::empty()
    } else if is_ws(s[i]) {
        words_from(s, i + 1)
    } else {
        proof {
            lemma_word_end(s, i);
        }
        seq![s.subrange(i, word_end(s, i))] + words_from(s, word_end(s, i))
    }
}

/// The white-space-separated words of `s`, in order.
pub open spec fn words(s: Seq<char>) -> Seq<Seq<char>> {
    words_from(s, 0)
}

/// Every word is nonempty and free of white space.
pub proof fn lemma_words_wf(s: Seq<char>, i: int)
    requires
        0 <= i <= s.len(),
    ensures
        forall|k: int| 0 <= k < words_from(s, i).len() ==> (#[trigger] words_from(s, i)[k]).len()
            > 0 && ws_free(words_from(s, i)[k]),
    decreases s.len() - i,
{
    if i >= s.len() {
    } else if is_ws(s[i]) {
        lemma_words_wf(s, i + 1);
        assert forall|k: int| 0 <= k < words_from(s, i).len() implies (#[trigger] words_from(
            s,
            i,
        )[k]).len() > 0 && ws_free(words_from(s, i)[k]) by {
            assert(words_from(s, i)[k] == words_from(s, i + 1)[k]);
        }
    } else {
        lemma_word_end(s, i);
        lemma_words_wf(s, word_end(s, i));
        let w = s.subrange(i, word_end(s, i));
        assert(w.len() > 0 && ws_free(w));
        assert(words_from(s, i) == seq![w] + words_from(s, word_end(s, i)));
        assert forall|k: int| 0 <= k < words_from(s, i).len() implies (#[trigger] words_from(
            s,
            i,
        )[k]).len() > 0 && ws_free(words_from(s, i)[k]) by {
            if k == 0 {
                assert(words_from(s, i)[k] == w);
            } else {
                assert(words_from(s, i)[k] == words_from(s, word_end(s, i))[k - 1]);
            }
        }
    }
}

/// Index of the last occurrence of `w` in `vocab`, or -1 when absent.
pub open spec fn last_index_of(vocab: Seq<Seq<char>>, w: Seq<char>) -> int
    decreases vocab.len(),
{
    if vocab.len() == 0 {
        -1
    } else if vocab.last() == w {
        vocab.len() - 1
    } else {
        last_index_of(vocab.drop_last(), w)
    }
}

pub proof fn lemma_last_index_of(vocab: Seq<Seq<char>>, w: Seq<char>)
    ensures
        last_index_of(vocab, w) >= 0 <==> exists|j: int|
            0 <= j < vocab.len() && #[trigger] vocab[j] == w,
        last_index_of(vocab, w) >= 0 ==> last_index_of(vocab, w) < vocab.len() && vocab[
            last_index_of(vocab, w)
        ] == w,
    decreases vocab.len(),
{
    if vocab.len() > 0 && vocab.last() != w {
        lemma_last_index_of(vocab.drop_last(), w);
        assert(forall|j: int| 0 <= j < vocab.len() - 1 ==> #[trigger] vocab[j] == vocab.drop_last()[
            j
        ]);
    }
}

/// The id a word encodes to: the reserved end-of-sequence and pad markers
/// first, then the last vocabulary entry that matches, and the
/// end-of-sequence id for a word that is not in the vocabulary at all.
pub open spec fn encode_word(vocab: Seq<Seq<char>>, w: Seq<char>) -> int {
    if w == "<eos>"@ {
        vocab.len() as int
    } else if w == "<pad>"@ {
        vocab.len() + 1int
    } else if last_index_of(vocab, w) >= 0 {
        last_index_of(vocab, w)
    } else {
        vocab.len() as int
    }
}

pub open spec fn encode_spec(vocab: Seq<Seq<char>>, text: Seq<char>) -> Seq<int> {
    words(text).map_values(|w: Seq<char>| encode_word(vocab, w))
}

/// The text a single id decodes to.
pub open spec fn token_str(vocab: Seq<Seq<char>>, id: int) -> Seq<char> {
    if 0 <= id < vocab.len() {
        vocab[id]
    } else if id == vocab.len() {
        "<eos>"@
    } else if id == vocab.len() + 1 {
        "<pad>"@
    } else {
        "<unk>"@
    }
}

/// Words joined by single spaces.
pub open spec fn join(ws: Seq<Seq<char>>) -> Seq<char>
    decreases ws.len(),
{
    if ws.len() == 0 {
        Seq::empty()
    } else if ws.len() == 1 {
        ws[0]
    } else {
        ws[0] + seq![' '] + join(ws.skip(1))
    }
}

pub proof fn lemma_join_push(ws: Seq<Seq<char>>, w: Seq<char>)
    ensures
        ws.len() == 0 ==> join(ws.push(w)) == w,
        ws.len() > 0 ==> join(ws.push(w)) == join(ws) + seq![' '] + w,
    decreases ws.len(),
{
    if ws.len() == 0 {
        assert(join(ws.push(w)) == ws.push(w)[0]);
        assert(ws.push(w)[0] == w);
    } else if ws.len() == 1 {
        assert(ws.push(w).skip(1) =~= seq![w]);
        assert(join(seq![w]) == w);
        assert(ws.push(w)[0] == ws[0]);
        assert(join(ws.push(w)) == ws[0] + seq![' '] + w);
    } else {
        lemma_join_push(ws.skip(1), w);
        assert(ws.push(w).skip(1) =~= ws.skip(1).push(w));
        assert(join(ws) + seq![' '] + w =~= ws[0] + seq![' '] + (join(ws.skip(1)) + seq![' ']
            + w));
    }
}

pub open spec fn decode_spec(vocab: Seq<Seq<char>>, ids: Seq<int>) -> Seq<char> {
    join(ids.map_values(|id: int| token_str(vocab, id)))
}

/// Whether `w` is one of the vocabulary's words.
pub open spec fn in_vocab(vocab: Seq<Seq<char>>, w: Seq<char>) -> bool {
    exists|j: int| 0 <= j < vocab.len() && #[trigger] vocab[j] == w
}

/// Splitting inverts joining: the words of `join(ws)` are exactly `ws`,
/// as long as every element of `ws` is a nonempty word without white space.
pub proof fn lemma_words_of_join(ws: Seq<Seq<char>>)
    requires
        forall|k: int| 0 <= k < ws.len() ==> (#[trigger] ws[k]).len() > 0 && ws_free(ws[k]),
    ensures
        words(join(ws)) == ws,
{
    assert(join(ws).subrange(0, join(ws).len() as int) =~= join(ws));
    lemma_words_of_join_from(ws, join(ws), 0);
}

proof fn lemma_words_of_join_from(ws: Seq<Seq<char>>, s: Seq<char>, i: int)
    requires
        forall|k: int| 0 <= k < ws.len() ==> (#[trigger] ws[k]).len() > 0 && ws_free(ws[k]),
        0 <= i <= s.len(),
        s.subrange(i, s.len() as int) == join(ws),
    ensures
        words_from(s, i) == ws,
    decreases ws.len(),
{
    reveal_strlit(" ");
    if ws.len() == 0 {
        assert(s.len() - i == 0);
        assert(words_from(s, i) =~= ws);
    } else {
        let w0 = ws[0];
        let tail = s.subrange(i, s.len() as int);
        let j = i + w0.len();
        if ws.len() == 1 {
            assert(tail == w0);
            assert(j == s.len());
            assert(forall|k: int| i <= k < j ==> #[trigger] s[k] == w0[k - i]);
            assert(forall|k: int| i <= k < j ==> !is_ws(#[trigger] s[k]));
            lemma_word_end_unique(s, i, j);
            assert(s.subrange(i, j) =~= w0);
            assert(words_from(s, j) =~= Seq::<Seq<char>>::empty());
            assert(words_from(s, i) =~= ws);
        } else {
            assert(tail == w0 + seq![' '] + join(ws.skip(1)));
            assert(forall|k: int| i <= k < j ==> #[trigger] s[k] == (w0 + seq![' '] + join(
                ws.skip(1),
            ))[k - i]);
            assert(forall|k: int| i <= k < j ==> #[trigger] s[k] == w0[k - i]);
            assert(forall|k: int| i <= k < j ==> !is_ws(#[trigger] s[k]));
            assert(j < s.len());
            assert(s[j] == (w0 + seq![' '] + join(ws.skip(1)))[j - i]);
            assert(s[j] == ' ');
            assert(is_ws(' '));
            lemma_word_end_unique(s, i, j);
            assert(s.subrange(i, j) =~= w0);
            assert(s.subrange(j + 1, s.len() as int) =~= join(ws.skip(1))) by {
                assert(forall|k: int| j + 1 <= k < s.len() ==> #[trigger] s[k] == (w0 + seq![' ']
                    + join(ws.skip(1)))[k - i]);
            }
            lemma_words_of_join_from(ws.skip(1), s, j + 1);
            assert(words_from(s, j) == words_from(s, j + 1));
            assert(words_from(s, i) =~= seq![s.subrange(i, j)] + words_from(s, j));
            assert(words_from(s, i) =~= ws) by {
                assert(forall|k: int| 1 <= k < ws.len() ==> #[trigger] ws[k] == ws.skip(1)[k - 1]);
            }
        }
    }
}

/// A whitespace-split tokenizer over a fixed vocabulary, with two reserved
/// ids appended after the vocabulary: end-of-sequence and pad.
pub struct Tokenizer {
    pub vocab: Vec<String>,
    pub eos_id: usize,
    pub pad_id: usize,
}

impl Tokenizer {
    /// The vocabulary as a sequence of words.
    pub open spec fn vocab_view(&self) -> Seq<Seq<char>> {
        self.vocab@.map_values(|t: String| t@)
    }

    pub open spec fn wf(&self) -> bool {
        &&& self.eos_id == self.vocab@.len()
        &&& self.pad_id == self.eos_id + 1
    }

    /// Builds the tokenizer from the lines of a vocabulary listing, one
    /// word per line; the two reserved ids follow the listed words.
    pub fn new(lines: Vec<String>) -> (r: Tokenizer)
        requires
            lines@.len() + 1 < usize::MAX,
        ensures
            r.wf(),
            r.vocab_view() == lines@.map_values(|t: String| t@),
            r.eos_id == lines@.len(),
            r.pad_id == lines@.len() + 1,
    {
        let eos_id = lines.len();
        let pad_id = eos_id + 1;
        Tokenizer { vocab: lines, eos_id, pad_id }
    }

    /// Splits `text` on white space and maps each word to its id.
    pub fn encode(&self, text: &str) -> (r: Vec<usize>)
        requires
            self.wf(),
        ensures
            r@.map_values(|u: usize| u as int) == encode_spec(self.vocab_view(), text@),
    {
        let ghost vs = self.vocab_view();
        let ghost s = text@;
        let n = text.unicode_len();
        let mut r: Vec<usize> = Vec::new();
        let ghost mut done: Seq<Seq<char>> = Seq::empty();
        let mut i: usize = 0;
        while i < n
            invariant
                self.wf(),
                vs == self.vocab_view(),
                s == text@,
                n == s.len(),
                0 <= i <= n,
                words(s) == done + words_from(s, i as int),
                r@.len() == done.len(),
                forall|k: int| 0 <= k < done.len() ==> #[trigger] r@[k] as int == encode_word(
                    vs,
                    done[k],
                ),
            decreases n - i,
        {
            let c = text.get_char(i);
            if is_ws_char(c) {
                i = i + 1;
            } else {
                let mut j = i + 1;
                while j < n && !is_ws_char(text.get_char(j))
                    invariant
                        s == text@,
                        n == s.len(),
                        i < j <= n,
                        forall|k: int| i <= k < j ==> !is_ws(#[trigger] s[k]),
                    decreases n - j,
                {
                    j = j + 1;
                }
                proof {
                    lemma_word_end_unique(s, i as int, j as int);
                }
                let id = self.lookup(text, i, j);
                r.push(id);
                proof {
                    done = done.push(s.subrange(i as int, j as int));
                }
                i = j;
            }
        }
        proof {
            assert(words_from(s, n as int) =~= Seq::<Seq<char>>::empty());
            assert(words(s) =~= done);
            assert(r@.map_values(|u: usize| u as int) =~= encode_spec(vs, s));
        }
        r
    }

    /// The id of the word `text[ws..we]`.
    fn lookup(&self, text: &str, ws: usize, we: usize) -> (id: usize)
        requires
            self.wf(),
            ws <= we <= text@.len(),
        ensures
            id as int == encode_word(self.vocab_view(), text@.subrange(ws as int, we as int)),
    {
        let ghost vs = self.vocab_view();
        let ghost w = text@.subrange(ws as int, we as int);
        if range_matches(text, ws, we, "<eos>") {
            return self.eos_id;
        }
        if range_matches(text, ws, we, "<pad>") {
            return self.pad_id;
        }
        let mut m = self.vocab.len();
        proof {
            assert(vs.take(vs.len() as int) =~= vs);
        }
        while m > 0
            invariant
                self.wf(),
                vs == self.vocab_view(),
                w == text@.subrange(ws as int, we as int),
                ws <= we <= text@.len(),
                0 <= m <= self.vocab@.len(),
                last_index_of(vs, w) == last_index_of(vs.take(m as int), w),
                w != "<eos>"@,
                w != "<pad>"@,
            decreases m,
        {
            m = m - 1;
            let ghost prefix = vs.take(m + 1int);
            if range_matches(text, ws, we, self.vocab[m].as_str()) {
                proof {
                    assert(last_index_of(vs, w) == last_index_of(prefix, w));
                    assert(prefix.len() == m + 1);
                    assert(vs[m as int] == self.vocab@[m as int]@);
                    assert(prefix.last() == w);
                    assert(last_index_of(prefix, w) == m as int);
                    assert(encode_word(vs, w) == m as int);
                }
                return m;
            }
            proof {
                assert(prefix.last() == vs[m as int]);
                assert(prefix.last() != w);
                assert(prefix.drop_last() =~= vs.take(m as int));
            }
        }
        proof {
            assert(vs.take(0) =~= Seq::<Seq<char>>::empty());
            assert(last_index_of(vs, w) == -1);
        }
        self.eos_id
    }

    /// Maps each id back to its word and joins the words with single
    /// spaces; ids outside the vocabulary and the two reserved markers
    /// render as a literal unknown marker.
    pub fn decode(&self, ids: &[usize]) -> (r: String)
        requires
            self.wf(),
        ensures
            r@ == decode_spec(self.vocab_view(), ids@.map_values(|u: usize| u as int)),
    {
        let ghost vs = self.vocab_view();
        let ghost toks = ids@.map_values(|u: usize| u as int).map_values(
            |id: int| token_str(vs, id),
        );
        let mut out = String::new();
        let mut q: usize = 0;
        proof {
            reveal_strlit(" ");
        }
        while q < ids.len()
            invariant
                self.wf(),
                vs == self.vocab_view(),
                toks == ids@.map_values(|u: usize| u as int).map_values(
                    |id: int| token_str(vs, id),
                ),
                toks.len() == ids@.len(),
                0 <= q <= ids@.len(),
                out@ == join(toks.take(q as int)),
            decreases ids@.len() - q,
        {
            proof {
                lemma_join_push(toks.take(q as int), toks[q as int]);
                assert(toks.take(q + 1int) =~= toks.take(q as int).push(toks[q as int]));
            }
            if q > 0 {
                out.append(" ");
                proof {
                    reveal_strlit(" ");
                    assert(" "@ =~= seq![' ']);
                }
            }
            let id = ids[q];
            if id < self.vocab.len() {
                out.append(self.vocab[id].as_str());
            } else if id == self.eos_id {
                out.append("<eos>");
            } else if id == self.pad_id {
                out.append("<pad>");
            } else {
                out.append("<unk>");
            }
            q = q + 1;
        }
        proof {
            assert(toks.take(ids@.len() as int) =~= toks);
        }
        out
    }
}

/// Every id the encoding can produce: a vocabulary index or one of the
/// two reserved ids right after the vocabulary.
pub proof fn lemma_encode_spec_range(vocab: Seq<Seq<char>>, text: Seq<char>)
    ensures
        forall|k: int| 0 <= k < encode_spec(vocab, text).len() ==> 0 <= #[trigger] encode_spec(
            vocab,
            text,
        )[k] <= vocab.len() + 1,
{
    assert forall|k: int| 0 <= k < encode_spec(vocab, text).len() implies 0
        <= #[trigger] encode_spec(vocab, text)[k] <= vocab.len() + 1 by {
        let w = words(text)[k];
        lemma_last_index_of(vocab, w);
        assert(encode_spec(vocab, text)[k] == encode_word(vocab, w));
    }
}

/// Law: a text whose words all appear in a duplicate-free vocabulary of
/// proper words comes back from an encode-decode round trip with exactly
/// its words, in order; the decoded text is those words joined by single
/// spaces.
pub proof fn lemma_round_trip(vocab: Seq<Seq<char>>, text: Seq<char>)
    requires
        forall|k: int| 0 <= k < vocab.len() ==> (#[trigger] vocab[k]).len() > 0 && ws_free(
            vocab[k],
        ),
        forall|k: int| 0 <= k < words(text).len() ==> #[trigger] in_vocab(vocab, words(text)[k]),
    ensures
        decode_spec(vocab, encode_spec(vocab, text)) == join(words(text)),
        words(decode_spec(vocab, encode_spec(vocab, text))) == words(text),
{
    let ws = words(text);
    let ids = encode_spec(vocab, text);
    let toks = ids.map_values(|id: int| token_str(vocab, id));
    reveal_strlit("<eos>");
    reveal_strlit("<pad>");
    assert forall|k: int| 0 <= k < ws.len() implies #[trigger] toks[k] == ws[k] by {
        let w = ws[k];
        lemma_last_index_of(vocab, w);
        if w == "<eos>"@ {
            assert(token_str(vocab, encode_word(vocab, w)) == w);
        } else if w == "<pad>"@ {
            assert(token_str(vocab, encode_word(vocab, w)) == w);
        } else {
            assert(in_vocab(vocab, w));
            assert(last_index_of(vocab, w) >= 0);
            assert(token_str(vocab, encode_word(vocab, w)) == w);
        }
    }
    assert(toks =~= ws);
    lemma_words_wf(text, 0);
    lemma_words_of_join(ws);
}


/// Law: the reverse round trip. Decoding any ids drawn from a
/// duplicate-free vocabulary of proper words and encoding the text again
/// reproduces the ids exactly.
pub proof fn lemma_round_trip_ids(vocab: Seq<Seq<char>>, ids: Seq<int>)
    requires
        forall|k: int| 0 <= k < vocab.len() ==> (#[trigger] vocab[k]).len() > 0 && ws_free(
            vocab[k],
        ),
        forall|k1: int, k2: int| 0 <= k1 < k2 < vocab.len() ==> vocab[k1] != vocab[k2],
        forall|k: int| 0 <= k < ids.len() ==> 0 <= #[trigger] ids[k] < vocab.len(),
        forall|k: int| 0 <= k < vocab.len() ==> vocab[k] != "<eos>"@ && vocab[k] != "<pad>"@,
    ensures
        encode_spec(vocab, decode_spec(vocab, ids)) == ids,
{
    let toks = ids.map_values(|id: int| token_str(vocab, id));
    assert forall|k: int| 0 <= k < toks.len() implies (#[trigger] toks[k]).len() > 0 && ws_free(
        toks[k],
    ) by {
        assert(toks[k] == vocab[ids[k]]);
    }
    lemma_words_of_join(toks);
    assert(words(decode_spec(vocab, ids)) == toks);
    assert forall|k: int| 0 <= k < ids.len() implies #[trigger] encode_spec(
        vocab,
        decode_spec(vocab, ids),
    )[k] == ids[k] by {
        let w = toks[k];
        assert(w == vocab[ids[k]]);
        lemma_last_index_of(vocab, w);
        let li = last_index_of(vocab, w);
        assert(li >= 0);
        assert(vocab[li] == w);
        assert(li == ids[k]) by {
            if li != ids[k] {
                if li < ids[k] {
                    assert(vocab[li] != vocab[ids[k]]);
                } else {
                    assert(vocab[ids[k]] != vocab[li]);
                }
            }
        }
        assert(encode_word(vocab, w) == li);
    }
    assert(encode_spec(vocab, decode_spec(vocab, ids)) =~= ids);
}

/// Law: when the text is already in joined form - single spaces, no
/// leading or trailing white space - the round trip reproduces it exactly.
pub proof fn lemma_round_trip_exact(vocab: Seq<Seq<char>>, text: Seq<char>)
    requires
        forall|k: int| 0 <= k < vocab.len() ==> (#[trigger] vocab[k]).len() > 0 && ws_free(
            vocab[k],
        ),
        forall|k: int| 0 <= k < words(text).len() ==> #[trigger] in_vocab(vocab, words(text)[k]),
        text == join(words(text)),
    ensures
        decode_spec(vocab, encode_spec(vocab, text)) == text,
{
    lemma_round_trip(vocab, text);
}

/// White-space test matching `is_ws` exactly.
fn is_ws_char(c: char) -> (r: bool)
    ensures
        r == is_ws(c),
{
    let u = c as u32;
    u == 0x20 || (0x09 <= u && u <= 0x0D) || u == 0x85 || u == 0xA0 || u == 0x1680 || (0x2000 <= u
        && u <= 0x200A) || u == 0x2028 || u == 0x2029 || u == 0x202F || u == 0x205F || u == 0x3000
}

/// Whether the characters `text[ws..we]` spell exactly `tok`.
fn range_matches(text: &str, ws: usize, we: usize, tok: &str) -> (r: bool)
    requires
        ws <= we <= text@.len(),
    ensures
        r == (tok@ == text@.subrange(ws as int, we as int)),
{
    let ghost sub = text@.subrange(ws as int, we as int);
    let tlen = tok.unicode_len();
    if tlen != we - ws {
        proof {
            assert(tok@.len() != sub.len());
        }
        return false;
    }
    let mut k: usize = 0;
    while k < tlen
        invariant
            ws <= we <= text@.len(),
            sub == text@.subrange(ws as int, we as int),
            tlen == tok@.len(),
            tlen == we - ws,
            0 <= k <= tlen,
            forall|x: int| 0 <= x < k ==> #[trigger] tok@[x] == sub[x],
        decreases tlen - k,
    {
        if tok.get_char(k) != text.get_char(ws + k) {
            proof {
                assert(tok@[k as int] != sub[k as int]);
            }
            return false;
        }
        k = k + 1;
    }
    proof {
        assert(tok@ =~= sub);
    }
    true
}

} // verus!
