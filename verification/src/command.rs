//! Command lines, as mathematics: how a typed line falls into tokens.

use vstd::prelude::*;

verus! {

/// The space, which parts tokens outside quotes.
pub const SPACE: u8 = 32;

/// The single quote, which opens and closes a quoted token.
pub const QUOTE: u8 = 39;

/// Where the scanner stands after some bytes of a command line.
pub struct Scan {
    /// The tokens that are finished, in order.
    pub tokens: Seq<Seq<u8>>,
    /// The bytes of the token that is being read.
    pub current: Seq<u8>,
    /// True inside a quoted token.
    pub quoted: bool,
}

/// The scanner before the first byte.
pub open spec fn scan_start() -> Scan {
    Scan { tokens: Seq::empty(), current: Seq::empty(), quoted: false }
}

/// The scanner with the token that is being read finished.
pub open spec fn flush(st: Scan) -> Scan {
    Scan { tokens: st.tokens.push(st.current), current: Seq::empty(), quoted: false }
}

/// The scanner one byte further.
///
/// A quote is never part of a token: it opens a quoted token, or closes one
/// and finishes it, be it empty. Outside quotes a space finishes the token
/// that is being read if it has any bytes. Every other byte, and a space
/// inside quotes, joins the token.
pub open spec fn scan_step(st: Scan, b: u8) -> Scan {
    if b == QUOTE {
        if st.quoted {
            flush(st)
        } else {
            Scan { quoted: true, ..st }
        }
    } else if b == SPACE && !st.quoted {
        if st.current.len() > 0 {
            flush(st)
        } else {
            st
        }
    } else {
        Scan { current: st.current.push(b), ..st }
    }
}

/// The scanner after all of `s`.
pub open spec fn scan(s: Seq<u8>) -> Scan
    decreases s.len(),
{
    if s.len() == 0 {
        scan_start()
    } else {
        scan_step(scan(s.drop_last()), s.last())
    }
}

/// The tokens of a command line, or `None` where the line ends inside a
/// quoted token. A token that the end of the line finishes counts if it has
/// any bytes.
pub open spec fn tokens_of(s: Seq<u8>) -> Option<Seq<Seq<u8>>> {
    let st = scan(s);
    if st.quoted {
        None
    } else if st.current.len() > 0 {
        Some(st.tokens.push(st.current))
    } else {
        Some(st.tokens)
    }
}

/// The number of quotes in `s`.
pub open spec fn quote_count(s: Seq<u8>) -> nat
    decreases s.len(),
{
    if s.len() == 0 {
        0
    } else {
        quote_count(s.drop_last()) + if s.last() == QUOTE {
            1nat
        } else {
            0nat
        }
    }
}

/// True when the quotes of `s` pair up.
pub open spec fn quotes_match(s: Seq<u8>) -> bool {
    quote_count(s) % 2 == 0
}

/// The scanner is inside a quoted token exactly after an odd number of
/// quotes.
pub proof fn lemma_quoted_is_odd(s: Seq<u8>)
    ensures
        scan(s).quoted == !quotes_match(s),
    decreases s.len(),
{
    if s.len() > 0 {
        lemma_quoted_is_odd(s.drop_last());
    }
}

/// A command line has tokens exactly when its quotes pair up.
pub proof fn lemma_tokens_iff_quotes_match(s: Seq<u8>)
    ensures
        tokens_of(s) is Some <==> quotes_match(s),
{
    lemma_quoted_is_odd(s);
}

/// True when no byte of `token` is a quote.
pub open spec fn quote_free(token: Seq<u8>) -> bool {
    forall|i: int| 0 <= i < token.len() ==> #[trigger] token[i] != QUOTE
}

/// True when `token` has at least one byte and none of them is a space or
/// a quote.
pub open spec fn is_word(token: Seq<u8>) -> bool {
    &&& token.len() > 0
    &&& forall|i: int| 0 <= i < token.len() ==> #[trigger] token[i] != QUOTE && token[i] != SPACE
}

/// No quote ever stands in a token, finished or not.
pub proof fn lemma_scan_quote_free(s: Seq<u8>)
    ensures
        quote_free(scan(s).current),
        forall|k: int| 0 <= k < scan(s).tokens.len() ==> quote_free(#[trigger] scan(s).tokens[k]),
    decreases s.len(),
{
    if s.len() > 0 {
        lemma_scan_quote_free(s.drop_last());
    }
}

/// The server never sees a quote: no token of a command line holds one.
pub proof fn lemma_tokens_quote_free(s: Seq<u8>)
    requires
        tokens_of(s) is Some,
    ensures
        forall|k: int|
            0 <= k < tokens_of(s)->0.len() ==> quote_free(#[trigger] tokens_of(s)->0[k]),
{
    lemma_scan_quote_free(s);
}

/// The scanner after the bytes of `s`, when it stood at `st` before them.
pub open spec fn scan_from(st: Scan, s: Seq<u8>) -> Scan
    decreases s.len(),
{
    if s.len() == 0 {
        st
    } else {
        scan_step(scan_from(st, s.drop_last()), s.last())
    }
}

/// Scanning one byte is one step.
pub proof fn lemma_scan_from_one(st: Scan, b: u8)
    ensures
        scan_from(st, seq![b]) == scan_step(st, b),
{
    let one = seq![b];
    assert(one.drop_last() =~= Seq::<u8>::empty());
    assert(scan_from(st, one.drop_last()) == st);
    assert(one.last() == b);
}

/// Scanning two pieces one after the other is scanning them joined.
pub proof fn lemma_scan_from_concat(st: Scan, a: Seq<u8>, b: Seq<u8>)
    ensures
        scan_from(st, a + b) == scan_from(scan_from(st, a), b),
    decreases b.len(),
{
    if b.len() == 0 {
        assert(a + b =~= a);
    } else {
        assert((a + b).drop_last() =~= a + b.drop_last());
        lemma_scan_from_concat(st, a, b.drop_last());
    }
}

/// Scanning a line is scanning it from the start.
pub proof fn lemma_scan_is_scan_from_start(s: Seq<u8>)
    ensures
        scan(s) == scan_from(scan_start(), s),
    decreases s.len(),
{
    if s.len() > 0 {
        lemma_scan_is_scan_from_start(s.drop_last());
    }
}

/// True when no byte of `s` is a space or a quote.
pub open spec fn plain(s: Seq<u8>) -> bool {
    forall|i: int| 0 <= i < s.len() ==> #[trigger] s[i] != QUOTE && s[i] != SPACE
}

/// Outside quotes, bytes that are neither spaces nor quotes join the token
/// that is being read.
pub proof fn lemma_scan_plain(st: Scan, w: Seq<u8>)
    requires
        !st.quoted,
        plain(w),
    ensures
        scan_from(st, w) == (Scan { current: st.current + w, ..st }),
    decreases w.len(),
{
    if w.len() == 0 {
        assert(st.current + w =~= st.current);
    } else {
        let init = w.drop_last();
        lemma_scan_plain(st, init);
        assert(w.last() == w[w.len() - 1]);
        assert((st.current + init).push(w.last()) =~= st.current + w);
    }
}

/// Inside quotes, every byte but a quote joins the token, spaces too.
pub proof fn lemma_scan_quoted(st: Scan, v: Seq<u8>)
    requires
        st.quoted,
        quote_free(v),
    ensures
        scan_from(st, v) == (Scan { current: st.current + v, ..st }),
    decreases v.len(),
{
    if v.len() == 0 {
        assert(st.current + v =~= st.current);
    } else {
        let init = v.drop_last();
        lemma_scan_quoted(st, init);
        assert(v.last() == v[v.len() - 1]);
        assert((st.current + init).push(v.last()) =~= st.current + v);
    }
}

/// Words with one space between each two of them.
pub open spec fn spaced(words: Seq<Seq<u8>>) -> Seq<u8>
    decreases words.len(),
{
    if words.len() == 0 {
        Seq::empty()
    } else if words.len() == 1 {
        words[0]
    } else {
        spaced(words.drop_last()) + seq![SPACE] + words.last()
    }
}

/// True when each of `words` is a word.
pub open spec fn all_words(words: Seq<Seq<u8>>) -> bool {
    forall|k: int| 0 <= k < words.len() ==> is_word(#[trigger] words[k])
}

/// A word is plain.
proof fn lemma_word_is_plain(w: Seq<u8>)
    requires
        is_word(w),
    ensures
        plain(w),
{
}

/// After words with spaces between them the scanner has finished all but
/// the last, which it is reading.
pub proof fn lemma_scan_spaced(words: Seq<Seq<u8>>)
    requires
        words.len() > 0,
        all_words(words),
    ensures
        scan(spaced(words)) == (Scan {
            tokens: words.drop_last(),
            current: words.last(),
            quoted: false,
        }),
    decreases words.len(),
{
    let start = scan_start();
    if words.len() == 1 {
        lemma_scan_is_scan_from_start(words[0]);
        lemma_word_is_plain(words[0]);
        lemma_scan_plain(start, words[0]);
        assert(start.current + words[0] =~= words[0]);
        assert(words.drop_last() =~= Seq::<Seq<u8>>::empty());
    } else {
        let init = words.drop_last();
        let last = words.last();
        assert(all_words(init)) by {
            assert forall|k: int| 0 <= k < init.len() implies is_word(#[trigger] init[k]) by {
                assert(init[k] == words[k]);
            }
        }
        lemma_scan_spaced(init);
        let line = spaced(words);
        lemma_scan_is_scan_from_start(line);
        lemma_scan_is_scan_from_start(spaced(init));
        lemma_scan_from_concat(start, spaced(init) + seq![SPACE], last);
        lemma_scan_from_concat(start, spaced(init), seq![SPACE]);
        let before = scan(spaced(init));
        lemma_scan_from_one(before, SPACE);
        assert(is_word(init.last()));
        let flushed = scan_step(before, SPACE);
        assert(flushed.tokens =~= init);
        assert(is_word(last));
        lemma_word_is_plain(last);
        lemma_scan_plain(flushed, last);
        assert(flushed.current + last =~= last);
    }
}

/// Words with single spaces between them are the tokens of their line.
pub proof fn lemma_tokens_of_spaced(words: Seq<Seq<u8>>)
    requires
        all_words(words),
    ensures
        tokens_of(spaced(words)) == Some(words),
{
    if words.len() == 0 {
    } else {
        lemma_scan_spaced(words);
        assert(is_word(words.last()));
        assert(words.drop_last().push(words.last()) =~= words);
    }
}

/// A space at the end of a line changes nothing: the tokens are the words.
pub proof fn lemma_tokens_of_spaced_then_space(words: Seq<Seq<u8>>)
    requires
        words.len() > 0,
        all_words(words),
    ensures
        scan(spaced(words) + seq![SPACE]) == (Scan {
            tokens: words,
            current: Seq::empty(),
            quoted: false,
        }),
        tokens_of(spaced(words) + seq![SPACE]) == Some(words),
{
    lemma_scan_spaced(words);
    let line = spaced(words) + seq![SPACE];
    assert(line.drop_last() =~= spaced(words));
    assert(is_word(words.last()));
    assert(words.drop_last().push(words.last()) =~= words);
}

/// Quoted text is one token: behind words, a space and a quote, all bytes
/// up to the closing quote make the last token, spaces and all, and the
/// quotes are not part of it.
pub proof fn lemma_tokens_of_quoted_last(words: Seq<Seq<u8>>, value: Seq<u8>)
    requires
        words.len() > 0,
        all_words(words),
        quote_free(value),
    ensures
        tokens_of(spaced(words) + seq![SPACE, QUOTE] + value + seq![QUOTE]) == Some(
            words.push(value),
        ),
{
    let start = scan_start();
    let head = spaced(words) + seq![SPACE];
    lemma_tokens_of_spaced_then_space(words);
    let opened = head.push(QUOTE);
    assert(opened.drop_last() =~= head);
    assert(opened =~= spaced(words) + seq![SPACE, QUOTE]);
    let st = scan(opened);
    assert(st == (Scan { tokens: words, current: Seq::empty(), quoted: true }));
    let filled = opened + value;
    lemma_scan_is_scan_from_start(opened);
    lemma_scan_is_scan_from_start(filled);
    lemma_scan_from_concat(start, opened, value);
    lemma_scan_quoted(st, value);
    assert(st.current + value =~= value);
    let line = filled.push(QUOTE);
    assert(line.drop_last() =~= filled);
    assert(line =~= spaced(words) + seq![SPACE, QUOTE] + value + seq![QUOTE]);
}

} // verus!
