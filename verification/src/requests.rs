//! The requests of the named commands: which tokens the server gets.

use crate::command::{
    all_words, is_word, lemma_tokens_of_quoted_last, lemma_tokens_of_spaced,
    lemma_tokens_of_spaced_then_space, quote_free, spaced, tokens_of, QUOTE, SPACE,
};
use crate::connection::{
    append_line, copy_line, delete_line, echo_line, get_line, ping_line, set_line,
};
use vstd::prelude::*;
use vstd::utf8::{encode_utf8, is_ascii_chars, is_ascii_chars_encode_utf8};

verus! {

/// The bytes of a text are those of its beginning followed by those of its
/// end.
pub proof fn lemma_encode_utf8_concat(a: Seq<char>, b: Seq<char>)
    ensures
        encode_utf8(a + b) == encode_utf8(a) + encode_utf8(b),
    decreases a.len(),
{
    if a.len() == 0 {
        assert(a + b =~= b);
        assert(encode_utf8(a) + encode_utf8(b) =~= encode_utf8(b));
    } else {
        assert((a + b).drop_first() =~= a.drop_first() + b);
        assert((a + b)[0] == a[0]);
        lemma_encode_utf8_concat(a.drop_first(), b);
        let first = vstd::utf8::encode_scalar(a[0] as u32);
        assert(first + (encode_utf8(a.drop_first()) + encode_utf8(b)) =~= (first + encode_utf8(
            a.drop_first(),
        )) + encode_utf8(b));
    }
}

/// The bytes of a text of ASCII characters are its characters.
proof fn lemma_ascii_bytes(chars: Seq<char>, bytes: Seq<u8>)
    requires
        is_ascii_chars(chars),
        bytes.len() == chars.len(),
        forall|i: int| 0 <= i < chars.len() ==> bytes[i] == #[trigger] chars[i] as u8,
    ensures
        encode_utf8(chars) == bytes,
{
    is_ascii_chars_encode_utf8(chars);
    assert(encode_utf8(chars) =~= bytes);
}

/// The word `get`.
pub open spec fn word_get() -> Seq<u8> {
    seq![103u8, 101u8, 116u8]
}

/// The word `echo`.
pub open spec fn word_echo() -> Seq<u8> {
    seq![101u8, 99u8, 104u8, 111u8]
}

/// The word `PING`.
pub open spec fn word_ping() -> Seq<u8> {
    seq![80u8, 73u8, 78u8, 71u8]
}

/// The word `copy`.
pub open spec fn word_copy() -> Seq<u8> {
    seq![99u8, 111u8, 112u8, 121u8]
}

/// The word `set`.
pub open spec fn word_set() -> Seq<u8> {
    seq![115u8, 101u8, 116u8]
}

/// The word `append`.
pub open spec fn word_append() -> Seq<u8> {
    seq![97u8, 112u8, 112u8, 101u8, 110u8, 100u8]
}

/// The word `del`.
pub open spec fn word_del() -> Seq<u8> {
    seq![100u8, 101u8, 108u8]
}

/// The bytes of the pieces that the command lines are made of.
pub proof fn lemma_pieces()
    ensures
        encode_utf8("get "@) == word_get() + seq![SPACE],
        encode_utf8("echo "@) == word_echo() + seq![SPACE],
        encode_utf8("PING"@) == word_ping(),
        encode_utf8("copy "@) == word_copy() + seq![SPACE],
        encode_utf8("set "@) == word_set() + seq![SPACE],
        encode_utf8("append "@) == word_append() + seq![SPACE],
        encode_utf8("del "@) == word_del() + seq![SPACE],
        encode_utf8(" "@) == seq![SPACE],
        encode_utf8(" '"@) == seq![SPACE, QUOTE],
        encode_utf8("'"@) == seq![QUOTE],
{
    reveal_strlit("get ");
    reveal_strlit("echo ");
    reveal_strlit("PING");
    reveal_strlit("copy ");
    reveal_strlit("set ");
    reveal_strlit("append ");
    reveal_strlit("del ");
    reveal_strlit(" ");
    reveal_strlit(" '");
    reveal_strlit("'");
    lemma_ascii_bytes("get "@, word_get() + seq![SPACE]);
    lemma_ascii_bytes("echo "@, word_echo() + seq![SPACE]);
    lemma_ascii_bytes("PING"@, word_ping());
    lemma_ascii_bytes("copy "@, word_copy() + seq![SPACE]);
    lemma_ascii_bytes("set "@, word_set() + seq![SPACE]);
    lemma_ascii_bytes("append "@, word_append() + seq![SPACE]);
    lemma_ascii_bytes("del "@, word_del() + seq![SPACE]);
    lemma_ascii_bytes(" "@, seq![SPACE]);
    lemma_ascii_bytes(" '"@, seq![SPACE, QUOTE]);
    lemma_ascii_bytes("'"@, seq![QUOTE]);
}

/// `ping` sends the one token `PING`.
pub proof fn lemma_ping_tokens()
    ensures
        tokens_of(encode_utf8(ping_line())) == Some(seq![word_ping()]),
{
    lemma_pieces();
    let words = seq![word_ping()];
    assert(all_words(words));
    lemma_tokens_of_spaced(words);
}

/// `get` sends `get` and the key, where the key is a word.
pub proof fn lemma_get_tokens(key: Seq<char>)
    requires
        is_word(encode_utf8(key)),
    ensures
        tokens_of(encode_utf8(get_line(key))) == Some(seq![word_get(), encode_utf8(key)]),
{
    lemma_pieces();
    lemma_encode_utf8_concat("get "@, key);
    let words = seq![word_get(), encode_utf8(key)];
    assert(all_words(words));
    lemma_spaced_two(word_get(), encode_utf8(key));
    lemma_tokens_of_spaced(words);
}

/// `echo` sends `echo` and the text, where the text is a word.
pub proof fn lemma_echo_tokens(text: Seq<char>)
    requires
        is_word(encode_utf8(text)),
    ensures
        tokens_of(encode_utf8(echo_line(text))) == Some(seq![word_echo(), encode_utf8(text)]),
{
    lemma_pieces();
    lemma_encode_utf8_concat("echo "@, text);
    let words = seq![word_echo(), encode_utf8(text)];
    assert(all_words(words));
    lemma_spaced_two(word_echo(), encode_utf8(text));
    lemma_tokens_of_spaced(words);
}

/// `copy` sends `copy`, the source and the destination, where both are
/// words.
pub proof fn lemma_copy_tokens(source: Seq<char>, destination: Seq<char>)
    requires
        is_word(encode_utf8(source)),
        is_word(encode_utf8(destination)),
    ensures
        tokens_of(encode_utf8(copy_line(source, destination))) == Some(
            seq![word_copy(), encode_utf8(source), encode_utf8(destination)],
        ),
{
    lemma_pieces();
    lemma_encode_utf8_concat("copy "@ + source + " "@, destination);
    lemma_encode_utf8_concat("copy "@ + source, " "@);
    lemma_encode_utf8_concat("copy "@, source);
    let a = encode_utf8(source);
    let b = encode_utf8(destination);
    let words = seq![word_copy(), a, b];
    assert(all_words(words));
    lemma_spaced_two(word_copy(), a);
    assert(words.drop_last() =~= seq![word_copy(), a]);
    assert(spaced(words) == spaced(words.drop_last()) + seq![SPACE] + b);
    lemma_tokens_of_spaced(words);
}

/// `set` sends `set`, the key and the value, the value as one token
/// whatever spaces it holds, where the key is a word and the value holds no
/// quote.
pub proof fn lemma_set_tokens(key: Seq<char>, value: Seq<char>)
    requires
        is_word(encode_utf8(key)),
        quote_free(encode_utf8(value)),
    ensures
        tokens_of(encode_utf8(set_line(key, value))) == Some(
            seq![word_set(), encode_utf8(key), encode_utf8(value)],
        ),
{
    lemma_pieces();
    lemma_encode_utf8_concat("set "@ + key + " '"@ + value, "'"@);
    lemma_encode_utf8_concat("set "@ + key + " '"@, value);
    lemma_encode_utf8_concat("set "@ + key, " '"@);
    lemma_encode_utf8_concat("set "@, key);
    let words = seq![word_set(), encode_utf8(key)];
    assert(all_words(words));
    lemma_spaced_two(word_set(), encode_utf8(key));
    lemma_tokens_of_quoted_last(words, encode_utf8(value));
    assert(words.push(encode_utf8(value)) =~= seq![
        word_set(),
        encode_utf8(key),
        encode_utf8(value),
    ]);
}

/// `append` sends `append`, the key and the value, the value as one token
/// whatever spaces it holds, where the key is a word and the value holds no
/// quote.
pub proof fn lemma_append_tokens(key: Seq<char>, value: Seq<char>)
    requires
        is_word(encode_utf8(key)),
        quote_free(encode_utf8(value)),
    ensures
        tokens_of(encode_utf8(append_line(key, value))) == Some(
            seq![word_append(), encode_utf8(key), encode_utf8(value)],
        ),
{
    lemma_pieces();
    lemma_encode_utf8_concat("append "@ + key + " '"@ + value, "'"@);
    lemma_encode_utf8_concat("append "@ + key + " '"@, value);
    lemma_encode_utf8_concat("append "@ + key, " '"@);
    lemma_encode_utf8_concat("append "@, key);
    let words = seq![word_append(), encode_utf8(key)];
    assert(all_words(words));
    lemma_spaced_two(word_append(), encode_utf8(key));
    lemma_tokens_of_quoted_last(words, encode_utf8(value));
    assert(words.push(encode_utf8(value)) =~= seq![
        word_append(),
        encode_utf8(key),
        encode_utf8(value),
    ]);
}

/// Two words with a space between them.
proof fn lemma_spaced_two(a: Seq<u8>, b: Seq<u8>)
    ensures
        spaced(seq![a, b]) == a + seq![SPACE] + b,
{
    let words = seq![a, b];
    assert(words.drop_last() =~= seq![a]);
    assert(spaced(words.drop_last()) == a);
}

/// The bytes of each of `keys`.
pub open spec fn key_bytes(keys: Seq<&str>) -> Seq<Seq<u8>> {
    Seq::new(keys.len(), |i: int| encode_utf8(keys[i]@))
}

/// The line of `delete` is `del` and the keys with single spaces between
/// them, and one more space at the end.
proof fn lemma_delete_line(keys: Seq<&str>)
    requires
        all_words(key_bytes(keys)),
    ensures
        encode_utf8(delete_line(keys)) == spaced(seq![word_del()] + key_bytes(keys)) + seq![
            SPACE,
        ],
    decreases keys.len(),
{
    lemma_pieces();
    if keys.len() == 0 {
        assert(delete_line(keys) =~= "del "@);
        assert(seq![word_del()] + key_bytes(keys) =~= seq![word_del()]);
    } else {
        let init = keys.drop_last();
        let last = keys.last()@;
        assert(all_words(key_bytes(init))) by {
            assert forall|k: int| 0 <= k < init.len() implies is_word(
                #[trigger] key_bytes(init)[k],
            ) by {
                assert(key_bytes(init)[k] == key_bytes(keys)[k]);
            }
        }
        lemma_delete_line(init);
        assert(delete_line(keys) =~= delete_line(init) + last + " "@);
        lemma_encode_utf8_concat(delete_line(init) + last, " "@);
        lemma_encode_utf8_concat(delete_line(init), last);
        let before = seq![word_del()] + key_bytes(init);
        let words = seq![word_del()] + key_bytes(keys);
        assert(words.drop_last() =~= before);
        assert(words.last() == encode_utf8(last));
        assert(spaced(words) == spaced(before) + seq![SPACE] + encode_utf8(last));
    }
}

/// `delete` sends `del` and the keys, one token each, where every key is a
/// word.
pub proof fn lemma_delete_tokens(keys: Seq<&str>)
    requires
        all_words(key_bytes(keys)),
    ensures
        tokens_of(encode_utf8(delete_line(keys))) == Some(seq![word_del()] + key_bytes(keys)),
{
    lemma_delete_line(keys);
    let words = seq![word_del()] + key_bytes(keys);
    assert(all_words(words)) by {
        assert forall|k: int| 0 <= k < words.len() implies is_word(#[trigger] words[k]) by {
            if k > 0 {
                assert(words[k] == key_bytes(keys)[k - 1]);
            }
        }
    }
    lemma_tokens_of_spaced_then_space(words);
}

} // verus!
