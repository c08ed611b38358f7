//! Text: UTF-8, white space and words.

use vstd::prelude::*;
use vstd::utf8::{decode_utf8, encode_utf8, valid_utf8};

verus! {

/// The error of `std::str::from_utf8`.
#[verifier::external_type_specification]
#[verifier::external_body]
pub struct ExUtf8Error(std::str::Utf8Error);

/// Calls `std::str::from_utf8`. Trusted: it succeeds on valid UTF-8 and on
/// nothing else, and gives the text that the bytes encode.
#[verifier::external_body]
fn str_from_utf8(bytes: &[u8]) -> (r: Result<&str, std::str::Utf8Error>)
    ensures
        r is Ok <==> valid_utf8(bytes@),
        r is Ok ==> r->Ok_0@ == decode_utf8(bytes@),
{
    std::str::from_utf8(bytes)
}

/// The text that `bytes` encode, if they are valid UTF-8.
pub fn utf8_text(bytes: &[u8]) -> (r: Option<String>)
    ensures
        r is Some <==> valid_utf8(bytes@),
        r matches Some(text) ==> text@ == decode_utf8(bytes@) && encode_utf8(text@) == bytes@,
{
    match str_from_utf8(bytes) {
        Ok(text) => {
            proof {
                vstd::utf8::decode_utf8_encode_utf8(bytes@);
            }
            Some(text.to_owned())
        },
        Err(_) => None,
    }
}

/// Strings as mathematical values.
pub open spec fn texts(strings: Seq<String>) -> Seq<Seq<char>> {
    strings.map_values(|s: String| s@)
}

/// Appends a line of text.
pub fn push_line(out: &mut Vec<String>, line: &str)
    ensures
        texts(final(out)@) == texts(old(out)@).push(line@),
{
    let ghost before = out@;
    out.push(line.to_owned());
    assert(texts(out@) =~= texts(before).push(line@));
}

/// Whether a character has the Unicode property White_Space.
pub open spec fn white(c: char) -> bool {
    let u = c as u32;
    ||| 0x09 <= u <= 0x0d
    ||| u == 0x20
    ||| u == 0x85
    ||| u == 0xa0
    ||| u == 0x1680
    ||| 0x2000 <= u <= 0x200a
    ||| u == 0x2028
    ||| u == 0x2029
    ||| u == 0x202f
    ||| u == 0x205f
    ||| u == 0x3000
}

/// Whether a character is white space.
pub fn is_white(c: char) -> (r: bool)
    ensures
        r == white(c),
{
    let u: u32 = c as u32;
    (0x09 <= u && u <= 0x0d) || u == 0x20 || u == 0x85 || u == 0xa0 || u == 0x1680 || (0x2000 <= u
        && u <= 0x200a) || u == 0x2028 || u == 0x2029 || u == 0x202f || u == 0x205f || u == 0x3000
}

/// A text without the white space at its two ends.
pub open spec fn trimmed(s: Seq<char>) -> Seq<char>
    decreases s.len(),
{
    if s.len() == 0 {
        s
    } else if white(s.first()) {
        trimmed(s.drop_first())
    } else if white(s.last()) {
        trimmed(s.drop_last())
    } else {
        s
    }
}

/// How many characters stand before the first white space.
pub open spec fn word_len(s: Seq<char>) -> nat
    decreases s.len(),
{
    if s.len() == 0 || white(s.first()) {
        0
    } else {
        1 + word_len(s.drop_first())
    }
}

/// The first word of a text, and what follows the white space behind it,
/// trimmed.
pub open spec fn first_word_split(s: Seq<char>) -> (Seq<char>, Seq<char>) {
    let n = word_len(s) as int;
    if n < s.len() {
        (s.take(n), trimmed(s.skip(n + 1)))
    } else {
        (s, Seq::empty())
    }
}

/// The characters of a text.
pub(crate) fn char_vec(s: &str) -> (chars: Vec<char>)
    ensures
        chars@ == s@,
{
    let mut chars: Vec<char> = Vec::new();
    for c in it: s.chars()
        invariant
            it.seq() == s@,
            chars@ == s@.take(it.index() as int),
    {
        chars.push(c);
    }
    chars
}

/// Cuts the white space off both ends.
pub fn trim(s: &str) -> (r: &str)
    ensures
        r@ == trimmed(s@),
{
    let chars = char_vec(s);
    let mut from: usize = 0;
    let mut to: usize = chars.len();
    assert(s@.subrange(0, to as int) =~= s@);
    while from < to && is_white(chars[from])
        invariant
            chars@ == s@,
            from <= to == s@.len(),
            trimmed(s@.subrange(from as int, to as int)) == trimmed(s@),
        ensures
            from < to ==> !white(s@[from as int]),
        decreases to - from,
    {
        assert(s@.subrange(from as int, to as int).drop_first() =~= s@.subrange(
            from + 1,
            to as int,
        ));
        from = from + 1;
    }
    while from < to && is_white(chars[to - 1])
        invariant
            chars@ == s@,
            from <= to <= s@.len(),
            from < to ==> !white(s@[from as int]),
            trimmed(s@.subrange(from as int, to as int)) == trimmed(s@),
        ensures
            from < to ==> !white(s@[to - 1]),
        decreases to - from,
    {
        assert(s@.subrange(from as int, to as int).drop_last() =~= s@.subrange(
            from as int,
            to - 1,
        ));
        to = to - 1;
    }
    s.substring_char(from, to)
}

proof fn lemma_word_len(s: Seq<char>, n: int)
    requires
        0 <= n <= s.len(),
        forall|i: int| 0 <= i < n ==> !white(#[trigger] s[i]),
        n < s.len() ==> white(s[n]),
    ensures
        word_len(s) == n,
    decreases s.len(),
{
    if n > 0 {
        assert forall|i: int| 0 <= i < n - 1 implies !white(#[trigger] s.drop_first()[i]) by {
            assert(s.drop_first()[i] == s[i + 1]);
        }
        lemma_word_len(s.drop_first(), n - 1);
    }
}

/// Splits `"join rust"` into `("join", "rust")`.
pub fn split_first_word(s: &str) -> (r: (&str, &str))
    ensures
        (r.0@, r.1@) == first_word_split(s@),
{
    let chars = char_vec(s);
    let mut n: usize = 0;
    while n < chars.len() && !is_white(chars[n])
        invariant
            chars@ == s@,
            n <= s@.len(),
            forall|i: int| 0 <= i < n ==> !white(#[trigger] s@[i]),
        ensures
            n < s@.len() ==> white(s@[n as int]),
        decreases s@.len() - n,
    {
        n = n + 1;
    }
    proof {
        lemma_word_len(s@, n as int);
    }
    if n < chars.len() {
        (s.substring_char(0, n), trim(s.substring_char(n + 1, chars.len())))
    } else {
        (s, s.substring_char(0, 0))
    }
}

/// A first word holds no white space, and what is split off behind it
/// neither begins nor ends with any.
pub proof fn law_first_word_split(s: Seq<char>)
    ensures
        forall|i: int| 0 <= i < first_word_split(s).0.len() ==> !white(
            #[trigger] first_word_split(s).0[i],
        ),
        first_word_split(s).0.is_prefix_of(s),
        first_word_split(s).1.len() > 0 ==> !white(first_word_split(s).1.first()) && !white(
            first_word_split(s).1.last(),
        ),
{
    lemma_word_len_bounds(s);
    if word_len(s) < s.len() {
        law_trimmed(s.skip(word_len(s) as int + 1));
    }
}

proof fn lemma_word_len_bounds(s: Seq<char>)
    ensures
        word_len(s) <= s.len(),
        forall|i: int| 0 <= i < word_len(s) ==> !white(#[trigger] s[i]),
    decreases s.len(),
{
    if s.len() > 0 && !white(s.first()) {
        lemma_word_len_bounds(s.drop_first());
        assert forall|i: int| 0 <= i < word_len(s) implies !white(#[trigger] s[i]) by {
            if i > 0 {
                assert(s[i] == s.drop_first()[i - 1]);
            }
        }
    }
}

/// A trimmed text neither begins nor ends with white space, and trimming it
/// once more changes nothing.
pub proof fn law_trimmed(s: Seq<char>)
    ensures
        trimmed(s).len() > 0 ==> !white(trimmed(s).first()) && !white(trimmed(s).last()),
        trimmed(trimmed(s)) == trimmed(s),
    decreases s.len(),
{
    if s.len() == 0 {
    } else if white(s.first()) {
        law_trimmed(s.drop_first());
    } else if white(s.last()) {
        law_trimmed(s.drop_last());
    }
}

/// Whether one byte string stands before another in lexicographic order.
pub open spec fn bytes_before(a: Seq<u8>, b: Seq<u8>) -> bool
    decreases a.len(),
{
    if b.len() == 0 {
        false
    } else if a.len() == 0 {
        true
    } else if a.first() != b.first() {
        a.first() < b.first()
    } else {
        bytes_before(a.drop_first(), b.drop_first())
    }
}

/// Whether one text stands before another: texts are ordered by their bytes.
pub open spec fn before(a: Seq<char>, b: Seq<char>) -> bool {
    bytes_before(encode_utf8(a), encode_utf8(b))
}

pub proof fn lemma_bytes_before_irreflexive(a: Seq<u8>)
    ensures
        !bytes_before(a, a),
    decreases a.len(),
{
    if a.len() > 0 {
        lemma_bytes_before_irreflexive(a.drop_first());
    }
}

pub proof fn lemma_bytes_before_transitive(a: Seq<u8>, b: Seq<u8>, c: Seq<u8>)
    requires
        bytes_before(a, b),
        bytes_before(b, c),
    ensures
        bytes_before(a, c),
    decreases a.len(),
{
    if a.len() > 0 && a.first() == b.first() && b.first() == c.first() {
        lemma_bytes_before_transitive(a.drop_first(), b.drop_first(), c.drop_first());
    }
}

pub proof fn lemma_bytes_before_total(a: Seq<u8>, b: Seq<u8>)
    ensures
        a == b || bytes_before(a, b) || bytes_before(b, a),
    decreases a.len(),
{
    if a.len() == 0 || b.len() == 0 {
        assert(a.len() == b.len() ==> a =~= b);
    } else if a.first() == b.first() {
        lemma_bytes_before_total(a.drop_first(), b.drop_first());
        assert(a =~= seq![a.first()] + a.drop_first());
        assert(b =~= seq![b.first()] + b.drop_first());
    }
}

/// Texts are in a strict total order.
pub proof fn law_before_order(a: Seq<char>, b: Seq<char>, c: Seq<char>)
    ensures
        !before(a, a),
        before(a, b) && before(b, c) ==> before(a, c),
        a == b || before(a, b) || before(b, a),
{
    lemma_bytes_before_irreflexive(encode_utf8(a));
    if before(a, b) && before(b, c) {
        lemma_bytes_before_transitive(encode_utf8(a), encode_utf8(b), encode_utf8(c));
    }
    lemma_bytes_before_total(encode_utf8(a), encode_utf8(b));
    vstd::utf8::encode_utf8_decode_utf8(a);
    vstd::utf8::encode_utf8_decode_utf8(b);
}

/// Whether `a` stands before `b`.
pub fn is_before(a: &str, b: &str) -> (r: bool)
    ensures
        r == before(a@, b@),
{
    let x = a.as_bytes();
    let y = b.as_bytes();
    let mut i: usize = 0;
    assert(x@.skip(0) =~= x@ && y@.skip(0) =~= y@);
    while i < x.len() && i < y.len() && x[i] == y[i]
        invariant
            x@ == encode_utf8(a@),
            y@ == encode_utf8(b@),
            i <= x@.len(),
            i <= y@.len(),
            bytes_before(x@.skip(i as int), y@.skip(i as int)) == before(a@, b@),
        ensures
            i < x@.len() && i < y@.len() ==> x@[i as int] != y@[i as int],
        decreases x@.len() - i,
    {
        assert(x@.skip(i as int).drop_first() =~= x@.skip(i + 1));
        assert(y@.skip(i as int).drop_first() =~= y@.skip(i + 1));
        i = i + 1;
    }
    if i >= y.len() {
        false
    } else if i >= x.len() {
        true
    } else {
        x[i] < y[i]
    }
}

/// Whether two texts are the same.
pub fn same_text(a: &str, b: &str) -> (r: bool)
    ensures
        r == (a@ == b@),
{
    let x = a.as_bytes();
    let y = b.as_bytes();
    proof {
        vstd::utf8::encode_utf8_decode_utf8(a@);
        vstd::utf8::encode_utf8_decode_utf8(b@);
    }
    if x.len() != y.len() {
        return false;
    }
    let mut i: usize = 0;
    while i < x.len()
        invariant
            x@ == encode_utf8(a@),
            y@ == encode_utf8(b@),
            i <= x@.len() == y@.len(),
            forall|j: int| 0 <= j < i ==> x@[j] == y@[j],
        decreases x@.len() - i,
    {
        if x[i] != y[i] {
            return false;
        }
        i = i + 1;
    }
    assert(x@ =~= y@);
    true
}

/// Whether every character is white space.
pub open spec fn all_white(s: Seq<char>) -> bool {
    forall|i: int| 0 <= i < s.len() ==> white(#[trigger] s[i])
}

/// Whether no character is white space.
pub open spec fn no_white(s: Seq<char>) -> bool {
    forall|i: int| 0 <= i < s.len() ==> !white(#[trigger] s[i])
}

/// Whether a text neither begins nor ends with white space.
pub open spec fn tight(s: Seq<char>) -> bool {
    s.len() > 0 ==> !white(s.first()) && !white(s.last())
}

/// Trimming removes white space and nothing else: a text is what is left of
/// it, with white space in front and behind.
pub proof fn law_trimmed_cuts_white(s: Seq<char>) -> (cut: (Seq<char>, Seq<char>))
    ensures
        s == cut.0 + trimmed(s) + cut.1,
        all_white(cut.0),
        all_white(cut.1),
        tight(trimmed(s)),
    decreases s.len(),
{
    if s.len() == 0 {
        let none = Seq::<char>::empty();
        assert(s =~= none + trimmed(s) + none);
        (none, none)
    } else if white(s.first()) {
        let (front, back) = law_trimmed_cuts_white(s.drop_first());
        let cut = seq![s.first()] + front;
        assert forall|i: int| 0 <= i < cut.len() implies white(#[trigger] cut[i]) by {
            if i > 0 {
                assert(cut[i] == front[i - 1]);
            }
        }
        assert(s =~= seq![s.first()] + s.drop_first());
        assert(s =~= cut + trimmed(s) + back);
        (cut, back)
    } else if white(s.last()) {
        let (front, back) = law_trimmed_cuts_white(s.drop_last());
        let cut = back.push(s.last());
        assert(s =~= s.drop_last().push(s.last()));
        assert(s =~= front + trimmed(s) + cut);
        (front, cut)
    } else {
        let none = Seq::<char>::empty();
        assert(s =~= none + trimmed(s) + none);
        (none, none)
    }
}

/// Whatever white space stands around a text, trimming gives the text.
pub proof fn law_trimmed_of_padded(a: Seq<char>, text: Seq<char>, b: Seq<char>)
    requires
        all_white(a),
        all_white(b),
        tight(text),
    ensures
        trimmed(a + text + b) == text,
    decreases a.len() + b.len(),
{
    let s = a + text + b;
    if a.len() > 0 {
        assert(s.first() == a[0]);
        assert(s.drop_first() =~= a.drop_first() + text + b);
        assert forall|i: int| 0 <= i < a.drop_first().len() implies white(
            #[trigger] a.drop_first()[i],
        ) by {
            assert(a.drop_first()[i] == a[i + 1]);
        }
        law_trimmed_of_padded(a.drop_first(), text, b);
    } else if b.len() > 0 {
        if text.len() == 0 {
            assert(s =~= b);
            assert(white(b[0]));
            assert(s.drop_first() =~= a + text + b.drop_first());
            assert forall|i: int| 0 <= i < b.drop_first().len() implies white(
                #[trigger] b.drop_first()[i],
            ) by {
                assert(b.drop_first()[i] == b[i + 1]);
            }
            law_trimmed_of_padded(a, text, b.drop_first());
        } else {
            assert(s.first() == text.first());
            assert(s.last() == b[b.len() - 1]);
            assert(s.drop_last() =~= a + text + b.drop_last());
            law_trimmed_of_padded(a, text, b.drop_last());
        }
    } else {
        assert(s =~= text);
    }
}

/// A word with no white space in it is split off whole: from all that follows
/// the white space behind it, trimmed, or from nothing.
pub proof fn law_first_word_of_line(word: Seq<char>, space: char, rest: Seq<char>)
    requires
        no_white(word),
        white(space),
    ensures
        first_word_split(word + seq![space] + rest) == (word, trimmed(rest)),
        first_word_split(word) == (word, Seq::<char>::empty()),
{
    let s = word + seq![space] + rest;
    let n = word.len() as int;
    assert forall|i: int| 0 <= i < n implies !white(#[trigger] s[i]) by {
        assert(s[i] == word[i]);
    }
    lemma_word_len(s, n);
    lemma_word_len(word, n);
    assert(s.take(n) =~= word);
    assert(s.skip(n + 1) =~= rest);
}

/// Texts are ordered as their bytes are, by the first byte in which they
/// differ; a text stands before all that it is the beginning of.
pub proof fn law_before_first_difference(a: Seq<char>, b: Seq<char>, k: int)
    requires
        0 <= k <= encode_utf8(a).len(),
        k <= encode_utf8(b).len(),
        encode_utf8(a).take(k) == encode_utf8(b).take(k),
    ensures
        k == encode_utf8(a).len() < encode_utf8(b).len() ==> before(a, b) && !before(b, a),
        k < encode_utf8(a).len() && k < encode_utf8(b).len() && encode_utf8(a)[k] < encode_utf8(
            b,
        )[k] ==> before(a, b) && !before(b, a),
        k == encode_utf8(a).len() == encode_utf8(b).len() ==> !before(a, b) && !before(b, a),
{
    lemma_bytes_before_difference(encode_utf8(a), encode_utf8(b), k);
    lemma_bytes_before_difference(encode_utf8(b), encode_utf8(a), k);
}

proof fn lemma_bytes_before_difference(x: Seq<u8>, y: Seq<u8>, k: int)
    requires
        0 <= k <= x.len(),
        k <= y.len(),
        x.take(k) == y.take(k),
    ensures
        k == x.len() && k < y.len() ==> bytes_before(x, y),
        k == y.len() ==> !bytes_before(x, y),
        k < x.len() && k < y.len() && x[k] != y[k] ==> bytes_before(x, y) == (x[k] < y[k]),
    decreases k,
{
    if k > 0 {
        assert(x[0] == x.take(k)[0] && y[0] == y.take(k)[0]);
        assert(x.drop_first().take(k - 1) =~= x.take(k).drop_first());
        assert(y.drop_first().take(k - 1) =~= y.take(k).drop_first());
        lemma_bytes_before_difference(x.drop_first(), y.drop_first(), k - 1);
    }
}

/// Strings have the texts that they hold, one for one.
pub proof fn law_texts(strings: Seq<String>, i: int)
    requires
        0 <= i < strings.len(),
    ensures
        texts(strings).len() == strings.len(),
        texts(strings)[i] == strings[i]@,
{
}

/// What `trim` gives back is the text without white space at its ends, and
/// with everything else.
pub proof fn law_trim(s: &str, r: &str) -> (cut: (Seq<char>, Seq<char>))
    requires
        call_ensures(trim, (s,), r),
    ensures
        s@ == cut.0 + r@ + cut.1,
        all_white(cut.0),
        all_white(cut.1),
        tight(r@),
{
    law_trimmed_cuts_white(s@)
}

/// What `split_first_word` gives back is the text up to its first white space,
/// and what follows that, trimmed.
pub proof fn law_split_first_word(s: &str, r: (&str, &str)) -> (cut: (Seq<char>, Seq<char>))
    requires
        call_ensures(split_first_word, (s,), r),
    ensures
        no_white(r.0@),
        tight(r.1@),
        r.0@.len() == s@.len() ==> r.0@ == s@ && r.1@.len() == 0,
        r.0@.len() != s@.len() ==> {
            &&& r.0@.len() < s@.len()
            &&& white(s@[r.0@.len() as int])
            &&& s@ == r.0@ + seq![s@[r.0@.len() as int]] + (cut.0 + r.1@ + cut.1)
            &&& all_white(cut.0)
            &&& all_white(cut.1)
        },
{
    lemma_word_len_bounds(s@);
    lemma_word_end(s@);
    let n = word_len(s@) as int;
    if n < s@.len() {
        let cut = law_trimmed_cuts_white(s@.skip(n + 1));
        assert(s@ =~= s@.take(n) + seq![s@[n]] + s@.skip(n + 1));
        cut
    } else {
        (Seq::empty(), Seq::empty())
    }
}

proof fn lemma_word_end(s: Seq<char>)
    ensures
        word_len(s) < s.len() ==> white(s[word_len(s) as int]),
    decreases s.len(),
{
    if s.len() > 0 && !white(s.first()) {
        lemma_word_end(s.drop_first());
    }
}

} // verus!
