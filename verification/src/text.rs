//! Text helpers: the byte order of keys, comparison, and the few string
//! operations the rest of the library is built from.

use vstd::prelude::*;
use vstd::string::*;
use vstd::utf8::*;

verus! {

/// The bytes a text is stored as.
pub open spec fn bytes_of(s: Seq<char>) -> Seq<u8> {
    encode_utf8(s)
}

/// `a` and `b` agree on their first `k` bytes, and at position `k` either `a`
/// ends while `b` goes on, or `a` holds the smaller byte.
pub open spec fn splits_below(a: Seq<u8>, b: Seq<u8>, k: int) -> bool {
    &&& 0 <= k <= a.len()
    &&& k < b.len()
    &&& forall|j: int| 0 <= j < k ==> a[j] == b[j]
    &&& k < a.len() ==> a[k] < b[k]
}

/// Lexicographic order on byte strings: the order in which an index keeps
/// its keys.
pub open spec fn lex_lt(a: Seq<u8>, b: Seq<u8>) -> bool {
    exists|k: int| #[trigger] splits_below(a, b, k)
}

/// Order of two texts by their bytes.
pub open spec fn key_lt(a: Seq<char>, b: Seq<char>) -> bool {
    lex_lt(bytes_of(a), bytes_of(b))
}

/// The byte order is transitive.
pub proof fn lemma_lex_transitive(a: Seq<u8>, b: Seq<u8>, c: Seq<u8>)
    requires
        lex_lt(a, b),
        lex_lt(b, c),
    ensures
        lex_lt(a, c),
{
    let k1 = choose|k: int| #[trigger] splits_below(a, b, k);
    let k2 = choose|k: int| #[trigger] splits_below(b, c, k);
    let k = if k1 <= k2 { k1 } else { k2 };
    assert(splits_below(a, c, k));
}

/// Two texts with the same bytes are the same text.
pub proof fn lemma_bytes_determine_text(a: Seq<char>, b: Seq<char>)
    requires
        bytes_of(a) == bytes_of(b),
    ensures
        a == b,
{
    encode_utf8_decode_utf8(a);
    encode_utf8_decode_utf8(b);
}

/// The key order is transitive.
pub proof fn lemma_key_lt_transitive(a: Seq<char>, b: Seq<char>, c: Seq<char>)
    requires
        key_lt(a, b),
        key_lt(b, c),
    ensures
        key_lt(a, c),
{
    lemma_lex_transitive(bytes_of(a), bytes_of(b), bytes_of(c));
}

/// How one key stands to another in the byte order.
#[derive(Clone, Copy, Debug, PartialEq, Eq, Structural)]
pub enum KeyOrder {
    Before,
    Same,
    After,
}

/// Compares two texts by their bytes.
pub fn key_order(a: &str, b: &str) -> (r: KeyOrder)
    ensures
        r == KeyOrder::Before <==> key_lt(a@, b@),
        r == KeyOrder::Same <==> a@ == b@,
        r == KeyOrder::After <==> key_lt(b@, a@),
{
    let x = a.as_bytes();
    let y = b.as_bytes();
    let mut i: usize = 0;
    while i < x.len() && i < y.len() && x[i] == y[i]
        invariant
            x@ == bytes_of(a@),
            y@ == bytes_of(b@),
            0 <= i <= x@.len(),
            i <= y@.len(),
            forall|j: int| 0 <= j < i ==> x@[j] == y@[j],
        decreases x.len() - i,
    {
        i = i + 1;
    }
    if i < x.len() && i < y.len() {
        if x[i] < y[i] {
            assert(splits_below(x@, y@, i as int));
            KeyOrder::Before
        } else {
            assert(splits_below(y@, x@, i as int));
            KeyOrder::After
        }
    } else if i < y.len() {
        assert(splits_below(x@, y@, i as int));
        KeyOrder::Before
    } else if i < x.len() {
        assert(splits_below(y@, x@, i as int));
        KeyOrder::After
    } else {
        proof {
            assert(x@ =~= y@);
            lemma_bytes_determine_text(a@, b@);
        }
        KeyOrder::Same
    }
}

/// Whether two texts are the same.
pub fn same_text(a: &str, b: &str) -> (r: bool)
    ensures
        r == (a@ == b@),
{
    match key_order(a, b) {
        KeyOrder::Same => true,
        _ => false,
    }
}

/// `String::push` appends the character to the end of the string.
pub assume_specification[ String::push ](s: &mut String, c: char)
    ensures
        final(s)@ == old(s)@.push(c),
;

/// The characters of a text, one by one.
pub fn chars_of(s: &str) -> (r: Vec<char>)
    ensures
        r@ == s@,
{
    let mut out: Vec<char> = Vec::new();
    for c in it: s.chars()
        invariant
            it.seq() == s@,
            out@ == it.seq().take(it.index() as int),
    {
        out.push(c);
    }
    out
}

/// Whether `s` begins with `prefix`.
pub fn has_prefix(s: &str, prefix: &str) -> (r: bool)
    ensures
        r == prefix@.is_prefix_of(s@),
{
    let n = prefix.unicode_len();
    let m = s.unicode_len();
    if m < n {
        return false;
    }
    let mut i: usize = 0;
    while i < n
        invariant
            n == prefix@.len(),
            m == s@.len(),
            n <= m,
            i <= n,
            forall|j: int| 0 <= j < i ==> s@[j] == prefix@[j],
        decreases n - i,
    {
        if s.get_char(i) != prefix.get_char(i) {
            return false;
        }
        i = i + 1;
    }
    true
}

/// `s` with every occurrence of `from` replaced by `to`, the occurrences
/// taken from the left and not overlapping. An empty `from` occurs nowhere.
pub open spec fn replace_all(s: Seq<char>, from: Seq<char>, to: Seq<char>) -> Seq<char>
    decreases s.len(),
{
    if s.len() == 0 || from.len() == 0 {
        s
    } else if from.is_prefix_of(s) {
        to + replace_all(s.skip(from.len() as int), from, to)
    } else {
        seq![s[0]] + replace_all(s.skip(1), from, to)
    }
}

/// Whether `from` stands in `s` at position `at`.
fn occurs_at(s: &Vec<char>, from: &Vec<char>, at: usize) -> (r: bool)
    requires
        at <= s@.len(),
    ensures
        r == from@.is_prefix_of(s@.skip(at as int)),
{
    if s.len() - at < from.len() {
        return false;
    }
    let mut j: usize = 0;
    while j < from.len()
        invariant
            at + from.len() <= s.len(),
            j <= from.len(),
            forall|t: int| 0 <= t < j ==> s@[at + t] == from@[t],
        decreases from.len() - j,
    {
        if s[at + j] != from[j] {
            return false;
        }
        j = j + 1;
    }
    true
}

/// Replaces every occurrence of `from` in `s` by `to`.
pub fn replace_text(s: &str, from: &str, to: &str) -> (r: String)
    ensures
        r@ == replace_all(s@, from@, to@),
{
    let text = chars_of(s);
    let pattern = chars_of(from);
    let mut out = String::new();
    let mut i: usize = 0;
    if pattern.len() == 0 {
        out.append(s);
        return out;
    }
    assert(text@.skip(0) =~= text@);
    while i < text.len()
        invariant
            text@ == s@,
            pattern@ == from@,
            pattern@.len() > 0,
            i <= text@.len(),
            out@ + replace_all(text@.skip(i as int), from@, to@) == replace_all(s@, from@, to@),
        decreases text.len() - i,
    {
        let ghost rest = text@.skip(i as int);
        if occurs_at(&text, &pattern, i) {
            assert(rest.skip(pattern@.len() as int) =~= text@.skip(i + pattern@.len()));
            out.append(to);
            i = i + pattern.len();
        } else {
            assert(rest.skip(1) =~= text@.skip(i + 1));
            out.push(text[i]);
            i = i + 1;
        }
    }
    out
}

/// What `str::to_lowercase` gives for a text: its lowercase form by the
/// Unicode rules.
pub uninterp spec fn lowercase_of(s: Seq<char>) -> Seq<char>;

/// `str::to_lowercase`: the lowercase form of the text. The rules are
/// Unicode's and are not restated here; the result is named.
#[verifier::external_body]
pub(crate) fn lowercase(s: &str) -> (r: String)
    ensures
        r@ == lowercase_of(s@),
{
    s.to_lowercase()
}

} // verus!
