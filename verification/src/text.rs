use vstd::prelude::*;
use vstd::string::StrSliceExecFns;
use vstd::string::StringExecFns;
use vstd::string::StringSliceAdditionalSpecFns;
use vstd::utf8::{decode_utf8, encode_utf8};

verus! {

/// Strict lexicographic order on byte sequences: the order in which Rust
/// compares the UTF-8 encodings of two strings.
pub open spec fn bytes_lt(a: Seq<u8>, b: Seq<u8>) -> bool
    decreases a.len(),
{
    if b.len() == 0 {
        false
    } else if a.len() == 0 {
        true
    } else if a[0] != b[0] {
        a[0] < b[0]
    } else {
        bytes_lt(a.drop_first(), b.drop_first())
    }
}

/// How one string stands to another in `text_lt`.
#[derive(Debug, PartialEq, Eq)]
pub enum KeyOrder {
    Less,
    Equal,
    Greater,
}

/// The order of two strings: that of their UTF-8 encodings.
pub open spec fn text_lt(a: Seq<char>, b: Seq<char>) -> bool {
    bytes_lt(encode_utf8(a), encode_utf8(b))
}

/// No byte sequence comes before itself.
pub proof fn lemma_bytes_lt_irreflexive(a: Seq<u8>)
    ensures
        !bytes_lt(a, a),
    decreases a.len(),
{
    if a.len() > 0 {
        lemma_bytes_lt_irreflexive(a.drop_first());
    }
}

/// What comes before something that comes before a third comes before the third.
pub proof fn lemma_bytes_lt_transitive(a: Seq<u8>, b: Seq<u8>, c: Seq<u8>)
    requires
        bytes_lt(a, b),
        bytes_lt(b, c),
    ensures
        bytes_lt(a, c),
    decreases a.len(),
{
    if a.len() > 0 && a[0] == b[0] && b[0] == c[0] {
        lemma_bytes_lt_transitive(a.drop_first(), b.drop_first(), c.drop_first());
    }
}

/// Of two different byte sequences, one comes before the other.
pub proof fn lemma_bytes_lt_total(a: Seq<u8>, b: Seq<u8>)
    ensures
        bytes_lt(a, b) || bytes_lt(b, a) || a == b,
    decreases a.len(),
{
    if a.len() > 0 && b.len() > 0 && a[0] == b[0] {
        lemma_bytes_lt_total(a.drop_first(), b.drop_first());
        if a.drop_first() == b.drop_first() {
            assert(b == seq![b[0]] + b.drop_first());
        }
    } else if a.len() == 0 && b.len() == 0 {
        assert(a == b);
    }
}

/// `text_lt` is a strict total order on strings.
pub proof fn lemma_text_lt_order(a: Seq<char>, b: Seq<char>, c: Seq<char>)
    ensures
        !text_lt(a, a),
        text_lt(a, b) && text_lt(b, c) ==> text_lt(a, c),
        text_lt(a, b) || text_lt(b, a) || a == b,
        text_lt(a, b) ==> !text_lt(b, a),
{
    let x = encode_utf8(a);
    let y = encode_utf8(b);
    let z = encode_utf8(c);
    lemma_bytes_lt_irreflexive(x);
    if bytes_lt(x, y) && bytes_lt(y, z) {
        lemma_bytes_lt_transitive(x, y, z);
    }
    lemma_bytes_lt_total(x, y);
    if x == y {
        broadcast use vstd::utf8::encode_utf8_decode_utf8;
        assert(decode_utf8(encode_utf8(b)) == b);
    }
    if bytes_lt(x, y) && bytes_lt(y, x) {
        lemma_bytes_lt_transitive(x, y, x);
    }
}

/// How `a` stands to `b` in the order of strings.
pub fn key_order(a: &str, b: &str) -> (r: KeyOrder)
    ensures
        (r is Less) == text_lt(a@, b@),
        (r is Greater) == text_lt(b@, a@),
        (r is Equal) == (a@ == b@),
{
    let x = a.as_bytes();
    let y = b.as_bytes();
    proof {
        broadcast use vstd::utf8::encode_utf8_decode_utf8;
        assert(decode_utf8(encode_utf8(b@)) == b@);
        assert(x@.skip(0) == x@);
        assert(y@.skip(0) == y@);
    }
    let mut i: usize = 0;
    while i < x.len() && i < y.len()
        invariant
            i <= x@.len(),
            i <= y@.len(),
            x@ == a.spec_bytes(),
            y@ == b.spec_bytes(),
            (x@ == y@) == (x@.skip(i as int) == y@.skip(i as int)),
            bytes_lt(x@, y@) == bytes_lt(x@.skip(i as int), y@.skip(i as int)),
            bytes_lt(y@, x@) == bytes_lt(y@.skip(i as int), x@.skip(i as int)),
        decreases x@.len() - i,
    {
        let ghost xs = x@.skip(i as int);
        let ghost ys = y@.skip(i as int);
        assert(xs.drop_first() == x@.skip(i + 1));
        assert(ys.drop_first() == y@.skip(i + 1));
        if x[i] < y[i] {
            return KeyOrder::Less;
        }
        if x[i] > y[i] {
            return KeyOrder::Greater;
        }
        proof {
            if x@ == y@ {
                assert(x@.skip(i + 1) == y@.skip(i + 1));
            }
            if x@.skip(i + 1) == y@.skip(i + 1) {
                assert(xs == seq![xs[0]] + xs.drop_first());
                assert(ys == seq![ys[0]] + ys.drop_first());
            }
        }
        i = i + 1;
    }
    let ghost xs = x@.skip(i as int);
    let ghost ys = y@.skip(i as int);
    if i < y.len() {
        KeyOrder::Less
    } else if i < x.len() {
        KeyOrder::Greater
    } else {
        assert(xs == ys);
        KeyOrder::Equal
    }
}

/// Whether two strings hold the same text.
pub fn same_text(a: &str, b: &str) -> (same: bool)
    ensures
        same == (a@ == b@),
{
    match key_order(a, b) {
        KeyOrder::Equal => true,
        _ => false,
    }
}

/// Whether `c` is white space, as `char::is_whitespace` decides it.
pub uninterp spec fn is_space(c: char) -> bool;

/// `char::is_whitespace`: whether the character has the Unicode property
/// White_Space. The result is named, not described.
#[verifier::external_body]
fn char_is_space(c: char) -> (space: bool)
    ensures
        space == is_space(c),
{
    c.is_whitespace()
}

/// How many characters of white space `s` begins with.
pub open spec fn leading_space(s: Seq<char>) -> nat
    decreases s.len(),
{
    if s.len() > 0 && is_space(s[0]) {
        1 + leading_space(s.drop_first())
    } else {
        0
    }
}

/// How many characters of white space `s` ends with.
pub open spec fn trailing_space(s: Seq<char>) -> nat
    decreases s.len(),
{
    if s.len() > 0 && is_space(s.last()) {
        1 + trailing_space(s.drop_last())
    } else {
        0
    }
}

/// `s` without the white space that it begins and ends with.
pub open spec fn trimmed(s: Seq<char>) -> Seq<char> {
    if leading_space(s) == s.len() {
        Seq::empty()
    } else {
        s.subrange(leading_space(s) as int, s.len() - trailing_space(s))
    }
}

/// White space and nothing else.
pub open spec fn blank(s: Seq<char>) -> bool {
    forall|i: int| 0 <= i < s.len() ==> is_space(#[trigger] s[i])
}

/// Where the first `n` characters are white space and the next is not, `n` lead.
proof fn lemma_leading_space(s: Seq<char>, n: int)
    requires
        0 <= n <= s.len(),
        forall|i: int| 0 <= i < n ==> is_space(#[trigger] s[i]),
        n < s.len() ==> !is_space(s[n]),
    ensures
        leading_space(s) == n,
    decreases n,
{
    if n > 0 {
        let rest = s.drop_first();
        assert forall|i: int| 0 <= i < n - 1 implies is_space(#[trigger] rest[i]) by {
            assert(rest[i] == s[i + 1]);
        }
        if n < s.len() {
            assert(rest[n - 1] == s[n]);
        }
        lemma_leading_space(rest, n - 1);
    }
}

/// Where the characters from `n` on are white space and the one before is not,
/// all from `n` on trail.
proof fn lemma_trailing_space(s: Seq<char>, n: int)
    requires
        0 <= n <= s.len(),
        forall|i: int| n <= i < s.len() ==> is_space(#[trigger] s[i]),
        n > 0 ==> !is_space(s[n - 1]),
    ensures
        trailing_space(s) == s.len() - n,
    decreases s.len() - n,
{
    if n < s.len() {
        let rest = s.drop_last();
        assert forall|i: int| n <= i < rest.len() implies is_space(#[trigger] rest[i]) by {
            assert(rest[i] == s[i]);
        }
        if n > 0 {
            assert(rest[n - 1] == s[n - 1]);
        }
        lemma_trailing_space(rest, n);
    }
}

/// A text is trimmed to nothing just where it is blank.
pub proof fn lemma_trimmed_blank(s: Seq<char>)
    ensures
        (trimmed(s).len() == 0) == blank(s),
        blank(s) == (leading_space(s) == s.len()),
{
    lemma_leading_bound(s);
    lemma_trailing_bound(s);
    if leading_space(s) < s.len() {
        assert(!is_space(s[leading_space(s) as int]));
    }
}

/// The leading white space is white space, and what follows it is not.
proof fn lemma_leading_bound(s: Seq<char>)
    ensures
        leading_space(s) <= s.len(),
        leading_space(s) < s.len() ==> !is_space(s[leading_space(s) as int]),
        forall|i: int| 0 <= i < leading_space(s) ==> is_space(#[trigger] s[i]),
    decreases s.len(),
{
    if s.len() > 0 && is_space(s[0]) {
        let rest = s.drop_first();
        lemma_leading_bound(rest);
        assert forall|i: int| 0 <= i < leading_space(s) implies is_space(#[trigger] s[i]) by {
            if i > 0 {
                assert(rest[i - 1] == s[i]);
            }
        }
        if leading_space(s) < s.len() {
            assert(rest[leading_space(rest) as int] == s[leading_space(s) as int]);
        }
    }
}

/// What stands before the trailing white space is not white space, and
/// leading and trailing white space do not meet unless all is white space.
proof fn lemma_trailing_bound(s: Seq<char>)
    ensures
        trailing_space(s) <= s.len(),
        trailing_space(s) < s.len() ==> !is_space(s[s.len() - trailing_space(s) - 1]),
        leading_space(s) < s.len() ==> leading_space(s) + trailing_space(s) < s.len(),
    decreases s.len(),
{
    lemma_leading_bound(s);
    if s.len() > 0 && is_space(s.last()) {
        let rest = s.drop_last();
        lemma_trailing_bound(rest);
        lemma_leading_bound(rest);
        if trailing_space(s) < s.len() {
            assert(rest[rest.len() - trailing_space(rest) - 1] == s[s.len() - trailing_space(s) - 1]);
        }
        if leading_space(s) < s.len() {
            let n = leading_space(s) as int;
            assert forall|i: int| 0 <= i < n implies is_space(#[trigger] rest[i]) by {
                assert(rest[i] == s[i]);
            }
            lemma_leading_space(rest, n);
        }
    }
}

/// `s` without the white space that it begins and ends with.
pub fn trim(s: &str) -> (t: &str)
    ensures
        t@ == trimmed(s@),
{
    let length = s.unicode_len();
    let mut first: usize = 0;
    let mut end: usize = 0;
    let mut seen: usize = 0;
    let mut found = false;
    for c in it: s.chars()
        invariant
            it.seq() == s@,
            seen == it.index(),
            first <= end <= seen,
            !found ==> first == seen && end == seen,
            found ==> first < end && !is_space(s@[first as int]) && !is_space(s@[end - 1]),
            forall|i: int| 0 <= i < first ==> is_space(#[trigger] s@[i]),
            forall|i: int| end <= i < seen ==> is_space(#[trigger] s@[i]),
            seen <= s@.len(),
            s@.len() == length,
    {
        let space = char_is_space(c);
        seen = seen + 1;
        if !space {
            if !found {
                first = seen - 1;
                found = true;
            }
            end = seen;
        } else if !found {
            first = seen;
            end = seen;
        }
    }
    proof {
        lemma_leading_space(s@, first as int);
        if found {
            lemma_trailing_space(s@, end as int);
        }
    }
    if !found {
        let t = s.substring_char(0, 0);
        t
    } else {
        s.substring_char(first, end)
    }
}

/// Whether `s` is white space and nothing else.
pub fn is_blank(s: &str) -> (b: bool)
    ensures
        b == blank(s@),
{
    proof {
        lemma_trimmed_blank(s@);
    }
    trim(s).unicode_len() == 0
}

/// The ten digits.
pub open spec fn digits() -> Seq<char> {
    seq!['0', '1', '2', '3', '4', '5', '6', '7', '8', '9']
}

/// The number `n` written in decimal.
pub open spec fn decimal(n: nat) -> Seq<char>
    decreases n,
{
    if n < 10 {
        seq![digits()[n as int]]
    } else {
        decimal(n / 10).push(digits()[(n % 10) as int])
    }
}

/// The digit `d` as text.
fn digit_text(d: usize) -> (text: &'static str)
    requires
        d < 10,
    ensures
        text@ == seq![digits()[d as int]],
{
    proof {
        reveal_strlit("0");
        reveal_strlit("1");
        reveal_strlit("2");
        reveal_strlit("3");
        reveal_strlit("4");
        reveal_strlit("5");
        reveal_strlit("6");
        reveal_strlit("7");
        reveal_strlit("8");
        reveal_strlit("9");
    }
    let text = if d == 0 {
        "0"
    } else if d == 1 {
        "1"
    } else if d == 2 {
        "2"
    } else if d == 3 {
        "3"
    } else if d == 4 {
        "4"
    } else if d == 5 {
        "5"
    } else if d == 6 {
        "6"
    } else if d == 7 {
        "7"
    } else if d == 8 {
        "8"
    } else {
        "9"
    };
    text
}

/// Writes `n` in decimal at the end of `out`.
pub fn push_decimal(out: &mut String, n: usize)
    ensures
        final(out)@ == old(out)@ + decimal(n as nat),
    decreases n,
{
    if n >= 10 {
        push_decimal(out, n / 10);
    }
    out.append(digit_text(n % 10));
    proof {
        let d = seq![digits()[(n % 10) as int]];
        if n >= 10 {
            assert(old(out)@ + decimal((n / 10) as nat) + d =~= old(out)@ + decimal((n / 10) as nat).push(
                digits()[(n % 10) as int],
            ));
        }
    }
}

} // verus!
