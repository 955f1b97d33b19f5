//! Text building blocks shared by the utilities: decimal rendering, column
//! padding and the byte order of names.

use vstd::prelude::*;
use vstd::utf8::encode_utf8;
use vstd::utf8::encode_scalar;
use vstd::utf8::decode_utf8;
use vstd::utf8::encode_utf8_decode_utf8;
use vstd::string::StringExecFns;
use vstd::string::StrSliceExecFns;

verus! {

/// `String::push` of the standard library: the character is appended at the end.
pub assume_specification[ String::push ](s: &mut String, c: char)
    ensures
        final(s)@ == old(s)@.push(c),
;

/// The character that stands for the decimal digit `d`.
pub open spec fn digit_char(d: nat) -> char
    recommends
        d < 10,
{
    ((48 + d) as u8) as char
}

/// The decimal rendering of `n`, without sign or leading zeros.
pub open spec fn decimal(n: nat) -> Seq<char>
    decreases n,
{
    if n < 10 {
        seq![digit_char(n)]
    } else {
        decimal(n / 10).push(digit_char(n % 10))
    }
}

/// A run of `n` blanks.
pub open spec fn spaces(n: nat) -> Seq<char> {
    Seq::new(n, |i: int| ' ')
}

/// The number of blanks that bring a text of `len` characters up to `width`.
pub open spec fn padding(len: nat, width: nat) -> nat {
    if width > len {
        (width - len) as nat
    } else {
        0
    }
}

/// `text` moved to the right edge of a column of `width` characters.
/// A text wider than the column is left as it is.
pub open spec fn pad_left(text: Seq<char>, width: nat) -> Seq<char> {
    spaces(padding(text.len(), width)) + text
}

/// `text` at the left edge of a column of `width` characters, blanks behind it.
/// A text wider than the column is left as it is.
pub open spec fn pad_right(text: Seq<char>, width: nat) -> Seq<char> {
    text + spaces(padding(text.len(), width))
}

/// The number of bytes that `text` takes in UTF-8.
pub open spec fn byte_width(text: Seq<char>) -> nat {
    encode_utf8(text).len()
}

/// The strict lexicographic order of byte strings: the first byte that
/// differs decides, and a proper prefix comes first.
pub open spec fn bytes_precede(a: Seq<u8>, b: Seq<u8>) -> bool
    decreases a.len(),
{
    if b.len() == 0 {
        false
    } else if a.len() == 0 {
        true
    } else if a[0] != b[0] {
        a[0] < b[0]
    } else {
        bytes_precede(a.drop_first(), b.drop_first())
    }
}

/// The order of names: that of their UTF-8 bytes.
pub open spec fn name_precedes(a: Seq<char>, b: Seq<char>) -> bool {
    bytes_precede(encode_utf8(a), encode_utf8(b))
}

/// A text never has more characters than bytes.
pub proof fn lemma_chars_within_bytes(text: Seq<char>)
    ensures
        text.len() <= byte_width(text),
    decreases text.len(),
{
    if text.len() > 0 {
        lemma_chars_within_bytes(text.drop_first());
        assert(encode_scalar(text[0] as u32).len() >= 1);
    }
}

/// A padded text fills its column exactly when it fits.
pub proof fn lemma_padded_len(text: Seq<char>, width: nat)
    ensures
        text.len() <= width ==> pad_left(text, width).len() == width,
        text.len() <= width ==> pad_right(text, width).len() == width,
        text.len() > width ==> pad_left(text, width) =~= text,
        text.len() > width ==> pad_right(text, width) =~= text,
{
}

/// No byte string precedes itself.
pub proof fn lemma_bytes_irreflexive(a: Seq<u8>)
    ensures
        !bytes_precede(a, a),
    decreases a.len(),
{
    if a.len() > 0 {
        lemma_bytes_irreflexive(a.drop_first());
    }
}

/// Of two byte strings at most one precedes the other.
pub proof fn lemma_bytes_asymmetric(a: Seq<u8>, b: Seq<u8>)
    ensures
        !(bytes_precede(a, b) && bytes_precede(b, a)),
    decreases a.len(),
{
    if a.len() > 0 && b.len() > 0 && a[0] == b[0] {
        lemma_bytes_asymmetric(a.drop_first(), b.drop_first());
    }
}

/// The byte order is transitive.
pub proof fn lemma_bytes_transitive(a: Seq<u8>, b: Seq<u8>, c: Seq<u8>)
    requires
        bytes_precede(a, b),
        bytes_precede(b, c),
    ensures
        bytes_precede(a, c),
    decreases a.len(),
{
    if a.len() > 0 && b.len() > 0 && c.len() > 0 && a[0] == b[0] && b[0] == c[0] {
        lemma_bytes_transitive(a.drop_first(), b.drop_first(), c.drop_first());
    }
}

/// Two different byte strings are ordered one way or the other.
pub proof fn lemma_bytes_total(a: Seq<u8>, b: Seq<u8>)
    ensures
        a == b || bytes_precede(a, b) || bytes_precede(b, a),
    decreases a.len(),
{
    if a.len() > 0 && b.len() > 0 {
        if a[0] == b[0] {
            lemma_bytes_total(a.drop_first(), b.drop_first());
            if a.drop_first() == b.drop_first() {
                assert(a =~= seq![a[0]] + a.drop_first());
                assert(b =~= seq![b[0]] + b.drop_first());
            }
        }
    } else if a.len() == 0 && b.len() == 0 {
        assert(a =~= b);
    }
}

/// The order of names is a strict total order: nothing precedes itself, the
/// order is transitive, and two different names are ordered one way or the other.
pub proof fn lemma_name_order(a: Seq<char>, b: Seq<char>, c: Seq<char>)
    ensures
        !name_precedes(a, a),
        !(name_precedes(a, b) && name_precedes(b, a)),
        name_precedes(a, b) && name_precedes(b, c) ==> name_precedes(a, c),
        a == b || name_precedes(a, b) || name_precedes(b, a),
{
    let (x, y, z) = (encode_utf8(a), encode_utf8(b), encode_utf8(c));
    lemma_bytes_irreflexive(x);
    lemma_bytes_asymmetric(x, y);
    if bytes_precede(x, y) && bytes_precede(y, z) {
        lemma_bytes_transitive(x, y, z);
    }
    lemma_bytes_total(x, y);
    if x == y {
        encode_utf8_decode_utf8(a);
        encode_utf8_decode_utf8(b);
        assert(decode_utf8(x) == a);
        assert(decode_utf8(y) == b);
    }
}

/// Renders `n` in decimal.
pub fn decimal_string(n: u128) -> (text: String)
    ensures
        text@ == decimal(n as nat),
    decreases n,
{
    if n < 10 {
        let mut text = String::new();
        let d: u8 = 48 + (n as u8);
        text.push(d as char);
        assert(text@ =~= seq![digit_char(n as nat)]);
        text
    } else {
        let mut text = decimal_string(n / 10);
        let d: u8 = 48 + ((n % 10) as u8);
        text.push(d as char);
        text
    }
}

/// The number of characters of `text`.
pub fn char_count(text: &str) -> (n: usize)
    ensures
        n == text@.len(),
{
    text.unicode_len()
}

/// The number of bytes of `text` in UTF-8.
pub fn byte_count(text: &str) -> (n: usize)
    ensures
        n == byte_width(text@),
{
    text.as_bytes().len()
}

/// Appends `n` blanks to `out`.
pub fn push_spaces(out: &mut String, n: usize)
    ensures
        final(out)@ == old(out)@ + spaces(n as nat),
{
    let mut i: usize = 0;
    while i < n
        invariant
            i <= n,
            out@ == old(out)@ + spaces(i as nat),
        decreases n - i,
    {
        out.push(' ');
        i = i + 1;
        assert(out@ =~= old(out)@ + spaces(i as nat));
    }
    assert(out@ =~= old(out)@ + spaces(n as nat));
}

/// Right-aligns `text` in a column of `width` characters.
pub fn pad_start(text: &str, width: usize) -> (out: String)
    ensures
        out@ == pad_left(text@, width as nat),
{
    let len = char_count(text);
    let mut out = String::new();
    if width > len {
        push_spaces(&mut out, width - len);
    }
    out.append(text);
    assert(out@ =~= pad_left(text@, width as nat));
    out
}

/// Left-aligns `text` in a column of `width` characters.
pub fn pad_end(text: &str, width: usize) -> (out: String)
    ensures
        out@ == pad_right(text@, width as nat),
{
    let len = char_count(text);
    let mut out = String::from_str(text);
    if width > len {
        push_spaces(&mut out, width - len);
    }
    assert(out@ =~= pad_right(text@, width as nat));
    out
}

/// Whether `a` comes strictly before `b` in byte order.
pub fn bytes_before(a: &[u8], b: &[u8]) -> (r: bool)
    ensures
        r == bytes_precede(a@, b@),
{
    let mut i: usize = 0;
    assert(a@.skip(0) =~= a@ && b@.skip(0) =~= b@);
    while i < a.len() && i < b.len() && a[i] == b[i]
        invariant
            i <= a@.len(),
            i <= b@.len(),
            bytes_precede(a@, b@) == bytes_precede(a@.skip(i as int), b@.skip(i as int)),
        decreases a@.len() - i,
    {
        assert(a@.skip(i as int).drop_first() =~= a@.skip(i + 1));
        assert(b@.skip(i as int).drop_first() =~= b@.skip(i + 1));
        i = i + 1;
    }
    if i >= b.len() {
        false
    } else if i >= a.len() {
        true
    } else {
        a[i] < b[i]
    }
}

/// Whether the name `a` comes strictly before the name `b`.
pub fn name_before(a: &str, b: &str) -> (r: bool)
    ensures
        r == name_precedes(a@, b@),
{
    bytes_before(a.as_bytes(), b.as_bytes())
}

/// Whether two texts are the same.
pub fn same_text(a: &str, b: &str) -> (r: bool)
    ensures
        r == (a@ == b@),
{
    let left = a.to_owned();
    let right = b.to_owned();
    left == right
}

/// Whether `c` occurs in `text`.
pub fn has_char(text: &str, c: char) -> (r: bool)
    ensures
        r == text@.contains(c),
{
    let mut found = false;
    for ch in it: text.chars()
        invariant
            it.seq() == text@,
            found == text@.take(it.index() as int).contains(c),
    {
        proof {
            let now = text@.take(it.index() + 1);
            let seen = text@.take(it.index() as int);
            assert(now =~= seen.push(ch));
            if seen.contains(c) {
                let k = choose|k: int| 0 <= k < seen.len() && seen[k] == c;
                assert(now[k] == c);
            }
            if ch == c {
                assert(now[it.index() as int] == c);
            }
        }
        if ch == c {
            found = true;
        }
    }
    assert(text@.take(text@.len() as int) =~= text@);
    found
}

} // verus!
