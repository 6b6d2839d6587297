//! Character-level string utilities shared by the renaming rules.

use vstd::prelude::*;

verus! {

/// The characters of `s`, in order.
pub(crate) fn chars_of(s: &str) -> (out: Vec<char>)
    ensures
        out@ == s@,
{
    let mut out: Vec<char> = Vec::new();
    for c in it: s.chars()
        invariant
            out@ == it.seq().take(it.index() as int),
            it.seq() == s@,
    {
        out.push(c);
    }
    out
}

/// Calls `String::push`. Claimed: afterwards the string holds its old characters followed
/// by `c`.
#[verifier::external_body]
pub(crate) fn push_char(s: &mut String, c: char)
    ensures
        final(s)@ == old(s)@.push(c),
{
    s.push(c);
}

/// The string made of the characters of `chars`, in order.
pub(crate) fn string_of(chars: &Vec<char>) -> (out: String)
    ensures
        out@ == chars@,
{
    let mut out = String::new();
    let mut i: usize = 0;
    while i < chars.len()
        invariant
            i <= chars.len(),
            out@ == chars@.take(i as int),
        decreases chars.len() - i,
    {
        push_char(&mut out, chars[i]);
        i = i + 1;
        assert(chars@.take(i as int) == chars@.take(i - 1).push(chars@[i - 1]));
    }
    assert(chars@.take(chars.len() as int) == chars@);
    out
}

/// Whether two character sequences are equal.
pub(crate) fn chars_equal(a: &Vec<char>, b: &Vec<char>) -> (eq: bool)
    ensures
        eq == (a@ == b@),
{
    if a.len() != b.len() {
        return false;
    }
    let mut i: usize = 0;
    while i < a.len()
        invariant
            a.len() == b.len(),
            i <= a.len(),
            forall|j: int| 0 <= j < i ==> a@[j] == b@[j],
        decreases a.len() - i,
    {
        if a[i] != b[i] {
            return false;
        }
        i = i + 1;
    }
    assert(a@ =~= b@);
    true
}

/// Whether two strings hold the same characters.
pub(crate) fn str_equal(a: &str, b: &str) -> (eq: bool)
    ensures
        eq == (a@ == b@),
{
    let ca = chars_of(a);
    let cb = chars_of(b);
    chars_equal(&ca, &cb)
}

/// Whether the character `c` occurs in `s`.
pub(crate) fn contains_char(s: &str, c: char) -> (found: bool)
    ensures
        found == s@.contains(c),
{
    let chars = chars_of(s);
    let mut i: usize = 0;
    while i < chars.len()
        invariant
            chars@ == s@,
            i <= chars.len(),
            forall|j: int| 0 <= j < i ==> chars@[j] != c,
        decreases chars.len() - i,
    {
        if chars[i] == c {
            assert(s@[i as int] == c);
            return true;
        }
        i = i + 1;
    }
    false
}

/// Lexicographic order on character sequences, by code point: the order of `str` in Rust.
pub open spec fn chars_less(a: Seq<char>, b: Seq<char>) -> bool
    decreases a.len(),
{
    if b.len() == 0 {
        false
    } else if a.len() == 0 {
        true
    } else if a[0] != b[0] {
        (a[0] as int) < (b[0] as int)
    } else {
        chars_less(a.drop_first(), b.drop_first())
    }
}

/// Whether `a` comes strictly before `b` in lexicographic order.
pub(crate) fn chars_before(a: &Vec<char>, b: &Vec<char>) -> (less: bool)
    ensures
        less == chars_less(a@, b@),
{
    let mut i: usize = 0;
    assert(a@.skip(0) == a@ && b@.skip(0) == b@);
    while i < a.len() && i < b.len()
        invariant
            i <= a.len(),
            i <= b.len(),
            chars_less(a@, b@) == chars_less(a@.skip(i as int), b@.skip(i as int)),
        decreases a.len() - i,
    {
        if a[i] != b[i] {
            return a[i] < b[i];
        }
        assert(a@.skip(i as int).drop_first() == a@.skip(i + 1));
        assert(b@.skip(i as int).drop_first() == b@.skip(i + 1));
        i = i + 1;
    }
    i < b.len()
}

/// What `char::to_lowercase` yields for `c`: its lowercase mapping, one or more characters.
pub uninterp spec fn lowercase_of(c: char) -> Seq<char>;

/// Whether `c` is an ASCII uppercase letter.
pub open spec fn is_ascii_upper(c: char) -> bool {
    'A' <= c && c <= 'Z'
}

/// The ASCII lowercase letter of an ASCII uppercase letter.
pub open spec fn ascii_lower(c: char) -> char {
    ((c as u32) + 32) as char
}

/// The lowercase mapping of `c`: an ASCII uppercase letter maps to its lowercase letter,
/// another ASCII character to itself, and any other character as `char::to_lowercase` does.
pub open spec fn char_lower(c: char) -> Seq<char> {
    if is_ascii_upper(c) {
        seq![ascii_lower(c)]
    } else if (c as u32) < 128 {
        seq![c]
    } else {
        lowercase_of(c)
    }
}

/// Calls `char::to_lowercase`. Claimed: the characters it yields are `lowercase_of(c)`, a
/// function of `c` alone; as the Unicode data that std follows gives, an ASCII uppercase
/// letter yields its lowercase letter and any other ASCII character yields itself. The
/// mapping of other characters is left unstated.
#[verifier::external_body]
pub(crate) fn char_lowercase(c: char) -> (out: Vec<char>)
    ensures
        out@ == lowercase_of(c),
        is_ascii_upper(c) ==> out@ == seq![ascii_lower(c)],
        !is_ascii_upper(c) && (c as u32) < 128 ==> out@ == seq![c],
{
    c.to_lowercase().collect()
}

/// The order is lexicographic: after a common prefix, a sequence that ends there comes
/// before a longer one, and otherwise the first differing characters decide, by code point.
pub proof fn lemma_chars_less_lexicographic(a: Seq<char>, b: Seq<char>, i: int)
    requires
        0 <= i <= a.len(),
        i <= b.len(),
        a.take(i) == b.take(i),
    ensures
        i == a.len() && i < b.len() ==> chars_less(a, b),
        i == b.len() ==> !chars_less(a, b),
        i < a.len() && i < b.len() && a[i] != b[i] ==> (chars_less(a, b) <==> (a[i] as int) < (
        b[i] as int)),
    decreases i,
{
    if i > 0 {
        assert(a[0] == a.take(i)[0] && b[0] == b.take(i)[0]);
        assert(a.drop_first().take(i - 1) =~= a.take(i).drop_first());
        assert(b.drop_first().take(i - 1) =~= b.take(i).drop_first());
        lemma_chars_less_lexicographic(a.drop_first(), b.drop_first(), i - 1);
    }
}

} // verus!
