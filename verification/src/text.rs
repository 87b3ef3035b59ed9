//! Character-level helpers shared by the parsers and the response writer:
//! scanning for a class of characters, comparing and cutting strings, and
//! writing a number in decimal.

use vstd::prelude::*;
use vstd::std_specs::iter::IteratorSpec;
use vstd::utf8::encode_utf8;
use vstd::utf8::encode_utf8_decode_utf8;

verus! {

/// Whether `c` separates the tokens of a request line: the characters with
/// the Unicode property White_Space.
pub open spec fn is_space(c: char) -> bool {
    let u = c as u32;
    ||| 0x09 <= u <= 0x0D
    ||| u == 0x20
    ||| u == 0x85
    ||| u == 0xA0
    ||| u == 0x1680
    ||| 0x2000 <= u <= 0x200A
    ||| u == 0x2028
    ||| u == 0x2029
    ||| u == 0x202F
    ||| u == 0x205F
    ||| u == 0x3000
}

/// A set of characters that a scan stops at.
#[derive(Debug, Clone, Copy)]
pub enum CharClass {
    /// One given character.
    Is(char),
    /// Any white space.
    Space,
    /// Anything but white space.
    Word,
}

impl CharClass {
    /// Whether `c` is in the class.
    pub open spec fn has(self, c: char) -> bool {
        match self {
            CharClass::Is(d) => c == d,
            CharClass::Space => is_space(c),
            CharClass::Word => !is_space(c),
        }
    }

    /// Tests whether `c` is in the class.
    pub fn test(&self, c: char) -> (r: bool)
        ensures
            r == self.has(c),
    {
        match self {
            CharClass::Is(d) => c == *d,
            CharClass::Space => is_whitespace(c),
            CharClass::Word => !is_whitespace(c),
        }
    }
}

/// Tests whether `c` is white space.
pub fn is_whitespace(c: char) -> (r: bool)
    ensures
        r == is_space(c),
{
    let u: u32 = c as u32;
    (0x09 <= u && u <= 0x0D) || u == 0x20 || u == 0x85 || u == 0xA0 || u == 0x1680 || (0x2000 <= u
        && u <= 0x200A) || u == 0x2028 || u == 0x2029 || u == 0x202F || u == 0x205F || u == 0x3000
}

/// The index of the first character of `s` that is in `class`, or the length
/// of `s` if there is none.
pub open spec fn first_index(s: Seq<char>, class: CharClass) -> int
    decreases s.len(),
{
    if s.len() == 0 || class.has(s[0]) {
        0
    } else {
        1 + first_index(s.drop_first(), class)
    }
}

/// `first_index` lies within `s`, nothing before it is in the class, and the
/// character at it, if there is one, is.
pub proof fn lemma_first_index(s: Seq<char>, class: CharClass)
    ensures
        0 <= first_index(s, class) <= s.len(),
        forall|j: int| 0 <= j < first_index(s, class) ==> !class.has(#[trigger] s[j]),
        first_index(s, class) < s.len() ==> class.has(s[first_index(s, class)]),
    decreases s.len(),
{
    if s.len() > 0 && !class.has(s[0]) {
        let rest = s.drop_first();
        lemma_first_index(rest, class);
        assert forall|j: int| 0 <= j < first_index(s, class) implies !class.has(#[trigger] s[j]) by {
            if j > 0 {
                assert(s[j] == rest[j - 1]);
            }
        }
    }
}

/// The only index with the properties of `lemma_first_index` is `first_index`.
pub proof fn lemma_first_index_unique(s: Seq<char>, class: CharClass, i: int)
    requires
        0 <= i <= s.len(),
        forall|j: int| 0 <= j < i ==> !class.has(#[trigger] s[j]),
        i < s.len() ==> class.has(s[i]),
    ensures
        first_index(s, class) == i,
{
    lemma_first_index(s, class);
}

/// Where a character of the class stands in `head`, what follows `head` does
/// not move the first index.
pub proof fn lemma_first_index_found(head: Seq<char>, tail: Seq<char>, class: CharClass)
    requires
        first_index(head, class) < head.len(),
    ensures
        first_index(head + tail, class) == first_index(head, class),
{
    lemma_first_index(head, class);
    lemma_first_index_unique(head + tail, class, first_index(head, class));
}

/// Where no character of the class stands in `head`, the first index in
/// `head + tail` is the one in `tail`, counted from the start of `head`.
pub proof fn lemma_first_index_absent(head: Seq<char>, tail: Seq<char>, class: CharClass)
    requires
        first_index(head, class) == head.len(),
    ensures
        first_index(head + tail, class) == head.len() + first_index(tail, class),
{
    lemma_first_index(head, class);
    lemma_first_index(tail, class);
    lemma_first_index_unique(head + tail, class, head.len() + first_index(tail, class));
}

/// `s` cut in two at the first `mark`, which belongs to neither part, if
/// `mark` occurs in `s`.
pub open spec fn split_once(s: Seq<char>, mark: char) -> Option<(Seq<char>, Seq<char>)> {
    let at = first_index(s, CharClass::Is(mark));
    if at < s.len() {
        Some((s.take(at), s.skip(at + 1)))
    } else {
        None
    }
}

/// Scans the characters `from..to` of `text` for the first one in `class`.
pub(crate) fn scan(text: &Vec<char>, from: usize, to: usize, class: CharClass) -> (at: usize)
    requires
        from <= to <= text.len(),
    ensures
        from <= at <= to,
        at - from == first_index(text@.subrange(from as int, to as int), class),
{
    let mut at: usize = from;
    while at < to && !class.test(text[at])
        invariant
            from <= at <= to <= text.len(),
            forall|j: int| from <= j < at ==> !class.has(#[trigger] text@[j]),
        decreases to - at,
    {
        at += 1;
    }
    proof {
        lemma_first_index_unique(text@.subrange(from as int, to as int), class, at - from);
    }
    at
}

/// The characters of `s`, in order.
pub fn chars_of(s: &str) -> (v: Vec<char>)
    ensures
        v@ == s@,
{
    let mut v: Vec<char> = Vec::new();
    for c in it: s.chars()
        invariant
            it.seq() == s@,
            v@ == s@.take(it.index() as int),
    {
        v.push(c);
    }
    v
}

/// The characters `from..to` of `s` as a string of their own.
pub(crate) fn cut(s: &str, from: usize, to: usize) -> (piece: String)
    requires
        from <= to <= s@.len(),
    ensures
        piece@ == s@.subrange(from as int, to as int),
{
    s.substring_char(from, to).to_owned()
}

/// Whether two strings hold the same characters.
pub fn same_text(a: &str, b: &str) -> (r: bool)
    ensures
        r == (a@ == b@),
{
    let x = a.as_bytes();
    let y = b.as_bytes();
    proof {
        encode_utf8_decode_utf8(a@);
        encode_utf8_decode_utf8(b@);
    }
    if x.len() != y.len() {
        return false;
    }
    let mut i: usize = 0;
    while i < x.len()
        invariant
            i <= x.len() == y.len(),
            x@ == encode_utf8(a@),
            y@ == encode_utf8(b@),
            forall|j: int| 0 <= j < i ==> x@[j] == y@[j],
        decreases x.len() - i,
    {
        if x[i] != y[i] {
            return false;
        }
        i += 1;
    }
    assert(x@ =~= y@);
    true
}

/// The decimal digit that stands for `d`.
pub open spec fn digit(d: nat) -> char
    recommends
        d < 10,
{
    "0123456789"@[d as int]
}

/// `n` written in decimal, without sign or leading zeros.
pub open spec fn decimal(n: nat) -> Seq<char>
    decreases n,
{
    if n < 10 {
        seq![digit(n)]
    } else {
        decimal(n / 10).push(digit(n % 10))
    }
}

/// Writes `n` in decimal.
pub fn decimal_string(n: usize) -> (s: String)
    ensures
        s@ == decimal(n as nat),
    decreases n,
{
    let digits = "0123456789";
    proof {
        reveal_strlit("0123456789");
    }
    if n < 10 {
        cut(digits, n, n + 1)
    } else {
        let mut s = decimal_string(n / 10);
        let d: usize = n % 10;
        let last = cut(digits, d, d + 1);
        s.append(last.as_str());
        s
    }
}

} // verus!
