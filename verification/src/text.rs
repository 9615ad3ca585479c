//! Characters, UTF-8 byte offsets, decimal digits and the text searches and
//! comparisons that the process list is filtered and ordered by.
use vstd::prelude::*;
use vstd::utf8::{encode_scalar, encode_utf8, char_is_scalar};

verus! {

// ---------------------------------------------------------------------------
// UTF-8 widths and byte offsets
// ---------------------------------------------------------------------------

/// Number of bytes in the UTF-8 encoding of `c`.
pub open spec fn char_width(c: char) -> nat {
    encode_scalar(c as u32).len()
}

/// Number of bytes in the UTF-8 encoding of `cs`.
pub open spec fn byte_len(cs: Seq<char>) -> nat
    decreases cs.len(),
{
    if cs.len() == 0 {
        0
    } else {
        char_width(cs[0]) + byte_len(cs.drop_first())
    }
}

/// `idx` is the byte offset at which some character of `cs` starts, or the
/// byte length of `cs` (what `str::is_char_boundary` tests).
pub open spec fn is_boundary(cs: Seq<char>, idx: int) -> bool
    decreases cs.len(),
{
    if idx == 0 {
        true
    } else if cs.len() == 0 {
        false
    } else {
        idx >= char_width(cs[0]) && is_boundary(cs.drop_first(), idx - char_width(cs[0]))
    }
}

/// The number of characters of `cs` whose encoding ends at or before byte
/// offset `idx`: at a boundary, the character index that `idx` stands for.
pub open spec fn char_pos(cs: Seq<char>, idx: int) -> int
    decreases cs.len(),
{
    if idx <= 0 || cs.len() == 0 {
        0
    } else {
        1 + char_pos(cs.drop_first(), idx - char_width(cs[0]))
    }
}

pub proof fn lemma_char_width_range(c: char)
    ensures
        1 <= char_width(c) <= 4,
        char_width(c) == 1 <==> (c as u32) < 0x80,
        char_width(c) == 2 <==> 0x80 <= (c as u32) < 0x800,
        char_width(c) == 3 <==> 0x800 <= (c as u32) < 0x10000,
        char_width(c) == 4 <==> 0x10000 <= (c as u32),
{
    char_is_scalar(c);
}

pub proof fn lemma_byte_len_is_encoding_len(cs: Seq<char>)
    ensures
        byte_len(cs) == encode_utf8(cs).len(),
    decreases cs.len(),
{
    if cs.len() > 0 {
        lemma_byte_len_is_encoding_len(cs.drop_first());
    }
}

pub proof fn lemma_byte_len_append(a: Seq<char>, b: Seq<char>)
    ensures
        byte_len(a + b) == byte_len(a) + byte_len(b),
    decreases a.len(),
{
    if a.len() > 0 {
        assert((a + b).drop_first() =~= a.drop_first() + b);
        lemma_byte_len_append(a.drop_first(), b);
    } else {
        assert(a + b =~= b);
    }
}

pub proof fn lemma_byte_len_push(a: Seq<char>, c: char)
    ensures
        byte_len(a.push(c)) == byte_len(a) + char_width(c),
{
    assert(a.push(c) =~= a + seq![c]);
    lemma_byte_len_append(a, seq![c]);
    assert(seq![c].drop_first() =~= Seq::<char>::empty());
    assert(byte_len(Seq::<char>::empty()) == 0);
    assert(byte_len(seq![c]) == char_width(c) + byte_len(seq![c].drop_first()));
}

/// Inserting `c` adds its width to the byte length, after the bytes of the
/// characters before it.
pub proof fn lemma_byte_len_insert(cs: Seq<char>, k: int, c: char)
    requires
        0 <= k <= cs.len(),
    ensures
        byte_len(cs.insert(k, c)) == byte_len(cs) + char_width(c),
        byte_len(cs.take(k)) <= byte_len(cs),
{
    assert(cs =~= cs.take(k) + cs.skip(k));
    assert(cs.insert(k, c) =~= cs.take(k).push(c) + cs.skip(k));
    lemma_byte_len_append(cs.take(k), cs.skip(k));
    lemma_byte_len_append(cs.take(k).push(c), cs.skip(k));
    lemma_byte_len_push(cs.take(k), c);
}

/// At a boundary, the character position is in range and the characters
/// before it take exactly `idx` bytes.
pub proof fn lemma_boundary_char_pos(cs: Seq<char>, idx: int)
    requires
        is_boundary(cs, idx),
    ensures
        0 <= char_pos(cs, idx) <= cs.len(),
        byte_len(cs.take(char_pos(cs, idx))) == idx,
        idx <= byte_len(cs),
        idx == byte_len(cs) <==> char_pos(cs, idx) == cs.len(),
    decreases cs.len(),
{
    if idx == 0 {
        assert(cs.take(0) =~= Seq::<char>::empty());
        if cs.len() > 0 {
            lemma_char_width_range(cs[0]);
        }
    } else {
        let w = char_width(cs[0]);
        lemma_char_width_range(cs[0]);
        lemma_boundary_char_pos(cs.drop_first(), idx - w);
        let k = char_pos(cs.drop_first(), idx - w);
        assert(cs.take(k + 1).drop_first() =~= cs.drop_first().take(k));
    }
}

/// The byte offset of every character index is a boundary that stands for
/// that index.
pub proof fn lemma_prefix_is_boundary(cs: Seq<char>, k: int)
    requires
        0 <= k <= cs.len(),
    ensures
        is_boundary(cs, byte_len(cs.take(k)) as int),
        char_pos(cs, byte_len(cs.take(k)) as int) == k,
    decreases cs.len(),
{
    if k == 0 {
        assert(cs.take(0) =~= Seq::<char>::empty());
    } else {
        lemma_char_width_range(cs[0]);
        assert(cs.take(k).drop_first() =~= cs.drop_first().take(k - 1));
        lemma_prefix_is_boundary(cs.drop_first(), k - 1);
    }
}

/// Longer prefixes take more bytes.
pub proof fn lemma_prefix_len_strict(cs: Seq<char>, i: int, k: int)
    requires
        0 <= i < k <= cs.len(),
    ensures
        byte_len(cs.take(i)) < byte_len(cs.take(k)),
{
    assert(cs.take(k) =~= cs.take(i) + cs.subrange(i, k));
    lemma_byte_len_append(cs.take(i), cs.subrange(i, k));
    lemma_char_width_range(cs[i]);
    assert(cs.subrange(i, k)[0] == cs[i]);
}

/// The character index that the boundary `idx` stands for.
pub fn char_index_at(cs: &Vec<char>, idx: usize) -> (k: usize)
    requires
        is_boundary(cs@, idx as int),
    ensures
        k == char_pos(cs@, idx as int),
        k <= cs.len(),
        byte_len(cs@.take(k as int)) == idx,
{
    let ghost target = char_pos(cs@, idx as int);
    proof {
        lemma_boundary_char_pos(cs@, idx as int);
        assert(cs@.take(0) =~= Seq::<char>::empty());
    }
    let mut i: usize = 0;
    let mut acc: usize = 0;
    while acc < idx
        invariant
            0 <= i <= target <= cs.len(),
            byte_len(cs@.take(target)) == idx,
            acc == byte_len(cs@.take(i as int)),
            acc <= idx,
        decreases idx - acc,
    {
        proof {
            assert(i < target);
            assert(cs@.take(i + 1) =~= cs@.take(i as int).push(cs@[i as int]));
            lemma_byte_len_push(cs@.take(i as int), cs@[i as int]);
            if i + 1 < target {
                lemma_prefix_len_strict(cs@, i + 1, target);
            }
        }
        let w = utf8_width(cs[i]);
        acc = acc + w;
        i = i + 1;
    }
    proof {
        if i < target {
            lemma_prefix_len_strict(cs@, i as int, target);
        }
    }
    i
}

/// Whether byte offset `idx` is a character boundary of `cs`.
pub fn boundary_at(cs: &Vec<char>, idx: usize) -> (r: bool)
    ensures
        r == is_boundary(cs@, idx as int),
{
    let mut i: usize = 0;
    let mut acc: usize = 0;
    proof {
        assert(cs@.take(0) =~= Seq::<char>::empty());
    }
    while i < cs.len() && acc < idx
        invariant
            0 <= i <= cs.len(),
            acc == byte_len(cs@.take(i as int)),
            forall|j: int| 0 <= j < i ==> byte_len(#[trigger] cs@.take(j)) < idx,
        decreases cs.len() - i,
    {
        proof {
            assert(cs@.take(i + 1) =~= cs@.take(i as int).push(cs@[i as int]));
            lemma_byte_len_push(cs@.take(i as int), cs@[i as int]);
        }
        let w = utf8_width(cs[i]);
        if acc > usize::MAX - w {
            proof {
                assert forall|k: int| 0 <= k <= cs.len() implies byte_len(#[trigger] cs@.take(k)) != idx by {
                    if k > i {
                        lemma_prefix_len_strict(cs@, i as int, k);
                        if k > i + 1 {
                            lemma_prefix_len_strict(cs@, i + 1, k);
                        }
                    }
                }
                lemma_not_boundary(cs@, idx as int);
            }
            return false;
        }
        acc = acc + w;
        i = i + 1;
    }
    proof {
        if acc == idx {
            lemma_prefix_is_boundary(cs@, i as int);
        } else {
            assert forall|k: int| 0 <= k <= cs.len() implies byte_len(#[trigger] cs@.take(k)) != idx by {
                if k > i {
                    lemma_prefix_len_strict(cs@, i as int, k);
                }
            }
            lemma_not_boundary(cs@, idx as int);
        }
    }
    acc == idx
}

/// An offset that no prefix ends at is no boundary.
proof fn lemma_not_boundary(cs: Seq<char>, idx: int)
    requires
        forall|k: int| 0 <= k <= cs.len() ==> byte_len(#[trigger] cs.take(k)) != idx,
    ensures
        !is_boundary(cs, idx),
{
    if is_boundary(cs, idx) {
        lemma_boundary_char_pos(cs, idx);
        let k = char_pos(cs, idx);
        assert(byte_len(cs.take(k)) == idx);
    }
}

/// A string of the characters `cs[lo..hi]`.
pub fn string_of_range(cs: &Vec<char>, lo: usize, hi: usize) -> (s: String)
    requires
        lo <= hi <= cs.len(),
    ensures
        s@ == cs@.subrange(lo as int, hi as int),
{
    let mut s = String::new();
    let mut i: usize = lo;
    while i < hi
        invariant
            lo <= i <= hi <= cs.len(),
            s@ == cs@.subrange(lo as int, i as int),
        decreases hi - i,
    {
        push_char(&mut s, cs[i]);
        assert(cs@.subrange(lo as int, i + 1) =~= cs@.subrange(lo as int, i as int).push(cs@[i as int]));
        i = i + 1;
    }
    s
}

/// Byte width of a character, computed from its code point.
pub fn utf8_width(c: char) -> (w: usize)
    ensures
        w == char_width(c),
{
    proof {
        lemma_char_width_range(c);
    }
    let v = c as u32;
    if v < 0x80 {
        1
    } else if v < 0x800 {
        2
    } else if v < 0x10000 {
        3
    } else {
        4
    }
}

/// Byte length of the UTF-8 encoding of `cs`, saturating at `usize::MAX`.
pub fn utf8_len(cs: &Vec<char>) -> (n: usize)
    ensures
        n == (if byte_len(cs@) <= usize::MAX { byte_len(cs@) } else { usize::MAX as nat }),
{
    let mut n: usize = 0;
    let mut i: usize = 0;
    while i < cs.len()
        invariant
            0 <= i <= cs.len(),
            n == (if byte_len(cs@.take(i as int)) <= usize::MAX { byte_len(cs@.take(i as int)) } else { usize::MAX as nat }),
        decreases cs.len() - i,
    {
        let w = utf8_width(cs[i]);
        proof {
            assert(cs@.take(i + 1) =~= cs@.take(i as int).push(cs@[i as int]));
            lemma_byte_len_push(cs@.take(i as int), cs@[i as int]);
        }
        if n > usize::MAX - w {
            n = usize::MAX;
        } else {
            n = n + w;
        }
        i = i + 1;
    }
    assert(cs@.take(cs.len() as int) =~= cs@);
    n
}

// ---------------------------------------------------------------------------
// Strings and characters
// ---------------------------------------------------------------------------

/// The characters of `s`, in order.
pub fn chars_of(s: &str) -> (v: Vec<char>)
    ensures
        v@ == s@,
{
    let mut v: Vec<char> = Vec::new();
    for c in it: s.chars()
        invariant
            v@ == it.seq().take(it.index() as int),
    {
        v.push(c);
    }
    v
}

/// Appends one character (`String::push`).
#[verifier::external_body]
pub fn push_char(s: &mut String, c: char)
    ensures
        final(s)@ == old(s)@.push(c),
{
    s.push(c);
}

/// Inserts `c` at byte offset `idx` (`String::insert`), which panics unless
/// `idx` is a character boundary; the character lands at the character
/// index that `idx` stands for. A `String` never holds more than
/// `isize::MAX` bytes (the allocation limit of `Vec`).
#[verifier::external_body]
pub fn string_insert(s: &mut String, idx: usize, c: char)
    requires
        is_boundary(old(s)@, idx as int),
    ensures
        final(s)@ == old(s)@.insert(char_pos(old(s)@, idx as int), c),
        byte_len(final(s)@) <= isize::MAX,
{
    s.insert(idx, c);
}

/// Removes and returns the character that starts at byte offset `idx`
/// (`String::remove`), which panics unless `idx` is a character boundary
/// before the end of the string.
#[verifier::external_body]
pub fn string_remove(s: &mut String, idx: usize) -> (c: char)
    requires
        is_boundary(old(s)@, idx as int),
        idx < byte_len(old(s)@),
    ensures
        c == old(s)@[char_pos(old(s)@, idx as int)],
        final(s)@ == old(s)@.remove(char_pos(old(s)@, idx as int)),
{
    s.remove(idx)
}

/// What `str::to_lowercase` returns for a string: the Unicode lower-case
/// mapping of each character, which takes the Unicode tables to state.
pub uninterp spec fn lowercase(s: Seq<char>) -> Seq<char>;

/// `str::to_lowercase`: its result is named, nothing more is claimed of it.
#[verifier::external_body]
pub fn to_lowercase(s: &str) -> (r: String)
    ensures
        r@ == lowercase(s@),
{
    s.to_lowercase()
}

/// Appends the characters of `t` to `s`.
pub fn push_str(s: &mut String, t: &str)
    ensures
        final(s)@ == old(s)@ + t@,
{
    let cs = chars_of(t);
    let ghost start = s@;
    let mut i: usize = 0;
    while i < cs.len()
        invariant
            0 <= i <= cs.len(),
            cs@ == t@,
            s@ == start + cs@.take(i as int),
        decreases cs.len() - i,
    {
        push_char(s, cs[i]);
        assert(cs@.take(i + 1) =~= cs@.take(i as int).push(cs@[i as int]));
        i = i + 1;
    }
    assert(cs@.take(cs.len() as int) =~= cs@);
}

// ---------------------------------------------------------------------------
// Decimal digits
// ---------------------------------------------------------------------------

/// The ASCII digit for `d` (0 to 9).
pub open spec fn digit(d: nat) -> char {
    seq!['0', '1', '2', '3', '4', '5', '6', '7', '8', '9'][d as int]
}

/// The decimal digits of `n`, most significant first, without leading zeros
/// (what `Display` prints for an unsigned integer).
pub open spec fn decimal(n: nat) -> Seq<char>
    decreases n,
{
    if n < 10 {
        seq![digit(n)]
    } else {
        decimal(n / 10).push(digit(n % 10))
    }
}

/// The number that a sequence of ASCII digits reads as.
pub open spec fn digits_value(s: Seq<char>) -> nat
    decreases s.len(),
{
    if s.len() == 0 {
        0
    } else {
        digits_value(s.drop_last()) * 10 + digit_value(s.last())
    }
}

/// The value of one ASCII digit.
pub open spec fn digit_value(c: char) -> nat {
    if c == '1' { 1 }
    else if c == '2' { 2 }
    else if c == '3' { 3 }
    else if c == '4' { 4 }
    else if c == '5' { 5 }
    else if c == '6' { 6 }
    else if c == '7' { 7 }
    else if c == '8' { 8 }
    else if c == '9' { 9 }
    else { 0 }
}

pub proof fn lemma_digit_value(d: nat)
    requires
        d < 10,
    ensures
        digit_value(digit(d)) == d,
        '0' <= digit(d) <= '9',
{
}

/// Reading back the decimal digits of `n` gives `n`.
pub proof fn lemma_decimal_value(n: nat)
    ensures
        digits_value(decimal(n)) == n,
        decimal(n).len() >= 1,
        forall|i: int| 0 <= i < decimal(n).len() ==> '0' <= #[trigger] decimal(n)[i] <= '9',
    decreases n,
{
    lemma_digit_value((n % 10) as nat);
    if n < 10 {
        assert(seq![digit(n)].drop_last() =~= Seq::<char>::empty());
        assert(digits_value(Seq::<char>::empty()) == 0);
        assert(seq![digit(n)].last() == digit(n));
    } else {
        lemma_decimal_value(n / 10);
        assert(decimal(n).drop_last() =~= decimal(n / 10));
        assert(decimal(n).last() == digit(n % 10));
        assert(digits_value(decimal(n)) == digits_value(decimal(n / 10)) * 10 + digit_value(digit(n % 10)));
        assert((n / 10) * 10 + n % 10 == n);
    }
}

/// The digit character for `d`.
pub fn digit_char(d: u64) -> (c: char)
    requires
        d < 10,
    ensures
        c == digit(d as nat),
{
    match d {
        0 => '0',
        1 => '1',
        2 => '2',
        3 => '3',
        4 => '4',
        5 => '5',
        6 => '6',
        7 => '7',
        8 => '8',
        _ => '9',
    }
}

/// Appends the decimal digits of `n`.
pub fn push_decimal(s: &mut String, n: u64)
    ensures
        final(s)@ == old(s)@ + decimal(n as nat),
    decreases n,
{
    if n >= 10 {
        push_decimal(s, n / 10);
    }
    push_char(s, digit_char(n % 10));
    proof {
        if n >= 10 {
            assert(old(s)@ + decimal(n as nat) =~= old(s)@ + decimal((n / 10) as nat) + seq![digit((n % 10) as nat)]);
        } else {
            assert(old(s)@ + decimal(n as nat) =~= old(s)@.push(digit(n as nat)));
        }
    }
}

/// The decimal text of `n` (`n.to_string()`).
pub fn decimal_string(n: u64) -> (s: String)
    ensures
        s@ == decimal(n as nat),
{
    let mut s = String::new();
    push_decimal(&mut s, n);
    assert(Seq::<char>::empty() + decimal(n as nat) =~= decimal(n as nat));
    s
}

// ---------------------------------------------------------------------------
// Substrings and lexicographic order
// ---------------------------------------------------------------------------

/// `needle` occurs in `hay` as a contiguous run (`str::contains`).
pub open spec fn contains(hay: Seq<char>, needle: Seq<char>) -> bool {
    exists|i: int| 0 <= i && i + needle.len() <= hay.len() && #[trigger] hay.subrange(i, i + needle.len()) == needle
}

/// `hay[at..at + needle.len()]` equals `needle`.
fn occurs_at(hay: &Vec<char>, needle: &Vec<char>, at: usize) -> (r: bool)
    requires
        at + needle.len() <= hay.len(),
    ensures
        r == (hay@.subrange(at as int, at + needle.len()) == needle@),
{
    let mut j: usize = 0;
    while j < needle.len()
        invariant
            at + needle.len() <= hay.len(),
            0 <= j <= needle.len(),
            forall|k: int| 0 <= k < j ==> hay@[at + k] == needle@[k],
        decreases needle.len() - j,
    {
        if hay[at + j] != needle[j] {
            assert(hay@.subrange(at as int, at + needle.len())[j as int] != needle@[j as int]);
            return false;
        }
        j = j + 1;
    }
    assert(hay@.subrange(at as int, at + needle.len()) =~= needle@);
    true
}

/// Whether `needle` occurs in `hay`.
pub fn contains_chars(hay: &Vec<char>, needle: &Vec<char>) -> (r: bool)
    ensures
        r == contains(hay@, needle@),
{
    if needle.len() > hay.len() {
        return false;
    }
    let last = hay.len() - needle.len();
    let mut i: usize = 0;
    loop
        invariant
            last == hay.len() - needle.len(),
            needle.len() <= hay.len(),
            0 <= i <= last,
            forall|k: int| 0 <= k < i ==> #[trigger] hay@.subrange(k, k + needle.len()) != needle@,
        decreases last - i,
    {
        if occurs_at(hay, needle, i) {
            return true;
        }
        if i == last {
            return false;
        }
        i = i + 1;
    }
}

/// Strict lexicographic order on characters, by code point (the order of
/// `str`'s `Ord`, since UTF-8 keeps code point order).
pub open spec fn lex_lt(a: Seq<char>, b: Seq<char>) -> bool
    decreases a.len(),
{
    if a.len() == 0 {
        b.len() > 0
    } else if b.len() == 0 {
        false
    } else if a[0] != b[0] {
        a[0] < b[0]
    } else {
        lex_lt(a.drop_first(), b.drop_first())
    }
}

pub proof fn lemma_lex_irreflexive(a: Seq<char>)
    ensures
        !lex_lt(a, a),
    decreases a.len(),
{
    if a.len() > 0 {
        lemma_lex_irreflexive(a.drop_first());
    }
}

pub proof fn lemma_lex_transitive(a: Seq<char>, b: Seq<char>, c: Seq<char>)
    requires
        lex_lt(a, b),
        lex_lt(b, c),
    ensures
        lex_lt(a, c),
    decreases a.len(),
{
    if a.len() > 0 && b.len() > 0 && c.len() > 0 {
        if a[0] == b[0] && b[0] == c[0] {
            lemma_lex_transitive(a.drop_first(), b.drop_first(), c.drop_first());
        }
    }
}

pub proof fn lemma_lex_total(a: Seq<char>, b: Seq<char>)
    ensures
        lex_lt(a, b) || lex_lt(b, a) || a == b,
    decreases a.len(),
{
    if a.len() > 0 && b.len() > 0 {
        if a[0] == b[0] {
            lemma_lex_total(a.drop_first(), b.drop_first());
            if a.drop_first() == b.drop_first() {
                assert(a =~= seq![a[0]] + a.drop_first());
                assert(b =~= seq![b[0]] + b.drop_first());
            }
        }
    } else if a.len() == 0 && b.len() == 0 {
        assert(a =~= b);
    }
}

/// Two one-character strings are ordered by code point.
pub proof fn lemma_lex_single(x: char, y: char)
    ensures
        lex_lt(seq![x], seq![y]) == (x < y),
{
    assert(seq![x].drop_first() =~= Seq::<char>::empty());
    assert(seq![y].drop_first() =~= Seq::<char>::empty());
    assert(!lex_lt(Seq::<char>::empty(), Seq::<char>::empty()));
}

/// A common prefix does not change the order.
pub proof fn lemma_lex_common_prefix(p: Seq<char>, a: Seq<char>, b: Seq<char>)
    ensures
        lex_lt(p + a, p + b) == lex_lt(a, b),
    decreases p.len(),
{
    if p.len() == 0 {
        assert(p + a =~= a);
        assert(p + b =~= b);
    } else {
        assert((p + a).drop_first() =~= p.drop_first() + a);
        assert((p + b).drop_first() =~= p.drop_first() + b);
        assert((p + a)[0] == p[0] && (p + b)[0] == p[0]);
        lemma_lex_common_prefix(p.drop_first(), a, b);
    }
}

/// Strings that first differ at position `k` are ordered by their
/// characters there; a proper prefix comes first.
pub proof fn lemma_lex_first_difference(p: Seq<char>, x: char, y: char, a: Seq<char>, b: Seq<char>)
    ensures
        lex_lt(p.push(x) + a, p.push(y) + b) == (x < y || (x == y && lex_lt(a, b))),
        lex_lt(p, p + a) == (a.len() > 0),
        !lex_lt(p + a, p),
{
    assert(p.push(x) + a =~= p + (seq![x] + a));
    assert(p.push(y) + b =~= p + (seq![y] + b));
    lemma_lex_common_prefix(p, seq![x] + a, seq![y] + b);
    assert((seq![x] + a).drop_first() =~= a);
    assert((seq![y] + b).drop_first() =~= b);
    assert((seq![x] + a)[0] == x);
    assert((seq![y] + b)[0] == y);
    assert(p =~= p + Seq::<char>::empty());
    lemma_lex_common_prefix(p, Seq::<char>::empty(), a);
    lemma_lex_common_prefix(p, a, Seq::<char>::empty());
}

/// Whether `a` comes strictly before `b` in lexicographic order.
pub fn lex_less(a: &Vec<char>, b: &Vec<char>) -> (r: bool)
    ensures
        r == lex_lt(a@, b@),
{
    let mut i: usize = 0;
    assert(a@.skip(0) =~= a@);
    assert(b@.skip(0) =~= b@);
    while i < a.len() && i < b.len()
        invariant
            0 <= i <= a.len(),
            i <= b.len(),
            forall|k: int| 0 <= k < i ==> a@[k] == b@[k],
            lex_lt(a@, b@) == lex_lt(a@.skip(i as int), b@.skip(i as int)),
        decreases a.len() - i,
    {
        if a[i] != b[i] {
            return a[i] < b[i];
        }
        assert(a@.skip(i as int).drop_first() =~= a@.skip(i + 1));
        assert(b@.skip(i as int).drop_first() =~= b@.skip(i + 1));
        i = i + 1;
    }
    i < b.len()
}

} // verus!
