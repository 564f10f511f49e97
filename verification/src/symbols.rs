//! Helpers on bone symbols: extension handling and lexicographic order.
//!
//! A bone symbol is a name such as `bone_pelvis.pos`: a base name, then an
//! extension introduced by the first `.` that names the transform property.

use vstd::prelude::*;

verus! {

/// ASCII-lowercases one character; any character outside `A..Z` is unchanged.
pub open spec fn spec_lower_char(c: char) -> char {
    if 'A' <= c && c <= 'Z' {
        ((c as u8) + 32) as char
    } else {
        c
    }
}

/// Index of the first `.` in `s`, or `s.len()` if there is none.
pub open spec fn spec_first_dot(s: Seq<char>) -> int
    decreases s.len(),
{
    if s.len() == 0 {
        0
    } else if s[0] == '.' {
        0
    } else {
        1 + spec_first_dot(s.skip(1))
    }
}

pub proof fn lemma_first_dot_bounds(s: Seq<char>)
    ensures
        0 <= spec_first_dot(s) <= s.len(),
        forall|j: int| 0 <= j < spec_first_dot(s) ==> s[j] != '.',
        spec_first_dot(s) < s.len() ==> s[spec_first_dot(s)] == '.',
    decreases s.len(),
{
    if s.len() != 0 && s[0] != '.' {
        lemma_first_dot_bounds(s.skip(1));
        assert forall|j: int| 0 <= j < spec_first_dot(s) implies s[j] != '.' by {
            if j > 0 {
                assert(s.skip(1)[j - 1] == s[j]);
            }
        }
        if spec_first_dot(s) < s.len() {
            assert(s.skip(1)[spec_first_dot(s) - 1] == s[spec_first_dot(s)]);
        }
    }
}

/// Finds the first `.` in `name`, as a character index, if any.
pub fn first_dot_index(name: &str) -> (r: Option<usize>)
    ensures
        match r {
            Some(i) => i == spec_first_dot(name@) && i < name@.len(),
            None => spec_first_dot(name@) == name@.len(),
        },
{
    proof {
        lemma_first_dot_bounds(name@);
    }
    let len = name.unicode_len();
    let mut i: usize = 0;
    while i < len
        invariant
            i <= len,
            len == name@.len(),
            forall|j: int| 0 <= j < i ==> name@[j] != '.',
        decreases len - i,
    {
        if name.get_char(i) == '.' {
            proof {
                lemma_first_dot_unique(name@, i as int);
            }
            return Some(i);
        }
        i = i + 1;
    }
    None
}

/// The first `.` is the unique dot with no dot before it.
proof fn lemma_first_dot_unique(s: Seq<char>, i: int)
    requires
        0 <= i < s.len(),
        s[i] == '.',
        forall|j: int| 0 <= j < i ==> s[j] != '.',
    ensures
        spec_first_dot(s) == i,
{
    lemma_first_dot_bounds(s);
}

/// The base of a symbol: everything before the first `.` (the whole symbol
/// when it has no `.`).
pub open spec fn spec_base_symbol(s: Seq<char>) -> Seq<char> {
    s.take(spec_first_dot(s))
}

/// Truncates a name at its first `.`.
pub fn get_basename(name: &str) -> (r: String)
    ensures
        r@ == spec_base_symbol(name@),
        r@.len() <= name@.len(),
    {
    proof {
        lemma_first_dot_bounds(name@);
    }
    let end = match first_dot_index(name) {
        Some(i) => i,
        None => name.unicode_len(),
    };
    let sub = name.substring_char(0, end);
    proof {
        assert(sub@ =~= spec_base_symbol(name@));
    }
    sub.to_owned()
}

/// Strict lexicographic order on character sequences, by code point.
pub open spec fn spec_str_lt(a: Seq<char>, b: Seq<char>) -> bool
    decreases a.len(),
{
    if b.len() == 0 {
        false
    } else if a.len() == 0 {
        true
    } else if a[0] == b[0] {
        spec_str_lt(a.skip(1), b.skip(1))
    } else {
        (a[0] as u32) < (b[0] as u32)
    }
}

/// Non-strict lexicographic order.
pub open spec fn spec_str_le(a: Seq<char>, b: Seq<char>) -> bool {
    spec_str_lt(a, b) || a == b
}

/// Compares two names in lexicographic code-point order.
pub fn str_lt(a: &str, b: &str) -> (r: bool)
    ensures
        r == spec_str_lt(a@, b@),
{
    let a_len = a.unicode_len();
    let b_len = b.unicode_len();
    let mut i: usize = 0;
    proof {
        assert(a@.skip(0) =~= a@);
        assert(b@.skip(0) =~= b@);
    }
    loop
        invariant
            i <= a_len,
            i <= b_len,
            a_len == a@.len(),
            b_len == b@.len(),
            spec_str_lt(a@, b@) == spec_str_lt(a@.skip(i as int), b@.skip(i as int)),
        decreases a_len - i,
    {
        if i >= b_len {
            proof {
                assert(b@.skip(i as int).len() == 0);
            }
            return false;
        }
        if i >= a_len {
            proof {
                assert(a@.skip(i as int).len() == 0);
                assert(b@.skip(i as int).len() > 0);
            }
            return true;
        }
        let ca = a.get_char(i);
        let cb = b.get_char(i);
        proof {
            assert(a@.skip(i as int)[0] == a@[i as int]);
            assert(b@.skip(i as int)[0] == b@[i as int]);
            assert(a@.skip(i as int).skip(1) =~= a@.skip(i + 1));
            assert(b@.skip(i as int).skip(1) =~= b@.skip(i + 1));
        }
        if ca != cb {
            return (ca as u32) < (cb as u32);
        }
        i = i + 1;
    }
}

/// The order is total: two in-order names that are not strictly ordered
/// either way are equal.
pub proof fn lemma_str_lt_connected(a: Seq<char>, b: Seq<char>)
    ensures
        !spec_str_lt(a, b) && !spec_str_lt(b, a) ==> a =~= b,
    decreases a.len(),
{
    if !spec_str_lt(a, b) && !spec_str_lt(b, a) {
        if b.len() == 0 {
            assert(a.len() == 0);
            assert(a =~= b);
        } else if a.len() == 0 {
        } else if a[0] == b[0] {
            lemma_str_lt_connected(a.skip(1), b.skip(1));
            assert(a.skip(1) =~= b.skip(1));
            assert(a =~= seq![a[0]] + a.skip(1));
            assert(b =~= seq![b[0]] + b.skip(1));
            assert(a =~= b);
        } else {
            assert(spec_str_lt(a, b) == ((a[0] as u32) < (b[0] as u32)));
            assert(spec_str_lt(b, a) == ((b[0] as u32) < (a[0] as u32)));
            lemma_char_eq_of_code(a[0], b[0]);
        }
    }
}

/// Two characters with the same code point are the same character.
proof fn lemma_char_eq_of_code(c1: char, c2: char)
    requires
        c1 as u32 == c2 as u32,
    ensures
        c1 == c2,
{
}

/// The order is transitive.
pub proof fn lemma_str_lt_trans(a: Seq<char>, b: Seq<char>, c: Seq<char>)
    requires
        spec_str_lt(a, b),
        spec_str_lt(b, c),
    ensures
        spec_str_lt(a, c),
    decreases a.len() + b.len() + c.len(),
{
    if c.len() == 0 {
    } else if b.len() == 0 {
    } else if a.len() == 0 {
    } else {
        if a[0] == b[0] && b[0] == c[0] {
            lemma_str_lt_trans(a.skip(1), b.skip(1), c.skip(1));
        }
    }
}

} // verus!

verus! {

/// Compares two names character by character.
pub fn str_eq(a: &str, b: &str) -> (r: bool)
    ensures
        r == (a@ == b@),
{
    let a_len = a.unicode_len();
    let b_len = b.unicode_len();
    if a_len != b_len {
        return false;
    }
    let mut i: usize = 0;
    while i < a_len
        invariant
            i <= a_len,
            a_len == a@.len(),
            b_len == b@.len(),
            a_len == b_len,
            forall|j: int| 0 <= j < i ==> a@[j] == b@[j],
        decreases a_len - i,
    {
        if a.get_char(i) != b.get_char(i) {
            return false;
        }
        i = i + 1;
    }
    proof {
        assert(a@ =~= b@);
    }
    true
}

/// Whether `name` ends with the characters of `suffix`.
pub open spec fn spec_ends_with(name: Seq<char>, suffix: Seq<char>) -> bool {
    name.len() >= suffix.len() && name.skip(name.len() - suffix.len()) == suffix
}

/// Tests whether a name ends with a suffix.
pub fn str_ends_with(name: &str, suffix: &str) -> (r: bool)
    ensures
        r == spec_ends_with(name@, suffix@),
{
    let n_len = name.unicode_len();
    let s_len = suffix.unicode_len();
    if n_len < s_len {
        return false;
    }
    let off = n_len - s_len;
    let mut i: usize = 0;
    while i < s_len
        invariant
            i <= s_len,
            n_len == name@.len(),
            s_len == suffix@.len(),
            off == n_len - s_len,
            forall|j: int| 0 <= j < i ==> name@[off + j] == suffix@[j],
        decreases s_len - i,
    {
        if name.get_char(off + i) != suffix.get_char(i) {
            proof {
                assert(name@.skip(off as int)[i as int] == name@[off + i]);
            }
            return false;
        }
        i = i + 1;
    }
    proof {
        assert(name@.skip(off as int) =~= suffix@);
    }
    true
}

/// The decimal digits of `n`, most significant first.
pub open spec fn spec_decimal(n: int) -> Seq<char>
    decreases n,
{
    if n <= 0 {
        Seq::empty()
    } else {
        spec_decimal(n / 10) + seq![(0x30 + (n % 10)) as u8 as char]
    }
}

/// Renders a number in decimal (zero as "0").
pub fn u32_to_decimal(n: u32) -> (r: String)
    ensures
        n == 0 ==> r@ == seq!['0'],
        n > 0 ==> r@ == spec_decimal(n as int),
{
    if n == 0 {
        let s = <String as vstd::string::StringExecFns>::from_str("0");
        proof {
            reveal_strlit("0");
        }
        return s;
    }
    let mut digits: Vec<char> = Vec::new();
    let mut t = n;
    while t > 0
        invariant
            spec_decimal(n as int) == spec_decimal(t as int) + digits@.reverse(),
            forall|j: int| 0 <= j < digits@.len() ==> ((#[trigger] digits@[j]) as u32) < 0x80,
        decreases t,
    {
        let d = t % 10;
        digits.push((0x30 + (d as u8)) as char);
        t = t / 10;
        proof {
            assert(digits@.reverse() =~= seq![digits@.last()] + digits@.drop_last().reverse());
            assert(spec_decimal(t as int) + (seq![(0x30 + (t as int % 10 * 0 + (d as int)))
                as u8 as char] + digits@.drop_last().reverse()) =~= (spec_decimal(t as int)
                + seq![(0x30 + (d as int)) as u8 as char]) + digits@.drop_last().reverse());
        }
    }
    let mut out = String::new();
    let mut i: usize = digits.len();
    while i > 0
        invariant
            i <= digits@.len(),
            out@ == digits@.skip(i as int).reverse(),
            forall|j: int| 0 <= j < digits@.len() ==> ((#[trigger] digits@[j]) as u32) < 0x80,
        decreases i,
    {
        i = i - 1;
        let c = digits[i];
        out = append_char(out, c);
        proof {
            assert(digits@.skip(i as int).reverse() =~= digits@.skip(i + 1).reverse().push(
                digits@[i as int],
            ));
        }
    }
    proof {
        assert(digits@.skip(0) =~= digits@);
        assert(spec_decimal(0int) =~= Seq::<char>::empty());
        assert(out@ =~= spec_decimal(n as int));
    }
    out
}

/// Appends one ASCII character to a name.
fn append_char(s: String, c: char) -> (r: String)
    requires
        (c as u32) < 0x80,
    ensures
        r@ == s@.push(c),
{
    let mut buf: Vec<u8> = Vec::new();
    buf.push(c as u8);
    let tail = ascii_char_string(buf);
    let r = vstd::string::StringExecFns::concat(s, tail.as_str());
    proof {
        assert(r@ =~= s@.push(c));
    }
    r
}

/// Relies on `String::from_utf8`: one ASCII byte decodes to the character
/// with the same code point.
#[verifier::external_body]
fn ascii_char_string(bytes: Vec<u8>) -> (r: String)
    requires
        bytes@.len() == 1,
        bytes@[0] < 0x80,
    ensures
        r@ == seq![bytes@[0] as char],
{
    match String::from_utf8(bytes) {
        Ok(s) => s,
        Err(_) => String::new(),
    }
}

} // verus!
