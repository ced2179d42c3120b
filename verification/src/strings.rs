//! String primitives the rest of the library is written with.
use vstd::prelude::*;
use crate::textdist::chars_of;

verus! {

/// Whether two strings hold the same characters.
pub fn str_eq(a: &str, b: &str) -> (r: bool)
    ensures
        r == (a@ == b@),
{
    let av = chars_of(a);
    let bv = chars_of(b);
    if av.len() != bv.len() {
        return false;
    }
    let mut i: usize = 0;
    while i < av.len()
        invariant
            av@ == a@,
            bv@ == b@,
            av@.len() == bv@.len(),
            i <= av@.len(),
            forall|j: int| 0 <= j < i ==> av@[j] == bv@[j],
        decreases av@.len() - i,
    {
        if av[i] != bv[i] {
            return false;
        }
        i = i + 1;
    }
    proof {
        assert(a@ =~= b@);
    }
    true
}

/// `String::push` appends one character to the end of the string.
pub assume_specification[ std::string::String::push ](s: &mut std::string::String, ch: char)
    ensures
        final(s)@ == old(s)@.push(ch),
;

/// Lexicographic order on character sequences, by code point: the order Rust's
/// `String` comparison gives (UTF-8 byte order agrees with code-point order).
pub open spec fn chars_lt(a: Seq<char>, b: Seq<char>) -> bool
    decreases a.len(),
{
    if a.len() == 0 {
        b.len() > 0
    } else if b.len() == 0 {
        false
    } else if a[0] != b[0] {
        (a[0] as int) < (b[0] as int)
    } else {
        chars_lt(a.drop_first(), b.drop_first())
    }
}

/// `chars_lt` is irreflexive and total: of two sequences exactly one of
/// `a < b`, `a == b`, `b < a` holds.
pub proof fn lemma_chars_lt_trichotomy(a: Seq<char>, b: Seq<char>)
    ensures
        !chars_lt(a, a),
        a != b ==> (chars_lt(a, b) || chars_lt(b, a)),
        !(chars_lt(a, b) && chars_lt(b, a)),
    decreases a.len(),
{
    if a.len() > 0 {
        lemma_chars_lt_trichotomy(a.drop_first(), a.drop_first());
        if b.len() > 0 {
            lemma_chars_lt_trichotomy(a.drop_first(), b.drop_first());
            if a[0] == b[0] && a != b {
                assert(a =~= seq![a[0]] + a.drop_first());
                assert(b =~= seq![b[0]] + b.drop_first());
            }
        }
    } else if b.len() == 0 {
        assert(a =~= b);
    }
}

/// `chars_lt` is transitive.
pub proof fn lemma_chars_lt_transitive(a: Seq<char>, b: Seq<char>, c: Seq<char>)
    requires
        chars_lt(a, b),
        chars_lt(b, c),
    ensures
        chars_lt(a, c),
    decreases a.len(),
{
    if a.len() > 0 && b.len() > 0 && c.len() > 0 {
        if a[0] == b[0] && b[0] == c[0] {
            lemma_chars_lt_transitive(a.drop_first(), b.drop_first(), c.drop_first());
        }
    }
}

/// Whether `a` sorts strictly before `b`.
pub fn str_lt(a: &str, b: &str) -> (r: bool)
    ensures
        r == chars_lt(a@, b@),
{
    let av = chars_of(a);
    let bv = chars_of(b);
    let mut i: usize = 0;
    proof {
        assert(a@.skip(0) =~= a@);
        assert(b@.skip(0) =~= b@);
    }
    while i < av.len() && i < bv.len()
        invariant
            av@ == a@,
            bv@ == b@,
            i <= av@.len(),
            i <= bv@.len(),
            chars_lt(a@, b@) == chars_lt(a@.skip(i as int), b@.skip(i as int)),
        decreases av@.len() - i,
    {
        if av[i] != bv[i] {
            proof {
                assert(a@.skip(i as int)[0] == av@[i as int]);
                assert(b@.skip(i as int)[0] == bv@[i as int]);
            }
            return av[i] < bv[i];
        }
        proof {
            assert(a@.skip(i as int).drop_first() =~= a@.skip(i + 1));
            assert(b@.skip(i as int).drop_first() =~= b@.skip(i + 1));
        }
        i = i + 1;
    }
    proof {
        assert(a@.skip(i as int).len() == 0 || b@.skip(i as int).len() == 0);
    }
    i < bv.len()
}

/// The decimal digit character for `d`.
pub open spec fn decimal_digit(d: nat) -> char {
    (48 + d) as char
}

/// `n` written in decimal, with no leading zeros (`0` is `"0"`).
pub open spec fn nat_decimal(n: nat) -> Seq<char>
    decreases n,
{
    if n < 10 {
        seq![decimal_digit(n)]
    } else {
        nat_decimal(n / 10).push(decimal_digit(n % 10))
    }
}

/// `i` written in decimal, with a leading `-` when negative: the text Rust's
/// `Display` gives an integer.
pub open spec fn int_decimal(i: int) -> Seq<char> {
    if i < 0 {
        seq!['-'] + nat_decimal((-i) as nat)
    } else {
        nat_decimal(i as nat)
    }
}

/// Append `n` in decimal to `out`.
fn push_decimal(n: u64, out: &mut String)
    ensures
        final(out)@ == old(out)@ + nat_decimal(n as nat),
    decreases n,
{
    if n >= 10 {
        push_decimal(n / 10, out);
    }
    let d = (n % 10) as u8;
    out.push((48 + d) as char);
}

/// `i` written in decimal.
pub fn int_to_string(i: i64) -> (s: String)
    ensures
        s@ == int_decimal(i as int),
{
    let mut s = String::new();
    if i < 0 {
        s.push('-');
        let magnitude: u64 = (-(i as i128)) as u64;
        push_decimal(magnitude, &mut s);
    } else {
        push_decimal(i as u64, &mut s);
    }
    s
}

/// `n` written in decimal.
pub fn u64_to_string(n: u64) -> (s: String)
    ensures
        s@ == nat_decimal(n as nat),
{
    let mut s = String::new();
    push_decimal(n, &mut s);
    s
}

/// `a` followed by `b`.
pub fn concat_str(a: &str, b: &str) -> (r: String)
    ensures
        r@ == a@ + b@,
{
    let mut r = String::from_str(a);
    r.append(b);
    r
}

} // verus!
