//! Character-sequence facts shared by every module that compares labels.

use vstd::prelude::*;

verus! {

/// Lexicographic order on character sequences, characters compared by code
/// point: the order `str` uses.
pub open spec fn chars_lt(a: Seq<char>, b: Seq<char>) -> bool
    decreases a.len(),
{
    if b.len() == 0 {
        false
    } else if a.len() == 0 {
        true
    } else if a[0] != b[0] {
        (a[0] as int) < (b[0] as int)
    } else {
        chars_lt(a.drop_first(), b.drop_first())
    }
}

/// `chars_lt` is irreflexive.
pub proof fn lemma_chars_lt_irreflexive(a: Seq<char>)
    ensures
        !chars_lt(a, a),
    decreases a.len(),
{
    if a.len() > 0 {
        lemma_chars_lt_irreflexive(a.drop_first());
    }
}

/// `chars_lt` is transitive.
pub proof fn lemma_chars_lt_transitive(a: Seq<char>, b: Seq<char>, c: Seq<char>)
    requires
        chars_lt(a, b),
        chars_lt(b, c),
    ensures
        chars_lt(a, c),
    decreases a.len(),
{
    if a.len() > 0 && b.len() > 0 && c.len() > 0 && a[0] == b[0] && b[0] == c[0] {
        lemma_chars_lt_transitive(a.drop_first(), b.drop_first(), c.drop_first());
    }
}

/// Two distinct sequences are ordered one way or the other.
pub proof fn lemma_chars_lt_total(a: Seq<char>, b: Seq<char>)
    requires
        a != b,
    ensures
        chars_lt(a, b) || chars_lt(b, a),
    decreases a.len(),
{
    if a.len() > 0 && b.len() > 0 {
        if a[0] == b[0] {
            if a.drop_first() == b.drop_first() {
                assert(a =~= seq![a[0]] + a.drop_first());
                assert(b =~= seq![b[0]] + b.drop_first());
            }
            lemma_chars_lt_total(a.drop_first(), b.drop_first());
        } else {
        }
    } else if a.len() == 0 && b.len() == 0 {
        assert(a =~= b);
    }
}

/// The characters of `s` before the first `c` (all of `s` when it holds none).
pub open spec fn prefix_before(s: Seq<char>, c: char) -> Seq<char>
    decreases s.len(),
{
    if s.len() == 0 {
        s
    } else if s[0] == c {
        Seq::empty()
    } else {
        seq![s[0]] + prefix_before(s.drop_first(), c)
    }
}

/// A sequence that does not hold `c` is its own prefix before `c`.
pub proof fn lemma_prefix_before_absent(s: Seq<char>, c: char)
    requires
        !s.contains(c),
    ensures
        prefix_before(s, c) == s,
    decreases s.len(),
{
    if s.len() > 0 {
        assert(!s.drop_first().contains(c)) by {
            if s.drop_first().contains(c) {
                let k = choose|k: int| 0 <= k < s.drop_first().len() && s.drop_first()[k] == c;
                assert(s[k + 1] == c);
            }
        }
        assert(s[0] != c) by {
            if s[0] == c {
                assert(s.contains(c));
            }
        }
        lemma_prefix_before_absent(s.drop_first(), c);
        assert(s =~= seq![s[0]] + s.drop_first());
    }
}

/// The prefix before `c` of a sequence whose first `c` is at `k` is its
/// first `k` characters.
proof fn lemma_prefix_before_at(s: Seq<char>, c: char, k: int)
    requires
        0 <= k < s.len(),
        s[k] == c,
        forall|j: int| 0 <= j < k ==> s[j] != c,
    ensures
        prefix_before(s, c) == s.take(k),
    decreases k,
{
    if k > 0 {
        let t = s.drop_first();
        assert forall|j: int| 0 <= j < k - 1 implies t[j] != c by {
            assert(t[j] == s[j + 1]);
        }
        lemma_prefix_before_at(t, c, k - 1);
        assert(s.take(k) =~= seq![s[0]] + t.take(k - 1));
    } else {
        assert(s.take(0) =~= Seq::<char>::empty());
    }
}

/// Splits `s` at its first `c`, as `str::split_once` does: the part before
/// and the part after, or `None` when `s` holds no `c`.
pub(crate) fn split_once_char(s: &str, c: char) -> (r: Option<(&str, &str)>)
    ensures
        match r {
            Some((a, b)) => s@.contains(c) && a@ == prefix_before(s@, c) && s@ == a@ + seq![c]
                + b@,
            None => !s@.contains(c),
        },
{
    let n = s.unicode_len();
    let mut k: usize = 0;
    while k < n
        invariant
            n == s@.len(),
            k <= n,
            forall|j: int| 0 <= j < k ==> s@[j] != c,
        decreases n - k,
    {
        if s.get_char(k) == c {
            let a = s.substring_char(0, k);
            let b = s.substring_char(k + 1, n);
            proof {
                lemma_prefix_before_at(s@, c, k as int);
                assert(s@ =~= a@ + seq![c] + b@);
                assert(s@[k as int] == c);
            }
            return Some((a, b));
        }
        k = k + 1;
    }
    None
}

/// Whether two string slices hold the same characters (`str == str`),
/// compared character by character.
pub(crate) fn str_eq(a: &str, b: &str) -> (r: bool)
    ensures
        r == (a@ == b@),
{
    let n = a.unicode_len();
    if n != b.unicode_len() {
        return false;
    }
    let mut i: usize = 0;
    while i < n
        invariant
            n == a@.len(),
            n == b@.len(),
            i <= n,
            forall|j: int| 0 <= j < i ==> a@[j] == b@[j],
        decreases n - i,
    {
        if a.get_char(i) != b.get_char(i) {
            return false;
        }
        i = i + 1;
    }
    proof {
        assert(a@ =~= b@);
    }
    true
}

/// `chars_lt` looks past a common first character.
proof fn lemma_chars_lt_skip(a: Seq<char>, b: Seq<char>, i: int)
    requires
        0 <= i < a.len(),
        i < b.len(),
        a[i] == b[i],
    ensures
        chars_lt(a.skip(i), b.skip(i)) == chars_lt(a.skip(i + 1), b.skip(i + 1)),
{
    assert(a.skip(i).drop_first() =~= a.skip(i + 1));
    assert(b.skip(i).drop_first() =~= b.skip(i + 1));
}

/// Whether `a` sorts before `b` (`str < str`): std orders strings by their
/// bytes, which is the code point order of their characters; compared here
/// character by character.
pub(crate) fn str_lt(a: &str, b: &str) -> (r: bool)
    ensures
        r == chars_lt(a@, b@),
{
    let n = a.unicode_len();
    let m = b.unicode_len();
    let mut i: usize = 0;
    proof {
        assert(a@.skip(0) =~= a@);
        assert(b@.skip(0) =~= b@);
    }
    loop
        invariant
            n == a@.len(),
            m == b@.len(),
            i <= n,
            i <= m,
            chars_lt(a@, b@) == chars_lt(a@.skip(i as int), b@.skip(i as int)),
        decreases n - i,
    {
        if i == m {
            return false;
        }
        if i == n {
            return true;
        }
        let x = a.get_char(i);
        let y = b.get_char(i);
        if x != y {
            proof {
                assert(a@.skip(i as int)[0] == x);
                assert(b@.skip(i as int)[0] == y);
            }
            return (x as u32) < (y as u32);
        }
        proof {
            lemma_chars_lt_skip(a@, b@, i as int);
        }
        i = i + 1;
    }
}


/// The characters of each text in a list.
pub open spec fn texts(v: Seq<&str>) -> Seq<Seq<char>> {
    v.map_values(|s: &str| s@)
}

/// `chars_lt` or equal: the order `str` sorts in.
pub open spec fn chars_le() -> spec_fn(Seq<char>, Seq<char>) -> bool {
    |a: Seq<char>, b: Seq<char>| a == b || chars_lt(a, b)
}

/// `chars_le` is a total order.
pub proof fn lemma_chars_le_total_ordering()
    ensures
        vstd::relations::total_ordering(chars_le()),
{
    let le = chars_le();
    assert forall|x: Seq<char>, y: Seq<char>| #[trigger] le(x, y) && #[trigger] le(y, x) implies x == y by {
        if x != y {
            lemma_chars_lt_transitive(x, y, x);
            lemma_chars_lt_irreflexive(x);
        }
    }
    assert forall|x: Seq<char>, y: Seq<char>, z: Seq<char>| #[trigger] le(x, y) && #[trigger] le(y, z) implies le(x, z) by {
        if x != y && y != z {
            lemma_chars_lt_transitive(x, y, z);
        }
    }
    assert forall|x: Seq<char>, y: Seq<char>| #[trigger] le(x, y) || #[trigger] le(y, x) by {
        if x != y {
            lemma_chars_lt_total(x, y);
        }
    }
}


/// The character of a decimal digit.
pub open spec fn digit_char(d: int) -> char {
    if d == 0 {
        '0'
    } else if d == 1 {
        '1'
    } else if d == 2 {
        '2'
    } else if d == 3 {
        '3'
    } else if d == 4 {
        '4'
    } else if d == 5 {
        '5'
    } else if d == 6 {
        '6'
    } else if d == 7 {
        '7'
    } else if d == 8 {
        '8'
    } else {
        '9'
    }
}

/// A number written in decimal, as `{}` writes it.
pub open spec fn decimal(n: nat) -> Seq<char>
    decreases n,
{
    if n < 10 {
        seq![digit_char(n as int)]
    } else {
        decimal(n / 10) + seq![digit_char((n % 10) as int)]
    }
}

/// One decimal digit as text.
fn digit_str(d: usize) -> (r: &'static str)
    requires
        d < 10,
    ensures
        r@ == seq![digit_char(d as int)],
{
    proof {
        reveal_strlit("0");
        reveal_strlit("1");
        reveal_strlit("2");
        reveal_strlit("3");
        reveal_strlit("4");
        reveal_strlit("5");
        reveal_strlit("6");
        reveal_strlit("7");
        reveal_strlit("8");
        reveal_strlit("9");
    }
    if d == 0 {
        assert("0"@ =~= seq!['0']);
        "0"
    } else if d == 1 {
        assert("1"@ =~= seq!['1']);
        "1"
    } else if d == 2 {
        assert("2"@ =~= seq!['2']);
        "2"
    } else if d == 3 {
        assert("3"@ =~= seq!['3']);
        "3"
    } else if d == 4 {
        assert("4"@ =~= seq!['4']);
        "4"
    } else if d == 5 {
        assert("5"@ =~= seq!['5']);
        "5"
    } else if d == 6 {
        assert("6"@ =~= seq!['6']);
        "6"
    } else if d == 7 {
        assert("7"@ =~= seq!['7']);
        "7"
    } else if d == 8 {
        assert("8"@ =~= seq!['8']);
        "8"
    } else {
        assert("9"@ =~= seq!['9']);
        "9"
    }
}

/// Appends a number in decimal.
pub fn append_decimal(out: &mut String, n: usize)
    ensures
        final(out)@ == old(out)@ + decimal(n as nat),
    decreases n,
{
    if n < 10 {
        out.append(digit_str(n));
    } else {
        append_decimal(out, n / 10);
        out.append(digit_str(n % 10));
        proof {
            assert(final(out)@ =~= old(out)@ + decimal(n as nat));
        }
    }
}


/// A signed number written in decimal, as `{}` writes it.
pub open spec fn signed_decimal(n: int) -> Seq<char> {
    if n < 0 {
        seq!['-'] + decimal((-n) as nat)
    } else {
        decimal(n as nat)
    }
}

/// Appends a signed number in decimal.
pub fn append_signed(out: &mut String, n: i32)
    ensures
        final(out)@ == old(out)@ + signed_decimal(n as int),
{
    if n < 0 {
        proof {
            reveal_strlit("-");
            assert("-"@ =~= seq!['-']);
        }
        out.append("-");
        let m: i64 = -(n as i64);
        append_decimal(out, m as usize);
        proof {
            assert(final(out)@ =~= old(out)@ + signed_decimal(n as int));
        }
    } else {
        append_decimal(out, n as usize);
    }
}

} // verus!
