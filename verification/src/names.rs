//! Character-level helpers shared by the pipeline: decimal rendering of
//! counters, zero padding for date folders, and a lexicographic order on
//! strings used to sort records deterministically.

use vstd::prelude::*;

verus! {

// ---------------------------------------------------------------------------
// Decimal rendering
// ---------------------------------------------------------------------------

/// The character for a single decimal digit.
pub open spec fn digit_char(d: nat) -> char {
    if d == 0 {
        '0'
    } else if d == 1 {
        '1'
    } else if d == 2 {
        '2'
    } else if d == 3 {
        '3'
    } else if d == 4 {
        '4'
    } else if d == 5 {
        '5'
    } else if d == 6 {
        '6'
    } else if d == 7 {
        '7'
    } else if d == 8 {
        '8'
    } else {
        '9'
    }
}

/// The numeric value of a decimal digit character (unspecified elsewhere).
pub open spec fn digit_val(c: char) -> nat {
    if c == '0' {
        0
    } else if c == '1' {
        1
    } else if c == '2' {
        2
    } else if c == '3' {
        3
    } else if c == '4' {
        4
    } else if c == '5' {
        5
    } else if c == '6' {
        6
    } else if c == '7' {
        7
    } else if c == '8' {
        8
    } else {
        9
    }
}

/// Whether `c` is a decimal digit character.
pub open spec fn is_digit(c: char) -> bool {
    c == '0' || c == '1' || c == '2' || c == '3' || c == '4' || c == '5' || c == '6' || c == '7'
        || c == '8' || c == '9'
}

/// The numeric value of a digit character, or `None` for anything else.
pub fn digit_value(c: char) -> (r: Option<u32>)
    ensures
        r matches Some(v) ==> is_digit(c) && v == digit_val(c),
        r is None ==> !is_digit(c),
{
    match c {
        '0' => Some(0),
        '1' => Some(1),
        '2' => Some(2),
        '3' => Some(3),
        '4' => Some(4),
        '5' => Some(5),
        '6' => Some(6),
        '7' => Some(7),
        '8' => Some(8),
        '9' => Some(9),
        _ => None,
    }
}

/// The usual decimal rendering of `n`, most significant digit first,
/// without leading zeros (`0` renders as `"0"`).
pub open spec fn dec_digits(n: nat) -> Seq<char>
    decreases n,
{
    if n < 10 {
        seq![digit_char(n)]
    } else {
        dec_digits(n / 10).push(digit_char(n % 10))
    }
}

/// The number a digit sequence denotes, read most significant first.
pub open spec fn digits_val(s: Seq<char>) -> nat
    decreases s.len(),
{
    if s.len() == 0 {
        0
    } else {
        digits_val(s.drop_last()) * 10 + digit_val(s.last())
    }
}

pub proof fn lemma_dec_digits_val(n: nat)
    ensures
        digits_val(dec_digits(n)) == n,
        dec_digits(n).len() >= 1,
    decreases n,
{
    if n < 10 {
        let s = seq![digit_char(n)];
        assert(dec_digits(n) == s);
        assert(s.drop_last() =~= Seq::<char>::empty());
        assert(digits_val(Seq::<char>::empty()) == 0);
        assert(digits_val(s) == digits_val(s.drop_last()) * 10 + digit_val(s.last()));
        assert(digit_val(digit_char(n)) == n);
    } else {
        lemma_dec_digits_val(n / 10);
        let s = dec_digits(n);
        assert(s.drop_last() =~= dec_digits(n / 10));
        assert(s.last() == digit_char(n % 10));
        assert(digits_val(s) == digits_val(s.drop_last()) * 10 + digit_val(s.last()));
        assert(digit_val(digit_char(n % 10)) == n % 10);
        vstd::arithmetic::div_mod::lemma_fundamental_div_mod(n as int, 10);
    }
}

/// Distinct numbers render as distinct digit sequences.
pub proof fn lemma_dec_digits_injective(n: nat, m: nat)
    requires
        dec_digits(n) == dec_digits(m),
    ensures
        n == m,
{
    lemma_dec_digits_val(n);
    lemma_dec_digits_val(m);
}

/// A run of `k` zero characters.
pub open spec fn zeros(k: nat) -> Seq<char>
    decreases k,
{
    if k == 0 {
        Seq::empty()
    } else {
        zeros((k - 1) as nat).push('0')
    }
}

/// `dec_digits(n)`, left-padded with zeros to at least `w` characters.
pub open spec fn zero_padded(n: nat, w: nat) -> Seq<char> {
    if dec_digits(n).len() >= w {
        dec_digits(n)
    } else {
        zeros((w - dec_digits(n).len()) as nat) + dec_digits(n)
    }
}

pub proof fn lemma_zeros_len(k: nat)
    ensures
        zeros(k).len() == k,
    decreases k,
{
    if k > 0 {
        lemma_zeros_len((k - 1) as nat);
    }
}

/// Leading zeros do not change the value a digit sequence denotes.
pub proof fn lemma_zeros_prefix_val(k: nat, s: Seq<char>)
    ensures
        digits_val(zeros(k) + s) == digits_val(s),
    decreases s.len(), k,
{
    if s.len() == 0 {
        assert(zeros(k) + s =~= zeros(k));
        if k > 0 {
            assert(zeros(k).drop_last() =~= zeros((k - 1) as nat));
            assert(zeros(k).last() == '0');
            lemma_zeros_prefix_val((k - 1) as nat, s);
            assert(zeros((k - 1) as nat) + s =~= zeros((k - 1) as nat));
        }
    } else {
        assert((zeros(k) + s).drop_last() =~= zeros(k) + s.drop_last());
        assert((zeros(k) + s).last() == s.last());
        lemma_zeros_prefix_val(k, s.drop_last());
    }
}

/// A zero-padded rendering still denotes the number itself.
pub proof fn lemma_zero_padded_val(n: nat, w: nat)
    ensures
        digits_val(zero_padded(n, w)) == n,
{
    lemma_dec_digits_val(n);
    if dec_digits(n).len() < w {
        lemma_zeros_prefix_val((w - dec_digits(n).len()) as nat, dec_digits(n));
    }
}

/// Numbers up to two digits render in at most two characters.
pub proof fn lemma_dec_len_le2(n: nat)
    requires
        n <= 99,
    ensures
        dec_digits(n).len() <= 2,
{
    if n >= 10 {
        assert(dec_digits(n) == dec_digits(n / 10).push(digit_char(n % 10)));
        assert(n / 10 < 10);
        assert(dec_digits(n / 10).len() == 1);
    }
}

/// Padding to a width at or above the digit count hits it exactly.
pub proof fn lemma_zero_padded_len(n: nat, w: nat)
    requires
        dec_digits(n).len() <= w,
    ensures
        zero_padded(n, w).len() == w,
{
    if dec_digits(n).len() < w {
        lemma_zeros_len((w - dec_digits(n).len()) as nat);
    }
}

/// A decimal rendering starts with a digit character.
pub proof fn lemma_dec_first_is_digit(n: nat)
    ensures
        is_digit(dec_digits(n)[0]),
        dec_digits(n).len() >= 1,
    decreases n,
{
    if n < 10 {
        assert(dec_digits(n)[0] == digit_char(n));
    } else {
        lemma_dec_first_is_digit(n / 10);
        assert(dec_digits(n)[0] == dec_digits(n / 10)[0]);
    }
}

/// A zero-padded rendering starts with a digit character.
pub proof fn lemma_zero_padded_first_is_digit(n: nat, w: nat)
    ensures
        is_digit(zero_padded(n, w)[0]),
{
    lemma_dec_first_is_digit(n);
    if dec_digits(n).len() < w {
        let k = (w - dec_digits(n).len()) as nat;
        lemma_zeros_len(k);
        if k > 0 {
            assert(zeros(k)[0] == '0') by {
                lemma_zeros_first(k);
            }
            assert(zero_padded(n, w)[0] == zeros(k)[0]);
        } else {
            assert(zero_padded(n, w)[0] == dec_digits(n)[0]);
        }
    }
}

proof fn lemma_zeros_first(k: nat)
    requires
        k > 0,
    ensures
        zeros(k).len() == k,
        zeros(k)[0] == '0',
    decreases k,
{
    lemma_zeros_len(k);
    if k == 1 {
        assert(zeros(1) == zeros(0).push('0'));
    } else {
        lemma_zeros_first((k - 1) as nat);
        assert(zeros(k)[0] == zeros((k - 1) as nat)[0]);
    }
}

/// A one-character string slice for the decimal digit `d`.
pub fn digit_str(d: u64) -> (r: &'static str)
    requires
        d < 10,
    ensures
        r@ == seq![digit_char(d as nat)],
{
    proof {
        reveal_strlit("0");
        reveal_strlit("1");
        reveal_strlit("2");
        reveal_strlit("3");
        reveal_strlit("4");
        reveal_strlit("5");
        reveal_strlit("6");
        reveal_strlit("7");
        reveal_strlit("8");
        reveal_strlit("9");
    }
    let r = if d == 0 {
        "0"
    } else if d == 1 {
        "1"
    } else if d == 2 {
        "2"
    } else if d == 3 {
        "3"
    } else if d == 4 {
        "4"
    } else if d == 5 {
        "5"
    } else if d == 6 {
        "6"
    } else if d == 7 {
        "7"
    } else if d == 8 {
        "8"
    } else {
        "9"
    };
    proof {
        assert(r@ =~= seq![digit_char(d as nat)]);
    }
    r
}

/// Renders `n` in decimal.
pub fn dec_string(n: u64) -> (r: String)
    ensures
        r@ == dec_digits(n as nat),
    decreases n,
{
    if n < 10 {
        let r = String::from_str(digit_str(n));
        proof {
            assert(r@ =~= dec_digits(n as nat));
        }
        r
    } else {
        let mut r = dec_string(n / 10);
        r.append(digit_str(n % 10));
        proof {
            assert(r@ =~= dec_digits(n as nat));
        }
        r
    }
}

/// Renders `n` in decimal, zero-padded to at least `w` characters.
pub fn padded_string(n: u64, w: usize) -> (r: String)
    ensures
        r@ == zero_padded(n as nat, w as nat),
{
    let digits = dec_string(n);
    let len = digits.as_str().unicode_len();
    let mut r = String::new();
    if len < w {
        let mut k: usize = 0;
        while k < w - len
            invariant
                len < w,
                k <= w - len,
                r@ == zeros(k as nat),
            decreases w - len - k,
        {
            r.append(digit_str(0));
            proof {
                assert(r@ =~= zeros((k + 1) as nat));
            }
            k = k + 1;
        }
    }
    r.append(digits.as_str());
    proof {
        assert(r@ =~= zero_padded(n as nat, w as nat));
    }
    r
}

// ---------------------------------------------------------------------------
// Lexicographic order on character sequences
// ---------------------------------------------------------------------------

/// Code-point lexicographic order: `a` is less than or equal to `b`.
pub open spec fn lex_le(a: Seq<char>, b: Seq<char>) -> bool
    decreases a.len(),
{
    if a.len() == 0 {
        true
    } else if b.len() == 0 {
        false
    } else if a[0] != b[0] {
        a[0] < b[0]
    } else {
        lex_le(a.drop_first(), b.drop_first())
    }
}

pub proof fn lemma_lex_le_connected(a: Seq<char>, b: Seq<char>)
    ensures
        lex_le(a, b) || lex_le(b, a),
    decreases a.len(),
{
    if a.len() == 0 || b.len() == 0 {
    } else if a[0] == b[0] {
        lemma_lex_le_connected(a.drop_first(), b.drop_first());
    }
}

pub proof fn lemma_lex_le_antisymmetric(a: Seq<char>, b: Seq<char>)
    requires
        lex_le(a, b),
        lex_le(b, a),
    ensures
        a == b,
    decreases a.len(),
{
    if a.len() == 0 {
        assert(b.len() == 0);
        assert(a =~= b);
    } else {
        assert(a[0] == b[0]);
        lemma_lex_le_antisymmetric(a.drop_first(), b.drop_first());
        assert(a.drop_first().len() == b.drop_first().len());
        assert(a.len() == b.len());
        assert forall|i: int| 0 <= i < a.len() implies a[i] == b[i] by {
            if i > 0 {
                assert(a.drop_first()[i - 1] == b.drop_first()[i - 1]);
            }
        }
        assert(a =~= b);
    }
}

pub proof fn lemma_lex_le_transitive(a: Seq<char>, b: Seq<char>, c: Seq<char>)
    requires
        lex_le(a, b),
        lex_le(b, c),
    ensures
        lex_le(a, c),
    decreases a.len(),
{
    if a.len() != 0 && b.len() != 0 && c.len() != 0 {
        if a[0] == b[0] && b[0] == c[0] {
            lemma_lex_le_transitive(a.drop_first(), b.drop_first(), c.drop_first());
        }
    }
}

pub proof fn lemma_lex_le_reflexive(a: Seq<char>)
    ensures
        lex_le(a, a),
    decreases a.len(),
{
    if a.len() != 0 {
        lemma_lex_le_reflexive(a.drop_first());
    }
}

/// Compares two strings in the `lex_le` order.
pub fn str_le(a: &str, b: &str) -> (r: bool)
    ensures
        r == lex_le(a@, b@),
{
    let la = a.unicode_len();
    let lb = b.unicode_len();
    let mut i: usize = 0;
    proof {
        assert(a@.skip(0) =~= a@);
        assert(b@.skip(0) =~= b@);
    }
    while i < la && i < lb
        invariant
            la == a@.len(),
            lb == b@.len(),
            i <= la,
            i <= lb,
            lex_le(a@, b@) == lex_le(a@.skip(i as int), b@.skip(i as int)),
        decreases la - i,
    {
        let ca = a.get_char(i);
        let cb = b.get_char(i);
        if ca != cb {
            return ca < cb;
        }
        proof {
            assert(a@.skip(i as int).drop_first() =~= a@.skip(i + 1));
            assert(b@.skip(i as int).drop_first() =~= b@.skip(i + 1));
        }
        i = i + 1;
    }
    proof {
        if i == la {
            assert(a@.skip(i as int).len() == 0);
        } else {
            assert(b@.skip(i as int).len() == 0);
            assert(a@.skip(i as int).len() > 0);
        }
    }
    la <= lb
}

/// String equality on views, decided through the lexicographic order.
pub fn str_eq(a: &str, b: &str) -> (r: bool)
    ensures
        r == (a@ == b@),
{
    proof {
        lemma_lex_le_connected(a@, b@);
        if lex_le(a@, b@) && lex_le(b@, a@) {
            lemma_lex_le_antisymmetric(a@, b@);
        }
        lemma_lex_le_reflexive(a@);
    }
    str_le(a, b) && str_le(b, a)
}

// ---------------------------------------------------------------------------
// Case-insensitive matching (ASCII)
// ---------------------------------------------------------------------------

/// ASCII lowercasing of one character; everything else is untouched.
pub open spec fn lower_char(c: char) -> char {
    if 'A' <= c && c <= 'Z' {
        (((c as u8) + 32) as char)
    } else {
        c
    }
}

/// Case-insensitive equality of two character sequences.
pub open spec fn ci_eq(a: Seq<char>, b: Seq<char>) -> bool {
    a.map_values(|c: char| lower_char(c)) == b.map_values(|c: char| lower_char(c))
}

/// `needle` occurs inside `hay`, ignoring ASCII case.
pub open spec fn ci_contains(hay: Seq<char>, needle: Seq<char>) -> bool {
    exists|o: int|
        0 <= o && o + needle.len() <= hay.len() && ci_eq(
            #[trigger] hay.subrange(o, o + needle.len()),
            needle,
        )
}

/// ASCII-lowercases one character.
pub fn lower_char_exec(c: char) -> (r: char)
    ensures
        r == lower_char(c),
{
    if c >= 'A' && c <= 'Z' {
        ((c as u8) + 32) as char
    } else {
        c
    }
}

/// Case-insensitive equality of two strings.
pub fn str_eq_ci(a: &str, b: &str) -> (r: bool)
    ensures
        r == ci_eq(a@, b@),
{
    let la = a.unicode_len();
    let lb = b.unicode_len();
    if la != lb {
        proof {
            assert(a@.map_values(|c: char| lower_char(c)).len() == la);
            assert(b@.map_values(|c: char| lower_char(c)).len() == lb);
        }
        return false;
    }
    let mut i: usize = 0;
    while i < la
        invariant
            la == a@.len(),
            la == b@.len(),
            i <= la,
            forall|j: int| 0 <= j < i ==> lower_char(a@[j]) == lower_char(b@[j]),
        decreases la - i,
    {
        let ca = lower_char_exec(a.get_char(i));
        let cb = lower_char_exec(b.get_char(i));
        if ca != cb {
            proof {
                assert(a@.map_values(|c: char| lower_char(c))[i as int] != b@.map_values(
                    |c: char| lower_char(c),
                )[i as int]);
            }
            return false;
        }
        i = i + 1;
    }
    proof {
        assert(a@.map_values(|c: char| lower_char(c)) =~= b@.map_values(
            |c: char| lower_char(c),
        ));
    }
    true
}

/// Whether `needle` occurs inside `hay`, ignoring ASCII case.
pub fn str_contains_ci(hay: &str, needle: &str) -> (r: bool)
    ensures
        r == ci_contains(hay@, needle@),
{
    let lh = hay.unicode_len();
    let ln = needle.unicode_len();
    if ln > lh {
        return false;
    }
    let mut o: usize = 0;
    while o <= lh - ln
        invariant
            lh == hay@.len(),
            ln == needle@.len(),
            ln <= lh,
            o <= lh - ln + 1,
            forall|p: int|
                0 <= p < o ==> !ci_eq(#[trigger] hay@.subrange(p, p + needle@.len()), needle@),
        decreases lh - ln - o + 1,
    {
        let mut k: usize = 0;
        let mut window_ok = true;
        while k < ln
            invariant
                lh == hay@.len(),
                ln == needle@.len(),
                o + ln <= lh,
                k <= ln,
                window_ok == forall|j: int|
                    0 <= j < k ==> lower_char(hay@[o + j]) == lower_char(needle@[j]),
            decreases ln - k,
        {
            let ch = lower_char_exec(hay.get_char(o + k));
            let cn = lower_char_exec(needle.get_char(k));
            if ch != cn {
                window_ok = false;
                proof {
                    assert(!(forall|j: int|
                        0 <= j < k + 1 ==> lower_char(hay@[o + j]) == lower_char(
                            needle@[j],
                        )));
                }
            }
            k = k + 1;
        }
        let ghost win = hay@.subrange(o as int, o + needle@.len());
        if window_ok {
            proof {
                assert forall|j: int| 0 <= j < win.len() implies lower_char(win[j])
                    == lower_char(needle@[j]) by {
                    assert(win[j] == hay@[o + j]);
                }
                assert(win.map_values(|c: char| lower_char(c)) =~= needle@.map_values(
                    |c: char| lower_char(c),
                ));
            }
            return true;
        }
        proof {
            let bad = choose|j: int|
                0 <= j < ln && lower_char(hay@[o + j]) != lower_char(needle@[j]);
            assert(win[bad] == hay@[o + bad]);
            assert(win.map_values(|c: char| lower_char(c))[bad] != needle@.map_values(
                |c: char| lower_char(c),
            )[bad]);
        }
        o = o + 1;
    }
    false
}

// ---------------------------------------------------------------------------
// Splitting a file name at its final dot
// ---------------------------------------------------------------------------

/// The index of the final `.` in `s`, if any.
pub open spec fn last_dot(s: Seq<char>) -> Option<int>
    decreases s.len(),
{
    if s.len() == 0 {
        None
    } else if s.last() == '.' {
        Some(s.len() - 1)
    } else {
        last_dot(s.drop_last())
    }
}

/// Everything before the final dot, or the whole name when it has none.
pub open spec fn stem_chars(s: Seq<char>) -> Seq<char> {
    match last_dot(s) {
        Some(d) => s.subrange(0, d),
        None => s,
    }
}

/// Everything after the final dot; empty when the name has none.
pub open spec fn ext_chars(s: Seq<char>) -> Seq<char> {
    match last_dot(s) {
        Some(d) => s.subrange(d + 1, s.len() as int),
        None => Seq::empty(),
    }
}

pub proof fn lemma_last_dot_in_range(s: Seq<char>)
    ensures
        match last_dot(s) {
            Some(d) => 0 <= d < s.len() && s[d] == '.',
            None => true,
        },
    decreases s.len(),
{
    if s.len() != 0 && s.last() != '.' {
        lemma_last_dot_in_range(s.drop_last());
    }
}

/// Finds the final dot of `s`, agreeing with [`last_dot`].
pub fn find_last_dot(s: &str) -> (r: Option<usize>)
    ensures
        match r {
            Some(i) => last_dot(s@) == Some(i as int),
            None => last_dot(s@) is None,
        },
{
    let n = s.unicode_len();
    let mut i: usize = n;
    proof {
        assert(s@.take(n as int) =~= s@);
    }
    while i > 0
        invariant
            n == s@.len(),
            i <= n,
            last_dot(s@) == last_dot(s@.take(i as int)),
        decreases i,
    {
        let c = s.get_char(i - 1);
        proof {
            assert(s@.take(i as int).last() == s@[i - 1]);
            assert(s@.take(i as int).drop_last() =~= s@.take(i - 1));
        }
        if c == '.' {
            return Some(i - 1);
        }
        i = i - 1;
    }
    proof {
        assert(s@.take(0).len() == 0);
    }
    None
}

} // verus!
