//! Text handling for kernel statistics: splitting a line into
//! whitespace-separated words, reading unsigned decimal numbers and
//! writing them back.

use vstd::prelude::*;
use vstd::string::StringExecFns;

verus! {

/// The Unicode `White_Space` property, the set of characters that
/// `char::is_whitespace` accepts.
pub open spec fn is_space(c: char) -> bool {
    let u = c as u32;
    ||| 0x09 <= u <= 0x0D
    ||| u == 0x20
    ||| u == 0x85
    ||| u == 0xA0
    ||| u == 0x1680
    ||| 0x2000 <= u <= 0x200A
    ||| u == 0x2028
    ||| u == 0x2029
    ||| u == 0x202F
    ||| u == 0x205F
    ||| u == 0x3000
}

/// Number of characters before the first whitespace character (or the end).
pub open spec fn run_len(s: Seq<char>) -> nat
    decreases s.len(),
{
    if s.len() == 0 || is_space(s[0]) {
        0
    } else {
        1 + run_len(s.drop_first())
    }
}

pub proof fn lemma_run_len_bounded(s: Seq<char>)
    ensures
        run_len(s) <= s.len(),
        s.len() > 0 && !is_space(s[0]) ==> run_len(s) >= 1,
    decreases s.len(),
{
    if s.len() > 0 && !is_space(s[0]) {
        lemma_run_len_bounded(s.drop_first());
    }
}

/// The maximal runs of non-whitespace characters of `s`, in order: what
/// `str::split_whitespace` yields.
pub open spec fn words(s: Seq<char>) -> Seq<Seq<char>>
    decreases s.len(),
{
    if s.len() == 0 {
        seq![]
    } else if is_space(s[0]) {
        words(s.drop_first())
    } else {
        proof {
            lemma_run_len_bounded(s);
        }
        let n = run_len(s) as int;
        seq![s.take(n)] + words(s.skip(n))
    }
}

/// The character sequences held by a vector of character vectors.
pub open spec fn views(v: Seq<Vec<char>>) -> Seq<Seq<char>> {
    v.map_values(|w: Vec<char>| w@)
}

proof fn lemma_run_len_of(s: Seq<char>, i: int, j: int)
    requires
        0 <= i <= j <= s.len(),
        forall|k: int| i <= k < j ==> !is_space(#[trigger] s[k]),
        j == s.len() || is_space(s[j]),
    ensures
        run_len(s.skip(i)) == j - i,
    decreases j - i,
{
    if i == j {
        if j < s.len() {
            assert(s.skip(i)[0] == s[j]);
        }
    } else {
        lemma_run_len_of(s, i + 1, j);
        assert(s.skip(i).drop_first() =~= s.skip(i + 1));
        assert(s.skip(i)[0] == s[i]);
    }
}

proof fn lemma_words_skip_space(s: Seq<char>, i: int)
    requires
        0 <= i < s.len(),
        is_space(s[i]),
    ensures
        words(s.skip(i)) == words(s.skip(i + 1)),
{
    let t = s.skip(i);
    assert(t[0] == s[i]);
    assert(t.drop_first() =~= s.skip(i + 1));
}

proof fn lemma_words_take_run(s: Seq<char>, i: int, j: int)
    requires
        0 <= i < j <= s.len(),
        forall|k: int| i <= k < j ==> !is_space(#[trigger] s[k]),
        j == s.len() || is_space(s[j]),
    ensures
        words(s.skip(i)) == seq![s.subrange(i, j)] + words(s.skip(j)),
{
    lemma_run_len_of(s, i, j);
    let t = s.skip(i);
    assert(t[0] == s[i]);
    assert(t.take(j - i) =~= s.subrange(i, j));
    assert(t.skip(j - i) =~= s.skip(j));
}

proof fn lemma_run_len_props(s: Seq<char>)
    ensures
        run_len(s) <= s.len(),
        forall|k: int| 0 <= k < run_len(s) ==> !is_space(#[trigger] s[k]),
        run_len(s) == s.len() || is_space(s[run_len(s) as int]),
    decreases s.len(),
{
    if s.len() > 0 && !is_space(s[0]) {
        let t = s.drop_first();
        lemma_run_len_props(t);
        assert forall|k: int| 0 <= k < run_len(s) implies !is_space(#[trigger] s[k]) by {
            if k > 0 {
                assert(s[k] == t[k - 1]);
            }
        }
        if run_len(t) < t.len() {
            assert(s[run_len(s) as int] == t[run_len(t) as int]);
        }
    }
}

/// Every word is non-empty and holds no whitespace character.
pub proof fn lemma_words_shape(s: Seq<char>)
    ensures
        forall|k: int|
            0 <= k < words(s).len() ==> (#[trigger] words(s)[k]).len() > 0 && forall|j: int|
                0 <= j < words(s)[k].len() ==> !is_space(#[trigger] words(s)[k][j]),
    decreases s.len(),
{
    if s.len() > 0 {
        if is_space(s[0]) {
            lemma_words_shape(s.drop_first());
            assert(words(s) == words(s.drop_first()));
        } else {
            lemma_run_len_props(s);
            lemma_run_len_bounded(s);
            let n = run_len(s) as int;
            lemma_words_shape(s.skip(n));
            assert(words(s) == seq![s.take(n)] + words(s.skip(n)));
            assert forall|k: int| 0 <= k < words(s).len() implies (#[trigger] words(s)[k]).len() > 0
                && forall|j: int|
                0 <= j < words(s)[k].len() ==> !is_space(#[trigger] words(s)[k][j]) by {
                if k == 0 {
                    assert(words(s)[0] == s.take(n));
                    assert forall|j: int| 0 <= j < words(s)[0].len() implies !is_space(
                        #[trigger] words(s)[0][j],
                    ) by {
                        assert(words(s)[0][j] == s[j]);
                    }
                } else {
                    assert(words(s)[k] == words(s.skip(n))[k - 1]);
                }
            }
        }
    }
}

/// Splitting at a whitespace character: the words of `a`, a whitespace
/// character, then `b`, are the words of `a` followed by the words of `b`.
pub proof fn lemma_words_split_at_space(a: Seq<char>, c: char, b: Seq<char>)
    requires
        is_space(c),
    ensures
        words(a + seq![c] + b) == words(a) + words(b),
    decreases a.len(),
{
    let s = a + seq![c] + b;
    if a.len() == 0 {
        assert(s.drop_first() =~= b);
        assert(words(a) =~= Seq::<Seq<char>>::empty());
        assert(words(a) + words(b) =~= words(b));
    } else if is_space(a[0]) {
        assert(s[0] == a[0]);
        assert(s.drop_first() =~= a.drop_first() + seq![c] + b);
        lemma_words_split_at_space(a.drop_first(), c, b);
    } else {
        lemma_run_len_props(a);
        let r = run_len(a) as int;
        assert(s[0] == a[0]);
        assert forall|k: int| 0 <= k < r implies !is_space(#[trigger] s[k]) by {
            assert(s[k] == a[k]);
        }
        if r < a.len() {
            assert(s[r] == a[r]);
        } else {
            assert(s[r] == c);
        }
        lemma_run_len_of(s, 0, r);
        assert(s.skip(0) =~= s);
        lemma_run_len_bounded(a);
        assert(s.take(r) =~= a.take(r));
        assert(s.skip(r) =~= a.skip(r) + seq![c] + b);
        lemma_words_split_at_space(a.skip(r), c, b);
        assert(words(s) =~= seq![a.take(r)] + (words(a.skip(r)) + words(b)));
        assert(words(a) =~= seq![a.take(r)] + words(a.skip(r)));
        assert(words(s) =~= words(a) + words(b));
    }
}

/// A non-empty string without whitespace is a single word.
pub proof fn lemma_single_word(s: Seq<char>)
    requires
        s.len() > 0,
        forall|k: int| 0 <= k < s.len() ==> !is_space(#[trigger] s[k]),
    ensures
        words(s) == seq![s],
{
    lemma_run_len_of(s, 0, s.len() as int);
    assert(s.skip(0) =~= s);
    assert(s.take(s.len() as int) =~= s);
    assert(s.skip(s.len() as int) =~= Seq::<char>::empty());
    assert(words(s.skip(s.len() as int)) =~= Seq::<Seq<char>>::empty());
    assert(words(s) =~= seq![s]);
}

/// Whether `c` is a whitespace character.
pub fn is_space_char(c: char) -> (b: bool)
    ensures
        b == is_space(c),
{
    let u = c as u32;
    (0x09 <= u && u <= 0x0D) || u == 0x20 || u == 0x85 || u == 0xA0 || u == 0x1680 || (0x2000
        <= u && u <= 0x200A) || u == 0x2028 || u == 0x2029 || u == 0x202F || u == 0x205F || u
        == 0x3000
}

/// The first `limit` words of `s` (all of them when there are fewer).
pub fn first_words(s: &Vec<char>, limit: usize) -> (res: Vec<Vec<char>>)
    ensures
        res.len() <= limit,
        res.len() <= words(s@).len(),
        views(res@) == words(s@).take(res.len() as int),
        res.len() < limit ==> res.len() == words(s@).len(),
{
    let n = s.len();
    let mut out: Vec<Vec<char>> = Vec::new();
    let mut i: usize = 0;
    assert(s@.skip(0) =~= s@);
    while i < n && out.len() < limit
        invariant
            n == s@.len(),
            i <= n,
            out.len() <= limit,
            out.len() <= words(s@).len(),
            words(s@) == views(out@) + words(s@.skip(i as int)),
        decreases n - i,
    {
        if is_space_char(s[i]) {
            proof {
                lemma_words_skip_space(s@, i as int);
            }
            i += 1;
        } else {
            let mut w: Vec<char> = Vec::new();
            let mut j = i;
            while j < n && !is_space_char(s[j])
                invariant
                    i <= j <= n,
                    n == s@.len(),
                    w@ == s@.subrange(i as int, j as int),
                    forall|k: int| i <= k < j ==> !is_space(#[trigger] s@[k]),
                decreases n - j,
            {
                w.push(s[j]);
                j += 1;
            }
            proof {
                lemma_words_take_run(s@, i as int, j as int);
                assert(views(out@.push(w)) =~= views(out@) + seq![w@]);
            }
            out.push(w);
            i = j;
        }
    }
    proof {
        if i == n {
            assert(s@.skip(n as int) =~= Seq::<char>::empty());
            assert(words(s@) =~= views(out@));
        }
        assert(views(out@) =~= words(s@).take(out.len() as int));
    }
    out
}

/// The characters of `s`, in order.
pub fn chars_of(s: &str) -> (v: Vec<char>)
    ensures
        v@ == s@,
{
    let mut v: Vec<char> = Vec::new();
    for c in it: s.chars()
        invariant
            v.len() == it.index(),
            forall|k: int| 0 <= k < v.len() ==> v@[k] == it.seq()[k],
    {
        v.push(c);
    }
    assert(v@ =~= s@);
    v
}

/// Whether `c` is one of the ASCII digits `0` to `9`.
pub open spec fn is_digit(c: char) -> bool {
    48 <= (c as u32) <= 57
}

pub open spec fn digit_value(c: char) -> nat {
    ((c as u32) - 48) as nat
}

pub open spec fn all_digits(s: Seq<char>) -> bool {
    forall|i: int| 0 <= i < s.len() ==> is_digit(#[trigger] s[i])
}

/// The number that the decimal digits `s` write, most significant first.
pub open spec fn digits_value(s: Seq<char>) -> nat
    decreases s.len(),
{
    if s.len() == 0 {
        0
    } else {
        digits_value(s.drop_last()) * 10 + digit_value(s.last())
    }
}

/// `w` without one leading `+` sign, if it has one.
pub open spec fn unsigned_digits(w: Seq<char>) -> Seq<char> {
    if w.len() > 0 && w[0] == '+' {
        w.drop_first()
    } else {
        w
    }
}

/// What `u64::from_str` gives for `w`: an optional `+`, then at least one
/// decimal digit and nothing else, and a value that fits in 64 bits.
pub open spec fn parse_u64_spec(w: Seq<char>) -> Option<u64> {
    let d = unsigned_digits(w);
    if d.len() > 0 && all_digits(d) && digits_value(d) <= u64::MAX {
        Some(digits_value(d) as u64)
    } else {
        None
    }
}

/// The character of the decimal digit `d`.
pub open spec fn digit_char(d: nat) -> char {
    (48 + d) as char
}

/// The decimal representation of `n`, without sign or leading zeros.
pub open spec fn decimal(n: nat) -> Seq<char>
    decreases n,
{
    if n < 10 {
        seq![digit_char(n)]
    } else {
        decimal(n / 10).push(digit_char(n % 10))
    }
}

proof fn lemma_digits_value_prefix(s: Seq<char>, k: int)
    requires
        0 <= k <= s.len(),
    ensures
        digits_value(s.take(k)) <= digits_value(s),
    decreases s.len() - k,
{
    if k < s.len() {
        lemma_digits_value_prefix(s.drop_last(), k);
        assert(s.drop_last().take(k) =~= s.take(k));
    } else {
        assert(s.take(k) =~= s);
    }
}

/// Whether `c` is an ASCII decimal digit.
pub fn is_digit_char(c: char) -> (b: bool)
    ensures
        b == is_digit(c),
{
    let u = c as u32;
    48 <= u && u <= 57
}

/// Reads `w` as an unsigned 64-bit decimal number, as `u64::from_str` does.
pub fn parse_u64(w: &Vec<char>) -> (res: Option<u64>)
    ensures
        res == parse_u64_spec(w@),
{
    let n = w.len();
    let mut start: usize = 0;
    if n > 0 && w[0] == '+' {
        start = 1;
    }
    let ghost d = unsigned_digits(w@);
    assert(d =~= w@.skip(start as int));
    if start == n {
        return None;
    }
    let mut acc: u64 = 0;
    let mut i: usize = start;
    assert(d.take(0) =~= Seq::<char>::empty());
    while i < n
        invariant
            start <= i <= n,
            n == w@.len(),
            d =~= w@.skip(start as int),
            d == unsigned_digits(w@),
            all_digits(d.take(i - start)),
            acc == digits_value(d.take(i - start)),
        decreases n - i,
    {
        let c = w[i];
        assert(d[i - start] == w@[i as int]);
        if !is_digit_char(c) {
            assert(!is_digit(d[i - start]));
            assert(!all_digits(d));
            return None;
        }
        let dv = (c as u32 - 48) as u64;
        let ghost k = i - start;
        assert(d.take(k + 1).drop_last() =~= d.take(k));
        assert(d.take(k + 1).last() == c);
        if acc > (u64::MAX - dv) / 10 {
            proof {
                assert(acc * 10 + dv > u64::MAX) by (nonlinear_arith)
                    requires
                        acc > (u64::MAX - dv) / 10,
                        dv <= 9,
                ;
                assert(digits_value(d.take(k + 1)) == acc * 10 + dv);
                if all_digits(d) {
                    lemma_digits_value_prefix(d, k + 1);
                }
            }
            return None;
        }
        assert(acc * 10 + dv <= u64::MAX) by (nonlinear_arith)
            requires
                acc <= (u64::MAX - dv) / 10,
                dv <= 9,
        ;
        acc = acc * 10 + dv;
        i += 1;
        assert(all_digits(d.take(i - start))) by {
            assert forall|j: int| 0 <= j < d.take(i - start).len() implies is_digit(
                #[trigger] d.take(i - start)[j],
            ) by {
                if j < k {
                    assert(d.take(i - start)[j] == d.take(k)[j]);
                }
            }
        }
    }
    assert(d.take(n - start) =~= d);
    Some(acc)
}

pub proof fn lemma_decimal_digits(n: nat)
    ensures
        decimal(n).len() > 0,
        all_digits(decimal(n)),
        digits_value(decimal(n)) == n,
    decreases n,
{
    let c = digit_char(if n < 10 { n } else { n % 10 });
    assert(((48 + (if n < 10 { n } else { n % 10 })) as char) as u32 == 48 + (if n < 10 { n } else { n % 10 }));
    assert(digit_value(c) == if n < 10 { n } else { n % 10 });
    if n < 10 {
        assert(decimal(n).drop_last() =~= Seq::<char>::empty());
        assert(digits_value(Seq::<char>::empty()) == 0);
    } else {
        lemma_decimal_digits(n / 10);
        assert(decimal(n).drop_last() =~= decimal(n / 10));
        assert(decimal(n).last() == c);
        assert(n == (n / 10) * 10 + n % 10) by (nonlinear_arith);
    }
}

/// Reading back what `decimal` writes gives the number that was written.
pub proof fn lemma_parse_decimal(n: u64)
    ensures
        parse_u64_spec(decimal(n as nat)) == Some(n),
{
    lemma_decimal_digits(n as nat);
    assert(is_digit(decimal(n as nat)[0]));
}

/// The decimal representation of `n` is a non-empty string of digits
/// whose value is `n` and which has no leading zero (only `0` itself starts
/// with the digit zero); it is one character long exactly when `n < 10`.
pub proof fn lemma_decimal_canonical(n: nat)
    ensures
        decimal(n).len() > 0,
        all_digits(decimal(n)),
        digits_value(decimal(n)) == n,
        decimal(n).len() > 1 ==> decimal(n)[0] != '0',
        decimal(n).len() == 1 <==> n < 10,
    decreases n,
{
    lemma_decimal_digits(n);
    if n >= 10 {
        lemma_decimal_canonical(n / 10);
        assert(decimal(n)[0] == decimal(n / 10)[0]);
        if n / 10 < 10 {
            assert(decimal(n / 10)[0] == digit_char(n / 10));
            assert(((48 + n / 10) as char) as u32 == 48 + n / 10);
        }
    }
}

/// Distinct numbers have distinct decimal representations.
pub proof fn lemma_decimal_injective(a: nat, b: nat)
    requires
        decimal(a) == decimal(b),
    ensures
        a == b,
{
    lemma_decimal_digits(a);
    lemma_decimal_digits(b);
}

fn digit_str(d: u64) -> (s: &'static str)
    requires
        d < 10,
    ensures
        s@ == seq![digit_char(d as nat)],
{
    proof {
        reveal_strlit("0");
        reveal_strlit("1");
        reveal_strlit("2");
        reveal_strlit("3");
        reveal_strlit("4");
        reveal_strlit("5");
        reveal_strlit("6");
        reveal_strlit("7");
        reveal_strlit("8");
        reveal_strlit("9");
    }
    let s = if d == 0 {
        "0"
    } else if d == 1 {
        "1"
    } else if d == 2 {
        "2"
    } else if d == 3 {
        "3"
    } else if d == 4 {
        "4"
    } else if d == 5 {
        "5"
    } else if d == 6 {
        "6"
    } else if d == 7 {
        "7"
    } else if d == 8 {
        "8"
    } else {
        "9"
    };
    assert(s@ =~= seq![digit_char(d as nat)]);
    s
}

/// Appends the decimal representation of `n` to `out`.
pub fn push_decimal(out: &mut String, n: u64)
    ensures
        final(out)@ == old(out)@ + decimal(n as nat),
    decreases n,
{
    if n >= 10 {
        push_decimal(out, n / 10);
    }
    out.append(digit_str(n % 10));
    proof {
        if n >= 10 {
            assert(old(out)@ + decimal(n as nat) =~= old(out)@ + decimal((n / 10) as nat) + seq![
                digit_char((n % 10) as nat),
            ]);
        } else {
            assert(decimal(n as nat) =~= seq![digit_char(n as nat)]);
        }
    }
}

/// The decimal representation of `n`, as `n.to_string()` writes it.
pub fn decimal_string(n: u64) -> (s: String)
    ensures
        s@ == decimal(n as nat),
{
    let mut s = String::new();
    push_decimal(&mut s, n);
    assert(s@ =~= decimal(n as nat));
    s
}

} // verus!
