//! Character-level string utilities with exact specifications over `Seq<char>`.

use vstd::prelude::*;

verus! {

/// `String::push` appends one character to the end of the string.
pub assume_specification[ String::push ](s: &mut String, ch: char)
    ensures
        final(s)@ == old(s)@.push(ch),
;

/// The view of an optional string.
pub open spec fn opt_text(o: Option<String>) -> Option<Seq<char>> {
    match o {
        Some(s) => Some(s@),
        None => None,
    }
}

/// `pat` occurs in `s` starting at index `i`.
pub open spec fn occurs_at(s: Seq<char>, pat: Seq<char>, i: int) -> bool {
    0 <= i && i + pat.len() <= s.len() && s.subrange(i, i + pat.len()) == pat
}

/// `pat` occurs somewhere in `s` (as `str::contains` with a string pattern).
pub open spec fn has_substring(s: Seq<char>, pat: Seq<char>) -> bool {
    exists|i: int| occurs_at(s, pat, i)
}

/// `s` with every occurrence of `pat` replaced by `rep`, occurrences taken
/// from the left and not overlapping (as `str::replace` with a non-empty pattern).
pub open spec fn replaced(s: Seq<char>, pat: Seq<char>, rep: Seq<char>) -> Seq<char>
    decreases s.len(),
{
    if s.len() == 0 {
        s
    } else if pat.len() > 0 && occurs_at(s, pat, 0) {
        rep + replaced(s.skip(pat.len() as int), pat, rep)
    } else {
        seq![s[0]] + replaced(s.skip(1), pat, rep)
    }
}

/// `s` with every occurrence of the character `c` removed.
pub open spec fn without(s: Seq<char>, c: char) -> Seq<char>
    decreases s.len(),
{
    if s.len() == 0 {
        s
    } else if s.last() == c {
        without(s.drop_last(), c)
    } else {
        without(s.drop_last(), c).push(s.last())
    }
}

/// The decimal digit character for `d < 10`.
pub open spec fn digit_char(d: nat) -> char {
    if d == 0 { '0' }
    else if d == 1 { '1' }
    else if d == 2 { '2' }
    else if d == 3 { '3' }
    else if d == 4 { '4' }
    else if d == 5 { '5' }
    else if d == 6 { '6' }
    else if d == 7 { '7' }
    else if d == 8 { '8' }
    else { '9' }
}

/// The value of a decimal digit character (meaningful for `'0'..='9'`).
pub open spec fn digit_value(c: char) -> nat {
    if c == '1' { 1 }
    else if c == '2' { 2 }
    else if c == '3' { 3 }
    else if c == '4' { 4 }
    else if c == '5' { 5 }
    else if c == '6' { 6 }
    else if c == '7' { 7 }
    else if c == '8' { 8 }
    else if c == '9' { 9 }
    else { 0 }
}

/// `c` is one of `'0'..='9'`.
pub open spec fn is_digit(c: char) -> bool {
    '0' <= c && c <= '9'
}

/// Every character of `s` is a decimal digit.
pub open spec fn all_digits(s: Seq<char>) -> bool {
    forall|i: int| 0 <= i < s.len() ==> is_digit(#[trigger] s[i])
}

/// The usual decimal notation of `n`, without leading zeros (`"0"` for zero).
pub open spec fn decimal(n: nat) -> Seq<char>
    decreases n,
{
    if n < 10 {
        seq![digit_char(n)]
    } else {
        decimal(n / 10).push(digit_char(n % 10))
    }
}

/// The number that the digit string `s` denotes in base ten.
pub open spec fn digits_value(s: Seq<char>) -> nat
    decreases s.len(),
{
    if s.len() == 0 {
        0
    } else {
        digits_value(s.drop_last()) * 10 + digit_value(s.last())
    }
}

/// `s` padded on the left with `c` up to `width` characters (as the `{:0>w}`
/// family of format specifiers do).
pub open spec fn pad_left(s: Seq<char>, width: nat, c: char) -> Seq<char> {
    if s.len() >= width {
        s
    } else {
        Seq::new((width - s.len()) as nat, |i: int| c) + s
    }
}

/// Ten to the power `m`.
pub open spec fn pow10(m: nat) -> nat
    decreases m,
{
    if m == 0 { 1 } else { 10 * pow10((m - 1) as nat) }
}

proof fn lemma_digit_roundtrip(d: nat)
    requires
        d < 10,
    ensures
        digit_value(digit_char(d)) == d,
        is_digit(digit_char(d)),
{
}

/// Appending a digit multiplies the value by ten and adds the digit.
pub proof fn lemma_digits_value_push(s: Seq<char>, c: char)
    ensures
        digits_value(s.push(c)) == digits_value(s) * 10 + digit_value(c),
{
    assert(s.push(c).drop_last() == s);
}

/// The decimal notation of `n` is a non-empty digit string denoting `n`.
pub proof fn lemma_decimal(n: nat)
    ensures
        digits_value(decimal(n)) == n,
        all_digits(decimal(n)),
        decimal(n).len() >= 1,
    decreases n,
{
    if n < 10 {
        lemma_digit_roundtrip(n);
        assert(seq![digit_char(n)].drop_last() =~= Seq::<char>::empty());
        assert(digits_value(Seq::<char>::empty()) == 0);
        assert(digits_value(seq![digit_char(n)]) == 0 * 10 + digit_value(digit_char(n)));
    } else {
        lemma_decimal(n / 10);
        lemma_digit_roundtrip(n % 10);
        lemma_digits_value_push(decimal(n / 10), digit_char(n % 10));
        assert(n == (n / 10) * 10 + n % 10);
        let d = decimal(n);
        assert forall|i: int| 0 <= i < d.len() implies is_digit(#[trigger] d[i]) by {
            if i < d.len() - 1 {
                assert(d[i] == decimal(n / 10)[i]);
            }
        }
    }
}

/// A number below `10^m` (with `m >= 1`) has at most `m` decimal digits.
pub proof fn lemma_decimal_len(n: nat, m: nat)
    requires
        m >= 1,
        n < pow10(m),
    ensures
        decimal(n).len() <= m,
    decreases n,
{
    if n >= 10 {
        assert(m >= 2) by {
            if m == 1 {
                assert(pow10(1) == 10 * pow10(0));
            }
        }
        assert(pow10(m) == 10 * pow10((m - 1) as nat));
        lemma_decimal_len(n / 10, (m - 1) as nat);
    }
}

/// `a` comes strictly before `b` in lexicographic order (as `str` ordering
/// compares ASCII text).
pub open spec fn lex_less(a: Seq<char>, b: Seq<char>) -> bool
    decreases a.len(),
{
    if a.len() == 0 {
        b.len() > 0
    } else if b.len() == 0 {
        false
    } else if a[0] != b[0] {
        a[0] < b[0]
    } else {
        lex_less(a.skip(1), b.skip(1))
    }
}

/// The value of a digit string, read from its first digit.
pub proof fn lemma_digits_value_front(s: Seq<char>)
    requires
        s.len() > 0,
    ensures
        digits_value(s) == digit_value(s[0]) * pow10((s.len() - 1) as nat) + digits_value(s.skip(1)),
    decreases s.len(),
{
    if s.len() == 1 {
        assert(s.drop_last().len() == 0);
        assert(s.skip(1).len() == 0);
        assert(pow10(0) == 1);
        assert(digits_value(s.drop_last()) == 0);
        assert(digits_value(s.skip(1)) == 0);
        assert(s.last() == s[0]);
        assert(digits_value(s) == digit_value(s[0]));
    } else {
        let dl = s.drop_last();
        lemma_digits_value_front(dl);
        assert(dl.skip(1) =~= s.skip(1).drop_last());
        assert(s.skip(1).last() == s.last());
        let p = pow10((s.len() - 2) as nat);
        assert(pow10((s.len() - 1) as nat) == 10 * p);
        let d0 = digit_value(s[0]);
        let t = digits_value(dl.skip(1));
        assert(dl[0] == s[0]);
        assert(digits_value(dl) == d0 * p + t);
        assert(digits_value(s.skip(1)) == t * 10 + digit_value(s.last()));
        assert(digits_value(s) == digits_value(dl) * 10 + digit_value(s.last()));
        assert((d0 * p + t) * 10 == d0 * (10 * p) + t * 10) by (nonlinear_arith);
    }
}

/// A digit string of length `n` denotes less than `10^n`.
pub proof fn lemma_digits_value_bound(s: Seq<char>)
    ensures
        digits_value(s) < pow10(s.len()),
    decreases s.len(),
{
    if s.len() > 0 {
        lemma_digits_value_bound(s.drop_last());
        assert(pow10(s.len()) == 10 * pow10((s.len() - 1) as nat));
        assert(digit_value(s.last()) <= 9);
    }
}

proof fn lemma_digit_order(c1: char, c2: char)
    requires
        is_digit(c1),
        is_digit(c2),
    ensures
        c1 < c2 <==> digit_value(c1) < digit_value(c2),
        c1 == c2 <==> digit_value(c1) == digit_value(c2),
{
}

/// Among digit strings of one length, the smaller number comes first in
/// lexicographic order.
pub proof fn lemma_lex_less_of_value(a: Seq<char>, b: Seq<char>)
    requires
        a.len() == b.len(),
        all_digits(a),
        all_digits(b),
        digits_value(a) < digits_value(b),
    ensures
        lex_less(a, b),
    decreases a.len(),
{
    if a.len() == 0 {
        assert(digits_value(a) == 0 && digits_value(b) == 0);
    } else {
        lemma_digits_value_front(a);
        lemma_digits_value_front(b);
        lemma_digit_order(a[0], b[0]);
        let p = pow10((a.len() - 1) as nat);
        let da = digit_value(a[0]);
        let db = digit_value(b[0]);
        let ta = digits_value(a.skip(1));
        let tb = digits_value(b.skip(1));
        lemma_digits_value_bound(b.skip(1));
        assert(all_digits(a.skip(1))) by {
            assert forall|i: int| 0 <= i < a.skip(1).len() implies is_digit(#[trigger] a.skip(1)[i]) by {
                assert(a.skip(1)[i] == a[i + 1]);
            }
        }
        assert(all_digits(b.skip(1))) by {
            assert forall|i: int| 0 <= i < b.skip(1).len() implies is_digit(#[trigger] b.skip(1)[i]) by {
                assert(b.skip(1)[i] == b[i + 1]);
            }
        }
        if da > db {
            assert(da * p + ta >= db * p + p) by (nonlinear_arith)
                requires
                    da >= db + 1,
                    ta >= 0,
                    p >= 0,
            ;
            assert(false);
        } else if da == db {
            assert(a[0] == b[0]);
            lemma_lex_less_of_value(a.skip(1), b.skip(1));
        }
    }
}

/// Leading zeros do not change the value of a digit string.
pub proof fn lemma_leading_zeros(k: nat, s: Seq<char>)
    ensures
        digits_value(Seq::new(k, |i: int| '0') + s) == digits_value(s),
    decreases s.len(), k,
{
    let z = Seq::new(k, |i: int| '0');
    if s.len() == 0 {
        assert(z + s =~= z);
        if k > 0 {
            assert(z.drop_last() =~= Seq::new((k - 1) as nat, |i: int| '0'));
            lemma_leading_zeros((k - 1) as nat, s);
            assert(Seq::new((k - 1) as nat, |i: int| '0') + s =~= Seq::new((k - 1) as nat, |i: int| '0'));
        }
    } else {
        assert((z + s).drop_last() =~= z + s.drop_last());
        lemma_leading_zeros(k, s.drop_last());
    }
}

/// Removing every `c` from a string with no `c` changes nothing.
pub proof fn lemma_without_absent(s: Seq<char>, c: char)
    requires
        !s.contains(c),
    ensures
        without(s, c) == s,
    decreases s.len(),
{
    if s.len() > 0 {
        assert(!s.drop_last().contains(c)) by {
            if s.drop_last().contains(c) {
                let i = choose|i: int| 0 <= i < s.drop_last().len() && s.drop_last()[i] == c;
                assert(s[i] == c);
            }
        }
        lemma_without_absent(s.drop_last(), c);
        assert(s.drop_last().push(s.last()) =~= s);
    }
}

/// What remains after removing every `c` holds no `c`.
pub proof fn lemma_without_removes(s: Seq<char>, c: char)
    ensures
        !without(s, c).contains(c),
    decreases s.len(),
{
    if s.len() > 0 {
        lemma_without_removes(s.drop_last(), c);
        let w = without(s.drop_last(), c);
        if s.last() != c {
            assert forall|i: int| 0 <= i < w.push(s.last()).len() implies w.push(s.last())[i] != c by {
                if i < w.len() {
                    assert(w.push(s.last())[i] == w[i]);
                }
            }
        }
    }
}

/// `t` is `s` with some (possibly none, possibly all) of its `c` characters deleted.
pub open spec fn is_deletion_of(t: Seq<char>, s: Seq<char>, c: char) -> bool
    decreases s.len(),
{
    if s.len() == 0 {
        t.len() == 0
    } else {
        (t.len() > 0 && t.last() == s.last() && is_deletion_of(t.drop_last(), s.drop_last(), c))
            || (s.last() == c && is_deletion_of(t, s.drop_last(), c))
    }
}

/// Deleting nothing is a deletion.
pub proof fn lemma_deletion_reflexive(s: Seq<char>, c: char)
    ensures
        is_deletion_of(s, s, c),
    decreases s.len(),
{
    if s.len() > 0 {
        lemma_deletion_reflexive(s.drop_last(), c);
    }
}

/// Removing every `c` is a deletion of `c` characters.
pub proof fn lemma_without_is_deletion(s: Seq<char>, c: char)
    ensures
        is_deletion_of(without(s, c), s, c),
    decreases s.len(),
{
    if s.len() > 0 {
        lemma_without_is_deletion(s.drop_last(), c);
        if s.last() != c {
            assert(without(s, c).drop_last() == without(s.drop_last(), c));
        }
    }
}

/// Deletions of two parts make a deletion of the whole.
pub proof fn lemma_deletion_concat(t1: Seq<char>, s1: Seq<char>, t2: Seq<char>, s2: Seq<char>, c: char)
    requires
        is_deletion_of(t1, s1, c),
        is_deletion_of(t2, s2, c),
    ensures
        is_deletion_of(t1 + t2, s1 + s2, c),
    decreases s2.len(),
{
    if s2.len() == 0 {
        assert(t1 + t2 =~= t1);
        assert(s1 + s2 =~= s1);
    } else {
        assert((s1 + s2).drop_last() =~= s1 + s2.drop_last());
        assert((s1 + s2).last() == s2.last());
        if t2.len() > 0 && t2.last() == s2.last() && is_deletion_of(t2.drop_last(), s2.drop_last(), c) {
            lemma_deletion_concat(t1, s1, t2.drop_last(), s2.drop_last(), c);
            assert((t1 + t2).drop_last() =~= t1 + t2.drop_last());
            assert((t1 + t2).last() == t2.last());
        } else {
            lemma_deletion_concat(t1, s1, t2, s2.drop_last(), c);
        }
    }
}

/// Replacing a pattern that does not occur changes nothing.
pub proof fn replacing_absent_pattern_is_identity(s: Seq<char>, pat: Seq<char>, rep: Seq<char>)
    requires
        !has_substring(s, pat),
    ensures
        replaced(s, pat, rep) == s,
    decreases s.len(),
{
    if s.len() > 0 {
        assert(!occurs_at(s, pat, 0));
        assert(!has_substring(s.skip(1), pat)) by {
            if has_substring(s.skip(1), pat) {
                let i = choose|i: int| occurs_at(s.skip(1), pat, i);
                assert(s.subrange(i + 1, i + 1 + pat.len()) =~= s.skip(1).subrange(i, i + pat.len()));
                assert(occurs_at(s, pat, i + 1));
            }
        }
        replacing_absent_pattern_is_identity(s.skip(1), pat, rep);
        assert(seq![s[0]] + s.skip(1) =~= s);
    }
}

/// Replacing `pat` by `rep` cannot leave or create an occurrence of `pat`:
/// both are non-empty and start with the same character, that character does
/// not come again in `pat`, `rep` does not contain `pat`, and no end of `rep`
/// begins `pat`.
pub open spec fn replacement_settles(pat: Seq<char>, rep: Seq<char>) -> bool {
    &&& pat.len() > 0
    &&& rep.len() > 0
    &&& rep[0] == pat[0]
    &&& forall|o: int| 1 <= o < pat.len() ==> #[trigger] pat[o] != pat[0]
    &&& !has_substring(rep, pat)
    &&& forall|q: int|
        0 <= q < rep.len() && rep.len() - q < pat.len() ==> #[trigger] rep.skip(q) != pat.take(
            rep.len() - q,
        )
}

/// If the result of a replacement starts with `pat[o..o + k]` (for `o >= 1`),
/// then so does the text it was made from.
proof fn lemma_replaced_prefix(t: Seq<char>, pat: Seq<char>, rep: Seq<char>, o: int, k: int)
    requires
        replacement_settles(pat, rep),
        1 <= o,
        0 <= k,
        o + k <= pat.len(),
        replaced(t, pat, rep).len() >= k,
        forall|m: int| 0 <= m < k ==> #[trigger] replaced(t, pat, rep)[m] == pat[o + m],
    ensures
        t.len() >= k,
        t.take(k) == pat.subrange(o, o + k),
    decreases t.len(),
{
    if k == 0 {
        assert(t.take(0) =~= pat.subrange(o, o));
    } else if t.len() == 0 {
        assert(replaced(t, pat, rep).len() == 0);
    } else if occurs_at(t, pat, 0) {
        assert(replaced(t, pat, rep)[0] == rep[0]);
        assert(pat[o + 0] != pat[0]);
    } else {
        let r = replaced(t, pat, rep);
        let r1 = replaced(t.skip(1), pat, rep);
        assert(r == seq![t[0]] + r1);
        assert(r[0] == pat[o + 0]);
        assert forall|m: int| 0 <= m < k - 1 implies #[trigger] r1[m] == pat[(o + 1) + m] by {
            assert(r[m + 1] == r1[m]);
            assert(r[m + 1] == pat[o + (m + 1)]);
        }
        lemma_replaced_prefix(t.skip(1), pat, rep, o + 1, k - 1);
        assert(t.take(k) =~= seq![t[0]] + t.skip(1).take(k - 1));
        assert(pat.subrange(o, o + k) =~= seq![pat[o]] + pat.subrange(o + 1, o + k));
    }
}

/// Under `replacement_settles`, no occurrence of `pat` is left after replacing it.
pub proof fn replacing_leaves_no_occurrence(s: Seq<char>, pat: Seq<char>, rep: Seq<char>)
    requires
        replacement_settles(pat, rep),
    ensures
        !has_substring(replaced(s, pat, rep), pat),
    decreases s.len(),
{
    let r = replaced(s, pat, rep);
    let plen = pat.len() as int;
    if s.len() == 0 {
        assert(r.len() == 0);
    } else if occurs_at(s, pat, 0) {
        let rest = s.skip(plen);
        let r1 = replaced(rest, pat, rep);
        replacing_leaves_no_occurrence(rest, pat, rep);
        assert(r == rep + r1);
        let n = rep.len() as int;
        assert forall|i: int| !occurs_at(r, pat, i) by {
            if occurs_at(r, pat, i) {
                if i + plen <= n {
                    assert(r.subrange(i, i + plen) =~= rep.subrange(i, i + plen));
                    assert(occurs_at(rep, pat, i));
                } else if i >= n {
                    assert(r.subrange(i, i + plen) =~= r1.subrange(i - n, i - n + plen));
                    assert(occurs_at(r1, pat, i - n));
                } else {
                    assert(rep.skip(i) =~= pat.take(n - i)) by {
                        assert forall|m: int| 0 <= m < n - i implies rep.skip(i)[m] == pat.take(
                            n - i,
                        )[m] by {
                            assert(r.subrange(i, i + plen)[m] == r[i + m]);
                            assert(r[i + m] == rep[i + m]);
                        }
                    }
                }
            }
        }
    } else {
        let r1 = replaced(s.skip(1), pat, rep);
        replacing_leaves_no_occurrence(s.skip(1), pat, rep);
        assert(r == seq![s[0]] + r1);
        assert forall|i: int| !occurs_at(r, pat, i) by {
            if occurs_at(r, pat, i) {
                if i >= 1 {
                    assert(r.subrange(i, i + plen) =~= r1.subrange(i - 1, i - 1 + plen));
                    assert(occurs_at(r1, pat, i - 1));
                } else {
                    assert forall|m: int| 0 <= m < plen - 1 implies #[trigger] r1[m] == pat[1 + m] by {
                        assert(r.subrange(0, plen)[m + 1] == r[m + 1]);
                    }
                    assert(r.subrange(0, plen)[0] == s[0]);
                    lemma_replaced_prefix(s.skip(1), pat, rep, 1, plen - 1);
                    assert(s.subrange(0, plen) =~= pat) by {
                        assert forall|m: int| 0 <= m < plen implies s.subrange(0, plen)[m] == pat[m] by {
                            if m >= 1 {
                                assert(s.skip(1).take(plen - 1)[m - 1] == s[m]);
                                assert(pat.subrange(1, plen)[m - 1] == pat[m]);
                            }
                        }
                    }
                }
            }
        }
    }
}

/// The characters of `s`, in order.
pub fn chars_of(s: &str) -> (v: Vec<char>)
    ensures
        v@ == s@,
{
    let mut v: Vec<char> = Vec::new();
    for c in it: s.chars()
        invariant
            it.seq() == s@,
            v@ == it.seq().take(it.index() as int),
    {
        v.push(c);
    }
    v
}

/// A string holding exactly the characters of `v`.
pub fn string_from_chars(v: &Vec<char>) -> (s: String)
    ensures
        s@ == v@,
{
    let mut s = String::new();
    for i in 0..v.len()
        invariant
            s@ == v@.take(i as int),
    {
        s.push(v[i]);
        assert(v@.take(i + 1) == v@.take(i as int).push(v@[i as int]));
    }
    assert(v@.take(v.len() as int) == v@);
    s
}

/// Appends the characters of `extra` to `out`.
pub fn extend_chars(out: &mut Vec<char>, extra: &Vec<char>)
    ensures
        final(out)@ == old(out)@ + extra@,
{
    for i in 0..extra.len()
        invariant
            out@ == old(out)@ + extra@.take(i as int),
    {
        out.push(extra[i]);
        assert(extra@.take(i + 1) == extra@.take(i as int).push(extra@[i as int]));
    }
    assert(extra@.take(extra.len() as int) == extra@);
}

/// Whether `pat` occurs in `v` at index `i`.
pub fn occurs_at_index(v: &Vec<char>, pat: &Vec<char>, i: usize) -> (b: bool)
    ensures
        b == occurs_at(v@, pat@, i as int),
{
    if pat.len() > v.len() || i > v.len() - pat.len() {
        return false;
    }
    let mut j: usize = 0;
    while j < pat.len()
        invariant
            i + pat.len() <= v.len(),
            j <= pat.len(),
            forall|k: int| 0 <= k < j ==> v@[i + k] == pat@[k],
        decreases pat.len() - j,
    {
        if v[i + j] != pat[j] {
            assert(v@.subrange(i as int, i + pat.len())[j as int] != pat@[j as int]);
            return false;
        }
        j = j + 1;
    }
    assert(v@.subrange(i as int, i + pat.len()) =~= pat@);
    true
}

/// Whether `pat` occurs in `s`.
pub fn contains_str(s: &str, pat: &str) -> (b: bool)
    ensures
        b == has_substring(s@, pat@),
{
    let v = chars_of(s);
    let p = chars_of(pat);
    if p.len() > v.len() {
        return false;
    }
    let last = v.len() - p.len();
    let mut i: usize = 0;
    loop
        invariant
            p.len() <= v.len(),
            last == v.len() - p.len(),
            i <= last,
            v@ == s@,
            p@ == pat@,
            forall|k: int| 0 <= k < i ==> !occurs_at(s@, pat@, k),
        decreases last - i,
    {
        if occurs_at_index(&v, &p, i) {
            return true;
        }
        if i == last {
            assert forall|k: int| #![auto] occurs_at(s@, pat@, k) implies false by {
                assert(k <= i);
            }
            return false;
        }
        i = i + 1;
    }
}

proof fn lemma_skip_skip(s: Seq<char>, a: int, b: int)
    requires
        0 <= a,
        0 <= b,
        a + b <= s.len(),
    ensures
        s.skip(a).skip(b) == s.skip(a + b),
{
    assert(s.skip(a).skip(b) =~= s.skip(a + b));
}

/// `s` with every non-overlapping occurrence of `pat` (taken from the left)
/// replaced by `rep`.
pub fn replace_str(s: &str, pat: &str, rep: &str) -> (r: String)
    requires
        pat@.len() > 0,
    ensures
        r@ == replaced(s@, pat@, rep@),
{
    let v = chars_of(s);
    let p = chars_of(pat);
    let q = chars_of(rep);
    let mut out: Vec<char> = Vec::new();
    let mut i: usize = 0;
    assert(s@.skip(0) == s@);
    while i < v.len()
        invariant
            v@ == s@,
            p@ == pat@,
            q@ == rep@,
            p@.len() > 0,
            i <= v.len(),
            replaced(s@, pat@, rep@) == out@ + replaced(s@.skip(i as int), pat@, rep@),
        decreases v.len() - i,
    {
        let ghost rest = s@.skip(i as int);
        assert(rest.len() > 0);
        if occurs_at_index(&v, &p, i) {
            assert(rest.subrange(0, p@.len() as int) =~= s@.subrange(i as int, i + p@.len()));
            assert(occurs_at(rest, pat@, 0));
            proof { lemma_skip_skip(s@, i as int, p@.len() as int); }
            extend_chars(&mut out, &q);
            i = i + p.len();
        } else {
            assert(!occurs_at(rest, pat@, 0)) by {
                if occurs_at(rest, pat@, 0) {
                    assert(rest.subrange(0, p@.len() as int) =~= s@.subrange(i as int, i + p@.len()));
                }
            }
            proof { lemma_skip_skip(s@, i as int, 1); }
            assert(rest[0] == v@[i as int]);
            out.push(v[i]);
            i = i + 1;
        }
    }
    assert(s@.skip(i as int).len() == 0);
    string_from_chars(&out)
}

/// `s` with every occurrence of `c` removed.
pub fn remove_char(s: &str, c: char) -> (r: String)
    ensures
        r@ == without(s@, c),
{
    let v = chars_of(s);
    let mut out: Vec<char> = Vec::new();
    for i in 0..v.len()
        invariant
            v@ == s@,
            out@ == without(s@.take(i as int), c),
    {
        assert(s@.take(i + 1).drop_last() == s@.take(i as int));
        if v[i] != c {
            out.push(v[i]);
        }
    }
    assert(s@.take(v.len() as int) == s@);
    string_from_chars(&out)
}

/// The digit character for `d < 10`.
pub fn digit_to_char(d: u64) -> (c: char)
    requires
        d < 10,
    ensures
        c == digit_char(d as nat),
{
    if d == 0 { '0' }
    else if d == 1 { '1' }
    else if d == 2 { '2' }
    else if d == 3 { '3' }
    else if d == 4 { '4' }
    else if d == 5 { '5' }
    else if d == 6 { '6' }
    else if d == 7 { '7' }
    else if d == 8 { '8' }
    else { '9' }
}

/// Appends the decimal notation of `n` to `out`.
pub fn push_decimal(out: &mut Vec<char>, n: u64)
    ensures
        final(out)@ == old(out)@ + decimal(n as nat),
    decreases n,
{
    if n >= 10 {
        push_decimal(out, n / 10);
    }
    let c = digit_to_char(n % 10);
    out.push(c);
    proof {
        if n >= 10 {
            assert(decimal(n as nat) == decimal((n / 10) as nat).push(digit_char((n % 10) as nat)));
        } else {
            assert(decimal(n as nat) == seq![digit_char(n as nat)]);
        }
    }
}

} // verus!
