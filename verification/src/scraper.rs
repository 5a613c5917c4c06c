//! Clean-up rules that turn a LaTeX formula of the scraped corpus into one that
//! pandoc can convert to Typst, or reject it; and the helpers that name and
//! split the records of the resulting dataset.

use vstd::prelude::*;
use crate::pattern::{
    group_text, regex_captures, regex_compiles, rejoined, segment_view, segments_view, Pattern,
    Segment,
};
use crate::text::{
    all_digits, chars_of, contains_str, decimal, digit_value, digits_value, extend_chars,
    has_substring, is_deletion_of, is_digit, lemma_decimal, lemma_decimal_len,
    lemma_deletion_concat, lemma_deletion_reflexive, lemma_leading_zeros, lemma_lex_less_of_value,
    lemma_without_absent, lemma_without_is_deletion, lemma_without_removes, lex_less, occurs_at,
    opt_text, pad_left, pow10, push_decimal, remove_char, replace_str, replaced,
    replacement_settles, replacing_absent_pattern_is_identity, replacing_leaves_no_occurrence,
    string_from_chars, without,
};

verus! {

/// Column specifications of `array` environments: `\begin{array} {c c}`.
pub const ARRAY_COLUMNS: &'static str = r"\\begin\{array\}\s+\{[\sclr]*\}";

/// An `\hspace` whose length is negative (or starts with `~`).
pub const HSPACE_NEGATIVE: &'static str = r"\\hspace\s*\{\s*[-~]";

/// An `\hspace` whose length is a decimal fraction.
pub const HSPACE_FRACTION: &'static str = r"\\hspace\s*\{[\s0-9]*\.";

/// An `\hspace` with a plain argument: group 1 is the command, group 2 the length.
pub const HSPACE_ARGUMENT: &'static str = r"(\\hspace\s*)\{([0-9a-z\s]*)\}";

/// An `\hspace` measured in `ex`.
pub const HSPACE_EX: &'static str = r"\\hspace\s*\{.*ex.*\}";

/// An `\hspace` of at least two digits of millimetres, in the spaced form; group 1 is the number.
pub const HSPACE_MILLIMETRES: &'static str = r"\\hspace\s*\{ ([0-9][0-9]+)mm \}";

/// Any other `\hspace` measured in millimetres, in the spaced form.
pub const HSPACE_OTHER_MILLIMETRES: &'static str = r"\\hspace\s*\{ ([\s\.0-9]*)mm \}";

/// A starred `\hspace*`.
pub const HSPACE_STARRED: &'static str = r"\\hspace\s*\*\s*\{ ";

/// The zero-padded, twenty-digit decimal identifier of corpus line `idx`
/// (`format!("{:020}", idx)`).
pub open spec fn uid_spec(idx: nat) -> Seq<char> {
    pad_left(decimal(idx), 20, '0')
}

/// The identifier of corpus line `idx`: its decimal notation padded with
/// zeros to twenty digits.
pub fn gen_uid(idx: usize) -> (r: String)
    ensures
        r@ == uid_spec(idx as nat),
{
    let mut digits: Vec<char> = Vec::new();
    push_decimal(&mut digits, idx as u64);
    let mut out: Vec<char> = Vec::new();
    let len = digits.len();
    if len < 20 {
        let pad: usize = 20 - len;
        for i in 0..pad
            invariant
                out@ == Seq::new(i as nat, |k: int| '0'),
        {
            out.push('0');
            assert(out@ =~= Seq::new((i + 1) as nat, |k: int| '0'));
        }
    }
    extend_chars(&mut out, &digits);
    assert(out@ =~= uid_spec(idx as nat));
    string_from_chars(&out)
}

/// Every identifier is exactly twenty decimal digits and denotes its line number.
pub proof fn gen_uid_denotes_index(idx: usize)
    ensures
        uid_spec(idx as nat).len() == 20,
        all_digits(uid_spec(idx as nat)),
        digits_value(uid_spec(idx as nat)) == idx,
{
    let d = decimal(idx as nat);
    lemma_decimal(idx as nat);
    reveal_with_fuel(pow10, 21);
    assert(pow10(20) == 100000000000000000000nat);
    lemma_decimal_len(idx as nat, 20);
    let z = Seq::new((20 - d.len()) as nat, |i: int| '0');
    lemma_leading_zeros((20 - d.len()) as nat, d);
    assert(uid_spec(idx as nat) == z + d);
    assert forall|i: int| 0 <= i < (z + d).len() implies is_digit(#[trigger] (z + d)[i]) by {
        if i >= z.len() {
            assert((z + d)[i] == d[i - z.len()]);
        }
    }
}

/// Distinct lines get distinct identifiers.
pub proof fn gen_uid_injective(i: usize, j: usize)
    requires
        i != j,
    ensures
        uid_spec(i as nat) != uid_spec(j as nat),
{
    gen_uid_denotes_index(i);
    gen_uid_denotes_index(j);
}

/// Identifiers sort in the order of their line numbers.
pub proof fn gen_uid_ordered(i: usize, j: usize)
    requires
        i < j,
    ensures
        lex_less(uid_spec(i as nat), uid_spec(j as nat)),
{
    gen_uid_denotes_index(i);
    gen_uid_denotes_index(j);
    lemma_lex_less_of_value(uid_spec(i as nat), uid_spec(j as nat));
}

/// `\b ` becomes the negative thin space `\! `.
pub open spec fn small_space_spec(s: Seq<char>) -> Seq<char> {
    replaced(s, r"\b "@, r"\! "@)
}

/// `\L ` and `\l ` become plain `L ` and `l `.
pub open spec fn weird_characters_spec(s: Seq<char>) -> Seq<char> {
    replaced(replaced(s, r"\L "@, r"L "@), r"\l "@, r"l "@)
}

/// `\cal` becomes `\mathcal`.
pub open spec fn mathcal_spec(s: Seq<char>) -> Seq<char> {
    replaced(s, r"\cal"@, r"\mathcal"@)
}

/// `\sp ` and `\sb ` become `^ ` and `_`.
pub open spec fn sp_spec(s: Seq<char>) -> Seq<char> {
    replaced(replaced(s, r"\sp "@, r"^ "@), r"\sb "@, r"_"@)
}

/// Old font switches become math-mode font commands (`\sf` is dropped).
pub open spec fn bf_spec(s: Seq<char>) -> Seq<char> {
    let s1 = replaced(s, r"\bf"@, r"\mathbf"@);
    let s2 = replaced(s1, r"\boldmath"@, r"\mathbf"@);
    let s3 = replaced(s2, r"\it"@, r"\mathit"@);
    let s4 = replaced(s3, r"\tt"@, r"\texttt"@);
    let s5 = replaced(s4, r"\sf"@, r""@);
    replaced(s5, r"\i "@, r"i "@)
}

/// `\d ` becomes `\partial `.
pub open spec fn partial_spec(s: Seq<char>) -> Seq<char> {
    replaced(s, r"\d "@, r"\partial "@)
}

/// `s` uses one of the text-mode commands that pandoc does not convert.
pub open spec fn has_unsupported_text_mods(s: Seq<char>) -> bool {
    has_substring(s, r"\small"@)
        || has_substring(s, r"\tiny"@)
        || has_substring(s, r"\c "@)
        || has_substring(s, r"\footnotesize"@)
        || has_substring(s, r"\scriptsize"@)
        || has_substring(s, r"\Bigl"@)
        || has_substring(s, r"\Bigr"@)
        || has_substring(s, r"\hline"@)
        || has_substring(s, r"\raisebox"@)
        || has_substring(s, r"\vphantom"@)
        || has_substring(s, r"\textup"@)
        || has_substring(s, r"`"@)
        || has_substring(s, r"\mit "@)
        || has_substring(s, r"\do "@)
        || has_substring(s, r"\em "@)
        || has_substring(s, r"\atop"@)
        || has_substring(s, r"\large "@)
        || has_substring(s, r"\label"@)
        || has_substring(s, r"\raise "@)
}

/// `s` uses vertical or thin spacing that pandoc does not convert.
pub open spec fn has_vspace(s: Seq<char>) -> bool {
    has_substring(s, r"\vspace"@) || has_substring(s, r"\thinspace"@)
}

/// `s` without its last character when that is a backslash.
pub open spec fn nuke_trailing_spec(s: Seq<char>) -> Seq<char> {
    if s.len() > 0 && s.last() == '\\' {
        s.drop_last()
    } else {
        s
    }
}

/// No `\cal` is left after `process_mathcal`, so a second pass changes nothing.
pub proof fn mathcal_leaves_no_cal(s: Seq<char>)
    ensures
        !has_substring(mathcal_spec(s), r"\cal"@),
        mathcal_spec(mathcal_spec(s)) == mathcal_spec(s),
{
    reveal_strlit(r"\cal");
    reveal_strlit(r"\mathcal");
    let pat = r"\cal"@;
    let rep = r"\mathcal"@;
    assert(pat =~= seq!['\\', 'c', 'a', 'l']);
    assert(rep =~= seq!['\\', 'm', 'a', 't', 'h', 'c', 'a', 'l']);
    assert forall|i: int| !occurs_at(rep, pat, i) by {
        if occurs_at(rep, pat, i) {
            assert(rep.subrange(i, i + 4)[0] == rep[i]);
            assert(rep.subrange(i, i + 4)[1] == rep[i + 1]);
            assert(0 <= i <= 4);
            if i == 0 {
                assert(rep[1] == 'm');
            } else {
                assert(rep[i] != '\\') by {
                    assert(i == 1 || i == 2 || i == 3 || i == 4);
                }
            }
        }
    }
    assert forall|q: int| 0 <= q < rep.len() && rep.len() - q < pat.len() implies #[trigger] rep.skip(q)
        != pat.take(rep.len() - q) by {
        assert(rep.skip(q)[0] == rep[q]);
        assert(pat.take(rep.len() - q)[0] == pat[0]);
        assert(q == 5 || q == 6 || q == 7);
    }
    assert(replacement_settles(pat, rep));
    replacing_leaves_no_occurrence(s, pat, rep);
    replacing_absent_pattern_is_identity(mathcal_spec(s), pat, rep);
}

/// Replaces `\b ` by `\! `.
pub fn process_small_space(s: String) -> (r: Option<String>)
    ensures
        opt_text(r) == Some(small_space_spec(s@)),
{
    proof { reveal_strlit(r"\b "); }
    Some(replace_str(s.as_str(), r"\b ", r"\! "))
}

/// Replaces the odd letters `\L ` and `\l ` by `L ` and `l `.
pub fn process_weird_characters(s: String) -> (r: Option<String>)
    ensures
        opt_text(r) == Some(weird_characters_spec(s@)),
{
    proof { reveal_strlit(r"\L "); }
    let t0 = replace_str(s.as_str(), r"\L ", r"L ");
    proof { reveal_strlit(r"\l "); }
    let t1 = replace_str(t0.as_str(), r"\l ", r"l ");
    Some(t1)
}

/// Replaces `\cal` by `\mathcal`.
pub fn process_mathcal(s: String) -> (r: Option<String>)
    ensures
        opt_text(r) == Some(mathcal_spec(s@)),
{
    proof { reveal_strlit(r"\cal"); }
    Some(replace_str(s.as_str(), r"\cal", r"\mathcal"))
}

/// Replaces the superscript and subscript commands `\sp ` and `\sb `.
pub fn process_sp(s: String) -> (r: Option<String>)
    ensures
        opt_text(r) == Some(sp_spec(s@)),
{
    proof { reveal_strlit(r"\sp "); }
    let t0 = replace_str(s.as_str(), r"\sp ", r"^ ");
    proof { reveal_strlit(r"\sb "); }
    let t1 = replace_str(t0.as_str(), r"\sb ", r"_");
    Some(t1)
}

/// Replaces the old font switches by math-mode font commands.
pub fn process_bf(s: String) -> (r: Option<String>)
    ensures
        opt_text(r) == Some(bf_spec(s@)),
{
    proof { reveal_strlit(r"\bf"); }
    let t0 = replace_str(s.as_str(), r"\bf", r"\mathbf");
    proof { reveal_strlit(r"\boldmath"); }
    let t1 = replace_str(t0.as_str(), r"\boldmath", r"\mathbf");
    proof { reveal_strlit(r"\it"); }
    let t2 = replace_str(t1.as_str(), r"\it", r"\mathit");
    proof { reveal_strlit(r"\tt"); }
    let t3 = replace_str(t2.as_str(), r"\tt", r"\texttt");
    proof { reveal_strlit(r"\sf"); }
    let t4 = replace_str(t3.as_str(), r"\sf", r"");
    proof { reveal_strlit(r"\i "); }
    let t5 = replace_str(t4.as_str(), r"\i ", r"i ");
    Some(t5)
}

/// Replaces `\d ` by `\partial `.
pub fn process_partial(s: String) -> (r: Option<String>)
    ensures
        opt_text(r) == Some(partial_spec(s@)),
{
    proof { reveal_strlit(r"\d "); }
    Some(replace_str(s.as_str(), r"\d ", r"\partial "))
}

/// Rejects a formula that uses text-mode commands pandoc does not support.
pub fn process_text_mods(s: String) -> (r: Option<String>)
    ensures
        opt_text(r) == (if has_unsupported_text_mods(s@) { None } else { Some(s@) }),
{
    if contains_str(s.as_str(), r"\small")
        || contains_str(s.as_str(), r"\tiny")
        || contains_str(s.as_str(), r"\c ")
        || contains_str(s.as_str(), r"\footnotesize")
        || contains_str(s.as_str(), r"\scriptsize")
        || contains_str(s.as_str(), r"\Bigl")
        || contains_str(s.as_str(), r"\Bigr")
        || contains_str(s.as_str(), r"\hline")
        || contains_str(s.as_str(), r"\raisebox")
        || contains_str(s.as_str(), r"\vphantom")
        || contains_str(s.as_str(), r"\textup")
        || contains_str(s.as_str(), r"`")
        || contains_str(s.as_str(), r"\mit ")
        || contains_str(s.as_str(), r"\do ")
        || contains_str(s.as_str(), r"\em ")
        || contains_str(s.as_str(), r"\atop")
        || contains_str(s.as_str(), r"\large ")
        || contains_str(s.as_str(), r"\label")
        || contains_str(s.as_str(), r"\raise ")
    {
        None
    } else {
        Some(s)
    }
}

/// Drops a trailing backslash.
pub fn nuke_trailing(s: String) -> (r: Option<String>)
    ensures
        opt_text(r) == Some(nuke_trailing_spec(s@)),
{
    let v = chars_of(s.as_str());
    if v.len() > 0 && v[v.len() - 1] == '\\' {
        let mut out: Vec<char> = Vec::new();
        for i in 0..v.len() - 1
            invariant
                v@ == s@,
                v.len() > 0,
                i <= v.len() - 1,
                out@ == s@.take(i as int),
        {
            out.push(v[i]);
            assert(s@.take(i + 1) == s@.take(i as int).push(s@[i as int]));
        }
        assert(out@ =~= s@.drop_last());
        Some(string_from_chars(&out))
    } else {
        Some(s)
    }
}

/// Rejects a formula with `\vspace` or `\thinspace`.
pub fn process_vspace(s: String) -> (r: Option<String>)
    ensures
        opt_text(r) == (if has_vspace(s@) { None } else { Some(s@) }),
{
    if contains_str(s.as_str(), r"\vspace") || contains_str(s.as_str(), r"\thinspace") {
        None
    } else {
        Some(s)
    }
}

/// How each match of a pattern is rewritten.
#[derive(Clone, Copy, Debug, PartialEq, Eq, Structural)]
pub enum Rewrite {
    /// The whole match, with its spaces removed.
    SqueezeSpaces,
    /// Group 1, then ` { `, then group 2 with its spaces removed, then ` }`.
    SpacedArgument,
    /// `\hspace {`, ten times the number in group 1, `cm}`.
    MillimetresAsCentimetres,
}

/// A group that can be read as a number of millimetres: a non-empty string of
/// digits whose tenfold value fits in an `i32`.
pub open spec fn mm_fits(g: Seq<char>) -> bool {
    g.len() > 0 && all_digits(g) && 10 * digits_value(g) <= 2147483647
}

/// The text that replaces the match `seg`.
pub open spec fn rewrite_text(w: Rewrite, seg: (Seq<char>, Seq<Option<Seq<char>>>)) -> Seq<char> {
    match w {
        Rewrite::SqueezeSpaces => without(group_text(seg, 0), ' '),
        Rewrite::SpacedArgument => group_text(seg, 1) + " { "@ + without(group_text(seg, 2), ' ')
            + " }"@,
        Rewrite::MillimetresAsCentimetres => r"\hspace {"@ + decimal(
            10 * digits_value(group_text(seg, 1)),
        ) + "cm}"@,
    }
}

/// The text covered by the matches `segs`, each match rewritten.
pub open spec fn rewritten(segs: Seq<(Seq<char>, Seq<Option<Seq<char>>>)>, w: Rewrite) -> Seq<char>
    decreases segs.len(),
{
    if segs.len() == 0 {
        Seq::empty()
    } else {
        rewritten(segs.drop_last(), w) + segs.last().0 + rewrite_text(w, segs.last())
    }
}

/// The rewrite can be applied to every match of `segs` (only the millimetre
/// rewrite has a condition: a number it can read).
pub open spec fn rewrite_allowed(w: Rewrite, segs: Seq<(Seq<char>, Seq<Option<Seq<char>>>)>) -> bool {
    w == Rewrite::MillimetresAsCentimetres ==> forall|k: int|
        0 <= k < segs.len() ==> mm_fits(group_text(#[trigger] segs[k], 1))
}

/// `s` with every match of `pattern` rewritten (as `Regex::replace_all` with a
/// closure computing `rewrite_text`).
pub open spec fn rewrite_all(pattern: Seq<char>, s: Seq<char>, w: Rewrite) -> Seq<char> {
    rewritten(regex_captures(pattern, s).0, w) + regex_captures(pattern, s).1
}

/// `pattern` matches somewhere in `s`.
pub open spec fn matches_somewhere(pattern: Seq<char>, s: Seq<char>) -> bool {
    regex_captures(pattern, s).0.len() > 0
}

/// The characters of group `i` of a match, empty where the group is absent.
fn group_chars(seg: &Segment, i: usize) -> (v: Vec<char>)
    ensures
        v@ == group_text(segment_view(*seg), i as int),
{
    if i < seg.groups.len() {
        match &seg.groups[i] {
            Some(g) => chars_of(g.as_str()),
            None => Vec::new(),
        }
    } else {
        Vec::new()
    }
}

/// The value of a digit character.
fn digit_of(c: char) -> (d: u64)
    ensures
        d == digit_value(c),
{
    if c == '1' { 1 }
    else if c == '2' { 2 }
    else if c == '3' { 3 }
    else if c == '4' { 4 }
    else if c == '5' { 5 }
    else if c == '6' { 6 }
    else if c == '7' { 7 }
    else if c == '8' { 8 }
    else if c == '9' { 9 }
    else { 0 }
}

/// A prefix of a digit string never denotes more than the whole.
proof fn lemma_digits_value_prefix(s: Seq<char>, i: int)
    requires
        0 <= i <= s.len(),
    ensures
        digits_value(s.take(i)) <= digits_value(s),
    decreases s.len(),
{
    if i < s.len() {
        assert(s.drop_last().take(i) == s.take(i));
        lemma_digits_value_prefix(s.drop_last(), i);
    } else {
        assert(s.take(i) == s);
    }
}

/// Whether `g` reads as a number of millimetres that can be converted.
fn mm_fits_exec(g: &Vec<char>) -> (b: bool)
    ensures
        b == mm_fits(g@),
{
    let mut acc: u64 = 0;
    for i in 0..g.len()
        invariant
            acc == digits_value(g@.take(i as int)),
            acc <= 214748364,
            all_digits(g@.take(i as int)),
    {
        assert(g@.take(i + 1).drop_last() == g@.take(i as int));
        if !('0' <= g[i] && g[i] <= '9') {
            assert(!is_digit(g@[i as int]));
            return false;
        }
        acc = acc * 10 + digit_of(g[i]);
        assert(all_digits(g@.take(i + 1))) by {
            assert forall|j: int| 0 <= j < i + 1 implies is_digit(#[trigger] g@.take(i + 1)[j]) by {
                if j < i {
                    assert(g@.take(i + 1)[j] == g@.take(i as int)[j]);
                }
            }
        }
        if acc > 214748364 {
            proof { lemma_digits_value_prefix(g@, i + 1); }
            return false;
        }
    }
    assert(g@.take(g.len() as int) == g@);
    g.len() > 0
}

/// Whether every match in `segs` has a group 1 that the millimetre rewrite can read.
fn millimetres_fit(segs: &Vec<Segment>) -> (b: bool)
    ensures
        b == rewrite_allowed(Rewrite::MillimetresAsCentimetres, segments_view(segs@)),
{
    let ghost sv = segments_view(segs@);
    for k in 0..segs.len()
        invariant
            sv == segments_view(segs@),
            forall|j: int| 0 <= j < k ==> mm_fits(group_text(#[trigger] sv[j], 1)),
    {
        let g = group_chars(&segs[k], 1);
        if !mm_fits_exec(&g) {
            assert(!mm_fits(group_text(sv[k as int], 1)));
            return false;
        }
    }
    true
}

/// The decimal notation of ten times the number of millimetres in `g`.
fn centimetre_digits(g: &Vec<char>) -> (v: Vec<char>)
    requires
        mm_fits(g@),
    ensures
        v@ == decimal(10 * digits_value(g@)),
{
    let mut acc: u64 = 0;
    for i in 0..g.len()
        invariant
            mm_fits(g@),
            acc == digits_value(g@.take(i as int)),
            acc <= 214748364,
    {
        assert(g@.take(i + 1).drop_last() == g@.take(i as int));
        proof { lemma_digits_value_prefix(g@, i + 1); }
        acc = acc * 10 + digit_of(g[i]);
    }
    assert(g@.take(g.len() as int) == g@);
    let mut v: Vec<char> = Vec::new();
    push_decimal(&mut v, acc * 10);
    assert(v@ =~= decimal(10 * digits_value(g@)));
    v
}

/// The text that replaces one match.
fn rewrite_one(seg: &Segment, w: Rewrite) -> (v: Vec<char>)
    requires
        w == Rewrite::MillimetresAsCentimetres ==> mm_fits(group_text(segment_view(*seg), 1)),
    ensures
        v@ == rewrite_text(w, segment_view(*seg)),
{
    match w {
        Rewrite::SqueezeSpaces => {
            let whole = group_chars(seg, 0);
            let text = string_from_chars(&whole);
            chars_of(remove_char(text.as_str(), ' ').as_str())
        },
        Rewrite::SpacedArgument => {
            let mut out = group_chars(seg, 1);
            let open = chars_of(" { ");
            extend_chars(&mut out, &open);
            let arg = group_chars(seg, 2);
            let arg_text = string_from_chars(&arg);
            let squeezed = chars_of(remove_char(arg_text.as_str(), ' ').as_str());
            extend_chars(&mut out, &squeezed);
            let close = chars_of(" }");
            extend_chars(&mut out, &close);
            out
        },
        Rewrite::MillimetresAsCentimetres => {
            let mut out = chars_of(r"\hspace {");
            let number = group_chars(seg, 1);
            let digits = centimetre_digits(&number);
            extend_chars(&mut out, &digits);
            let unit = chars_of("cm}");
            extend_chars(&mut out, &unit);
            out
        },
    }
}

/// The text described by the matches `segs` and the remaining text `tail`,
/// each match rewritten as `w` says.
pub fn rewrite_segments(segs: &Vec<Segment>, tail: &str, w: Rewrite) -> (r: String)
    requires
        rewrite_allowed(w, segments_view(segs@)),
    ensures
        r@ == rewritten(segments_view(segs@), w) + tail@,
        segs@.len() == 0 ==> r@ == tail@,
        w == Rewrite::SqueezeSpaces ==> is_deletion_of(
            r@,
            rejoined(segments_view(segs@)) + tail@,
            ' ',
        ),
{
    let ghost sv = segments_view(segs@);
    let mut out: Vec<char> = Vec::new();
    for k in 0..segs.len()
        invariant
            sv == segments_view(segs@),
            rewrite_allowed(w, sv),
            out@ == rewritten(sv.take(k as int), w),
    {
        assert(sv.take(k + 1).drop_last() == sv.take(k as int));
        assert(sv[k as int] == segment_view(segs@[k as int]));
        let before = chars_of(segs[k].before.as_str());
        extend_chars(&mut out, &before);
        let piece = rewrite_one(&segs[k], w);
        extend_chars(&mut out, &piece);
        assert(out@ =~= rewritten(sv.take(k + 1), w));
    }
    assert(sv.take(segs.len() as int) == sv);
    let rest = chars_of(tail);
    extend_chars(&mut out, &rest);
    proof {
        if w == Rewrite::SqueezeSpaces {
            lemma_squeeze_deletes_spaces(sv);
            lemma_deletion_reflexive(tail@, ' ');
            lemma_deletion_concat(rewritten(sv, w), rejoined(sv), tail@, tail@, ' ');
        }
    }
    string_from_chars(&out)
}

/// `s` with every match of `pattern` rewritten as `w` says.
pub fn rewrite_matches(pattern: &Pattern, s: &str, w: Rewrite) -> (r: String)
    requires
        rewrite_allowed(w, regex_captures(pattern@, s@).0),
    ensures
        r@ == rewrite_all(pattern@, s@, w),
        !matches_somewhere(pattern@, s@) ==> r@ == s@,
        w == Rewrite::SqueezeSpaces ==> is_deletion_of(r@, s@, ' '),
{
    let (segs, tail) = pattern.captures(s);
    proof {
        if segs@.len() == 0 {
            assert(segments_view(segs@).len() == 0);
            assert(rejoined(segments_view(segs@)) == Seq::<char>::empty());
            assert(rejoined(segments_view(segs@)) + tail@ == tail@);
        }
    }
    rewrite_segments(&segs, tail.as_str(), w)
}

proof fn lemma_squeeze_deletes_spaces(segs: Seq<(Seq<char>, Seq<Option<Seq<char>>>)>)
    ensures
        is_deletion_of(rewritten(segs, Rewrite::SqueezeSpaces), rejoined(segs), ' '),
    decreases segs.len(),
{
    if segs.len() == 0 {
        assert(rewritten(segs, Rewrite::SqueezeSpaces) == Seq::<char>::empty());
        assert(rejoined(segs) == Seq::<char>::empty());
    } else {
        let w = Rewrite::SqueezeSpaces;
        let prev = rewritten(segs.drop_last(), w);
        let joined = rejoined(segs.drop_last());
        let last = segs.last();
        let g = group_text(last, 0);
        lemma_squeeze_deletes_spaces(segs.drop_last());
        lemma_deletion_reflexive(last.0, ' ');
        lemma_deletion_concat(prev, joined, last.0, last.0, ' ');
        lemma_without_is_deletion(g, ' ');
        lemma_deletion_concat(prev + last.0, joined + last.0, without(g, ' '), g, ' ');
    }
}

/// What `process_table` yields: `None` if the pattern does not compile.
pub open spec fn table_spec(s: Seq<char>) -> Option<Seq<char>> {
    if regex_compiles(ARRAY_COLUMNS@) {
        Some(rewrite_all(ARRAY_COLUMNS@, s, Rewrite::SqueezeSpaces))
    } else {
        None
    }
}

/// Removes the spaces inside the column specification of `array` environments.
pub fn process_table(s: String) -> (r: Option<String>)
    ensures
        opt_text(r) == table_spec(s@),
        r matches Some(t) ==> is_deletion_of(t@, s@, ' '),
        regex_compiles(ARRAY_COLUMNS@) && !matches_somewhere(ARRAY_COLUMNS@, s@) ==> opt_text(r)
            == Some(s@),
{
    match Pattern::new(ARRAY_COLUMNS) {
        Ok(p) => Some(rewrite_matches(&p, s.as_str(), Rewrite::SqueezeSpaces)),
        Err(_) => None,
    }
}

/// All the `\hspace` patterns compile.
pub open spec fn hspace_patterns_compile() -> bool {
    &&& regex_compiles(HSPACE_NEGATIVE@)
    &&& regex_compiles(HSPACE_FRACTION@)
    &&& regex_compiles(HSPACE_ARGUMENT@)
    &&& regex_compiles(HSPACE_EX@)
    &&& regex_compiles(HSPACE_MILLIMETRES@)
    &&& regex_compiles(HSPACE_OTHER_MILLIMETRES@)
    &&& regex_compiles(HSPACE_STARRED@)
}

/// `s` after the spacing of its `\hspace` arguments is normalised, before the
/// millimetre conversion.
pub open spec fn hspace_spaced(s: Seq<char>) -> Seq<char> {
    rewrite_all(HSPACE_ARGUMENT@, s, Rewrite::SpacedArgument)
}

/// `s` after the millimetre conversion.
pub open spec fn hspace_converted(s: Seq<char>) -> Seq<char> {
    rewrite_all(HSPACE_MILLIMETRES@, hspace_spaced(s), Rewrite::MillimetresAsCentimetres)
}

/// What `process_hspace` yields.
pub open spec fn hspace_spec(s: Seq<char>) -> Option<Seq<char>> {
    if !hspace_patterns_compile() {
        None
    } else if matches_somewhere(HSPACE_NEGATIVE@, s) || matches_somewhere(HSPACE_FRACTION@, s) {
        None
    } else if matches_somewhere(HSPACE_EX@, hspace_spaced(s)) {
        None
    } else if !rewrite_allowed(
        Rewrite::MillimetresAsCentimetres,
        regex_captures(HSPACE_MILLIMETRES@, hspace_spaced(s)).0,
    ) {
        None
    } else if matches_somewhere(HSPACE_OTHER_MILLIMETRES@, hspace_converted(s))
        || matches_somewhere(HSPACE_STARRED@, hspace_converted(s)) {
        None
    } else {
        Some(hspace_converted(s))
    }
}

/// Normalises `\hspace` lengths, converting millimetres, and rejects the
/// forms pandoc cannot convert (negative, fractional, `ex`, leftover
/// millimetres, starred). A number of millimetres too large to convert is
/// rejected too.
pub fn process_hspace(s: String) -> (r: Option<String>)
    ensures
        opt_text(r) == hspace_spec(s@),
        hspace_patterns_compile() && !matches_somewhere(HSPACE_NEGATIVE@, s@) && !matches_somewhere(
            HSPACE_FRACTION@,
            s@,
        ) && !matches_somewhere(HSPACE_ARGUMENT@, s@) && !matches_somewhere(HSPACE_EX@, s@)
            && !matches_somewhere(HSPACE_MILLIMETRES@, s@) && !matches_somewhere(
            HSPACE_OTHER_MILLIMETRES@,
            s@,
        ) && !matches_somewhere(HSPACE_STARRED@, s@) ==> opt_text(r) == Some(s@),
{
    let negative = match Pattern::new(HSPACE_NEGATIVE) { Ok(p) => p, Err(_) => return None };
    let fraction = match Pattern::new(HSPACE_FRACTION) { Ok(p) => p, Err(_) => return None };
    let argument = match Pattern::new(HSPACE_ARGUMENT) { Ok(p) => p, Err(_) => return None };
    let ex = match Pattern::new(HSPACE_EX) { Ok(p) => p, Err(_) => return None };
    let mm = match Pattern::new(HSPACE_MILLIMETRES) { Ok(p) => p, Err(_) => return None };
    let other_mm = match Pattern::new(HSPACE_OTHER_MILLIMETRES) {
        Ok(p) => p,
        Err(_) => return None,
    };
    let starred = match Pattern::new(HSPACE_STARRED) { Ok(p) => p, Err(_) => return None };
    if negative.is_match(s.as_str()) {
        return None;
    }
    if fraction.is_match(s.as_str()) {
        return None;
    }
    let result = rewrite_matches(&argument, s.as_str(), Rewrite::SpacedArgument);
    if ex.is_match(result.as_str()) {
        return None;
    }
    let (found, _) = mm.captures(result.as_str());
    if !millimetres_fit(&found) {
        return None;
    }
    let result_2 = rewrite_matches(&mm, result.as_str(), Rewrite::MillimetresAsCentimetres);
    if other_mm.is_match(result_2.as_str()) || starred.is_match(result_2.as_str()) {
        return None;
    }
    Some(result_2)
}

/// What `process_line` yields: the clean-up steps in order, `None` as soon as
/// one of them rejects the formula.
pub open spec fn process_line_spec(s: Seq<char>) -> Option<Seq<char>> {
    let s1 = sp_spec(mathcal_spec(s));
    match table_spec(s1) {
        None => None,
        Some(s2) => if has_vspace(s2) {
            None
        } else {
            match hspace_spec(s2) {
                None => None,
                Some(s3) => {
                    let s4 = bf_spec(s3);
                    if has_unsupported_text_mods(s4) {
                        None
                    } else {
                        Some(
                            weird_characters_spec(
                                small_space_spec(nuke_trailing_spec(partial_spec(s4))),
                            ),
                        )
                    }
                },
            }
        },
    }
}

/// Cleans up one corpus formula for pandoc, or rejects it.
pub fn process_line(s: String) -> (r: Option<String>)
    ensures
        opt_text(r) == process_line_spec(s@),
{
    let s = match process_mathcal(s) { Some(t) => t, None => return None };
    let s = match process_sp(s) { Some(t) => t, None => return None };
    let s = match process_table(s) { Some(t) => t, None => return None };
    let s = match process_vspace(s) { Some(t) => t, None => return None };
    let s = match process_hspace(s) { Some(t) => t, None => return None };
    let s = match process_bf(s) { Some(t) => t, None => return None };
    let s = match process_text_mods(s) { Some(t) => t, None => return None };
    let s = match process_partial(s) { Some(t) => t, None => return None };
    let s = match nuke_trailing(s) { Some(t) => t, None => return None };
    let s = match process_small_space(s) { Some(t) => t, None => return None };
    process_weird_characters(s)
}

/// The index of the last `c` in `s`.
pub open spec fn last_index_of(s: Seq<char>, c: char) -> Option<int>
    decreases s.len(),
{
    if s.len() == 0 {
        None
    } else if s.last() == c {
        Some(s.len() - 1)
    } else {
        last_index_of(s.drop_last(), c)
    }
}

/// A dataset record split into formula and file name: the file name is what
/// follows the last comma (the whole record when there is none); the formula
/// is what precedes it, without double quotes.
pub open spec fn split_record(s: Seq<char>) -> (Seq<char>, Seq<char>) {
    match last_index_of(s, ',') {
        Some(k) => (without(s.take(k), '"'), s.skip(k + 1)),
        None => (Seq::empty(), s),
    }
}

proof fn lemma_last_index_of(s: Seq<char>, c: char, k: int)
    requires
        0 <= k <= s.len(),
        forall|j: int| k <= j < s.len() ==> s[j] != c,
        k > 0 ==> s[k - 1] == c,
    ensures
        last_index_of(s, c) == (if k == 0 { None } else { Some(k - 1) }),
    decreases s.len(),
{
    if s.len() > k {
        lemma_last_index_of(s.drop_last(), c, k);
    }
}

/// Splits a dataset record into `(formula, file name)`.
pub fn split_to_pieces(s: &str) -> (r: (String, String))
    ensures
        (r.0@, r.1@) == split_record(s@),
{
    let v = chars_of(s);
    let mut k: usize = v.len();
    while k > 0 && v[k - 1] != ','
        invariant
            v@ == s@,
            k <= v.len(),
            forall|j: int| k <= j < v.len() ==> v@[j] != ',',
        decreases k,
    {
        k = k - 1;
    }
    proof { lemma_last_index_of(s@, ',', k as int); }
    if k == 0 {
        return (String::new(), string_from_chars(&v));
    }
    let mut expr: Vec<char> = Vec::new();
    for i in 0..k - 1
        invariant
            v@ == s@,
            0 < k <= v.len(),
            expr@ == without(s@.take(i as int), '"'),
    {
        assert(s@.take(i + 1).drop_last() == s@.take(i as int));
        if v[i] != '"' {
            expr.push(v[i]);
        }
    }
    let mut filename: Vec<char> = Vec::new();
    for i in k..v.len()
        invariant
            v@ == s@,
            k <= v.len(),
            filename@ == s@.subrange(k as int, i as int),
    {
        filename.push(v[i]);
        assert(s@.subrange(k as int, i + 1) == s@.subrange(k as int, i as int).push(s@[i as int]));
    }
    assert(s@.subrange(k as int, v.len() as int) == s@.skip(k as int));
    (string_from_chars(&expr), string_from_chars(&filename))
}

/// The line of the dataset that records `formula` as rendered into `file_name`.
pub open spec fn record_spec(formula: Seq<char>, file_name: Seq<char>) -> Seq<char> {
    formula + seq![','] + file_name
}

/// The dataset line `formula,file_name`.
pub fn dataset_record(formula: &str, file_name: &str) -> (r: String)
    ensures
        r@ == record_spec(formula@, file_name@),
{
    let mut out = chars_of(formula);
    out.push(',');
    let name = chars_of(file_name);
    extend_chars(&mut out, &name);
    string_from_chars(&out)
}

/// Splitting a dataset line gives back the formula and the file name, when the
/// file name has no comma and the formula no double quote.
pub proof fn split_record_inverts_dataset_record(formula: Seq<char>, file_name: Seq<char>)
    requires
        !file_name.contains(','),
        !formula.contains('"'),
    ensures
        split_record(record_spec(formula, file_name)) == (formula, file_name),
{
    let s = record_spec(formula, file_name);
    let k: int = formula.len() as int + 1;
    assert forall|j: int| k <= j < s.len() implies s[j] != ',' by {
        assert(s[j] == file_name[j - k]);
    }
    assert(s[k - 1] == ',');
    lemma_last_index_of(s, ',', k);
    assert(s.take(k - 1) =~= formula);
    assert(s.skip(k) =~= file_name);
    lemma_without_absent(formula, '"');
}

/// The file name of a split line has no comma and its formula no double quote.
pub proof fn split_record_parts_are_clean(s: Seq<char>)
    ensures
        !split_record(s).1.contains(','),
        !split_record(s).0.contains('"'),
{
    lemma_last_index_of_facts(s, ',');
    match last_index_of(s, ',') {
        Some(k) => {
            lemma_without_removes(s.take(k), '"');
            assert forall|j: int| 0 <= j < s.skip(k + 1).len() implies #[trigger] s.skip(k + 1)[j] != ',' by {
                assert(s.skip(k + 1)[j] == s[k + 1 + j]);
            }
        },
        None => {
            assert(without(Seq::<char>::empty(), '"') == Seq::<char>::empty());
        },
    }
}

proof fn lemma_last_index_of_facts(s: Seq<char>, c: char)
    ensures
        last_index_of(s, c) matches Some(k) ==> 0 <= k < s.len() && s[k] == c && forall|j: int|
            k < j < s.len() ==> s[j] != c,
        last_index_of(s, c) is None ==> !s.contains(c),
    decreases s.len(),
{
    if s.len() > 0 && s.last() != c {
        lemma_last_index_of_facts(s.drop_last(), c);
        if let Some(k) = last_index_of(s, c) {
            assert(s[k] == s.drop_last()[k]);
            assert forall|j: int| k < j < s.len() implies s[j] != c by {
                if j < s.len() - 1 {
                    assert(s[j] == s.drop_last()[j]);
                }
            }
        }
        if last_index_of(s, c) is None {
            assert forall|j: int| 0 <= j < s.len() implies s[j] != c by {
                if j < s.len() - 1 {
                    assert(s[j] == s.drop_last()[j]);
                }
            }
        }
    }
}

/// A formula in which neither `\L ` nor `\l ` (backslash, letter, space)
/// occurs is left unchanged by the letter rewrite.
pub proof fn weird_characters_keep_other_formulas(s: Seq<char>)
    requires
        !has_substring(s, r"\L "@),
        !has_substring(s, r"\l "@),
    ensures
        weird_characters_spec(s) == s,
{
    replacing_absent_pattern_is_identity(s, r"\L "@, r"L "@);
    replacing_absent_pattern_is_identity(s, r"\l "@, r"l "@);
}

/// A formula holding none of `\bf`, `\boldmath`, `\it`, `\tt`, `\sf` and `\i `
/// is left unchanged by the font-switch rewrite (so `\int`, `\in`, `\infty`
/// survive it).
pub proof fn font_switches_keep_other_formulas(s: Seq<char>)
    requires
        !has_substring(s, r"\bf"@),
        !has_substring(s, r"\boldmath"@),
        !has_substring(s, r"\it"@),
        !has_substring(s, r"\tt"@),
        !has_substring(s, r"\sf"@),
        !has_substring(s, r"\i "@),
    ensures
        bf_spec(s) == s,
{
    replacing_absent_pattern_is_identity(s, r"\bf"@, r"\mathbf"@);
    replacing_absent_pattern_is_identity(s, r"\boldmath"@, r"\mathbf"@);
    replacing_absent_pattern_is_identity(s, r"\it"@, r"\mathit"@);
    replacing_absent_pattern_is_identity(s, r"\tt"@, r"\texttt"@);
    replacing_absent_pattern_is_identity(s, r"\sf"@, r""@);
    replacing_absent_pattern_is_identity(s, r"\i "@, r"i "@);
}

/// The text-mode filter refuses a formula exactly when one of the listed
/// commands occurs literally (`\c `, `\mit `, `\do `, `\em `, `\large ` and
/// `\raise ` with their trailing space); any other formula is passed through.
pub proof fn text_mods_refuse_only_listed_commands(s: Seq<char>)
    ensures
        has_unsupported_text_mods(s) <==> (
            has_substring(s, r"\small"@)
            || has_substring(s, r"\tiny"@)
            || has_substring(s, r"\c "@)
            || has_substring(s, r"\footnotesize"@)
            || has_substring(s, r"\scriptsize"@)
            || has_substring(s, r"\Bigl"@)
            || has_substring(s, r"\Bigr"@)
            || has_substring(s, r"\hline"@)
            || has_substring(s, r"\raisebox"@)
            || has_substring(s, r"\vphantom"@)
            || has_substring(s, r"\textup"@)
            || has_substring(s, r"`"@)
            || has_substring(s, r"\mit "@)
            || has_substring(s, r"\do "@)
            || has_substring(s, r"\em "@)
            || has_substring(s, r"\atop"@)
            || has_substring(s, r"\large "@)
            || has_substring(s, r"\label"@)
            || has_substring(s, r"\raise "@)
        ),
{
}

/// An `\hspace` measured in `ex` is refused however its argument was spaced:
/// whenever the text after the argument-spacing step matches the `ex` pattern,
/// the result is `None`. Likewise a negative or fractional length in the input
/// is refused.
pub proof fn hspace_refuses_ex_lengths(s: Seq<char>)
    ensures
        matches_somewhere(HSPACE_EX@, rewrite_all(HSPACE_ARGUMENT@, s, Rewrite::SpacedArgument))
            ==> hspace_spec(s) is None,
        matches_somewhere(HSPACE_NEGATIVE@, s) ==> hspace_spec(s) is None,
        matches_somewhere(HSPACE_FRACTION@, s) ==> hspace_spec(s) is None,
{
}

/// The matches `segs` with each whole match replaced by itself without spaces.
pub open spec fn squeezed_matches(segs: Seq<(Seq<char>, Seq<Option<Seq<char>>>)>) -> Seq<
    (Seq<char>, Seq<Option<Seq<char>>>),
> {
    segs.map_values(
        |seg: (Seq<char>, Seq<Option<Seq<char>>>)|
            (seg.0, seq![Some(without(group_text(seg, 0), ' '))]),
    )
}

proof fn lemma_squeeze_is_rejoin(segs: Seq<(Seq<char>, Seq<Option<Seq<char>>>)>)
    ensures
        rewritten(segs, Rewrite::SqueezeSpaces) == rejoined(squeezed_matches(segs)),
    decreases segs.len(),
{
    if segs.len() > 0 {
        lemma_squeeze_is_rejoin(segs.drop_last());
        assert(squeezed_matches(segs).drop_last() =~= squeezed_matches(segs.drop_last()));
        let last = squeezed_matches(segs).last();
        assert(group_text(last, 0) == without(group_text(segs.last(), 0), ' '));
    }
}

/// Every match of the array-columns pattern, wherever it stands, is replaced by
/// itself with its spaces removed, and the text between matches is kept as is.
pub proof fn table_squeezes_every_match(s: Seq<char>)
    requires
        regex_compiles(ARRAY_COLUMNS@),
    ensures
        table_spec(s) == Some(
            rejoined(squeezed_matches(regex_captures(ARRAY_COLUMNS@, s).0)) + regex_captures(
                ARRAY_COLUMNS@,
                s,
            ).1,
        ),
{
    lemma_squeeze_is_rejoin(regex_captures(ARRAY_COLUMNS@, s).0);
}

} // verus!
