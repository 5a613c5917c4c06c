use detypstify::scraper::{
    dataset_record, gen_uid, nuke_trailing, process_bf, process_hspace, process_line,
    process_mathcal, process_partial, process_small_space, process_sp, process_table,
    process_text_mods, process_vspace, process_weird_characters, split_to_pieces,
};

fn some(s: &str) -> Option<String> {
    Some(s.to_string())
}

#[test]
fn uid_of_zero_is_twenty_zeros() {
    assert_eq!(gen_uid(0), "00000000000000000000");
}

#[test]
fn uid_is_zero_padded() {
    assert_eq!(gen_uid(42), "00000000000000000042");
    assert_eq!(gen_uid(1234567), "00000000000001234567");
}

#[test]
fn uid_of_largest_index_has_no_padding() {
    assert_eq!(gen_uid(u64::MAX as usize), "18446744073709551615");
}

#[test]
fn uids_of_neighbours_differ() {
    assert_ne!(gen_uid(9), gen_uid(10));
    assert_eq!(gen_uid(9).len(), 20);
    assert_eq!(gen_uid(10).len(), 20);
}

#[test]
fn mathcal_is_rewritten() {
    assert_eq!(process_mathcal(r"\cal A + \cal B".to_string()), some(r"\mathcal A + \mathcal B"));
}

#[test]
fn formula_without_cal_is_unchanged() {
    assert_eq!(process_mathcal(r"\alpha".to_string()), some(r"\alpha"));
}

#[test]
fn sp_and_sb_are_rewritten() {
    assert_eq!(process_sp(r"x\sp 2 + y\sb i".to_string()), some(r"x^ 2 + y_i"));
}

#[test]
fn font_switches_are_rewritten() {
    assert_eq!(process_bf(r"\bf x \it y \tt z".to_string()), some(r"\mathbf x \mathit y \texttt z"));
    assert_eq!(process_bf(r"\boldmath x".to_string()), some(r"\mathbf x"));
    assert_eq!(process_bf(r"\sf x \i j".to_string()), some(r" x i j"));
}

#[test]
fn partial_is_rewritten() {
    assert_eq!(process_partial(r"\d x / \d t".to_string()), some(r"\partial x / \partial t"));
}

#[test]
fn small_space_is_rewritten() {
    assert_eq!(process_small_space(r"a\b b".to_string()), some(r"a\! b"));
}

#[test]
fn weird_letters_are_rewritten() {
    assert_eq!(process_weird_characters(r"\L x \l y".to_string()), some(r"L x l y"));
}

#[test]
fn replacements_do_not_overlap() {
    assert_eq!(process_mathcal(r"\cal\cal".to_string()), some(r"\mathcal\mathcal"));
}

#[test]
fn text_mods_are_rejected() {
    assert_eq!(process_text_mods(r"\small x".to_string()), None);
    assert_eq!(process_text_mods(r"\hline".to_string()), None);
    assert_eq!(process_text_mods(r"a `b`".to_string()), None);
    assert_eq!(process_text_mods(r"\raise x".to_string()), None);
}

#[test]
fn plain_formula_passes_text_mods() {
    assert_eq!(process_text_mods(r"\frac{a}{b}".to_string()), some(r"\frac{a}{b}"));
}

#[test]
fn vspace_is_rejected() {
    assert_eq!(process_vspace(r"a \vspace{1em} b".to_string()), None);
    assert_eq!(process_vspace(r"a \thinspace b".to_string()), None);
    assert_eq!(process_vspace(r"a \hspace{1em} b".to_string()), some(r"a \hspace{1em} b"));
}

#[test]
fn trailing_backslash_is_dropped() {
    assert_eq!(nuke_trailing(r"x \\".to_string()), some(r"x \"));
    assert_eq!(nuke_trailing(r"x \".to_string()), some(r"x "));
    assert_eq!(nuke_trailing("x".to_string()), some("x"));
    assert_eq!(nuke_trailing(String::new()), some(""));
}

#[test]
fn array_columns_lose_their_spaces() {
    assert_eq!(
        process_table(r"\begin{array} {c c l} a & b & c \end{array}".to_string()),
        some(r"\begin{array}{ccl} a & b & c \end{array}")
    );
}

#[test]
fn text_without_array_is_unchanged_by_table() {
    assert_eq!(process_table(r"a + b".to_string()), some(r"a + b"));
}

#[test]
fn negative_hspace_is_rejected() {
    assert_eq!(process_hspace(r"a \hspace{-1em} b".to_string()), None);
    assert_eq!(process_hspace(r"a \hspace { ~1em} b".to_string()), None);
}

#[test]
fn fractional_hspace_is_rejected() {
    assert_eq!(process_hspace(r"\hspace{0.5cm}".to_string()), None);
}

#[test]
fn hspace_argument_is_spaced() {
    assert_eq!(process_hspace(r"a\hspace{ 1 cm}b".to_string()), some(r"a\hspace { 1cm }b"));
}

#[test]
fn hspace_in_ex_is_rejected() {
    assert_eq!(process_hspace(r"\hspace{2ex}".to_string()), None);
}

#[test]
fn hspace_millimetres_are_converted() {
    assert_eq!(process_hspace(r"\hspace{12mm}".to_string()), some(r"\hspace {120cm}"));
}

#[test]
fn single_digit_millimetres_are_rejected() {
    assert_eq!(process_hspace(r"\hspace{5mm}".to_string()), None);
}

#[test]
fn millimetres_too_large_are_rejected() {
    assert_eq!(process_hspace(r"\hspace{99999999999mm}".to_string()), None);
}

#[test]
fn starred_hspace_is_rejected_in_spaced_form() {
    assert_eq!(process_hspace(r"\hspace*{ 1cm}".to_string()), None);
}

#[test]
fn formula_without_hspace_is_unchanged() {
    assert_eq!(process_hspace(r"x^2".to_string()), some(r"x^2"));
}

#[test]
fn line_is_cleaned_up() {
    assert_eq!(process_line(r"\cal A \sp 2 + \it x".to_string()), some(r"\mathcal A ^ 2 + \mathit x"));
}

#[test]
fn line_with_trailing_backslash() {
    assert_eq!(process_line(r"a \d x \".to_string()), some(r"a \partial x "));
}

#[test]
fn line_with_unsupported_spacing_is_rejected() {
    assert_eq!(process_line(r"x \vspace{1em}".to_string()), None);
    assert_eq!(process_line(r"x \hspace{-2mm}".to_string()), None);
    assert_eq!(process_line(r"\small x".to_string()), None);
}

#[test]
fn line_with_array_and_hspace() {
    assert_eq!(
        process_line(r"\begin{array} {l r} a & \hspace{10mm} b \end{array}".to_string()),
        some(r"\begin{array}{lr} a & \hspace {100cm} b \end{array}")
    );
}

#[test]
fn record_is_split_at_last_comma() {
    assert_eq!(split_to_pieces("a,b,c"), ("a,b".to_string(), "c".to_string()));
}

#[test]
fn record_quotes_are_dropped() {
    assert_eq!(split_to_pieces("\"x+y\",00000000000000000001.svg"), ("x+y".to_string(), "00000000000000000001.svg".to_string()));
}

#[test]
fn record_without_comma_is_all_file_name() {
    assert_eq!(split_to_pieces("abc"), (String::new(), "abc".to_string()));
    assert_eq!(split_to_pieces(""), (String::new(), String::new()));
}

#[test]
fn record_round_trip() {
    let line = dataset_record("$x + y$", "00000000000000000007.svg");
    assert_eq!(line, "$x + y$,00000000000000000007.svg");
    assert_eq!(split_to_pieces(&line), ("$x + y$".to_string(), "00000000000000000007.svg".to_string()));
}

#[test]
fn uids_sort_like_their_indices() {
    assert!(gen_uid(9) < gen_uid(10));
    assert!(gen_uid(99) < gen_uid(100));
    assert!(gen_uid(123456) < gen_uid(1234567));
}

#[test]
fn mathcal_is_idempotent() {
    for s in [r"\\cal x", r"\cal\cal", r"\calc", r"a\ca\cal"] {
        let once = process_mathcal(s.to_string()).unwrap();
        assert!(!once.contains(r"\cal"));
        assert_eq!(process_mathcal(once.clone()), Some(once));
    }
}
