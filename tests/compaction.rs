use bstt::text::{
    compress_location, compress_location_with, compress_title, compress_title_with, chars_of,
    drop_group_words, replace_chars, strip_trailing_numeral, Rule, TitleTables,
};

fn text(v: &[char]) -> String {
    v.iter().collect()
}

#[test]
fn compound_rule_wins_over_atomic_rules() {
    assert_eq!(compress_title("Practical Physics-Computing Lecture"), "Labs-Comp Lec");
}

#[test]
fn generic_compound_and_atomic_rules() {
    assert_eq!(compress_title("Practical Physics"), "Labs");
    assert_eq!(compress_title("Introductory Mathematics"), "Intro M");
    assert_eq!(compress_title("Computing Workshop"), "Comp W");
}

#[test]
fn compound_output_then_passes_later_steps() {
    // "Intro M for P" from the phrase table, then " for " is dropped.
    assert_eq!(compress_title("Introductory Mathematics for Physics"), "Intro M P");
    assert_eq!(compress_title("Probability & Statistics for Physicists"), "Prob+Stats P");
}

#[test]
fn connectives_are_compacted() {
    assert_eq!(compress_title("Waves and Optics"), "Waves + Optics");
    assert_eq!(compress_title("Waves & Optics"), "Waves + Optics");
    assert_eq!(compress_title("History of Science"), "History Science");
}

#[test]
fn longest_trailing_numeral_is_removed_once() {
    assert_eq!(compress_title("Course III"), "Course");
    assert_eq!(compress_title("Course IV"), "Course");
    assert_eq!(compress_title("Course V"), "Course");
    assert_eq!(compress_title("Course II"), "Course");
    assert_eq!(compress_title("Course I"), "Course");
    assert_eq!(compress_title("Course II I"), "Course II");
    assert_eq!(compress_title("Vector"), "Vector");
}

#[test]
fn strip_numeral_on_chars() {
    assert_eq!(text(&strip_trailing_numeral(&chars_of("Course III"))), "Course");
    assert_eq!(text(&strip_trailing_numeral(&chars_of("CourseIII"))), "CourseIII");
}

#[test]
fn group_token_is_dropped() {
    assert_eq!(compress_title("Algorithms Grp3"), "Algorithms");
    assert_eq!(compress_title("  grp1 Algorithms   GRP2 Theory "), "Algorithms Theory");
    assert_eq!(text(&drop_group_words(&chars_of("a\tb  Gr c"))), "a b Gr c");
    assert_eq!(text(&drop_group_words(&chars_of("   "))), "");
}

#[test]
fn compaction_is_stable_on_compacted_text() {
    let once = compress_title("Practical Physics-Computing Lecture Grp2");
    assert_eq!(once, "Labs-Comp Lec");
    assert_eq!(compress_title(&once), once);
    let loc = compress_location("Fry Building G.13");
    assert_eq!(compress_location(&loc), loc);
}

#[test]
fn location_rules_apply_in_order() {
    assert_eq!(compress_location("Fry Building G.13"), "Fry G.13");
    assert_eq!(compress_location("Physics Building: Room 1.11"), "Phys:1.11");
    assert_eq!(compress_location("Queen's Building Lecture Theatre 1.4"), "Queens LT 1.4");
    assert_eq!(compress_location("Rear: Biomedical Sciences Building"), " BioSci");
    assert_eq!(compress_location("Old Building"), "Old Bldg");
}

#[test]
fn replacement_scans_left_to_right_without_overlap() {
    let r = replace_chars(&chars_of("aaa"), &chars_of("aa"), &chars_of("b"));
    assert_eq!(text(&r), "ba");
    let r = replace_chars(&chars_of("abcabc"), &chars_of("bc"), &chars_of(""));
    assert_eq!(text(&r), "aa");
}

#[test]
fn custom_tables() {
    let tables = TitleTables {
        compound: vec![Rule::new("Big Data", "BD")],
        atomic: vec![Rule::new("Seminar", "Sem")],
        symbol: vec![],
    };
    assert_eq!(compress_title_with("Big Data Seminar II", &tables), "BD Sem");
    let rules = vec![Rule::new("Hall", "H")];
    assert_eq!(compress_location_with("Wills Hall", &rules), "Wills H");
}

#[test]
fn group_filter_twice_equals_once() {
    let once = drop_group_words(&chars_of("  Grp1 Waves\u{2003}and   Optics grpB "));
    assert_eq!(text(&once), "Waves and Optics");
    assert_eq!(drop_group_words(&once), once);
}
