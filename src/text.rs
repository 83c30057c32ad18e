//! Table-driven compaction of free-text titles and locations.
use vstd::prelude::*;
use vstd::string::StrSliceExecFns;

verus! {

/// The characters of `s`, in order.
pub fn chars_of(s: &str) -> (r: Vec<char>)
    ensures
        r@ == s@,
{
    let n = s.unicode_len();
    let mut out: Vec<char> = Vec::new();
    let mut i: usize = 0;
    while i < n
        invariant
            n == s@.len(),
            i <= n,
            out@ == s@.subrange(0, i as int),
        decreases n - i,
    {
        out.push(s.get_char(i));
        i += 1;
        assert(out@ =~= s@.subrange(0, i as int));
    }
    assert(out@ =~= s@);
    out
}

/// Relies on std's `FromIterator<&char>` for `String`: the string holds the
/// characters in order.
#[verifier::external_body]
pub(crate) fn string_of(v: &Vec<char>) -> (r: String)
    ensures
        r@ == v@,
{
    v.iter().collect()
}

/// `s` with each occurrence of `find` replaced by `with`, scanning from the
/// left, occurrences not overlapping. An empty `find` matches nowhere.
pub open spec fn replace_all(s: Seq<char>, find: Seq<char>, with: Seq<char>) -> Seq<char>
    decreases s.len(),
{
    if find.len() == 0 || s.len() < find.len() {
        s
    } else if s.subrange(0, find.len() as int) == find {
        with + replace_all(s.subrange(find.len() as int, s.len() as int), find, with)
    } else {
        seq![s[0]] + replace_all(s.subrange(1, s.len() as int), find, with)
    }
}

/// The rewrites of `rules` applied to `s`, one after another, in order.
pub open spec fn apply_rules(s: Seq<char>, rules: Seq<(Seq<char>, Seq<char>)>) -> Seq<char>
    decreases rules.len(),
{
    if rules.len() == 0 {
        s
    } else {
        apply_rules(
            replace_all(s, rules[0].0, rules[0].1),
            rules.subrange(1, rules.len() as int),
        )
    }
}

/// One literal rewrite: each occurrence of `find` becomes `replace`.
pub struct Rule {
    pub find: Vec<char>,
    pub replace: Vec<char>,
}

impl Rule {
    pub fn new(find: &str, replace: &str) -> (r: Rule)
        ensures
            r.find@ == find@,
            r.replace@ == replace@,
    {
        Rule { find: chars_of(find), replace: chars_of(replace) }
    }
}

/// Every rule of `rules` has a pattern of at least one character.
pub open spec fn patterns_nonempty(rules: Seq<(Seq<char>, Seq<char>)>) -> bool {
    forall|k: int| 0 <= k < rules.len() ==> (#[trigger] rules[k]).0.len() > 0
}

/// What a list of rules rewrites, as pairs of character sequences.
pub open spec fn pairs(rules: Seq<Rule>) -> Seq<(Seq<char>, Seq<char>)> {
    rules.map_values(|r: Rule| (r.find@, r.replace@))
}

/// Whether `p` occurs in `s` at position `i`.
fn occurs_at(s: &Vec<char>, i: usize, p: &Vec<char>) -> (b: bool)
    requires
        i + p@.len() <= s@.len(),
    ensures
        b == (s@.subrange(i as int, i + p@.len()) == p@),
{
    let mut j: usize = 0;
    while j < p.len()
        invariant
            i + p@.len() <= s@.len(),
            j <= p@.len(),
            p@.len() == p.len(),
            i + p.len() <= s.len(),
            s@.subrange(i as int, i + j) == p@.subrange(0, j as int),
        decreases p@.len() - j,
    {
        if s[i + j] != p[j] {
            assert(s@.subrange(i as int, i + p@.len())[j as int] != p@[j as int]);
            return false;
        }
        j += 1;
        assert(s@.subrange(i as int, i + j) =~= p@.subrange(0, j as int));
    }
    assert(p@.subrange(0, j as int) =~= p@);
    true
}

/// Replaces each occurrence of `find` in `s` by `with`.
pub fn replace_chars(s: &Vec<char>, find: &Vec<char>, with: &Vec<char>) -> (r: Vec<char>)
    requires
        find@.len() > 0,
    ensures
        r@ == replace_all(s@, find@, with@),
{
    let n = s.len();
    let m = find.len();
    let mut out: Vec<char> = Vec::new();
    let mut i: usize = 0;
    assert(s@.subrange(0, n as int) =~= s@);
    while i < n
        invariant
            n == s@.len(),
            m == find@.len(),
            m > 0,
            i <= n,
            out@ + replace_all(s@.subrange(i as int, n as int), find@, with@)
                == replace_all(s@, find@, with@),
        decreases n - i,
    {
        let ghost rest = s@.subrange(i as int, n as int);
        if m <= n - i && occurs_at(s, i, find) {
            assert(rest.subrange(0, m as int) =~= s@.subrange(i as int, i + m));
            assert(rest.subrange(m as int, rest.len() as int) =~= s@.subrange(i + m, n as int));
            let ghost before = out@;
            out.extend_from_slice(with.as_slice());
            assert(out@ =~= before + with@);
            assert(out@ + replace_all(s@.subrange(i + m, n as int), find@, with@)
                =~= before + replace_all(rest, find@, with@));
            i += m;
        } else {
            assert(rest.subrange(1, rest.len() as int) =~= s@.subrange(i + 1, n as int));
            if m <= n - i {
                assert(rest.subrange(0, m as int) =~= s@.subrange(i as int, i + m));
            } else {
                assert(replace_all(rest, find@, with@) == rest);
                assert(rest.len() >= 1);
                assert(replace_all(s@.subrange(i + 1, n as int), find@, with@)
                    == s@.subrange(i + 1, n as int));
            }
            let ghost before = out@;
            out.push(s[i]);
            assert(out@ + replace_all(s@.subrange(i + 1, n as int), find@, with@)
                =~= before + replace_all(rest, find@, with@));
            i += 1;
        }
    }
    assert(s@.subrange(n as int, n as int) =~= Seq::<char>::empty());
    assert(out@ + replace_all(s@.subrange(n as int, n as int), find@, with@) =~= out@);
    out
}

/// Applies each rule of `rules` to `s`, in order, each to the result of the one
/// before.
pub fn apply_rule_list(s: &Vec<char>, rules: &Vec<Rule>) -> (r: Vec<char>)
    requires
        patterns_nonempty(pairs(rules@)),
    ensures
        r@ == apply_rules(s@, pairs(rules@)),
{
    let mut cur: Vec<char> = Vec::new();
    cur.extend_from_slice(s.as_slice());
    let k = rules.len();
    let mut i: usize = 0;
    assert(pairs(rules@).subrange(0, k as int) =~= pairs(rules@));
    assert(cur@ =~= s@);
    while i < k
        invariant
            k == rules@.len(),
            i <= k,
            patterns_nonempty(pairs(rules@)),
            apply_rules(cur@, pairs(rules@).subrange(i as int, k as int))
                == apply_rules(s@, pairs(rules@)),
        decreases k - i,
    {
        let ghost tail = pairs(rules@).subrange(i as int, k as int);
        assert(pairs(rules@)[i as int].0.len() > 0);
        cur = replace_chars(&cur, &rules[i].find, &rules[i].replace);
        assert(tail.subrange(1, tail.len() as int) =~= pairs(rules@).subrange(i + 1, k as int));
        i += 1;
    }
    cur
}

/// Whether `s` ends with `p`.
pub open spec fn ends_with(s: Seq<char>, p: Seq<char>) -> bool {
    p.len() <= s.len() && s.subrange(s.len() - p.len(), s.len() as int) == p
}

/// `s` without its last `k` characters.
pub open spec fn cut(s: Seq<char>, k: int) -> Seq<char> {
    s.subrange(0, s.len() - k)
}

/// `s` without one trailing roman numeral: the first of " V", " IV", " III",
/// " II", " I" that ends `s` is removed, and nothing more.
pub open spec fn strip_numeral(s: Seq<char>) -> Seq<char> {
    if ends_with(s, seq![' ', 'V']) {
        cut(s, 2)
    } else if ends_with(s, seq![' ', 'I', 'V']) {
        cut(s, 3)
    } else if ends_with(s, seq![' ', 'I', 'I', 'I']) {
        cut(s, 4)
    } else if ends_with(s, seq![' ', 'I', 'I']) {
        cut(s, 3)
    } else if ends_with(s, seq![' ', 'I']) {
        cut(s, 2)
    } else {
        s
    }
}

fn ends_with_chars(s: &Vec<char>, p: &Vec<char>) -> (b: bool)
    ensures
        b == ends_with(s@, p@),
{
    if p.len() > s.len() {
        return false;
    }
    occurs_at(s, s.len() - p.len(), p)
}

fn truncated(s: &Vec<char>, k: usize) -> (r: Vec<char>)
    requires
        k <= s@.len(),
    ensures
        r@ == cut(s@, k as int),
{
    let n = s.len() - k;
    let mut out: Vec<char> = Vec::new();
    out.extend_from_slice(s.as_slice());
    out.truncate(n);
    assert(out@ =~= cut(s@, k as int));
    out
}

/// Removes one trailing roman numeral, preferring the longest that matches.
pub fn strip_trailing_numeral(s: &Vec<char>) -> (r: Vec<char>)
    ensures
        r@ == strip_numeral(s@),
{
    let v = vec![' ', 'V'];
    let iv = vec![' ', 'I', 'V'];
    let iii = vec![' ', 'I', 'I', 'I'];
    let ii = vec![' ', 'I', 'I'];
    let i = vec![' ', 'I'];
    assert(v@ =~= seq![' ', 'V']);
    assert(iv@ =~= seq![' ', 'I', 'V']);
    assert(iii@ =~= seq![' ', 'I', 'I', 'I']);
    assert(ii@ =~= seq![' ', 'I', 'I']);
    assert(i@ =~= seq![' ', 'I']);
    if ends_with_chars(s, &v) {
        truncated(s, 2)
    } else if ends_with_chars(s, &iv) {
        truncated(s, 3)
    } else if ends_with_chars(s, &iii) {
        truncated(s, 4)
    } else if ends_with_chars(s, &ii) {
        truncated(s, 3)
    } else if ends_with_chars(s, &i) {
        truncated(s, 2)
    } else {
        truncated(s, 0)
    }
}

/// Unicode's White_Space characters, those that `char::is_whitespace` accepts.
pub open spec fn is_space(c: char) -> bool {
    ('\u{9}' <= c && c <= '\u{d}') || c == ' ' || c == '\u{85}' || c == '\u{a0}'
        || c == '\u{1680}' || ('\u{2000}' <= c && c <= '\u{200a}') || c == '\u{2028}'
        || c == '\u{2029}' || c == '\u{202f}' || c == '\u{205f}' || c == '\u{3000}'
}

pub fn space(c: char) -> (b: bool)
    ensures
        b == is_space(c),
{
    ('\u{9}' <= c && c <= '\u{d}') || c == ' ' || c == '\u{85}' || c == '\u{a0}'
        || c == '\u{1680}' || ('\u{2000}' <= c && c <= '\u{200a}') || c == '\u{2028}'
        || c == '\u{2029}' || c == '\u{202f}' || c == '\u{205f}' || c == '\u{3000}'
}

/// A finished word, if any.
pub open spec fn flush(cur: Seq<char>) -> Seq<Seq<char>> {
    if cur.len() == 0 {
        seq![]
    } else {
        seq![cur]
    }
}

/// The words of `s`, the first of them continuing `cur`: maximal runs of
/// characters that are not white space.
pub open spec fn split_words(s: Seq<char>, cur: Seq<char>) -> Seq<Seq<char>>
    decreases s.len(),
{
    if s.len() == 0 {
        flush(cur)
    } else if is_space(s[0]) {
        flush(cur) + split_words(s.drop_first(), seq![])
    } else {
        split_words(s.drop_first(), cur.push(s[0]))
    }
}

/// The words of `s`, in order.
pub open spec fn words(s: Seq<char>) -> Seq<Seq<char>> {
    split_words(s, seq![])
}

/// `ws` joined with single spaces.
pub open spec fn join(ws: Seq<Seq<char>>) -> Seq<char>
    decreases ws.len(),
{
    if ws.len() == 0 {
        seq![]
    } else if ws.len() == 1 {
        ws[0]
    } else {
        join(ws.drop_last()) + seq![' '] + ws.last()
    }
}

/// A group or section qualifier: a word whose lower-case form starts with
/// "grp". No character but `G`, `R`, `P` lowers to `g`, `r`, `p`, and none
/// lowers to more than one character starting with them.
pub open spec fn is_group_word(w: Seq<char>) -> bool {
    w.len() >= 3 && (w[0] == 'g' || w[0] == 'G') && (w[1] == 'r' || w[1] == 'R')
        && (w[2] == 'p' || w[2] == 'P')
}

/// Whether a word is kept by the group filter.
pub open spec fn kept(w: Seq<char>) -> bool {
    !is_group_word(w)
}

/// The words of `ws` that are not group qualifiers, in order.
pub open spec fn kept_words(ws: Seq<Seq<char>>) -> Seq<Seq<char>> {
    ws.filter(|w: Seq<char>| kept(w))
}

/// The words of `s` but the group qualifiers, joined with single spaces.
pub open spec fn drop_groups(s: Seq<char>) -> Seq<char> {
    join(kept_words(words(s)))
}

fn group_word(w: &Vec<char>) -> (b: bool)
    ensures
        b == is_group_word(w@),
{
    w.len() >= 3 && (w[0] == 'g' || w[0] == 'G') && (w[1] == 'r' || w[1] == 'R')
        && (w[2] == 'p' || w[2] == 'P')
}

proof fn lemma_join_push(ws: Seq<Seq<char>>, w: Seq<char>)
    ensures
        join(ws.push(w)) == if ws.len() == 0 { w } else { join(ws) + seq![' '] + w },
{
    assert(ws.push(w).drop_last() =~= ws);
    if ws.len() == 0 {
        assert(ws.push(w)[0] == w);
    }
}

/// Appends the finished word `w` to `out` (which joins `done`'s kept words)
/// unless it is a group qualifier.
fn emit_word(out: &mut Vec<char>, any: &mut bool, w: &Vec<char>, Ghost(done): Ghost<Seq<Seq<char>>>)
    requires
        old(out)@ == join(done.filter(|x: Seq<char>| kept(x))),
        *old(any) == (done.filter(|x: Seq<char>| kept(x)).len() > 0),
    ensures
        final(out)@ == join((done + flush(w@)).filter(|x: Seq<char>| kept(x))),
        *final(any) == ((done + flush(w@)).filter(|x: Seq<char>| kept(x)).len() > 0),
{
    let ghost keep = |x: Seq<char>| kept(x);
    if w.len() > 0 {
        proof {
            done.lemma_filter_push(w@, keep);
            lemma_join_push(done.filter(keep), w@);
            assert(done + flush(w@) =~= done.push(w@));
        }
        if !group_word(w) {
            if *any {
                out.push(' ');
            }
            out.extend_from_slice(w.as_slice());
            *any = true;
        }
    } else {
        assert(done + flush(w@) =~= done);
    }
}

/// Drops every word whose lower-case form starts with "grp" and rejoins the
/// rest with single spaces.
pub fn drop_group_words(s: &Vec<char>) -> (r: Vec<char>)
    ensures
        r@ == drop_groups(s@),
{
    let n = s.len();
    let mut out: Vec<char> = Vec::new();
    let mut cur: Vec<char> = Vec::new();
    let mut any = false;
    let ghost done: Seq<Seq<char>> = seq![];
    let ghost keep = |w: Seq<char>| kept(w);
    let mut i: usize = 0;
    assert(s@.subrange(0, n as int) =~= s@);
    while i < n
        invariant
            n == s@.len(),
            i <= n,
            keep == (|w: Seq<char>| kept(w)),
            done + split_words(s@.subrange(i as int, n as int), cur@) == words(s@),
            out@ == join(done.filter(keep)),
            any == (done.filter(keep).len() > 0),
        decreases n - i,
    {
        let ghost rest = s@.subrange(i as int, n as int);
        assert(rest.drop_first() =~= s@.subrange(i + 1, n as int));
        if space(s[i]) {
            emit_word(&mut out, &mut any, &cur, Ghost(done));
            proof {
                assert(done + flush(cur@) + split_words(rest.drop_first(), seq![])
                    =~= done + (flush(cur@) + split_words(rest.drop_first(), seq![])));
                done = done + flush(cur@);
            }
            cur = Vec::new();
            assert(cur@ =~= seq![]);
        } else {
            cur.push(s[i]);
        }
        i += 1;
    }
    assert(s@.subrange(n as int, n as int).len() == 0);
    emit_word(&mut out, &mut any, &cur, Ghost(done));
    out
}

/// Multi-word phrases of titles, most specific first.
pub open spec fn compound_table() -> Seq<(Seq<char>, Seq<char>)> {
    seq![
        ("Software Engineering"@, "SE"@),
        ("Data Structures"@, "DS"@),
        ("Intro to AI"@, "AI"@),
        ("Practical Physics-Computing Lecture"@, "Labs-Comp Lec"@),
        ("Practical Physics-Computing Drop-in"@, "Labs-Comp DI"@),
        ("Probability & Statistics for Physicists"@, "Prob+Stats P"@),
        ("Introductory Mathematics for Physics"@, "Intro M for P"@),
        ("Intro to Coding and Data Analysis"@, "Coding+D.A."@),
        ("Core Physics I Problem Class"@, "Core P PrbCls"@),
        ("Intro Mathematics Examples Class"@, "Intro M ExCls"@),
        ("Practical Physics"@, "Labs"@),
        ("Problem Class"@, "PrbCls"@),
    ]
}

/// Single words of titles.
pub open spec fn atomic_table() -> Seq<(Seq<char>, Seq<char>)> {
    seq![
        ("Introductory"@, "Intro"@),
        ("Introduction"@, "Intro"@),
        ("Mathematics"@, "M"@),
        ("Physics"@, "P"@),
        ("Probability"@, "Prob"@),
        ("Statistics"@, "Stats"@),
        ("Computing"@, "Comp"@),
        ("Lecture"@, "Lec"@),
        ("Tutorial"@, "Tut"@),
        ("Workshop"@, "W"@),
        ("Project"@, "Proj"@),
        ("Assembly"@, "Asmbly"@),
    ]
}

/// Connective words of titles.
pub open spec fn symbol_table() -> Seq<(Seq<char>, Seq<char>)> {
    seq![
        (" and "@, " + "@),
        (" & "@, " + "@),
        (" for "@, " "@),
        (" of "@, " "@),
        (" to "@, " "@),
    ]
}

/// Building names and room qualifiers of locations.
pub open spec fn location_table() -> Seq<(Seq<char>, Seq<char>)> {
    seq![
        ("Physics Building"@, "Phys"@),
        ("Priory Road Complex"@, "PrioryRd"@),
        ("Biomedical Sciences Building"@, "BioSci"@),
        ("31-37 St. Michael's Hill"@, "StMichHill"@),
        ("Queen's Building"@, "Queens"@),
        ("Chemistry Building"@, "Chem"@),
        ("Fry Building"@, "Fry"@),
        ("Lecture Theatre"@, "LT"@),
        ("Building"@, "Bldg"@),
        ("Complex"@, "Cmplx"@),
        (" Room"@, ""@),
        ("Rear:"@, ""@),
        (": "@, ":"@),
    ]
}

/// The multi-word phrase rewrites of titles, most specific first.
pub fn compound_rules() -> (r: Vec<Rule>)
    ensures
        pairs(r@) == compound_table(),
        patterns_nonempty(compound_table()),
{
    let r = vec![
        Rule::new("Software Engineering", "SE"),
        Rule::new("Data Structures", "DS"),
        Rule::new("Intro to AI", "AI"),
        Rule::new("Practical Physics-Computing Lecture", "Labs-Comp Lec"),
        Rule::new("Practical Physics-Computing Drop-in", "Labs-Comp DI"),
        Rule::new("Probability & Statistics for Physicists", "Prob+Stats P"),
        Rule::new("Introductory Mathematics for Physics", "Intro M for P"),
        Rule::new("Intro to Coding and Data Analysis", "Coding+D.A."),
        Rule::new("Core Physics I Problem Class", "Core P PrbCls"),
        Rule::new("Intro Mathematics Examples Class", "Intro M ExCls"),
        Rule::new("Practical Physics", "Labs"),
        Rule::new("Problem Class", "PrbCls"),
    ];
    proof {
        reveal_strlit("Software Engineering");
        reveal_strlit("Data Structures");
        reveal_strlit("Intro to AI");
        reveal_strlit("Practical Physics-Computing Lecture");
        reveal_strlit("Practical Physics-Computing Drop-in");
        reveal_strlit("Probability & Statistics for Physicists");
        reveal_strlit("Introductory Mathematics for Physics");
        reveal_strlit("Intro to Coding and Data Analysis");
        reveal_strlit("Core Physics I Problem Class");
        reveal_strlit("Intro Mathematics Examples Class");
        reveal_strlit("Practical Physics");
        reveal_strlit("Problem Class");
    }
    assert(pairs(r@) =~= compound_table());
    r
}

/// The single-word rewrites of titles.
pub fn atomic_rules() -> (r: Vec<Rule>)
    ensures
        pairs(r@) == atomic_table(),
        patterns_nonempty(atomic_table()),
{
    let r = vec![
        Rule::new("Introductory", "Intro"),
        Rule::new("Introduction", "Intro"),
        Rule::new("Mathematics", "M"),
        Rule::new("Physics", "P"),
        Rule::new("Probability", "Prob"),
        Rule::new("Statistics", "Stats"),
        Rule::new("Computing", "Comp"),
        Rule::new("Lecture", "Lec"),
        Rule::new("Tutorial", "Tut"),
        Rule::new("Workshop", "W"),
        Rule::new("Project", "Proj"),
        Rule::new("Assembly", "Asmbly"),
    ];
    proof {
        reveal_strlit("Introductory");
        reveal_strlit("Introduction");
        reveal_strlit("Mathematics");
        reveal_strlit("Physics");
        reveal_strlit("Probability");
        reveal_strlit("Statistics");
        reveal_strlit("Computing");
        reveal_strlit("Lecture");
        reveal_strlit("Tutorial");
        reveal_strlit("Workshop");
        reveal_strlit("Project");
        reveal_strlit("Assembly");
    }
    assert(pairs(r@) =~= atomic_table());
    r
}

/// The connective-word rewrites of titles.
pub fn symbol_rules() -> (r: Vec<Rule>)
    ensures
        pairs(r@) == symbol_table(),
        patterns_nonempty(symbol_table()),
{
    let r = vec![
        Rule::new(" and ", " + "),
        Rule::new(" & ", " + "),
        Rule::new(" for ", " "),
        Rule::new(" of ", " "),
        Rule::new(" to ", " "),
    ];
    proof {
        reveal_strlit(" and ");
        reveal_strlit(" & ");
        reveal_strlit(" for ");
        reveal_strlit(" of ");
        reveal_strlit(" to ");
    }
    assert(pairs(r@) =~= symbol_table());
    r
}

/// The rewrites of locations, in the order they apply.
pub fn location_rules() -> (r: Vec<Rule>)
    ensures
        pairs(r@) == location_table(),
        patterns_nonempty(location_table()),
{
    let r = vec![
        Rule::new("Physics Building", "Phys"),
        Rule::new("Priory Road Complex", "PrioryRd"),
        Rule::new("Biomedical Sciences Building", "BioSci"),
        Rule::new("31-37 St. Michael's Hill", "StMichHill"),
        Rule::new("Queen's Building", "Queens"),
        Rule::new("Chemistry Building", "Chem"),
        Rule::new("Fry Building", "Fry"),
        Rule::new("Lecture Theatre", "LT"),
        Rule::new("Building", "Bldg"),
        Rule::new("Complex", "Cmplx"),
        Rule::new(" Room", ""),
        Rule::new("Rear:", ""),
        Rule::new(": ", ":"),
    ];
    proof {
        reveal_strlit("Physics Building");
        reveal_strlit("Priory Road Complex");
        reveal_strlit("Biomedical Sciences Building");
        reveal_strlit("31-37 St. Michael's Hill");
        reveal_strlit("Queen's Building");
        reveal_strlit("Chemistry Building");
        reveal_strlit("Fry Building");
        reveal_strlit("Lecture Theatre");
        reveal_strlit("Building");
        reveal_strlit("Complex");
        reveal_strlit(" Room");
        reveal_strlit("Rear:");
        reveal_strlit(": ");
    }
    assert(pairs(r@) =~= location_table());
    r
}

/// The ordered rewrite tables of the title pipeline.
pub struct TitleTables {
    pub compound: Vec<Rule>,
    pub atomic: Vec<Rule>,
    pub symbol: Vec<Rule>,
}

/// The compacted form of a title: phrase, word and connective rewrites in
/// turn, then one trailing numeral removed, then group qualifiers dropped and
/// the words rejoined with single spaces.
pub open spec fn compact_title(
    s: Seq<char>,
    compound: Seq<(Seq<char>, Seq<char>)>,
    atomic: Seq<(Seq<char>, Seq<char>)>,
    symbol: Seq<(Seq<char>, Seq<char>)>,
) -> Seq<char> {
    drop_groups(strip_numeral(apply_rules(apply_rules(apply_rules(s, compound), atomic), symbol)))
}

/// The compacted form of a title under the standard tables.
pub open spec fn short_title(s: Seq<char>) -> Seq<char> {
    compact_title(s, compound_table(), atomic_table(), symbol_table())
}

/// The compacted form of a location under the standard table.
pub open spec fn short_location(s: Seq<char>) -> Seq<char> {
    apply_rules(s, location_table())
}

impl TitleTables {
    /// The standard tables.
    pub fn standard() -> (r: TitleTables)
        ensures
            pairs(r.compound@) == compound_table(),
            pairs(r.atomic@) == atomic_table(),
            pairs(r.symbol@) == symbol_table(),
            patterns_nonempty(compound_table()),
            patterns_nonempty(atomic_table()),
            patterns_nonempty(symbol_table()),
    {
        TitleTables { compound: compound_rules(), atomic: atomic_rules(), symbol: symbol_rules() }
    }
}

/// Compacts a title with the given tables.
pub fn compress_title_with(title: &str, tables: &TitleTables) -> (r: String)
    requires
        patterns_nonempty(pairs(tables.compound@)),
        patterns_nonempty(pairs(tables.atomic@)),
        patterns_nonempty(pairs(tables.symbol@)),
    ensures
        r@ == compact_title(title@, pairs(tables.compound@), pairs(tables.atomic@), pairs(tables.symbol@)),
{
    let s = chars_of(title);
    let s = apply_rule_list(&s, &tables.compound);
    let s = apply_rule_list(&s, &tables.atomic);
    let s = apply_rule_list(&s, &tables.symbol);
    let s = strip_trailing_numeral(&s);
    let s = drop_group_words(&s);
    string_of(&s)
}

/// Compacts a title with the standard tables.
pub fn compress_title(title: &str) -> (r: String)
    ensures
        r@ == short_title(title@),
{
    let tables = TitleTables::standard();
    compress_title_with(title, &tables)
}

/// Compacts a location with the given table.
pub fn compress_location_with(location: &str, rules: &Vec<Rule>) -> (r: String)
    requires
        patterns_nonempty(pairs(rules@)),
    ensures
        r@ == apply_rules(location@, pairs(rules@)),
{
    let s = chars_of(location);
    let s = apply_rule_list(&s, rules);
    string_of(&s)
}

/// Compacts a location with the standard table.
pub fn compress_location(location: &str) -> (r: String)
    ensures
        r@ == short_location(location@),
{
    let rules = location_rules();
    compress_location_with(location, &rules)
}

/// Whether `p` occurs anywhere in `s`.
pub open spec fn occurs(s: Seq<char>, p: Seq<char>) -> bool {
    exists|i: int| 0 <= i && i + p.len() <= s.len() && #[trigger] s.subrange(i, i + p.len()) == p
}

/// Whether no pattern of `rules` occurs in `s`.
pub open spec fn untouched_by(s: Seq<char>, rules: Seq<(Seq<char>, Seq<char>)>) -> bool {
    forall|k: int| 0 <= k < rules.len() ==> !occurs(s, #[trigger] rules[k].0)
}

/// A rewrite whose pattern does not occur leaves the text as it is.
pub proof fn lemma_replace_absent(s: Seq<char>, find: Seq<char>, with: Seq<char>)
    requires
        find.len() > 0 ==> !occurs(s, find),
    ensures
        replace_all(s, find, with) == s,
    decreases s.len(),
{
    if find.len() > 0 && s.len() >= find.len() {
        let rest = s.subrange(1, s.len() as int);
        assert(s.subrange(0int, 0int + find.len()) != find);
        assert forall|i: int| 0 <= i && i + find.len() <= rest.len() implies
            #[trigger] rest.subrange(i, i + find.len()) != find by {
            assert(rest.subrange(i, i + find.len()) =~= s.subrange(i + 1, i + 1 + find.len()));
        }
        lemma_replace_absent(rest, find, with);
        assert(seq![s[0]] + rest =~= s);
    }
}

/// Rules none of whose patterns occur leave the text as it is.
pub proof fn lemma_rules_absent(s: Seq<char>, rules: Seq<(Seq<char>, Seq<char>)>)
    requires
        untouched_by(s, rules),
    ensures
        apply_rules(s, rules) == s,
    decreases rules.len(),
{
    if rules.len() > 0 {
        lemma_replace_absent(s, rules[0].0, rules[0].1);
        let tail = rules.subrange(1, rules.len() as int);
        assert forall|k: int| 0 <= k < tail.len() implies !occurs(s, #[trigger] tail[k].0) by {
            assert(tail[k] == rules[k + 1]);
        }
        lemma_rules_absent(s, tail);
    }
}

/// A word: at least one character, none of them white space.
pub open spec fn is_word(w: Seq<char>) -> bool {
    w.len() > 0 && forall|i: int| 0 <= i < w.len() ==> !is_space(#[trigger] w[i])
}

/// Whether `s` ends with one of the roman numerals that compaction strips.
pub open spec fn ends_with_numeral(s: Seq<char>) -> bool {
    ends_with(s, seq![' ', 'V']) || ends_with(s, seq![' ', 'I', 'V'])
        || ends_with(s, seq![' ', 'I', 'I', 'I']) || ends_with(s, seq![' ', 'I', 'I'])
        || ends_with(s, seq![' ', 'I'])
}

proof fn lemma_split_word_prefix(w: Seq<char>, rest: Seq<char>, cur: Seq<char>)
    requires
        forall|i: int| 0 <= i < w.len() ==> !is_space(#[trigger] w[i]),
    ensures
        split_words(w + rest, cur) == split_words(rest, cur + w),
    decreases w.len(),
{
    if w.len() == 0 {
        assert(w + rest =~= rest);
        assert(cur + w =~= cur);
    } else {
        assert((w + rest)[0] == w[0]);
        assert((w + rest).drop_first() =~= w.drop_first() + rest);
        assert forall|i: int| 0 <= i < w.drop_first().len() implies !is_space(#[trigger] w.drop_first()[i]) by {
            assert(w.drop_first()[i] == w[i + 1]);
        }
        lemma_split_word_prefix(w.drop_first(), rest, cur.push(w[0]));
        assert(cur.push(w[0]) + w.drop_first() =~= cur + w);
    }
}

proof fn lemma_split_join(ws: Seq<Seq<char>>, tail: Seq<char>)
    requires
        ws.len() > 0,
        forall|k: int| 0 <= k < ws.len() ==> is_word(#[trigger] ws[k]),
    ensures
        split_words(join(ws) + tail, seq![]) == ws.drop_last() + split_words(tail, ws.last()),
    decreases ws.len(),
{
    let w = ws.last();
    assert(is_word(ws[ws.len() - 1]));
    lemma_split_word_prefix(w, tail, seq![]);
    assert(Seq::<char>::empty() + w =~= w);
    if ws.len() == 1 {
        assert(ws.drop_last() + split_words(tail, w) =~= split_words(tail, w));
    } else {
        let ws2 = ws.drop_last();
        let tail2 = seq![' '] + w + tail;
        assert(join(ws) + tail =~= join(ws2) + tail2);
        assert forall|k: int| 0 <= k < ws2.len() implies is_word(#[trigger] ws2[k]) by {
            assert(ws2[k] == ws[k]);
        }
        lemma_split_join(ws2, tail2);
        assert(is_space(tail2[0]));
        assert(tail2.drop_first() =~= w + tail);
        assert(is_word(ws[ws.len() - 2]));
        assert(flush(ws2.last()) == seq![ws2.last()]);
        assert(ws2.drop_last() + (flush(ws2.last()) + split_words(tail, w))
            =~= ws.drop_last() + split_words(tail, w));
    }
}

proof fn lemma_words_of_join(ws: Seq<Seq<char>>)
    requires
        forall|k: int| 0 <= k < ws.len() ==> is_word(#[trigger] ws[k]),
    ensures
        words(join(ws)) == ws,
{
    if ws.len() > 0 {
        lemma_split_join(ws, seq![]);
        assert(join(ws) + Seq::<char>::empty() =~= join(ws));
        assert(is_word(ws[ws.len() - 1]));
        assert(ws.drop_last() + seq![ws.last()] =~= ws);
    }
}

proof fn lemma_split_gives_words(s: Seq<char>, cur: Seq<char>)
    requires
        forall|i: int| 0 <= i < cur.len() ==> !is_space(#[trigger] cur[i]),
    ensures
        forall|k: int| 0 <= k < split_words(s, cur).len() ==> is_word(#[trigger] split_words(s, cur)[k]),
    decreases s.len(),
{
    if cur.len() > 0 {
        assert(is_word(cur));
    }
    if s.len() == 0 {
        assert(split_words(s, cur) == flush(cur));
    } else {
        if is_space(s[0]) {
            lemma_split_gives_words(s.drop_first(), seq![]);
            let a = flush(cur);
            let b = split_words(s.drop_first(), seq![]);
            assert(split_words(s, cur) == a + b);
            assert forall|k: int| 0 <= k < (a + b).len() implies is_word(#[trigger] (a + b)[k]) by {
                if k >= a.len() {
                    assert((a + b)[k] == b[k - a.len()]);
                } else {
                    assert((a + b)[k] == cur);
                }
            }
        } else {
            let c = cur.push(s[0]);
            assert forall|i: int| 0 <= i < c.len() implies !is_space(#[trigger] c[i]) by {
                if i < cur.len() {
                    assert(c[i] == cur[i]);
                }
            }
            lemma_split_gives_words(s.drop_first(), c);
            assert(split_words(s, cur) == split_words(s.drop_first(), c));
        }
    }
}

proof fn lemma_filter_keeps_words(xs: Seq<Seq<char>>)
    requires
        forall|k: int| 0 <= k < xs.len() ==> is_word(#[trigger] xs[k]),
    ensures
        forall|k: int| 0 <= k < kept_words(xs).len() ==> {
            &&& is_word(#[trigger] kept_words(xs)[k])
            &&& kept(kept_words(xs)[k])
        },
    decreases xs.len(),
{
    let keep = |w: Seq<char>| kept(w);
    if xs.len() > 0 {
        let ys = xs.drop_last();
        assert forall|k: int| 0 <= k < ys.len() implies is_word(#[trigger] ys[k]) by {
            assert(ys[k] == xs[k]);
        }
        lemma_filter_keeps_words(ys);
        assert(ys.push(xs.last()) =~= xs);
        ys.lemma_filter_push(xs.last(), keep);
        assert(is_word(xs[xs.len() - 1]));
        assert(kept_words(xs) == if kept(xs.last()) {
            kept_words(ys).push(xs.last())
        } else {
            kept_words(ys)
        });
        assert forall|k: int| 0 <= k < kept_words(xs).len() implies {
            &&& is_word(#[trigger] kept_words(xs)[k])
            &&& kept(kept_words(xs)[k])
        } by {
            if k < kept_words(ys).len() {
                assert(kept_words(xs)[k] == kept_words(ys)[k]);
            }
        }
    }
}

proof fn lemma_filter_all_kept(xs: Seq<Seq<char>>)
    requires
        forall|k: int| 0 <= k < xs.len() ==> kept(#[trigger] xs[k]),
    ensures
        kept_words(xs) == xs,
    decreases xs.len(),
{
    let keep = |w: Seq<char>| kept(w);
    if xs.len() > 0 {
        let ys = xs.drop_last();
        assert forall|k: int| 0 <= k < ys.len() implies kept(#[trigger] ys[k]) by {
            assert(ys[k] == xs[k]);
        }
        lemma_filter_all_kept(ys);
        assert(ys.push(xs.last()) =~= xs);
        ys.lemma_filter_push(xs.last(), keep);
        assert(kept(xs[xs.len() - 1]));
        assert(kept_words(xs) == kept_words(ys).push(xs.last()));
    }
}

/// Dropping group qualifiers and rejoining the words a second time changes
/// nothing.
pub proof fn lemma_drop_groups_idempotent(s: Seq<char>)
    ensures
        drop_groups(drop_groups(s)) == drop_groups(s),
{
    let keep = |w: Seq<char>| kept(w);
    lemma_split_gives_words(s, seq![]);
    let ws = kept_words(words(s));
    lemma_filter_keeps_words(words(s));
    lemma_words_of_join(ws);
    lemma_filter_all_kept(ws);
}

/// Compacting a compacted title changes nothing, where no pattern of the
/// tables occurs in it and no roman numeral ends it. Compacting is a function
/// of the text and the tables alone.
pub proof fn lemma_compacted_title_is_fixed(
    s: Seq<char>,
    compound: Seq<(Seq<char>, Seq<char>)>,
    atomic: Seq<(Seq<char>, Seq<char>)>,
    symbol: Seq<(Seq<char>, Seq<char>)>,
)
    requires
        untouched_by(compact_title(s, compound, atomic, symbol), compound),
        untouched_by(compact_title(s, compound, atomic, symbol), atomic),
        untouched_by(compact_title(s, compound, atomic, symbol), symbol),
        !ends_with_numeral(compact_title(s, compound, atomic, symbol)),
    ensures
        compact_title(compact_title(s, compound, atomic, symbol), compound, atomic, symbol)
            == compact_title(s, compound, atomic, symbol),
{
    let t = compact_title(s, compound, atomic, symbol);
    lemma_rules_absent(t, compound);
    lemma_rules_absent(t, atomic);
    lemma_rules_absent(t, symbol);
    assert(strip_numeral(t) == t);
    lemma_drop_groups_idempotent(strip_numeral(apply_rules(apply_rules(apply_rules(s, compound), atomic), symbol)));
}

/// A location in which no pattern of the table occurs is left as it is, and
/// so compacting it a second time changes nothing.
pub proof fn lemma_compacted_location_is_fixed(s: Seq<char>, rules: Seq<(Seq<char>, Seq<char>)>)
    requires
        untouched_by(s, rules),
    ensures
        apply_rules(s, rules) == s,
        apply_rules(apply_rules(s, rules), rules) == apply_rules(s, rules),
{
    lemma_rules_absent(s, rules);
}

} // verus!
