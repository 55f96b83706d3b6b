//! The report line by line: what can be read out of it.

use crate::decimal::{decimal_text, is_digit, lemma_decimal_text};
use crate::report::{field_line, list_text, plain, results_text, small_letters, FormattedStats};
use crate::text::{
    joined, law_listed_items_are_determined, lemma_pieces_of_concatenation, lemma_single_piece,
    pieces, strings,
};
use vstd::prelude::*;

verus! {

/// No text holds the end of a line.
pub open spec fn one_line(s: Seq<char>) -> bool {
    !s.contains('\n')
}

/// What is written of a summary stands in lines: no value holds the end of a line.
pub open spec fn stands_in_lines(stats: FormattedStats) -> bool {
    &&& one_line(stats.min@) && one_line(stats.q1@) && one_line(stats.median@)
    &&& one_line(stats.q3@) && one_line(stats.max@)
    &&& forall|i: int| 0 <= i < stats.outliers@.len() ==> one_line(#[trigger] stats.outliers@[i]@)
    &&& forall|i: int| 0 <= i < stats.samples@.len() ==> one_line(#[trigger] stats.samples@[i]@)
}

proof fn lemma_one_line(a: Seq<char>, b: Seq<char>)
    requires
        one_line(a),
        one_line(b),
    ensures
        one_line(a + b),
{
    assert forall|i: int| 0 <= i < (a + b).len() implies (a + b)[i] != '\n' by {
        if i < a.len() {
            assert(a.contains(a[i]));
        } else {
            assert(b.contains(b[i - a.len()]));
        }
    }
}

proof fn lemma_joined_line(list: Seq<Seq<char>>, sep: Seq<char>)
    requires
        one_line(sep),
        forall|i: int| 0 <= i < list.len() ==> one_line(#[trigger] list[i]),
    ensures
        one_line(joined(list, sep)),
    decreases list.len(),
{
    if list.len() > 1 {
        let front = list.drop_last();
        assert forall|i: int| 0 <= i < front.len() implies one_line(#[trigger] front[i]) by {
            assert(front[i] == list[i]);
        }
        lemma_joined_line(front, sep);
        assert(one_line(list[list.len() - 1]));
        lemma_one_line(joined(front, sep), sep);
        lemma_one_line(joined(front, sep) + sep, list.last());
    }
}

proof fn lemma_list_line(items: Seq<String>)
    requires
        forall|i: int| 0 <= i < items.len() ==> one_line(#[trigger] items[i]@),
    ensures
        one_line("["@ + joined(strings(items), ", "@) + "]"@),
{
    reveal_strlit("[");
    reveal_strlit("]");
    reveal_strlit(", ");
    assert forall|i: int| 0 <= i < strings(items).len() implies one_line(
        #[trigger] strings(items)[i],
    ) by {
        assert(one_line(items[i]@));
    }
    lemma_joined_line(strings(items), ", "@);
    lemma_one_line("["@, joined(strings(items), ", "@));
    lemma_one_line("["@ + joined(strings(items), ", "@), "]"@);
}

proof fn lemma_number_line(n: nat)
    ensures
        one_line(decimal_text(n)),
{
    lemma_decimal_text(n);
    let t = decimal_text(n);
    assert forall|i: int| 0 <= i < t.len() implies t[i] != '\n' by {
        assert(is_digit(t[i]));
    }
}

/// Cutting text behind one more line gives one more piece.
proof fn lemma_next_line(lines: Seq<Seq<char>>, text: Seq<char>, line: Seq<char>)
    requires
        one_line(line),
        pieces(text, '\n') == lines.push(Seq::empty()),
    ensures
        pieces(text + line + seq!['\n'], '\n') == lines.push(line).push(Seq::empty()),
    decreases line.len(),
{
    lemma_line_piece(lines, text, line);
    let before = text + line;
    let none = Seq::<char>::empty();
    lemma_single_piece(none, '\n');
    lemma_pieces_of_concatenation(before, none, '\n');
    assert(before + seq!['\n'] + none =~= text + line + seq!['\n']);
    assert(pieces(before, '\n') + seq![none] =~= lines.push(line).push(none));
}

proof fn lemma_line_piece(lines: Seq<Seq<char>>, text: Seq<char>, line: Seq<char>)
    requires
        one_line(line),
        pieces(text, '\n') == lines.push(Seq::empty()),
    ensures
        pieces(text + line, '\n') == lines.push(line),
    decreases line.len(),
{
    if line.len() == 0 {
        assert(text + line =~= text);
        assert(line =~= Seq::<char>::empty());
    } else {
        let front = line.drop_last();
        assert(one_line(front)) by {
            assert forall|i: int| 0 <= i < front.len() implies front[i] != '\n' by {
                assert(line.contains(line[i]));
            }
        }
        lemma_line_piece(lines, text, front);
        assert(line.contains(line[line.len() - 1]));
        assert((text + line).drop_last() =~= text + front);
        assert((text + line).last() == line.last());
        assert(lines.push(front).drop_last() =~= lines);
        assert(front.push(line.last()) =~= line);
    }
}

proof fn lemma_field(text: Seq<char>, name: Seq<char>, value: Seq<char>, line: Seq<char>)
    requires
        line == "  "@ + name + ": "@ + value,
    ensures
        text + field_line(name, value) == text + line + seq!['\n'],
{
    reveal_strlit("\n");
    assert("\n"@ =~= seq!['\n']);
    assert(text + field_line(name, value) =~= text + line + seq!['\n']);
}

/// The lines of the report on one kind of test: a heading, the label in small letters, and
/// below it the number of tests, the five numbers of the summary, the outliers, the samples
/// and the unit, each with its name. A list stands in brackets, with a comma and a blank
/// between two neighbours.
pub proof fn law_lines_of_a_report(
    label: Seq<char>,
    small_label: Seq<char>,
    iterations: nat,
    stats: FormattedStats,
    unit: Seq<char>,
)
    requires
        one_line(label),
        one_line(small_label),
        one_line(unit),
        stands_in_lines(stats),
    ensures
        pieces(results_text(label, small_label, iterations, stats, unit), '\n') == seq![
            "# "@ + label + " measurement"@,
            small_label + ":"@,
            "  iterations: "@ + decimal_text(iterations),
            "  min: "@ + stats.min@,
            "  q1: "@ + stats.q1@,
            "  median: "@ + stats.median@,
            "  q3: "@ + stats.q3@,
            "  max: "@ + stats.max@,
            "  outliers: ["@ + joined(strings(stats.outliers@), seq![',', ' ']) + "]"@,
            "  samples: ["@ + joined(strings(stats.samples@), seq![',', ' ']) + "]"@,
            "  unit: "@ + unit,
            Seq::<char>::empty(),
        ],
{
    reveal_strlit("# ");
    reveal_strlit(" measurement");
    reveal_strlit(" measurement\n");
    reveal_strlit(":");
    reveal_strlit(":\n");
    reveal_strlit("  ");
    reveal_strlit(": ");
    reveal_strlit("[");
    reveal_strlit("]");
    reveal_strlit(", ");
    reveal_strlit("iterations");
    reveal_strlit("min");
    reveal_strlit("q1");
    reveal_strlit("median");
    reveal_strlit("q3");
    reveal_strlit("max");
    reveal_strlit("outliers");
    reveal_strlit("samples");
    reveal_strlit("unit");
    reveal_strlit("  iterations: ");
    reveal_strlit("  min: ");
    reveal_strlit("  q1: ");
    reveal_strlit("  median: ");
    reveal_strlit("  q3: ");
    reveal_strlit("  max: ");
    reveal_strlit("  outliers: [");
    reveal_strlit("  samples: [");
    reveal_strlit("  unit: ");
    assert(", "@ =~= seq![',', ' ']);
    let none = Seq::<char>::empty();
    let outliers = joined(strings(stats.outliers@), ", "@);
    let samples = joined(strings(stats.samples@), ", "@);
    let l0 = "# "@ + label + " measurement"@;
    let l1 = small_label + ":"@;
    let l2 = "  iterations: "@ + decimal_text(iterations);
    let l3 = "  min: "@ + stats.min@;
    let l4 = "  q1: "@ + stats.q1@;
    let l5 = "  median: "@ + stats.median@;
    let l6 = "  q3: "@ + stats.q3@;
    let l7 = "  max: "@ + stats.max@;
    let l8 = "  outliers: ["@ + outliers + "]"@;
    let l9 = "  samples: ["@ + samples + "]"@;
    let l10 = "  unit: "@ + unit;
    lemma_number_line(iterations);
    lemma_list_line(stats.outliers@);
    lemma_list_line(stats.samples@);
    lemma_one_line("# "@, label);
    lemma_one_line("# "@ + label, " measurement"@);
    lemma_one_line(small_label, ":"@);
    lemma_one_line("  iterations: "@, decimal_text(iterations));
    lemma_one_line("  min: "@, stats.min@);
    lemma_one_line("  q1: "@, stats.q1@);
    lemma_one_line("  median: "@, stats.median@);
    lemma_one_line("  q3: "@, stats.q3@);
    lemma_one_line("  max: "@, stats.max@);
    let head8 = "  outliers: "@;
    let head9 = "  samples: "@;
    reveal_strlit("  outliers: ");
    reveal_strlit("  samples: ");
    lemma_one_line(head8, "["@ + outliers + "]"@);
    lemma_one_line(head9, "["@ + samples + "]"@);
    assert(l8 =~= head8 + ("["@ + outliers + "]"@));
    assert(l9 =~= head9 + ("["@ + samples + "]"@));
    lemma_one_line("  unit: "@, unit);
    let e = seq!['\n'];
    let t0 = none + l0 + e;
    let t1 = t0 + l1 + e;
    let t2 = t1 + l2 + e;
    let t3 = t2 + l3 + e;
    let t4 = t3 + l4 + e;
    let t5 = t4 + l5 + e;
    let t6 = t5 + l6 + e;
    let t7 = t6 + l7 + e;
    let t8 = t7 + l8 + e;
    let t9 = t8 + l9 + e;
    let t10 = t9 + l10 + e;
    lemma_single_piece(none, '\n');
    let s0 = Seq::<Seq<char>>::empty();
    assert(seq![none] =~= s0.push(none));
    lemma_next_line(s0, none, l0);
    let s1 = s0.push(l0);
    lemma_next_line(s1, t0, l1);
    let s2 = s1.push(l1);
    lemma_next_line(s2, t1, l2);
    let s3 = s2.push(l2);
    lemma_next_line(s3, t2, l3);
    let s4 = s3.push(l3);
    lemma_next_line(s4, t3, l4);
    let s5 = s4.push(l4);
    lemma_next_line(s5, t4, l5);
    let s6 = s5.push(l5);
    lemma_next_line(s6, t5, l6);
    let s7 = s6.push(l6);
    lemma_next_line(s7, t6, l7);
    let s8 = s7.push(l7);
    lemma_next_line(s8, t7, l8);
    let s9 = s8.push(l8);
    lemma_next_line(s9, t8, l9);
    let s10 = s9.push(l9);
    lemma_next_line(s10, t9, l10);
    let s11 = s10.push(l10);
    assert(pieces(t10, '\n') == s11.push(none));
    assert("# "@ + label + " measurement\n"@ + small_label + ":\n"@ =~= t1);
    assert("  "@ + "iterations"@ + ": "@ + decimal_text(iterations) =~= l2);
    assert("  "@ + "min"@ + ": "@ + stats.min@ =~= l3);
    assert("  "@ + "q1"@ + ": "@ + stats.q1@ =~= l4);
    assert("  "@ + "median"@ + ": "@ + stats.median@ =~= l5);
    assert("  "@ + "q3"@ + ": "@ + stats.q3@ =~= l6);
    assert("  "@ + "max"@ + ": "@ + stats.max@ =~= l7);
    assert("  "@ + "outliers"@ + ": "@ + list_text(strings(stats.outliers@)) =~= l8);
    assert("  "@ + "samples"@ + ": "@ + list_text(strings(stats.samples@)) =~= l9);
    assert("  "@ + "unit"@ + ": "@ + unit =~= l10);
    lemma_field(t1, "iterations"@, decimal_text(iterations), l2);
    lemma_field(t2, "min"@, stats.min@, l3);
    lemma_field(t3, "q1"@, stats.q1@, l4);
    lemma_field(t4, "median"@, stats.median@, l5);
    lemma_field(t5, "q3"@, stats.q3@, l6);
    lemma_field(t6, "max"@, stats.max@, l7);
    lemma_field(t7, "outliers"@, list_text(strings(stats.outliers@)), l8);
    lemma_field(t8, "samples"@, list_text(strings(stats.samples@)), l9);
    lemma_field(t9, "unit"@, unit, l10);
    assert(results_text(label, small_label, iterations, stats, unit) == t10);
    assert(s11.push(none) =~= seq![l0, l1, l2, l3, l4, l5, l6, l7, l8, l9, l10, none]);
}

proof fn lemma_line_value(head: Seq<char>, a: Seq<char>, b: Seq<char>)
    requires
        head + a == head + b,
    ensures
        a == b,
{
    assert((head + a).skip(head.len() as int) =~= a);
    assert((head + b).skip(head.len() as int) =~= b);
}

proof fn lemma_list_value(head: Seq<char>, a: Seq<char>, b: Seq<char>, tail: Seq<char>)
    requires
        head + a + tail == head + b + tail,
    ensures
        a == b,
{
    let (x, y) = (head + a + tail, head + b + tail);
    assert(x.len() == y.len());
    assert(x.subrange(head.len() as int, (head.len() + a.len()) as int) =~= a);
    assert(y.subrange(head.len() as int, (head.len() + b.len()) as int) =~= b);
}

proof fn lemma_value_lines(
    label: Seq<char>,
    small_label: Seq<char>,
    n: nat,
    stats: FormattedStats,
    unit: Seq<char>,
    p: Seq<Seq<char>>,
)
    requires
        one_line(label),
        one_line(small_label),
        one_line(unit),
        stands_in_lines(stats),
        p == pieces(results_text(label, small_label, n, stats, unit), '\n'),
    ensures
        p[2] == "  iterations: "@ + decimal_text(n),
        p[3] == "  min: "@ + stats.min@,
        p[4] == "  q1: "@ + stats.q1@,
        p[5] == "  median: "@ + stats.median@,
        p[6] == "  q3: "@ + stats.q3@,
        p[7] == "  max: "@ + stats.max@,
        p[8] == "  outliers: ["@ + joined(strings(stats.outliers@), seq![',', ' ']) + "]"@,
        p[9] == "  samples: ["@ + joined(strings(stats.samples@), seq![',', ' ']) + "]"@,
        p[10] == "  unit: "@ + unit,
{
    law_lines_of_a_report(label, small_label, n, stats, unit);
}

/// Written values that can be told apart in a list: none is empty and none holds a comma.
pub open spec fn listable(items: Seq<Seq<char>>) -> bool {
    forall|i: int|
        0 <= i < items.len() ==> !(#[trigger] items[i]).contains(',') && items[i].len() > 0
}

/// The report determines the summary: reports that read the same are on the same number of
/// tests, the same five numbers, the same outliers and the same samples, in the same unit.
pub proof fn law_report_determines_the_summary(
    label: Seq<char>,
    small_label: Seq<char>,
    m: nat,
    n: nat,
    a: FormattedStats,
    b: FormattedStats,
    u: Seq<char>,
    v: Seq<char>,
)
    requires
        one_line(label),
        one_line(small_label),
        one_line(u),
        one_line(v),
        stands_in_lines(a),
        stands_in_lines(b),
        listable(strings(a.outliers@)),
        listable(strings(a.samples@)),
        listable(strings(b.outliers@)),
        listable(strings(b.samples@)),
        results_text(label, small_label, m, a, u) == results_text(label, small_label, n, b, v),
    ensures
        m == n,
        a.min@ == b.min@,
        a.q1@ == b.q1@,
        a.median@ == b.median@,
        a.q3@ == b.q3@,
        a.max@ == b.max@,
        strings(a.outliers@) == strings(b.outliers@),
        strings(a.samples@) == strings(b.samples@),
        u == v,
{
    let sep = seq![',', ' '];
    let p = pieces(results_text(label, small_label, m, a, u), '\n');
    let q = pieces(results_text(label, small_label, n, b, v), '\n');
    let (ao, bo) = (strings(a.outliers@), strings(b.outliers@));
    let (x, y) = (strings(a.samples@), strings(b.samples@));
    lemma_value_lines(label, small_label, m, a, u, p);
    lemma_value_lines(label, small_label, n, b, v, q);
    lemma_line_value("  iterations: "@, decimal_text(m), decimal_text(n));
    lemma_decimal_text(m);
    lemma_decimal_text(n);
    lemma_line_value("  min: "@, a.min@, b.min@);
    lemma_line_value("  q1: "@, a.q1@, b.q1@);
    lemma_line_value("  median: "@, a.median@, b.median@);
    lemma_line_value("  q3: "@, a.q3@, b.q3@);
    lemma_line_value("  max: "@, a.max@, b.max@);
    lemma_line_value("  unit: "@, u, v);
    lemma_list_value("  outliers: ["@, joined(ao, sep), joined(bo, sep), "]"@);
    lemma_list_value("  samples: ["@, joined(x, sep), joined(y, sep), "]"@);
    law_listed_items_are_determined(ao, bo);
    law_listed_items_are_determined(x, y);
}

/// Small letters stand for the capital letters from A to Z, and every other character stays.
pub proof fn law_small_letters(s: Seq<char>, i: int)
    requires
        0 <= i < s.len(),
    ensures
        small_letters(s).len() == s.len(),
        'A' <= s[i] <= 'Z' ==> 'a' <= small_letters(s)[i] <= 'z' && small_letters(s)[i] as int
            - 'a' as int == s[i] as int - 'A' as int,
        !('A' <= s[i] <= 'Z') ==> small_letters(s)[i] == s[i],
        plain(s) ==> (s[i] as u32) < 128,
{
}

/// A list stands in brackets: an empty one has nothing between them, and otherwise its items
/// stand there with a comma and a blank between two neighbours.
pub proof fn law_lists_stand_in_brackets(items: Seq<Seq<char>>)
    ensures
        list_text(items) == seq!['['] + joined(items, seq![',', ' ']) + seq![']'],
        list_text(Seq::empty()) == seq!['[', ']'],
{
    reveal_strlit("[");
    reveal_strlit("]");
    reveal_strlit(", ");
    assert(", "@ =~= seq![',', ' ']);
    assert("["@ =~= seq!['[']);
    assert("]"@ =~= seq![']']);
    assert(list_text(Seq::empty()) =~= seq!['[', ']']);
}

} // verus!
