//! Cutting text at a separator and joining it again.

use vstd::prelude::*;

verus! {

/// The pieces of a text between separators. A text without a separator is one
/// piece, and two separators in a row have an empty piece between them.
pub open spec fn pieces(s: Seq<char>, sep: char) -> Seq<Seq<char>>
    decreases s.len(),
{
    if s.len() == 0 {
        seq![Seq::<char>::empty()]
    } else {
        let before = pieces(s.drop_last(), sep);
        if s.last() == sep {
            before.push(Seq::<char>::empty())
        } else {
            before.drop_last().push(before.last().push(s.last()))
        }
    }
}

/// The characters of each text in a list.
pub open spec fn texts(v: Seq<&str>) -> Seq<Seq<char>> {
    Seq::new(v.len(), |i: int| v[i]@)
}

/// The characters of each string in a list.
pub open spec fn strings(v: Seq<String>) -> Seq<Seq<char>> {
    Seq::new(v.len(), |i: int| v[i]@)
}

/// The texts of a list in a row, with `sep` between two neighbours.
pub open spec fn joined(list: Seq<Seq<char>>, sep: Seq<char>) -> Seq<char>
    decreases list.len(),
{
    if list.len() == 0 {
        Seq::empty()
    } else if list.len() == 1 {
        list[0]
    } else {
        joined(list.drop_last(), sep) + sep + list.last()
    }
}

pub proof fn lemma_pieces_not_empty(s: Seq<char>, sep: char)
    ensures
        pieces(s, sep).len() > 0,
    decreases s.len(),
{
    if s.len() > 0 {
        lemma_pieces_not_empty(s.drop_last(), sep);
    }
}

/// A text without a separator is its own only piece.
pub proof fn lemma_single_piece(s: Seq<char>, sep: char)
    requires
        !s.contains(sep),
    ensures
        pieces(s, sep) == seq![s],
    decreases s.len(),
{
    if s.len() > 0 {
        let t = s.drop_last();
        assert(s.contains(s[s.len() - 1]));
        assert forall|i: int| 0 <= i < t.len() implies t[i] != sep by {
            assert(s.contains(s[i]));
        }
        lemma_single_piece(t, sep);
        assert(t.push(s.last()) =~= s);
        assert(pieces(s, sep) =~= seq![s]);
    } else {
        assert(s =~= Seq::<char>::empty());
    }
}

/// Cutting a text at one of its separators cuts the parts on both sides.
pub proof fn lemma_pieces_of_concatenation(a: Seq<char>, b: Seq<char>, sep: char)
    ensures
        pieces(a + seq![sep] + b, sep) == pieces(a, sep) + pieces(b, sep),
    decreases b.len(),
{
    let whole = a + seq![sep] + b;
    if b.len() == 0 {
        assert(whole.drop_last() =~= a);
        assert(whole.last() == sep);
        assert(pieces(whole, sep) =~= pieces(a, sep) + pieces(b, sep));
    } else {
        lemma_pieces_of_concatenation(a, b.drop_last(), sep);
        lemma_pieces_not_empty(b.drop_last(), sep);
        assert(whole.drop_last() =~= a + seq![sep] + b.drop_last());
        assert(whole.last() == b.last());
        assert(pieces(whole, sep) =~= pieces(a, sep) + pieces(b, sep));
    }
}

/// Cuts a text at every separator.
pub fn split<'a>(s: &'a str, sep: char) -> (r: Vec<&'a str>)
    ensures
        texts(r@) == pieces(s@, sep),
{
    let mut parts: Vec<&'a str> = Vec::new();
    let mut start: usize = 0;
    let mut at: usize = 0;
    let len = s.unicode_len();
    proof {
        assert(s@.take(0) =~= Seq::<char>::empty());
        assert(texts(parts@).push(s@.subrange(0, 0)) =~= seq![Seq::<char>::empty()]);
    }
    for c in it: s.chars()
        invariant
            it.seq() == s@,
            len == s@.len(),
            at == it.index(),
            start <= at <= len,
            pieces(s@.take(at as int), sep) == texts(parts@).push(
                s@.subrange(start as int, at as int),
            ),
    {
        let ghost before = texts(parts@);
        proof {
            assert(s@.take(at + 1).drop_last() =~= s@.take(at as int));
            assert(s@.take(at + 1).last() == c);
        }
        if c == sep {
            parts.push(s.substring_char(start, at));
            start = at + 1;
            proof {
                assert(texts(parts@) =~= before.push(parts@.last()@));
                assert(s@.subrange(at + 1, at + 1) =~= Seq::<char>::empty());
            }
        } else {
            proof {
                let open = before.push(s@.subrange(start as int, at as int));
                assert(open.drop_last() =~= before);
                assert(s@.subrange(start as int, at as int).push(c) =~= s@.subrange(
                    start as int,
                    at + 1,
                ));
            }
        }
        at = at + 1;
    }
    proof {
        assert(s@.take(len as int) =~= s@);
    }
    let ghost before = texts(parts@);
    parts.push(s.substring_char(start, len));
    proof {
        assert(texts(parts@) =~= before.push(parts@.last()@));
    }
    parts
}

/// Puts texts in a row, with `sep` between two neighbours.
pub fn join(list: &Vec<String>, sep: &str) -> (r: String)
    ensures
        r@ == joined(strings(list@), sep@),
{
    let mut r = String::new();
    let ghost all = strings(list@);
    for i in 0..list.len()
        invariant
            all == strings(list@),
            r@ == joined(all.take(i as int), sep@),
    {
        proof {
            assert(all.take(i + 1).drop_last() =~= all.take(i as int));
            assert(all.take(i + 1).last() == list@[i as int]@);
        }
        if i > 0 {
            r.append(sep);
        }
        r.append(list[i].as_str());
        proof {
            if i == 0 {
                assert(r@ =~= list@[0]@);
            }
        }
    }
    proof {
        assert(all.take(list@.len() as int) =~= all);
    }
    r
}

/// The pieces of a text are what lies between its separators: none holds a separator, and
/// with separators between them they are the text again.
pub proof fn law_pieces_are_the_text(s: Seq<char>, sep: char)
    ensures
        pieces(s, sep).len() > 0,
        forall|i: int|
            0 <= i < pieces(s, sep).len() ==> !(#[trigger] pieces(s, sep)[i]).contains(sep),
        joined(pieces(s, sep), seq![sep]) == s,
    decreases s.len(),
{
    let p = pieces(s, sep);
    if s.len() == 0 {
        assert(joined(p, seq![sep]) =~= s);
    } else {
        let t = s.drop_last();
        let before = pieces(t, sep);
        law_pieces_are_the_text(t, sep);
        assert(t.push(s.last()) =~= s);
        if s.last() == sep {
            assert(p.drop_last() =~= before);
            assert(joined(p, seq![sep]) =~= s);
        } else {
            let last = before.last();
            assert(!before[before.len() - 1].contains(sep));
            assert forall|i: int| 0 <= i < p.len() implies !(#[trigger] p[i]).contains(sep) by {
                if i < p.len() - 1 {
                    assert(p[i] == before[i]);
                } else {
                    assert forall|j: int| 0 <= j < p[i].len() implies p[i][j] != sep by {
                        if j < last.len() {
                            assert(last.contains(last[j]));
                        }
                    }
                }
            }
            if before.len() > 1 {
                assert(p.drop_last() =~= before.drop_last());
            }
            assert(joined(p, seq![sep]) =~= s);
        }
    }
}

/// Two lists in a row are joined by one separator. A single text stays as it is.
pub proof fn law_joined_lists(a: Seq<Seq<char>>, b: Seq<Seq<char>>, sep: Seq<char>)
    ensures
        joined(Seq::empty(), sep) == Seq::<char>::empty(),
        a.len() == 1 ==> joined(a, sep) == a[0],
        a.len() > 0 && b.len() > 0 ==> joined(a + b, sep) == joined(a, sep) + sep + joined(b, sep),
    decreases b.len(),
{
    if a.len() > 0 && b.len() > 0 {
        let c = b.drop_last();
        law_joined_lists(a, c, sep);
        assert((a + b).drop_last() =~= a + c);
        assert((a + b).last() == b.last());
        if b.len() == 1 {
            assert(a + c =~= a);
        }
        assert(joined(a + b, sep) =~= joined(a, sep) + sep + joined(b, sep));
    }
}

/// The items of a list can be told apart in the list joined by commas, if no item holds a
/// comma: cut at the commas it is the items, each but the first behind a blank.
pub proof fn law_listed_items_can_be_told_apart(list: Seq<Seq<char>>)
    requires
        list.len() > 0,
        forall|i: int| 0 <= i < list.len() ==> !(#[trigger] list[i]).contains(','),
    ensures
        pieces(joined(list, seq![',', ' ']), ',') == Seq::new(
            list.len(),
            |i: int|
                if i == 0 {
                    list[i]
                } else {
                    seq![' '] + list[i]
                },
        ),
    decreases list.len(),
{
    let cut = Seq::new(
        list.len(),
        |i: int|
            if i == 0 {
                list[i]
            } else {
                seq![' '] + list[i]
            },
    );
    if list.len() == 1 {
        assert(!list[0].contains(','));
        lemma_single_piece(list[0], ',');
        assert(pieces(joined(list, seq![',', ' ']), ',') =~= cut);
    } else {
        let front = list.drop_last();
        assert forall|i: int| 0 <= i < front.len() implies !(#[trigger] front[i]).contains(
            ',',
        ) by {
            assert(front[i] == list[i]);
        }
        law_listed_items_can_be_told_apart(front);
        let x = list[list.len() - 1];
        let item = seq![' '] + x;
        assert(!item.contains(',')) by {
            assert forall|j: int| 0 <= j < item.len() implies item[j] != ',' by {
                if j > 0 {
                    assert(item[j] == x[j - 1]);
                    assert(x.contains(x[j - 1]));
                }
            }
        }
        lemma_single_piece(item, ',');
        let whole = joined(front, seq![',', ' ']);
        lemma_pieces_of_concatenation(whole, item, ',');
        assert(joined(list, seq![',', ' ']) =~= whole + seq![','] + item);
        assert(pieces(joined(list, seq![',', ' ']), ',') =~= cut);
    }
}

/// Lists without commas in their items that read the same are the same, if no item is
/// empty.
pub proof fn law_listed_items_are_determined(a: Seq<Seq<char>>, b: Seq<Seq<char>>)
    requires
        forall|i: int|
            0 <= i < a.len() ==> !(#[trigger] a[i]).contains(',') && a[i].len() > 0,
        forall|i: int|
            0 <= i < b.len() ==> !(#[trigger] b[i]).contains(',') && b[i].len() > 0,
        joined(a, seq![',', ' ']) == joined(b, seq![',', ' ']),
    ensures
        a == b,
{
    if a.len() == 0 || b.len() == 0 {
        lemma_joined_not_empty(a);
        lemma_joined_not_empty(b);
        assert(a =~= b);
    } else {
        law_listed_items_can_be_told_apart(a);
        law_listed_items_can_be_told_apart(b);
        let (p, q) = (
            pieces(joined(a, seq![',', ' ']), ','),
            pieces(joined(b, seq![',', ' ']), ','),
        );
        assert(p.len() == a.len() && q.len() == b.len());
        assert forall|i: int| 0 <= i < a.len() implies a[i] == b[i] by {
            assert(p[i] == q[i]);
            if i > 0 {
                assert((seq![' '] + a[i]).skip(1) =~= a[i]);
                assert((seq![' '] + b[i]).skip(1) =~= b[i]);
            }
        }
        assert(a =~= b);
    }
}

proof fn lemma_joined_not_empty(list: Seq<Seq<char>>)
    requires
        forall|i: int| 0 <= i < list.len() ==> (#[trigger] list[i]).len() > 0,
    ensures
        joined(list, seq![',', ' ']).len() == 0 <==> list.len() == 0,
{
    if list.len() > 0 {
        assert(list[0].len() > 0);
    }
}

/// The characters of the texts of a list, one for one.
pub proof fn law_lists_are_read_one_for_one(v: Seq<&str>, w: Seq<String>, i: int)
    ensures
        texts(v).len() == v.len(),
        strings(w).len() == w.len(),
        0 <= i < v.len() ==> texts(v)[i] == v[i]@,
        0 <= i < w.len() ==> strings(w)[i] == w[i]@,
{
}

} // verus!
