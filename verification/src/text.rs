//! Text handling on sequences of characters: splitting, trimming, searching, joining, sorting.

use vstd::prelude::*;
use vstd::relations::{sorted_by, total_ordering};
use vstd::seq_lib::lemma_sorted_unique;
use vstd::string::{StringExecFns, StrSliceExecFns};

verus! {

/// The characters of each string of a list.
pub open spec fn views(list: Seq<String>) -> Seq<Seq<char>> {
    list.map_values(|s: String| s@)
}

/// The characters of Unicode's `White_Space` property.
pub open spec fn is_space(c: char) -> bool {
    ||| '\u{9}' <= c <= '\u{d}'
    ||| c == ' '
    ||| c == '\u{85}'
    ||| c == '\u{a0}'
    ||| c == '\u{1680}'
    ||| '\u{2000}' <= c <= '\u{200a}'
    ||| c == '\u{2028}'
    ||| c == '\u{2029}'
    ||| c == '\u{202f}'
    ||| c == '\u{205f}'
    ||| c == '\u{3000}'
}

/// `s` without the white space at its front.
pub open spec fn trim_start(s: Seq<char>) -> Seq<char>
    decreases s.len(),
{
    if s.len() > 0 && is_space(s[0]) {
        trim_start(s.drop_first())
    } else {
        s
    }
}

/// `s` without the white space at its back.
pub open spec fn trim_end(s: Seq<char>) -> Seq<char>
    decreases s.len(),
{
    if s.len() > 0 && is_space(s.last()) {
        trim_end(s.drop_last())
    } else {
        s
    }
}

/// `s` without the white space at both ends.
pub open spec fn trimmed(s: Seq<char>) -> Seq<char> {
    trim_end(trim_start(s))
}

/// The pieces of `s` between the occurrences of `sep`. There is always at least one piece.
pub open spec fn split(s: Seq<char>, sep: char) -> Seq<Seq<char>>
    decreases s.len(),
{
    if s.len() == 0 {
        seq![s]
    } else {
        let pieces = split(s.drop_last(), sep);
        if s.last() == sep {
            pieces.push(Seq::empty())
        } else {
            pieces.drop_last().push(pieces.last().push(s.last()))
        }
    }
}

/// `s` without one carriage return at its end.
pub open spec fn without_return(s: Seq<char>) -> Seq<char> {
    if s.len() > 0 && s.last() == '\r' {
        s.drop_last()
    } else {
        s
    }
}

/// The lines of `s`. A line ends in a line feed, or in a carriage return and a line feed; the
/// last line may lack its end.
pub open spec fn line_seq(s: Seq<char>) -> Seq<Seq<char>> {
    let pieces = split(s, '\n');
    let ended = pieces.drop_last().map_values(|line: Seq<char>| without_return(line));
    if pieces.last().len() == 0 {
        ended
    } else {
        ended.push(pieces.last())
    }
}

/// The parts in order, with `sep` between each two of them.
pub open spec fn joined(parts: Seq<Seq<char>>, sep: Seq<char>) -> Seq<char>
    decreases parts.len(),
{
    if parts.len() == 0 {
        Seq::empty()
    } else if parts.len() == 1 {
        parts[0]
    } else {
        joined(parts.drop_last(), sep) + sep + parts.last()
    }
}

/// The list with every run of equal neighbours cut down to one.
pub open spec fn deduped(parts: Seq<Seq<char>>) -> Seq<Seq<char>>
    decreases parts.len(),
{
    if parts.len() < 2 {
        parts
    } else if parts.last() == parts[parts.len() - 2] {
        deduped(parts.drop_last())
    } else {
        deduped(parts.drop_last()).push(parts.last())
    }
}

/// `needle` stands in `s` at position `k`.
pub open spec fn occurs_at(s: Seq<char>, needle: Seq<char>, k: int) -> bool {
    &&& 0 <= k
    &&& k + needle.len() <= s.len()
    &&& s.subrange(k, k + needle.len()) == needle
}

/// The leftmost place where `needle` stands in `s` is `k`.
pub open spec fn first_at(s: Seq<char>, needle: Seq<char>, k: int) -> bool {
    &&& occurs_at(s, needle, k)
    &&& forall|j: int| 0 <= j < k ==> !occurs_at(s, needle, j)
}

/// The leftmost place where `needle` stands in `s`, if there is one.
pub open spec fn find(s: Seq<char>, needle: Seq<char>) -> Option<int> {
    if exists|k: int| first_at(s, needle, k) {
        Some(choose|k: int| first_at(s, needle, k))
    } else {
        None
    }
}

/// What follows the last `sep` in `s`, or all of `s` where there is none.
pub open spec fn after_last(s: Seq<char>, sep: char) -> Seq<char> {
    split(s, sep).last()
}

/// `a` comes before `b` in the dictionary order of their code points, or is `b`.
pub open spec fn dictionary_le(a: Seq<char>, b: Seq<char>) -> bool
    decreases a.len(),
{
    if a.len() == 0 {
        true
    } else if b.len() == 0 {
        false
    } else if a[0] != b[0] {
        a[0] < b[0]
    } else {
        dictionary_le(a.drop_first(), b.drop_first())
    }
}

/// The dictionary order as a relation.
pub open spec fn dictionary_order() -> spec_fn(Seq<char>, Seq<char>) -> bool {
    |a: Seq<char>, b: Seq<char>| dictionary_le(a, b)
}

/// The list in dictionary order.
pub open spec fn sorted(list: Seq<Seq<char>>) -> Seq<Seq<char>> {
    list.sort_by(dictionary_order())
}

/// The characters of a text.
pub fn chars_of(text: &str) -> (r: Vec<char>)
    ensures
        r@ == text@,
{
    let mut r: Vec<char> = Vec::new();
    for c in it: text.chars()
        invariant
            it.seq() == text@,
            r@ == text@.take(it.index() as int),
    {
        r.push(c);
    }
    assert(text@.take(text@.len() as int) == text@);
    r
}

/// The characters of `text` from `from` up to `to`.
pub fn piece(text: &str, from: usize, to: usize) -> (r: String)
    requires
        from <= to <= text@.len(),
    ensures
        r@ == text@.subrange(from as int, to as int),
{
    text.substring_char(from, to).to_owned()
}

/// Whether a character is white space.
pub fn space(c: char) -> (r: bool)
    ensures
        r == is_space(c),
{
    ('\u{9}' <= c && c <= '\u{d}') || c == ' ' || c == '\u{85}' || c == '\u{a0}' || c
        == '\u{1680}' || ('\u{2000}' <= c && c <= '\u{200a}') || c == '\u{2028}' || c
        == '\u{2029}' || c == '\u{202f}' || c == '\u{205f}' || c == '\u{3000}'
}

/// A text without the white space at both ends.
pub fn trim(text: &str) -> (r: String)
    ensures
        r@ == trimmed(text@),
{
    let chars = chars_of(text);
    let mut from: usize = 0;
    assert(text@.skip(0) == text@);
    while from < chars.len() && space(chars[from])
        invariant
            chars@ == text@,
            from <= chars.len(),
            trim_start(text@) == trim_start(text@.skip(from as int)),
        decreases chars.len() - from,
    {
        assert(text@.skip(from as int).drop_first() == text@.skip(from + 1));
        from = from + 1;
    }
    let ghost rest = text@.skip(from as int);
    assert(trim_start(text@) == rest);
    let mut to: usize = chars.len();
    assert(text@.subrange(from as int, to as int) == rest);
    while to > from && space(chars[to - 1])
        invariant
            chars@ == text@,
            from <= to <= chars.len(),
            trim_end(rest) == trim_end(text@.subrange(from as int, to as int)),
        decreases to,
    {
        assert(text@.subrange(from as int, to as int).drop_last() == text@.subrange(
            from as int,
            to - 1,
        ));
        to = to - 1;
    }
    assert(trim_end(rest) == text@.subrange(from as int, to as int));
    piece(text, from, to)
}

/// The pieces of a text between the occurrences of `sep`.
pub fn split_text(text: &str, sep: char) -> (r: Vec<String>)
    ensures
        views(r@) == split(text@, sep),
{
    let chars = chars_of(text);
    let mut r: Vec<String> = Vec::new();
    let mut from: usize = 0;
    let mut i: usize = 0;
    assert(views(r@).push(text@.subrange(0, 0)) == split(text@.take(0), sep));
    while i < chars.len()
        invariant
            chars@ == text@,
            from <= i <= chars.len(),
            views(r@).push(text@.subrange(from as int, i as int)) == split(
                text@.take(i as int),
                sep,
            ),
        decreases chars.len() - i,
    {
        let ghost before = views(r@);
        let ghost pieces = split(text@.take(i as int), sep);
        assert(text@.take(i + 1).drop_last() == text@.take(i as int));
        assert(pieces.drop_last() == before);
        if chars[i] == sep {
            r.push(piece(text, from, i));
            from = i + 1;
            assert(views(r@) == pieces);
            assert(text@.subrange(i + 1, i + 1) == Seq::<char>::empty());
        } else {
            assert(text@.subrange(from as int, i + 1) == pieces.last().push(text@[i as int]));
        }
        i = i + 1;
    }
    assert(text@.take(chars.len() as int) == text@);
    let ghost before = views(r@);
    r.push(piece(text, from, chars.len()));
    assert(views(r@) == before.push(text@.subrange(from as int, text@.len() as int)));
    r
}

/// Every text has at least one piece.
pub proof fn lemma_split_not_empty(s: Seq<char>, sep: char)
    ensures
        split(s, sep).len() > 0,
    decreases s.len(),
{
    if s.len() > 0 {
        lemma_split_not_empty(s.drop_last(), sep);
    }
}

/// The lines of a text.
pub fn lines(text: &str) -> (r: Vec<String>)
    ensures
        views(r@) == line_seq(text@),
{
    proof {
        lemma_split_not_empty(text@, '\n');
    }
    let pieces = split_text(text, '\n');
    let ghost all = split(text@, '\n');
    let n: usize = pieces.len() - 1;
    let mut r: Vec<String> = Vec::new();
    let mut i: usize = 0;
    let ghost ended = all.drop_last().map_values(|line: Seq<char>| without_return(line));
    while i < n
        invariant
            views(pieces@) == all,
            n + 1 == pieces.len(),
            i <= n,
            ended == all.drop_last().map_values(|line: Seq<char>| without_return(line)),
            views(r@) == ended.take(i as int),
        decreases n - i,
    {
        let line = pieces[i].as_str();
        let size: usize = line.unicode_len();
        assert(all[i as int] == line@);
        let ghost before = views(r@);
        if size > 0 && line.get_char(size - 1) == '\r' {
            let kept = piece(line, 0, size - 1);
            assert(kept@ == without_return(line@));
            r.push(kept);
        } else {
            r.push(line.to_owned());
        }
        assert(views(r@) == before.push(without_return(line@)));
        i = i + 1;
    }
    assert(ended.take(n as int) == ended);
    assert(all.last() == pieces[n as int]@);
    if pieces[n].as_str().unicode_len() > 0 {
        let ghost before = views(r@);
        r.push(pieces[n].clone());
        assert(views(r@) == before.push(all.last()));
    }
    r
}

/// What follows the last `sep` in a text, or the whole text.
pub fn last_piece(text: &str, sep: char) -> (r: String)
    ensures
        r@ == after_last(text@, sep),
{
    proof {
        lemma_split_not_empty(text@, sep);
    }
    let pieces = split_text(text, sep);
    let last: usize = pieces.len() - 1;
    assert(views(pieces@)[last as int] == pieces[last as int]@);
    pieces[last].clone()
}

/// The texts in order, with `sep` between each two of them.
pub fn join(parts: &Vec<String>, sep: &str) -> (r: String)
    ensures
        r@ == joined(views(parts@), sep@),
{
    let mut r = String::new();
    let mut i: usize = 0;
    let ghost all = views(parts@);
    while i < parts.len()
        invariant
            all == views(parts@),
            i <= parts.len(),
            r@ == joined(all.take(i as int), sep@),
        decreases parts.len() - i,
    {
        assert(all.take(i + 1).drop_last() == all.take(i as int));
        if i > 0 {
            r.append(sep);
        }
        r.append(parts[i].as_str());
        assert(all[i as int] == parts[i as int]@);
        i = i + 1;
    }
    assert(all.take(parts.len() as int) == all);
    r
}

/// The list with every run of equal neighbours cut down to one.
pub fn dedup(parts: &Vec<String>) -> (r: Vec<String>)
    ensures
        views(r@) == deduped(views(parts@)),
{
    let mut r: Vec<String> = Vec::new();
    let mut i: usize = 0;
    let ghost all = views(parts@);
    while i < parts.len()
        invariant
            all == views(parts@),
            i <= parts.len(),
            views(r@) == deduped(all.take(i as int)),
        decreases parts.len() - i,
    {
        assert(all.take(i + 1).drop_last() == all.take(i as int));
        let ghost before = views(r@);
        if i == 0 || parts[i] != parts[i - 1] {
            r.push(parts[i].clone());
            assert(views(r@) == before.push(all[i as int]));
        }
        assert(i > 0 ==> all.take(i + 1)[i - 1] == parts[i - 1]@);
        i = i + 1;
    }
    assert(all.take(parts.len() as int) == all);
    r
}

/// Whether `a` comes before `b` in dictionary order, or is `b`.
pub fn in_order(a: &str, b: &str) -> (r: bool)
    ensures
        r == dictionary_le(a@, b@),
{
    let left = chars_of(a);
    let right = chars_of(b);
    let mut i: usize = 0;
    assert(a@.skip(0) == a@);
    assert(b@.skip(0) == b@);
    while i < left.len() && i < right.len() && left[i] == right[i]
        invariant
            left@ == a@,
            right@ == b@,
            i <= left.len(),
            i <= right.len(),
            dictionary_le(a@, b@) == dictionary_le(a@.skip(i as int), b@.skip(i as int)),
        decreases left.len() - i,
    {
        assert(a@.skip(i as int).drop_first() == a@.skip(i + 1));
        assert(b@.skip(i as int).drop_first() == b@.skip(i + 1));
        i = i + 1;
    }
    i == left.len() || (i < right.len() && left[i] < right[i])
}

proof fn lemma_dictionary_reflexive(a: Seq<char>)
    ensures
        dictionary_le(a, a),
    decreases a.len(),
{
    if a.len() > 0 {
        lemma_dictionary_reflexive(a.drop_first());
    }
}

proof fn lemma_dictionary_antisymmetric(a: Seq<char>, b: Seq<char>)
    requires
        dictionary_le(a, b),
        dictionary_le(b, a),
    ensures
        a == b,
    decreases a.len(),
{
    if a.len() > 0 && b.len() > 0 {
        lemma_dictionary_antisymmetric(a.drop_first(), b.drop_first());
        assert(a == seq![a[0]] + a.drop_first());
        assert(b == seq![b[0]] + b.drop_first());
    } else {
        assert(a == b);
    }
}

proof fn lemma_dictionary_transitive(a: Seq<char>, b: Seq<char>, c: Seq<char>)
    requires
        dictionary_le(a, b),
        dictionary_le(b, c),
    ensures
        dictionary_le(a, c),
    decreases a.len(),
{
    if a.len() > 0 && b.len() > 0 && c.len() > 0 && a[0] == b[0] && b[0] == c[0] {
        lemma_dictionary_transitive(a.drop_first(), b.drop_first(), c.drop_first());
    }
}

proof fn lemma_dictionary_connected(a: Seq<char>, b: Seq<char>)
    ensures
        dictionary_le(a, b) || dictionary_le(b, a),
    decreases a.len(),
{
    if a.len() > 0 && b.len() > 0 && a[0] == b[0] {
        lemma_dictionary_connected(a.drop_first(), b.drop_first());
    }
}

/// The dictionary order is total: any two texts compare one way, and both ways only if equal.
pub proof fn lemma_dictionary_total()
    ensures
        total_ordering(dictionary_order()),
{
    let r = dictionary_order();
    assert forall|a: Seq<char>| #[trigger] r(a, a) by {
        lemma_dictionary_reflexive(a);
    }
    assert forall|a: Seq<char>, b: Seq<char>| #[trigger] r(a, b) && #[trigger] r(b, a) implies a
        == b by {
        lemma_dictionary_antisymmetric(a, b);
    }
    assert forall|a: Seq<char>, b: Seq<char>, c: Seq<char>| #[trigger]
        r(a, b) && #[trigger] r(b, c) implies r(a, c) by {
        lemma_dictionary_transitive(a, b, c);
    }
    assert forall|a: Seq<char>, b: Seq<char>| #[trigger] r(a, b) || #[trigger] r(b, a) by {
        lemma_dictionary_connected(a, b);
    }
}

/// The list in dictionary order.
pub fn sort(list: &Vec<String>) -> (r: Vec<String>)
    ensures
        views(r@) == sorted(views(list@)),
{
    let ghost all = views(list@);
    let ghost leq = dictionary_order();
    proof {
        lemma_dictionary_total();
    }
    let mut r: Vec<String> = Vec::new();
    let mut i: usize = 0;
    assert(views(r@) == all.take(0));
    while i < list.len()
        invariant
            all == views(list@),
            leq == dictionary_order(),
            total_ordering(leq),
            i <= list.len(),
            r@.len() == i,
            sorted_by(views(r@), leq),
            views(r@).to_multiset() == all.take(i as int).to_multiset(),
        decreases list.len() - i,
    {
        broadcast use vstd::seq_lib::group_to_multiset_ensures;

        let ghost before = views(r@);
        let ghost item = all[i as int];
        let mut at: usize = i;
        while at > 0 && !in_order(r[at - 1].as_str(), list[i].as_str())
            invariant
                all == views(list@),
                before == views(r@),
                leq == dictionary_order(),
                i < list.len(),
                r@.len() == i,
                at <= i,
                item == list@[i as int]@,
                forall|k: int| at <= k < i ==> !leq(#[trigger] before[k], item),
            decreases at,
        {
            at = at - 1;
        }
        r.insert(at, list[i].clone());
        assert(views(r@) == before.insert(at as int, item));
        assert(all.take(i + 1) == all.take(i as int).push(item));
        assert(views(r@).to_multiset() == all.take(i + 1).to_multiset());
        assert(sorted_by(views(r@), leq)) by {
            let after = views(r@);
            assert forall|x: int, y: int| 0 <= x < y < after.len() implies #[trigger] leq(
                after[x],
                after[y],
            ) by {
                if at > 0 {
                    assert(leq(before[at - 1], item));
                }
                if y == at {
                    if x < at - 1 {
                        assert(leq(before[x], before[at - 1]));
                    }
                } else if x == at {
                    assert(!leq(before[y - 1], item));
                    assert(leq(item, before[y - 1]) || leq(before[y - 1], item));
                } else {
                    let p = if x < at { x } else { x - 1 };
                    let q = if y < at { y } else { y - 1 };
                    assert(leq(before[p], before[q]));
                }
            }
        }
        i = i + 1;
    }
    assert(all.take(list.len() as int) == all);
    proof {
        all.lemma_sort_by_ensures(leq);
        lemma_sorted_unique(views(r@), all.sort_by(leq), leq);
    }
    r
}

/// Cutting runs of equal neighbours keeps the entries that occur, whatever their number.
pub proof fn lemma_dedup_keeps_entries(list: Seq<Seq<char>>, entry: Seq<char>)
    ensures
        deduped(list).contains(entry) <==> list.contains(entry),
        list.len() > 0 ==> deduped(list).len() > 0 && deduped(list).last() == list.last(),
    decreases list.len(),
{
    if list.len() >= 2 {
        let front = list.drop_last();
        let kept = deduped(front);
        lemma_dedup_keeps_entries(front, entry);
        assert(list == front.push(list.last()));
        if list.contains(entry) {
            let k = choose|k: int| 0 <= k < list.len() && list[k] == entry;
            if k < front.len() {
                assert(front[k] == entry);
                let j = choose|j: int| 0 <= j < kept.len() && kept[j] == entry;
                assert(deduped(list)[j] == entry);
            } else {
                assert(deduped(list)[deduped(list).len() - 1] == entry);
            }
        }
        if deduped(list).contains(entry) {
            let j = choose|j: int| 0 <= j < deduped(list).len() && deduped(list)[j] == entry;
            if j < kept.len() {
                assert(kept[j] == entry);
                let k = choose|k: int| 0 <= k < front.len() && front[k] == entry;
                assert(list[k] == entry);
            } else {
                assert(list[list.len() - 1] == entry);
            }
        }
    }
}

/// In a sorted list, cutting runs of equal neighbours leaves no entry twice and keeps the order.
proof fn lemma_dedup_of_ordered(list: Seq<Seq<char>>)
    requires
        sorted_by(list, dictionary_order()),
    ensures
        deduped(list).no_duplicates(),
        sorted_by(deduped(list), dictionary_order()),
    decreases list.len(),
{
    if list.len() >= 2 {
        lemma_dictionary_total();
        let leq = dictionary_order();
        let front = list.drop_last();
        let kept = deduped(front);
        lemma_dedup_of_ordered(front);
        let n = list.len() as int;
        if list[n - 1] != list[n - 2] {
            assert forall|j: int| 0 <= j < kept.len() implies #[trigger] kept[j] != list[n - 1]
                && leq(kept[j], list[n - 1]) by {
                lemma_dedup_keeps_entries(front, kept[j]);
                assert(kept.contains(kept[j]));
                let k = choose|k: int| 0 <= k < front.len() && front[k] == kept[j];
                if k < n - 2 {
                    assert(leq(list[k], list[n - 2]));
                }
                assert(leq(list[k], list[n - 2]));
                assert(leq(list[n - 2], list[n - 1]));
            }
        }
    }
}

/// A list that is sorted and then cut of equal neighbours names every entry exactly once, in
/// dictionary order.
pub proof fn law_sorted_names_are_unique(list: Seq<Seq<char>>)
    ensures
        deduped(sorted(list)).no_duplicates(),
        forall|i: int, j: int|
            0 <= i < j < deduped(sorted(list)).len() ==> dictionary_le(
                #[trigger] deduped(sorted(list))[i],
                #[trigger] deduped(sorted(list))[j],
            ),
        forall|entry: Seq<char>| #[trigger]
            deduped(sorted(list)).contains(entry) <==> list.contains(entry),
{
    broadcast use vstd::seq_lib::group_to_multiset_ensures;

    lemma_dictionary_total();
    let leq = dictionary_order();
    list.lemma_sort_by_ensures(leq);
    lemma_dedup_of_ordered(sorted(list));
    let shown = deduped(sorted(list));
    assert forall|i: int, j: int| 0 <= i < j < shown.len() implies dictionary_le(
        #[trigger] shown[i],
        #[trigger] shown[j],
    ) by {
        assert(leq(shown[i], shown[j]));
    }
    assert forall|entry: Seq<char>| #[trigger]
        deduped(sorted(list)).contains(entry) <==> list.contains(entry) by {
        lemma_dedup_keeps_entries(sorted(list), entry);
        assert(list.to_multiset().count(entry) == sorted(list).to_multiset().count(entry));
        assert(list.contains(entry) <==> list.to_multiset().count(entry) > 0);
        assert(sorted(list).contains(entry) <==> sorted(list).to_multiset().count(entry) > 0);
    }
}

/// The place found is the leftmost one, and nothing is found only where there is none.
pub proof fn lemma_find(s: Seq<char>, needle: Seq<char>)
    ensures
        find(s, needle) matches Some(k) ==> first_at(s, needle, k),
        find(s, needle) is None ==> forall|k: int| !occurs_at(s, needle, k),
{
    if find(s, needle) is None {
        assert forall|k: int| !occurs_at(s, needle, k) by {
            lemma_no_occurrence_up_to(s, needle, k);
        }
    }
}

proof fn lemma_no_occurrence_up_to(s: Seq<char>, needle: Seq<char>, k: int)
    requires
        find(s, needle) is None,
    ensures
        forall|j: int| j <= k ==> !occurs_at(s, needle, j),
    decreases k + 1,
{
    if k >= 0 {
        lemma_no_occurrence_up_to(s, needle, k - 1);
        assert(!first_at(s, needle, k));
    }
}

/// A place where `needle` stands, with none to its left, is the place found.
pub proof fn lemma_find_is(s: Seq<char>, needle: Seq<char>, k: int)
    requires
        first_at(s, needle, k),
    ensures
        find(s, needle) == Some(k),
{
    let found = find(s, needle)->0;
    assert(first_at(s, needle, found));
    if found < k {
        assert(!occurs_at(s, needle, found));
    } else if k < found {
        assert(!occurs_at(s, needle, k));
    }
}

/// The leftmost place where `needle` stands in `hay` from `from` on, counted from `from`.
pub fn find_from(hay: &Vec<char>, from: usize, needle: &Vec<char>) -> (r: Option<usize>)
    requires
        from <= hay@.len(),
    ensures
        match r {
            Some(k) => find(hay@.skip(from as int), needle@) == Some(k as int),
            None => find(hay@.skip(from as int), needle@) is None,
        },
{
    let ghost s = hay@.skip(from as int);
    let size: usize = needle.len();
    let total: usize = hay.len();
    let room: usize = total - from;
    let mut k: usize = 0;
    while k <= room && size <= room - k
        invariant
            total == hay@.len(),
            from + room == total,
            s == hay@.skip(from as int),
            size == needle@.len(),
            k <= room + 1,
            forall|j: int| 0 <= j < k ==> !occurs_at(s, needle@, j),
        decreases room + 1 - k,
    {
        let mut i: usize = 0;
        while i < size && hay[from + k + i] == needle[i]
            invariant
                total == hay@.len(),
                from + room == total,
                s == hay@.skip(from as int),
                size == needle@.len(),
                k + size <= room,
                i <= size,
                forall|j: int| 0 <= j < i ==> s[k + j] == needle@[j],
            decreases size - i,
        {
            i = i + 1;
        }
        if i == size {
            assert(s.subrange(k as int, k + size) == needle@);
            proof {
                lemma_find_is(s, needle@, k as int);
            }
            return Some(k);
        }
        assert(!occurs_at(s, needle@, k as int)) by {
            if occurs_at(s, needle@, k as int) {
                assert(s.subrange(k as int, k + size)[i as int] == s[k + i]);
            }
        }
        k = k + 1;
    }
    assert(forall|j: int| !occurs_at(s, needle@, j));
    None
}

/// Splitting loses nothing and splits everywhere: the pieces joined by the separator are the
/// text again, and no piece holds the separator.
pub proof fn law_split_then_join(s: Seq<char>, sep: char)
    ensures
        joined(split(s, sep), seq![sep]) == s,
        forall|i: int| 0 <= i < split(s, sep).len() ==> !(#[trigger] split(s, sep)[i]).contains(sep),
    decreases s.len(),
{
    if s.len() > 0 {
        let front = s.drop_last();
        let pieces = split(front, sep);
        let all = split(s, sep);
        law_split_then_join(front, sep);
        lemma_split_not_empty(front, sep);
        assert(s == front.push(s.last()));
        if s.last() == sep {
            assert(all.drop_last() == pieces);
            assert(joined(all, seq![sep]) == joined(pieces, seq![sep]) + seq![sep] + Seq::<char>::empty());
        } else {
            let last = pieces.last();
            assert(all.drop_last() == pieces.drop_last());
            assert(joined(all, seq![sep]) == joined(pieces, seq![sep]).push(s.last()));
            assert(!last.push(s.last()).contains(sep)) by {
                if last.push(s.last()).contains(sep) {
                    let k = choose|k: int|
                        0 <= k < last.len() + 1 && last.push(s.last())[k] == sep;
                    assert(pieces[pieces.len() - 1][k] == sep);
                }
            }
        }
    }
}

/// A text that starts and ends in no white space is not touched by trimming, so trimming twice
/// does what trimming once does.
pub proof fn law_trim_is_idempotent(s: Seq<char>)
    ensures
        trimmed(s).len() > 0 ==> !is_space(trimmed(s)[0]) && !is_space(trimmed(s).last()),
        trimmed(trimmed(s)) == trimmed(s),
{
    lemma_trim_start(s);
    lemma_trim_end(trim_start(s));
}

proof fn lemma_trim_start(s: Seq<char>)
    ensures
        trim_start(s).len() > 0 ==> !is_space(trim_start(s)[0]),
    decreases s.len(),
{
    if s.len() > 0 && is_space(s[0]) {
        lemma_trim_start(s.drop_first());
    }
}

proof fn lemma_trim_end(s: Seq<char>)
    ensures
        trim_end(s).len() > 0 ==> !is_space(trim_end(s).last()) && trim_end(s)[0] == s[0],
    decreases s.len(),
{
    if s.len() > 0 && is_space(s.last()) {
        lemma_trim_end(s.drop_last());
    }
}

/// The characters behind a list of strings are those of each string, in order.
pub proof fn law_views_are_the_texts(list: Seq<String>, i: int)
    ensures
        views(list).len() == list.len(),
        0 <= i < list.len() ==> views(list)[i] == list[i]@,
{
}

/// White space is, by code point: the controls 9 to 13, the space, the next line, the no-break
/// space, and the spaces and separators of the general punctuation and of CJK.
pub proof fn law_white_space(c: char)
    ensures
        is_space(c) <==> ({
            let point = c as int;
            ||| 9 <= point <= 13
            ||| point == 32
            ||| point == 133
            ||| point == 160
            ||| point == 5760
            ||| 8192 <= point <= 8202
            ||| point == 8232
            ||| point == 8233
            ||| point == 8239
            ||| point == 8287
            ||| point == 12288
        }),
{
}

proof fn lemma_trim_front(front: Seq<char>, rest: Seq<char>)
    requires
        forall|i: int| 0 <= i < front.len() ==> is_space(#[trigger] front[i]),
    ensures
        trim_start(front + rest) == trim_start(rest),
    decreases front.len(),
{
    if front.len() == 0 {
        assert(front + rest == rest);
    } else {
        assert(is_space(front[0]));
        assert((front + rest).drop_first() == front.drop_first() + rest);
        lemma_trim_front(front.drop_first(), rest);
    }
}

proof fn lemma_trim_back(rest: Seq<char>, back: Seq<char>)
    requires
        forall|i: int| 0 <= i < back.len() ==> is_space(#[trigger] back[i]),
    ensures
        trim_end(rest + back) == trim_end(rest),
    decreases back.len(),
{
    if back.len() == 0 {
        assert(rest + back == rest);
    } else {
        assert(is_space(back[back.len() - 1]));
        assert((rest + back).drop_last() == rest + back.drop_last());
        lemma_trim_back(rest, back.drop_last());
    }
}

/// Trimming takes all white space from both ends of a text, and nothing else.
pub proof fn law_trim_takes_the_ends(front: Seq<char>, body: Seq<char>, back: Seq<char>)
    requires
        forall|i: int| 0 <= i < front.len() ==> is_space(#[trigger] front[i]),
        forall|i: int| 0 <= i < back.len() ==> is_space(#[trigger] back[i]),
        body.len() > 0 ==> !is_space(body[0]) && !is_space(body.last()),
    ensures
        trimmed(front + body + back) == body,
{
    assert(front + body + back == front + (body + back));
    lemma_trim_front(front, body + back);
    if body.len() > 0 {
        assert((body + back)[0] == body[0]);
        lemma_trim_back(body, back);
    } else {
        let none = Seq::<char>::empty();
        assert(body == none);
        assert(body + back == back + none);
        lemma_trim_front(back, none);
    }
}

/// Joining no parts gives nothing, joining one gives it, and joining two lists one behind the
/// other gives what each gives, with the separator between.
pub proof fn law_join_is_made_of_its_parts(
    part: Seq<char>,
    a: Seq<Seq<char>>,
    b: Seq<Seq<char>>,
    sep: Seq<char>,
)
    ensures
        joined(Seq::empty(), sep) == Seq::<char>::empty(),
        joined(seq![part], sep) == part,
        a.len() > 0 && b.len() > 0 ==> joined(a + b, sep) == joined(a, sep) + sep + joined(b, sep),
    decreases b.len(),
{
    if a.len() > 0 && b.len() > 0 {
        assert((a + b).drop_last() == a + b.drop_last());
        if b.len() == 1 {
            assert(a + b.drop_last() == a);
        } else {
            law_join_is_made_of_its_parts(part, a, b.drop_last(), sep);
            assert(joined(a + b, sep) == joined(a, sep) + sep + joined(b, sep));
        }
    }
}

proof fn lemma_split_plain(s: Seq<char>, sep: char)
    requires
        !s.contains(sep),
    ensures
        split(s, sep) == seq![s],
    decreases s.len(),
{
    if s.len() > 0 {
        let front = s.drop_last();
        assert(s[s.len() - 1] != sep);
        assert forall|i: int| 0 <= i < front.len() implies front[i] != sep by {
            assert(s[i] == front[i]);
        }
        lemma_split_plain(front, sep);
        assert(front.push(s.last()) == s);
        assert(split(s, sep) == seq![s]);
    }
}

proof fn lemma_split_at(head: Seq<char>, tail: Seq<char>, sep: char)
    ensures
        split(head + seq![sep] + tail, sep) == split(head, sep) + split(tail, sep),
    decreases tail.len(),
{
    let s = head + seq![sep] + tail;
    lemma_split_not_empty(tail, sep);
    if tail.len() == 0 {
        assert(s.drop_last() == head);
        assert(s.last() == sep);
        assert(split(tail, sep) == seq![Seq::<char>::empty()]) by {
            assert(tail == Seq::<char>::empty());
        }
        assert(split(s, sep) == split(head, sep) + split(tail, sep));
    } else {
        let front = tail.drop_last();
        lemma_split_at(head, front, sep);
        lemma_split_not_empty(front, sep);
        assert(s.drop_last() == head + seq![sep] + front);
        assert(s.last() == tail.last());
        assert(split(s, sep) == split(head, sep) + split(tail, sep));
    }
}

/// Splitting undoes joining: pieces without the separator that are joined by it come back from
/// the split, in order and all of them.
pub proof fn law_join_then_split(pieces: Seq<Seq<char>>, sep: char)
    requires
        pieces.len() > 0,
        forall|i: int| 0 <= i < pieces.len() ==> !(#[trigger] pieces[i]).contains(sep),
    ensures
        split(joined(pieces, seq![sep]), sep) == pieces,
    decreases pieces.len(),
{
    assert(!pieces[pieces.len() - 1].contains(sep));
    lemma_split_plain(pieces.last(), sep);
    if pieces.len() == 1 {
        assert(pieces == seq![pieces[0]]);
    } else {
        let front = pieces.drop_last();
        assert forall|i: int| 0 <= i < front.len() implies !(#[trigger] front[i]).contains(sep) by {
            assert(front[i] == pieces[i]);
        }
        law_join_then_split(front, sep);
        lemma_split_at(joined(front, seq![sep]), pieces.last(), sep);
        assert(front + seq![pieces.last()] == pieces);
    }
}

/// What a text begins with, up to its first line end, is its first line: a line feed ends a line,
/// and takes one carriage return before it along. What follows is read on its own.
pub proof fn law_first_line(line: Seq<char>, rest: Seq<char>)
    requires
        !line.contains('\n'),
    ensures
        line_seq(line + seq!['\r', '\n'] + rest) == seq![line] + line_seq(rest),
        (line.len() == 0 || line.last() != '\r') ==> line_seq(line + seq!['\n'] + rest) == seq![
            line,
        ] + line_seq(rest),
{
    let ended = line.push('\r');
    assert(!ended.contains('\n')) by {
        if ended.contains('\n') {
            let k = choose|k: int| 0 <= k < ended.len() && ended[k] == '\n';
            assert(line[k] == '\n');
        }
    }
    assert(line + seq!['\r', '\n'] + rest == ended + seq!['\n'] + rest);
    assert(ended.drop_last() == line);
    lemma_first_piece(ended, rest);
    lemma_first_piece(line, rest);
}

proof fn lemma_first_piece(first: Seq<char>, rest: Seq<char>)
    requires
        !first.contains('\n'),
    ensures
        line_seq(first + seq!['\n'] + rest) == seq![without_return(first)] + line_seq(rest),
{
    let s = first + seq!['\n'] + rest;
    lemma_split_plain(first, '\n');
    lemma_split_at(first, rest, '\n');
    lemma_split_not_empty(rest, '\n');
    let pieces = split(s, '\n');
    let others = split(rest, '\n');
    assert(pieces == seq![first] + others);
    assert(pieces.drop_last() == seq![first] + others.drop_last());
    assert(pieces.last() == others.last());
    assert(pieces.drop_last().map_values(|line: Seq<char>| without_return(line)) == seq![
        without_return(first),
    ] + others.drop_last().map_values(|line: Seq<char>| without_return(line)));
    assert(line_seq(s) == seq![without_return(first)] + line_seq(rest));
}

/// A text without a line feed is one line as it stands, a carriage return at its end included; a
/// text of no characters has no line.
pub proof fn law_last_line(tail: Seq<char>)
    requires
        !tail.contains('\n'),
    ensures
        tail.len() > 0 ==> line_seq(tail) == seq![tail],
        tail.len() == 0 ==> line_seq(tail) == Seq::<Seq<char>>::empty(),
{
    lemma_split_plain(tail, '\n');
    let pieces = split(tail, '\n');
    assert(pieces.drop_last() == Seq::<Seq<char>>::empty());
    assert(pieces.drop_last().map_values(|line: Seq<char>| without_return(line)) == Seq::<
        Seq<char>,
    >::empty());
    if tail.len() > 0 {
        assert(line_seq(tail) == seq![tail]);
    }
}

/// Cutting equal neighbours keeps a list of one entry, drops an entry that repeats the one before
/// it, and keeps one that differs from it.
pub proof fn law_dedup_drops_repeats(list: Seq<Seq<char>>, entry: Seq<char>)
    ensures
        deduped(Seq::empty()) == Seq::<Seq<char>>::empty(),
        deduped(seq![entry]) == seq![entry],
        list.len() > 0 && list.last() == entry ==> deduped(list.push(entry)) == deduped(list),
        list.len() > 0 && list.last() != entry ==> deduped(list.push(entry)) == deduped(list).push(
            entry,
        ),
{
    assert(list.push(entry).drop_last() == list);
}

/// The place that is found is where the needle stands, with no place to its left where it stands
/// too; nothing is found only where the needle stands nowhere.
pub proof fn law_leftmost_place_is_found(s: Seq<char>, needle: Seq<char>)
    ensures
        match find(s, needle) {
            Some(k) => {
                &&& 0 <= k <= s.len() - needle.len()
                &&& s.subrange(k, k + needle.len()) == needle
                &&& forall|j: int|
                    0 <= j < k ==> #[trigger] s.subrange(j, j + needle.len()) != needle
            },
            None => forall|j: int|
                0 <= j <= s.len() - needle.len() ==> #[trigger] s.subrange(j, j + needle.len())
                    != needle,
        },
{
    lemma_find(s, needle);
    match find(s, needle) {
        Some(k) => {
            assert forall|j: int| 0 <= j < k implies #[trigger] s.subrange(j, j + needle.len())
                != needle by {
                assert(!occurs_at(s, needle, j));
            }
        },
        None => {
            assert forall|j: int| 0 <= j <= s.len() - needle.len() implies #[trigger] s.subrange(
                j,
                j + needle.len(),
            ) != needle by {
                assert(!occurs_at(s, needle, j));
            }
        },
    }
}

/// What follows the last separator is all that stands behind it; without a separator it is the
/// whole text.
pub proof fn law_what_follows_the_last_separator(head: Seq<char>, tail: Seq<char>, sep: char)
    requires
        !tail.contains(sep),
    ensures
        after_last(head + seq![sep] + tail, sep) == tail,
        after_last(tail, sep) == tail,
{
    lemma_split_plain(tail, sep);
    lemma_split_at(head, tail, sep);
}

/// Dictionary order: of two texts with a common beginning, the one that ends there comes first,
/// and else the one whose next character has the smaller code point.
pub proof fn law_dictionary_order(
    common: Seq<char>,
    a: char,
    b: char,
    x: Seq<char>,
    y: Seq<char>,
)
    ensures
        dictionary_le(common, common + x),
        x.len() > 0 ==> !dictionary_le(common + x, common),
        a != b ==> (dictionary_le(common + seq![a] + x, common + seq![b] + y) <==> (a as int) < (
        b as int)),
    decreases common.len(),
{
    if common.len() == 0 {
        assert(common + x == x);
        assert((common + seq![a] + x)[0] == a);
        assert((common + seq![b] + y)[0] == b);
    } else {
        let less = common.drop_first();
        law_dictionary_order(less, a, b, x, y);
        assert((common + x).drop_first() == less + x);
        assert((common + seq![a] + x).drop_first() == less + seq![a] + x);
        assert((common + seq![b] + y).drop_first() == less + seq![b] + y);
    }
}

/// Sorting keeps every entry as often as it occurs and puts them in dictionary order.
pub proof fn law_sorting_orders_the_same_entries(list: Seq<Seq<char>>)
    ensures
        sorted(list).to_multiset() == list.to_multiset(),
        forall|i: int, j: int|
            0 <= i < j < sorted(list).len() ==> dictionary_le(
                #[trigger] sorted(list)[i],
                #[trigger] sorted(list)[j],
            ),
{
    lemma_dictionary_total();
    let leq = dictionary_order();
    list.lemma_sort_by_ensures(leq);
    let all = sorted(list);
    assert forall|i: int, j: int| 0 <= i < j < all.len() implies dictionary_le(
        #[trigger] all[i],
        #[trigger] all[j],
    ) by {
        assert(leq(all[i], all[j]));
    }
}

} // verus!
