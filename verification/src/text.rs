//! Text: comparison by byte value, concatenation, decimal numbers, sorting and joining.

use vstd::prelude::*;
use vstd::relations::*;
use vstd::utf8::*;

verus! {

/// The contents of a list of strings.
pub open spec fn texts(list: Seq<String>) -> Seq<Seq<char>> {
    list.map_values(|s: String| s@)
}

/// Lexicographic order on byte sequences: a proper prefix comes first, otherwise the first
/// byte that differs decides.
pub open spec fn bytes_le(a: Seq<u8>, b: Seq<u8>) -> bool
    decreases a.len(),
{
    if a.len() == 0 {
        true
    } else if b.len() == 0 {
        false
    } else if a[0] != b[0] {
        a[0] < b[0]
    } else {
        bytes_le(a.drop_first(), b.drop_first())
    }
}

/// Order of texts: by the byte values of their UTF-8 encodings.
pub open spec fn text_le(a: Seq<char>, b: Seq<char>) -> bool {
    bytes_le(encode_utf8(a), encode_utf8(b))
}

/// `text_le` as a relation.
pub open spec fn text_order() -> spec_fn(Seq<char>, Seq<char>) -> bool {
    |a: Seq<char>, b: Seq<char>| text_le(a, b)
}

/// The texts of a list in order, with `separator` between every two neighbours.
pub open spec fn joined(list: Seq<Seq<char>>, separator: Seq<char>) -> Seq<char>
    decreases list.len(),
{
    if list.len() == 0 {
        Seq::empty()
    } else if list.len() == 1 {
        list[0]
    } else {
        joined(list.drop_last(), separator) + separator + list.last()
    }
}

/// The decimal digit for a number below ten.
pub open spec fn digit(d: nat) -> char
    recommends
        d < 10,
{
    (d + 48) as char
}

/// The decimal notation of a number, without leading zeros.
pub open spec fn decimal(n: nat) -> Seq<char>
    decreases n,
{
    if n < 10 {
        seq![digit(n)]
    } else {
        decimal(n / 10).push(digit(n % 10))
    }
}

proof fn bytes_le_reflexive(a: Seq<u8>)
    ensures
        bytes_le(a, a),
    decreases a.len(),
{
    if a.len() > 0 {
        bytes_le_reflexive(a.drop_first());
    }
}

proof fn bytes_le_antisymmetric(a: Seq<u8>, b: Seq<u8>)
    requires
        bytes_le(a, b),
        bytes_le(b, a),
    ensures
        a == b,
    decreases a.len(),
{
    if a.len() > 0 && b.len() > 0 {
        bytes_le_antisymmetric(a.drop_first(), b.drop_first());
        assert(a =~= seq![a[0]] + a.drop_first());
        assert(b =~= seq![b[0]] + b.drop_first());
    } else {
        assert(a =~= b);
    }
}

proof fn bytes_le_transitive(a: Seq<u8>, b: Seq<u8>, c: Seq<u8>)
    requires
        bytes_le(a, b),
        bytes_le(b, c),
    ensures
        bytes_le(a, c),
    decreases a.len(),
{
    if a.len() > 0 && a[0] == b[0] && b[0] == c[0] {
        bytes_le_transitive(a.drop_first(), b.drop_first(), c.drop_first());
    }
}

proof fn bytes_le_total(a: Seq<u8>, b: Seq<u8>)
    ensures
        bytes_le(a, b) || bytes_le(b, a),
    decreases a.len(),
{
    if a.len() > 0 && b.len() > 0 {
        bytes_le_total(a.drop_first(), b.drop_first());
    }
}

/// Two texts with the same UTF-8 encoding are the same text.
pub proof fn encoding_injective(a: Seq<char>, b: Seq<char>)
    ensures
        encode_utf8(a) == encode_utf8(b) ==> a == b,
{
    encode_utf8_decode_utf8(a);
    encode_utf8_decode_utf8(b);
}

/// The order of texts is total: any two texts are comparable, and only equal texts come
/// before each other both ways.
pub proof fn text_order_total()
    ensures
        total_ordering(text_order()),
{
    let leq = text_order();
    assert forall|x: Seq<char>| #[trigger] leq(x, x) by {
        bytes_le_reflexive(encode_utf8(x));
    }
    assert forall|x: Seq<char>, y: Seq<char>| #[trigger] leq(x, y) && #[trigger] leq(y, x) implies x
        == y by {
        bytes_le_antisymmetric(encode_utf8(x), encode_utf8(y));
        encoding_injective(x, y);
    }
    assert forall|x: Seq<char>, y: Seq<char>, z: Seq<char>| #[trigger]
        leq(x, y) && #[trigger] leq(y, z) implies leq(x, z) by {
        bytes_le_transitive(encode_utf8(x), encode_utf8(y), encode_utf8(z));
    }
    assert forall|x: Seq<char>, y: Seq<char>| #[trigger] leq(x, y) || #[trigger] leq(y, x) by {
        bytes_le_total(encode_utf8(x), encode_utf8(y));
    }
}

/// Whether `a` comes before `b` or equals it.
pub fn precedes(a: &str, b: &str) -> (r: bool)
    ensures
        r == text_le(a@, b@),
{
    let x = a.as_bytes();
    let y = b.as_bytes();
    let mut i: usize = 0;
    assert(x@.skip(0) =~= x@);
    assert(y@.skip(0) =~= y@);
    while i < x.len() && i < y.len()
        invariant
            i <= x.len(),
            i <= y.len(),
            x@ == encode_utf8(a@),
            y@ == encode_utf8(b@),
            bytes_le(x@, y@) == bytes_le(x@.skip(i as int), y@.skip(i as int)),
        decreases x.len() - i,
    {
        if x[i] != y[i] {
            return x[i] < y[i];
        }
        assert(x@.skip(i as int).drop_first() =~= x@.skip(i + 1));
        assert(y@.skip(i as int).drop_first() =~= y@.skip(i + 1));
        i += 1;
    }
    i == x.len()
}

/// Whether two texts are the same.
pub fn same(a: &str, b: &str) -> (r: bool)
    ensures
        r == (a@ == b@),
{
    let x = a.as_bytes();
    let y = b.as_bytes();
    proof {
        encoding_injective(a@, b@);
    }
    if x.len() != y.len() {
        return false;
    }
    let mut i: usize = 0;
    while i < x.len()
        invariant
            i <= x.len(),
            x.len() == y.len(),
            x@ == encode_utf8(a@),
            y@ == encode_utf8(b@),
            forall|j: int| 0 <= j < i ==> x@[j] == y@[j],
        decreases x.len() - i,
    {
        if x[i] != y[i] {
            return false;
        }
        i += 1;
    }
    assert(x@ =~= y@);
    true
}

/// Two texts, one after the other.
pub fn concat2(a: &str, b: &str) -> (r: String)
    ensures
        r@ == a@ + b@,
{
    let mut r = a.to_owned();
    r.append(b);
    r
}

/// Three texts, one after the other.
pub fn concat3(a: &str, b: &str, c: &str) -> (r: String)
    ensures
        r@ == a@ + b@ + c@,
{
    let mut r = concat2(a, b);
    r.append(c);
    r
}

/// Four texts, one after the other.
pub fn concat4(a: &str, b: &str, c: &str, d: &str) -> (r: String)
    ensures
        r@ == a@ + b@ + c@ + d@,
{
    let mut r = concat3(a, b, c);
    r.append(d);
    r
}

/// The texts of a list in order, with `separator` between every two neighbours.
pub fn join(list: &Vec<String>, separator: &str) -> (r: String)
    ensures
        r@ == joined(texts(list@), separator@),
{
    let ghost all = texts(list@);
    let mut r = String::new();
    let mut i: usize = 0;
    while i < list.len()
        invariant
            i <= list.len(),
            all == texts(list@),
            r@ == joined(all.take(i as int), separator@),
        decreases list.len() - i,
    {
        if i > 0 {
            r.append(separator);
        }
        r.append(list[i].as_str());
        assert(all.take(i + 1).drop_last() =~= all.take(i as int));
        assert(all.take(i + 1).last() == list[i as int]@);
        if i == 0 {
            assert(r@ =~= all.take(1)[0]);
        }
        i += 1;
    }
    assert(all.take(i as int) =~= all);
    r
}

/// The digit of a number below ten, as a text.
fn digit_text(d: u16) -> (r: &'static str)
    requires
        d < 10,
    ensures
        r@ == seq![digit(d as nat)],
{
    proof {
        reveal_strlit("0");
        reveal_strlit("1");
        reveal_strlit("2");
        reveal_strlit("3");
        reveal_strlit("4");
        reveal_strlit("5");
        reveal_strlit("6");
        reveal_strlit("7");
        reveal_strlit("8");
        reveal_strlit("9");
    }
    let r = match d {
        0 => "0",
        1 => "1",
        2 => "2",
        3 => "3",
        4 => "4",
        5 => "5",
        6 => "6",
        7 => "7",
        8 => "8",
        _ => "9",
    };
    assert(r@ =~= seq![digit(d as nat)]);
    r
}

/// The decimal notation of a number.
pub fn decimal_text(n: u16) -> (r: String)
    ensures
        r@ == decimal(n as nat),
    decreases n,
{
    let last = digit_text(n % 10);
    if n < 10 {
        last.to_owned()
    } else {
        let mut r = decimal_text(n / 10);
        r.append(last);
        assert(r@ =~= decimal(n as nat));
        r
    }
}

/// Puts a text into a sorted list, before the first one that comes after it.
fn insert_sorted(list: &mut Vec<String>, item: String)
    requires
        sorted_by(texts(old(list)@), text_order()),
    ensures
        sorted_by(texts(final(list)@), text_order()),
        texts(final(list)@).to_multiset() == texts(old(list)@).to_multiset().insert(item@),
{
    let ghost before = texts(list@);
    let ghost leq = text_order();
    let mut at: usize = 0;
    while at < list.len() && precedes(list[at].as_str(), item.as_str())
        invariant
            at <= list.len(),
            before == texts(list@),
            forall|j: int| 0 <= j < at ==> text_le(#[trigger] before[j], item@),
        decreases list.len() - at,
    {
        at += 1;
    }
    proof {
        text_order_total();
        if at < list.len() {
            assert(!leq(before[at as int], item@));
            assert(leq(item@, before[at as int]));
            assert forall|j: int| at <= j < before.len() implies leq(item@, #[trigger] before[j]) by {
                if j > at {
                    assert(leq(before[at as int], before[j]));
                }
            }
        }
    }
    let ghost view = item@;
    list.insert(at, item);
    proof {
        let after = texts(list@);
        assert(after =~= before.insert(at as int, view));
        vstd::seq_lib::to_multiset_insert(before, at as int, view);
        assert forall|i: int, j: int| 0 <= i < j < after.len() implies #[trigger] leq(
            after[i],
            after[j],
        ) by {
            let a = if i < at {
                before[i]
            } else if i == at {
                view
            } else {
                before[i - 1]
            };
            let b = if j < at {
                before[j]
            } else if j == at {
                view
            } else {
                before[j - 1]
            };
            assert(after[i] == a && after[j] == b);
        }
    }
}

/// Sorts texts by byte value.
pub fn sort(list: Vec<String>) -> (r: Vec<String>)
    ensures
        texts(r@) == texts(list@).sort_by(text_order()),
{
    let ghost all = texts(list@);
    let mut r: Vec<String> = Vec::new();
    assert(texts(r@) =~= all.take(0));
    let mut i: usize = 0;
    while i < list.len()
        invariant
            i <= list.len(),
            all == texts(list@),
            sorted_by(texts(r@), text_order()),
            texts(r@).to_multiset() == all.take(i as int).to_multiset(),
        decreases list.len() - i,
    {
        insert_sorted(&mut r, list[i].clone());
        proof {
            assert(all.take(i + 1) =~= all.take(i as int).push(list[i as int]@));
            vstd::seq_lib::to_multiset_build(all.take(i as int), list[i as int]@);
        }
        i += 1;
    }
    proof {
        assert(all.take(i as int) =~= all);
        text_order_total();
        all.lemma_sort_by_ensures(text_order());
        vstd::seq_lib::lemma_sorted_unique(texts(r@), all.sort_by(text_order()), text_order());
    }
    r
}

/// Whether a text is in a list.
pub fn contains(list: &Vec<String>, item: &str) -> (r: bool)
    ensures
        r == texts(list@).contains(item@),
{
    let mut i: usize = 0;
    while i < list.len()
        invariant
            i <= list.len(),
            forall|j: int| 0 <= j < i ==> #[trigger] texts(list@)[j] != item@,
        decreases list.len() - i,
    {
        if same(list[i].as_str(), item) {
            assert(texts(list@)[i as int] == item@);
            return true;
        }
        i += 1;
    }
    false
}

/// A list without one text.
pub open spec fn without(list: Seq<Seq<char>>, item: Seq<char>) -> Seq<Seq<char>> {
    list.filter(|s: Seq<char>| s != item)
}

/// A copy of a list without one text.
pub fn copy_without(list: &Vec<String>, item: &str) -> (r: Vec<String>)
    ensures
        texts(r@) == without(texts(list@), item@),
        r@.len() <= list@.len(),
{
    let ghost all = texts(list@);
    let mut r: Vec<String> = Vec::new();
    let mut i: usize = 0;
    assert(texts(r@) =~= without(all.take(0), item@)) by {
        reveal(Seq::filter);
    }
    while i < list.len()
        invariant
            i <= list.len(),
            r@.len() <= i,
            all == texts(list@),
            texts(r@) == without(all.take(i as int), item@),
        decreases list.len() - i,
    {
        let ghost before = texts(r@);
        proof {
            reveal(Seq::filter);
            assert(all.take(i + 1).drop_last() =~= all.take(i as int));
            assert(all.take(i + 1).last() == list[i as int]@);
        }
        if !same(list[i].as_str(), item) {
            r.push(list[i].clone());
            assert(texts(r@) =~= before.push(list[i as int]@));
        }
        i += 1;
    }
    assert(all.take(i as int) =~= all);
    r
}

/// How texts are ordered: the first byte in which their UTF-8 encodings differ decides, and
/// where one encoding ends before they differ, it comes first.
pub proof fn first_difference_orders(a: Seq<char>, b: Seq<char>, same: int)
    requires
        0 <= same <= encode_utf8(a).len(),
        same <= encode_utf8(b).len(),
        forall|i: int| 0 <= i < same ==> encode_utf8(a)[i] == encode_utf8(b)[i],
        same < encode_utf8(a).len() && same < encode_utf8(b).len() ==> encode_utf8(a)[same]
            != encode_utf8(b)[same],
    ensures
        same == encode_utf8(a).len() ==> text_le(a, b),
        same == encode_utf8(b).len() && same < encode_utf8(a).len() ==> !text_le(a, b),
        same < encode_utf8(a).len() && same < encode_utf8(b).len() ==> (text_le(a, b)
            <==> encode_utf8(a)[same] < encode_utf8(b)[same]),
{
    first_difference_of_bytes(encode_utf8(a), encode_utf8(b), same);
}

proof fn first_difference_of_bytes(x: Seq<u8>, y: Seq<u8>, same: int)
    requires
        0 <= same <= x.len(),
        same <= y.len(),
        forall|i: int| 0 <= i < same ==> x[i] == y[i],
        same < x.len() && same < y.len() ==> x[same] != y[same],
    ensures
        same == x.len() ==> bytes_le(x, y),
        same == y.len() && same < x.len() ==> !bytes_le(x, y),
        same < x.len() && same < y.len() ==> (bytes_le(x, y) <==> x[same] < y[same]),
    decreases same,
{
    if same > 0 {
        let p = x.drop_first();
        let q = y.drop_first();
        assert forall|i: int| 0 <= i < same - 1 implies p[i] == q[i] by {
            assert(x[i + 1] == y[i + 1]);
        }
        first_difference_of_bytes(p, q, same - 1);
    }
}

/// A joined list is put together from its parts: nothing for no text, the text itself for one,
/// and for two lists one after the other, their joined texts with the separator between them.
pub proof fn joined_in_parts(
    left: Seq<Seq<char>>,
    right: Seq<Seq<char>>,
    item: Seq<char>,
    separator: Seq<char>,
)
    ensures
        joined(Seq::empty(), separator) == Seq::<char>::empty(),
        joined(seq![item], separator) == item,
        left.len() > 0 && right.len() > 0 ==> joined(left + right, separator) == joined(
            left,
            separator,
        ) + separator + joined(right, separator),
    decreases right.len(),
{
    if left.len() > 0 && right.len() > 0 {
        let all = left + right;
        assert(all.last() == right.last());
        assert(all.drop_last() =~= left + right.drop_last());
        if right.len() == 1 {
            assert(left + right.drop_last() =~= left);
            assert(joined(all, separator) == joined(left, separator) + separator + right[0]);
        } else {
            joined_in_parts(left, right.drop_last(), item, separator);
            assert(joined(all, separator) =~= joined(left, separator) + separator + joined(
                right,
                separator,
            ));
        }
    }
}

/// Every text of a list is in the joined text, whole and in its place: what comes before it is
/// what joins from the texts before it, and what comes after it from the texts after it.
pub proof fn joined_holds_each(list: Seq<Seq<char>>, separator: Seq<char>, i: int)
    requires
        0 <= i < list.len(),
    ensures
        ({
            let before = joined(list.take(i), separator);
            let after = joined(list.skip(i + 1), separator);
            let start = if i == 0 {
                Seq::empty()
            } else {
                before + separator
            };
            let end = if i + 1 == list.len() {
                Seq::empty()
            } else {
                separator + after
            };
            joined(list, separator) == start + list[i] + end
        }),
{
    let before = list.take(i);
    let rest = list.skip(i);
    let after = list.skip(i + 1);
    let only = seq![list[i]];
    assert(list =~= before + rest);
    assert(rest =~= only + after);
    joined_in_parts(before, rest, list[i], separator);
    joined_in_parts(only, after, list[i], separator);
    if i + 1 == list.len() {
        assert(rest =~= only);
    }
    if i == 0 {
        assert(list =~= rest);
    }
    assert(joined(rest, separator) =~= list[i] + if i + 1 == list.len() {
        Seq::empty()
    } else {
        separator + joined(after, separator)
    });
    let start = if i == 0 {
        Seq::empty()
    } else {
        joined(before, separator) + separator
    };
    assert(joined(list, separator) =~= start + joined(rest, separator));
    let end = if i + 1 == list.len() {
        Seq::empty()
    } else {
        separator + joined(after, separator)
    };
    assert(joined(list, separator) =~= start + list[i] + end);
}

/// How long several texts are together.
pub open spec fn total_len(list: Seq<Seq<char>>) -> nat
    decreases list.len(),
{
    if list.len() == 0 {
        0
    } else {
        total_len(list.drop_last()) + list.last().len()
    }
}

/// A joined list is as long as its texts and the separators between them.
pub proof fn joined_len(list: Seq<Seq<char>>, separator: Seq<char>)
    requires
        list.len() > 0,
    ensures
        joined(list, separator).len() == total_len(list) + (list.len() - 1) * separator.len(),
    decreases list.len(),
{
    if list.len() > 1 {
        joined_len(list.drop_last(), separator);
        let n = list.len() as int - 2;
        let m = separator.len() as int;
        assert((n + 1) * m == n * m + m) by (nonlinear_arith);
    } else {
        assert(list.drop_last() =~= Seq::<Seq<char>>::empty());
        assert(total_len(list.drop_last()) == 0);
        assert((list.len() - 1) * separator.len() == 0) by (nonlinear_arith)
            requires
                list.len() == 1,
        ;
    }
}

/// Sorted texts are the same texts, each as often as before, and none comes before one that
/// it follows in the byte order.
pub proof fn sorting_keeps_all_and_orders(list: Seq<Seq<char>>, i: int, j: int)
    requires
        0 <= i <= j < list.len(),
    ensures
        list.sort_by(text_order()).len() == list.len(),
        list.sort_by(text_order()).to_multiset() == list.to_multiset(),
        text_le(list.sort_by(text_order())[i], list.sort_by(text_order())[j]),
{
    broadcast use vstd::seq_lib::group_to_multiset_ensures;

    text_order_total();
    list.lemma_sort_by_ensures(text_order());
    let sorted = list.sort_by(text_order());
    assert(sorted.len() == sorted.to_multiset().len());
    assert(list.len() == list.to_multiset().len());
    if i < j {
        assert((text_order())(sorted[i], sorted[j]));
    } else {
        bytes_le_reflexive(encode_utf8(sorted[i]));
    }
}

/// Leaving a text out of two lists one after the other leaves it out of each; a list of that
/// text alone becomes empty, and one of another text stays.
pub proof fn without_in_parts(
    left: Seq<Seq<char>>,
    right: Seq<Seq<char>>,
    item: Seq<char>,
    other: Seq<char>,
)
    requires
        other != item,
    ensures
        without(left + right, item) == without(left, item) + without(right, item),
        without(seq![item], item) == Seq::<Seq<char>>::empty(),
        without(seq![other], item) == seq![other],
        without(Seq::empty(), item) == Seq::<Seq<char>>::empty(),
    decreases right.len(),
{
    reveal(Seq::filter);
    let all = left + right;
    if right.len() == 0 {
        assert(all =~= left);
        assert(without(right, item) =~= Seq::<Seq<char>>::empty());
        assert(without(all, item) =~= without(left, item) + without(right, item));
    } else {
        without_in_parts(left, right.drop_last(), item, other);
        assert(all.drop_last() =~= left + right.drop_last());
        assert(all.last() == right.last());
        assert(without(all, item) =~= without(left, item) + without(right, item));
    }
    assert(seq![item].drop_last() =~= Seq::<Seq<char>>::empty());
    assert(seq![other].drop_last() =~= Seq::<Seq<char>>::empty());
    assert(without(Seq::empty(), item) =~= Seq::<Seq<char>>::empty());
    assert(without(seq![item], item) =~= Seq::<Seq<char>>::empty());
    assert(without(seq![other], item) =~= seq![other]);
}

/// The decimal notation of a number: digits without a leading zero, of which the last is the
/// remainder by ten and those before it are the notation of the quotient.
pub proof fn decimal_is_positional(n: nat)
    ensures
        n < 10 ==> decimal(n) == seq![(48 + n) as char],
        n >= 10 ==> decimal(n) == decimal(n / 10).push((48 + n % 10) as char),
        n > 0 ==> decimal(n)[0] != '0',
        decimal(n).len() > 0,
    decreases n,
{
    if n >= 10 {
        decimal_is_positional(n / 10);
    }
}

/// A list of strings is seen with each string in its place.
pub proof fn texts_are_in_place(list: Seq<String>, i: int)
    ensures
        texts(list).len() == list.len(),
        0 <= i < list.len() ==> texts(list)[i] == list[i]@,
{
}

} // verus!
