//! Laws of text: what is cut off, what is kept, and what a number reads as.

use crate::labels;
use crate::labels::Labels;
use crate::text;
use vstd::prelude::*;

verus! {

/// Whether a character is a decimal digit.
pub open spec fn is_digit(c: char) -> bool {
    '0' <= c <= '9'
}

/// The number that digits read as.
pub open spec fn reads(digits: Seq<char>) -> nat
    decreases digits.len(),
{
    if digits.len() == 0 {
        0
    } else {
        reads(digits.drop_last()) * 10 + (digits.last() as u32 - 48) as nat
    }
}

/// Whether digits are those of a number: some, and no zero in front of others.
pub open spec fn plain_number(digits: Seq<char>) -> bool {
    &&& digits.len() > 0
    &&& forall|i: int| 0 <= i < digits.len() ==> is_digit(#[trigger] digits[i])
    &&& digits.len() > 1 ==> digits[0] != '0'
}

/// A number in decimal reads as that number.
pub(crate) proof fn lemma_decimal(n: nat)
    ensures
        plain_number(text::decimal(n)),
        reads(text::decimal(n)) == n,
        n > 0 ==> text::decimal(n)[0] != '0',
    decreases n,
{
    let d = text::decimal(n);
    if n < 10 {
        assert(d.drop_last() == Seq::<char>::empty());
        assert(reads(d.drop_last()) == 0);
    } else {
        lemma_decimal(n / 10);
        assert(d.drop_last() == text::decimal(n / 10));
        assert(d.last() as u32 == 48 + n % 10);
        assert forall|i: int| 0 <= i < d.len() implies is_digit(#[trigger] d[i]) by {
            if i < d.len() - 1 {
                assert(d[i] == text::decimal(n / 10)[i]);
            }
        }
    }
}

/// A number is rendered in digits that read as it.
pub proof fn law_a_number_reads_back(n: u64, r: String)
    requires
        call_ensures(text::render, (n,), r),
    ensures
        plain_number(r@),
        reads(r@) == n,
{
    lemma_decimal(n as nat);
}

/// A signed number is rendered with a minus sign in front where it is below
/// zero, and then in digits that read as its size.
pub proof fn law_a_signed_number_reads_back(n: i64, r: String)
    requires
        call_ensures(text::render_signed, (n,), r),
    ensures
        n >= 0 ==> plain_number(r@) && reads(r@) == n,
        n < 0 ==> r@.len() > 1 && r@[0] == '-' && plain_number(r@.drop_first()) && reads(
            r@.drop_first(),
        ) == -n,
{
    if n < 0 {
        lemma_decimal((-n) as nat);
        assert(r@.drop_first() == text::decimal((-n) as nat));
    } else {
        lemma_decimal(n as nat);
    }
}

/// What `strip_start` cuts off is at the start, is all to be dropped, and is all
/// there is to be dropped.
pub(crate) proof fn lemma_strip_start(s: Seq<char>, drop: spec_fn(char) -> bool)
    ensures
        ({
            let kept = text::strip_start(s, drop);
            let cut = s.len() - kept.len();
            &&& 0 <= cut
            &&& kept == s.skip(cut)
            &&& forall|i: int| 0 <= i < cut ==> drop(#[trigger] s[i])
            &&& kept.len() > 0 ==> !drop(kept[0])
        }),
    decreases s.len(),
{
    let kept = text::strip_start(s, drop);
    if s.len() > 0 && drop(s[0]) {
        lemma_strip_start(s.drop_first(), drop);
        let cut = s.len() - kept.len();
        assert(kept == s.skip(cut));
        assert forall|i: int| 0 <= i < cut implies drop(#[trigger] s[i]) by {
            if i > 0 {
                assert(s[i] == s.drop_first()[i - 1]);
            }
        }
    } else {
        assert(s.skip(0) == s);
    }
}

/// The same of `strip_end`, at the end.
pub(crate) proof fn lemma_strip_end(s: Seq<char>, drop: spec_fn(char) -> bool)
    ensures
        ({
            let kept = text::strip_end(s, drop);
            &&& kept.len() <= s.len()
            &&& kept == s.take(kept.len() as int)
            &&& forall|i: int| kept.len() <= i < s.len() ==> drop(#[trigger] s[i])
            &&& kept.len() > 0 ==> !drop(kept.last())
        }),
    decreases s.len(),
{
    let kept = text::strip_end(s, drop);
    if s.len() > 0 && drop(s.last()) {
        lemma_strip_end(s.drop_last(), drop);
        assert(kept == s.take(kept.len() as int));
        assert forall|i: int| kept.len() <= i < s.len() implies drop(#[trigger] s[i]) by {
            if i < s.len() - 1 {
                assert(s[i] == s.drop_last()[i]);
            }
        }
    } else {
        assert(s.take(s.len() as int) == s);
    }
}

/// Whether a character is white space, by its code point.
pub open spec fn blank(c: char) -> bool {
    let u = c as u32;
    ||| u == 0x09 || u == 0x0a || u == 0x0b || u == 0x0c || u == 0x0d
    ||| u == 0x20 || u == 0x85 || u == 0xa0 || u == 0x1680
    ||| 0x2000 <= u <= 0x200a
    ||| u == 0x2028 || u == 0x2029 || u == 0x202f || u == 0x205f || u == 0x3000
}

/// Whether a text is another without the white space at its ends: what stands
/// before and after it there is white space, and its own ends are none.
pub open spec fn is_trim_of(kept: Seq<char>, s: Seq<char>) -> bool {
    &&& exists|from: int|
        {
            &&& 0 <= from <= from + kept.len() <= s.len()
            &&& kept == #[trigger] s.subrange(from, from + kept.len())
            &&& forall|i: int| 0 <= i < from ==> blank(#[trigger] s[i])
            &&& forall|i: int| from + kept.len() <= i < s.len() ==> blank(#[trigger] s[i])
        }
    &&& kept.len() > 0 ==> !blank(kept[0]) && !blank(kept.last())
}

pub(crate) proof fn lemma_trimmed(s: Seq<char>)
    ensures
        is_trim_of(text::trimmed(s), s),
{
    let ws = |c: char| text::white_space(c);
    let front = text::strip_start(s, ws);
    let kept = text::trimmed(s);
    lemma_strip_start(s, ws);
    lemma_strip_end(front, ws);
    let from = s.len() - front.len();
    assert(kept == s.subrange(from, from + kept.len()));
    assert forall|i: int| 0 <= i < from implies blank(#[trigger] s[i]) by {
        assert(ws(s[i]));
    }
    assert forall|i: int| from + kept.len() <= i < s.len() implies blank(#[trigger] s[i]) by {
        assert(front[i - from] == s[i]);
        assert(ws(front[i - from]));
    }
    if kept.len() > 0 {
        assert(kept[0] == front[0]);
        assert(!ws(front[0]));
        assert(!ws(kept.last()));
    }
}

/// Trimming cuts off white space at both ends, all of it, and keeps what stands
/// between as it is.
pub proof fn law_trimming_cuts_off_white_space_at_the_ends(s: &str, r: String)
    requires
        call_ensures(text::trim, (s,), r),
    ensures
        is_trim_of(r@, s@),
{
    lemma_trimmed(s@);
}

/// Cutting a character off the end cuts off all of them there, and nothing else.
pub proof fn law_only_the_end_is_cut_off(s: &str, end: char, r: String)
    requires
        call_ensures(text::trim_end_of, (s, end), r),
    ensures
        r@.len() <= s@.len(),
        r@ == s@.take(r@.len() as int),
        forall|i: int| r@.len() <= i < s@.len() ==> (#[trigger] s@[i]) == end,
        r@.len() > 0 ==> r@.last() != end,
{
    let drop = |c: char| c == end;
    lemma_strip_end(s@, drop);
    assert forall|i: int| r@.len() <= i < s@.len() implies (#[trigger] s@[i]) == end by {
        assert(drop(s@[i]));
    }
    if r@.len() > 0 {
        assert(!drop(r@.last()));
    }
}

pub(crate) proof fn lemma_before(s: Seq<char>, stop: char)
    ensures
        text::before(s, stop).len() <= s.len(),
        text::before(s, stop) == s.take(text::before(s, stop).len() as int),
        !text::before(s, stop).contains(stop),
        text::before(s, stop).len() < s.len() ==> s[text::before(s, stop).len() as int] == stop,
    decreases s.len(),
{
    let r = text::before(s, stop);
    if s.len() > 0 && s[0] != stop {
        let rest = text::before(s.drop_first(), stop);
        lemma_before(s.drop_first(), stop);
        assert(r == seq![s[0]] + rest);
        assert(r == s.take(r.len() as int));
        assert forall|i: int| 0 <= i < r.len() implies r[i] != stop by {
            if i > 0 {
                assert(r[i] == rest[i - 1]);
                assert(rest.contains(rest[i - 1]));
            }
        }
        if r.len() < s.len() {
            assert(s[r.len() as int] == s.drop_first()[rest.len() as int]);
        }
    } else {
        assert(r == s.take(0));
    }
}

pub(crate) proof fn lemma_before_last(s: Seq<char>, stop: char)
    ensures
        text::before_last(s, stop).len() <= s.len(),
        text::before_last(s, stop) == s.take(text::before_last(s, stop).len() as int),
        text::before_last(s, stop).len() < s.len() ==> s[text::before_last(s, stop).len() as int]
            == stop,
        forall|i: int| text::before_last(s, stop).len() < i < s.len() ==> (#[trigger] s[i]) != stop,
        text::before_last(s, stop).len() == s.len() ==> !s.contains(stop),
    decreases s.len(),
{
    let r = text::before_last(s, stop);
    if s.contains(stop) && s.last() != stop {
        lemma_before_last(s.drop_last(), stop);
        assert(r == s.take(r.len() as int));
        let k = s.index_of(stop);
        assert(s.drop_last()[k] == stop);
        assert(s.drop_last().contains(stop));
        assert(r.len() < s.drop_last().len());
        assert forall|i: int| r.len() < i < s.len() implies (#[trigger] s[i]) != stop by {
            if i < s.len() - 1 {
                assert(s[i] == s.drop_last()[i]);
            }
        }
        assert(s[r.len() as int] == s.drop_last()[r.len() as int]);
    } else if s.contains(stop) {
        assert(r == s.take(r.len() as int));
    } else {
        assert(s.take(s.len() as int) == s);
    }
}

/// A text up to a character is what stands before the first of them, or all of
/// the text where there is none.
pub proof fn law_a_text_is_cut_at_the_first(s: &str, stop: char, r: String)
    requires
        call_ensures(text::up_to, (s, stop), r),
    ensures
        r@.len() <= s@.len(),
        r@ == s@.take(r@.len() as int),
        !r@.contains(stop),
        r@.len() < s@.len() ==> s@[r@.len() as int] == stop,
{
    lemma_before(s@, stop);
}

/// A text up to the last of a character is what stands before that one, or all
/// of the text where there is none.
pub proof fn law_a_text_is_cut_at_the_last(s: &str, stop: char, r: String)
    requires
        call_ensures(text::up_to_last, (s, stop), r),
    ensures
        r@.len() <= s@.len(),
        r@ == s@.take(r@.len() as int),
        r@.len() < s@.len() ==> s@[r@.len() as int] == stop,
        forall|i: int| r@.len() < i < s@.len() ==> (#[trigger] s@[i]) != stop,
        r@.len() == s@.len() ==> !s@.contains(stop),
{
    lemma_before_last(s@, stop);
}

/// Whether two texts are the same up to their byte `k`, and differ there, where
/// both go on.
pub open spec fn first_difference(a: Seq<u8>, b: Seq<u8>, k: int) -> bool {
    &&& 0 <= k <= a.len()
    &&& k <= b.len()
    &&& forall|i: int| 0 <= i < k ==> (#[trigger] a[i]) == b[i]
    &&& k < a.len() && k < b.len() ==> a[k] != b[k]
}

proof fn lemma_first_difference(a: Seq<u8>, b: Seq<u8>, k: int)
    requires
        first_difference(a, b, k),
        k == a.len() || k == b.len() || a[k] != b[k],
    ensures
        labels::bytes_before(a, b) == (k < b.len() && (k == a.len() || a[k] < b[k])),
    decreases k,
{
    if k > 0 {
        let (x, y) = (a.drop_first(), b.drop_first());
        assert(a[0] == b[0]);
        assert forall|i: int| 0 <= i < k - 1 implies (#[trigger] x[i]) == y[i] by {
            assert(a[i + 1] == b[i + 1]);
        }
        lemma_first_difference(x, y, k - 1);
    }
}

/// Whether a name sorts before another: by their bytes, at the first in which they
/// differ, and a name that another begins with before it.
pub open spec fn sorts_before(a: Seq<char>, b: Seq<char>) -> bool {
    let (x, y) = (vstd::utf8::encode_utf8(a), vstd::utf8::encode_utf8(b));
    exists|k: int| #[trigger]
        first_difference(x, y, k) && k < y.len() && (k == x.len() || x[k] < y[k])
}

/// The first byte in which two differ, or where the shorter one ends.
proof fn lemma_find_difference(a: Seq<u8>, b: Seq<u8>) -> (k: int)
    ensures
        first_difference(a, b, k),
        k == a.len() || k == b.len() || a[k] != b[k],
    decreases a.len(),
{
    if a.len() == 0 || b.len() == 0 || a[0] != b[0] {
        0
    } else {
        let (x, y) = (a.drop_first(), b.drop_first());
        let k = lemma_find_difference(x, y) + 1;
        assert forall|i: int| 0 <= i < k implies (#[trigger] a[i]) == b[i] by {
            if i > 0 {
                assert(x[i - 1] == y[i - 1]);
            }
        }
        k
    }
}

proof fn lemma_sorts_before(a: Seq<char>, b: Seq<char>)
    requires
        labels::text_before(a, b),
    ensures
        sorts_before(a, b),
{
    let (x, y) = (vstd::utf8::encode_utf8(a), vstd::utf8::encode_utf8(b));
    let k = lemma_find_difference(x, y);
    lemma_first_difference(x, y, k);
    assert(first_difference(x, y, k) && k < y.len() && (k == x.len() || x[k] < y[k]));
}

/// Names are ordered by their bytes: at the first byte in which two differ the
/// smaller one comes first, and a name that another begins with comes before it.
pub proof fn law_names_are_ordered_by_their_bytes(a: &str, b: &str, k: int, r: bool)
    requires
        call_ensures(labels::comes_before, (a, b), r),
        first_difference(vstd::utf8::encode_utf8(a@), vstd::utf8::encode_utf8(b@), k),
    ensures
        ({
            let (x, y) = (vstd::utf8::encode_utf8(a@), vstd::utf8::encode_utf8(b@));
            r == (k < y.len() && (k == x.len() || x[k] < y[k]))
        }),
{
    lemma_first_difference(vstd::utf8::encode_utf8(a@), vstd::utf8::encode_utf8(b@), k);
}

/// What entries whose names differ map a name to is the value that stands beside
/// it, and they map no other name.
proof fn lemma_map_of_entries(entries: Seq<(Seq<char>, Seq<char>)>, name: Seq<char>)
    requires
        forall|i: int, j: int|
            0 <= i < j < entries.len() ==> (#[trigger] entries[i]).0 != (#[trigger] entries[j]).0,
    ensures
        forall|i: int|
            0 <= i < entries.len() ==> labels::label_map(entries).contains_key(
                (#[trigger] entries[i]).0,
            ) && labels::label_map(entries)[entries[i].0] == entries[i].1,
        labels::label_map(entries).contains_key(name) ==> names(entries, name),
    decreases entries.len(),
{
    if entries.len() > 0 {
        let rest = entries.drop_last();
        assert forall|i: int, j: int| 0 <= i < j < rest.len() implies (#[trigger] rest[i]).0 != (
        #[trigger] rest[j]).0 by {
            assert(entries[i].0 != entries[j].0);
        }
        lemma_map_of_entries(rest, name);
        let last = entries.len() - 1;
        assert forall|i: int| 0 <= i < entries.len() implies labels::label_map(
            entries,
        ).contains_key((#[trigger] entries[i]).0) && labels::label_map(entries)[entries[i].0]
            == entries[i].1 by {
            if i < last {
                assert(rest[i] == entries[i]);
                assert(entries[i].0 != entries[last].0);
            }
        }
        if labels::label_map(entries).contains_key(name) {
            if entries[last].0 != name {
                let i = choose|i: int| 0 <= i < rest.len() && (#[trigger] rest[i]).0 == name;
                assert(entries[i].0 == name);
            }
        }
    }
}

/// Whether a name stands in some entries.
pub open spec fn names(entries: Seq<(Seq<char>, Seq<char>)>, name: Seq<char>) -> bool {
    exists|i: int| 0 <= i < entries.len() && (#[trigger] entries[i]).0 == name
}

/// Setting a label sets that one and no other: the label has the value that it is
/// set to, every other label that there was is still there as it was, and there
/// is no label besides.
pub proof fn law_setting_a_label_sets_only_that_label()
    ensures
        forall|set: &mut Labels, name: String, value: String|
            #[trigger]
            call_ensures(Labels::insert, (set, name, value), ()) && labels::ordered(set@)
                ==> only_that_label_is_set(set@, name@, value@, final(set)@),
{
    assert forall|set: &mut Labels, name: String, value: String|
        #[trigger]
        call_ensures(Labels::insert, (set, name, value), ()) && labels::ordered(
            set@,
        ) implies only_that_label_is_set(set@, name@, value@, final(set)@) by {
        let (before, after) = (set@, final(set)@);
        lemma_ordered_differ(before);
        lemma_ordered_differ(after);
        lemma_map_of_entries(after, name@);
        lemma_map_of_entries(before, name@);
        assert forall|i: int, j: int| 0 <= i < j < after.len() implies sorts_before(
            (#[trigger] after[i]).0,
            (#[trigger] after[j]).0,
        ) by {
            assert(labels::text_before(after[i].0, after[j].0));
            lemma_sorts_before(after[i].0, after[j].0);
        }
        let at = choose|i: int| 0 <= i < after.len() && (#[trigger] after[i]).0 == name@;
        assert(after[at] == (name@, value@));
        assert forall|i: int| 0 <= i < after.len() implies (#[trigger] after[i]) == (name@, value@)
            || before.contains(after[i]) by {
            let entry = after[i];
            assert(labels::label_map(after)[entry.0] == entry.1);
            if entry.0 != name@ {
                lemma_map_of_entries(before, entry.0);
                let k = choose|k: int| 0 <= k < before.len() && (#[trigger] before[k]).0 == entry.0;
                assert(before[k] == entry);
            }
        }
        assert forall|k: int| 0 <= k < before.len() implies (#[trigger] before[k]).0 == name@
            || after.contains(before[k]) by {
            let entry = before[k];
            if entry.0 != name@ {
                lemma_map_of_entries(after, entry.0);
                let i = choose|i: int| 0 <= i < after.len() && (#[trigger] after[i]).0 == entry.0;
                assert(after[i] == entry);
            }
        }
    }
}

/// Whether labels are those there were before, but for one that is set, and are
/// in the order of their names.
pub open spec fn only_that_label_is_set(
    before: Seq<(Seq<char>, Seq<char>)>,
    name: Seq<char>,
    value: Seq<char>,
    after: Seq<(Seq<char>, Seq<char>)>,
) -> bool {
    &&& forall|i: int, j: int|
        0 <= i < j < after.len() ==> sorts_before((#[trigger] after[i]).0, (#[trigger] after[j]).0)
    &&& after.contains((name, value))
    &&& forall|i: int|
        0 <= i < after.len() ==> (#[trigger] after[i]) == (name, value) || before.contains(after[i])
    &&& forall|k: int|
        0 <= k < before.len() ==> (#[trigger] before[k]).0 == name || after.contains(before[k])
}

/// In entries that are in order, no name stands twice.
proof fn lemma_ordered_differ(entries: Seq<(Seq<char>, Seq<char>)>)
    requires
        labels::ordered(entries),
    ensures
        forall|i: int, j: int|
            0 <= i < j < entries.len() ==> (#[trigger] entries[i]).0 != (#[trigger] entries[j]).0,
{
    assert forall|i: int, j: int| 0 <= i < j < entries.len() implies (#[trigger] entries[i]).0 != (
    #[trigger] entries[j]).0 by {
        let x = vstd::utf8::encode_utf8(entries[i].0);
        assert(labels::text_before(entries[i].0, entries[j].0));
        lemma_first_difference(x, x, x.len() as int);
    }
}

/// The entries of a label set are its labels, each name once and in the order of
/// the names.
pub proof fn law_entries_are_the_labels(set: Labels, r: Vec<(String, String)>)
    requires
        call_ensures(Labels::into_entries, (set,), r),
    ensures
        r@.len() == set@.len(),
        forall|i: int|
            0 <= i < r@.len() ==> (#[trigger] r@[i]).0@ == set@[i].0 && r@[i].1@ == set@[i].1,
        forall|i: int, j: int|
            0 <= i < j < r@.len() ==> sorts_before((#[trigger] r@[i]).0@, (#[trigger] r@[j]).0@),
{
    assert(labels::entry_texts(r@).len() == r@.len());
    assert forall|i: int| 0 <= i < r@.len() implies (#[trigger] r@[i]).0@ == set@[i].0
        && r@[i].1@ == set@[i].1 by {
        assert(labels::entry_texts(r@)[i] == (r@[i].0@, r@[i].1@));
    }
    assert forall|i: int, j: int| 0 <= i < j < r@.len() implies sorts_before(
        (#[trigger] r@[i]).0@,
        (#[trigger] r@[j]).0@,
    ) by {
        assert(labels::text_before(set@[i].0, set@[j].0));
        lemma_sorts_before(set@[i].0, set@[j].0);
    }
}

/// Two texts are the same where their characters are, and one after the other
/// holds the characters of both.
pub proof fn law_texts_are_their_characters(
    a: &str,
    b: &str,
    same: bool,
    joined: String,
    chars: Vec<char>,
)
    requires
        call_ensures(text::same, (a, b), same),
        call_ensures(text::join, (a, b), joined),
        call_ensures(text::chars_of, (a,), chars),
    ensures
        same <==> a@ == b@,
        joined@ == a@ + b@,
        chars@ == a@,
{
}

/// White space is told by its code point.
pub proof fn law_white_space_is_told_by_its_code_point(c: char, r: bool)
    requires
        call_ensures(text::is_white_space, (c,), r),
    ensures
        r == blank(c),
{
}

/// The size of a number is the number, or what is left without its sign.
pub proof fn law_a_size_has_no_sign(n: i64, r: u64)
    requires
        call_ensures(text::magnitude, (n,), r),
    ensures
        n >= 0 ==> r == n,
        n < 0 ==> r + n == 0,
{
}

/// A new label set has no labels.
pub proof fn law_a_new_set_is_empty(r: Labels)
    requires
        call_ensures(Labels::new, (), r),
    ensures
        r@.len() == 0,
{
}

} // verus!
