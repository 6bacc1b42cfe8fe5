//! Label sets, ordered by name.

use vstd::prelude::*;

verus! {

/// Whether `a` comes before `b`, byte by byte, a prefix first.
pub open spec fn bytes_before(a: Seq<u8>, b: Seq<u8>) -> bool
    decreases a.len(),
{
    if b.len() == 0 {
        false
    } else if a.len() == 0 {
        true
    } else if a[0] != b[0] {
        a[0] < b[0]
    } else {
        bytes_before(a.drop_first(), b.drop_first())
    }
}

/// The order of texts: that of their bytes.
pub open spec fn text_before(a: Seq<char>, b: Seq<char>) -> bool {
    bytes_before(vstd::utf8::encode_utf8(a), vstd::utf8::encode_utf8(b))
}

/// Every name comes before those that follow it.
pub open spec fn ordered(entries: Seq<(Seq<char>, Seq<char>)>) -> bool {
    forall|i: int, j: int|
        0 <= i < j < entries.len() ==> text_before(#[trigger] entries[i].0, #[trigger] entries[j].0)
}

/// What the entries map each name to.
pub open spec fn label_map(entries: Seq<(Seq<char>, Seq<char>)>) -> Map<Seq<char>, Seq<char>>
    decreases entries.len(),
{
    if entries.len() == 0 {
        Map::empty()
    } else {
        label_map(entries.drop_last()).insert(entries.last().0, entries.last().1)
    }
}

proof fn lemma_before_irreflexive(a: Seq<u8>)
    ensures
        !bytes_before(a, a),
    decreases a.len(),
{
    if a.len() > 0 {
        lemma_before_irreflexive(a.drop_first());
    }
}

proof fn lemma_before_transitive(a: Seq<u8>, b: Seq<u8>, c: Seq<u8>)
    requires
        bytes_before(a, b),
        bytes_before(b, c),
    ensures
        bytes_before(a, c),
    decreases a.len(),
{
    if a.len() > 0 && a[0] == b[0] && b[0] == c[0] {
        lemma_before_transitive(a.drop_first(), b.drop_first(), c.drop_first());
    }
}

proof fn lemma_before_total(a: Seq<u8>, b: Seq<u8>)
    ensures
        bytes_before(a, b) || bytes_before(b, a) || a == b,
    decreases a.len(),
{
    if a.len() > 0 && b.len() > 0 {
        if a[0] == b[0] {
            lemma_before_total(a.drop_first(), b.drop_first());
            if a.drop_first() == b.drop_first() {
                assert(a == seq![a[0]] + a.drop_first());
                assert(b == seq![b[0]] + b.drop_first());
            }
        }
    } else if a.len() == 0 && b.len() == 0 {
        assert(a == b);
    }
}

/// The order of names is strict and total, and it is transitive.
proof fn lemma_text_order(a: Seq<char>, b: Seq<char>, c: Seq<char>)
    ensures
        !text_before(a, a),
        text_before(a, b) && text_before(b, c) ==> text_before(a, c),
        text_before(a, b) || text_before(b, a) || a == b,
{
    let (x, y, z) = (
        vstd::utf8::encode_utf8(a),
        vstd::utf8::encode_utf8(b),
        vstd::utf8::encode_utf8(c),
    );
    lemma_before_irreflexive(x);
    if bytes_before(x, y) && bytes_before(y, z) {
        lemma_before_transitive(x, y, z);
    }
    lemma_before_total(x, y);
    vstd::utf8::encode_utf8_decode_utf8(a);
    vstd::utf8::encode_utf8_decode_utf8(b);
}

/// `text_before`, computed.
pub fn comes_before(a: &str, b: &str) -> (r: bool)
    ensures
        r == text_before(a@, b@),
{
    let x = a.as_bytes();
    let y = b.as_bytes();
    let mut i: usize = 0;
    assert(x@.skip(0) == x@ && y@.skip(0) == y@);
    while i < x.len() && i < y.len()
        invariant
            x@ == vstd::utf8::encode_utf8(a@),
            y@ == vstd::utf8::encode_utf8(b@),
            i <= x@.len(),
            i <= y@.len(),
            bytes_before(x@, y@) == bytes_before(x@.skip(i as int), y@.skip(i as int)),
        decreases x@.len() - i,
    {
        if x[i] != y[i] {
            return x[i] < y[i];
        }
        assert(x@.skip(i as int).drop_first() == x@.skip(i + 1));
        assert(y@.skip(i as int).drop_first() == y@.skip(i + 1));
        i = i + 1;
    }
    i < y.len()
}

/// The labels of a series: each name once, in order.
#[derive(Debug, PartialEq, Eq)]
pub struct Labels {
    entries: Vec<(String, String)>,
}

/// The texts that label entries hold.
pub open spec fn entry_texts(entries: Seq<(String, String)>) -> Seq<(Seq<char>, Seq<char>)> {
    entries.map_values(|e: (String, String)| (e.0@, e.1@))
}

impl View for Labels {
    type V = Seq<(Seq<char>, Seq<char>)>;

    closed spec fn view(&self) -> Seq<(Seq<char>, Seq<char>)> {
        entry_texts(self.entries@)
    }
}

impl Labels {
    #[verifier::type_invariant]
    closed spec fn in_order(self) -> bool {
        ordered(entry_texts(self.entries@))
    }

    /// No labels.
    pub fn new() -> (r: Labels)
        ensures
            r@ == Seq::<(Seq<char>, Seq<char>)>::empty(),
    {
        let entries: Vec<(String, String)> = Vec::new();
        assert(entry_texts(entries@) == Seq::<(Seq<char>, Seq<char>)>::empty());
        Labels { entries }
    }

    /// Gives `name` the value `value`, in place of one that it had.
    pub fn insert(&mut self, name: String, value: String)
        ensures
            ordered(final(self)@),
            label_map(final(self)@) == label_map(old(self)@).insert(name@, value@),
    {
        proof {
            use_type_invariant(&*self);
        }
        let ghost before = self@;
        let mut entries: Vec<(String, String)> = Vec::new();
        assert(entry_texts(entries@) == Seq::<(Seq<char>, Seq<char>)>::empty());
        std::mem::swap(&mut entries, &mut self.entries);
        let n: usize = entries.len();
        let mut at: usize = 0;
        while at < n && comes_before(entries[at].0.as_str(), name.as_str())
            invariant
                n == entries@.len(),
                at <= n,
                entry_texts(entries@) == before,
                forall|i: int| 0 <= i < at ==> text_before(#[trigger] before[i].0, name@),
            decreases n - at,
        {
            at = at + 1;
        }
        let ghost entry = (name@, value@);
        if at < n && crate::text::same(entries[at].0.as_str(), name.as_str()) {
            entries.set(at, (name, value));
            assert(entry_texts(entries@) == before.update(at as int, entry));
            proof {
                lemma_update(before, at as int, entry);
            }
        } else {
            entries.insert(at, (name, value));
            assert(entry_texts(entries@) == before.insert(at as int, entry));
            proof {
                lemma_insert(before, at as int, entry);
            }
        }
        self.entries = entries;
    }

    /// The labels as entries, in order.
    pub fn into_entries(self) -> (r: Vec<(String, String)>)
        ensures
            entry_texts(r@) == self@,
            ordered(self@),
    {
        proof {
            use_type_invariant(&self);
        }
        self.entries
    }
}

/// Replacing the value of a name keeps the order.
proof fn lemma_update(
    entries: Seq<(Seq<char>, Seq<char>)>,
    at: int,
    entry: (Seq<char>, Seq<char>),
)
    requires
        ordered(entries),
        0 <= at < entries.len(),
        entries[at].0 == entry.0,
    ensures
        ordered(entries.update(at, entry)),
        label_map(entries.update(at, entry)) == label_map(entries).insert(entry.0, entry.1),
    decreases entries.len(),
{
    let next = entries.update(at, entry);
    let last = entries.len() - 1;
    if at == last {
        assert(next.drop_last() == entries.drop_last());
        assert(label_map(next) =~= label_map(entries).insert(entry.0, entry.1));
    } else {
        lemma_update(entries.drop_last(), at, entry);
        assert(next.drop_last() == entries.drop_last().update(at, entry));
        assert(text_before(entries[at].0, entries[last].0));
        lemma_text_order(entry.0, entry.0, entry.0);
        assert(label_map(next) =~= label_map(entries).insert(entry.0, entry.1));
    }
}

/// A new name goes where the order puts it.
proof fn lemma_insert(
    entries: Seq<(Seq<char>, Seq<char>)>,
    at: int,
    entry: (Seq<char>, Seq<char>),
)
    requires
        ordered(entries),
        0 <= at <= entries.len(),
        forall|i: int| 0 <= i < at ==> text_before(#[trigger] entries[i].0, entry.0),
        at < entries.len() ==> !text_before(entries[at].0, entry.0) && entries[at].0 != entry.0,
    ensures
        ordered(entries.insert(at, entry)),
        label_map(entries.insert(at, entry)) == label_map(entries).insert(entry.0, entry.1),
    decreases entries.len(),
{
    let next = entries.insert(at, entry);
    if at < entries.len() {
        lemma_text_order(entries[at].0, entry.0, entry.0);
    }
    assert forall|i: int| at <= i < entries.len() implies text_before(
        entry.0,
        #[trigger] entries[i].0,
    ) by {
        lemma_text_order(entry.0, entries[at].0, entries[i].0);
    }
    assert(ordered(next)) by {
        assert forall|i: int, j: int| 0 <= i < j < next.len() implies text_before(
            #[trigger] next[i].0,
            #[trigger] next[j].0,
        ) by {
            if i < at && j > at {
                assert(next[i] == entries[i] && next[j] == entries[j - 1]);
            } else if i > at {
                assert(next[i] == entries[i - 1] && next[j] == entries[j - 1]);
            } else if i == at {
                assert(next[j] == entries[j - 1]);
            } else if j == at {
                assert(next[i] == entries[i]);
            }
        }
    }
    if at == entries.len() {
        assert(next.drop_last() == entries);
    } else {
        let last = entries.len() - 1;
        lemma_text_order(entry.0, entries[last].0, entry.0);
        assert(next.drop_last() == entries.drop_last().insert(at, entry));
        lemma_insert(entries.drop_last(), at, entry);
        assert(label_map(next) =~= label_map(entries).insert(entry.0, entry.1));
    }
}

/// A name is in the map if and only if it is in the entries.
proof fn lemma_label_map(entries: Seq<(Seq<char>, Seq<char>)>, name: Seq<char>)
    ensures
        label_map(entries).contains_key(name) <==> exists|i: int|
            0 <= i < entries.len() && #[trigger] entries[i].0 == name,
    decreases entries.len(),
{
    if entries.len() > 0 {
        let rest = entries.drop_last();
        let last = entries.len() - 1;
        lemma_label_map(rest, name);
        if entries[last].0 != name && label_map(entries).contains_key(name) {
            let i = choose|i: int| 0 <= i < rest.len() && #[trigger] rest[i].0 == name;
            assert(entries[i].0 == name);
        }
        if exists|i: int| 0 <= i < entries.len() && #[trigger] entries[i].0 == name {
            let i = choose|i: int| 0 <= i < entries.len() && #[trigger] entries[i].0 == name;
            if i < last {
                assert(rest[i].0 == name);
            }
        }
    }
}

/// Two entries in order that map the same names end with the same name.
proof fn lemma_same_last(a: Seq<(Seq<char>, Seq<char>)>, b: Seq<(Seq<char>, Seq<char>)>)
    requires
        ordered(a),
        ordered(b),
        label_map(a) == label_map(b),
        a.len() > 0,
        b.len() > 0,
    ensures
        a.last() == b.last(),
{
    let m = label_map(a);
    let (x, y) = (a.last().0, b.last().0);
    assert(m.contains_key(x) && m[x] == a.last().1);
    assert(m.contains_key(y) && m[y] == b.last().1);
    if x != y {
        lemma_label_map(b, x);
        let j = choose|j: int| 0 <= j < b.len() && #[trigger] b[j].0 == x;
        lemma_label_map(a, y);
        let i = choose|i: int| 0 <= i < a.len() && #[trigger] a[i].0 == y;
        lemma_text_order(x, y, x);
        assert(text_before(a[i].0, a[a.len() - 1].0));
        assert(text_before(b[j].0, b[b.len() - 1].0));
    }
}

/// The same labels always come in the same order: entries in order are fixed by
/// what they map each name to, however the labels arrived.
pub proof fn law_labels_have_one_order(
    a: Seq<(Seq<char>, Seq<char>)>,
    b: Seq<(Seq<char>, Seq<char>)>,
)
    requires
        ordered(a),
        ordered(b),
        label_map(a) == label_map(b),
    ensures
        a == b,
    decreases a.len(),
{
    if a.len() == 0 || b.len() == 0 {
        if b.len() > 0 {
            assert(label_map(b).contains_key(b.last().0));
        }
        if a.len() > 0 {
            assert(label_map(a).contains_key(a.last().0));
        }
        assert(a == b);
    } else {
        lemma_same_last(a, b);
        lemma_without_last(a);
        lemma_without_last(b);
        law_labels_have_one_order(a.drop_last(), b.drop_last());
        assert(a == a.drop_last().push(a.last()));
        assert(b == b.drop_last().push(b.last()));
    }
}

/// Without its last entry, the map loses that entry's name.
proof fn lemma_without_last(entries: Seq<(Seq<char>, Seq<char>)>)
    requires
        ordered(entries),
        entries.len() > 0,
    ensures
        ordered(entries.drop_last()),
        label_map(entries.drop_last()) == label_map(entries).remove(entries.last().0),
{
    let rest = entries.drop_last();
    let name = entries.last().0;
    lemma_label_map(rest, name);
    lemma_text_order(name, name, name);
    if label_map(rest).contains_key(name) {
        let i = choose|i: int| 0 <= i < rest.len() && #[trigger] rest[i].0 == name;
        assert(text_before(entries[i].0, entries[entries.len() - 1].0));
    }
    assert(label_map(rest) =~= label_map(entries).remove(name));
}

} // verus!
