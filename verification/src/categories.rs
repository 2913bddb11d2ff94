//! Category aggregation: the labels of a sequence in ascending order, each
//! with the number of times that it occurs; for a catalog, its categories
//! with the number of records declared under each.
//!
//! Labels are ordered as strings are: by their bytes, the first difference
//! deciding, a proper prefix coming first.

use vstd::prelude::*;
use vstd::utf8::{encode_utf8, encode_utf8_decode_utf8};
use crate::types::IconInfoView;

verus! {

/// `a` comes before `b` in the order of byte strings, given that the two
/// agree on the bytes before `from`.
pub open spec fn bytes_before(a: Seq<u8>, b: Seq<u8>, from: int) -> bool
    decreases a.len() - from,
{
    if from < 0 || from >= b.len() {
        false
    } else if from >= a.len() {
        true
    } else if a[from] != b[from] {
        a[from] < b[from]
    } else {
        bytes_before(a, b, from + 1)
    }
}

/// The label `a` comes before the label `b`.
pub open spec fn text_before(a: Seq<char>, b: Seq<char>) -> bool {
    bytes_before(encode_utf8(a), encode_utf8(b), 0)
}

/// No byte string comes before itself.
pub proof fn lemma_bytes_before_irreflexive(a: Seq<u8>, from: int)
    ensures
        !bytes_before(a, a, from),
    decreases a.len() - from,
{
    if 0 <= from < a.len() {
        lemma_bytes_before_irreflexive(a, from + 1);
    }
}

/// The order of byte strings is transitive.
pub proof fn lemma_bytes_before_transitive(a: Seq<u8>, b: Seq<u8>, c: Seq<u8>, from: int)
    requires
        bytes_before(a, b, from),
        bytes_before(b, c, from),
    ensures
        bytes_before(a, c, from),
    decreases a.len() - from,
{
    if from < a.len() && a[from] == b[from] && b[from] == c[from] {
        lemma_bytes_before_transitive(a, b, c, from + 1);
    }
}

/// Of two byte strings that agree before `from`, one comes before the other
/// or the two are equal.
pub proof fn lemma_bytes_before_total(a: Seq<u8>, b: Seq<u8>, from: int)
    requires
        0 <= from <= a.len(),
        from <= b.len(),
        a.take(from) == b.take(from),
        !bytes_before(a, b, from),
        !bytes_before(b, a, from),
    ensures
        a == b,
    decreases a.len() - from,
{
    if from < a.len() && from < b.len() {
        assert(a[from] == b[from]);
        assert(a.take(from + 1) =~= a.take(from).push(a[from]));
        assert(b.take(from + 1) =~= b.take(from).push(b[from]));
        lemma_bytes_before_total(a, b, from + 1);
    } else {
        assert(a.take(from) =~= a);
        assert(b.take(from) =~= b);
    }
}

/// No label comes before itself.
pub proof fn lemma_text_before_irreflexive(a: Seq<char>)
    ensures
        !text_before(a, a),
{
    lemma_bytes_before_irreflexive(encode_utf8(a), 0);
}

/// The order of labels is transitive.
pub proof fn lemma_text_before_transitive(a: Seq<char>, b: Seq<char>, c: Seq<char>)
    requires
        text_before(a, b),
        text_before(b, c),
    ensures
        text_before(a, c),
{
    lemma_bytes_before_transitive(encode_utf8(a), encode_utf8(b), encode_utf8(c), 0);
}

/// Of two labels, one comes before the other or the two are equal.
pub proof fn lemma_text_before_total(a: Seq<char>, b: Seq<char>)
    requires
        !text_before(a, b),
        !text_before(b, a),
    ensures
        a == b,
{
    let bytes_a = encode_utf8(a);
    let bytes_b = encode_utf8(b);
    assert(bytes_a.take(0) =~= bytes_b.take(0));
    lemma_bytes_before_total(bytes_a, bytes_b, 0);
    encode_utf8_decode_utf8(a);
    encode_utf8_decode_utf8(b);
}

/// How two labels stand to each other.
#[derive(Debug, PartialEq, Eq, Structural, Clone, Copy)]
pub enum LabelOrder {
    Before,
    Same,
    After,
}

/// How the label `a` stands to the label `b`.
pub fn label_order(a: &str, b: &str) -> (order: LabelOrder)
    ensures
        order == LabelOrder::Before <==> text_before(a@, b@),
        order == LabelOrder::Same <==> a@ == b@,
        order == LabelOrder::After <==> text_before(b@, a@),
{
    let bytes_a = a.as_bytes();
    let bytes_b = b.as_bytes();
    proof {
        lemma_text_before_irreflexive(a@);
        if text_before(a@, b@) && text_before(b@, a@) {
            lemma_text_before_transitive(a@, b@, a@);
        }
    }
    let mut i: usize = 0;
    while i < bytes_a.len() && i < bytes_b.len()
        invariant
            i <= bytes_a.len(),
            i <= bytes_b.len(),
            bytes_a@ == encode_utf8(a@),
            bytes_b@ == encode_utf8(b@),
            bytes_a@.take(i as int) == bytes_b@.take(i as int),
            bytes_before(bytes_a@, bytes_b@, i as int) == text_before(a@, b@),
            bytes_before(bytes_b@, bytes_a@, i as int) == text_before(b@, a@),
        decreases bytes_a.len() - i,
    {
        if bytes_a[i] < bytes_b[i] {
            return LabelOrder::Before;
        }
        if bytes_a[i] > bytes_b[i] {
            return LabelOrder::After;
        }
        proof {
            assert(bytes_a@.take(i + 1) =~= bytes_a@.take(i as int).push(bytes_a@[i as int]));
            assert(bytes_b@.take(i + 1) =~= bytes_b@.take(i as int).push(bytes_b@[i as int]));
        }
        i += 1;
    }
    if i < bytes_b.len() {
        LabelOrder::Before
    } else if i < bytes_a.len() {
        LabelOrder::After
    } else {
        proof {
            lemma_text_before_total(a@, b@);
        }
        LabelOrder::Same
    }
}

/// The number of times that `label` occurs in `labels`.
pub open spec fn count_of(labels: Seq<Seq<char>>, label: Seq<char>) -> nat
    decreases labels.len(),
{
    if labels.len() == 0 {
        0
    } else {
        count_of(labels.drop_last(), label) + if labels.last() == label {
            1nat
        } else {
            0nat
        }
    }
}

/// The sum of the counts of `entries`.
pub open spec fn total_count(entries: Seq<(Seq<char>, nat)>) -> nat
    decreases entries.len(),
{
    if entries.len() == 0 {
        0
    } else {
        total_count(entries.drop_last()) + entries.last().1
    }
}

/// `entries` is the table of `labels`: its labels ascend, each entry counts
/// how often its label occurs and counts at least one, every label that
/// occurs has its entry, and the counts add up to the number of labels.
pub open spec fn is_label_table(entries: Seq<(Seq<char>, nat)>, labels: Seq<Seq<char>>) -> bool {
    &&& forall|i: int, j: int|
        0 <= i < j < entries.len() ==> text_before(#[trigger] entries[i].0, #[trigger] entries[j].0)
    &&& forall|i: int|
        0 <= i < entries.len() ==> (#[trigger] entries[i]).1 > 0 && entries[i].1 == count_of(
            labels,
            entries[i].0,
        )
    &&& forall|k: int|
        0 <= k < labels.len() ==> exists|i: int|
            0 <= i < entries.len() && (#[trigger] entries[i]).0 == #[trigger] labels[k]
    &&& total_count(entries) == labels.len()
}

/// The categories of `records`, record by record.
pub open spec fn categories_of(records: Seq<IconInfoView>) -> Seq<Seq<char>> {
    Seq::new(records.len(), |k: int| records[k].category)
}

/// `entries` is the category table of `records`: the categories ascend, each
/// entry counts the records of its category and counts at least one, every
/// category that occurs has its entry, and the counts add up to the number of
/// records.
pub open spec fn is_category_table(entries: Seq<(Seq<char>, nat)>, records: Seq<IconInfoView>) -> bool {
    is_label_table(entries, categories_of(records))
}

/// The counts of a category table add up to the number of records.
pub proof fn lemma_category_counts_add_up(entries: Seq<(Seq<char>, nat)>, records: Seq<IconInfoView>)
    requires
        is_category_table(entries, records),
    ensures
        total_count(entries) == records.len(),
        forall|i: int, j: int|
            0 <= i < j < entries.len() ==> text_before(
                #[trigger] entries[i].0,
                #[trigger] entries[j].0,
            ),
{
}

/// `label` does not occur in `labels`.
pub open spec fn label_absent(labels: Seq<Seq<char>>, label: Seq<char>) -> bool {
    forall|k: int| 0 <= k < labels.len() ==> #[trigger] labels[k] != label
}

/// A label that does not occur counts none.
pub proof fn lemma_count_absent(labels: Seq<Seq<char>>, label: Seq<char>)
    requires
        label_absent(labels, label),
    ensures
        count_of(labels, label) == 0,
    decreases labels.len(),
{
    if labels.len() > 0 {
        let shorter = labels.drop_last();
        assert(labels[labels.len() - 1] != label);
        assert forall|k: int| 0 <= k < shorter.len() implies #[trigger] shorter[k] != label by {
            assert(shorter[k] == labels[k]);
        }
        lemma_count_absent(shorter, label);
    }
}

/// Replacing one entry changes the sum by the difference of the two counts.
pub proof fn lemma_total_count_update(entries: Seq<(Seq<char>, nat)>, at: int, entry: (Seq<char>, nat))
    requires
        0 <= at < entries.len(),
    ensures
        total_count(entries.update(at, entry)) == total_count(entries) - entries[at].1 + entry.1,
    decreases entries.len(),
{
    let changed = entries.update(at, entry);
    if at == entries.len() - 1 {
        assert(changed.drop_last() =~= entries.drop_last());
    } else {
        assert(changed.drop_last() =~= entries.drop_last().update(at, entry));
        lemma_total_count_update(entries.drop_last(), at, entry);
    }
}

/// Inserting an entry adds its count to the sum.
pub proof fn lemma_total_count_insert(entries: Seq<(Seq<char>, nat)>, at: int, entry: (Seq<char>, nat))
    requires
        0 <= at <= entries.len(),
    ensures
        total_count(entries.insert(at, entry)) == total_count(entries) + entry.1,
    decreases entries.len(),
{
    let grown = entries.insert(at, entry);
    if at == entries.len() {
        assert(grown.drop_last() =~= entries);
    } else {
        assert(grown.drop_last() =~= entries.drop_last().insert(at, entry));
        assert(grown.last() == entries.last());
        lemma_total_count_insert(entries.drop_last(), at, entry);
    }
}

/// The labels and counts that a table of borrowed labels holds.
pub open spec fn table_of(table: Seq<(&str, usize)>) -> Seq<(Seq<char>, nat)> {
    Seq::new(table.len(), |i: int| (table[i].0@, table[i].1 as nat))
}

/// The texts of a sequence of borrowed labels.
pub open spec fn labels_of(labels: Seq<&str>) -> Seq<Seq<char>> {
    Seq::new(labels.len(), |i: int| labels[i]@)
}

/// Counting one more occurrence under the entry of its label keeps a table.
pub proof fn lemma_table_counted(
    entries: Seq<(Seq<char>, nat)>,
    seen: Seq<Seq<char>>,
    label: Seq<char>,
    at: int,
)
    requires
        is_label_table(entries, seen),
        0 <= at < entries.len(),
        entries[at].0 == label,
    ensures
        is_label_table(entries.update(at, (entries[at].0, entries[at].1 + 1)), seen.push(label)),
{
    let after = entries.update(at, (entries[at].0, entries[at].1 + 1));
    let grown = seen.push(label);
    assert(grown.drop_last() =~= seen);
    lemma_total_count_update(entries, at, (entries[at].0, entries[at].1 + 1));
    lemma_text_before_irreflexive(label);
    assert forall|i: int| 0 <= i < after.len() implies (#[trigger] after[i]).1 > 0 && after[i].1
        == count_of(grown, after[i].0) by {
        if i != at {
            assert(after[i] == entries[i]);
            if i < at {
                assert(text_before(entries[i].0, entries[at].0));
            } else {
                assert(text_before(entries[at].0, entries[i].0));
            }
        }
    }
    assert forall|k: int| 0 <= k < grown.len() implies exists|i: int|
        0 <= i < after.len() && (#[trigger] after[i]).0 == #[trigger] grown[k] by {
        if k < seen.len() {
            assert(grown[k] == seen[k]);
            let i = choose|i: int| 0 <= i < entries.len() && (#[trigger] entries[i]).0 == seen[k];
            assert(after[i].0 == entries[i].0);
        } else {
            assert(after[at].0 == label);
        }
    }
    assert forall|i: int, j: int| 0 <= i < j < after.len() implies text_before(
        #[trigger] after[i].0,
        #[trigger] after[j].0,
    ) by {
        assert(after[i].0 == entries[i].0);
        assert(after[j].0 == entries[j].0);
    }
}

/// Inserting the entry of a label that has none yet, at its place in the
/// order of labels and with the count one, keeps a table.
pub proof fn lemma_table_inserted(
    entries: Seq<(Seq<char>, nat)>,
    seen: Seq<Seq<char>>,
    label: Seq<char>,
    at: int,
)
    requires
        is_label_table(entries, seen),
        0 <= at <= entries.len(),
        forall|i: int| 0 <= i < at ==> text_before((#[trigger] entries[i]).0, label),
        at < entries.len() ==> text_before(label, entries[at].0),
    ensures
        is_label_table(entries.insert(at, (label, 1nat)), seen.push(label)),
{
    let after = entries.insert(at, (label, 1nat));
    let grown = seen.push(label);
    assert(grown.drop_last() =~= seen);
    lemma_text_before_irreflexive(label);
    assert forall|i: int| at <= i < entries.len() implies text_before(
        label,
        (#[trigger] entries[i]).0,
    ) by {
        if i > at {
            assert(text_before(entries[at].0, entries[i].0));
            lemma_text_before_transitive(label, entries[at].0, entries[i].0);
        }
    }
    assert forall|k: int| 0 <= k < seen.len() implies #[trigger] seen[k] != label by {
        let i = choose|i: int| 0 <= i < entries.len() && (#[trigger] entries[i]).0 == seen[k];
        if i < at {
            assert(text_before(entries[i].0, label));
        } else {
            assert(text_before(label, entries[i].0));
        }
    }
    lemma_count_absent(seen, label);
    lemma_total_count_insert(entries, at, (label, 1nat));
    assert forall|i: int| 0 <= i < after.len() implies (#[trigger] after[i]).1 > 0 && after[i].1
        == count_of(grown, after[i].0) by {
        if i < at {
            assert(after[i] == entries[i]);
            assert(text_before(entries[i].0, label));
        } else if i > at {
            assert(after[i] == entries[i - 1]);
            assert(text_before(label, entries[i - 1].0));
        }
    }
    assert forall|k: int| 0 <= k < grown.len() implies exists|i: int|
        0 <= i < after.len() && (#[trigger] after[i]).0 == #[trigger] grown[k] by {
        if k < seen.len() {
            assert(grown[k] == seen[k]);
            let i = choose|i: int| 0 <= i < entries.len() && (#[trigger] entries[i]).0 == seen[k];
            if i < at {
                assert(after[i].0 == entries[i].0);
            } else {
                assert(after[i + 1].0 == entries[i].0);
            }
        } else {
            assert(after[at].0 == label);
        }
    }
    assert forall|i: int, j: int| 0 <= i < j < after.len() implies text_before(
        #[trigger] after[i].0,
        #[trigger] after[j].0,
    ) by {
        if j < at {
            assert(after[i] == entries[i] && after[j] == entries[j]);
        } else if j == at {
            assert(after[i] == entries[i]);
        } else if i < at {
            assert(after[i] == entries[i] && after[j] == entries[j - 1]);
        } else if i == at {
            assert(after[j] == entries[j - 1]);
        } else {
            assert(after[i] == entries[i - 1] && after[j] == entries[j - 1]);
        }
    }
}

/// The place of `label` among ascending entries: behind the last entry whose
/// label comes before it.
pub open spec fn slot_of(entries: Seq<(Seq<char>, nat)>, label: Seq<char>) -> int
    decreases entries.len(),
{
    if entries.len() == 0 {
        0
    } else if text_before(entries.last().0, label) {
        entries.len() as int
    } else {
        slot_of(entries.drop_last(), label)
    }
}

/// `entries` after one more occurrence of `label`: the entry of the label
/// counts one more, or a new entry with the count one stands at the label's
/// place.
pub open spec fn counted(entries: Seq<(Seq<char>, nat)>, label: Seq<char>) -> Seq<(Seq<char>, nat)> {
    let at = slot_of(entries, label);
    if 0 <= at < entries.len() && entries[at].0 == label {
        entries.update(at, (entries[at].0, entries[at].1 + 1))
    } else {
        entries.insert(at, (label, 1nat))
    }
}

/// The table of `labels`: the labels that occur, in ascending order, each
/// with the number of times that it occurs.
pub open spec fn label_table(labels: Seq<Seq<char>>) -> Seq<(Seq<char>, nat)>
    decreases labels.len(),
{
    if labels.len() == 0 {
        Seq::empty()
    } else {
        counted(label_table(labels.drop_last()), labels.last())
    }
}

/// Among ascending entries, the place of `label` is the position with only
/// earlier labels before it and no earlier label at or behind it.
pub proof fn lemma_slot_of(entries: Seq<(Seq<char>, nat)>, label: Seq<char>, at: int)
    requires
        forall|i: int, j: int|
            0 <= i < j < entries.len() ==> text_before(
                #[trigger] entries[i].0,
                #[trigger] entries[j].0,
            ),
        0 <= at <= entries.len(),
        forall|i: int| 0 <= i < at ==> text_before((#[trigger] entries[i]).0, label),
        at < entries.len() ==> !text_before(entries[at].0, label),
    ensures
        slot_of(entries, label) == at,
    decreases entries.len(),
{
    if entries.len() == 0 {
    } else if at == entries.len() {
        assert(text_before(entries[at - 1].0, label));
    } else {
        let last = entries.len() - 1;
        if text_before(entries[last].0, label) {
            if at < last {
                assert(text_before(entries[at].0, entries[last].0));
                lemma_text_before_transitive(entries[at].0, entries[last].0, label);
            }
        }
        let shorter = entries.drop_last();
        assert forall|i: int, j: int| 0 <= i < j < shorter.len() implies text_before(
            #[trigger] shorter[i].0,
            #[trigger] shorter[j].0,
        ) by {
            assert(shorter[i] == entries[i] && shorter[j] == entries[j]);
        }
        assert forall|i: int| 0 <= i < at implies text_before(
            (#[trigger] shorter[i]).0,
            label,
        ) by {
            assert(shorter[i] == entries[i]);
        }
        if at < shorter.len() {
            assert(shorter[at] == entries[at]);
        }
        lemma_slot_of(shorter, label, at);
    }
}

/// What `label_table` gives is the table of the labels.
pub proof fn lemma_label_table(labels: Seq<Seq<char>>)
    ensures
        is_label_table(label_table(labels), labels),
    decreases labels.len(),
{
    if labels.len() > 0 {
        let seen = labels.drop_last();
        let label = labels.last();
        lemma_label_table(seen);
        let entries = label_table(seen);
        lemma_slot_range(entries, label);
        let at = slot_of(entries, label);
        assert(seen.push(label) =~= labels);
        if at < entries.len() && entries[at].0 == label {
            lemma_table_counted(entries, seen, label, at);
        } else {
            if at < entries.len() && !text_before(label, entries[at].0) {
                lemma_text_before_total(label, entries[at].0);
            }
            lemma_table_inserted(entries, seen, label, at);
        }
    }
}

/// The place of a label lies within the table: before it stand only labels
/// that come before the label, and the entry at it does not.
pub proof fn lemma_slot_range(entries: Seq<(Seq<char>, nat)>, label: Seq<char>)
    requires
        forall|i: int, j: int|
            0 <= i < j < entries.len() ==> text_before(
                #[trigger] entries[i].0,
                #[trigger] entries[j].0,
            ),
    ensures
        0 <= slot_of(entries, label) <= entries.len(),
        forall|i: int|
            0 <= i < slot_of(entries, label) ==> text_before((#[trigger] entries[i]).0, label),
        slot_of(entries, label) < entries.len() ==> !text_before(
            entries[slot_of(entries, label)].0,
            label,
        ),
    decreases entries.len(),
{
    if entries.len() == 0 {
    } else if text_before(entries.last().0, label) {
        assert forall|i: int| 0 <= i < entries.len() implies text_before(
            (#[trigger] entries[i]).0,
            label,
        ) by {
            if i < entries.len() - 1 {
                assert(text_before(entries[i].0, entries[entries.len() - 1].0));
                lemma_text_before_transitive(entries[i].0, entries[entries.len() - 1].0, label);
            }
        }
    } else {
        let shorter = entries.drop_last();
        assert forall|i: int, j: int| 0 <= i < j < shorter.len() implies text_before(
            #[trigger] shorter[i].0,
            #[trigger] shorter[j].0,
        ) by {
            assert(shorter[i] == entries[i] && shorter[j] == entries[j]);
        }
        lemma_slot_range(shorter, label);
        let at = slot_of(shorter, label);
        assert forall|i: int| 0 <= i < at implies text_before(
            (#[trigger] entries[i]).0,
            label,
        ) by {
            assert(shorter[i] == entries[i]);
        }
        if at < shorter.len() {
            assert(shorter[at] == entries[at]);
        }
    }
}

/// The place of `label` in a table with ascending labels: the position of
/// its entry, where it has one, else the position at which its entry belongs.
pub fn find_slot(table: &Vec<(&str, usize)>, label: &str) -> (slot: (usize, bool))
    ensures
        slot.0 <= table.len(),
        forall|i: int| 0 <= i < slot.0 ==> text_before((#[trigger] table_of(table@)[i]).0, label@),
        slot.1 ==> slot.0 < table.len() && table_of(table@)[slot.0 as int].0 == label@,
        !slot.1 && slot.0 < table.len() ==> text_before(label@, table_of(table@)[slot.0 as int].0),
{
    let ghost entries = table_of(table@);
    let mut at: usize = 0;
    while at < table.len()
        invariant
            at <= table.len(),
            entries == table_of(table@),
            forall|i: int| 0 <= i < at ==> text_before((#[trigger] entries[i]).0, label@),
        decreases table.len() - at,
    {
        assert(entries[at as int].0 == table@[at as int].0@);
        match label_order(table[at].0, label) {
            LabelOrder::Before => {
                at += 1;
            },
            LabelOrder::Same => {
                return (at, true);
            },
            LabelOrder::After => {
                return (at, false);
            },
        }
    }
    (at, false)
}

/// The table of `labels`: the labels that occur, in ascending order, each
/// with the number of times that it occurs.
pub fn count_labels<'a>(labels: &Vec<&'a str>) -> (table: Vec<(&'a str, usize)>)
    ensures
        table_of(table@) == label_table(labels_of(labels@)),
        is_label_table(table_of(table@), labels_of(labels@)),
{
    let ghost texts = labels_of(labels@);
    let mut table: Vec<(&'a str, usize)> = Vec::new();
    let mut n: usize = 0;
    assert(texts.take(0) =~= Seq::<Seq<char>>::empty());
    while n < labels.len()
        invariant
            n <= labels.len(),
            texts == labels_of(labels@),
            table_of(table@) == label_table(texts.take(n as int)),
            is_label_table(table_of(table@), texts.take(n as int)),
        decreases labels.len() - n,
    {
        let label: &'a str = labels[n];
        let ghost seen = texts.take(n as int);
        let ghost entries = table_of(table@);
        proof {
            assert(texts.take(n + 1) =~= seen.push(texts[n as int]));
            assert(texts.take(n + 1).drop_last() =~= seen);
            assert(texts[n as int] == label@);
        }
        let (at, found) = find_slot(&table, label);
        proof {
            lemma_text_before_irreflexive(label@);
            if !found && at < table.len() {
                if text_before(entries[at as int].0, label@) {
                    lemma_text_before_transitive(label@, entries[at as int].0, label@);
                }
            }
            lemma_slot_of(entries, label@, at as int);
        }
        if found {
            let (kept, count) = table[at];
            proof {
                assert(entries[at as int] == (kept@, count as nat));
                lemma_total_count_bounds(entries, at as int);
                lemma_table_counted(entries, seen, label@, at as int);
            }
            table.set(at, (kept, count + 1));
            assert(table_of(table@) =~= entries.update(at as int, (kept@, (count + 1) as nat)));
        } else {
            proof {
                lemma_table_inserted(entries, seen, label@, at as int);
            }
            table.insert(at, (label, 1));
            assert(table_of(table@) =~= entries.insert(at as int, (label@, 1nat)));
        }
        n += 1;
    }
    assert(texts.take(n as int) =~= texts);
    table
}

/// No count of a table is larger than the sum of its counts.
pub proof fn lemma_total_count_bounds(entries: Seq<(Seq<char>, nat)>, at: int)
    requires
        0 <= at < entries.len(),
    ensures
        entries[at].1 <= total_count(entries),
    decreases entries.len(),
{
    if at < entries.len() - 1 {
        lemma_total_count_bounds(entries.drop_last(), at);
    }
}

} // verus!
