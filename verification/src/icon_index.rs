//! The catalog index: the records in the order of their declarations, a hash
//! index from `(name, category)` to the position of the record that answers
//! to it, and the number of records in each category.
//!
//! An index is built once from a sequence of records and never changed.

use std::collections::HashMap;
use vstd::prelude::*;
use vstd::utf8::encode_utf8;
use crate::categories::{
    categories_of, count_labels, is_category_table, label_table, labels_of, table_of,
};
use crate::extract::{parse_fontawesome_file, records_in};
use crate::types::{records_of, IconInfo, IconInfoView};

verus! {

/// The value from which the hash of a key starts.
pub const HASH_SEED: u64 = 0xcbf2_9ce4_8422_2325;

/// The factor by which the hash of a key grows with each byte.
pub const HASH_FACTOR: u64 = 0x0000_0100_0000_01b3;

/// What stands between name and category in the hash of a key.
pub const HASH_BREAK: u64 = 0xff;

/// The hash `hash` carried on over `bytes`.
pub open spec fn mixed(hash: u64, bytes: Seq<u8>) -> u64
    decreases bytes.len(),
{
    if bytes.len() == 0 {
        hash
    } else {
        mixed(hash, bytes.drop_last()).wrapping_mul(HASH_FACTOR).wrapping_add(
            bytes.last() as u64,
        )
    }
}

/// The hash of the key `(name, category)`, over the bytes of its two parts.
pub open spec fn key_hash(name: Seq<char>, category: Seq<char>) -> u64 {
    mixed(
        mixed(HASH_SEED, encode_utf8(name)).wrapping_mul(HASH_FACTOR).wrapping_add(HASH_BREAK),
        encode_utf8(category),
    )
}

/// The hash `hash` carried on over `bytes`.
pub fn mix(hash: u64, bytes: &[u8]) -> (r: u64)
    ensures
        r == mixed(hash, bytes@),
{
    let mut r: u64 = hash;
    let mut i: usize = 0;
    while i < bytes.len()
        invariant
            i <= bytes.len(),
            r == mixed(hash, bytes@.take(i as int)),
        decreases bytes.len() - i,
    {
        assert(bytes@.take(i + 1).drop_last() =~= bytes@.take(i as int));
        r = r.wrapping_mul(HASH_FACTOR).wrapping_add(bytes[i] as u64);
        i += 1;
    }
    assert(bytes@.take(i as int) =~= bytes@);
    r
}

/// The hash of the key `(name, category)`.
pub fn hash_key(name: &str, category: &str) -> (r: u64)
    ensures
        r == key_hash(name@, category@),
{
    let first = mix(HASH_SEED, name.as_bytes());
    mix(first.wrapping_mul(HASH_FACTOR).wrapping_add(HASH_BREAK), category.as_bytes())
}

/// The hash of the key of record `i`.
pub open spec fn hash_at(records: Seq<IconInfoView>, i: int) -> u64 {
    key_hash(records[i].name, records[i].category)
}

/// Record `i` is the last one that answers to the key `(name, category)`.
pub open spec fn is_last_with_key(
    records: Seq<IconInfoView>,
    name: Seq<char>,
    category: Seq<char>,
    i: int,
) -> bool {
    &&& 0 <= i < records.len()
    &&& records[i].has_key(name, category)
    &&& forall|k: int| i < k < records.len() ==> !(#[trigger] records[k]).has_key(name, category)
}

/// No record answers to the key `(name, category)`.
pub open spec fn no_record_with_key(
    records: Seq<IconInfoView>,
    name: Seq<char>,
    category: Seq<char>,
) -> bool {
    forall|k: int| 0 <= k < records.len() ==> !(#[trigger] records[k]).has_key(name, category)
}

/// The record that answers to the key `(name, category)`: of several, the
/// one declared last.
pub open spec fn lookup(records: Seq<IconInfoView>, name: Seq<char>, category: Seq<char>) -> Option<
    IconInfoView,
>
    decreases records.len(),
{
    if records.len() == 0 {
        None
    } else if records.last().has_key(name, category) {
        Some(records.last())
    } else {
        lookup(records.drop_last(), name, category)
    }
}

/// The last record with a key is what `lookup` gives for the key.
pub proof fn lemma_lookup_last(
    records: Seq<IconInfoView>,
    name: Seq<char>,
    category: Seq<char>,
    i: int,
)
    requires
        is_last_with_key(records, name, category, i),
    ensures
        lookup(records, name, category) == Some(records[i]),
    decreases records.len(),
{
    if i < records.len() - 1 {
        let shorter = records.drop_last();
        assert(!records[records.len() - 1].has_key(name, category));
        assert forall|k: int| i < k < shorter.len() implies !(#[trigger] shorter[k]).has_key(
            name,
            category,
        ) by {
            assert(shorter[k] == records[k]);
        }
        lemma_lookup_last(shorter, name, category, i);
    }
}

/// Where no record has a key, `lookup` gives none for it.
pub proof fn lemma_lookup_none(records: Seq<IconInfoView>, name: Seq<char>, category: Seq<char>)
    requires
        no_record_with_key(records, name, category),
    ensures
        lookup(records, name, category) is None,
    decreases records.len(),
{
    if records.len() > 0 {
        let shorter = records.drop_last();
        assert(!records[records.len() - 1].has_key(name, category));
        assert forall|k: int| 0 <= k < shorter.len() implies !(#[trigger] shorter[k]).has_key(
            name,
            category,
        ) by {
            assert(shorter[k] == records[k]);
        }
        lemma_lookup_none(shorter, name, category);
    }
}

/// An exact lookup never gives a record with another name or category: what
/// `lookup` gives is a record of the catalog that answers to the key, the
/// last such, and it gives none only where no record answers to the key.
pub proof fn lemma_lookup_exact(records: Seq<IconInfoView>, name: Seq<char>, category: Seq<char>)
    ensures
        match lookup(records, name, category) {
            Some(record) => record.name == name && record.category == category && exists|i: int|
                is_last_with_key(records, name, category, i) && records[i] == record,
            None => no_record_with_key(records, name, category),
        },
    decreases records.len(),
{
    if records.len() == 0 {
    } else if records.last().has_key(name, category) {
        assert(is_last_with_key(records, name, category, records.len() - 1));
    } else {
        let shorter = records.drop_last();
        lemma_lookup_exact(shorter, name, category);
        match lookup(shorter, name, category) {
            Some(record) => {
                let i = choose|i: int|
                    is_last_with_key(shorter, name, category, i) && shorter[i] == record;
                assert forall|k: int| i < k < records.len() implies !(#[trigger] records[k]).has_key(
                    name,
                    category,
                ) by {
                    if k < shorter.len() {
                        assert(shorter[k] == records[k]);
                    }
                }
                assert(records[i] == shorter[i]);
                assert(is_last_with_key(records, name, category, i));
            },
            None => {
                assert forall|k: int| 0 <= k < records.len() implies !(#[trigger] records[k]).has_key(
                    name,
                    category,
                ) by {
                    if k < shorter.len() {
                        assert(shorter[k] == records[k]);
                    }
                }
            },
        }
    }
}

/// The hash index over the first `n` records: `heads` maps each hash that
/// occurs among them to the last record with that hash, and `links` leads
/// from each record to the last one before it with the same hash.
pub open spec fn chained(
    records: Seq<IconInfoView>,
    n: int,
    heads: Map<u64, usize>,
    links: Seq<Option<usize>>,
) -> bool {
    &&& 0 <= n <= records.len()
    &&& links.len() == n
    &&& forall|i: int|
        0 <= i < n ==> match #[trigger] links[i] {
            Some(j) => j < i && hash_at(records, j as int) == hash_at(records, i) && forall|k: int|
                j < k < i ==> #[trigger] hash_at(records, k) != hash_at(records, i),
            None => forall|k: int|
                0 <= k < i ==> #[trigger] hash_at(records, k) != hash_at(records, i),
        }
    &&& forall|h: u64| #[trigger]
        heads.contains_key(h) ==> heads[h] < n && hash_at(records, heads[h] as int) == h
            && forall|k: int| heads[h] < k < n ==> #[trigger] hash_at(records, k) != h
    &&& forall|i: int| 0 <= i < n ==> heads.contains_key(#[trigger] hash_at(records, i))
}

/// The index over a catalog of icon records.
pub struct IconIndex {
    icons: Vec<IconInfo>,
    by_name_category: HashMap<u64, usize>,
    earlier: Vec<Option<usize>>,
}

impl View for IconIndex {
    type V = Seq<IconInfoView>;

    /// The records of the catalog, in the order of their declarations.
    closed spec fn view(&self) -> Seq<IconInfoView> {
        records_of(self.icons@)
    }
}

impl Clone for IconIndex {
    fn clone(&self) -> (copy: Self)
        ensures
            copy@ == self@,
    {
        let mut icons: Vec<IconInfo> = Vec::new();
        let mut i: usize = 0;
        while i < self.icons.len()
            invariant
                i <= self.icons.len(),
                icons.len() == i,
                forall|k: int| 0 <= k < i ==> #[trigger] icons[k] == self.icons[k],
            decreases self.icons.len() - i,
        {
            icons.push(self.icons[i].clone());
            i += 1;
        }
        assert(records_of(icons@) =~= records_of(self.icons@));
        IconIndex::build(icons)
    }
}

impl IconIndex {
    #[verifier::type_invariant]
    spec fn inv(&self) -> bool {
        chained(
            records_of(self.icons@),
            self.icons@.len() as int,
            self.by_name_category@,
            self.earlier@,
        )
    }

    /// Builds the index over `icons`. Of several records with one name and
    /// category, the last is the one that lookups give.
    pub fn build(icons: Vec<IconInfo>) -> (index: IconIndex)
        ensures
            index@ == records_of(icons@),
    {
        let ghost records = records_of(icons@);
        let mut by_name_category: HashMap<u64, usize> = HashMap::new();
        let mut earlier: Vec<Option<usize>> = Vec::new();
        let mut i: usize = 0;
        while i < icons.len()
            invariant
                i <= icons.len(),
                records == records_of(icons@),
                chained(records, i as int, by_name_category@, earlier@),
            decreases icons.len() - i,
        {
            let hash = hash_key(icons[i].name.as_str(), icons[i].category.as_str());
            assert(records[i as int] == icons[i as int]@);
            assert(hash == hash_at(records, i as int));
            let ghost heads = by_name_category@;
            let ghost links = earlier@;
            let before: Option<usize> = match by_name_category.get(&hash) {
                Some(j) => Some(*j),
                None => None,
            };
            earlier.push(before);
            by_name_category.insert(hash, i);
            proof {
                assert forall|h: u64| #[trigger]
                    by_name_category@.contains_key(h) implies by_name_category@[h] < i + 1
                    && hash_at(records, by_name_category@[h] as int) == h && forall|k: int|
                    by_name_category@[h] < k < i + 1 ==> #[trigger] hash_at(records, k) != h by {
                    if h != hash {
                        assert(heads.contains_key(h));
                    }
                }
                assert forall|k: int| 0 <= k < i + 1 implies by_name_category@.contains_key(
                    #[trigger] hash_at(records, k),
                ) by {
                    if k < i {
                        assert(heads.contains_key(hash_at(records, k)));
                    }
                }
                assert forall|k: int| 0 <= k < i + 1 implies match #[trigger] earlier@[k] {
                    Some(j) => j < k && hash_at(records, j as int) == hash_at(records, k)
                        && forall|m: int|
                        j < m < k ==> #[trigger] hash_at(records, m) != hash_at(records, k),
                    None => forall|m: int|
                        0 <= m < k ==> #[trigger] hash_at(records, m) != hash_at(records, k),
                } by {
                    if k < i {
                        assert(earlier@[k] == links[k]);
                    } else {
                        if heads.contains_key(hash) {
                        } else {
                            assert forall|m: int| 0 <= m < k implies #[trigger] hash_at(
                                records,
                                m,
                            ) != hash_at(records, k) by {
                                assert(heads.contains_key(hash_at(records, m)));
                            }
                        }
                    }
                }
            }
            i += 1;
        }
        IconIndex { icons, by_name_category, earlier }
    }

    /// Builds the index over the records that the generated source text
    /// `blob` declares.
    pub fn load(blob: &str) -> (index: IconIndex)
        ensures
            index@ == records_in(blob@),
            forall|k: int| 0 <= k < index@.len() ==> (#[trigger] index@[k]).wf() && index@[k].derived(),
    {
        let icons = parse_fontawesome_file(blob);
        assert forall|k: int| 0 <= k < icons@.len() implies (#[trigger] records_of(icons@)[k]).wf()
            && records_of(icons@)[k].derived() by {
            assert(records_of(icons@)[k] == icons[k]@);
        }
        IconIndex::build(icons)
    }

    /// The records of the catalog, in the order of their declarations.
    pub fn icons(&self) -> (icons: &Vec<IconInfo>)
        ensures
            records_of(icons@) == self@,
    {
        &self.icons
    }

    /// The number of records in the catalog.
    pub fn len(&self) -> (count: usize)
        ensures
            count == self@.len(),
    {
        self.icons.len()
    }

    /// The categories of the catalog in the order of their labels, each with
    /// the number of records declared under it. A record counts whether or
    /// not a later one has taken its place in lookups.
    pub fn categories(&self) -> (table: Vec<(&str, usize)>)
        ensures
            table_of(table@) == label_table(categories_of(self@)),
            is_category_table(table_of(table@), self@),
    {
        let mut labels: Vec<&str> = Vec::new();
        let mut i: usize = 0;
        while i < self.icons.len()
            invariant
                i <= self.icons.len(),
                labels.len() == i,
                forall|k: int| 0 <= k < i ==> (#[trigger] labels[k])@ == self.icons[k].category@,
            decreases self.icons.len() - i,
        {
            labels.push(self.icons[i].category.as_str());
            i += 1;
        }
        assert(labels_of(labels@) =~= categories_of(records_of(self.icons@)));
        count_labels(&labels)
    }

    /// The record with the name `name` in the category `category`: of
    /// several, the one declared last.
    pub fn find_icon(&self, name: &str, category: &str) -> (found: Option<&IconInfo>)
        ensures
            match found {
                Some(icon) => lookup(self@, name@, category@) == Some(icon@) && icon@.name == name@
                    && icon@.category == category@ && exists|i: int|
                    is_last_with_key(self@, name@, category@, i) && self@[i] == icon@,
                None => lookup(self@, name@, category@) is None && no_record_with_key(
                    self@,
                    name@,
                    category@,
                ),
            },
    {
        proof {
            use_type_invariant(self);
        }
        let ghost records = records_of(self.icons@);
        let wanted_name = name.to_owned();
        let wanted_category = category.to_owned();
        let hash = hash_key(name, category);
        let mut at: Option<usize> = match self.by_name_category.get(&hash) {
            Some(i) => Some(*i),
            None => None,
        };
        proof {
            if at is None {
                assert forall|k: int| 0 <= k < records.len() implies !(#[trigger] records[k]).has_key(
                    name@,
                    category@,
                ) by {
                    assert(self.by_name_category@.contains_key(hash_at(records, k)));
                }
            } else {
                assert forall|k: int| at->0 < k < records.len() implies !(#[trigger] records[k]).has_key(
                    name@,
                    category@,
                ) by {
                    assert(hash_at(records, k) != hash);
                }
            }
        }
        loop
            invariant
                records == records_of(self.icons@),
                wanted_name@ == name@,
                wanted_category@ == category@,
                hash == key_hash(name@, category@),
                chained(
                    records,
                    self.icons@.len() as int,
                    self.by_name_category@,
                    self.earlier@,
                ),
                match at {
                    Some(i) => i < records.len() && hash_at(records, i as int) == hash
                        && forall|k: int|
                        i < k < records.len() ==> !(#[trigger] records[k]).has_key(
                            name@,
                            category@,
                        ),
                    None => no_record_with_key(records, name@, category@),
                },
            decreases
                    match at {
                        Some(i) => i + 1,
                        None => 0,
                    },
        {
            match at {
                None => {
                    proof {
                        lemma_lookup_none(records, name@, category@);
                    }
                    return None;
                },
                Some(i) => {
                    let icon = &self.icons[i];
                    assert(records[i as int] == icon@);
                    if icon.name == wanted_name && icon.category == wanted_category {
                        proof {
                            assert(is_last_with_key(records, name@, category@, i as int));
                            lemma_lookup_last(records, name@, category@, i as int);
                        }
                        return Some(icon);
                    }
                    let ghost link = self.earlier@[i as int];
                    at = self.earlier[i];
                    proof {
                        match link {
                            Some(j) => {
                                assert forall|k: int| j < k < records.len() implies !(
                                #[trigger] records[k]).has_key(name@, category@) by {
                                    if k < i {
                                        assert(hash_at(records, k) != hash_at(records, i as int));
                                    }
                                }
                            },
                            None => {
                                assert forall|k: int| 0 <= k < records.len() implies !(
                                #[trigger] records[k]).has_key(name@, category@) by {
                                    if k < i {
                                        assert(hash_at(records, k) != hash_at(records, i as int));
                                    }
                                }
                            },
                        }
                    }
                },
            }
        }
    }
}

} // verus!
