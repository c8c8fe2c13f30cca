//! The assembler's label table: name resolution backed by an index map, with
//! definition and reference sites kept per label in insertion order.

use vstd::prelude::*;

use crate::span::Span;

verus! {

#[verifier::external_type_specification]
#[verifier::external_body]
#[verifier::reject_recursive_types(K)]
#[verifier::reject_recursive_types(V)]
#[verifier::reject_recursive_types(H)]
pub struct ExIndexMap<K, V, H>(indexmap::IndexMap<K, V, H>);

/// The concrete map type the label table uses.
pub type LabelIndex = indexmap::IndexMap<Vec<u8>, usize>;

/// What the index map holds: each stored name mapped to its value.
pub uninterp spec fn index_map_of(
    m: indexmap::IndexMap<Vec<u8>, usize, std::collections::hash_map::RandomState>,
) -> Map<Seq<u8>, usize>;

/// Relies on indexmap::IndexMap::with_capacity: the new map holds nothing.
#[verifier::external_body]
fn imap_with_capacity(n: usize) -> (r: LabelIndex)
    ensures
        index_map_of(r).dom() == Set::<Seq<u8>>::empty(),
{
    indexmap::IndexMap::with_capacity(n)
}

/// Relies on indexmap::IndexMap::get: the value stored for the key, if any.
#[verifier::external_body]
fn imap_get(m: &indexmap::IndexMap<Vec<u8>, usize>, k: &[u8]) -> (r: Option<usize>)
    ensures
        r == (if index_map_of(*m).dom().contains(k@) {
            Option::Some(index_map_of(*m)[k@])
        } else {
            Option::<usize>::None
        }),
{
    m.get(k).copied()
}

/// Relies on indexmap::IndexMap::insert: stores the value under the key,
/// replacing any previous value.
#[verifier::external_body]
fn imap_insert(m: &mut indexmap::IndexMap<Vec<u8>, usize>, k: Vec<u8>, v: usize)
    ensures
        index_map_of(*final(m)) == index_map_of(*old(m)).insert(k@, v),
{
    m.insert(k, v);
}

/// One label's record: where it was defined and from where it is referenced.
#[derive(Debug, Clone, PartialEq, Eq)]
pub struct LabelState {
    pub name: Vec<u8>,
    pub defs: Vec<(usize, Span)>,
    pub refs: Vec<(usize, Span)>,
}

/// The mathematical image of one label's record.
pub struct LabelEntryV {
    pub name: Seq<u8>,
    pub defs: Seq<(usize, Span)>,
    pub refs: Seq<(usize, Span)>,
}

impl View for LabelState {
    type V = LabelEntryV;

    open spec fn view(&self) -> LabelEntryV {
        LabelEntryV { name: self.name@, defs: self.defs@, refs: self.refs@ }
    }
}

/// The first entry holding `name`, or -1.
pub open spec fn find_entry(labels: Seq<LabelEntryV>, name: Seq<u8>) -> int
    decreases labels.len(),
{
    if labels.len() == 0 {
        -1
    } else if labels[0].name == name {
        0
    } else {
        let r = find_entry(labels.drop_first(), name);
        if r < 0 {
            -1
        } else {
            r + 1
        }
    }
}

pub proof fn lemma_find_entry_bounds(labels: Seq<LabelEntryV>, name: Seq<u8>)
    ensures
        -1 <= find_entry(labels, name) < labels.len(),
        find_entry(labels, name) >= 0 ==> labels[find_entry(labels, name)].name == name,
    decreases labels.len(),
{
    if labels.len() > 0 && labels[0].name != name {
        lemma_find_entry_bounds(labels.drop_first(), name);
    }
}

pub proof fn lemma_find_entry_at(labels: Seq<LabelEntryV>, name: Seq<u8>, i: int)
    requires
        0 <= i < labels.len(),
        labels[i].name == name,
        forall|j: int| 0 <= j < labels.len() && j != i ==> (#[trigger] labels[j].name) != name,
    ensures
        find_entry(labels, name) == i,
    decreases labels.len(),
{
    if labels[0].name == name {
        assert(i == 0);
    } else {
        lemma_find_entry_at(labels.drop_first(), name, i - 1);
    }
}

pub proof fn lemma_find_entry_none(labels: Seq<LabelEntryV>, name: Seq<u8>)
    requires
        forall|j: int| 0 <= j < labels.len() ==> (#[trigger] labels[j].name) != name,
    ensures
        find_entry(labels, name) == -1,
    decreases labels.len(),
{
    if labels.len() > 0 {
        lemma_find_entry_none(labels.drop_first(), name);
    }
}

/// Records a definition site for `name`, creating the entry at the end when
/// the name is new.
pub open spec fn add_def(
    labels: Seq<LabelEntryV>,
    name: Seq<u8>,
    addr: usize,
    span: Span,
) -> Seq<LabelEntryV> {
    let i = find_entry(labels, name);
    if i >= 0 {
        labels.update(
            i,
            LabelEntryV {
                name: labels[i].name,
                defs: labels[i].defs.push((addr, span)),
                refs: labels[i].refs,
            },
        )
    } else {
        labels.push(LabelEntryV { name, defs: seq![(addr, span)], refs: Seq::empty() })
    }
}

/// Records a reference site for `name`, creating the entry at the end when
/// the name is new.
pub open spec fn add_ref(
    labels: Seq<LabelEntryV>,
    name: Seq<u8>,
    addr: usize,
    span: Span,
) -> Seq<LabelEntryV> {
    let i = find_entry(labels, name);
    if i >= 0 {
        labels.update(
            i,
            LabelEntryV {
                name: labels[i].name,
                defs: labels[i].defs,
                refs: labels[i].refs.push((addr, span)),
            },
        )
    } else {
        labels.push(LabelEntryV { name, defs: Seq::empty(), refs: seq![(addr, span)] })
    }
}

/// The label table: the entries in insertion order, and an index map from
/// name to entry position for constant-time lookup.
pub struct LabelTable {
    pub index: indexmap::IndexMap<Vec<u8>, usize>,
    pub entries: Vec<LabelState>,
}

impl LabelTable {
    /// The entries in insertion order.
    pub open spec fn labels(&self) -> Seq<LabelEntryV> {
        Seq::new(self.entries@.len(), |i: int| self.entries@[i]@)
    }

    /// The index map mirrors the entries exactly.
    pub open spec fn wf(&self) -> bool {
        &&& forall|i: int|
            0 <= i < self.labels().len() ==> index_map_of(self.index).dom().contains(
                (#[trigger] self.labels()[i]).name,
            ) && index_map_of(self.index)[self.labels()[i].name] == i
        &&& forall|n: Seq<u8>|
            index_map_of(self.index).dom().contains(n) ==> 0 <= (
            #[trigger] index_map_of(self.index)[n]) < self.labels().len() && self.labels()[
                index_map_of(self.index)[n] as int
            ].name == n
    }

    /// A fresh, empty table.
    pub fn new() -> (r: LabelTable)
        ensures
            r.wf(),
            r.labels() == Seq::<LabelEntryV>::empty(),
    {
        let r = LabelTable { index: imap_with_capacity(0), entries: Vec::new() };
        proof {
            assert(r.labels() =~= Seq::<LabelEntryV>::empty());
        }
        r
    }

    /// Looks the name up, appending a fresh entry when it is new; returns the
    /// entry's position.
    fn touch(&mut self, name: &[u8]) -> (i: usize)
        requires
            old(self).wf(),
        ensures
            final(self).wf(),
            ({
                let f = find_entry(old(self).labels(), name@);
                if f >= 0 {
                    final(self).labels() == old(self).labels() && i == f
                } else {
                    final(self).labels() == old(self).labels().push(
                        LabelEntryV { name: name@, defs: Seq::empty(), refs: Seq::empty() },
                    ) && i == old(self).labels().len()
                }
            }),
    {
        match imap_get(&self.index, name) {
            Some(i) => {
                proof {
                    assert(self.labels()[i as int].name == name@);
                    assert forall|j: int|
                        0 <= j < self.labels().len() && j != i ==> (
                        #[trigger] self.labels()[j].name) != name@ by {
                        if 0 <= j < self.labels().len() && j != i && self.labels()[j].name
                            == name@ {
                            assert(index_map_of(self.index)[self.labels()[j].name] == j);
                        }
                    }
                    lemma_find_entry_at(self.labels(), name@, i as int);
                }
                i
            },
            None => {
                let i = self.entries.len();
                proof {
                    assert forall|j: int|
                        0 <= j < self.labels().len() ==> (#[trigger] self.labels()[j].name)
                            != name@ by {
                        if 0 <= j < self.labels().len() && self.labels()[j].name == name@ {
                            assert(index_map_of(self.index).dom().contains(name@));
                        }
                    }
                    lemma_find_entry_none(self.labels(), name@);
                }
                let ghost labs0 = self.labels();
                self.entries.push(
                    LabelState { name: vstd::slice::slice_to_vec(name), defs: Vec::new(), refs: Vec::new() },
                );
                imap_insert(&mut self.index, vstd::slice::slice_to_vec(name), i);
                proof {
                    assert(self.labels() =~~= labs0.push(
                        LabelEntryV { name: name@, defs: Seq::empty(), refs: Seq::empty() },
                    ));
                }
                i
            },
        }
    }

    /// Records a definition site for `name`.
    pub fn push_def(&mut self, name: &[u8], addr: usize, span: Span)
        requires
            old(self).wf(),
        ensures
            final(self).wf(),
            final(self).labels() == add_def(old(self).labels(), name@, addr, span),
    {
        let ghost labs0 = self.labels();
        let i = self.touch(name);
        proof {
            lemma_find_entry_bounds(labs0, name@);
            assert(self.labels().len() == self.entries@.len());
            if find_entry(labs0, name@) >= 0 {
                assert(i < self.entries@.len());
            } else {
                assert(self.labels().len() == labs0.len() + 1);
                assert(i < self.entries@.len());
            }
        }
        let ghost labs1 = self.labels();
        push_def_at(&mut self.entries, i, addr, span);
        proof {
            assert(self.labels().len() == labs1.len());
            assert forall|ii: int| 0 <= ii < self.labels().len() implies (
            #[trigger] self.labels()[ii]).name == labs1[ii].name by {}
            assert forall|ii: int|
                0 <= ii < self.labels().len() implies index_map_of(self.index).dom().contains(
                (#[trigger] self.labels()[ii]).name,
            ) && index_map_of(self.index)[self.labels()[ii].name] == ii by {
                assert(labs1[ii].name == self.labels()[ii].name);
            }
            assert forall|n: Seq<u8>|
                index_map_of(self.index).dom().contains(n) implies 0 <= (
            #[trigger] index_map_of(self.index)[n]) < self.labels().len() && self.labels()[
                index_map_of(self.index)[n] as int
            ].name == n by {
                assert(labs1[index_map_of(self.index)[n] as int].name == n);
            }
            let f = find_entry(labs0, name@);
            if f >= 0 {
                assert(self.labels() =~~= labs0.update(
                    f,
                    LabelEntryV {
                        name: labs0[f].name,
                        defs: labs0[f].defs.push((addr, span)),
                        refs: labs0[f].refs,
                    },
                ));
            } else {
                assert(self.labels() =~~= labs0.push(
                    LabelEntryV { name: name@, defs: seq![(addr, span)], refs: Seq::empty() },
                ));
            }
        }
    }

    /// Records a reference site for `name`.
    pub fn push_ref(&mut self, name: &[u8], addr: usize, span: Span)
        requires
            old(self).wf(),
        ensures
            final(self).wf(),
            final(self).labels() == add_ref(old(self).labels(), name@, addr, span),
    {
        let ghost labs0 = self.labels();
        let i = self.touch(name);
        proof {
            lemma_find_entry_bounds(labs0, name@);
            assert(self.labels().len() == self.entries@.len());
            if find_entry(labs0, name@) >= 0 {
                assert(i < self.entries@.len());
            } else {
                assert(self.labels().len() == labs0.len() + 1);
                assert(i < self.entries@.len());
            }
        }
        let ghost labs1 = self.labels();
        push_ref_at(&mut self.entries, i, addr, span);
        proof {
            assert(self.labels().len() == labs1.len());
            assert forall|ii: int| 0 <= ii < self.labels().len() implies (
            #[trigger] self.labels()[ii]).name == labs1[ii].name by {}
            assert forall|ii: int|
                0 <= ii < self.labels().len() implies index_map_of(self.index).dom().contains(
                (#[trigger] self.labels()[ii]).name,
            ) && index_map_of(self.index)[self.labels()[ii].name] == ii by {
                assert(labs1[ii].name == self.labels()[ii].name);
            }
            assert forall|n: Seq<u8>|
                index_map_of(self.index).dom().contains(n) implies 0 <= (
            #[trigger] index_map_of(self.index)[n]) < self.labels().len() && self.labels()[
                index_map_of(self.index)[n] as int
            ].name == n by {
                assert(labs1[index_map_of(self.index)[n] as int].name == n);
            }
            let f = find_entry(labs0, name@);
            if f >= 0 {
                assert(self.labels() =~~= labs0.update(
                    f,
                    LabelEntryV {
                        name: labs0[f].name,
                        defs: labs0[f].defs,
                        refs: labs0[f].refs.push((addr, span)),
                    },
                ));
            } else {
                assert(self.labels() =~~= labs0.push(
                    LabelEntryV { name: name@, defs: Seq::empty(), refs: seq![(addr, span)] },
                ));
            }
        }
    }

    /// How many labels the table holds.
    pub fn len(&self) -> (r: usize)
        ensures
            r == self.labels().len(),
    {
        self.entries.len()
    }

    /// The entry at position `i`.
    pub fn entry_at(&self, i: usize) -> (r: &LabelState)
        requires
            i < self.labels().len(),
        ensures
            r@ == self.labels()[i as int],
    {
        &self.entries[i]
    }
}

/// Appends a definition site to the entry at `i`.
fn push_def_at(entries: &mut Vec<LabelState>, i: usize, addr: usize, span: Span)
    requires
        i < old(entries)@.len(),
    ensures
        final(entries)@.len() == old(entries)@.len(),
        final(entries)@[i as int]@.name == old(entries)@[i as int]@.name,
        final(entries)@[i as int]@.defs == old(entries)@[i as int]@.defs.push((addr, span)),
        final(entries)@[i as int]@.refs == old(entries)@[i as int]@.refs,
        forall|j: int|
            0 <= j < old(entries)@.len() && j != i ==> final(entries)@[j] == old(entries)@[j],
{
    let entry = vstd::std_specs::vec::vec_index_mut(entries, i);
    entry.defs.push((addr, span));
}

/// Appends a reference site to the entry at `i`.
fn push_ref_at(entries: &mut Vec<LabelState>, i: usize, addr: usize, span: Span)
    requires
        i < old(entries)@.len(),
    ensures
        final(entries)@.len() == old(entries)@.len(),
        final(entries)@[i as int]@.name == old(entries)@[i as int]@.name,
        final(entries)@[i as int]@.defs == old(entries)@[i as int]@.defs,
        final(entries)@[i as int]@.refs == old(entries)@[i as int]@.refs.push((addr, span)),
        forall|j: int|
            0 <= j < old(entries)@.len() && j != i ==> final(entries)@[j] == old(entries)@[j],
{
    let entry = vstd::std_specs::vec::vec_index_mut(entries, i);
    entry.refs.push((addr, span));
}

} // verus!
