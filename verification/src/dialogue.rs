//! The compiled dialogue: instructions in order and the label table.

use crate::labels::LabelTable;
use crate::model::{entries_equal, entries_view, DialogueEntry, EntryView};
use vstd::prelude::*;
use vstd::std_specs::cmp::PartialEqSpecImpl;

verus! {

/// The model of a [`Dialogue`]: its instructions in order, and the index each
/// label stands for.
pub struct DialogueView {
    pub entries: Seq<EntryView>,
    pub labels: Map<Seq<char>, nat>,
}

/// The model of the label table of a dialogue.
pub open spec fn labels_view(table: Map<Seq<char>, usize>) -> Map<Seq<char>, nat> {
    Map::new(|name: Seq<char>| table.contains_key(name), |name: Seq<char>| table[name] as nat)
}

/// Tables with one model are one table.
pub proof fn lemma_labels_view_is_injective(a: Map<Seq<char>, usize>, b: Map<Seq<char>, usize>)
    requires
        labels_view(a) == labels_view(b),
    ensures
        a == b,
{
    assert forall|name: Seq<char>| a.contains_key(name) == b.contains_key(name) by {
        assert(labels_view(a).contains_key(name) == a.contains_key(name));
        assert(labels_view(b).contains_key(name) == b.contains_key(name));
    }
    assert forall|name: Seq<char>| #[trigger] a.contains_key(name) implies a[name] == b[name] by {
        assert(labels_view(a)[name] == a[name] as nat);
        assert(labels_view(b)[name] == b[name] as nat);
    }
    assert(a =~= b);
}

/// The labels that an instruction can transfer control to, in the order in
/// which it names them.
pub open spec fn targets_of(entry: EntryView) -> Seq<Seq<char>> {
    match entry {
        EntryView::Jump(target) => seq![target],
        EntryView::Choice(options) => Seq::new(options.len(), |i: int| options[i].label),
        _ => Seq::empty(),
    }
}

/// The speakers that an instruction names, in order.
pub open spec fn speakers_of(entry: EntryView) -> Seq<Seq<char>> {
    match entry {
        EntryView::Phrase(speakers, _) => speakers,
        _ => Seq::empty(),
    }
}

/// The instruction binds `handle` to a name.
pub open spec fn binds(entry: EntryView, handle: Seq<char>) -> bool {
    match entry {
        EntryView::NameChange(h, _) => h == handle,
        _ => false,
    }
}

/// One of the first `k` instructions binds `handle` to a name.
pub open spec fn bound_before(entries: Seq<EntryView>, k: int, handle: Seq<char>) -> bool {
    exists|j: int| 0 <= j < k && j < entries.len() && #[trigger] binds(entries[j], handle)
}

/// What holds of every dialogue: a label stands for the index of an
/// instruction or for the index just past the last one, every target of a
/// jump or a choice is a label, and every speaker of a phrase is bound to a
/// name by an earlier instruction.
pub open spec fn consistent(d: DialogueView) -> bool {
    &&& forall|name: Seq<char>| #[trigger]
        d.labels.contains_key(name) ==> d.labels[name] <= d.entries.len()
    &&& forall|k: int, j: int|
        0 <= k < d.entries.len() && 0 <= j < targets_of(d.entries[k]).len()
            ==> d.labels.contains_key(#[trigger] targets_of(d.entries[k])[j])
    &&& forall|k: int, j: int|
        0 <= k < d.entries.len() && 0 <= j < speakers_of(d.entries[k]).len() ==> bound_before(
            d.entries,
            k,
            #[trigger] speakers_of(d.entries[k])[j],
        )
}

/// A compiled dialogue.
#[derive(Debug)]
pub struct Dialogue {
    entries: Vec<DialogueEntry>,
    labels: LabelTable,
}

impl View for Dialogue {
    type V = DialogueView;

    closed spec fn view(&self) -> DialogueView {
        DialogueView { entries: entries_view(self.entries@), labels: labels_view(self.labels@) }
    }
}

impl Dialogue {
    #[verifier::type_invariant]
    spec fn is_consistent(&self) -> bool {
        consistent(self@)
    }

    /// The dialogue with the given instructions and labels.
    pub(crate) fn new(entries: Vec<DialogueEntry>, labels: LabelTable) -> (d: Dialogue)
        requires
            consistent(
                DialogueView { entries: entries_view(entries@), labels: labels_view(labels@) },
            ),
        ensures
            d@ == (DialogueView { entries: entries_view(entries@), labels: labels_view(labels@) }),
    {
        Dialogue { entries, labels }
    }

    /// This dialogue, of which holds what holds of every dialogue.
    pub fn checked(&self) -> (r: &Dialogue)
        ensures
            r == self,
            consistent(self@),
    {
        proof {
            use_type_invariant(self);
        }
        self
    }

    /// The instruction at `index`, if there is one.
    pub fn get(&self, index: usize) -> (r: Option<&DialogueEntry>)
        ensures
            match r {
                Some(entry) => index < self@.entries.len() && entry@ == self@.entries[index as int],
                None => index >= self@.entries.len(),
            },
    {
        if index < self.entries.len() {
            Some(&self.entries[index])
        } else {
            None
        }
    }

    /// The index that `label` stands for, if it is a label of the dialogue.
    /// The index is that of an instruction, or the number of instructions.
    pub fn label(&self, label: &str) -> (r: Option<usize>)
        ensures
            match r {
                Some(index) => self@.labels.contains_key(label@) && self@.labels[label@] == index
                    && index <= self@.entries.len(),
                None => !self@.labels.contains_key(label@),
            },
    {
        let r = self.labels.get(label);
        proof {
            use_type_invariant(self);
        }
        r
    }

    /// The instructions, in order.
    pub fn entries(&self) -> (r: &[DialogueEntry])
        ensures
            entries_view(r@) == self@.entries,
    {
        self.entries.as_slice()
    }

    /// The label table.
    pub fn labels(&self) -> (r: &LabelTable)
        ensures
            labels_view(r@) == self@.labels,
    {
        &self.labels
    }

    /// The number of instructions.
    pub fn len(&self) -> (n: usize)
        ensures
            n == self@.entries.len(),
    {
        self.entries.len()
    }

    /// Whether the dialogue has no instruction.
    pub fn is_empty(&self) -> (r: bool)
        ensures
            r == (self@.entries.len() == 0),
    {
        self.entries.len() == 0
    }

    /// The number of labels.
    pub fn label_count(&self) -> (n: usize)
        ensures
            self@.labels.dom().finite(),
            n == self@.labels.len(),
    {
        assert(self@.labels.dom() =~= self.labels@.dom());
        self.labels.len()
    }
}

impl PartialEq for Dialogue {
    /// Two dialogues are equal if they hold the same instructions in the same
    /// order and bind the same labels to the same indices.
    fn eq(&self, other: &Dialogue) -> (r: bool) {
        proof {
            if labels_view(self.labels@) == labels_view(other.labels@) {
                lemma_labels_view_is_injective(self.labels@, other.labels@);
            }
        }
        entries_equal(&self.entries, &other.entries) && self.labels == other.labels
    }
}

impl PartialEqSpecImpl for Dialogue {
    open spec fn obeys_eq_spec() -> bool {
        true
    }

    open spec fn eq_spec(&self, other: &Dialogue) -> bool {
        self@ == other@
    }
}

impl core::ops::Index<usize> for Dialogue {
    type Output = DialogueEntry;

    /// The instruction at `index`.
    fn index(&self, index: usize) -> (r: &DialogueEntry)
        ensures
            r@ == self@.entries[index as int],
    {
        &self.entries[index]
    }
}

impl vstd::std_specs::core::IndexSpecImpl<usize> for Dialogue {
    open spec fn index_req(&self, index: &usize) -> bool {
        *index < self@.entries.len()
    }
}

} // verus!
