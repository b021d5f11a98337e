//! The instructions of a dialogue and their mathematical models.

use vstd::prelude::*;
use vstd::std_specs::cmp::PartialEqSpecImpl;

verus! {

/// One option of a choice: the text shown and the label control goes to.
#[derive(Debug)]
pub struct DialogueChoice {
    pub text: String,
    pub label: String,
}

/// An instruction of a dialogue.
#[derive(Debug)]
pub enum DialogueEntry {
    /// Binds a speaker handle to a display name.
    NameChange(String, String),
    /// A line of text, spoken by the speakers whose handles are listed. No
    /// handle means that nobody in particular speaks.
    Phrase(Vec<String>, String),
    /// The options among which the audience picks one.
    Choice(Vec<DialogueChoice>),
    /// Transfers control to a label.
    Jump(String),
}

/// A statement of a script: a label, which names the index of the instruction
/// that follows it, or an instruction.
#[derive(Debug)]
pub enum Statement {
    Label(String),
    Entry(DialogueEntry),
}

/// The model of a [`Statement`].
pub enum StatementView {
    Label(Seq<char>),
    Entry(EntryView),
}

/// The model of a [`DialogueChoice`].
pub struct ChoiceView {
    pub text: Seq<char>,
    pub label: Seq<char>,
}

/// The model of a [`DialogueEntry`].
pub enum EntryView {
    NameChange(Seq<char>, Seq<char>),
    Phrase(Seq<Seq<char>>, Seq<char>),
    Choice(Seq<ChoiceView>),
    Jump(Seq<char>),
}

/// The models of a sequence of strings.
pub open spec fn strings_view(v: Seq<String>) -> Seq<Seq<char>> {
    Seq::new(v.len(), |i: int| v[i]@)
}

/// The models of a sequence of options.
pub open spec fn choices_view(v: Seq<DialogueChoice>) -> Seq<ChoiceView> {
    Seq::new(v.len(), |i: int| v[i]@)
}

/// The models of a sequence of instructions.
pub open spec fn entries_view(v: Seq<DialogueEntry>) -> Seq<EntryView> {
    Seq::new(v.len(), |i: int| v[i]@)
}

impl View for DialogueChoice {
    type V = ChoiceView;

    open spec fn view(&self) -> ChoiceView {
        ChoiceView { text: self.text@, label: self.label@ }
    }
}

impl View for DialogueEntry {
    type V = EntryView;

    open spec fn view(&self) -> EntryView {
        match self {
            DialogueEntry::NameChange(handle, name) => EntryView::NameChange(handle@, name@),
            DialogueEntry::Phrase(speakers, text) => EntryView::Phrase(
                strings_view(speakers@),
                text@,
            ),
            DialogueEntry::Choice(options) => EntryView::Choice(choices_view(options@)),
            DialogueEntry::Jump(target) => EntryView::Jump(target@),
        }
    }
}

impl View for Statement {
    type V = StatementView;

    open spec fn view(&self) -> StatementView {
        match self {
            Statement::Label(name) => StatementView::Label(name@),
            Statement::Entry(entry) => StatementView::Entry(entry@),
        }
    }
}

/// The models of a sequence of statements.
pub open spec fn statements_view(v: Seq<Statement>) -> Seq<StatementView> {
    Seq::new(v.len(), |i: int| v[i]@)
}

/// Whether two lists hold the same strings in the same order.
pub fn strings_equal(a: &Vec<String>, b: &Vec<String>) -> (r: bool)
    ensures
        r == (strings_view(a@) == strings_view(b@)),
{
    if a.len() != b.len() {
        assert(strings_view(a@).len() != strings_view(b@).len());
        return false;
    }
    let mut i: usize = 0;
    while i < a.len()
        invariant
            i <= a.len(),
            a.len() == b.len(),
            forall|k: int| 0 <= k < i ==> a[k]@ == b[k]@,
        decreases a.len() - i,
    {
        if a[i] != b[i] {
            assert(strings_view(a@)[i as int] != strings_view(b@)[i as int]);
            return false;
        }
        i = i + 1;
    }
    assert(strings_view(a@) =~= strings_view(b@));
    true
}

/// Whether two lists hold the same options in the same order.
pub fn choices_equal(a: &Vec<DialogueChoice>, b: &Vec<DialogueChoice>) -> (r: bool)
    ensures
        r == (choices_view(a@) == choices_view(b@)),
{
    if a.len() != b.len() {
        assert(choices_view(a@).len() != choices_view(b@).len());
        return false;
    }
    let mut i: usize = 0;
    while i < a.len()
        invariant
            i <= a.len(),
            a.len() == b.len(),
            forall|k: int| 0 <= k < i ==> a[k]@ == b[k]@,
        decreases a.len() - i,
    {
        if a[i] != b[i] {
            assert(choices_view(a@)[i as int] != choices_view(b@)[i as int]);
            return false;
        }
        i = i + 1;
    }
    assert(choices_view(a@) =~= choices_view(b@));
    true
}

/// Whether two lists hold the same instructions in the same order.
pub fn entries_equal(a: &Vec<DialogueEntry>, b: &Vec<DialogueEntry>) -> (r: bool)
    ensures
        r == (entries_view(a@) == entries_view(b@)),
{
    if a.len() != b.len() {
        assert(entries_view(a@).len() != entries_view(b@).len());
        return false;
    }
    let mut i: usize = 0;
    while i < a.len()
        invariant
            i <= a.len(),
            a.len() == b.len(),
            forall|k: int| 0 <= k < i ==> a[k]@ == b[k]@,
        decreases a.len() - i,
    {
        if a[i] != b[i] {
            assert(entries_view(a@)[i as int] != entries_view(b@)[i as int]);
            return false;
        }
        i = i + 1;
    }
    assert(entries_view(a@) =~= entries_view(b@));
    true
}

impl PartialEq for DialogueChoice {
    fn eq(&self, other: &DialogueChoice) -> (r: bool) {
        self.text == other.text && self.label == other.label
    }
}

impl PartialEqSpecImpl for DialogueChoice {
    open spec fn obeys_eq_spec() -> bool {
        true
    }

    open spec fn eq_spec(&self, other: &DialogueChoice) -> bool {
        self@ == other@
    }
}

impl Eq for DialogueChoice {

}

impl PartialEq for DialogueEntry {
    fn eq(&self, other: &DialogueEntry) -> (r: bool) {
        match self {
            DialogueEntry::NameChange(h1, n1) => match other {
                DialogueEntry::NameChange(h2, n2) => *h1 == *h2 && *n1 == *n2,
                _ => false,
            },
            DialogueEntry::Phrase(s1, t1) => match other {
                DialogueEntry::Phrase(s2, t2) => strings_equal(s1, s2) && *t1 == *t2,
                _ => false,
            },
            DialogueEntry::Choice(o1) => match other {
                DialogueEntry::Choice(o2) => choices_equal(o1, o2),
                _ => false,
            },
            DialogueEntry::Jump(l1) => match other {
                DialogueEntry::Jump(l2) => *l1 == *l2,
                _ => false,
            },
        }
    }
}

impl PartialEqSpecImpl for DialogueEntry {
    open spec fn obeys_eq_spec() -> bool {
        true
    }

    open spec fn eq_spec(&self, other: &DialogueEntry) -> bool {
        self@ == other@
    }
}

impl Eq for DialogueEntry {

}

} // verus!
