//! A dialogue to try a player on.

use crate::dialogue::{binds, consistent, labels_view, Dialogue, DialogueView};
use crate::labels::LabelTable;
use crate::model::{
    choices_view, entries_view, strings_view, ChoiceView, DialogueChoice, DialogueEntry,
    EntryView,
};
use vstd::prelude::*;

verus! {

/// The instructions of the example dialogue.
pub open spec fn example_entries() -> Seq<EntryView> {
    seq![
        EntryView::NameChange("m"@, "Maria"@),
        EntryView::NameChange("l"@, "Leon"@),
        EntryView::Phrase(Seq::empty(), "This is a phrase told by... well, nobody."@),
        EntryView::Phrase(seq!["m"@], "Hello, my name is Maria!"@),
        EntryView::Phrase(seq!["l"@], "Hello, my name is Leon."@),
        EntryView::Phrase(seq!["m"@, "l"@], "And we can talk together as well!"@),
        EntryView::Phrase(seq!["m"@], "Now, you pick where to go!"@),
        EntryView::Choice(
            seq![
                ChoiceView { text: "I pick A"@, label: "a"@ },
                ChoiceView { text: "I pick B"@, label: "b"@ },
            ],
        ),
        EntryView::Phrase(seq!["m"@], "Excellent choice!"@),
        EntryView::Jump("last"@),
        EntryView::Phrase(seq!["l"@], "Certainly better choice."@),
        EntryView::Phrase(seq!["l"@, "m"@], "Now, last choice... well, you only have one."@),
        EntryView::Choice(seq![ChoiceView { text: "Byeee!"@, label: "end"@ }]),
        EntryView::Phrase(seq!["m"@], "Goodbye!"@),
    ]
}

/// The labels of the example dialogue.
pub open spec fn example_labels() -> Map<Seq<char>, nat> {
    map!["a"@ => 8nat, "b"@ => 10nat, "last"@ => 11nat, "end"@ => 13nat]
}

fn name_change(handle: &str, name: &str) -> (e: DialogueEntry)
    ensures
        e@ == EntryView::NameChange(handle@, name@),
{
    DialogueEntry::NameChange(handle.to_owned(), name.to_owned())
}

fn narration(text: &str) -> (e: DialogueEntry)
    ensures
        e@ == EntryView::Phrase(Seq::empty(), text@),
{
    let speakers: Vec<String> = Vec::new();
    assert(strings_view(speakers@) =~= Seq::empty());
    DialogueEntry::Phrase(speakers, text.to_owned())
}

fn phrase(speaker: &str, text: &str) -> (e: DialogueEntry)
    ensures
        e@ == EntryView::Phrase(seq![speaker@], text@),
{
    let mut speakers: Vec<String> = Vec::new();
    speakers.push(speaker.to_owned());
    assert(strings_view(speakers@) =~= seq![speaker@]);
    DialogueEntry::Phrase(speakers, text.to_owned())
}

fn duet(first: &str, second: &str, text: &str) -> (e: DialogueEntry)
    ensures
        e@ == EntryView::Phrase(seq![first@, second@], text@),
{
    let mut speakers: Vec<String> = Vec::new();
    speakers.push(first.to_owned());
    speakers.push(second.to_owned());
    assert(strings_view(speakers@) =~= seq![first@, second@]);
    DialogueEntry::Phrase(speakers, text.to_owned())
}

fn option(text: &str, label: &str) -> (c: DialogueChoice)
    ensures
        c@ == (ChoiceView { text: text@, label: label@ }),
{
    DialogueChoice { text: text.to_owned(), label: label.to_owned() }
}

fn jump(label: &str) -> (e: DialogueEntry)
    ensures
        e@ == EntryView::Jump(label@),
{
    DialogueEntry::Jump(label.to_owned())
}

fn one_option(a: DialogueChoice) -> (e: DialogueEntry)
    ensures
        e@ == EntryView::Choice(seq![a@]),
{
    let mut options: Vec<DialogueChoice> = Vec::new();
    options.push(a);
    assert(choices_view(options@) =~= seq![a@]);
    DialogueEntry::Choice(options)
}

fn two_options(a: DialogueChoice, b: DialogueChoice) -> (e: DialogueEntry)
    ensures
        e@ == EntryView::Choice(seq![a@, b@]),
{
    let mut options: Vec<DialogueChoice> = Vec::new();
    options.push(a);
    options.push(b);
    assert(choices_view(options@) =~= seq![a@, b@]);
    DialogueEntry::Choice(options)
}

/// The four label names of the example differ from one another.
proof fn lemma_example_names()
    ensures
        "a"@ != "b"@,
        "a"@ != "last"@,
        "a"@ != "end"@,
        "b"@ != "last"@,
        "b"@ != "end"@,
        "last"@ != "end"@,
{
    reveal_strlit("a");
    reveal_strlit("b");
    reveal_strlit("last");
    reveal_strlit("end");
    assert("a"@[0] != "b"@[0]);
    assert("last"@.len() != "end"@.len());
}

/// The example dialogue is consistent.
proof fn lemma_example_consistent()
    ensures
        consistent(DialogueView { entries: example_entries(), labels: example_labels() }),
{
    lemma_example_names();
    let e = example_entries();
    let l = example_labels();
    assert(binds(e[0], "m"@));
    assert(binds(e[1], "l"@));
    assert(l.contains_key("a"@) && l.contains_key("b"@) && l.contains_key("last"@)
        && l.contains_key("end"@));
}

impl Dialogue {
    /// The example dialogue: Maria and Leon say hello and let the audience
    /// pick between two ways on.
    pub fn example() -> (d: Dialogue)
        ensures
            d@ == (DialogueView { entries: example_entries(), labels: example_labels() }),
    {
        let mut entries: Vec<DialogueEntry> = Vec::new();
        entries.push(name_change("m", "Maria"));
        entries.push(name_change("l", "Leon"));
        entries.push(narration("This is a phrase told by... well, nobody."));
        entries.push(phrase("m", "Hello, my name is Maria!"));
        entries.push(phrase("l", "Hello, my name is Leon."));
        entries.push(duet("m", "l", "And we can talk together as well!"));
        entries.push(phrase("m", "Now, you pick where to go!"));
        entries.push(two_options(option("I pick A", "a"), option("I pick B", "b")));
        entries.push(phrase("m", "Excellent choice!"));
        entries.push(jump("last"));
        entries.push(phrase("l", "Certainly better choice."));
        entries.push(duet("l", "m", "Now, last choice... well, you only have one."));
        entries.push(one_option(option("Byeee!", "end")));
        entries.push(phrase("m", "Goodbye!"));
        assert(entries_view(entries@) =~= example_entries());
        let mut labels = LabelTable::new();
        proof {
            lemma_example_names();
        }
        labels.insert("a".to_owned(), 8);
        labels.insert("b".to_owned(), 10);
        labels.insert("last".to_owned(), 11);
        labels.insert("end".to_owned(), 13);
        assert(labels_view(labels@) =~= example_labels());
        proof {
            lemma_example_consistent();
        }
        Dialogue::new(entries, labels)
    }
}

} // verus!
