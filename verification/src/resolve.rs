//! The resolver: from the statements of a script to a dialogue.
//!
//! Statements are taken in source order. An instruction gets the next index; a
//! label stands for the index of the instruction that follows it. A label may
//! be used before it is defined, a speaker may not.

use crate::dialogue::{
    binds, bound_before, consistent, labels_view, speakers_of, targets_of, Dialogue, DialogueView,
};
use crate::error::{ErrorView, ParseError};
use crate::labels::LabelTable;
use crate::model::{
    choices_view, entries_view, statements_view, strings_view, DialogueEntry, EntryView,
    Statement, StatementView,
};
use vstd::hash_set::StringHashSet;
use vstd::prelude::*;

verus! {

/// The instructions among the statements, in order.
pub open spec fn entries_of(st: Seq<StatementView>) -> Seq<EntryView>
    decreases st.len(),
{
    if st.len() == 0 {
        Seq::empty()
    } else {
        match st.last() {
            StatementView::Entry(entry) => entries_of(st.drop_last()).push(entry),
            StatementView::Label(_) => entries_of(st.drop_last()),
        }
    }
}

/// The label table of the statements: each label stands for the number of
/// instructions before it. Of two labels with one name the first counts.
pub open spec fn labels_of(st: Seq<StatementView>) -> Map<Seq<char>, nat>
    decreases st.len(),
{
    if st.len() == 0 {
        Map::empty()
    } else {
        let before = labels_of(st.drop_last());
        match st.last() {
            StatementView::Label(name) => if before.contains_key(name) {
                before
            } else {
                before.insert(name, entries_of(st.drop_last()).len())
            },
            StatementView::Entry(_) => before,
        }
    }
}

/// The speaker handles that the statements bind to a name.
pub open spec fn bound_speakers(st: Seq<StatementView>) -> Set<Seq<char>>
    decreases st.len(),
{
    if st.len() == 0 {
        Set::empty()
    } else {
        match st.last() {
            StatementView::Entry(EntryView::NameChange(handle, _)) => bound_speakers(
                st.drop_last(),
            ).insert(handle),
            _ => bound_speakers(st.drop_last()),
        }
    }
}

/// The first of `names[from..]` that is not in `known`.
pub open spec fn first_unknown(names: Seq<Seq<char>>, known: Set<Seq<char>>, from: int) -> Option<
    Seq<char>,
>
    decreases names.len() - from,
{
    if from < 0 || from >= names.len() {
        None
    } else if !known.contains(names[from]) {
        Some(names[from])
    } else {
        first_unknown(names, known, from + 1)
    }
}

/// The first target of `entries[from..]`, in source order, that is no label.
pub open spec fn first_missing_target(
    entries: Seq<EntryView>,
    labels: Set<Seq<char>>,
    from: int,
) -> Option<Seq<char>>
    decreases entries.len() - from,
{
    if from < 0 || from >= entries.len() {
        None
    } else {
        match first_unknown(targets_of(entries[from]), labels, 0) {
            Some(name) => Some(name),
            None => first_missing_target(entries, labels, from + 1),
        }
    }
}

/// What is wrong with a statement that comes after statements with the given
/// labels and bound speakers: a label that is defined already, or the first
/// speaker of a phrase that is not bound.
pub open spec fn fault_of(
    statement: StatementView,
    labels: Set<Seq<char>>,
    bound: Set<Seq<char>>,
) -> Option<ErrorView> {
    match statement {
        StatementView::Label(name) => if labels.contains(name) {
            Some(ErrorView::DuplicateLabel(name))
        } else {
            None
        },
        StatementView::Entry(entry) => match first_unknown(speakers_of(entry), bound, 0) {
            Some(handle) => Some(ErrorView::UndefinedSpeaker(handle)),
            None => None,
        },
    }
}

/// What is wrong with the first statement, in source order, with which
/// something is wrong.
pub open spec fn first_fault(st: Seq<StatementView>) -> Option<ErrorView>
    decreases st.len(),
{
    if st.len() == 0 {
        None
    } else {
        match first_fault(st.drop_last()) {
            Some(e) => Some(e),
            None => fault_of(
                st.last(),
                labels_of(st.drop_last()).dom(),
                bound_speakers(st.drop_last()),
            ),
        }
    }
}

/// The dialogue that the statements resolve to, or why they do not: the first
/// duplicate label or unbound speaker; else, once all statements are seen,
/// the first target that is no label.
pub open spec fn resolved(st: Seq<StatementView>) -> Result<DialogueView, ErrorView> {
    match first_fault(st) {
        Some(e) => Err(e),
        None => match first_missing_target(entries_of(st), labels_of(st).dom(), 0) {
            Some(name) => Err(ErrorView::UndefinedLabel(name)),
            None => Ok(DialogueView { entries: entries_of(st), labels: labels_of(st) }),
        },
    }
}

/// A fault among the first `k` statements is the fault of them all.
pub proof fn lemma_fault_stays(st: Seq<StatementView>, k: int)
    requires
        0 <= k <= st.len(),
        first_fault(st.take(k)) is Some,
    ensures
        first_fault(st) == first_fault(st.take(k)),
    decreases st.len() - k,
{
    if k < st.len() {
        assert(st.take(k + 1).drop_last() =~= st.take(k));
        lemma_fault_stays(st, k + 1);
    } else {
        assert(st.take(k) =~= st);
    }
}

/// Every label stands for the index of an instruction, or for the number of
/// instructions.
pub proof fn lemma_labels_in_range(st: Seq<StatementView>)
    ensures
        forall|name: Seq<char>| #[trigger]
            labels_of(st).contains_key(name) ==> labels_of(st)[name] <= entries_of(st).len(),
    decreases st.len(),
{
    if st.len() > 0 {
        let init = st.drop_last();
        lemma_labels_in_range(init);
        assert forall|name: Seq<char>| #[trigger] labels_of(st).contains_key(name) implies labels_of(
            st,
        )[name] <= entries_of(st).len() by {
            if labels_of(init).contains_key(name) {
                assert(labels_of(st)[name] == labels_of(init)[name]);
            }
        }
    }
}

/// A bound speaker is bound by one of the instructions.
pub proof fn lemma_bound_by_entry(st: Seq<StatementView>, handle: Seq<char>)
    requires
        bound_speakers(st).contains(handle),
    ensures
        bound_before(entries_of(st), entries_of(st).len() as int, handle),
    decreases st.len(),
{
    if st.len() > 0 {
        let init = st.drop_last();
        let all = entries_of(st);
        if bound_speakers(init).contains(handle) {
            lemma_bound_by_entry(init, handle);
            let j = choose|j: int|
                0 <= j < entries_of(init).len() && #[trigger] binds(entries_of(init)[j], handle);
            assert(binds(all[j], handle));
        } else {
            assert(binds(all[all.len() - 1], handle));
        }
    }
}

/// Where no name of `names` is unknown, all are known.
pub proof fn lemma_all_known(names: Seq<Seq<char>>, known: Set<Seq<char>>, from: int)
    requires
        0 <= from,
        first_unknown(names, known, from) is None,
    ensures
        forall|j: int| from <= j < names.len() ==> known.contains(#[trigger] names[j]),
    decreases names.len() - from,
{
    if from < names.len() {
        lemma_all_known(names, known, from + 1);
    }
}

/// Where nothing is wrong with the statements, every speaker of a phrase is
/// bound by an earlier instruction.
pub proof fn lemma_speakers_bound(st: Seq<StatementView>)
    requires
        first_fault(st) is None,
    ensures
        forall|k: int, j: int|
            0 <= k < entries_of(st).len() && 0 <= j < speakers_of(entries_of(st)[k]).len()
                ==> bound_before(entries_of(st), k, #[trigger] speakers_of(entries_of(st)[k])[j]),
    decreases st.len(),
{
    if st.len() > 0 {
        let init = st.drop_last();
        let before = entries_of(init);
        let all = entries_of(st);
        lemma_speakers_bound(init);
        assert forall|k: int, j: int|
            0 <= k < all.len() && 0 <= j < speakers_of(all[k]).len() implies bound_before(
            all,
            k,
            #[trigger] speakers_of(all[k])[j],
        ) by {
            let handle = speakers_of(all[k])[j];
            if k < before.len() {
                let i = choose|i: int|
                    0 <= i < k && i < before.len() && #[trigger] binds(before[i], handle);
                assert(binds(all[i], handle));
            } else {
                lemma_all_known(speakers_of(all[k]), bound_speakers(init), 0);
                lemma_bound_by_entry(init, handle);
                let i = choose|i: int|
                    0 <= i < before.len() && #[trigger] binds(before[i], handle);
                assert(binds(all[i], handle));
            }
        }
    }
}

/// Where no target of `entries[from..]` is missing, all are labels.
pub proof fn lemma_targets_defined(entries: Seq<EntryView>, labels: Set<Seq<char>>, from: int)
    requires
        0 <= from,
        first_missing_target(entries, labels, from) is None,
    ensures
        forall|k: int, j: int|
            from <= k < entries.len() && 0 <= j < targets_of(entries[k]).len() ==> labels.contains(
                #[trigger] targets_of(entries[k])[j],
            ),
    decreases entries.len() - from,
{
    if from < entries.len() {
        lemma_all_known(targets_of(entries[from]), labels, 0);
        lemma_targets_defined(entries, labels, from + 1);
    }
}

/// What the statements resolve to is a consistent dialogue.
pub proof fn lemma_resolved_consistent(st: Seq<StatementView>)
    ensures
        resolved(st) matches Ok(d) ==> consistent(d),
{
    if resolved(st) is Ok {
        lemma_labels_in_range(st);
        lemma_speakers_bound(st);
        lemma_targets_defined(entries_of(st), labels_of(st).dom(), 0);
    }
}

/// The first of `speakers` that is not bound.
fn unbound_speaker(speakers: &Vec<String>, bound: &StringHashSet) -> (r: Option<String>)
    ensures
        match first_unknown(strings_view(speakers@), bound@, 0) {
            Some(handle) => r is Some && r.unwrap()@ == handle,
            None => r is None,
        },
{
    let mut j: usize = 0;
    while j < speakers.len()
        invariant
            j <= speakers.len(),
            first_unknown(strings_view(speakers@), bound@, 0) == first_unknown(
                strings_view(speakers@),
                bound@,
                j as int,
            ),
        decreases speakers.len() - j,
    {
        if !bound.contains(speakers[j].as_str()) {
            return Some(speakers[j].clone());
        }
        j = j + 1;
    }
    None
}

/// The first target of `entry` that is no label.
fn missing_target_of(entry: &DialogueEntry, labels: &LabelTable) -> (r: Option<String>)
    ensures
        match first_unknown(targets_of(entry@), labels@.dom(), 0) {
            Some(name) => r is Some && r.unwrap()@ == name,
            None => r is None,
        },
{
    match entry {
        DialogueEntry::Jump(target) => {
            assert(first_unknown(targets_of(entry@), labels@.dom(), 1) is None);
            if labels.get(target.as_str()).is_none() {
                Some(target.clone())
            } else {
                None
            }
        },
        DialogueEntry::Choice(options) => {
            let ghost targets = targets_of(entry@);
            let mut j: usize = 0;
            while j < options.len()
                invariant
                    j <= options.len(),
                    targets == targets_of(entry@),
                    entry@ == EntryView::Choice(choices_view(options@)),
                    first_unknown(targets, labels@.dom(), 0) == first_unknown(
                        targets,
                        labels@.dom(),
                        j as int,
                    ),
                decreases options.len() - j,
            {
                if labels.get(options[j].label.as_str()).is_none() {
                    return Some(options[j].label.clone());
                }
                j = j + 1;
            }
            None
        },
        _ => None,
    }
}

/// The first target of `entries`, in source order, that is no label.
fn missing_target(entries: &Vec<DialogueEntry>, labels: &LabelTable) -> (r: Option<String>)
    ensures
        match first_missing_target(entries_view(entries@), labels@.dom(), 0) {
            Some(name) => r is Some && r.unwrap()@ == name,
            None => r is None,
        },
{
    let mut k: usize = 0;
    while k < entries.len()
        invariant
            k <= entries.len(),
            first_missing_target(entries_view(entries@), labels@.dom(), 0) == first_missing_target(
                entries_view(entries@),
                labels@.dom(),
                k as int,
            ),
        decreases entries.len() - k,
    {
        match missing_target_of(&entries[k], labels) {
            Some(name) => {
                return Some(name);
            },
            None => {},
        }
        k = k + 1;
    }
    None
}

/// Resolves the statements of a script, taken in source order, into a
/// dialogue.
///
/// Fails at the first label that is defined already and at the first speaker
/// of a phrase that no earlier statement binds, whichever comes first. Where
/// neither occurs, fails with the first target of a jump or a choice, in
/// source order, that no statement defines as a label.
pub fn resolve(statements: Vec<Statement>) -> (r: Result<Dialogue, ParseError>)
    ensures
        match resolved(statements_view(statements@)) {
            Ok(d) => r is Ok && r.unwrap()@ == d,
            Err(e) => r is Err && r.unwrap_err()@ == e,
        },
{
    let ghost all = statements@;
    let ghost st = statements_view(all);
    let mut entries: Vec<DialogueEntry> = Vec::new();
    let mut labels = LabelTable::new();
    let mut bound = StringHashSet::new();
    for statement in iter: statements
        invariant
            iter.seq() == all,
            st == statements_view(all),
            first_fault(st.take(iter.index() as int)) is None,
            entries_view(entries@) == entries_of(st.take(iter.index() as int)),
            labels_view(labels@) == labels_of(st.take(iter.index() as int)),
            bound@ == bound_speakers(st.take(iter.index() as int)),
    {
        let ghost k = iter.index() as int;
        assert(st.take(k + 1).drop_last() =~= st.take(k));
        match statement {
            Statement::Label(name) => {
                if labels.get(name.as_str()).is_some() {
                    proof {
                        lemma_fault_stays(st, k + 1);
                    }
                    return Err(ParseError::DuplicateLabel(name));
                }
                let ghost before = labels@;
                let index = entries.len();
                labels.insert(name, index);
            },
            Statement::Entry(entry) => {
                match &entry {
                    DialogueEntry::NameChange(handle, _) => {
                        bound.insert(handle.clone());
                    },
                    DialogueEntry::Phrase(speakers, _) => {
                        match unbound_speaker(speakers, &bound) {
                            Some(handle) => {
                                proof {
                                    lemma_fault_stays(st, k + 1);
                                }
                                return Err(ParseError::UndefinedSpeaker(handle));
                            },
                            None => {},
                        }
                    },
                    _ => {},
                }
                let ghost before = entries_view(entries@);
                entries.push(entry);
            },
        }
    }
    assert(st.take(all.len() as int) =~= st);
    assert(labels_view(labels@).dom() =~= labels@.dom());
    match missing_target(&entries, &labels) {
        Some(name) => Err(ParseError::UndefinedLabel(name)),
        None => {
            proof {
                lemma_resolved_consistent(st);
            }
            Ok(Dialogue::new(entries, labels))
        },
    }
}

} // verus!
