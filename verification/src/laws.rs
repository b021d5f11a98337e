//! What holds of every script, proved from the definitions.

use crate::compile::{compiled, is_outcome};
use crate::dialogue::{binds, speakers_of, targets_of, Dialogue, DialogueView};
use crate::error::{ErrorView, ParseError};
use crate::extract::statements_of;
use crate::grammar::parse_program;
use crate::model::{EntryView, StatementView};
use crate::resolve::{
    bound_speakers, entries_of, first_fault, first_missing_target, first_unknown, labels_of,
    lemma_all_known, lemma_fault_stays, lemma_labels_in_range, resolved,
};
use vstd::prelude::*;

verus! {

/// A program without statements compiles to the dialogue without
/// instructions and without labels.
pub proof fn law_empty_program(s: Seq<char>)
    requires
        parse_program(s) matches Some(program) && program.children.len() == 0,
    ensures
        compiled(s) == Ok::<DialogueView, ErrorView>(
            DialogueView { entries: Seq::empty(), labels: Map::empty() },
        ),
{
}

/// A label is in the table exactly if a statement defines it.
pub proof fn law_labels_are_defined(st: Seq<StatementView>, name: Seq<char>)
    ensures
        labels_of(st).contains_key(name) <==> exists|k: int|
            0 <= k < st.len() && #[trigger] st[k] == StatementView::Label(name),
    decreases st.len(),
{
    if st.len() > 0 {
        let init = st.drop_last();
        law_labels_are_defined(init, name);
        if exists|k: int| 0 <= k < st.len() && #[trigger] st[k] == StatementView::Label(name) {
            let k = choose|k: int|
                0 <= k < st.len() && #[trigger] st[k] == StatementView::Label(name);
            if k < init.len() {
                assert(init[k] == StatementView::Label(name));
            }
        }
    }
}

/// A label stands for the index of the instruction that follows its first
/// definition: the number of instructions before it.
pub proof fn law_label_names_next_instruction(st: Seq<StatementView>, k: int, name: Seq<char>)
    requires
        0 <= k < st.len(),
        st[k] == StatementView::Label(name),
        forall|i: int| 0 <= i < k ==> #[trigger] st[i] != StatementView::Label(name),
    ensures
        labels_of(st).contains_key(name),
        labels_of(st)[name] == entries_of(st.take(k)).len(),
    decreases st.len(),
{
    let init = st.drop_last();
    if k == st.len() - 1 {
        law_labels_are_defined(init, name);
        assert(st.take(k) =~= init);
    } else {
        law_label_names_next_instruction(init, k, name);
        assert(init.take(k) =~= st.take(k));
    }
}

/// The statement binds `handle` to a name.
pub open spec fn binds_speaker(statement: StatementView, handle: Seq<char>) -> bool {
    match statement {
        StatementView::Entry(entry) => binds(entry, handle),
        StatementView::Label(_) => false,
    }
}

/// A speaker is bound exactly if a statement binds its handle to a name.
pub proof fn law_speakers_are_bound(st: Seq<StatementView>, handle: Seq<char>)
    ensures
        bound_speakers(st).contains(handle) <==> exists|k: int|
            0 <= k < st.len() && #[trigger] binds_speaker(st[k], handle),
    decreases st.len(),
{
    if st.len() > 0 {
        let init = st.drop_last();
        law_speakers_are_bound(init, handle);
        if bound_speakers(st).contains(handle) && !bound_speakers(init).contains(handle) {
            assert(binds_speaker(st[st.len() - 1], handle));
        }
        if exists|k: int| 0 <= k < st.len() && #[trigger] binds_speaker(st[k], handle) {
            let k = choose|k: int| 0 <= k < st.len() && #[trigger] binds_speaker(st[k], handle);
            if k < init.len() {
                assert(binds_speaker(init[k], handle));
            }
        }
    }
}

/// A phrase that names a speaker whom no earlier statement binds is refused
/// with that speaker's handle, whatever follows the phrase. This holds where
/// nothing is wrong with the statements before the phrase, and of the first
/// such speaker of the phrase.
pub proof fn law_unbound_speaker_is_refused(
    before: Seq<StatementView>,
    speakers: Seq<Seq<char>>,
    text: Seq<char>,
    j: int,
    after: Seq<StatementView>,
)
    requires
        first_fault(before) is None,
        0 <= j < speakers.len(),
        !bound_speakers(before).contains(speakers[j]),
        forall|i: int| 0 <= i < j ==> bound_speakers(before).contains(#[trigger] speakers[i]),
    ensures
        resolved(before.push(StatementView::Entry(EntryView::Phrase(speakers, text))) + after)
            == Err::<DialogueView, ErrorView>(ErrorView::UndefinedSpeaker(speakers[j])),
{
    let phrase = StatementView::Entry(EntryView::Phrase(speakers, text));
    let upto = before.push(phrase);
    let all = upto + after;
    assert(upto.drop_last() =~= before);
    lemma_first_unknown_at(speakers, bound_speakers(before), 0, j);
    assert(all.take(upto.len() as int) =~= upto);
    lemma_fault_stays(all, upto.len() as int);
}

/// A phrase all of whose speakers are bound by earlier statements is
/// accepted: nothing is wrong with the statements up to it, where nothing is
/// wrong with those before it.
pub proof fn law_bound_speakers_are_accepted(
    before: Seq<StatementView>,
    speakers: Seq<Seq<char>>,
    text: Seq<char>,
)
    requires
        first_fault(before) is None,
        forall|i: int|
            0 <= i < speakers.len() ==> bound_speakers(before).contains(#[trigger] speakers[i]),
    ensures
        first_fault(before.push(StatementView::Entry(EntryView::Phrase(speakers, text)))) is None,
{
    let upto = before.push(StatementView::Entry(EntryView::Phrase(speakers, text)));
    assert(upto.drop_last() =~= before);
    lemma_none_unknown(speakers, bound_speakers(before), 0);
}

/// Where `names[from..at]` are known and `names[at]` is not, `names[at]` is
/// the first unknown name.
proof fn lemma_first_unknown_at(
    names: Seq<Seq<char>>,
    known: Set<Seq<char>>,
    from: int,
    at: int,
)
    requires
        0 <= from <= at < names.len(),
        !known.contains(names[at]),
        forall|i: int| from <= i < at ==> known.contains(#[trigger] names[i]),
    ensures
        first_unknown(names, known, from) == Some(names[at]),
    decreases at - from,
{
    if from < at {
        lemma_first_unknown_at(names, known, from + 1, at);
    }
}

/// Where `names[from..]` are known, none is unknown.
proof fn lemma_none_unknown(names: Seq<Seq<char>>, known: Set<Seq<char>>, from: int)
    requires
        0 <= from,
        forall|i: int| from <= i < names.len() ==> known.contains(#[trigger] names[i]),
    ensures
        first_unknown(names, known, from) is None,
    decreases names.len() - from,
{
    if from < names.len() {
        lemma_none_unknown(names, known, from + 1);
    }
}

/// The first unknown name is one of the names, and unknown.
proof fn lemma_first_unknown_is_unknown(names: Seq<Seq<char>>, known: Set<Seq<char>>, from: int)
    requires
        0 <= from,
    ensures
        first_unknown(names, known, from) matches Some(name) ==> !known.contains(name)
            && exists|j: int| from <= j < names.len() && #[trigger] names[j] == name,
    decreases names.len() - from,
{
    if from < names.len() {
        if known.contains(names[from]) {
            lemma_first_unknown_is_unknown(names, known, from + 1);
        }
    }
}

/// The first missing target of `entries[from..]` is a target of one of them,
/// and no label.
proof fn lemma_missing_target_is_target(
    entries: Seq<EntryView>,
    labels: Set<Seq<char>>,
    from: int,
)
    requires
        0 <= from,
    ensures
        first_missing_target(entries, labels, from) matches Some(name) ==> !labels.contains(name)
            && exists|k: int, j: int|
            from <= k < entries.len() && 0 <= j < targets_of(entries[k]).len() && #[trigger] targets_of(
                entries[k],
            )[j] == name,
    decreases entries.len() - from,
{
    if from < entries.len() {
        lemma_first_unknown_is_unknown(targets_of(entries[from]), labels, 0);
        match first_unknown(targets_of(entries[from]), labels, 0) {
            Some(_) => {},
            None => {
                lemma_missing_target_is_target(entries, labels, from + 1);
            },
        }
    }
}

/// Where a target of `entries[from..]` is no label, a target is missing.
proof fn lemma_some_target_missing(
    entries: Seq<EntryView>,
    labels: Set<Seq<char>>,
    from: int,
    k: int,
    j: int,
)
    requires
        0 <= from <= k < entries.len(),
        0 <= j < targets_of(entries[k]).len(),
        !labels.contains(targets_of(entries[k])[j]),
    ensures
        first_missing_target(entries, labels, from) is Some,
    decreases entries.len() - from,
{
    if first_missing_target(entries, labels, from) is None {
        if from == k {
            lemma_all_known(targets_of(entries[k]), labels, 0);
        } else {
            lemma_some_target_missing(entries, labels, from + 1, k, j);
        }
    }
}

/// A jump or a choice whose target no statement defines as a label is
/// refused with an undefined label: a target of the script that no statement
/// defines. This holds where the script has no duplicate label and no unbound
/// speaker, which are reported first.
pub proof fn law_undefined_label_is_refused(st: Seq<StatementView>, k: int, j: int)
    requires
        first_fault(st) is None,
        0 <= k < entries_of(st).len(),
        0 <= j < targets_of(entries_of(st)[k]).len(),
        forall|i: int|
            0 <= i < st.len() ==> #[trigger] st[i] != StatementView::Label(
                targets_of(entries_of(st)[k])[j],
            ),
    ensures
        resolved(st) matches Err(ErrorView::UndefinedLabel(name)) && (forall|i: int|
            0 <= i < st.len() ==> #[trigger] st[i] != StatementView::Label(name)) && (exists|
            k: int,
            j: int,
        |
            0 <= k < entries_of(st).len() && 0 <= j < targets_of(entries_of(st)[k]).len()
                && #[trigger] targets_of(entries_of(st)[k])[j] == name),
{
    let target = targets_of(entries_of(st)[k])[j];
    law_labels_are_defined(st, target);
    lemma_some_target_missing(entries_of(st), labels_of(st).dom(), 0, k, j);
    lemma_missing_target_is_target(entries_of(st), labels_of(st).dom(), 0);
    let name = first_missing_target(entries_of(st), labels_of(st).dom(), 0).unwrap();
    law_labels_are_defined(st, name);
}

/// A script in which nothing is wrong with a statement and every target of a
/// jump or a choice is defined as a label, before or after its use, resolves
/// to a dialogue with the instructions and labels of the script.
pub proof fn law_defined_labels_are_accepted(st: Seq<StatementView>)
    requires
        first_fault(st) is None,
        forall|k: int, j: int|
            0 <= k < entries_of(st).len() && 0 <= j < targets_of(entries_of(st)[k]).len()
                ==> exists|i: int|
                0 <= i < st.len() && #[trigger] st[i] == StatementView::Label(
                    #[trigger] targets_of(entries_of(st)[k])[j],
                ),
    ensures
        resolved(st) == Ok::<DialogueView, ErrorView>(
            DialogueView { entries: entries_of(st), labels: labels_of(st) },
        ),
{
    lemma_missing_target_is_target(entries_of(st), labels_of(st).dom(), 0);
    if first_missing_target(entries_of(st), labels_of(st).dom(), 0) is Some {
        let name = first_missing_target(entries_of(st), labels_of(st).dom(), 0).unwrap();
        law_labels_are_defined(st, name);
    }
}

/// No speaker of the statement at `k` is unbound by the statements before it.
pub open spec fn speakers_bound_at(st: Seq<StatementView>, k: int) -> bool {
    st[k] matches StatementView::Entry(entry) ==> first_unknown(
        speakers_of(entry),
        bound_speakers(st.take(k)),
        0,
    ) is None
}

/// Where no speaker of the first `n` statements is unbound, what is wrong
/// with them, if anything, is a duplicate label.
proof fn lemma_fault_is_duplicate(st: Seq<StatementView>, n: int)
    requires
        0 <= n <= st.len(),
        forall|k: int| 0 <= k < n ==> speakers_bound_at(st, k),
    ensures
        first_fault(st.take(n)) matches Some(e) ==> e is DuplicateLabel,
    decreases n,
{
    if n > 0 {
        assert(st.take(n).drop_last() =~= st.take(n - 1));
        lemma_fault_is_duplicate(st, n - 1);
        assert(speakers_bound_at(st, n - 1));
    }
}

/// A script with two label statements of the same name is refused with a
/// duplicate label. This holds where no phrase before the second of the two
/// names an unbound speaker, which would be reported first.
pub proof fn law_duplicate_label_is_refused(st: Seq<StatementView>, i: int, j: int, name: Seq<char>)
    requires
        0 <= i < j < st.len(),
        st[i] == StatementView::Label(name),
        st[j] == StatementView::Label(name),
        forall|k: int| 0 <= k < j ==> speakers_bound_at(st, k),
    ensures
        resolved(st) matches Err(e) && e is DuplicateLabel,
{
    let upto = st.take(j + 1);
    assert(upto.drop_last() =~= st.take(j));
    lemma_fault_is_duplicate(st, j);
    assert(st.take(j)[i] == StatementView::Label(name));
    law_labels_are_defined(st.take(j), name);
    lemma_fault_stays(st, j + 1);
}

/// Every label of a compiled script stands for an index that is at most the
/// number of instructions.
pub proof fn law_labels_in_range(s: Seq<char>, name: Seq<char>)
    ensures
        compiled(s) matches Ok(d) ==> (d.labels.contains_key(name) ==> d.labels[name]
            <= d.entries.len()),
{
    if compiled(s) is Ok {
        lemma_labels_in_range(statements_of(parse_program(s).unwrap()));
    }
}

/// Compiling one text twice gives the same outcome: both times a dialogue,
/// and the two are equal, or both times the same error.
pub proof fn law_compiling_is_deterministic(
    s: Seq<char>,
    first: Result<Dialogue, ParseError>,
    second: Result<Dialogue, ParseError>,
)
    requires
        is_outcome(first, compiled(s)),
        is_outcome(second, compiled(s)),
    ensures
        first is Ok <==> second is Ok,
        first is Ok ==> first.unwrap()@ == second.unwrap()@,
        first is Err ==> first.unwrap_err()@ == second.unwrap_err()@,
{
}

} // verus!
