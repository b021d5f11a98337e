//! Stepping through a dialogue: the state of a player and what each
//! instruction does to it.
//!
//! The player starts at instruction 0 with no speaker bound. A name change
//! binds a handle and a phrase speaks; both lead on to the next instruction.
//! A jump leads to its label, a choice to the label of the option picked.
//! The player halts where the pointer reaches the number of instructions.

use crate::dialogue::{targets_of, Dialogue, DialogueView};
use crate::model::{strings_view, DialogueEntry, EntryView};
use vstd::prelude::*;
use vstd::string::StringExecFns;

verus! {

/// The names that a list of bindings gives to handles. Of two bindings of one
/// handle the later counts.
pub open spec fn cast_of(bindings: Seq<(Seq<char>, Seq<char>)>) -> Map<Seq<char>, Seq<char>>
    decreases bindings.len(),
{
    if bindings.len() == 0 {
        Map::empty()
    } else {
        cast_of(bindings.drop_last()).insert(bindings.last().0, bindings.last().1)
    }
}

/// The handles and names of a list of bindings.
pub open spec fn cast_view(v: Seq<(String, String)>) -> Seq<(Seq<char>, Seq<char>)> {
    Seq::new(v.len(), |i: int| (v[i].0@, v[i].1@))
}

/// The names, separated by ` & `.
pub open spec fn joined(names: Seq<Seq<char>>) -> Seq<char>
    decreases names.len(),
{
    if names.len() == 0 {
        Seq::empty()
    } else if names.len() == 1 {
        names[0]
    } else {
        joined(names.drop_last()) + " & "@ + names.last()
    }
}

/// The names of the speakers, in order.
pub open spec fn names_of(cast: Map<Seq<char>, Seq<char>>, speakers: Seq<Seq<char>>) -> Seq<
    Seq<char>,
> {
    Seq::new(speakers.len(), |i: int| cast[speakers[i]])
}

/// Who speaks a phrase: the names of its speakers, separated by ` & `. There
/// is none where a speaker has no name yet.
pub open spec fn attribution(cast: Map<Seq<char>, Seq<char>>, speakers: Seq<Seq<char>>) -> Option<
    Seq<char>,
> {
    if forall|i: int| 0 <= i < speakers.len() ==> cast.contains_key(#[trigger] speakers[i]) {
        Some(joined(names_of(cast, speakers)))
    } else {
        None
    }
}

/// The model of a [`Player`]: the index of the instruction that comes next,
/// and the name of each speaker bound so far.
pub struct PlayerView {
    pub pointer: nat,
    pub cast: Map<Seq<char>, Seq<char>>,
}

/// What performing an instruction came to.
#[derive(Clone, Copy, Debug, PartialEq, Eq, Structural)]
pub enum Step {
    /// The instruction was performed, and the player has moved on.
    Moved,
    /// The instruction is a choice and has no option of the number picked.
    /// The player has not moved.
    InvalidChoice,
    /// There is no instruction left. The player has not moved.
    Halted,
}

/// What comes of performing the instruction that `player` points at. The
/// options of a choice are numbered from 1; `pick` counts for a choice only.
pub open spec fn step_of(d: DialogueView, player: PlayerView, pick: nat) -> Step {
    if player.pointer >= d.entries.len() {
        Step::Halted
    } else {
        match d.entries[player.pointer as int] {
            EntryView::Choice(options) => if 1 <= pick <= options.len() {
                Step::Moved
            } else {
                Step::InvalidChoice
            },
            _ => Step::Moved,
        }
    }
}

/// The player after the instruction it points at is performed, where
/// `step_of` says that the player moves.
pub open spec fn after_step(d: DialogueView, player: PlayerView, pick: nat) -> PlayerView {
    match d.entries[player.pointer as int] {
        EntryView::NameChange(handle, name) => PlayerView {
            pointer: player.pointer + 1,
            cast: player.cast.insert(handle, name),
        },
        EntryView::Phrase(_, _) => PlayerView { pointer: player.pointer + 1, cast: player.cast },
        EntryView::Choice(options) => PlayerView {
            pointer: d.labels[options[pick - 1].label],
            cast: player.cast,
        },
        EntryView::Jump(target) => PlayerView { pointer: d.labels[target], cast: player.cast },
    }
}

/// A name is in the cast exactly if a binding has its handle, and the last
/// such binding gives the name.
proof fn lemma_cast_lookup(bindings: Seq<(Seq<char>, Seq<char>)>, handle: Seq<char>, k: int)
    requires
        -1 <= k < bindings.len(),
        k >= 0 ==> bindings[k].0 == handle,
        forall|i: int| k < i < bindings.len() ==> (#[trigger] bindings[i]).0 != handle,
    ensures
        cast_of(bindings).contains_key(handle) == (k >= 0),
        k >= 0 ==> cast_of(bindings)[handle] == bindings[k].1,
    decreases bindings.len(),
{
    if bindings.len() > 0 {
        let init = bindings.drop_last();
        if k < bindings.len() - 1 {
            lemma_cast_lookup(init, handle, k);
        }
    }
}

/// The state of a player of a dialogue.
#[derive(Debug)]
pub struct Player {
    pointer: usize,
    cast: Vec<(String, String)>,
}

impl View for Player {
    type V = PlayerView;

    closed spec fn view(&self) -> PlayerView {
        PlayerView { pointer: self.pointer as nat, cast: cast_of(cast_view(self.cast@)) }
    }
}

impl Player {
    /// A player at the start of a dialogue: at instruction 0, with no speaker
    /// bound.
    pub fn new() -> (p: Player)
        ensures
            p@ == (PlayerView { pointer: 0, cast: Map::empty() }),
    {
        let p = Player { pointer: 0, cast: Vec::new() };
        p
    }

    /// The index of the instruction that comes next.
    pub fn pointer(&self) -> (r: usize)
        ensures
            r == self@.pointer,
    {
        self.pointer
    }

    /// The name that `handle` is bound to, if it is bound.
    pub fn name_of(&self, handle: &str) -> (r: Option<&str>)
        ensures
            match r {
                Some(name) => self@.cast.contains_key(handle@) && self@.cast[handle@] == name@,
                None => !self@.cast.contains_key(handle@),
            },
    {
        let mut k: usize = self.cast.len();
        while k > 0
            invariant
                k <= self.cast.len(),
                forall|i: int|
                    k <= i < self.cast.len() ==> (#[trigger] cast_view(self.cast@)[i]).0 != handle@,
            decreases k,
        {
            k = k - 1;
            if self.cast[k].0.as_str().eq(handle) {
                proof {
                    lemma_cast_lookup(cast_view(self.cast@), handle@, k as int);
                }
                return Some(self.cast[k].1.as_str());
            }
        }
        proof {
            lemma_cast_lookup(cast_view(self.cast@), handle@, -1);
        }
        None
    }

    /// Who speaks a phrase with the given speakers: their names, separated by
    /// ` & `. `None` where a speaker is not bound.
    pub fn attribution(&self, speakers: &Vec<String>) -> (r: Option<String>)
        ensures
            match attribution(self@.cast, strings_view(speakers@)) {
                Some(names) => r is Some && r.unwrap()@ == names,
                None => r is None,
            },
    {
        let ghost handles = strings_view(speakers@);
        let ghost names = names_of(self@.cast, handles);
        let mut line = String::new();
        let mut i: usize = 0;
        while i < speakers.len()
            invariant
                i <= speakers.len(),
                handles == strings_view(speakers@),
                names == names_of(self@.cast, handles),
                forall|j: int| 0 <= j < i ==> self@.cast.contains_key(#[trigger] handles[j]),
                line@ == joined(names.take(i as int)),
            decreases speakers.len() - i,
        {
            match self.name_of(speakers[i].as_str()) {
                Some(name) => {
                    assert(names.take(i + 1).drop_last() =~= names.take(i as int));
                    if i > 0 {
                        line.append(" & ");
                    }
                    line.append(name);
                },
                None => {
                    assert(!self@.cast.contains_key(handles[i as int]));
                    return None;
                },
            }
            i = i + 1;
        }
        assert(names.take(speakers.len() as int) =~= names);
        Some(line)
    }

    /// Performs the instruction that the player points at, and says what came
    /// of it. The options of a choice are numbered from 1; `pick` counts for
    /// a choice only.
    pub fn step(&mut self, dialogue: &Dialogue, pick: usize) -> (r: Step)
        ensures
            r == step_of(dialogue@, old(self)@, pick as nat),
            final(self)@ == if r == Step::Moved {
                after_step(dialogue@, old(self)@, pick as nat)
            } else {
                old(self)@
            },
    {
        let dialogue = dialogue.checked();
        if self.pointer >= dialogue.len() {
            return Step::Halted;
        }
        let entry = &dialogue[self.pointer];
        match entry {
            DialogueEntry::NameChange(handle, name) => {
                let ghost before = cast_view(self.cast@);
                self.cast.push((handle.clone(), name.clone()));
                assert(cast_view(self.cast@).drop_last() =~= before);
                self.pointer = self.pointer + 1;
                Step::Moved
            },
            DialogueEntry::Phrase(_, _) => {
                self.pointer = self.pointer + 1;
                Step::Moved
            },
            DialogueEntry::Choice(options) => {
                if pick < 1 || pick > options.len() {
                    return Step::InvalidChoice;
                }
                assert(targets_of(entry@)[pick - 1] == entry@->Choice_0[pick - 1].label);
                match dialogue.label(options[pick - 1].label.as_str()) {
                    Some(index) => {
                        self.pointer = index;
                        Step::Moved
                    },
                    None => Step::Halted,
                }
            },
            DialogueEntry::Jump(target) => {
                assert(targets_of(entry@)[0] == target@);
                match dialogue.label(target.as_str()) {
                    Some(index) => {
                        self.pointer = index;
                        Step::Moved
                    },
                    None => Step::Halted,
                }
            },
        }
    }
}

} // verus!
