//! The label table: label names and the instruction indices they stand for.

use vstd::prelude::*;
use vstd::set_lib::lemma_subset_equality;
use vstd::std_specs::cmp::PartialEqSpecImpl;

verus! {

/// The names and indices of a list of bindings.
pub open spec fn bindings_view(v: Seq<(String, usize)>) -> Seq<(Seq<char>, usize)> {
    Seq::new(v.len(), |i: int| (v[i].0@, v[i].1))
}

/// The map that a list of bindings stands for. Where a name occurs twice,
/// the later binding counts.
pub open spec fn table_of(bindings: Seq<(Seq<char>, usize)>) -> Map<Seq<char>, usize>
    decreases bindings.len(),
{
    if bindings.len() == 0 {
        Map::empty()
    } else {
        table_of(bindings.drop_last()).insert(bindings.last().0, bindings.last().1)
    }
}

/// No name occurs twice in the bindings.
pub open spec fn distinct_names(bindings: Seq<(Seq<char>, usize)>) -> bool {
    forall|i: int, j: int|
        0 <= i < j < bindings.len() ==> (#[trigger] bindings[i]).0 != (#[trigger] bindings[j]).0
}

/// A name is in the table exactly if some binding has it.
pub proof fn lemma_table_domain(bindings: Seq<(Seq<char>, usize)>, name: Seq<char>)
    ensures
        table_of(bindings).contains_key(name) <==> exists|k: int|
            0 <= k < bindings.len() && (#[trigger] bindings[k]).0 == name,
    decreases bindings.len(),
{
    if bindings.len() > 0 {
        let init = bindings.drop_last();
        lemma_table_domain(init, name);
        if table_of(init).contains_key(name) {
            let k = choose|k: int| 0 <= k < init.len() && (#[trigger] init[k]).0 == name;
            assert(bindings[k].0 == name);
        }
        if exists|k: int| 0 <= k < bindings.len() && (#[trigger] bindings[k]).0 == name {
            let k = choose|k: int| 0 <= k < bindings.len() && (#[trigger] bindings[k]).0 == name;
            if k < init.len() {
                assert(init[k].0 == name);
            }
        }
    }
}

/// Where no name occurs twice, none does without the last binding.
pub proof fn lemma_distinct_prefix(bindings: Seq<(Seq<char>, usize)>)
    requires
        distinct_names(bindings),
        bindings.len() > 0,
    ensures
        distinct_names(bindings.drop_last()),
{
    let init = bindings.drop_last();
    assert forall|i: int, j: int| 0 <= i < j < init.len() implies (#[trigger] init[i]).0 != (
    #[trigger] init[j]).0 by {
        assert(bindings[i].0 != bindings[j].0);
    }
}

/// Where no name occurs twice, each binding is in the table as it stands.
pub proof fn lemma_table_value(bindings: Seq<(Seq<char>, usize)>, k: int)
    requires
        distinct_names(bindings),
        0 <= k < bindings.len(),
    ensures
        table_of(bindings).contains_key(bindings[k].0),
        table_of(bindings)[bindings[k].0] == bindings[k].1,
    decreases bindings.len(),
{
    if k < bindings.len() - 1 {
        lemma_distinct_prefix(bindings);
        lemma_table_value(bindings.drop_last(), k);
    }
}

/// Where no name occurs twice, the table has as many names as there are
/// bindings.
pub proof fn lemma_table_len(bindings: Seq<(Seq<char>, usize)>)
    requires
        distinct_names(bindings),
    ensures
        table_of(bindings).dom().finite(),
        table_of(bindings).dom().len() == bindings.len(),
    decreases bindings.len(),
{
    if bindings.len() > 0 {
        let init = bindings.drop_last();
        lemma_distinct_prefix(bindings);
        lemma_table_len(init);
        lemma_table_domain(init, bindings.last().0);
        if table_of(init).contains_key(bindings.last().0) {
            let k = choose|k: int|
                0 <= k < init.len() && (#[trigger] init[k]).0 == bindings.last().0;
            assert(bindings[k].0 == bindings[bindings.len() - 1].0);
        }
    }
}

/// A table from label names to instruction indices.
#[derive(Debug)]
pub struct LabelTable {
    bindings: Vec<(String, usize)>,
}

impl View for LabelTable {
    type V = Map<Seq<char>, usize>;

    closed spec fn view(&self) -> Map<Seq<char>, usize> {
        table_of(bindings_view(self.bindings@))
    }
}

impl LabelTable {
    #[verifier::type_invariant]
    spec fn no_name_twice(&self) -> bool {
        distinct_names(bindings_view(self.bindings@))
    }

    /// The empty table.
    pub fn new() -> (t: LabelTable)
        ensures
            t@ == Map::<Seq<char>, usize>::empty(),
    {
        let t = LabelTable { bindings: Vec::new() };
        t
    }

    /// The index that `name` is bound to, if it is bound.
    pub fn get(&self, name: &str) -> (r: Option<usize>)
        ensures
            match r {
                Some(index) => self@.contains_key(name@) && self@[name@] == index,
                None => !self@.contains_key(name@),
            },
    {
        proof {
            use_type_invariant(self);
            lemma_table_domain(bindings_view(self.bindings@), name@);
        }
        let mut i: usize = 0;
        while i < self.bindings.len()
            invariant
                i <= self.bindings.len(),
                distinct_names(bindings_view(self.bindings@)),
                forall|k: int|
                    0 <= k < i ==> (#[trigger] bindings_view(self.bindings@)[k]).0 != name@,
            decreases self.bindings.len() - i,
        {
            if self.bindings[i].0.as_str().eq(name) {
                proof {
                    lemma_table_value(bindings_view(self.bindings@), i as int);
                }
                return Some(self.bindings[i].1);
            }
            i = i + 1;
        }
        None
    }

    /// Binds `name` to `index` if the name is not bound yet, and says whether
    /// it did. A name that is bound keeps its index.
    pub fn insert(&mut self, name: String, index: usize) -> (r: bool)
        ensures
            r == !old(self)@.contains_key(name@),
            final(self)@ == if r {
                old(self)@.insert(name@, index)
            } else {
                old(self)@
            },
    {
        if self.get(name.as_str()).is_some() {
            return false;
        }
        proof {
            use_type_invariant(&*self);
            lemma_table_domain(bindings_view(self.bindings@), name@);
        }
        let ghost before = bindings_view(self.bindings@);
        let mut bindings: Vec<(String, usize)> = Vec::new();
        std::mem::swap(&mut self.bindings, &mut bindings);
        bindings.push((name, index));
        proof {
            let after = bindings_view(bindings@);
            assert(after.drop_last() =~= before);
            assert forall|i: int, j: int| 0 <= i < j < after.len() implies (#[trigger] after[i]).0 != (
            #[trigger] after[j]).0 by {
                assert(after[i] == before[i]);
                if j < before.len() {
                    assert(after[j] == before[j]);
                }
            }
        }
        std::mem::swap(&mut self.bindings, &mut bindings);
        true
    }

    /// The number of names in the table.
    pub fn len(&self) -> (n: usize)
        ensures
            self@.dom().finite(),
            n == self@.len(),
    {
        proof {
            use_type_invariant(self);
            lemma_table_len(bindings_view(self.bindings@));
        }
        self.bindings.len()
    }

    /// Whether the table holds no name.
    pub fn is_empty(&self) -> (r: bool)
        ensures
            r == (self@.len() == 0),
            r == (self@ == Map::<Seq<char>, usize>::empty()),
    {
        proof {
            use_type_invariant(self);
            lemma_table_len(bindings_view(self.bindings@));
        }
        self.bindings.len() == 0
    }

    /// The bindings of the table, each name once.
    pub fn bindings(&self) -> (r: &Vec<(String, usize)>)
        ensures
            distinct_names(bindings_view(r@)),
            table_of(bindings_view(r@)) == self@,
    {
        proof {
            use_type_invariant(self);
        }
        &self.bindings
    }
}

impl PartialEq for LabelTable {
    /// Two tables are equal if they bind the same names to the same indices,
    /// in whatever order.
    fn eq(&self, other: &LabelTable) -> (r: bool) {
        if self.len() != other.len() {
            return false;
        }
        proof {
            use_type_invariant(self);
        }
        let mut i: usize = 0;
        while i < self.bindings.len()
            invariant
                i <= self.bindings.len(),
                distinct_names(bindings_view(self.bindings@)),
                forall|k: int|
                    0 <= k < i ==> other@.contains_key(
                        (#[trigger] bindings_view(self.bindings@)[k]).0,
                    ) && other@[bindings_view(self.bindings@)[k].0] == bindings_view(
                        self.bindings@,
                    )[k].1,
            decreases self.bindings.len() - i,
        {
            proof {
                lemma_table_value(bindings_view(self.bindings@), i as int);
            }
            match other.get(self.bindings[i].0.as_str()) {
                Some(index) => {
                    if index != self.bindings[i].1 {
                        return false;
                    }
                },
                None => {
                    return false;
                },
            }
            i = i + 1;
        }
        proof {
            let mine = bindings_view(self.bindings@);
            assert forall|name: Seq<char>| #[trigger]
                self@.dom().contains(name) implies other@.dom().contains(name) && other@[name]
                == self@[name] by {
                lemma_table_domain(mine, name);
                let k = choose|k: int| 0 <= k < mine.len() && (#[trigger] mine[k]).0 == name;
                lemma_table_value(mine, k);
            }
            lemma_subset_equality(self@.dom(), other@.dom());
            assert(self@ =~= other@);
        }
        true
    }
}

impl PartialEqSpecImpl for LabelTable {
    open spec fn obeys_eq_spec() -> bool {
        true
    }

    open spec fn eq_spec(&self, other: &LabelTable) -> bool {
        self@ == other@
    }
}

impl Eq for LabelTable {

}

} // verus!
